//! Meter readings and the blob that carries them.

use crate::osc::{Argument, Message, ReplyError};
use vstd::prelude::*;
use vstd::slice::slice_subrange;

verus! {

/// How many meters a reading has.
pub const METERS: usize = 32;

/// The number that four bytes stand for, the lowest byte first.
pub open spec fn le_value(bytes: Seq<u8>) -> u32 {
    (bytes[0] + 0x100 * bytes[1] + 0x1_0000 * bytes[2] + 0x100_0000 * bytes[3]) as u32
}

/// Reads a number from the first four bytes, the lowest byte first, and gives the bytes behind it.
fn le_u32<'a>(bytes: &'a [u8]) -> (r: Option<(&'a [u8], u32)>)
    ensures
        match r {
            Some((rest, value)) => {
                &&& bytes@.len() >= 4
                &&& rest@ == bytes@.skip(4)
                &&& value == le_value(bytes@)
            },
            None => bytes@.len() < 4,
        },
{
    if bytes.len() < 4 {
        return None;
    }
    let value: u32 = bytes[0] as u32 + 0x100 * bytes[1] as u32 + 0x1_0000 * bytes[2] as u32
        + 0x100_0000 * bytes[3] as u32;
    Some((slice_subrange(bytes, 4, bytes.len()), value))
}

/// A source of values, each of which may turn out to be an error.
pub trait Values<T, E>: Sized {
    /// What the call of `next` with this number gives, the calls counted from zero.
    spec fn nth(&self, n: nat) -> Option<Result<T, E>>;

    /// Gives the next value, nothing where there is none.
    fn next(&mut self) -> (r: Option<Result<T, E>>)
        ensures
            r == old(self).nth(0),
            forall|n: nat| #[trigger] final(self).nth(n) == old(self).nth(n + 1),
    ;
}

/// Why a list of values could not be collected.
#[derive(Debug, PartialEq)]
pub enum CollectError<E> {
    /// There is no value for this position.
    Missing(usize),
    /// A value is an error.
    Value(E),
}

/// Whether a source gives a value for each of the first `len` positions.
pub open spec fn gives<T, E, V: Values<T, E>>(values: V, len: nat) -> bool {
    forall|i: int| 0 <= i < len ==> (#[trigger] values.nth(i as nat) matches Some(Ok(_)))
}

/// Whether a source, once read `count` times, goes on where it was.
pub open spec fn read_times<T, E, V: Values<T, E>>(before: V, after: V, count: nat) -> bool {
    forall|n: nat| #[trigger] after.nth(n) == before.nth(n + count)
}

/// Fills an array with the first values of a source, which is read no further than that, or than
/// the first position that has no value.
pub fn collect_array<T, E, V: Values<T, E>>(values: &mut V, array: &mut [T]) -> (r: Result<
    (),
    CollectError<E>,
>)
    ensures
        final(array)@.len() == old(array)@.len(),
        r is Ok <==> gives::<T, E, V>(*old(values), old(array)@.len()),
        r is Ok ==> {
            &&& read_times::<T, E, V>(*old(values), *final(values), old(array)@.len())
            &&& forall|i: int|
                0 <= i < old(array)@.len() ==> old(values).nth(i as nat) == Some(
                    Ok::<T, E>(#[trigger] final(array)@[i]),
                )
        },
        r is Err ==> exists|k: nat|
            {
                &&& k < old(array)@.len()
                &&& gives::<T, E, V>(*old(values), k)
                &&& match #[trigger] old(values).nth(k) {
                    None => r == Err::<(), CollectError<E>>(CollectError::Missing(k as usize)),
                    Some(Err(error)) => r == Err::<(), CollectError<E>>(CollectError::Value(error)),
                    Some(Ok(_)) => false,
                }
                &&& read_times::<T, E, V>(*old(values), *final(values), k + 1)
                &&& forall|i: int|
                    0 <= i < k ==> old(values).nth(i as nat) == Some(
                        Ok::<T, E>(#[trigger] final(array)@[i]),
                    )
                &&& forall|i: int|
                    k <= i < old(array)@.len() ==> #[trigger] final(array)@[i] == old(array)@[i]
            },
{
    let mut i: usize = 0;
    while i < array.len()
        invariant
            i <= array@.len(),
            array@.len() == old(array)@.len(),
            read_times::<T, E, V>(*old(values), *values, i as nat),
            gives::<T, E, V>(*old(values), i as nat),
            forall|j: int|
                0 <= j < i ==> old(values).nth(j as nat) == Some(Ok::<T, E>(#[trigger] array@[j])),
            forall|j: int| i <= j < array@.len() ==> #[trigger] array@[j] == old(array)@[j],
        decreases array@.len() - i,
    {
        let ghost before = *values;
        assert(values.nth(0) == old(values).nth(i as nat));
        let next = values.next();
        assert forall|n: nat| #[trigger] values.nth(n) == old(values).nth(n + (i + 1) as nat) by {
            assert(before.nth(n + 1) == old(values).nth(n + 1 + i as nat));
        }
        match next {
            Some(Ok(value)) => {
                array[i] = value;
            },
            Some(Err(error)) => {
                return Err(CollectError::Value(error));
            },
            None => {
                return Err(CollectError::Missing(i));
            },
        }
        i = i + 1;
    }
    Ok(())
}

/// Reads the floats of a blob one by one, as bit patterns.
pub struct FloatIter<'a> {
    rest: &'a [u8],
    num_floats: u32,
}

/// The float with a number, of `count` floats that were announced in front of some bytes: the
/// floats that the bytes hold in full are there; if more were announced than that, the next one is
/// an error for good, and if not, nothing comes after the announced ones.
pub open spec fn float_at<'a>(bytes: Seq<u8>, count: nat, n: nat) -> Option<
    Result<u32, ReplyError<'a>>,
> {
    if n < count && n < bytes.len() / 4 {
        Some(Ok(le_value(bytes.skip(4 * n as int))))
    } else if count <= bytes.len() / 4 {
        None
    } else {
        Some(Err(ReplyError::TruncatedFloat))
    }
}

impl<'a> FloatIter<'a> {
    /// The bytes that are not read yet.
    pub closed spec fn rest(&self) -> Seq<u8> {
        self.rest@
    }

    /// How many floats are announced and not read yet.
    pub closed spec fn count(&self) -> nat {
        self.num_floats as nat
    }
}

impl<'a> Values<u32, ReplyError<'a>> for FloatIter<'a> {
    open spec fn nth(&self, n: nat) -> Option<Result<u32, ReplyError<'a>>> {
        float_at(self.rest(), self.count(), n)
    }

    fn next(&mut self) -> (r: Option<Result<u32, ReplyError<'a>>>) {
        if self.num_floats == 0 {
            return None;
        }
        match le_u32(self.rest) {
            Some((rest, bits)) => {
                let ghost before = self.rest@;
                self.num_floats = self.num_floats - 1;
                self.rest = rest;
                proof {
                    assert(before.skip(0) == before);
                    assert forall|n: nat|
                        #[trigger] float_at(rest@, self.num_floats as nat, n) == float_at(
                            before,
                            self.num_floats as nat + 1,
                            n + 1,
                        ) by {
                        if n < rest@.len() / 4 {
                            assert(rest@.skip(4 * n as int) == before.skip(4 * (n + 1) as int));
                        }
                    }
                }
                Some(Ok(bits))
            },
            None => Some(Err(ReplyError::TruncatedFloat)),
        }
    }
}

/// Starts to read a blob of floats: their number, and then the floats, all of it in little-endian
/// order.
pub fn get_float_iter_from_blob<'a>(blob: &'a [u8]) -> (r: Result<FloatIter<'a>, ReplyError<'a>>)
    ensures
        match r {
            Ok(floats) => {
                &&& blob@.len() >= 4
                &&& floats.rest() == blob@.skip(4)
                &&& floats.count() == le_value(blob@)
            },
            Err(error) => blob@.len() < 4 && error == ReplyError::MissingFloatCount,
        },
{
    match le_u32(blob) {
        Some((rest, num_floats)) => Ok(FloatIter { rest, num_floats }),
        None => Err(ReplyError::MissingFloatCount),
    }
}

/// The bytes at the end of a blob that are too few for a number: where a count or a float could not
/// be read, they are what was left to read it from.
pub fn cut_bytes<'a>(blob: &'a [u8]) -> (rest: &'a [u8])
    ensures
        rest@ == blob@.skip(blob@.len() as int / 4 * 4),
        rest@.len() < 4,
{
    slice_subrange(blob, blob.len() / 4 * 4, blob.len())
}

/// The meter readings in a blob, as bit patterns: the first floats of it, where it announces and
/// holds as many as there are meters.
pub open spec fn meters_in<'a>(blob: Seq<u8>) -> Result<Seq<u32>, ReplyError<'a>> {
    let held = (blob.len() - 4) / 4;
    if blob.len() < 4 {
        Err(ReplyError::MissingFloatCount)
    } else if METERS <= le_value(blob) && METERS <= held {
        Ok(Seq::new(METERS as nat, |i: int| le_value(blob.skip(4 + 4 * i))))
    } else if le_value(blob) <= held {
        Err(ReplyError::MissingFloat(le_value(blob) as usize))
    } else {
        Err(ReplyError::TruncatedFloat)
    }
}

/// Reads the meters out of a reply.
pub fn read_meters<'a>(message: &'a Message) -> (r: Result<[u32; METERS], ReplyError<'a>>)
    ensures
        message.args@.len() > 0 && message.args@[0] is Blob ==> match meters_in(
            message.args@[0]->Blob_0@,
        ) {
            Ok(meters) => r matches Ok(array) && array@ == meters,
            Err(error) => r == Err::<[u32; METERS], ReplyError>(error),
        },
        !(message.args@.len() > 0 && message.args@[0] is Blob) ==> r == Err::<
            [u32; METERS],
            ReplyError,
        >(ReplyError::ExpectedBlob),
{
    if message.args.len() == 0 {
        return Err(ReplyError::ExpectedBlob);
    }
    let blob = match &message.args[0] {
        Argument::Blob(blob) => blob,
        _ => {
            return Err(ReplyError::ExpectedBlob);
        },
    };
    let mut values = match get_float_iter_from_blob(blob.as_slice()) {
        Ok(values) => values,
        Err(error) => {
            return Err(error);
        },
    };
    let ghost floats = values;
    let mut meters = [0u32; METERS];
    let outcome = collect_array(&mut values, &mut meters);
    proof {
        let bytes = blob@;
        assert forall|i: int| 0 <= i && 4 + 4 * i <= bytes.len() implies bytes.skip(4).skip(4 * i)
            == #[trigger] bytes.skip(4 + 4 * i) by {}
        if outcome is Ok {
            assert(floats.nth((METERS - 1) as nat) == Some(
                Ok::<u32, ReplyError>(meters@[METERS - 1]),
            ));
            assert forall|i: int| 0 <= i < METERS implies meters@[i] == le_value(
                bytes.skip(4 + 4 * i),
            ) by {
                assert(floats.nth(i as nat) == Some(Ok::<u32, ReplyError>(meters@[i])));
            }
            assert(meters@ == meters_in(bytes)->Ok_0);
        } else {
            let count = floats.count() as int;
            assert(!(floats.nth(count as nat) matches Some(Ok(_))));
        }
    }
    match outcome {
        Ok(()) => Ok(meters),
        Err(CollectError::Missing(index)) => Err(ReplyError::MissingFloat(index)),
        Err(CollectError::Value(error)) => Err(error),
    }
}

/// The four bytes that stand for a number, the lowest byte first.
pub open spec fn le_bytes(value: u32) -> Seq<u8> {
    seq![
        (value % 0x100) as u8,
        (value / 0x100 % 0x100) as u8,
        (value / 0x1_0000 % 0x100) as u8,
        (value / 0x100_0000) as u8,
    ]
}

/// The bytes of a run of floats, given as bit patterns.
pub open spec fn float_bytes(floats: Seq<u32>) -> Seq<u8> {
    Seq::new(4 * floats.len(), |i: int| le_bytes(floats[i / 4])[i % 4])
}

/// The blob that carries a run of floats: their number, and then the floats.
pub open spec fn float_blob(floats: Seq<u32>) -> Seq<u8> {
    le_bytes(floats.len() as u32) + float_bytes(floats)
}

/// A number reads back from its bytes, whatever stands behind them.
pub proof fn law_number_reads_back(value: u32, tail: Seq<u8>)
    ensures
        le_value(le_bytes(value) + tail) == value,
{
    let bytes = le_bytes(value) + tail;
    assert(bytes[0] == le_bytes(value)[0]);
    assert(bytes[1] == le_bytes(value)[1]);
    assert(bytes[2] == le_bytes(value)[2]);
    assert(bytes[3] == le_bytes(value)[3]);
}

/// The floats of a blob read back one by one, and nothing comes after them, whatever bytes stand
/// behind the blob.
pub proof fn law_floats_read_back(floats: Seq<u32>, tail: Seq<u8>)
    requires
        floats.len() <= u32::MAX,
    ensures
        ({
            let blob = float_blob(floats) + tail;
            &&& le_value(blob) == floats.len()
            &&& forall|n: nat|
                n < floats.len() ==> #[trigger] float_at(
                    blob.skip(4),
                    floats.len(),
                    n,
                ) == Some(Ok::<u32, ReplyError>(floats[n as int]))
            &&& float_at(blob.skip(4), floats.len(), floats.len()) is None
        }),
{
    let blob = float_blob(floats) + tail;
    let count = floats.len() as u32;
    assert(blob == le_bytes(count) + (float_bytes(floats) + tail));
    law_number_reads_back(count, float_bytes(floats) + tail);
    assert(blob.skip(4) == float_bytes(floats) + tail);
    assert forall|n: nat| n < floats.len() implies #[trigger] float_at(
        blob.skip(4),
        floats.len(),
        n,
    ) == Some(Ok::<u32, ReplyError>(floats[n as int])) by {
        let bytes = blob.skip(4).skip(4 * n as int);
        let float = floats[n as int];
        assert forall|i: int| 0 <= i < 4 implies #[trigger] bytes[i] == le_bytes(float)[i] by {
            assert((4 * n + i) / 4 == n && (4 * n + i) % 4 == i);
        }
        assert(bytes == le_bytes(float) + bytes.skip(4));
        law_number_reads_back(float, bytes.skip(4));
    }
}

/// Meter readings read back from the blob that carries them: a blob of as many floats as there are
/// meters, or more, gives its first floats, and a shorter one is refused at its end.
pub proof fn law_meters_read_back(floats: Seq<u32>, tail: Seq<u8>)
    requires
        floats.len() <= u32::MAX,
    ensures
        METERS <= floats.len() ==> meters_in(float_blob(floats) + tail) == Ok::<
            Seq<u32>,
            ReplyError,
        >(floats.take(METERS as int)),
        floats.len() < METERS ==> meters_in(float_blob(floats) + tail) == Err::<
            Seq<u32>,
            ReplyError,
        >(ReplyError::MissingFloat(floats.len() as usize)),
{
    let blob = float_blob(floats) + tail;
    law_floats_read_back(floats, tail);
    if METERS <= floats.len() {
        let meters = meters_in(blob)->Ok_0;
        assert forall|i: int| 0 <= i < METERS implies #[trigger] meters[i] == floats[i] by {
            assert(float_at(blob.skip(4), floats.len(), i as nat) == Some(
                Ok::<u32, ReplyError>(floats[i]),
            ));
            assert(blob.skip(4).skip(4 * i) == blob.skip(4 + 4 * i));
        }
        assert(meters == floats.take(METERS as int));
    }
}

/// Bytes behind a blob that gives all meters do not change what it gives.
pub proof fn law_meters_ignore_what_follows(blob: Seq<u8>, tail: Seq<u8>)
    requires
        meters_in(blob) is Ok,
    ensures
        meters_in(blob + tail) == meters_in(blob),
{
    assert(le_value(blob + tail) == le_value(blob));
    let short = meters_in(blob)->Ok_0;
    let long = meters_in(blob + tail)->Ok_0;
    assert forall|i: int| 0 <= i < METERS implies #[trigger] long[i] == short[i] by {
        let a = blob.skip(4 + 4 * i);
        let b = (blob + tail).skip(4 + 4 * i);
        assert(a[0] == b[0] && a[1] == b[1] && a[2] == b[2] && a[3] == b[3]);
    }
    assert(long == short);
}

} // verus!
