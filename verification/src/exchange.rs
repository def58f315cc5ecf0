//! A request to the console and the wait for its reply, as steps around the sending and the
//! receiving.
//!
//! An [`Exchange`] already listens when it is made, so that no reply can slip by between the
//! sending and the waiting. [`Exchange::begin`] gives the datagram to send, [`Sending::sent`] takes
//! what came of that, and [`Waiting::received`] takes each message in turn.

use crate::feed::{delivery, gained, handed, heard_of, lemma_heard_join, receiver_channel, Sent};
use crate::osc::{messages, Message, MessageView, PacketView};
use tokio::sync::broadcast;
use vstd::prelude::*;

verus! {

/// A request that is ready to be sent, and the receiver that will hear the reply.
pub struct Exchange {
    request: Vec<u8>,
    listening: Listening,
}

/// An exchange whose request is being sent.
pub struct Sending {
    listening: Listening,
}

/// An exchange whose request is out: what to receive from, and what to wait for.
pub struct Listening {
    pub rx: broadcast::Receiver<Message>,
    pub waiting: Waiting,
}

/// The wait for a message to an address.
pub struct Waiting {
    expect: String,
}

/// Where a wait stands after a message.
pub enum Progress {
    /// The message that was waited for.
    Reply(Message),
    /// The message was another one.
    Waiting(Waiting),
}

/// What was received, by what it holds.
pub open spec fn heard<E>(outcome: Result<Message, E>) -> Result<MessageView, E> {
    match outcome {
        Ok(message) => Ok(message@),
        Err(error) => Err(error),
    }
}

/// What a message, or an error in its place, means to a wait: the end of it, or nothing.
pub open spec fn wait_step<E>(expect: Seq<char>, outcome: Result<MessageView, E>) -> Option<
    Result<MessageView, E>,
> {
    match outcome {
        Ok(message) => if message.addr == expect {
            Some(Ok(message))
        } else {
            None
        },
        Err(error) => Some(Err(error)),
    }
}

/// What a wait ends with, given all that it receives in turn; nothing while it goes on.
pub open spec fn wait_result<E>(
    expect: Seq<char>,
    outcomes: Seq<Result<MessageView, E>>,
) -> Option<Result<MessageView, E>>
    decreases outcomes.len(),
{
    if outcomes.len() == 0 {
        None
    } else {
        match wait_step(expect, outcomes.first()) {
            Some(end) => Some(end),
            None => wait_result(expect, outcomes.drop_first()),
        }
    }
}

impl Waiting {
    /// The address that is waited for.
    pub closed spec fn expect(&self) -> Seq<char> {
        self.expect@
    }

    /// The wait for a message to `expect`.
    pub fn new(expect: &str) -> (r: Waiting)
        ensures
            r.expect() == expect@,
    {
        Waiting { expect: expect.to_owned() }
    }

    /// Takes the next message, or the error that came in its place.
    pub fn received<E>(self, outcome: Result<Message, E>) -> (r: Result<Progress, E>)
        ensures
            match outcome {
                Ok(message) => if message.addr@ == self.expect() {
                    r == Ok::<Progress, E>(Progress::Reply(message))
                } else {
                    r == Ok::<Progress, E>(Progress::Waiting(self))
                },
                Err(error) => r == Err::<Progress, E>(error),
            },
            wait_step(self.expect(), heard(outcome)) == (match r {
                Ok(Progress::Reply(message)) => Some(Ok::<MessageView, E>(message@)),
                Ok(Progress::Waiting(_)) => None,
                Err(error) => Some(Err(error)),
            }),
    {
        match outcome {
            Ok(message) => {
                if message.addr == self.expect {
                    Ok(Progress::Reply(message))
                } else {
                    Ok(Progress::Waiting(self))
                }
            },
            Err(error) => Err(error),
        }
    }
}

impl Sending {
    /// What the exchange listens to.
    pub closed spec fn listening(&self) -> Listening {
        self.listening
    }

    /// Takes what came of the sending: the wait for the reply starts, or the exchange ends with the
    /// error.
    pub fn sent<E>(self, outcome: Result<(), E>) -> (r: Result<Listening, E>)
        ensures
            r == (match outcome {
                Ok(()) => Ok::<Listening, E>(self.listening()),
                Err(error) => Err(error),
            }),
    {
        match outcome {
            Ok(()) => Ok(self.listening),
            Err(error) => Err(error),
        }
    }
}

impl Exchange {
    /// The datagram to send.
    pub closed spec fn request(&self) -> Seq<u8> {
        self.request@
    }

    /// The channel that the reply is to come from.
    pub closed spec fn channel(&self) -> int {
        receiver_channel(self.listening.rx)
    }

    /// The address that the reply is to have.
    pub closed spec fn expect(&self) -> Seq<char> {
        self.listening.waiting.expect()
    }

    /// An exchange that listens already and is about to send.
    pub(crate) fn new(
        request: Vec<u8>,
        rx: broadcast::Receiver<Message>,
        waiting: Waiting,
    ) -> (r: Exchange)
        ensures
            r.request() == request@,
            r.channel() == receiver_channel(rx),
            r.expect() == waiting.expect(),
    {
        Exchange { request, listening: Listening { rx, waiting } }
    }

    /// Gives the datagram to send.
    pub fn begin(self) -> (r: (Vec<u8>, Sending))
        ensures
            r.0@ == self.request(),
            receiver_channel(r.1.listening().rx) == self.channel(),
            r.1.listening().waiting.expect() == self.expect(),
    {
        (self.request, Sending { listening: self.listening })
    }
}

/// A wait passes over the messages to other addresses, however many there are, and ends with the
/// first message to its own address or with the first error, whichever comes earlier.
pub proof fn law_first_match_or_error_ends_the_wait<E>(
    expect: Seq<char>,
    outcomes: Seq<Result<MessageView, E>>,
    n: int,
)
    requires
        0 <= n < outcomes.len(),
        forall|i: int|
            0 <= i < n ==> (#[trigger] outcomes[i] matches Ok(message) && message.addr != expect),
        outcomes[n] matches Ok(message) ==> message.addr == expect,
    ensures
        wait_result(expect, outcomes) == Some(outcomes[n]),
    decreases n,
{
    if n > 0 {
        assert(outcomes[0] matches Ok(message) && message.addr != expect);
        assert(outcomes.drop_first()[n - 1] == outcomes[n]);
        assert forall|i: int| 0 <= i < n - 1 implies (
        #[trigger] outcomes.drop_first()[i] matches Ok(message) && message.addr != expect) by {
            assert(outcomes.drop_first()[i] == outcomes[i + 1]);
        }
        law_first_match_or_error_ends_the_wait(expect, outcomes.drop_first(), n - 1);
    }
}

/// A wait goes on for as long as all that it receives are messages to other addresses.
pub proof fn law_wait_goes_on<E>(expect: Seq<char>, outcomes: Seq<Result<MessageView, E>>)
    requires
        forall|i: int|
            0 <= i < outcomes.len() ==> (#[trigger] outcomes[i] matches Ok(message)
                && message.addr != expect),
    ensures
        wait_result(expect, outcomes) is None,
    decreases outcomes.len(),
{
    if outcomes.len() > 0 {
        assert(outcomes[0] matches Ok(message) && message.addr != expect);
        assert forall|i: int| 0 <= i < outcomes.len() - 1 implies (
        #[trigger] outcomes.drop_first()[i] matches Ok(message) && message.addr != expect) by {
            assert(outcomes.drop_first()[i] == outcomes[i + 1]);
        }
        law_wait_goes_on(expect, outcomes.drop_first());
    }
}

/// A reply that a wait ends with always has the address that was waited for.
pub proof fn law_reply_has_the_address<E>(
    expect: Seq<char>,
    outcomes: Seq<Result<MessageView, E>>,
)
    ensures
        wait_result(expect, outcomes) matches Some(Ok(message)) ==> message.addr == expect,
    decreases outcomes.len(),
{
    if outcomes.len() > 0 {
        law_reply_has_the_address(expect, outcomes.drop_first());
    }
}

/// What was heard of a log is to other addresses where all of the log is.
proof fn lemma_heard_elsewhere(log: Seq<Sent>, expect: Seq<char>)
    requires
        forall|i: int| 0 <= i < log.len() ==> (#[trigger] log[i]).message.addr != expect,
    ensures
        forall|i: int|
            0 <= i < heard_of(log).len() ==> (#[trigger] heard_of(log)[i]).addr != expect,
    decreases log.len(),
{
    if log.len() > 0 {
        assert forall|i: int| 0 <= i < log.drop_last().len() implies (
        #[trigger] log.drop_last()[i]).message.addr != expect by {
            assert(log.drop_last()[i] == log[i]);
        }
        lemma_heard_elsewhere(log.drop_last(), expect);
        assert(log[log.len() - 1].message.addr != expect);
        let earlier = heard_of(log.drop_last());
        assert forall|i: int| 0 <= i < heard_of(log).len() implies (
        #[trigger] heard_of(log)[i]).addr != expect by {
            if i < earlier.len() {
                assert(heard_of(log)[i] == earlier[i]);
            }
        }
    }
}

/// A reply is found wherever it stands in a packet: of what is heard of the packet's messages, the
/// first to the address ends the wait, whether or not somebody listened for those before it.
pub proof fn law_reply_is_found_in_a_packet<E>(
    expect: Seq<char>,
    packet: PacketView,
    before: Seq<Sent>,
    after: Seq<Sent>,
    k: int,
)
    requires
        delivery(before, after, messages(packet)),
        0 <= k < messages(packet).len(),
        messages(packet)[k].addr == expect,
        gained(before, after)[k].receivers > 0,
        forall|i: int| 0 <= i < k ==> (#[trigger] messages(packet)[i]).addr != expect,
    ensures
        wait_result(
            expect,
            heard_of(gained(before, after)).map_values(|message: MessageView| Ok::<_, E>(message)),
        ) == Some(Ok::<MessageView, E>(messages(packet)[k])),
{
    let log = gained(before, after);
    let outcomes = heard_of(log).map_values(|message: MessageView| Ok::<_, E>(message));
    assert(handed(log).len() == log.len());
    assert forall|i: int| 0 <= i < k implies (#[trigger] log.take(k)[i]).message.addr != expect by {
        assert(handed(log)[i] == messages(packet)[i]);
    }
    lemma_heard_elsewhere(log.take(k), expect);
    let n = heard_of(log.take(k)).len() as int;
    assert(handed(log)[k] == log[k].message);
    assert(log.take(k + 1).drop_last() == log.take(k));
    assert(heard_of(log.take(k + 1)) == heard_of(log.take(k)).push(log[k].message));
    assert(log == log.take(k + 1) + log.skip(k + 1));
    lemma_heard_join(log.take(k + 1), log.skip(k + 1));
    assert(heard_of(log)[n] == log[k].message);
    assert forall|i: int| 0 <= i < n implies (#[trigger] outcomes[i] matches Ok(message)
        && message.addr != expect) by {
        assert(heard_of(log)[i] == heard_of(log.take(k))[i]);
    }
    law_first_match_or_error_ends_the_wait(expect, outcomes, n);
}

} // verus!
