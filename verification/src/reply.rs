//! Reading what the console replies.

use crate::index::HeadampIndex;
use crate::osc::{arg, arg_as_str, arg_at, as_float, as_i32, Argument, Message, ReplyError};
use vstd::prelude::*;

verus! {

/// What the console says of itself.
#[derive(Debug)]
pub struct Info {
    pub osc_version: String,
    pub osc_kind: String,
    pub name: String,
    pub version: String,
}

/// The text in a position of a message.
pub open spec fn text_at<'a>(message: &'a Message, index: nat) -> Result<
    Seq<char>,
    ReplyError<'a>,
> {
    match arg_at(message, index) {
        Ok(Argument::String(text)) => Ok(text@),
        Ok(other) => Err(ReplyError::ExpectedString(other)),
        Err(error) => Err(error),
    }
}

/// Reads the four texts of an info reply, one after the other.
pub fn read_info<'a>(message: &'a Message) -> (r: Result<Info, ReplyError<'a>>)
    ensures
        match (
            text_at(message, 0),
            text_at(message, 1),
            text_at(message, 2),
            text_at(message, 3),
        ) {
            (Ok(osc_version), Ok(osc_kind), Ok(name), Ok(version)) => {
                &&& r matches Ok(info)
                &&& info.osc_version@ == osc_version
                &&& info.osc_kind@ == osc_kind
                &&& info.name@ == name
                &&& info.version@ == version
            },
            (Ok(_), Ok(_), Ok(_), Err(error)) => r == Err::<Info, ReplyError>(error),
            (Ok(_), Ok(_), Err(error), _) => r == Err::<Info, ReplyError>(error),
            (Ok(_), Err(error), _, _) => r == Err::<Info, ReplyError>(error),
            (Err(error), _, _, _) => r == Err::<Info, ReplyError>(error),
        },
{
    let osc_version = match arg_as_str(message, 0) {
        Ok(text) => text.to_owned(),
        Err(error) => {
            return Err(error);
        },
    };
    let osc_kind = match arg_as_str(message, 1) {
        Ok(text) => text.to_owned(),
        Err(error) => {
            return Err(error);
        },
    };
    let name = match arg_as_str(message, 2) {
        Ok(text) => text.to_owned(),
        Err(error) => {
            return Err(error);
        },
    };
    let version = match arg_as_str(message, 3) {
        Ok(text) => text.to_owned(),
        Err(error) => {
            return Err(error);
        },
    };
    Ok(Info { osc_version, osc_kind, name, version })
}

/// The float in the first position of a message, as a bit pattern.
pub open spec fn gain_in<'a>(message: &'a Message) -> Result<u32, ReplyError<'a>> {
    match arg_at(message, 0) {
        Ok(Argument::Float(bits)) => Ok(*bits),
        Ok(other) => Err(ReplyError::ExpectedFloat(other)),
        Err(error) => Err(error),
    }
}

/// Reads the gain out of a reply, as a bit pattern.
pub fn read_headamp_gain<'a>(message: &'a Message) -> (r: Result<u32, ReplyError<'a>>)
    ensures
        r == gain_in(message),
{
    match arg(message, 0) {
        Ok(value) => as_float(value),
        Err(error) => Err(error),
    }
}

/// Reads the index of a preamp out of a reply: a number that is not negative.
pub fn read_headamp_index<'a>(message: &'a Message) -> (r: Result<HeadampIndex, ReplyError<'a>>)
    ensures
        match arg_at(message, 0) {
            Ok(Argument::Int(index)) => if *index >= 0 {
                r matches Ok(headamp) && headamp.number() == *index
            } else {
                r == Err::<HeadampIndex, ReplyError>(ReplyError::InvalidHeadampIndex(*index))
            },
            Ok(other) => r == Err::<HeadampIndex, ReplyError>(ReplyError::ExpectedInt(other)),
            Err(error) => r == Err::<HeadampIndex, ReplyError>(error),
        },
{
    let value = match arg(message, 0) {
        Ok(value) => value,
        Err(error) => {
            return Err(error);
        },
    };
    match as_i32(value) {
        Ok(index) => {
            if index >= 0 {
                Ok(HeadampIndex::new(index as usize))
            } else {
                Err(ReplyError::InvalidHeadampIndex(index))
            }
        },
        Err(error) => Err(error),
    }
}

} // verus!
