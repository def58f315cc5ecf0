//! The numbers of mixer channels and of preamps.

use crate::text::{padded, padded_text};
use vstd::prelude::*;

verus! {

/// A mixer channel, counted from zero.
#[derive(Debug, Clone, Copy)]
pub struct ChannelIndex(usize);

/// A preamp, counted from zero.
#[derive(Debug, Clone, Copy)]
pub struct HeadampIndex(usize);

impl HeadampIndex {
    /// The preamp's number.
    pub closed spec fn number(self) -> usize {
        self.0
    }

    /// The preamp with a number.
    pub fn new(index: usize) -> (r: Self)
        ensures
            r.number() == index,
    {
        Self(index)
    }

    /// Writes the number with at least three digits.
    pub fn to_string(&self) -> (text: String)
        ensures
            text@ == padded(self.number() as nat, 3),
    {
        padded_text(self.0, 3)
    }
}

impl ChannelIndex {
    /// The channel's number.
    pub closed spec fn number(self) -> usize {
        self.0
    }

    /// The channel with a number.
    pub fn new(index: usize) -> (r: Self)
        ensures
            r.number() == index,
    {
        Self(index)
    }

    /// Writes the number with at least two digits.
    pub fn to_string(&self) -> (text: String)
        ensures
            text@ == padded(self.number() as nat, 2),
    {
        padded_text(self.0, 2)
    }
}

impl From<ChannelIndex> for usize {
    fn from(index: ChannelIndex) -> (r: usize) {
        index.0
    }
}

impl vstd::std_specs::convert::FromSpecImpl<ChannelIndex> for usize {
    open spec fn obeys_from_spec() -> bool {
        true
    }

    open spec fn from_spec(index: ChannelIndex) -> usize {
        index.number()
    }
}

} // verus!
