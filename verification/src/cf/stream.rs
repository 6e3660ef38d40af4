//! A change feed read one set of changes at a time.

use std::collections::VecDeque;

use vstd::prelude::*;

use crate::kvs::err::Error;

verus! {

/// The changes of one database, each as it was encoded.
#[derive(Debug)]
pub struct DatabaseMutation(pub Vec<Vec<u8>>);

impl DatabaseMutation {
    /// No changes.
    pub fn new() -> (mutation: Self)
        ensures
            mutation.0@.len() == 0,
    {
        DatabaseMutation(Vec::new())
    }
}

/// The changes of one database at one versionstamp.
#[derive(Debug)]
pub struct ChangeSet(pub u128, pub DatabaseMutation);

/// A reader of a change feed.
pub trait CfStream {
    /// The next set of changes, or none where the reader has come to the end
    /// of its window. After an error the reader may or may not go on.
    fn next_delta(&mut self) -> (delta: Option<Result<ChangeSet, Error>>)
    ;
}

impl CfStream for VecDeque<ChangeSet> {
    /// Takes the sets from the front, in order.
    fn next_delta(&mut self) -> (delta: Option<Result<ChangeSet, Error>>)
        ensures
            if old(self)@.len() == 0 {
                delta is None && final(self)@ == old(self)@
            } else {
                &&& delta == Some(Ok::<ChangeSet, Error>(old(self)@[0]))
                &&& final(self)@ == old(self)@.drop_first()
            },
    {
        match self.pop_front() {
            Some(set) => Some(Ok(set)),
            None => None,
        }
    }
}

} // verus!
