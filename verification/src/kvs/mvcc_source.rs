//! Where version numbers come from.

use vstd::prelude::*;

use crate::kvs::err::Error;

verus! {

/// A source of version numbers that never fall.
pub trait MvccSource {
    /// The number that came last, where one came.
    spec fn last_version(&self) -> Option<u64>;

    /// No number is left.
    spec fn spent(&self) -> bool;

    /// The next version number. It is at least as large as every one before,
    /// as long as numbers are left; numbers may be left out.
    fn next_version(&mut self) -> (version: Result<u64, Error>)
        ensures
            !old(self).spent() ==> match version {
                Ok(v) => {
                    &&& old(self).last_version() matches Some(last) ==> v >= last
                    &&& final(self).last_version() == Some(v)
                },
                Err(_) => final(self).last_version() == old(self).last_version(),
            },
    ;
}

/// Version numbers counted within one process, from 1 on.
#[derive(Debug)]
pub struct LocalGeneratedMvcc {
    counter: u64,
}

impl LocalGeneratedMvcc {
    /// The number that comes next.
    pub closed spec fn upcoming(&self) -> u64 {
        self.counter
    }

    /// A counter whose first number is 1, so that 0 can stand for none.
    pub fn new() -> (source: Self)
        ensures
            source.upcoming() == 1,
            source.last_version() is None,
            !source.spent(),
    {
        LocalGeneratedMvcc { counter: 1 }
    }
}

impl Default for LocalGeneratedMvcc {
    fn default() -> (source: Self)
        ensures
            source.upcoming() == 1,
            source.last_version() is None,
            !source.spent(),
    {
        LocalGeneratedMvcc::new()
    }
}

impl MvccSource for LocalGeneratedMvcc {
    closed spec fn last_version(&self) -> Option<u64> {
        if self.counter == 1 {
            None
        } else if self.counter == 0 {
            Some(u64::MAX)
        } else {
            Some((self.counter - 1) as u64)
        }
    }

    closed spec fn spent(&self) -> bool {
        self.counter == 0
    }

    /// The next number; after the largest the count starts over at 0.
    fn next_version(&mut self) -> (version: Result<u64, Error>)
        ensures
            version == Ok::<u64, Error>(old(self).upcoming()),
            final(self).upcoming() as int == (old(self).upcoming() + 1)
                % 0x1_0000_0000_0000_0000,
    {
        let version: u64 = self.counter;
        self.counter = self.counter.wrapping_add(1);
        Ok(version)
    }
}

/// The number that comes after `n` calls.
pub open spec fn upcoming_after(first: u64, n: nat) -> int {
    (first + n) % 0x1_0000_0000_0000_0000
}

/// Numbers of one counter rise strictly from call to call, as long as they
/// last.
pub proof fn versions_rise_strictly(first: u64, n: nat, m: nat)
    requires
        n < m,
        first + m <= u64::MAX,
    ensures
        upcoming_after(first, n) < upcoming_after(first, m),
        upcoming_after(first, m) == (upcoming_after(first, (m - 1) as nat) + 1)
            % 0x1_0000_0000_0000_0000,
{
}

} // verus!
