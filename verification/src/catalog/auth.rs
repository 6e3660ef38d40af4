//! Limits on what a definition may do.

use vstd::prelude::*;

use crate::catalog::statements;

verus! {

/// The highest role that a definition acts with.
#[derive(Debug, PartialEq, Eq)]
pub struct AuthLimit {
    /// None where there is no limit.
    pub role: Option<String>,
}

impl View for AuthLimit {
    type V = Option<Seq<char>>;

    open spec fn view(&self) -> Option<Seq<char>> {
        statements::opt_text(self.role)
    }
}

impl Default for AuthLimit {
    fn default() -> (limit: Self)
        ensures
            limit@ is None,
    {
        AuthLimit { role: None }
    }
}

impl Clone for AuthLimit {
    fn clone(&self) -> (copy: Self)
        ensures
            copy@ == self@,
    {
        AuthLimit {
            role: match &self.role {
                Some(r) => Some(r.clone()),
                None => None,
            },
        }
    }
}

impl AuthLimit {
    /// No limit.
    pub fn new_no_limit() -> (limit: Self)
        ensures
            limit@ is None,
    {
        AuthLimit { role: None }
    }
}

} // verus!
