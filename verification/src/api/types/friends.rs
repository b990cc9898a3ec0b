//! Friends of an account.

use vstd::prelude::*;

verus! {

/// A friend of an account, or a pending request.
#[derive(Default, Debug, Clone, PartialEq)]
pub struct Friend {
    pub account_id: String,
    pub created: String,
    pub direction: String,
    pub favorite: bool,
    pub status: String,
}

} // verus!
