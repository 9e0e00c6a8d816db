//! Capability tokens that gate calls into host functionality.

use vstd::prelude::*;

verus! {

/// A named right that a frame may grant or deny.
#[derive(Clone, Copy, Debug, PartialEq, Eq, Structural)]
pub enum Permission {
    Administrator,
    StdIo,
}

/// The capability that a token names, if it names one.
pub open spec fn permission_of(token: Seq<char>) -> Option<Permission> {
    if token == "Administrator"@ {
        Some(Permission::Administrator)
    } else if token == "StdIo"@ {
        Some(Permission::StdIo)
    } else {
        None
    }
}

impl Permission {
    /// Reads a capability token. Tokens are case sensitive; a token that names
    /// no capability gives `None`.
    pub fn from_string(token: &String) -> (r: Option<Permission>)
        ensures
            r == permission_of(token@),
    {
        if *token == String::from_str("Administrator") {
            Some(Permission::Administrator)
        } else if *token == String::from_str("StdIo") {
            Some(Permission::StdIo)
        } else {
            None
        }
    }
}

} // verus!
