//! Identifiers of policies.

use smol_str::SmolStr;
use vstd::prelude::*;

use crate::text::{smol_str_clone, smol_str_eq, smol_str_new, TextKey};

verus! {

/// The identifier of a policy: a text.
#[derive(Debug, PartialEq, Eq, Hash)]
pub struct PolicyID {
    id: SmolStr,
}

impl PolicyID {
    /// The identifier with the given text.
    pub fn from_string(text: &str) -> (id: Self)
        ensures
            id.text() == text@,
    {
        PolicyID { id: smol_str_new(text) }
    }
}

impl TextKey for PolicyID {
    closed spec fn text(&self) -> Seq<char> {
        self.id.text()
    }

    fn same_text(&self, other: &Self) -> (same: bool) {
        smol_str_eq(&self.id, &other.id)
    }

    fn copy(&self) -> (copy: Self) {
        PolicyID { id: smol_str_clone(&self.id) }
    }
}

impl Clone for PolicyID {
    fn clone(&self) -> (copy: Self)
        ensures
            copy.text() == self.text(),
    {
        self.copy()
    }
}

} // verus!
