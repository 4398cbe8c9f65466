//! Library configuration: the small per-library record persisted beside the
//! database, and the validity rule on its name.

use vstd::prelude::*;
use crate::text::spec_is_blank;
use crate::text::str_is_blank;

verus! {

/// The mutable per-library record persisted in `<id>.sdlibrary`.
#[derive(Debug)]
pub struct LibraryConfig {
    /// Display name; must not be empty or all-whitespace.
    pub name: String,
    /// Free-form description; may be empty.
    pub description: String,
}

impl LibraryConfig {
    /// Field-wise sameness, stated over the string views.
    pub open spec fn eqv(self, other: LibraryConfig) -> bool {
        self.name@ == other.name@ && self.description@ == other.description@
    }

    /// An owned copy with the same contents.
    pub fn duplicate(&self) -> (r: LibraryConfig)
        ensures
            r.eqv(*self),
    {
        LibraryConfig { name: self.name.clone(), description: self.description.clone() }
    }
}

/// A config together with the id of the library it belongs to, as handed to
/// callers by `create` and `list`.
#[derive(Debug)]
pub struct LibraryConfigWrapped {
    pub uuid: u128,
    pub config: LibraryConfig,
}

/// A library name is valid when some character of it is not whitespace; the
/// empty and the all-whitespace name are rejected.
pub open spec fn spec_name_valid(name: Seq<char>) -> bool {
    !spec_is_blank(name)
}

/// Whether `name` may name a library.
pub fn library_name_is_valid(name: &str) -> (r: bool)
    ensures
        r == spec_name_valid(name@),
{
    !str_is_blank(name)
}

} // verus!
