//! The closed four-way platform tag recorded on a library's node record.

use vstd::prelude::*;

verus! {

/// Operating-system family of the node that opened a library. The tag is a
/// closed enumeration: any OS name outside the three known ones maps to
/// `Unknown`.
#[derive(Clone, Copy, Debug, PartialEq, Eq, Structural)]
pub enum Platform {
    Unknown,
    Windows,
    MacOS,
    Linux,
}

/// What `platform_from_os_name` returns for a given OS name.
pub open spec fn spec_platform_from_os_name(os: Seq<char>) -> Platform {
    if os == "windows"@ {
        Platform::Windows
    } else if os == "macos"@ {
        Platform::MacOS
    } else if os == "linux"@ {
        Platform::Linux
    } else {
        Platform::Unknown
    }
}

/// Maps a runtime OS name (as std reports it) to the closed platform tag.
pub fn platform_from_os_name(os: &str) -> (p: Platform)
    ensures
        p == spec_platform_from_os_name(os@),
{
    if crate::text::str_eq_str(os, "windows") {
        Platform::Windows
    } else if crate::text::str_eq_str(os, "macos") {
        Platform::MacOS
    } else if crate::text::str_eq_str(os, "linux") {
        Platform::Linux
    } else {
        Platform::Unknown
    }
}

} // verus!
