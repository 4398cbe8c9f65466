//! Library identifiers and the id-derived file names.
//!
//! A library id is a UUID carried as its 128-bit value. The canonical text
//! form (hyphenated, 36 characters) embeds in the two on-disk file names of a
//! library: `<id>.sdlibrary` for the config and `<id>.db` for the database.

use vstd::prelude::*;
use crate::text::str_concat;
use crate::text::str_ends_with;

verus! {

/// The text that the uuid crate renders for a given 128-bit id in its
/// canonical hyphenated form.
pub uninterp spec fn uuid_str_of(id: u128) -> Seq<char>;

/// The id, if any, that the uuid crate parses out of a given string.
pub uninterp spec fn uuid_parse_of(s: Seq<char>) -> Option<u128>;

/// Relies on `uuid::Uuid::new_v4`: a randomly generated id, so nothing is
/// promised of the value.
#[verifier::external_body]
pub(crate) fn generate_library_id() -> (id: u128) {
    uuid::Uuid::new_v4().as_u128()
}

/// Relies on `uuid::Uuid`'s hyphenated rendering: 36 characters, a pure
/// function of the id, and parsed back to the same id by `Uuid::parse_str`.
#[verifier::external_body]
pub(crate) fn library_id_to_string(id: u128) -> (r: String)
    ensures
        r@ == uuid_str_of(id),
        r@.len() == 36,
        uuid_parse_of(r@) == Some(id),
{
    uuid::Uuid::from_u128(id).hyphenated().to_string()
}

/// Relies on `uuid::Uuid::parse_str`: a pure function of the string, `Ok`
/// exactly when the string is one of the UUID text forms.
#[verifier::external_body]
pub(crate) fn parse_library_id(s: &str) -> (r: Option<u128>)
    ensures
        r == uuid_parse_of(s@),
{
    match uuid::Uuid::parse_str(s) {
        Ok(u) => Some(u.as_u128()),
        Err(_) => None,
    }
}

/// The file name under which a library's config is persisted.
pub open spec fn spec_config_file_name(id: u128) -> Seq<char> {
    uuid_str_of(id) + ".sdlibrary"@
}

/// The file name under which a library's database lives.
pub open spec fn spec_db_file_name(id: u128) -> Seq<char> {
    uuid_str_of(id) + ".db"@
}

/// Renders `<id>.sdlibrary`.
pub fn config_file_name(id: u128) -> (r: String)
    ensures
        r@ == spec_config_file_name(id),
        uuid_parse_of(r@.subrange(0, r@.len() - ".sdlibrary"@.len())) == Some(id),
{
    let s = library_id_to_string(id);
    let r = str_concat(s.as_str(), ".sdlibrary");
    proof {
        assert(r@.subrange(0, r@.len() - ".sdlibrary"@.len()) =~= s@);
    }
    r
}

/// Renders `<id>.db`.
pub fn db_file_name(id: u128) -> (r: String)
    ensures
        r@ == spec_db_file_name(id),
{
    let s = library_id_to_string(id);
    str_concat(s.as_str(), ".db")
}

/// The id a directory-entry file name denotes: the name must end in
/// `.sdlibrary` and its stem must parse as a UUID.
pub open spec fn spec_parse_config_file_name(name: Seq<char>) -> Option<u128> {
    if ".sdlibrary"@.is_suffix_of(name) {
        uuid_parse_of(name.subrange(0, name.len() - ".sdlibrary"@.len()))
    } else {
        None
    }
}

/// Parses a library id out of a config file name, `None` when the name does
/// not denote a library config file.
pub fn parse_config_file_name(name: &str) -> (r: Option<u128>)
    ensures
        r == spec_parse_config_file_name(name@),
{
    if !str_ends_with(name, ".sdlibrary") {
        return None;
    }
    let n: usize = name.unicode_len();
    let suffix_len: usize = ".sdlibrary".unicode_len();
    assert(suffix_len == ".sdlibrary"@.len() && suffix_len <= n) by {
        reveal_strlit(".sdlibrary");
    }
    let stem = name.substring_char(0, n - suffix_len);
    parse_library_id(stem)
}

} // verus!
