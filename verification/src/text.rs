//! Verified character and string helpers used by the lifecycle and indexing
//! logic: equality, prefix/suffix tests, path joining, and the whitespace
//! test behind library-name validation.

use vstd::prelude::*;

verus! {

/// The Unicode `White_Space` code points, as std documents them for
/// `char::is_whitespace`.
pub open spec fn spec_is_whitespace(c: char) -> bool {
    c == ' ' || c == '\t' || c == '\n' || c == '\u{000B}' || c == '\u{000C}' || c == '\r'
        || c == '\u{0085}' || c == '\u{00A0}' || c == '\u{1680}' || c == '\u{2000}'
        || c == '\u{2001}' || c == '\u{2002}' || c == '\u{2003}' || c == '\u{2004}'
        || c == '\u{2005}' || c == '\u{2006}' || c == '\u{2007}' || c == '\u{2008}'
        || c == '\u{2009}' || c == '\u{200A}' || c == '\u{2028}' || c == '\u{2029}'
        || c == '\u{202F}' || c == '\u{205F}' || c == '\u{3000}'
}

/// Whether `c` has the Unicode `White_Space` property.
pub fn char_is_whitespace(c: char) -> (r: bool)
    ensures
        r == spec_is_whitespace(c),
{
    c == ' ' || c == '\t' || c == '\n' || c == '\u{000B}' || c == '\u{000C}' || c == '\r'
        || c == '\u{0085}' || c == '\u{00A0}' || c == '\u{1680}' || c == '\u{2000}'
        || c == '\u{2001}' || c == '\u{2002}' || c == '\u{2003}' || c == '\u{2004}'
        || c == '\u{2005}' || c == '\u{2006}' || c == '\u{2007}' || c == '\u{2008}'
        || c == '\u{2009}' || c == '\u{200A}' || c == '\u{2028}' || c == '\u{2029}'
        || c == '\u{202F}' || c == '\u{205F}' || c == '\u{3000}'
}

/// A string is blank when every character is whitespace; the empty string is
/// blank.
pub open spec fn spec_is_blank(s: Seq<char>) -> bool {
    forall|i: int| 0 <= i < s.len() ==> spec_is_whitespace(s[i])
}

/// Whether `s` is empty or consists of whitespace alone.
pub fn str_is_blank(s: &str) -> (r: bool)
    ensures
        r == spec_is_blank(s@),
{
    let n: usize = s.unicode_len();
    let mut i: usize = 0;
    while i < n
        invariant
            i <= n,
            n == s@.len(),
            forall|j: int| 0 <= j < i ==> spec_is_whitespace(s@[j]),
        decreases n - i,
    {
        if !char_is_whitespace(s.get_char(i)) {
            return false;
        }
        i = i + 1;
    }
    true
}

/// Character-wise string equality.
pub fn str_eq_str(a: &str, b: &str) -> (r: bool)
    ensures
        r == (a@ == b@),
{
    let an: usize = a.unicode_len();
    let bn: usize = b.unicode_len();
    if an != bn {
        assert(a@ != b@) by {
            assert(a@.len() != b@.len());
        }
        return false;
    }
    let mut i: usize = 0;
    while i < an
        invariant
            i <= an,
            an == a@.len(),
            an == b@.len(),
            forall|j: int| 0 <= j < i ==> a@[j] == b@[j],
        decreases an - i,
    {
        if a.get_char(i) != b.get_char(i) {
            return false;
        }
        i = i + 1;
    }
    proof {
        assert(a@ =~= b@);
    }
    true
}

/// Whether `p` is a prefix of `s`.
pub fn str_starts_with(s: &str, p: &str) -> (r: bool)
    ensures
        r == p@.is_prefix_of(s@),
{
    let sn: usize = s.unicode_len();
    let pn: usize = p.unicode_len();
    if pn > sn {
        return false;
    }
    let mut i: usize = 0;
    while i < pn
        invariant
            i <= pn,
            pn <= sn,
            sn == s@.len(),
            pn == p@.len(),
            forall|j: int| 0 <= j < i ==> s@[j] == p@[j],
        decreases pn - i,
    {
        if s.get_char(i) != p.get_char(i) {
            return false;
        }
        i = i + 1;
    }
    proof {
        assert(s@.subrange(0, p@.len() as int) =~= p@);
    }
    true
}

/// Whether `p` is a suffix of `s`.
pub fn str_ends_with(s: &str, p: &str) -> (r: bool)
    ensures
        r == p@.is_suffix_of(s@),
{
    let sn: usize = s.unicode_len();
    let pn: usize = p.unicode_len();
    if pn > sn {
        return false;
    }
    let off: usize = sn - pn;
    let mut i: usize = 0;
    while i < pn
        invariant
            i <= pn,
            pn <= sn,
            off == sn - pn,
            sn == s@.len(),
            pn == p@.len(),
            forall|j: int| 0 <= j < i ==> s@[off + j] == p@[j],
        decreases pn - i,
    {
        if s.get_char(off + i) != p.get_char(i) {
            return false;
        }
        i = i + 1;
    }
    proof {
        assert(s@.subrange(s@.len() - p@.len(), s@.len() as int) =~= p@);
    }
    true
}

/// Concatenation of two strings.
pub fn str_concat(a: &str, b: &str) -> (r: String)
    ensures
        r@ == a@ + b@,
{
    let mut r = String::new();
    r.append(a);
    r.append(b);
    proof {
        assert(r@ =~= a@ + b@);
    }
    r
}

/// `dir` and `name` joined with a single separator character.
pub open spec fn spec_join_path(dir: Seq<char>, name: Seq<char>) -> Seq<char> {
    dir + seq!['/'] + name
}

/// Joins a directory path and a child name with `/`.
pub fn join_path(dir: &str, name: &str) -> (r: String)
    ensures
        r@ == spec_join_path(dir@, name@),
{
    let mut r = String::new();
    r.append(dir);
    r.append("/");
    r.append(name);
    proof {
        reveal_strlit("/");
        assert(r@ =~= spec_join_path(dir@, name@));
    }
    r
}

/// `path` names an entry exactly one level below `dir`: it is `dir`, a
/// separator, and a non-empty name with no further separator.
pub open spec fn spec_is_direct_child(dir: Seq<char>, path: Seq<char>) -> bool {
    &&& path.len() > dir.len() + 1
    &&& path.subrange(0, dir.len() as int + 1) == dir + seq!['/']
    &&& forall|i: int| dir.len() + 1 <= i < path.len() ==> path[i] != '/'
}

/// Whether `path` lies exactly one directory level below `dir`.
pub fn is_direct_child(dir: &str, path: &str) -> (r: bool)
    ensures
        r == spec_is_direct_child(dir@, path@),
{
    let dn: usize = dir.unicode_len();
    let pn: usize = path.unicode_len();
    if pn <= dn || pn - dn <= 1 {
        return false;
    }
    let mut i: usize = 0;
    while i < dn
        invariant
            i <= dn,
            dn == dir@.len(),
            pn == path@.len(),
            pn > dn + 1,
            forall|j: int| 0 <= j < i ==> path@[j] == dir@[j],
        decreases dn - i,
    {
        if path.get_char(i) != dir.get_char(i) {
            proof {
                assert((dir@ + seq!['/'])[i as int] == dir@[i as int]);
                assert(path@.subrange(0, dir@.len() as int + 1)[i as int] == path@[i as int]);
            }
            return false;
        }
        i = i + 1;
    }
    if path.get_char(dn) != '/' {
        proof {
            assert((dir@ + seq!['/'])[dn as int] == '/');
            assert(path@.subrange(0, dir@.len() as int + 1)[dn as int] == path@[dn as int]);
        }
        return false;
    }
    let mut k: usize = dn + 1;
    while k < pn
        invariant
            dn + 1 <= k <= pn,
            dn == dir@.len(),
            pn == path@.len(),
            pn > dn + 1,
            forall|j: int| 0 <= j < dn ==> path@[j] == dir@[j],
            path@[dn as int] == '/',
            forall|j: int| dn + 1 <= j < k ==> path@[j] != '/',
        decreases pn - k,
    {
        if path.get_char(k) == '/' {
            return false;
        }
        k = k + 1;
    }
    proof {
        assert(path@.subrange(0, dir@.len() as int + 1) =~= dir@ + seq!['/']);
    }
    true
}

/// Joining a slash-free, non-empty name one level below `dir` yields a direct
/// child of `dir`.
pub proof fn lemma_join_direct_child(dir: Seq<char>, name: Seq<char>)
    requires
        name.len() > 0,
        !name.contains('/'),
    ensures
        spec_is_direct_child(dir, spec_join_path(dir, name)),
{
    let p = spec_join_path(dir, name);
    assert(p.subrange(0, dir.len() as int + 1) =~= dir + seq!['/']);
    assert forall|i: int| dir.len() + 1 <= i < p.len() implies p[i] != '/' by {
        assert(p[i] == name[i - dir.len() - 1]);
        assert(name.contains(name[i - dir.len() - 1])) by {
            assert(name[i - dir.len() - 1] == name[i - dir.len() - 1]);
        }
    }
}

} // verus!
