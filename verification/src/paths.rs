//! Paths as the file manager handles them: strings joined and compared as
//! std's `Path` does on Unix, and trimmed as std's `str::trim` does.
use vstd::prelude::*;
use crate::text::{chars_of, push_char, push_range, string_of_range, string_views};

verus! {

/// Whether `c` has the Unicode White_Space property, which std's
/// `char::is_whitespace` tests.
pub open spec fn is_whitespace(c: char) -> bool {
    ||| ('\u{9}' <= c && c <= '\u{d}')
    ||| c == ' '
    ||| c == '\u{85}'
    ||| c == '\u{a0}'
    ||| c == '\u{1680}'
    ||| ('\u{2000}' <= c && c <= '\u{200a}')
    ||| c == '\u{2028}'
    ||| c == '\u{2029}'
    ||| c == '\u{202f}'
    ||| c == '\u{205f}'
    ||| c == '\u{3000}'
}

/// Whether `c` has the Unicode White_Space property.
pub fn is_whitespace_char(c: char) -> (b: bool)
    ensures
        b == is_whitespace(c),
{
    ('\u{9}' <= c && c <= '\u{d}') || c == ' ' || c == '\u{85}' || c == '\u{a0}' || c == '\u{1680}'
        || ('\u{2000}' <= c && c <= '\u{200a}') || c == '\u{2028}' || c == '\u{2029}' || c
        == '\u{202f}' || c == '\u{205f}' || c == '\u{3000}'
}

/// `s` without its leading whitespace.
pub open spec fn trim_start(s: Seq<char>) -> Seq<char>
    decreases s.len(),
{
    if s.len() > 0 && is_whitespace(s[0]) {
        trim_start(s.drop_first())
    } else {
        s
    }
}

/// `s` without its trailing whitespace.
pub open spec fn trim_end(s: Seq<char>) -> Seq<char>
    decreases s.len(),
{
    if s.len() > 0 && is_whitespace(s.last()) {
        trim_end(s.drop_last())
    } else {
        s
    }
}

/// `s` without leading and trailing whitespace, as std's `str::trim`.
pub open spec fn trimmed(s: Seq<char>) -> Seq<char> {
    trim_end(trim_start(s))
}

/// `s` without leading and trailing whitespace.
pub fn trim(s: &str) -> (r: String)
    ensures
        r@ == trimmed(s@),
{
    let v = chars_of(s);
    let n = v.len();
    let mut lo: usize = 0;
    proof {
        assert(v@.subrange(0, n as int) =~= s@);
    }
    while lo < n && is_whitespace_char(v[lo])
        invariant
            lo <= n == v@.len(),
            trim_start(s@) == trim_start(v@.subrange(lo as int, n as int)),
        decreases n - lo,
    {
        assert(v@.subrange(lo as int, n as int).drop_first() =~= v@.subrange(lo + 1, n as int));
        lo = lo + 1;
    }
    let mut hi: usize = n;
    proof {
        if lo < n {
            assert(trim_start(v@.subrange(lo as int, n as int)) == v@.subrange(lo as int, n as int));
        } else {
            assert(v@.subrange(lo as int, n as int) =~= Seq::<char>::empty());
        }
    }
    while hi > lo && is_whitespace_char(v[hi - 1])
        invariant
            lo <= hi <= n == v@.len(),
            trimmed(s@) == trim_end(v@.subrange(lo as int, hi as int)),
        decreases hi,
    {
        assert(v@.subrange(lo as int, hi as int).drop_last() =~= v@.subrange(lo as int, hi - 1));
        hi = hi - 1;
    }
    string_of_range(&v, lo, hi)
}

/// `p` appended to `base` as std's `Path::join` does on Unix: an absolute
/// `p` replaces `base`; otherwise a `/` separates them unless `base` is
/// empty or ends with one.
pub open spec fn join_path(base: Seq<char>, p: Seq<char>) -> Seq<char> {
    if p.len() > 0 && p[0] == '/' {
        p
    } else if base.len() == 0 || base.last() == '/' {
        base + p
    } else {
        base + seq!['/'] + p
    }
}

/// `p` appended to `base` as std's `Path::join` does on Unix.
pub fn join(base: &str, p: &str) -> (r: String)
    ensures
        r@ == join_path(base@, p@),
{
    let b = chars_of(base);
    let q = chars_of(p);
    if q.len() > 0 && q[0] == '/' {
        return string_of_range(&q, 0, q.len());
    }
    let mut out = string_of_range(&b, 0, b.len());
    if !(b.len() == 0 || b[b.len() - 1] == '/') {
        push_char(&mut out, '/');
    }
    push_range(&mut out, &q, 0, q.len());
    assert(q@.subrange(0, q@.len() as int) =~= p@);
    assert(b@.subrange(0, b@.len() as int) =~= base@);
    out
}

/// What std's `Path::parent` gives for a path: the path without its final
/// component, or none for a root or empty path. It works on components
/// (repeated and trailing separators, `.` components).
pub uninterp spec fn path_parent(p: Seq<char>) -> Option<Seq<char>>;

/// The components of a path as std's `Path::components` gives them, each
/// as its text: `/` for the root, `.` for a leading current directory, `..`
/// for a parent directory, or a name. Repeated separators, a trailing
/// separator and inner `.` components give no component.
pub uninterp spec fn path_key(p: Seq<char>) -> Seq<Seq<char>>;

/// Whether two paths are the same path as std compares `Path`s (and hashes
/// them in a `HashMap` or `HashSet`): component by component, so `a/b` and
/// `a//b/` are the same path.
pub open spec fn same_path(a: Seq<char>, b: Seq<char>) -> bool {
    path_key(a) == path_key(b)
}

/// The parent of `p`, by std's `Path::parent`; the result is turned back
/// into a string, which is lossless since it comes from one.
#[verifier::external_body]
pub(crate) fn parent_of(p: &str) -> (r: Option<String>)
    ensures
        r is Some == path_parent(p@) is Some,
        r is Some ==> r->0@ == path_parent(p@)->0,
{
    match std::path::Path::new(p).parent() {
        Some(q) => Some(q.to_string_lossy().into_owned()),
        None => None,
    }
}

/// The components of `p`, by std's `Path::components`, each turned into
/// the text of its `as_os_str`; lossless since the path comes from a string.
#[verifier::external_body]
pub(crate) fn components_of(p: &str) -> (r: Vec<String>)
    ensures
        string_views(r@) == path_key(p@),
{
    let mut r: Vec<String> = Vec::new();
    for c in std::path::Path::new(p).components() {
        r.push(c.as_os_str().to_string_lossy().into_owned());
    }
    r
}

/// Whether two lists of strings are equal.
pub fn same_strings(a: &Vec<String>, b: &Vec<String>) -> (r: bool)
    ensures
        r == (string_views(a@) == string_views(b@)),
{
    if a.len() != b.len() {
        assert(string_views(a@).len() != string_views(b@).len());
        return false;
    }
    let mut i: usize = 0;
    while i < a.len()
        invariant
            i <= a@.len() == b@.len(),
            forall|j: int| 0 <= j < i ==> a@[j]@ == b@[j]@,
        decreases a@.len() - i,
    {
        if a[i] != b[i] {
            assert(string_views(a@)[i as int] != string_views(b@)[i as int]);
            return false;
        }
        i = i + 1;
    }
    assert(string_views(a@) =~= string_views(b@));
    true
}

/// Whether `a` and `b` are the same path: their components are equal.
pub fn paths_equal(a: &str, b: &str) -> (r: bool)
    ensures
        r == same_path(a@, b@),
{
    let ka = components_of(a);
    let kb = components_of(b);
    same_strings(&ka, &kb)
}

} // verus!
