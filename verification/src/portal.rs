//! The decisions of the file chooser portal: which kiorg program to run,
//! how to call it in picker mode, and how its result becomes the portal's
//! answer.
use vstd::prelude::*;
use vstd::utf8::{decode_utf8, valid_utf8};
use crate::paths::{join, join_path};
use crate::text::{chars_of, lines_of, push_str, split_lines, split_sep, string_of_range, views};

verus! {

/// The request succeeded.
pub const RESPONSE_SUCCESS: u32 = 0;

/// The user cancelled.
pub const RESPONSE_CANCELLED: u32 = 1;

/// The request failed.
pub const RESPONSE_OTHER: u32 = 2;

/// The portal's answer: a response code and the chosen files' URIs.
#[derive(Debug)]
pub struct PortalResponse {
    pub code: u32,
    pub uris: Vec<String>,
}

/// The `file://` URI of a path.
pub open spec fn file_uri(path: Seq<char>) -> Seq<char> {
    "file://"@ + path
}

/// The URIs of the non-empty lines.
pub open spec fn uris_of(lines: Seq<Seq<char>>) -> Seq<Seq<char>>
    decreases lines.len(),
{
    if lines.len() == 0 {
        Seq::empty()
    } else {
        let rest = uris_of(lines.drop_last());
        if lines.last().len() == 0 {
            rest
        } else {
            rest.push(file_uri(lines.last()))
        }
    }
}

/// The portal's answer once the picker has exited: cancelled when it did
/// not exit successfully; failed when its result file could not be read
/// (`content` is None); else the URIs of the non-empty lines of the result
/// file, or cancelled when there are none.
pub fn picker_response(exit_success: bool, content: Option<String>) -> (r: PortalResponse)
    ensures
        !exit_success ==> r.code == RESPONSE_CANCELLED && r.uris@.len() == 0,
        exit_success ==> match content {
            None => r.code == RESPONSE_OTHER && r.uris@.len() == 0,
            Some(c) => {
                let u = uris_of(lines_of(c@));
                if u.len() == 0 {
                    r.code == RESPONSE_CANCELLED && r.uris@.len() == 0
                } else {
                    r.code == RESPONSE_SUCCESS && r.uris@.map_values(|s: String| s@) == u
                }
            },
        },
{
    if !exit_success {
        return PortalResponse { code: RESPONSE_CANCELLED, uris: Vec::new() };
    }
    let c = match content {
        Some(c) => c,
        None => {
            return PortalResponse { code: RESPONSE_OTHER, uris: Vec::new() };
        },
    };
    let chars = chars_of(c.as_str());
    let ls = split_lines(&chars);
    let ghost lines = views(ls@);
    let mut uris: Vec<String> = Vec::new();
    let mut i: usize = 0;
    while i < ls.len()
        invariant
            i <= ls@.len(),
            lines == views(ls@),
            uris@.map_values(|s: String| s@) == uris_of(lines.take(i as int)),
        decreases ls@.len() - i,
    {
        proof {
            assert(lines.take(i + 1).drop_last() =~= lines.take(i as int));
        }
        let l = &ls[i];
        if l.len() > 0 {
            let mut u = String::new();
            push_str(&mut u, "file://");
            let path = string_of_range(l, 0, l.len());
            push_str(&mut u, path.as_str());
            uris.push(u);
            proof {
                assert(l@.subrange(0, l@.len() as int) =~= l@);
                assert(uris@.map_values(|s: String| s@) =~= uris_of(lines.take(i + 1)));
            }
        }
        i = i + 1;
    }
    assert(lines.take(i as int) =~= lines);
    if uris.len() == 0 {
        PortalResponse { code: RESPONSE_CANCELLED, uris }
    } else {
        PortalResponse { code: RESPONSE_SUCCESS, uris }
    }
}

/// The view of an optional string.
pub open spec fn opt_view(o: Option<String>) -> Option<Seq<char>> {
    match o {
        Some(s) => Some(s@),
        None => None,
    }
}

/// The arguments that run kiorg in picker mode.
pub open spec fn picker_args(
    result_path: Seq<char>,
    multiple: bool,
    directory_only: bool,
    save_mode: bool,
    initial_dir: Option<Seq<char>>,
) -> Seq<Seq<char>> {
    let a = seq!["--pick-mode"@, result_path];
    let a = if multiple { a.push("--pick-multiple"@) } else { a };
    let a = if directory_only { a.push("--pick-directory"@) } else { a };
    let a = if save_mode { a.push("--pick-save"@) } else { a };
    match initial_dir {
        Some(d) => a.push(d),
        None => a,
    }
}

/// The arguments that run kiorg in picker mode: the result file, the
/// flags, and the directory to start in.
pub fn picker_command_args(
    result_path: String,
    multiple: bool,
    directory_only: bool,
    save_mode: bool,
    initial_dir: Option<String>,
) -> (r: Vec<String>)
    ensures
        r@.map_values(|s: String| s@) == picker_args(
            result_path@,
            multiple,
            directory_only,
            save_mode,
            opt_view(initial_dir),
        ),
{
    let ghost d = opt_view(initial_dir);
    let mut r: Vec<String> = Vec::new();
    r.push("--pick-mode".to_string());
    r.push(result_path);
    if multiple {
        r.push("--pick-multiple".to_string());
    }
    if directory_only {
        r.push("--pick-directory".to_string());
    }
    if save_mode {
        r.push("--pick-save".to_string());
    }
    if let Some(dir) = initial_dir {
        r.push(dir);
    }
    assert(r@.map_values(|s: String| s@) =~= picker_args(
        result_path@,
        multiple,
        directory_only,
        save_mode,
        d,
    ));
    r
}

/// The string that UTF-8 bytes encode, by std's `String::from_utf8`,
/// which fails exactly on bytes that are not UTF-8.
#[verifier::external_body]
fn utf8_string(bytes: Vec<u8>) -> (r: Option<String>)
    ensures
        r is Some == valid_utf8(bytes@),
        r is Some ==> r->0@ == decode_utf8(bytes@),
{
    match String::from_utf8(bytes) {
        Ok(s) => Some(s),
        Err(_) => None,
    }
}

/// The index of the first zero byte, or -1.
pub open spec fn first_nul(b: Seq<u8>) -> int
    decreases b.len(),
{
    if b.len() == 0 {
        -1
    } else if b[0] == 0 {
        0
    } else {
        let r = first_nul(b.drop_first());
        if r < 0 {
            -1
        } else {
            r + 1
        }
    }
}

/// The folder the portal request names: the bytes up to the first zero
/// byte when there is one and they are UTF-8, else all of the bytes when
/// they are UTF-8.
pub open spec fn current_folder_text(b: Seq<u8>) -> Option<Seq<char>> {
    let k = first_nul(b);
    if k >= 0 && valid_utf8(b.take(k)) {
        Some(decode_utf8(b.take(k)))
    } else if valid_utf8(b) {
        Some(decode_utf8(b))
    } else {
        None
    }
}

/// The folder that the bytes of a portal request's `current_folder` option
/// name: a zero-terminated UTF-8 string, or UTF-8 without a terminator.
pub fn decode_current_folder(bytes: &Vec<u8>) -> (r: Option<String>)
    ensures
        r is Some == current_folder_text(bytes@) is Some,
        r is Some ==> r->0@ == current_folder_text(bytes@)->0,
{
    let mut k: usize = 0;
    assert(bytes@.subrange(0, bytes@.len() as int) =~= bytes@);
    while k < bytes.len() && bytes[k] != 0
        invariant
            k <= bytes@.len(),
            first_nul(bytes@) == (if first_nul(bytes@.subrange(k as int, bytes@.len() as int)) < 0 {
                -1
            } else {
                first_nul(bytes@.subrange(k as int, bytes@.len() as int)) + k
            }),
        decreases bytes@.len() - k,
    {
        assert(bytes@.subrange(k as int, bytes@.len() as int).drop_first() =~= bytes@.subrange(
            k + 1,
            bytes@.len() as int,
        ));
        k = k + 1;
    }
    if k < bytes.len() {
        let mut prefix: Vec<u8> = Vec::new();
        let mut i: usize = 0;
        while i < k
            invariant
                i <= k < bytes@.len(),
                prefix@ == bytes@.take(i as int),
            decreases k - i,
        {
            prefix.push(bytes[i]);
            i = i + 1;
            assert(prefix@ =~= bytes@.take(i as int));
        }
        if let Some(s) = utf8_string(prefix) {
            return Some(s);
        }
    } else {
        assert(bytes@.subrange(k as int, bytes@.len() as int) =~= Seq::<u8>::empty());
    }
    let mut all: Vec<u8> = Vec::new();
    let mut i: usize = 0;
    while i < bytes.len()
        invariant
            i <= bytes@.len(),
            all@ == bytes@.take(i as int),
        decreases bytes@.len() - i,
    {
        all.push(bytes[i]);
        i = i + 1;
        assert(all@ =~= bytes@.take(i as int));
    }
    assert(bytes@.take(i as int) =~= bytes@);
    utf8_string(all)
}

/// The places where `PATH` may hold the kiorg program: each of its
/// `:`-separated directories joined with `kiorg`.
pub open spec fn path_candidates_of(path_var: Seq<char>) -> Seq<Seq<char>> {
    split_sep(path_var, ':').map_values(|d: Seq<char>| join_path(d, "kiorg"@))
}

/// The places where `PATH` may hold the kiorg program.
pub fn path_candidates(path_var: &str) -> (r: Vec<String>)
    ensures
        r@.map_values(|s: String| s@) == path_candidates_of(path_var@),
{
    let v = chars_of(path_var);
    let mut r: Vec<String> = Vec::new();
    let mut start: usize = 0;
    let mut i: usize = 0;
    proof {
        crate::text::lemma_split_nonempty(v@.take(0), ':');
        assert(v@.take(0) =~= Seq::<char>::empty());
    }
    while i < v.len()
        invariant
            start <= i <= v@.len(),
            split_sep(v@.take(i as int), ':').len() == r@.len() + 1,
            forall|j: int|
                0 <= j < r@.len() ==> #[trigger] r@[j]@ == join_path(
                    split_sep(v@.take(i as int), ':')[j],
                    "kiorg"@,
                ),
            split_sep(v@.take(i as int), ':').last() == v@.subrange(start as int, i as int),
        decreases v@.len() - i,
    {
        let ghost before = split_sep(v@.take(i as int), ':');
        proof {
            assert(v@.take(i + 1).drop_last() =~= v@.take(i as int));
        }
        if v[i] == ':' {
            let dir = string_of_range(&v, start, i);
            r.push(join(dir.as_str(), "kiorg"));
            start = i + 1;
        }
        i = i + 1;
        proof {
            let after = split_sep(v@.take(i as int), ':');
            if v@[i - 1] != ':' {
                assert(v@.subrange(start as int, i as int) =~= v@.subrange(start as int, i - 1).push(v@[i - 1]));
            } else {
                assert(v@.subrange(start as int, i as int) =~= Seq::<char>::empty());
            }
            assert forall|j: int| 0 <= j < r@.len() implies #[trigger] r@[j]@ == join_path(after[j], "kiorg"@) by {
                assert(after[j] == before[j] || j == r@.len() - 1);
            }
        }
    }
    let dir = string_of_range(&v, start, i);
    r.push(join(dir.as_str(), "kiorg"));
    proof {
        assert(v@.take(i as int) =~= path_var@);
        assert(r@.map_values(|s: String| s@) =~= path_candidates_of(path_var@));
    }
    r
}

/// The first place that holds a file, if any.
pub open spec fn first_file(c: Seq<(Seq<char>, bool)>) -> Option<Seq<char>>
    decreases c.len(),
{
    if c.len() == 0 {
        None
    } else if c[0].1 {
        Some(c[0].0)
    } else {
        first_file(c.drop_first())
    }
}

/// The views of candidate places.
pub open spec fn candidate_views(c: Seq<(String, bool)>) -> Seq<(Seq<char>, bool)> {
    c.map_values(|x: (String, bool)| (x.0@, x.1))
}

/// The kiorg program to run: the one `KIORG_BINARY` names, else the one
/// beside the portal's own program when it is a file, else the first of
/// the `PATH` candidates that is a file, else `kiorg`. Each place comes
/// with whether it is a file.
pub fn choose_kiorg_binary(
    env_override: Option<String>,
    sibling: Option<(String, bool)>,
    candidates: &Vec<(String, bool)>,
) -> (r: String)
    ensures
        match env_override {
            Some(p) => r == p,
            None => match sibling {
                Some(s) if s.1 => r == s.0,
                _ => match first_file(candidate_views(candidates@)) {
                    Some(p) => r@ == p,
                    None => r@ == "kiorg"@,
                },
            },
        },
{
    if let Some(p) = env_override {
        return p;
    }
    if let Some(s) = sibling {
        if s.1 {
            return s.0;
        }
    }
    let ghost c = candidate_views(candidates@);
    let mut i: usize = 0;
    assert(c.subrange(0, c.len() as int) =~= c);
    while i < candidates.len()
        invariant
            i <= candidates@.len(),
            env_override is None,
            !(sibling matches Some(s) && s.1),
            c == candidate_views(candidates@),
            first_file(c) == first_file(c.subrange(i as int, c.len() as int)),
        decreases candidates@.len() - i,
    {
        assert(c.subrange(i as int, c.len() as int).drop_first() =~= c.subrange(i + 1, c.len() as int));
        if candidates[i].1 {
            return candidates[i].0.clone();
        }
        i = i + 1;
    }
    "kiorg".to_string()
}

} // verus!

verus! {

use crate::app::joined_lines;
use crate::text::{lemma_split_append, strip_cr};

/// Paths joined by line feeds split back into the paths.
proof fn lemma_split_joined(ps: Seq<Seq<char>>)
    requires
        ps.len() > 0,
        forall|i: int| 0 <= i < ps.len() ==> !(#[trigger] ps[i]).contains('\n'),
    ensures
        split_sep(joined_lines(ps), '\n') == ps,
    decreases ps.len(),
{
    if ps.len() == 1 {
        lemma_split_append(Seq::<char>::empty(), ps[0], '\n');
        assert(Seq::<char>::empty() + ps[0] =~= ps[0]);
        assert(split_sep(Seq::<char>::empty(), '\n').last() + ps[0] =~= ps[0]);
        assert(split_sep(joined_lines(ps), '\n') =~= ps);
    } else {
        let t = ps.drop_last();
        assert forall|i: int| 0 <= i < t.len() implies !(#[trigger] t[i]).contains('\n') by {
            assert(t[i] == ps[i]);
        }
        lemma_split_joined(t);
        let x = joined_lines(t).push('\n');
        assert(x.drop_last() =~= joined_lines(t));
        assert(joined_lines(ps) =~= x + ps.last());
        lemma_split_append(x, ps.last(), '\n');
        assert(split_sep(x, '\n').last() + ps.last() =~= ps.last());
        assert(split_sep(joined_lines(ps), '\n') =~= ps);
    }
}

/// The URIs of non-empty lines are those of all lines.
proof fn lemma_uris_all(ls: Seq<Seq<char>>)
    requires
        forall|i: int| 0 <= i < ls.len() ==> (#[trigger] ls[i]).len() > 0,
    ensures
        uris_of(ls) == ls.map_values(|p: Seq<char>| file_uri(p)),
    decreases ls.len(),
{
    if ls.len() > 0 {
        let t = ls.drop_last();
        assert forall|i: int| 0 <= i < t.len() implies (#[trigger] t[i]).len() > 0 by {
            assert(t[i] == ls[i]);
        }
        lemma_uris_all(t);
        assert(ls.last() == ls[ls.len() - 1]);
        assert(ls.map_values(|p: Seq<char>| file_uri(p)) =~= t.map_values(|p: Seq<char>| file_uri(p)).push(file_uri(ls.last())));
    }
}

/// What picker mode writes into the result file, the portal answers with:
/// the `file://` URIs of the chosen paths, one for each, when no path is
/// empty or holds a line feed, and none but the last ends with a carriage
/// return.
pub proof fn lemma_picker_result_read_back(ps: Seq<Seq<char>>)
    requires
        ps.len() > 0,
        forall|i: int| 0 <= i < ps.len() ==> (#[trigger] ps[i]).len() > 0 && !ps[i].contains('\n'),
        forall|i: int| 0 <= i < ps.len() - 1 ==> (#[trigger] ps[i]).last() != '\r',
    ensures
        uris_of(lines_of(joined_lines(ps))) == ps.map_values(|p: Seq<char>| file_uri(p)),
{
    lemma_split_joined(ps);
    let n = ps.len() - 1;
    assert(ps.take(n).map_values(|l: Seq<char>| strip_cr(l)) =~= ps.take(n)) by {
        assert forall|i: int| 0 <= i < n implies strip_cr(#[trigger] ps.take(n)[i]) == ps.take(n)[i] by {
            assert(ps.take(n)[i] == ps[i]);
        }
    }
    assert(ps.take(n).push(ps[n]) =~= ps);
    assert(lines_of(joined_lines(ps)) =~= ps);
    lemma_uris_all(ps);
}

} // verus!

verus! {

/// The first place of `c` that is a file is the one found.
proof fn lemma_first_file_earliest(c: Seq<(Seq<char>, bool)>, i: int)
    requires
        0 <= i < c.len(),
        c[i].1,
        forall|j: int| 0 <= j < i ==> !c[j].1,
    ensures
        first_file(c) == Some(c[i].0),
    decreases i,
{
    if i > 0 {
        lemma_first_file_earliest(c.drop_first(), i - 1);
    }
}

/// Where no place of `c` is a file, none is found.
proof fn lemma_first_file_absent(c: Seq<(Seq<char>, bool)>)
    requires
        forall|j: int| 0 <= j < c.len() ==> !c[j].1,
    ensures
        first_file(c) is None,
    decreases c.len(),
{
    if c.len() > 0 {
        lemma_first_file_absent(c.drop_first());
    }
}

/// The `PATH` candidates are tried in their order: the program found is
/// the first candidate that is a file, and there is none when no candidate
/// is a file.
pub proof fn lemma_kiorg_binary_follows_path_order(candidates: Seq<(String, bool)>)
    ensures
        forall|i: int|
            0 <= i < candidates.len() && (#[trigger] candidates[i]).1 && (forall|j: int|
                0 <= j < i ==> !candidates[j].1) ==> first_file(candidate_views(candidates))
                == Some(candidates[i].0@),
        (forall|i: int| 0 <= i < candidates.len() ==> !(#[trigger] candidates[i]).1) ==> first_file(
            candidate_views(candidates),
        ) is None,
{
    let c = candidate_views(candidates);
    assert forall|i: int|
        0 <= i < candidates.len() && (#[trigger] candidates[i]).1 && (forall|j: int|
            0 <= j < i ==> !candidates[j].1) implies first_file(c) == Some(candidates[i].0@) by {
        assert forall|j: int| 0 <= j < i implies !c[j].1 by {
            assert(!candidates[j].1);
        }
        lemma_first_file_earliest(c, i);
    }
    if forall|i: int| 0 <= i < candidates.len() ==> !(#[trigger] candidates[i]).1 {
        assert forall|j: int| 0 <= j < c.len() implies !c[j].1 by {
            assert(!candidates[j].1);
        }
        lemma_first_file_absent(c);
    }
}

/// Each picker flag is passed exactly when its option is set, whatever the
/// others are: the arguments are `--pick-mode` and the result file, then
/// the flags, then the start directory when there is one.
pub proof fn lemma_picker_flags_independent(
    result_path: Seq<char>,
    multiple: bool,
    directory_only: bool,
    save_mode: bool,
    initial_dir: Option<Seq<char>>,
)
    ensures
        ({
            let a = picker_args(result_path, multiple, directory_only, save_mode, initial_dir);
            let n: int = if initial_dir is Some {
                1
            } else {
                0
            };
            let flags = a.subrange(2, a.len() - n);
            &&& a.len() >= 2 + n
            &&& a[0] == "--pick-mode"@
            &&& a[1] == result_path
            &&& (initial_dir matches Some(d) ==> a.last() == d)
            &&& flags.contains("--pick-multiple"@) == multiple
            &&& flags.contains("--pick-directory"@) == directory_only
            &&& flags.contains("--pick-save"@) == save_mode
            &&& flags.len() == (if multiple {
                1int
            } else {
                0
            }) + (if directory_only {
                1int
            } else {
                0
            }) + (if save_mode {
                1int
            } else {
                0
            })
        }),
{
    reveal_strlit("--pick-multiple");
    reveal_strlit("--pick-directory");
    reveal_strlit("--pick-save");
    let fm = "--pick-multiple"@;
    let fd = "--pick-directory"@;
    let fs = "--pick-save"@;
    assert(fm.len() == 15 && fd.len() == 16 && fs.len() == 11);
    let a = picker_args(result_path, multiple, directory_only, save_mode, initial_dir);
    let n: int = if initial_dir is Some {
        1
    } else {
        0
    };
    let f1: Seq<Seq<char>> = if multiple {
        seq![fm]
    } else {
        seq![]
    };
    let f2: Seq<Seq<char>> = if directory_only {
        f1.push(fd)
    } else {
        f1
    };
    let f3: Seq<Seq<char>> = if save_mode {
        f2.push(fs)
    } else {
        f2
    };
    let b = seq!["--pick-mode"@, result_path] + f3;
    assert(a =~= match initial_dir {
        Some(d) => b.push(d),
        None => b,
    });
    let flags = a.subrange(2, a.len() - n);
    assert(flags =~= f3);
    assert(f3.contains(fm) == multiple) by {
        if multiple {
            assert(f3[0] == fm);
        } else {
            assert forall|i: int| 0 <= i < f3.len() implies f3[i] != fm by {
                assert(f3[i].len() != fm.len());
            }
        }
    }
    assert(f3.contains(fd) == directory_only) by {
        if directory_only {
            assert(f3[f2.len() - 1] == fd);
        } else {
            assert forall|i: int| 0 <= i < f3.len() implies f3[i] != fd by {
                assert(f3[i].len() != fd.len());
            }
        }
    }
    assert(f3.contains(fs) == save_mode) by {
        if save_mode {
            assert(f3[f3.len() - 1] == fs);
        } else {
            assert forall|i: int| 0 <= i < f3.len() implies f3[i] != fs by {
                assert(f3[i].len() != fs.len());
            }
        }
    }
}

} // verus!
