//! File names and paths: the pieces that the output-path rules and the image
//! filter read, with the path parsing of `std::path` behind named wrappers.

use vstd::prelude::*;

use crate::text::is_literal;

verus! {

/// Index of the last occurrence of `c` in `s`, or -1 when there is none.
pub open spec fn last_index_of(s: Seq<char>, c: char) -> int
    decreases s.len(),
{
    if s.len() == 0 {
        -1
    } else if s.last() == c {
        s.len() - 1
    } else {
        last_index_of(s.drop_last(), c)
    }
}

/// The stem of a file name, as `Path::file_stem` splits it: everything before
/// the last `.`, unless that dot is the first character or the name is `..`.
pub open spec fn file_stem(name: Seq<char>) -> Seq<char> {
    let k = last_index_of(name, '.');
    if name == ".."@ || k <= 0 {
        name
    } else {
        name.take(k)
    }
}

/// The extension of a file name, as `Path::extension` splits it: what follows
/// the last `.`, when there is a non-empty part before that dot.
pub open spec fn file_extension(name: Seq<char>) -> Option<Seq<char>> {
    let k = last_index_of(name, '.');
    if name == ".."@ || k <= 0 {
        None
    } else {
        Some(name.skip(k + 1))
    }
}

/// ASCII lower-casing of one character, as `to_ascii_lowercase` does it.
pub open spec fn ascii_lower(c: char) -> char {
    if 'A' <= c && c <= 'Z' {
        ((c as int) + 32) as char
    } else {
        c
    }
}

/// ASCII lower-casing of a whole string.
pub open spec fn ascii_lower_seq(s: Seq<char>) -> Seq<char> {
    Seq::new(s.len(), |i: int| ascii_lower(s[i]))
}

/// Where the last occurrence of a character can be.
pub proof fn lemma_last_index_bounds(s: Seq<char>, c: char)
    ensures
        -1 <= last_index_of(s, c) < s.len(),
        last_index_of(s, c) >= 0 ==> s[last_index_of(s, c)] == c,
        forall|j: int| last_index_of(s, c) < j < s.len() ==> s[j] != c,
    decreases s.len(),
{
    if s.len() > 0 && s.last() != c {
        lemma_last_index_bounds(s.drop_last(), c);
        assert forall|j: int| last_index_of(s, c) < j < s.len() implies s[j] != c by {
            if j < s.len() - 1 {
                assert(s[j] == s.drop_last()[j]);
            }
        }
    }
}

/// Finds the last `.` of `name`, or -1.
fn last_dot(name: &str) -> (res: Option<usize>)
    ensures
        res matches Some(k) ==> k == last_index_of(name@, '.'),
        res is None ==> last_index_of(name@, '.') == -1,
{
    let n = name.unicode_len();
    let mut i: usize = n;
    assert(name@.take(n as int) =~= name@);
    while i > 0
        invariant
            i <= n,
            n == name@.len(),
            last_index_of(name@, '.') == last_index_of(name@.take(i as int), '.'),
        decreases i,
    {
        let c = name.get_char(i - 1);
        assert(name@.take(i as int).last() == c);
        if c == '.' {
            return Some(i - 1);
        }
        assert(name@.take(i as int).drop_last() =~= name@.take(i - 1));
        i = i - 1;
    }
    None
}

/// Whether `name` is the two-character name `..`.
fn is_parent_marker(name: &str) -> (res: bool)
    ensures
        res == (name@ == ".."@),
{
    proof {
        reveal_strlit("..");
    }
    let n = name.unicode_len();
    if n != 2 {
        return false;
    }
    let a = name.get_char(0);
    let b = name.get_char(1);
    let r = a == '.' && b == '.';
    if r {
        assert(name@ =~= ".."@);
    }
    r
}

/// The stem of a file name (see [`file_stem`]).
pub fn stem_of(name: &str) -> (res: String)
    ensures
        res@ == file_stem(name@),
{
    proof {
        lemma_last_index_bounds(name@, '.');
    }
    match last_dot(name) {
        Some(k) if k > 0 && !is_parent_marker(name) => {
            let part = name.substring_char(0, k);
            assert(part@ =~= name@.take(k as int));
            part.to_owned()
        },
        _ => name.to_owned(),
    }
}

/// The extension of a file name (see [`file_extension`]).
pub fn extension_of(name: &str) -> (res: Option<String>)
    ensures
        match res {
            Some(e) => file_extension(name@) == Some(e@),
            None => file_extension(name@) is None,
        },
{
    proof {
        lemma_last_index_bounds(name@, '.');
    }
    match last_dot(name) {
        Some(k) if k > 0 && !is_parent_marker(name) => {
            let n = name.unicode_len();
            let part = name.substring_char(k + 1, n);
            assert(part@ =~= name@.skip(k + 1));
            Some(part.to_owned())
        },
        _ => None,
    }
}

/// Whether `text`, lower-cased in ASCII, equals `lower`.
pub fn eq_ignore_ascii_case(text: &str, lower: &str) -> (res: bool)
    ensures
        res == (ascii_lower_seq(text@) == lower@),
{
    let n = text.unicode_len();
    let m = lower.unicode_len();
    if n != m {
        assert(ascii_lower_seq(text@).len() != lower@.len());
        return false;
    }
    let mut i: usize = 0;
    while i < n
        invariant
            i <= n,
            n == text@.len(),
            n == lower@.len(),
            forall|j: int| 0 <= j < i ==> ascii_lower(#[trigger] text@[j]) == lower@[j],
        decreases n - i,
    {
        let c = text.get_char(i);
        let l = lower.get_char(i);
        let same = if 'A' <= c && c <= 'Z' {
            (c as u32) + 32 == (l as u32)
        } else {
            c == l
        };
        if !same {
            assert(ascii_lower(text@[i as int]) != lower@[i as int]);
            assert(ascii_lower_seq(text@)[i as int] != lower@[i as int]);
            return false;
        }
        i = i + 1;
    }
    assert(ascii_lower_seq(text@) =~= lower@);
    true
}

} // verus!

verus! {

/// The last component of a path, as `std::path::Path::file_name` finds it on
/// Unix: split the path at `/`, drop empty and `.` parts, and take the last
/// part unless it is `..`.
pub open spec fn path_file_name(path: Seq<char>) -> Option<Seq<char>>
    decreases path.len(),
{
    if path.len() == 0 {
        None
    } else {
        let k = last_index_of(path, '/');
        let seg = path.skip(k + 1);
        if seg.len() == 0 || seg == "."@ {
            if k < 0 {
                None
            } else {
                proof {
                    lemma_last_index_bounds(path, '/');
                }
                path_file_name(path.take(k))
            }
        } else if seg == ".."@ {
            None
        } else {
            Some(seg)
        }
    }
}

/// How many leading characters of `q` come before its first named part: a
/// root `/`, or a leading `.` that stands alone or before a `/`.
pub open spec fn lead_len(q: Seq<char>) -> int {
    if q.len() > 0 && q[0] == '/' {
        1
    } else if q.len() > 0 && q[0] == '.' && (q.len() == 1 || q[1] == '/') {
        1
    } else {
        0
    }
}

/// The last part of `q` after its lead, with the number of characters that
/// removing it (and the `/` before it, if that belongs to the body) takes off.
pub open spec fn last_part(q: Seq<char>) -> (int, Seq<char>) {
    let k = last_index_of(q, '/');
    if k >= lead_len(q) {
        (q.len() - k, q.skip(k + 1))
    } else {
        (q.len() - lead_len(q), q.skip(lead_len(q)))
    }
}

/// `q` without trailing empty and `.` parts, as `std::path::Components`
/// trims the back of a path.
pub open spec fn trim_back(q: Seq<char>) -> Seq<char>
    decreases q.len(),
{
    if q.len() > lead_len(q) {
        let (size, seg) = last_part(q);
        if seg.len() == 0 || seg == "."@ {
            proof {
                lemma_last_index_bounds(q, '/');
            }
            if size >= 1 {
                trim_back(q.take(q.len() - size))
            } else {
                q
            }
        } else {
            q
        }
    } else {
        q
    }
}

/// The path without its last component, as `std::path::Path::parent` finds it
/// on Unix: after trimming the back, a last named part is removed together
/// with the trailing separators and `.` parts before it; a bare root has no
/// parent; a bare `.` has the empty path as parent; the empty path has none.
pub open spec fn path_parent(path: Seq<char>) -> Option<Seq<char>> {
    let q = trim_back(path);
    if q.len() > lead_len(q) {
        Some(trim_back(q.take(q.len() - last_part(q).0)))
    } else if q.len() > 0 && q[0] == '/' {
        None
    } else if lead_len(q) == 1 {
        Some(q.take(q.len() - 1))
    } else {
        None
    }
}

/// `tail` appended to `base`, as `std::path::Path::join` builds it on Unix: an
/// absolute `tail` replaces `base`; otherwise a `/` goes between the two
/// unless `base` is empty or already ends in `/`.
pub open spec fn path_join(base: Seq<char>, tail: Seq<char>) -> Seq<char> {
    if tail.len() > 0 && tail[0] == '/' {
        tail
    } else if base.len() > 0 && base.last() != '/' {
        base + "/"@ + tail
    } else {
        base + tail
    }
}

/// Finds the last `c` among the first `end` characters of `s`.
fn last_index_before(s: &str, c: char, end: usize) -> (res: Option<usize>)
    requires
        end <= s@.len(),
    ensures
        res matches Some(k) ==> k == last_index_of(s@.take(end as int), c),
        res is None ==> last_index_of(s@.take(end as int), c) == -1,
{
    let mut i: usize = end;
    assert(s@.take(end as int).take(end as int) =~= s@.take(end as int));
    while i > 0
        invariant
            i <= end,
            end <= s@.len(),
            last_index_of(s@.take(end as int), c) == last_index_of(s@.take(i as int), c),
        decreases i,
    {
        let x = s.get_char(i - 1);
        assert(s@.take(i as int).last() == x);
        if x == c {
            return Some(i - 1);
        }
        assert(s@.take(i as int).drop_last() =~= s@.take(i - 1));
        i = i - 1;
    }
    None
}

/// The last component of a path (see [`path_file_name`]).
pub fn file_name_of(path: &str) -> (res: Option<String>)
    ensures
        match res {
            Some(n) => path_file_name(path@) == Some(n@),
            None => path_file_name(path@) is None,
        },
{
    proof {
        reveal_strlit(".");
        reveal_strlit("..");
    }
    let mut end: usize = path.unicode_len();
    assert(path@.take(end as int) =~= path@);
    loop
        invariant
            end <= path@.len(),
            path_file_name(path@) == path_file_name(path@.take(end as int)),
        decreases end,
    {
        let ghost p = path@.take(end as int);
        if end == 0 {
            return None;
        }
        let k = last_index_before(path, '/', end);
        proof {
            lemma_last_index_bounds(p, '/');
        }
        let start: usize = match k {
            Some(k) => k + 1,
            None => 0,
        };
        let seg = path.substring_char(start, end).to_owned();
        assert(seg@ =~= p.skip(last_index_of(p, '/') + 1));
        if seg.as_str().unicode_len() == 0 || is_literal(&seg, ".") {
            match k {
                None => {
                    return None;
                },
                Some(k) => {
                    assert(p.take(k as int) =~= path@.take(k as int));
                    end = k;
                },
            }
        } else if is_literal(&seg, "..") {
            return None;
        } else {
            return Some(seg);
        }
    }
}

/// [`lead_len`] of the first `end` characters of `path`.
fn lead_len_of(path: &str, end: usize) -> (res: usize)
    requires
        end <= path@.len(),
    ensures
        res == lead_len(path@.take(end as int)),
{
    if end > 0 && path.get_char(0) == '/' {
        1
    } else if end > 0 && path.get_char(0) == '.' && (end == 1 || path.get_char(1) == '/') {
        1
    } else {
        0
    }
}

/// For the first `end` characters of `path`: where its last part starts and
/// where the path ends once that part is removed (see [`last_part`]).
fn last_part_of(path: &str, end: usize) -> (res: (usize, usize))
    requires
        end <= path@.len(),
        end > lead_len(path@.take(end as int)),
    ensures
        res.1 <= res.0 <= end,
        res.1 < end,
        end - res.1 == last_part(path@.take(end as int)).0,
        path@.take(end as int).skip(res.0 as int) == last_part(path@.take(end as int)).1,
{
    let ghost q = path@.take(end as int);
    let lead = lead_len_of(path, end);
    let k = last_index_before(path, '/', end);
    proof {
        lemma_last_index_bounds(q, '/');
    }
    match k {
        Some(k) if k >= lead => (k + 1, k),
        _ => (lead, lead),
    }
}

/// The end of the first `end` characters of `path` once trimmed at the back
/// (see [`trim_back`]).
fn trim_back_end(path: &str, end: usize) -> (res: usize)
    requires
        end <= path@.len(),
    ensures
        res <= end,
        path@.take(res as int) == trim_back(path@.take(end as int)),
{
    proof {
        reveal_strlit(".");
    }
    let mut e = end;
    while e > lead_len_of(path, e)
        invariant
            e <= end,
            end <= path@.len(),
            trim_back(path@.take(end as int)) == trim_back(path@.take(e as int)),
        decreases e,
    {
        let ghost q = path@.take(e as int);
        let (start, cut) = last_part_of(path, e);
        let seg = path.substring_char(start, e).to_owned();
        assert(seg@ =~= q.skip(start as int));
        if seg.as_str().unicode_len() == 0 || is_literal(&seg, ".") {
            assert(q.take(q.len() - (e - cut)) =~= path@.take(cut as int));
            e = cut;
        } else {
            return e;
        }
    }
    e
}

/// The parent of a path (see [`path_parent`]).
pub fn parent_of(path: &str) -> (res: Option<String>)
    ensures
        match res {
            Some(p) => path_parent(path@) == Some(p@),
            None => path_parent(path@) is None,
        },
{
    let n = path.unicode_len();
    assert(path@.take(n as int) =~= path@);
    let e = trim_back_end(path, n);
    let ghost q = path@.take(e as int);
    let lead = lead_len_of(path, e);
    if e > lead {
        let (_start, cut) = last_part_of(path, e);
        assert(q.take(q.len() - last_part(q).0) =~= path@.take(cut as int));
        let p = trim_back_end(path, cut);
        return Some(path.substring_char(0, p).to_owned());
    }
    if e > 0 && path.get_char(0) == '/' {
        return None;
    }
    if lead == 1 {
        assert(q.take(q.len() - 1) =~= path@.take(e - 1));
        return Some(path.substring_char(0, e - 1).to_owned());
    }
    None
}

/// Joins two paths (see [`path_join`]).
pub fn join_paths(base: &str, tail: &str) -> (res: String)
    ensures
        res@ == path_join(base@, tail@),
{
    let tn = tail.unicode_len();
    if tn > 0 && tail.get_char(0) == '/' {
        return tail.to_owned();
    }
    let bn = base.unicode_len();
    let mut out = base.to_owned();
    if bn > 0 && base.get_char(bn - 1) != '/' {
        out.append("/");
    }
    out.append(tail);
    out
}

} // verus!
