//! File names and extensions of `/`-separated paths, as `std::path::Path`
//! reads them on Unix.
use crate::text::{chars_of, chars_eq_ignore_case, eq_ignore_case};
use vstd::prelude::*;
use vstd::string::StrSliceExecFns;

verus! {

/// Index of the last `c` in `s`, or -1.
pub open spec fn rfind_char(s: Seq<char>, c: char) -> int
    decreases s.len(),
{
    if s.len() == 0 {
        -1
    } else if s.last() == c {
        s.len() - 1
    } else {
        rfind_char(s.drop_last(), c)
    }
}

pub proof fn lemma_rfind_char(s: Seq<char>, c: char)
    ensures
        -1 <= rfind_char(s, c) < s.len(),
        rfind_char(s, c) >= 0 ==> s[rfind_char(s, c)] == c,
        forall|j: int| rfind_char(s, c) < j < s.len() ==> s[j] != c,
    decreases s.len(),
{
    if s.len() > 0 && s.last() != c {
        lemma_rfind_char(s.drop_last(), c);
        assert forall|j: int| rfind_char(s, c) < j < s.len() implies s[j] != c by {
            if j < s.len() - 1 {
                assert(s[j] == s.drop_last()[j]);
            }
        }
    }
}

pub open spec fn is_dot(s: Seq<char>) -> bool {
    s.len() == 1 && s[0] == '.'
}

pub open spec fn is_dot_dot(s: Seq<char>) -> bool {
    s.len() == 2 && s[0] == '.' && s[1] == '.'
}

/// Start and end of the last path component that ends at or before `end`,
/// skipping empty and `.` components.
pub open spec fn last_component(p: Seq<char>, end: int) -> Option<(int, int)>
    decreases end,
{
    if end <= 0 || end > p.len() {
        None
    } else {
        proof {
            lemma_rfind_char(p.take(end), '/');
        }
        let start = rfind_char(p.take(end), '/') + 1;
        let seg = p.subrange(start, end);
        if seg.len() == 0 || is_dot(seg) {
            if start <= 0 {
                None
            } else {
                last_component(p, start - 1)
            }
        } else {
            Some((start, end))
        }
    }
}

/// The range of `Path::file_name`: the last component unless it is `..`.
pub open spec fn file_name_range(p: Seq<char>) -> Option<(int, int)> {
    match last_component(p, p.len() as int) {
        Some((a, b)) => if is_dot_dot(p.subrange(a, b)) {
            None
        } else {
            Some((a, b))
        },
        None => None,
    }
}

/// The range of `Path::extension`: after the last `.` of the file name,
/// when that `.` is not its first character.
pub open spec fn extension_range(p: Seq<char>) -> Option<(int, int)> {
    match file_name_range(p) {
        Some((a, b)) => {
            let i = rfind_char(p.subrange(a, b), '.');
            if i <= 0 {
                None
            } else {
                Some((a + i + 1, b))
            }
        },
        None => None,
    }
}

pub open spec fn path_extension(p: Seq<char>) -> Option<Seq<char>> {
    match extension_range(p) {
        Some((a, b)) => Some(p.subrange(a, b)),
        None => None,
    }
}

proof fn lemma_last_component_bounds(p: Seq<char>, end: int)
    ensures
        last_component(p, end) matches Some((a, b)) ==> 0 <= a < b <= p.len() && b == end || (0
            <= a < b < end),
    decreases end,
{
    if end > 0 && end <= p.len() {
        lemma_rfind_char(p.take(end), '/');
        let start = rfind_char(p.take(end), '/') + 1;
        if start > 0 {
            lemma_last_component_bounds(p, start - 1);
        }
    }
}

fn rfind_in(cs: &[char], end: usize, c: char) -> (r: Option<usize>)
    requires
        end <= cs@.len(),
    ensures
        r matches Some(i) ==> i as int == rfind_char(cs@.take(end as int), c),
        r is None ==> rfind_char(cs@.take(end as int), c) == -1,
{
    let mut i = end;
    proof {
        lemma_rfind_char(cs@.take(end as int), c);
    }
    while i > 0
        invariant
            i <= end <= cs@.len(),
            forall|j: int| i <= j < end ==> cs@[j] != c,
            rfind_char(cs@.take(end as int), c) == rfind_char(cs@.take(i as int), c),
        decreases i,
    {
        if cs[i - 1] == c {
            proof {
                assert(cs@.take(i as int).last() == c);
            }
            return Some(i - 1);
        }
        proof {
            assert(cs@.take(i as int).drop_last() =~= cs@.take(i - 1));
        }
        i = i - 1;
    }
    None
}

fn last_component_exec(cs: &[char]) -> (r: Option<(usize, usize)>)
    ensures
        r matches Some((a, b)) ==> last_component(cs@, cs@.len() as int) == Some((a as int, b as int)),
        r is None ==> last_component(cs@, cs@.len() as int) is None,
{
    let mut end = cs.len();
    loop
        invariant
            end <= cs@.len(),
            last_component(cs@, cs@.len() as int) == last_component(cs@, end as int),
        decreases end,
    {
        if end == 0 {
            return None;
        }
        proof {
            lemma_rfind_char(cs@.take(end as int), '/');
        }
        let start = match rfind_in(cs, end, '/') {
            Some(i) => i + 1,
            None => 0,
        };
        let len = end - start;
        if len == 0 || (len == 1 && cs[start] == '.') {
            proof {
                let seg = cs@.subrange(start as int, end as int);
                assert(seg.len() == 0 || is_dot(seg));
            }
            if start == 0 {
                return None;
            }
            end = start - 1;
        } else {
            proof {
                let seg = cs@.subrange(start as int, end as int);
                if len == 1 {
                    assert(seg[0] == cs@[start as int]);
                }
                assert(!(seg.len() == 0 || is_dot(seg)));
            }
            return Some((start, end));
        }
    }
}

fn extension_range_exec(cs: &[char]) -> (r: Option<(usize, usize)>)
    ensures
        r matches Some((a, b)) ==> extension_range(cs@) == Some((a as int, b as int)) && a <= b
            <= cs@.len(),
        r is None ==> extension_range(cs@) is None,
{
    proof {
        lemma_last_component_bounds(cs@, cs@.len() as int);
    }
    match last_component_exec(cs) {
        Some((a, b)) => {
            if b - a == 2 && cs[a] == '.' && cs[a + 1] == '.' {
                proof {
                    assert(is_dot_dot(cs@.subrange(a as int, b as int)));
                }
                return None;
            }
            proof {
                let seg = cs@.subrange(a as int, b as int);
                if b - a == 2 {
                    assert(seg[0] == cs@[a as int] && seg[1] == cs@[a + 1]);
                }
                assert(!is_dot_dot(seg));
            }
            let name = vstd::slice::slice_subrange(cs, a, b);
            proof {
                lemma_rfind_char(name@.take(name@.len() as int), '.');
            }
            match rfind_in(name, name.len(), '.') {
                Some(i) => {
                    proof {
                        assert(name@.take(name@.len() as int) =~= name@);
                    }
                    if i == 0 {
                        None
                    } else {
                        Some((a + i + 1, b))
                    }
                },
                None => {
                    proof {
                        assert(name@.take(name@.len() as int) =~= name@);
                    }
                    None
                },
            }
        },
        None => None,
    }
}

/// The extension of a path (`Path::extension`).
pub fn extension_of(path: &str) -> (r: Option<&str>)
    ensures
        r matches Some(e) ==> path_extension(path@) == Some(e@),
        r is None ==> path_extension(path@) is None,
{
    let cs = chars_of(path);
    match extension_range_exec(cs.as_slice()) {
        Some((a, b)) => Some(path.substring_char(a, b)),
        None => None,
    }
}

/// Whether the path has the given extension, ignoring ASCII case.
pub open spec fn has_extension_ignoring_case(path: Seq<char>, ext: Seq<char>) -> bool {
    path_extension(path) matches Some(e) && eq_ignore_case(e, ext)
}

pub fn extension_matches(path: &str, ext: &str) -> (r: bool)
    ensures
        r == has_extension_ignoring_case(path@, ext@),
{
    match extension_of(path) {
        Some(e) => {
            let x = chars_of(e);
            let y = chars_of(ext);
            chars_eq_ignore_case(x.as_slice(), y.as_slice())
        },
        None => false,
    }
}

fn file_name_range_exec(cs: &[char]) -> (r: Option<(usize, usize)>)
    ensures
        r matches Some((a, b)) ==> file_name_range(cs@) == Some((a as int, b as int)) && a <= b
            <= cs@.len(),
        r is None ==> file_name_range(cs@) is None,
{
    proof {
        lemma_last_component_bounds(cs@, cs@.len() as int);
    }
    match last_component_exec(cs) {
        Some((a, b)) => {
            if b - a == 2 && cs[a] == '.' && cs[a + 1] == '.' {
                proof {
                    assert(is_dot_dot(cs@.subrange(a as int, b as int)));
                }
                return None;
            }
            proof {
                let seg = cs@.subrange(a as int, b as int);
                if b - a == 2 {
                    assert(seg[0] == cs@[a as int] && seg[1] == cs@[a + 1]);
                }
                assert(!is_dot_dot(seg));
            }
            Some((a, b))
        },
        None => None,
    }
}

/// The path with `extension` in place of its own (`PathBuf::set_extension`),
/// unless it already has that extension in some letter case; a path without
/// a file name is kept.
pub open spec fn with_extension_text(path: Seq<char>, extension: Seq<char>) -> Seq<char> {
    if has_extension_ignoring_case(path, extension) {
        path
    } else {
        match file_name_range(path) {
            None => path,
            Some((a, b)) => {
                let stem_end = match extension_range(path) {
                    Some((x, _)) => x - 1,
                    None => b,
                };
                if extension.len() == 0 {
                    path.take(stem_end)
                } else {
                    path.take(stem_end) + seq!['.'] + extension
                }
            },
        }
    }
}

pub fn with_extension(path: &str, extension: &str) -> (r: String)
    requires
        forall|i: int| 0 <= i < extension@.len() ==> extension@[i] != '/',
    ensures
        r@ == with_extension_text(path@, extension@),
{
    if extension_matches(path, extension) {
        return path.to_owned();
    }
    let cs = chars_of(path);
    match file_name_range_exec(cs.as_slice()) {
        None => path.to_owned(),
        Some((a, b)) => {
            let stem_end = match extension_range_exec(cs.as_slice()) {
                Some((x, _)) => {
                    proof {
                        lemma_extension_after_dot(cs@);
                    }
                    x - 1
                },
                None => b,
            };
            let mut out = crate::text::string_of(vstd::slice::slice_subrange(cs.as_slice(), 0, stem_end));
            if extension.is_empty() {
                return out;
            }
            crate::text::push_char(&mut out, '.');
            crate::text::append_str(&mut out, extension);
            out
        },
    }
}

proof fn lemma_extension_after_dot(p: Seq<char>)
    ensures
        extension_range(p) matches Some((x, b)) ==> x >= 1,
{
    match file_name_range(p) {
        Some((a, b)) => {
            lemma_file_name_bounds(p);
        },
        None => {},
    }
}

proof fn lemma_file_name_bounds(p: Seq<char>)
    ensures
        file_name_range(p) matches Some((a, b)) ==> 0 <= a <= b <= p.len(),
{
    lemma_last_component_bounds(p, p.len() as int);
}

proof fn lemma_rfind_is(s: Seq<char>, c: char, j: int)
    requires
        -1 <= j < s.len(),
        j == -1 || s[j] == c,
        forall|k: int| j < k < s.len() ==> s[k] != c,
    ensures
        rfind_char(s, c) == j,
{
    lemma_rfind_char(s, c);
    let r = rfind_char(s, c);
    if r > j {
        assert(s[r] == c);
    } else if r < j {
        assert(s[j] != c);
    }
}

proof fn lemma_last_component_shape(p: Seq<char>, end: int)
    ensures
        last_component(p, end) matches Some((a, b)) ==> {
            &&& 0 <= a < b <= end <= p.len()
            &&& (a == 0 || p[a - 1] == '/')
            &&& forall|k: int| a <= k < b ==> p[k] != '/'
        },
    decreases end,
{
    if 0 < end <= p.len() {
        let t = p.take(end);
        lemma_rfind_char(t, '/');
        let start = rfind_char(t, '/') + 1;
        assert forall|k: int| start <= k < end implies p[k] != '/' by {
            assert(t[k] == p[k]);
        }
        if start > 0 {
            assert(t[start - 1] == p[start - 1]);
            lemma_last_component_shape(p, start - 1);
        }
    }
}

/// A path that has a file name ends up with the given extension (an
/// extension without dots or slashes), whatever its extension was.
pub proof fn lemma_with_extension_has_extension(path: Seq<char>, extension: Seq<char>)
    requires
        file_name_range(path) is Some,
        extension.len() > 0,
        forall|i: int| 0 <= i < extension.len() ==> extension[i] != '/' && extension[i] != '.',
    ensures
        has_extension_ignoring_case(with_extension_text(path, extension), extension),
{
    assert(eq_ignore_case(extension, extension));
    if has_extension_ignoring_case(path, extension) {
        return;
    }
    let (a, b) = file_name_range(path).unwrap();
    lemma_last_component_shape(path, path.len() as int);
    let stem_end = match extension_range(path) {
        Some((x, _)) => x - 1,
        None => b,
    };
    match extension_range(path) {
        Some((x, _)) => {
            let name = path.subrange(a, b);
            lemma_rfind_char(name, '.');
            assert(a < stem_end <= b);
        },
        None => {},
    }
    let q = path.take(stem_end) + seq!['.'] + extension;
    assert(with_extension_text(path, extension) == q);
    assert forall|k: int| a <= k < q.len() implies q[k] != '/' by {
        if k < stem_end {
            assert(q[k] == path[k]);
        } else if k > stem_end {
            assert(q[k] == extension[k - stem_end - 1]);
        }
    }
    if a > 0 {
        assert(q[a - 1] == path[a - 1]);
    }
    assert(q.take(q.len() as int) =~= q);
    lemma_rfind_is(q, '/', a - 1);
    let seg = q.subrange(a, q.len() as int);
    assert(seg.len() >= 2);
    assert(last_component(q, q.len() as int) == Some((a, q.len() as int)));
    assert(seg.last() == extension.last());
    assert(!is_dot_dot(seg));
    assert(file_name_range(q) == Some((a, q.len() as int)));
    assert forall|k: int| stem_end - a < k < seg.len() implies seg[k] != '.' by {
        assert(seg[k] == extension[k - (stem_end - a) - 1]);
    }
    assert(seg[stem_end - a] == '.');
    lemma_rfind_is(seg, '.', stem_end - a);
    assert(extension_range(q) == Some((stem_end + 1, q.len() as int)));
    assert(q.subrange(stem_end + 1, q.len() as int) =~= extension);
}

} // verus!
