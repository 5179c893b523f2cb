//! Which files the application opens or imports, and the filename patterns
//! that file dialogs offer for them.
use crate::import::ImporterMetadata;
use crate::path::{extension_of, path_extension};
use crate::text::{
    append_str, ascii_lower, ascii_upper, chars_eq_ignore_case, chars_of, eq_ignore_case,
    is_ascii_alpha, join, push_char, str_equals, to_ascii_lower, to_ascii_upper,
};
use crate::tokens::string_views;
use vstd::arithmetic::power2::pow2;
use vstd::prelude::*;

verus! {

/// What a dropped file is.
#[derive(Clone, Copy, Debug, PartialEq, Eq, Structural)]
pub enum DropKind {
    Job,
    TesterExport,
}

/// Whether some importer lists `extension`, ignoring ASCII case.
pub open spec fn listed_extension(extension: Seq<char>, importers: Seq<ImporterMetadata>) -> bool {
    exists|i: int, j: int|
        0 <= i < importers.len() && 0 <= j < importers[i].extensions@.len() && eq_ignore_case(
            extension,
            #[trigger] importers[i].extensions@[j]@,
        )
}

/// A `.librepat` file (in any case) is a job; a file with an extension that an
/// importer lists is a tester export; anything else is refused.
pub open spec fn drop_kind_of(path: Seq<char>, importers: Seq<ImporterMetadata>) -> Option<DropKind> {
    match path_extension(path) {
        None => None,
        Some(e) => if eq_ignore_case(e, "librepat"@) {
            Some(DropKind::Job)
        } else if listed_extension(e, importers) {
            Some(DropKind::TesterExport)
        } else {
            None
        },
    }
}

fn str_eq_ignore_case(a: &str, b: &str) -> (r: bool)
    ensures
        r == eq_ignore_case(a@, b@),
{
    let x = chars_of(a);
    let y = chars_of(b);
    chars_eq_ignore_case(x.as_slice(), y.as_slice())
}

pub fn drop_kind(path: &str, importer_metadata: &[ImporterMetadata]) -> (r: Option<DropKind>)
    ensures
        r == drop_kind_of(path@, importer_metadata@),
{
    let extension = match extension_of(path) {
        Some(e) => e,
        None => return None,
    };
    if str_eq_ignore_case(extension, "librepat") {
        return Some(DropKind::Job);
    }
    let mut i: usize = 0;
    while i < importer_metadata.len()
        invariant
            0 <= i <= importer_metadata@.len(),
            path_extension(path@) == Some(extension@),
            !eq_ignore_case(extension@, "librepat"@),
            forall|a: int, b: int|
                0 <= a < i && 0 <= b < importer_metadata@[a].extensions@.len() ==> !eq_ignore_case(
                    extension@,
                    #[trigger] importer_metadata@[a].extensions@[b]@,
                ),
        decreases importer_metadata.len() - i,
    {
        let exts = importer_metadata[i].extensions;
        let mut j: usize = 0;
        while j < exts.len()
            invariant
                0 <= i < importer_metadata@.len(),
                path_extension(path@) == Some(extension@),
                !eq_ignore_case(extension@, "librepat"@),
                exts == importer_metadata@[i as int].extensions,
                0 <= j <= exts@.len(),
                forall|b: int| 0 <= b < j ==> !eq_ignore_case(extension@, #[trigger] exts@[b]@),
            decreases exts.len() - j,
        {
            if str_eq_ignore_case(extension, exts[j]) {
                proof {
                    assert(eq_ignore_case(extension@, importer_metadata@[i as int].extensions@[j as int]@));
                }
                return Some(DropKind::TesterExport);
            }
            j = j + 1;
        }
        i = i + 1;
    }
    None
}

/// The pieces in order, each kept only at its first occurrence.
pub open spec fn first_occurrences(s: Seq<Seq<char>>) -> Seq<Seq<char>>
    decreases s.len(),
{
    if s.len() == 0 {
        seq![]
    } else {
        let u = first_occurrences(s.drop_last());
        if u.contains(s.last()) {
            u
        } else {
            u.push(s.last())
        }
    }
}

pub open spec fn str_views(s: Seq<&str>) -> Seq<Seq<char>> {
    s.map_values(|x: &str| x@)
}

fn contains_str(items: &Vec<&str>, s: &str) -> (r: bool)
    ensures
        r == str_views(items@).contains(s@),
{
    let mut i: usize = 0;
    while i < items.len()
        invariant
            0 <= i <= items@.len(),
            forall|k: int| 0 <= k < i ==> str_views(items@)[k] != s@,
        decreases items.len() - i,
    {
        if str_equals(items[i], s) {
            proof {
                assert(str_views(items@)[i as int] == s@);
            }
            return true;
        }
        i = i + 1;
    }
    false
}

/// The extensions without repeats, in the order they first appear.
pub fn unique_extensions<'a>(extensions: &[&'a str]) -> (r: Vec<&'a str>)
    ensures
        str_views(r@) == first_occurrences(str_views(extensions@)),
{
    let ghost all = str_views(extensions@);
    let mut unique: Vec<&str> = Vec::new();
    let mut i: usize = 0;
    while i < extensions.len()
        invariant
            all == str_views(extensions@),
            0 <= i <= extensions@.len(),
            str_views(unique@) == first_occurrences(all.take(i as int)),
        decreases extensions.len() - i,
    {
        let e = extensions[i];
        proof {
            assert(all.take(i + 1).drop_last() =~= all.take(i as int));
            assert(all.take(i + 1).last() == e@);
        }
        if !contains_str(&unique, e) {
            let ghost before = unique@;
            unique.push(e);
            proof {
                assert(str_views(unique@) =~= str_views(before).push(e@));
            }
        }
        i = i + 1;
    }
    proof {
        assert(all.take(extensions@.len() as int) =~= all);
    }
    unique
}

/// `*.` followed by each extension.
pub open spec fn patterns(extensions: Seq<Seq<char>>) -> Seq<Seq<char>> {
    extensions.map_values(|e: Seq<char>| "*."@ + e)
}

/// A dialog filter label: the name, then the patterns in brackets separated by commas.
pub open spec fn filter_label_text(name: Seq<char>, extensions: Seq<Seq<char>>) -> Seq<char> {
    name + " ("@ + join(patterns(extensions), ", "@) + ")"@
}

pub fn filter_label(name: &str, extensions: &[&str]) -> (r: String)
    ensures
        r@ == filter_label_text(name@, str_views(extensions@)),
{
    let ghost ps = patterns(str_views(extensions@));
    let mut joined = String::new();
    let mut i: usize = 0;
    proof {
        reveal_strlit("*.");
        reveal_strlit(", ");
    }
    while i < extensions.len()
        invariant
            ps == patterns(str_views(extensions@)),
            0 <= i <= extensions@.len(),
            joined@ == join(ps.take(i as int), ", "@),
        decreases extensions.len() - i,
    {
        let ghost before = joined@;
        if i > 0 {
            append_str(&mut joined, ", ");
        }
        append_str(&mut joined, "*.");
        append_str(&mut joined, extensions[i]);
        proof {
            assert(ps[i as int] == "*."@ + extensions@[i as int]@);
            assert(ps.take(i + 1).drop_last() =~= ps.take(i as int));
            if i == 0 {
                assert(joined@ =~= ps[0]);
                assert(ps.take(1) =~= seq![ps[0]]);
            } else {
                assert(joined@ =~= before + ", "@ + ps[i as int]);
            }
        }
        i = i + 1;
    }
    proof {
        assert(ps.take(extensions@.len() as int) =~= ps);
    }
    let mut out = String::new();
    append_str(&mut out, name);
    append_str(&mut out, " (");
    append_str(&mut out, joined.as_str());
    append_str(&mut out, ")");
    out
}

/// Every spelling of `s` in which each ASCII letter may be lower or upper case;
/// each letter, from the first, chooses lower case before upper case.
pub open spec fn case_variants_of(s: Seq<char>) -> Seq<Seq<char>>
    decreases s.len(),
{
    if s.len() == 0 {
        seq![seq![]]
    } else {
        let v = case_variants_of(s.drop_last());
        let c = s.last();
        if is_ascii_alpha(c) {
            Seq::new(
                2 * v.len(),
                |j: int|
                    v[j / 2].push(
                        if j % 2 == 0 {
                            ascii_lower(c)
                        } else {
                            ascii_upper(c)
                        },
                    ),
            )
        } else {
            v.map_values(|p: Seq<char>| p.push(c))
        }
    }
}

/// Number of ASCII letters in `s`.
pub open spec fn letter_count(s: Seq<char>) -> nat
    decreases s.len(),
{
    if s.len() == 0 {
        0
    } else {
        letter_count(s.drop_last()) + if is_ascii_alpha(s.last()) {
            1nat
        } else {
            0nat
        }
    }
}

pub fn case_variants(extension: &str) -> (r: Vec<String>)
    ensures
        string_views(r@) == case_variants_of(extension@),
{
    let cs = chars_of(extension);
    let mut variants: Vec<String> = vec![String::new()];
    proof {
        assert(cs@.take(0) =~= seq![]);
        assert(string_views(variants@) =~= seq![Seq::<char>::empty()]);
    }
    let mut i: usize = 0;
    while i < cs.len()
        invariant
            cs@ == extension@,
            0 <= i <= cs@.len(),
            string_views(variants@) == case_variants_of(cs@.take(i as int)),
        decreases cs.len() - i,
    {
        let c = cs[i];
        let ghost v = string_views(variants@);
        proof {
            assert(cs@.take(i + 1).drop_last() =~= cs@.take(i as int));
            assert(cs@.take(i + 1).last() == c);
        }
        let mut next: Vec<String> = Vec::new();
        let mut k: usize = 0;
        if ('a' <= c && c <= 'z') || ('A' <= c && c <= 'Z') {
            while k < variants.len()
                invariant
                    v == string_views(variants@),
                    is_ascii_alpha(c),
                    0 <= k <= variants@.len(),
                    next@.len() == 2 * k,
                    forall|j: int|
                        0 <= j < 2 * k ==> #[trigger] next@[j]@ == v[j / 2].push(
                            if j % 2 == 0 {
                                ascii_lower(c)
                            } else {
                                ascii_upper(c)
                            },
                        ),
                decreases variants.len() - k,
            {
                let mut lower = variants[k].clone();
                push_char(&mut lower, to_ascii_lower(c));
                let mut upper = variants[k].clone();
                push_char(&mut upper, to_ascii_upper(c));
                next.push(lower);
                next.push(upper);
                proof {
                    assert(v[k as int] == variants@[k as int]@);
                    assert forall|j: int| 0 <= j < 2 * (k + 1) implies #[trigger] next@[j]@ == v[j / 2].push(
                        if j % 2 == 0 {
                            ascii_lower(c)
                        } else {
                            ascii_upper(c)
                        },
                    ) by {
                        if j == 2 * k {
                            assert(j / 2 == k);
                        } else if j == 2 * k + 1 {
                            assert(j / 2 == k);
                        }
                    }
                }
                k = k + 1;
            }
        } else {
            while k < variants.len()
                invariant
                    v == string_views(variants@),
                    0 <= k <= variants@.len(),
                    next@.len() == k,
                    forall|j: int| 0 <= j < k ==> #[trigger] next@[j]@ == v[j].push(c),
                decreases variants.len() - k,
            {
                let mut w = variants[k].clone();
                push_char(&mut w, c);
                next.push(w);
                proof {
                    assert(v[k as int] == variants@[k as int]@);
                }
                k = k + 1;
            }
        }
        proof {
            assert(string_views(next@) =~= case_variants_of(cs@.take(i + 1)));
        }
        variants = next;
        i = i + 1;
    }
    proof {
        assert(cs@.take(cs@.len() as int) =~= cs@);
    }
    variants
}

/// The case variants of each extension in turn, repeats included.
pub open spec fn all_variants_raw(extensions: Seq<Seq<char>>) -> Seq<Seq<char>>
    decreases extensions.len(),
{
    if extensions.len() == 0 {
        seq![]
    } else {
        all_variants_raw(extensions.drop_last()) + case_variants_of(extensions.last())
    }
}

fn contains_string(items: &Vec<String>, s: &String) -> (r: bool)
    ensures
        r == string_views(items@).contains(s@),
{
    let mut i: usize = 0;
    while i < items.len()
        invariant
            0 <= i <= items@.len(),
            forall|k: int| 0 <= k < i ==> string_views(items@)[k] != s@,
        decreases items.len() - i,
    {
        if str_equals(items[i].as_str(), s.as_str()) {
            proof {
                assert(string_views(items@)[i as int] == s@);
            }
            return true;
        }
        i = i + 1;
    }
    false
}

proof fn lemma_first_occurrences_append(a: Seq<Seq<char>>, b: Seq<Seq<char>>, k: int)
    requires
        0 <= k < b.len(),
    ensures
        first_occurrences(a + b.take(k + 1)) == if first_occurrences(a + b.take(k)).contains(b[k]) {
            first_occurrences(a + b.take(k))
        } else {
            first_occurrences(a + b.take(k)).push(b[k])
        },
{
    assert((a + b.take(k + 1)).drop_last() =~= a + b.take(k));
    assert((a + b.take(k + 1)).last() == b[k]);
}

/// Every case variant of every extension, without repeats.
pub fn extension_variants(extensions: &[&str]) -> (r: Vec<String>)
    ensures
        string_views(r@) == first_occurrences(all_variants_raw(str_views(extensions@))),
{
    let ghost es = str_views(extensions@);
    let mut variants: Vec<String> = Vec::new();
    let mut i: usize = 0;
    proof {
        assert(es.take(0) =~= seq![]);
        assert(string_views(variants@) =~= seq![]);
    }
    while i < extensions.len()
        invariant
            es == str_views(extensions@),
            0 <= i <= extensions@.len(),
            string_views(variants@) == first_occurrences(all_variants_raw(es.take(i as int))),
        decreases extensions.len() - i,
    {
        let candidates = case_variants(extensions[i]);
        let ghost raw = all_variants_raw(es.take(i as int));
        let ghost cv = string_views(candidates@);
        proof {
            assert(es.take(i + 1).drop_last() =~= es.take(i as int));
            assert(es.take(i + 1).last() == extensions@[i as int]@);
            assert(raw + cv.take(0) =~= raw);
        }
        let mut k: usize = 0;
        while k < candidates.len()
            invariant
                cv == string_views(candidates@),
                0 <= k <= candidates@.len(),
                string_views(variants@) == first_occurrences(raw + cv.take(k as int)),
            decreases candidates.len() - k,
        {
            proof {
                lemma_first_occurrences_append(raw, cv, k as int);
                assert(cv[k as int] == candidates@[k as int]@);
            }
            if !contains_string(&variants, &candidates[k]) {
                let ghost before = variants@;
                variants.push(candidates[k].clone());
                proof {
                    assert(string_views(variants@) =~= string_views(before).push(cv[k as int]));
                }
            }
            k = k + 1;
        }
        proof {
            assert(cv.take(candidates@.len() as int) =~= cv);
            assert(all_variants_raw(es.take(i + 1)) == raw + cv);
        }
        i = i + 1;
    }
    proof {
        assert(es.take(extensions@.len() as int) =~= es);
    }
    variants
}

/// Each case variant spells `s` up to ASCII case, there are two per letter
/// choice, and no spelling is repeated.
pub proof fn lemma_case_variants(s: Seq<char>)
    ensures
        case_variants_of(s).len() == pow2(letter_count(s)),
        forall|j: int| 0 <= j < case_variants_of(s).len() ==> eq_ignore_case(#[trigger] case_variants_of(s)[j], s),
        case_variants_of(s).no_duplicates(),
    decreases s.len(),
{
    if s.len() == 0 {
        vstd::arithmetic::power2::lemma2_to64();
        assert(case_variants_of(s) =~= seq![seq![]]);
        assert(eq_ignore_case(Seq::<char>::empty(), s)) by {
            assert(crate::text::lower_seq(Seq::<char>::empty()) =~= crate::text::lower_seq(s));
        }
    } else {
        let p = s.drop_last();
        let c = s.last();
        lemma_case_variants(p);
        let v = case_variants_of(p);
        let r = case_variants_of(s);
        if is_ascii_alpha(c) {
            vstd::arithmetic::power2::lemma_pow2_unfold(letter_count(s));
            assert forall|j: int| 0 <= j < r.len() implies eq_ignore_case(#[trigger] r[j], s) by {
                let q = v[j / 2];
                assert(eq_ignore_case(q, p));
                assert(crate::text::lower_seq(r[j]) =~= crate::text::lower_seq(q).push(ascii_lower(c)));
                assert(crate::text::lower_seq(s) =~= crate::text::lower_seq(p).push(ascii_lower(c)));
            }
            assert forall|a: int, b: int| 0 <= a < r.len() && 0 <= b < r.len() && a != b implies r[a] != r[b] by {
                if r[a] == r[b] {
                    assert(r[a].drop_last() =~= v[a / 2]);
                    assert(r[b].drop_last() =~= v[b / 2]);
                    assert(r[a].last() == r[b].last());
                    if a / 2 == b / 2 {
                        assert(a % 2 != b % 2);
                    }
                }
            }
        } else {
            assert forall|j: int| 0 <= j < r.len() implies eq_ignore_case(#[trigger] r[j], s) by {
                assert(eq_ignore_case(v[j], p));
                assert(crate::text::lower_seq(r[j]) =~= crate::text::lower_seq(v[j]).push(ascii_lower(c)));
                assert(crate::text::lower_seq(s) =~= crate::text::lower_seq(p).push(ascii_lower(c)));
            }
            assert forall|a: int, b: int| 0 <= a < r.len() && 0 <= b < r.len() && a != b implies r[a] != r[b] by {
                if r[a] == r[b] {
                    assert(r[a].drop_last() =~= v[a]);
                    assert(r[b].drop_last() =~= v[b]);
                }
            }
        }
    }
}

/// Keeping first occurrences leaves no repeats and loses no piece.
pub proof fn lemma_first_occurrences(s: Seq<Seq<char>>)
    ensures
        first_occurrences(s).no_duplicates(),
        forall|x: Seq<char>|
            #![trigger s.contains(x)]
            #![trigger first_occurrences(s).contains(x)]
            s.contains(x) <==> first_occurrences(s).contains(x),
    decreases s.len(),
{
    if s.len() > 0 {
        let p = s.drop_last();
        lemma_first_occurrences(p);
        let u = first_occurrences(p);
        assert forall|x: Seq<char>| s.contains(x) <==> first_occurrences(s).contains(x) by {
            if s.contains(x) {
                let k = choose|k: int| 0 <= k < s.len() && s[k] == x;
                if k < s.len() - 1 {
                    assert(p[k] == x);
                    assert(p.contains(x));
                    assert(u.contains(x));
                    let j = choose|j: int| 0 <= j < u.len() && u[j] == x;
                    assert(first_occurrences(s)[j] == x);
                } else if !u.contains(x) {
                    assert(first_occurrences(s)[u.len() as int] == x);
                } else {
                    assert(first_occurrences(s) == u);
                }
                assert(first_occurrences(s).contains(x));
            }
            if first_occurrences(s).contains(x) {
                let k = choose|k: int| 0 <= k < first_occurrences(s).len() && first_occurrences(s)[k] == x;
                if k < u.len() {
                    assert(u[k] == x);
                    assert(u.contains(x));
                    let j = choose|j: int| 0 <= j < p.len() && p[j] == x;
                    assert(s[j] == x);
                } else {
                    assert(s[s.len() - 1] == x);
                }
            }
        }
    }
}

} // verus!
