use vstd::prelude::*;

use crate::text::{chars_of, lemma_rscan, rscan};

verus! {

/// Relies on `String::push`, which appends one character.
pub assume_specification[ String::push ](s: &mut String, c: char)
    ensures
        final(s)@ == old(s)@.push(c),
;

pub open spec fn not_slash() -> spec_fn(char) -> bool {
    |c: char| c != '/'
}

pub open spec fn not_dot() -> spec_fn(char) -> bool {
    |c: char| c != '.'
}

/// Where the last path component of `s` starts.
pub open spec fn name_start(s: Seq<char>) -> int {
    rscan(s, 0, s.len() as int, not_slash())
}

/// The last path component of `s`.
pub open spec fn file_name(s: Seq<char>) -> Seq<char> {
    s.subrange(name_start(s), s.len() as int)
}

/// Where the extension of the last component starts (just after its last `.`), or the start of
/// the component when it has no `.`.
pub open spec fn ext_start(s: Seq<char>) -> int {
    rscan(s, name_start(s), s.len() as int, not_dot())
}

/// Whether the last component has an extension: a `.` that is not its first character.
pub open spec fn has_ext(s: Seq<char>) -> bool {
    ext_start(s) > name_start(s) + 1
}

/// The extension of the last component (meaningful where `has_ext`).
pub open spec fn ext(s: Seq<char>) -> Seq<char> {
    s.subrange(ext_start(s), s.len() as int)
}

/// `s` without the extension of its last component, dot included.
pub open spec fn strip_ext(s: Seq<char>) -> Seq<char> {
    if has_ext(s) {
        s.subrange(0, ext_start(s) - 1)
    } else {
        s
    }
}

/// `s` without its last component (and the `/` before it).
pub open spec fn parent(s: Seq<char>) -> Seq<char> {
    if name_start(s) > 0 {
        s.subrange(0, name_start(s) - 1)
    } else {
        seq![]
    }
}

pub open spec fn html_ext() -> Seq<char> {
    seq!['h', 't', 'm', 'l']
}

pub open spec fn index_name() -> Seq<char> {
    seq!['i', 'n', 'd', 'e', 'x']
}

pub open spec fn index_html() -> Seq<char> {
    seq!['i', 'n', 'd', 'e', 'x', '.', 'h', 't', 'm', 'l']
}

/// Every space of `s` replaced by `-`.
pub open spec fn slug(s: Seq<char>) -> Seq<char> {
    s.map_values(|c: char| if c == ' ' { '-' } else { c })
}

/// The path joined to the base URL for a page's permalink: the output path without a trailing
/// `index.html`.
pub open spec fn permalink_path(path: Seq<char>) -> Seq<char> {
    if path.len() >= 10 && path.subrange(path.len() - 10, path.len() as int) == index_html() {
        path.subrange(0, path.len() - 10)
    } else {
        path
    }
}

pub(crate) fn push_all(out: &mut String, s: &Vec<char>, a: usize, b: usize)
    requires
        a <= b <= s@.len(),
    ensures
        final(out)@ == old(out)@ + s@.subrange(a as int, b as int),
{
    let mut i = a;
    while i < b
        invariant
            a <= i <= b <= s@.len(),
            out@ == old(out)@ + s@.subrange(a as int, i as int),
        decreases b - i,
    {
        out.push(s[i]);
        assert(s@.subrange(a as int, i + 1) =~= s@.subrange(a as int, i as int).push(s@[i as int]));
        i = i + 1;
    }
}

pub(crate) fn push_str_chars(out: &mut String, s: &str)
    ensures
        final(out)@ == old(out)@ + s@,
{
    let cs = chars_of(s);
    push_all(out, &cs, 0, cs.len());
    assert(cs@.subrange(0, cs@.len() as int) =~= s@);
}

pub(crate) fn eq_chars(s: &Vec<char>, a: usize, b: usize, lit: &str) -> (r: bool)
    requires
        a <= b <= s@.len(),
    ensures
        r == (s@.subrange(a as int, b as int) == lit@),
{
    let l = chars_of(lit);
    if b - a != l.len() {
        return false;
    }
    let mut i: usize = 0;
    while i < l.len()
        invariant
            i <= l@.len() == b - a,
            a <= b <= s@.len(),
            l@ == lit@,
            forall|k: int| 0 <= k < i ==> s@[a + k] == l@[k],
        decreases l@.len() - i,
    {
        if s[a + i] != l[i] {
            assert(s@.subrange(a as int, b as int)[i as int] != lit@[i as int]);
            return false;
        }
        i = i + 1;
    }
    assert(s@.subrange(a as int, b as int) =~= lit@);
    true
}

pub(crate) fn scan_back(s: &Vec<char>, lo: usize, j: usize, c: char) -> (r: usize)
    requires
        lo <= j <= s@.len(),
    ensures
        c == '/' ==> r == rscan(s@, lo as int, j as int, not_slash()),
        c == '.' ==> r == rscan(s@, lo as int, j as int, not_dot()),
{
    let mut k = j;
    while lo < k && s[k - 1] != c
        invariant
            lo <= k <= j <= s@.len(),
            c == '/' ==> rscan(s@, lo as int, j as int, not_slash()) == rscan(
                s@,
                lo as int,
                k as int,
                not_slash(),
            ),
            c == '.' ==> rscan(s@, lo as int, j as int, not_dot()) == rscan(
                s@,
                lo as int,
                k as int,
                not_dot(),
            ),
        decreases k - lo,
    {
        k = k - 1;
    }
    k
}

/// Replaces every space with `-`.
pub fn slugify(input: &str) -> (r: String)
    ensures
        r@ == slug(input@),
{
    let cs = chars_of(input);
    let mut out = String::new();
    let mut i: usize = 0;
    while i < cs.len()
        invariant
            i <= cs@.len(),
            cs@ == input@,
            out@ == slug(cs@.subrange(0, i as int)),
        decreases cs@.len() - i,
    {
        let c = cs[i];
        out.push(if c == ' ' { '-' } else { c });
        assert(slug(cs@.subrange(0, i + 1)) =~= slug(cs@.subrange(0, i as int)).push(
            if c == ' ' { '-' } else { c },
        ));
        i = i + 1;
    }
    assert(cs@.subrange(0, i as int) =~= cs@);
    out
}

/// The output path before spaces become dashes.
pub open spec fn raw_output_path(rel: Seq<char>, template: Seq<char>) -> Seq<char> {
    let base = strip_ext(rel);
    if !has_ext(template) {
        base
    } else if ext(template) == html_ext() {
        let dir = if file_name(base) == index_name() {
            parent(base)
        } else {
            base
        };
        if dir.len() == 0 {
            index_html()
        } else {
            dir + seq!['/'] + index_html()
        }
    } else if file_name(base).len() == 0 {
        base
    } else {
        base + seq!['.'] + ext(template)
    }
}

fn base_end_of(rel: &Vec<char>) -> (r: usize)
    ensures
        r <= rel@.len(),
        strip_ext(rel@) == rel@.subrange(0, r as int),
{
    proof { lemma_rscan(rel@, 0, rel@.len() as int, not_slash()); }
    let rn = scan_back(rel, 0, rel.len(), '/');
    proof { lemma_rscan(rel@, rn as int, rel@.len() as int, not_dot()); }
    let rd = scan_back(rel, rn, rel.len(), '.');
    assert(rel@.subrange(0, rel@.len() as int) =~= rel@);
    if rd > rn && rd - rn > 1 { rd - 1 } else { rel.len() }
}

fn ext_start_of(tpl: &Vec<char>) -> (r: Option<usize>)
    ensures
        r is Some == has_ext(tpl@),
        r matches Some(td) ==> td <= tpl@.len() && ext(tpl@) == tpl@.subrange(td as int, tpl@.len() as int),
{
    proof { lemma_rscan(tpl@, 0, tpl@.len() as int, not_slash()); }
    let tn = scan_back(tpl, 0, tpl.len(), '/');
    proof { lemma_rscan(tpl@, tn as int, tpl@.len() as int, not_dot()); }
    let td = scan_back(tpl, tn, tpl.len(), '.');
    if td > tn && td - tn > 1 { Some(td) } else { None }
}

/// Where the last component of `rel[..base_end]` starts.
fn base_name_start(rel: &Vec<char>, base_end: usize) -> (r: usize)
    requires
        base_end <= rel@.len(),
    ensures
        r <= base_end,
        r == name_start(rel@.subrange(0, base_end as int)),
        file_name(rel@.subrange(0, base_end as int)) == rel@.subrange(r as int, base_end as int),
        parent(rel@.subrange(0, base_end as int)) == rel@.subrange(0, if r > 0 { r - 1 } else { 0 }),
{
    let ghost base = rel@.subrange(0, base_end as int);
    let bn = scan_back(rel, 0, base_end, '/');
    proof {
        lemma_rscan(rel@, 0, base_end as int, not_slash());
        lemma_rscan_prefix(rel@, base_end as int, base_end as int);
        assert(base.subrange(bn as int, base.len() as int) =~= rel@.subrange(bn as int, base_end as int));
        if bn > 0 {
            assert(base.subrange(0, bn - 1) =~= rel@.subrange(0, bn - 1));
        } else {
            assert(rel@.subrange(0, 0) =~= Seq::<char>::empty());
        }
    }
    bn
}

fn raw_output_path_of(rel: &Vec<char>, tpl: &Vec<char>) -> (r: String)
    ensures
        r@ == raw_output_path(rel@, tpl@),
{
    let base_end = base_end_of(rel);
    let ghost base = strip_ext(rel@);
    let mut p = String::new();
    match ext_start_of(tpl) {
        None => {
            push_all(&mut p, rel, 0, base_end);
            assert(p@ =~= base);
        },
        Some(td) => {
            let bn = base_name_start(rel, base_end);
            proof { reveal_strlit("html"); }
            assert(("html")@ =~= html_ext());
            if eq_chars(tpl, td, tpl.len(), "html") {
                let is_index = eq_chars(rel, bn, base_end, "index");
                proof { reveal_strlit("index"); }
                assert(("index")@ =~= index_name());
                let dir_end = if is_index {
                    if bn > 0 { bn - 1 } else { 0 }
                } else {
                    base_end
                };
                push_all(&mut p, rel, 0, dir_end);
                if dir_end > 0 {
                    p.push('/');
                }
                push_str_chars(&mut p, "index.html");
                proof { reveal_strlit("index.html"); }
                assert(("index.html")@ =~= index_html());
                proof {
                    let dir = if file_name(base) == index_name() { parent(base) } else { base };
                    assert(dir =~= rel@.subrange(0, dir_end as int));
                    if dir_end > 0 {
                        assert(p@ =~= dir + seq!['/'] + index_html());
                    } else {
                        assert(p@ =~= index_html());
                    }
                }
            } else {
                push_all(&mut p, rel, 0, base_end);
                assert(p@ =~= base);
                if bn < base_end {
                    p.push('.');
                    push_all(&mut p, tpl, td, tpl.len());
                    assert(p@ =~= base + seq!['.'] + ext(tpl@));
                } else {
                    assert(file_name(base) =~= seq![]);
                }
            }
        },
    }
    p
}

/// The output path of the source at `relative_path` (relative to the content root) when it is
/// rendered with `template_name`.
pub fn output_path(relative_path: &str, template_name: &str) -> (r: String)
    ensures
        r@ == slug(raw_output_path(relative_path@, template_name@)),
{
    let rel = chars_of(relative_path);
    let tpl = chars_of(template_name);
    let p = raw_output_path_of(&rel, &tpl);
    slugify(p.as_str())
}

proof fn lemma_rscan_prefix(s: Seq<char>, n: int, k: int)
    requires
        0 <= k <= n <= s.len(),
    ensures
        rscan(s, 0, k, not_slash()) == rscan(s.subrange(0, n), 0, k, not_slash()),
    decreases k,
{
    if k > 0 {
        assert(s.subrange(0, n)[k - 1] == s[k - 1]);
        lemma_rscan_prefix(s, n, k - 1);
    }
}

/// The path that a permalink joins to the base URL: `path` without a trailing `index.html`.
pub fn permalink_path_of(path: &str) -> (r: String)
    ensures
        r@ == permalink_path(path@),
{
    let cs = chars_of(path);
    let n = cs.len();
    proof { reveal_strlit("index.html"); }
    assert(("index.html")@ =~= index_html());
    let end = if n >= 10 && eq_chars(&cs, n - 10, n, "index.html") { n - 10 } else { n };
    let mut out = String::new();
    push_all(&mut out, &cs, 0, end);
    assert(cs@.subrange(0, n as int) =~= cs@);
    out
}

pub open spec fn is_slash() -> spec_fn(char) -> bool {
    |c: char| c == '/'
}

/// `s` with its last component removed, as `PathBuf::pop` does it: trailing `/`s are dropped
/// first, the `/`s before the component go with it, and a leading root `/` stays.
pub open spec fn popped(s: Seq<char>) -> Seq<char> {
    let e1 = rscan(s, 0, s.len() as int, is_slash());
    let k = rscan(s, 0, e1, not_slash());
    let e2 = rscan(s, 0, k, is_slash());
    if e1 == 0 {
        s.subrange(0, if s.len() > 0 { 1 } else { 0 })
    } else if e2 == 0 && k > 0 {
        s.subrange(0, 1)
    } else {
        s.subrange(0, e2)
    }
}

fn back_over_slashes(s: &Vec<char>, j: usize) -> (r: usize)
    requires
        j <= s@.len(),
    ensures
        r == rscan(s@, 0, j as int, is_slash()),
        r <= j,
{
    let mut k = j;
    while 0 < k && s[k - 1] == '/'
        invariant
            k <= j <= s@.len(),
            rscan(s@, 0, j as int, is_slash()) == rscan(s@, 0, k as int, is_slash()),
        decreases k,
    {
        k = k - 1;
    }
    k
}

/// `path` with its last component removed: the directory that holds it.
pub fn popped_of(path: &str) -> (r: Vec<char>)
    ensures
        r@ == popped(path@),
{
    let cs = chars_of(path);
    let e1 = back_over_slashes(&cs, cs.len());
    proof { lemma_rscan(cs@, 0, e1 as int, not_slash()); }
    let k = scan_back(&cs, 0, e1, '/');
    let e2 = back_over_slashes(&cs, k);
    let end = if e1 == 0 {
        if cs.len() > 0 { 1 } else { 0 }
    } else if e2 == 0 && k > 0 {
        1
    } else {
        e2
    };
    let mut out: Vec<char> = Vec::new();
    let mut i: usize = 0;
    while i < end
        invariant
            i <= end <= cs@.len(),
            out@ == cs@.subrange(0, i as int),
        decreases end - i,
    {
        out.push(cs[i]);
        assert(cs@.subrange(0, i + 1) =~= cs@.subrange(0, i as int).push(cs@[i as int]));
        i = i + 1;
    }
    out
}

} // verus!
