use vstd::prelude::*;

use crate::text::str_eq;

verus! {

/// A calendar date.
#[derive(Clone, Copy, Debug)]
pub struct Date {
    pub year: u16,
    pub month: u8,
    pub day: u8,
}

/// The sort key of an optional date: later dates have larger keys, no date is below them all.
pub open spec fn date_key(d: Option<Date>) -> int {
    match d {
        None => -1,
        Some(d) => d.year as int * 65536 + d.month as int * 256 + d.day as int,
    }
}

/// A configured classification axis, such as `tags`.
pub struct Taxonomy {
    pub name: String,
}

/// One page of the site.
pub struct Page {
    /// The key of the page in the site index: its output path.
    pub name: String,
    pub output_path: String,
    pub template_name: String,
    /// For a synthesized term page: its taxonomy and term.
    pub taxonomy: Option<(String, String)>,
    pub title: String,
    pub description: String,
    pub date: Option<Date>,
    pub permalink: String,
    pub content: String,
    pub summary: Option<String>,
    /// Taxonomy name to terms.
    pub taxonomies: Vec<(String, Vec<String>)>,
}

/// Whether page `p` lists `term` under taxonomy `tax`.
pub open spec fn tagged(p: Page, tax: Seq<char>, term: Seq<char>) -> bool {
    exists|i: int, j: int|
        0 <= i < p.taxonomies@.len() && 0 <= j < p.taxonomies@[i].1@.len()
            && #[trigger] p.taxonomies@[i].0@ == tax && #[trigger] p.taxonomies@[i].1@[j]@ == term
}

fn key_of(d: Option<Date>) -> (r: i64)
    ensures
        r == date_key(d),
{
    match d {
        None => -1,
        Some(d) => d.year as i64 * 65536 + d.month as i64 * 256 + d.day as i64,
    }
}

/// The index of all pages, keyed by name.
pub struct Site {
    pub pages: Vec<Page>,
}

/// Whether no two pages share a name.
pub open spec fn unique_names(pages: Seq<Page>) -> bool {
    forall|i: int, j: int|
        0 <= i < j < pages.len() ==> #[trigger] pages[i].name@ != #[trigger] pages[j].name@
}

/// `pages` with `p` put under its name: in place of the page of that name, or added at the end.
pub open spec fn inserted(pages: Seq<Page>, p: Page) -> Seq<Page> {
    if exists|i: int| 0 <= i < pages.len() && #[trigger] pages[i].name@ == p.name@ {
        let i = choose|i: int| 0 <= i < pages.len() && #[trigger] pages[i].name@ == p.name@;
        pages.update(i, p)
    } else {
        pages.push(p)
    }
}

/// The indices `i` in `order` whose page lists `term` under `tax`, in the order of `order`.
pub open spec fn tagged_in(pages: Seq<Page>, order: Seq<usize>, tax: Seq<char>, term: Seq<char>) -> Seq<usize>
    decreases order.len(),
{
    if order.len() == 0 {
        seq![]
    } else {
        let rest = tagged_in(pages, order.drop_last(), tax, term);
        let i = order.last();
        if i < pages.len() && tagged(pages[i as int], tax, term) {
            rest.push(i)
        } else {
            rest
        }
    }
}

/// Whether `v` runs from latest to earliest date of the pages it points at.
pub open spec fn newest_first(pages: Seq<Page>, v: Seq<usize>) -> bool {
    &&& forall|k: int| 0 <= k < v.len() ==> #[trigger] v[k] < pages.len()
    &&& forall|a: int, b: int|
        0 <= a < b < v.len() ==> date_key(pages[v[a] as int].date) >= date_key(
            pages[v[b] as int].date,
        )
}

/// Whether `v` holds no index twice.
pub open spec fn distinct(v: Seq<usize>) -> bool {
    forall|a: int, b: int| 0 <= a < b < v.len() ==> v[a] != v[b]
}

impl Site {
    /// The names are unique: the site is a map from name to page.
    pub open spec fn wf(&self) -> bool {
        unique_names(self.pages@)
    }

    /// An empty site.
    pub fn new() -> (r: Site)
        ensures
            r.wf(),
            r.pages@.len() == 0,
    {
        Site { pages: Vec::new() }
    }

    /// Where the page named `name` stands.
    pub fn position(&self, name: &str) -> (r: Option<usize>)
        ensures
            match r {
                Some(i) => i < self.pages@.len() && self.pages@[i as int].name@ == name@,
                None => forall|i: int|
                    0 <= i < self.pages@.len() ==> #[trigger] self.pages@[i].name@ != name@,
            },
    {
        let mut i: usize = 0;
        while i < self.pages.len()
            invariant
                i <= self.pages@.len(),
                forall|k: int| 0 <= k < i ==> #[trigger] self.pages@[k].name@ != name@,
            decreases self.pages@.len() - i,
        {
            if str_eq(self.pages[i].name.as_str(), name) {
                return Some(i);
            }
            i = i + 1;
        }
        None
    }

    /// Puts `page` under its name, replacing a page of the same name.
    pub fn insert(&mut self, page: Page)
        requires
            old(self).wf(),
        ensures
            final(self).wf(),
            final(self).pages@ == inserted(old(self).pages@, page),
    {
        let ghost p = page;
        match self.position(page.name.as_str()) {
            Some(i) => {
                self.pages.set(i, page);
                proof {
                    let j = choose|j: int|
                        0 <= j < old(self).pages@.len() && #[trigger] old(self).pages@[j].name@
                            == p.name@;
                    assert(j == i as int) by {
                        if j != i as int {
                            if j < i {
                                assert(old(self).pages@[j].name@ != old(self).pages@[i as int].name@);
                            } else {
                                assert(old(self).pages@[i as int].name@ != old(self).pages@[j].name@);
                            }
                        }
                    }
                }
            },
            None => {
                self.pages.push(page);
            },
        }
    }
}

/// Whether `v` holds no pair twice.
pub open spec fn distinct_pairs(v: Seq<(Seq<char>, Seq<char>)>) -> bool {
    forall|a: int, b: int| 0 <= a < b < v.len() ==> v[a] != v[b]
}

pub open spec fn pair_views(v: Seq<(String, String)>) -> Seq<(Seq<char>, Seq<char>)> {
    v.map_values(|x: (String, String)| (x.0@, x.1@))
}

pub open spec fn names_of(t: Seq<Taxonomy>) -> Seq<Seq<char>> {
    t.map_values(|x: Taxonomy| x.name@)
}

/// The distinct (taxonomy, term) pairs that `pages` list under a taxonomy of `taxonomies`.
pub open spec fn pair_set(pages: Seq<Page>, taxonomies: Seq<Seq<char>>) -> Set<(Seq<char>, Seq<char>)> {
    Set::new(
        |x: (Seq<char>, Seq<char>)|
            taxonomies.contains(x.0) && exists|i: int| 0 <= i < pages.len() && #[trigger] tagged(pages[i], x.0, x.1),
    )
}

/// The set of pairs depends on which pages there are, not on their order or how often each
/// comes: two lists with the same pages give the same pairs.
pub proof fn lemma_pairs_order_independent(
    a: Seq<Page>,
    b: Seq<Page>,
    taxonomies: Seq<Seq<char>>,
)
    requires
        a.to_set() == b.to_set(),
    ensures
        pair_set(a, taxonomies) == pair_set(b, taxonomies),
{
    assert forall|x: (Seq<char>, Seq<char>)| pair_set(a, taxonomies).contains(x) implies pair_set(
        b,
        taxonomies,
    ).contains(x) by {
        let i = choose|i: int| 0 <= i < a.len() && #[trigger] tagged(a[i], x.0, x.1);
        assert(a.to_set().contains(a[i]));
        assert(b.to_set().contains(a[i]));
        let j = choose|j: int| 0 <= j < b.len() && b[j] == a[i];
        assert(tagged(b[j], x.0, x.1));
    }
    assert forall|x: (Seq<char>, Seq<char>)| pair_set(b, taxonomies).contains(x) implies pair_set(
        a,
        taxonomies,
    ).contains(x) by {
        let i = choose|i: int| 0 <= i < b.len() && #[trigger] tagged(b[i], x.0, x.1);
        assert(b.to_set().contains(b[i]));
        assert(a.to_set().contains(b[i]));
        let j = choose|j: int| 0 <= j < a.len() && a[j] == b[i];
        assert(tagged(a[j], x.0, x.1));
    }
    assert(pair_set(a, taxonomies) =~= pair_set(b, taxonomies));
}

fn contains_pair(v: &Vec<(String, String)>, a: &String, b: &String) -> (r: bool)
    ensures
        r == pair_views(v@).contains((a@, b@)),
{
    let mut i: usize = 0;
    while i < v.len()
        invariant
            i <= v@.len(),
            forall|k: int| 0 <= k < i ==> pair_views(v@)[k] != (a@, b@),
        decreases v@.len() - i,
    {
        if v[i].0 == *a && v[i].1 == *b {
            assert(pair_views(v@)[i as int] == (a@, b@));
            return true;
        }
        i = i + 1;
    }
    false
}

fn is_configured(taxonomies: &Vec<Taxonomy>, name: &String) -> (r: bool)
    ensures
        r == names_of(taxonomies@).contains(name@),
{
    let mut i: usize = 0;
    while i < taxonomies.len()
        invariant
            i <= taxonomies@.len(),
            forall|k: int| 0 <= k < i ==> names_of(taxonomies@)[k] != name@,
        decreases taxonomies@.len() - i,
    {
        if taxonomies[i].name == *name {
            assert(names_of(taxonomies@)[i as int] == name@);
            return true;
        }
        i = i + 1;
    }
    false
}

/// Adds the pairs (`tax`, t) for each t of `terms` that `out` does not hold yet.
fn add_terms(out: &mut Vec<(String, String)>, tax: &String, terms: &Vec<String>)
    requires
        distinct_pairs(pair_views(old(out)@)),
    ensures
        distinct_pairs(pair_views(final(out)@)),
        forall|x: (Seq<char>, Seq<char>)| #[trigger]
            pair_views(final(out)@).contains(x) ==> pair_views(old(out)@).contains(x) || (x.0
                == tax@ && exists|k: int| 0 <= k < terms@.len() && #[trigger] terms@[k]@ == x.1),
        forall|x: (Seq<char>, Seq<char>)| #[trigger]
            pair_views(old(out)@).contains(x) ==> pair_views(final(out)@).contains(x),
        forall|k: int| 0 <= k < terms@.len() ==> pair_views(final(out)@).contains((tax@, #[trigger] terms@[k]@)),
{
    let mut j: usize = 0;
    while j < terms.len()
        invariant
            j <= terms@.len(),
            distinct_pairs(pair_views(out@)),
            forall|x: (Seq<char>, Seq<char>)| #[trigger]
                pair_views(out@).contains(x) ==> pair_views(old(out)@).contains(x) || (x.0 == tax@
                    && exists|k: int| 0 <= k < j && #[trigger] terms@[k]@ == x.1),
            forall|x: (Seq<char>, Seq<char>)| #[trigger]
                pair_views(old(out)@).contains(x) ==> pair_views(out@).contains(x),
            forall|k: int| 0 <= k < j ==> pair_views(out@).contains((tax@, #[trigger] terms@[k]@)),
        decreases terms@.len() - j,
    {
        let ghost before = pair_views(out@);
        if !contains_pair(out, tax, &terms[j]) {
            out.push((tax.clone(), terms[j].clone()));
            assert(pair_views(out@) =~= before.push((tax@, terms@[j as int]@)));
            assert forall|x: (Seq<char>, Seq<char>)| #[trigger] pair_views(out@).contains(x) implies pair_views(old(out)@).contains(x) || (x.0 == tax@
                    && exists|k: int| 0 <= k < j + 1 && #[trigger] terms@[k]@ == x.1) by {
                if before.contains(x) {
                } else {
                    assert(x == (tax@, terms@[j as int]@));
                }
            }
            assert forall|k: int| 0 <= k < j + 1 implies pair_views(out@).contains((tax@, #[trigger] terms@[k]@)) by {
                if k < j {
                    assert(before.contains((tax@, terms@[k]@)));
                    let m = choose|m: int| 0 <= m < before.len() && before[m] == (tax@, terms@[k]@);
                    assert(pair_views(out@)[m] == before[m]);
                } else {
                    assert(pair_views(out@)[before.len() as int] == (tax@, terms@[k]@));
                }
            }
            assert forall|x: (Seq<char>, Seq<char>)| #[trigger] pair_views(old(out)@).contains(x) implies pair_views(out@).contains(x) by {
                assert(before.contains(x));
                let m = choose|m: int| 0 <= m < before.len() && before[m] == x;
                assert(pair_views(out@)[m] == before[m]);
            }
        } else {
            assert forall|x: (Seq<char>, Seq<char>)| #[trigger] pair_views(out@).contains(x) implies pair_views(old(out)@).contains(x) || (x.0 == tax@
                    && exists|k: int| 0 <= k < j + 1 && #[trigger] terms@[k]@ == x.1) by {
                if !pair_views(old(out)@).contains(x) {
                    let k = choose|k: int| 0 <= k < j && #[trigger] terms@[k]@ == x.1;
                    assert(0 <= k < j + 1);
                }
            }
        }
        j = j + 1;
    }
}

/// Adds the pairs that `page` lists under a configured taxonomy.
fn add_page_pairs(out: &mut Vec<(String, String)>, page: &Page, taxonomies: &Vec<Taxonomy>)
    requires
        distinct_pairs(pair_views(old(out)@)),
    ensures
        distinct_pairs(pair_views(final(out)@)),
        forall|x: (Seq<char>, Seq<char>)| #[trigger]
            pair_views(final(out)@).contains(x) ==> pair_views(old(out)@).contains(x) || (names_of(
                taxonomies@,
            ).contains(x.0) && tagged(*page, x.0, x.1)),
        forall|x: (Seq<char>, Seq<char>)| #[trigger]
            pair_views(old(out)@).contains(x) ==> pair_views(final(out)@).contains(x),
        forall|x: (Seq<char>, Seq<char>)|
            names_of(taxonomies@).contains(x.0) && #[trigger] tagged(*page, x.0, x.1)
                ==> pair_views(final(out)@).contains(x),
{
    let ghost tx = page.taxonomies@;
    let mut e: usize = 0;
    while e < page.taxonomies.len()
        invariant
            e <= tx.len(),
            tx == page.taxonomies@,
            distinct_pairs(pair_views(out@)),
            forall|x: (Seq<char>, Seq<char>)| #[trigger]
                pair_views(out@).contains(x) ==> pair_views(old(out)@).contains(x) || (names_of(
                    taxonomies@,
                ).contains(x.0) && tagged(*page, x.0, x.1)),
            forall|x: (Seq<char>, Seq<char>)| #[trigger]
                pair_views(old(out)@).contains(x) ==> pair_views(out@).contains(x),
            forall|i: int, j: int|
                0 <= i < e && 0 <= j < tx[i].1@.len() && names_of(taxonomies@).contains(tx[i].0@)
                    ==> pair_views(out@).contains((tx[i].0@, #[trigger] tx[i].1@[j]@)),
        decreases tx.len() - e,
    {
        let ghost before = out@;
        if is_configured(taxonomies, &page.taxonomies[e].0) {
            add_terms(out, &page.taxonomies[e].0, &page.taxonomies[e].1);
            assert forall|x: (Seq<char>, Seq<char>)| #[trigger] pair_views(out@).contains(x) implies pair_views(old(out)@).contains(x) || (names_of(
                    taxonomies@,
                ).contains(x.0) && tagged(*page, x.0, x.1)) by {
                if !pair_views(before).contains(x) {
                    let k = choose|k: int| 0 <= k < tx[e as int].1@.len() && #[trigger] tx[e as int].1@[k]@ == x.1;
                    assert(tx[e as int].0@ == x.0);
                }
            }
        }
        e = e + 1;
    }
    assert forall|x: (Seq<char>, Seq<char>)|
        names_of(taxonomies@).contains(x.0) && #[trigger] tagged(*page, x.0, x.1) implies pair_views(out@).contains(x) by {
        let (i, j) = choose|i: int, j: int|
            0 <= i < tx.len() && 0 <= j < tx[i].1@.len()
                && #[trigger] tx[i].0@ == x.0 && #[trigger] tx[i].1@[j]@ == x.1;
        assert(pair_views(out@).contains((tx[i].0@, tx[i].1@[j]@)));
    }
}

/// The distinct (taxonomy, term) pairs that the pages list under a configured taxonomy.
pub fn term_pairs(site: &Site, taxonomies: &Vec<Taxonomy>) -> (r: Vec<(String, String)>)
    ensures
        distinct_pairs(pair_views(r@)),
        pair_views(r@).to_set() == pair_set(site.pages@, names_of(taxonomies@)),
{
    let mut out: Vec<(String, String)> = Vec::new();
    let ghost ps = site.pages@;
    let mut i: usize = 0;
    while i < site.pages.len()
        invariant
            i <= ps.len(),
            ps == site.pages@,
            distinct_pairs(pair_views(out@)),
            forall|x: (Seq<char>, Seq<char>)| #[trigger]
                pair_views(out@).contains(x) ==> names_of(taxonomies@).contains(x.0) && exists|k: int|
                    0 <= k < i && #[trigger] tagged(ps[k], x.0, x.1),
            forall|k: int, x: (Seq<char>, Seq<char>)|
                0 <= k < i && names_of(taxonomies@).contains(x.0) && #[trigger] tagged(ps[k], x.0, x.1)
                    ==> pair_views(out@).contains(x),
        decreases ps.len() - i,
    {
        add_page_pairs(&mut out, &site.pages[i], taxonomies);
        assert forall|x: (Seq<char>, Seq<char>)| #[trigger] pair_views(out@).contains(x) implies names_of(taxonomies@).contains(x.0) && exists|k: int|
                    0 <= k < i + 1 && #[trigger] tagged(ps[k], x.0, x.1) by {
            if exists|k: int| 0 <= k < i && #[trigger] tagged(ps[k], x.0, x.1) {
                let k = choose|k: int| 0 <= k < i && #[trigger] tagged(ps[k], x.0, x.1);
                assert(0 <= k < i + 1);
            } else {
                assert(tagged(ps[i as int], x.0, x.1));
            }
        }
        i = i + 1;
    }
    assert(pair_views(out@).to_set() =~= pair_set(site.pages@, names_of(taxonomies@)));
    out
}

/// Whether `page` lists `term` under `tax`.
pub fn has_tag(page: &Page, tax: &str, term: &str) -> (r: bool)
    ensures
        r == tagged(*page, tax@, term@),
{
    let ghost tx = page.taxonomies@;
    let mut i: usize = 0;
    while i < page.taxonomies.len()
        invariant
            i <= tx.len(),
            tx == page.taxonomies@,
            forall|a: int, b: int|
                0 <= a < i && 0 <= b < tx[a].1@.len() ==> !(#[trigger] tx[a].0@ == tax@
                    && #[trigger] tx[a].1@[b]@ == term@),
        decreases tx.len() - i,
    {
        if str_eq(page.taxonomies[i].0.as_str(), tax) {
            let terms = &page.taxonomies[i].1;
            let mut j: usize = 0;
            while j < terms.len()
                invariant
                    j <= terms@.len(),
                    i < tx.len(),
                    tx == page.taxonomies@,
                    terms@ == tx[i as int].1@,
                    tx[i as int].0@ == tax@,
                    forall|a: int, b: int|
                        0 <= a < i && 0 <= b < tx[a].1@.len() ==> !(#[trigger] tx[a].0@ == tax@
                            && #[trigger] tx[a].1@[b]@ == term@),
                    forall|b: int| 0 <= b < j ==> #[trigger] terms@[b]@ != term@,
                decreases terms@.len() - j,
            {
                if str_eq(terms[j].as_str(), term) {
                    assert(tx[i as int].0@ == tax@ && tx[i as int].1@[j as int]@ == term@);
                    return true;
                }
                j = j + 1;
            }
        }
        i = i + 1;
    }
    false
}

/// Puts `x` into `v`, which runs newest first, after every entry of the same or a later date.
fn insert_sorted(pages: &Vec<Page>, v: &mut Vec<usize>, x: usize)
    requires
        x < pages@.len(),
        newest_first(pages@, old(v)@),
        distinct(old(v)@),
        !old(v)@.contains(x),
    ensures
        newest_first(pages@, final(v)@),
        distinct(final(v)@),
        forall|y: usize| #[trigger] final(v)@.contains(y) <==> old(v)@.contains(y) || y == x,
{
    let kx = key_of(pages[x].date);
    let mut pos: usize = 0;
    while pos < v.len() && key_of(pages[v[pos]].date) >= kx
        invariant
            pos <= v@.len(),
            newest_first(pages@, v@),
            forall|k: int| 0 <= k < pos ==> date_key(pages@[#[trigger] v@[k] as int].date) >= kx,
        decreases v@.len() - pos,
    {
        pos = pos + 1;
    }
    let ghost before = v@;
    v.insert(pos, x);
    assert(v@ == before.insert(pos as int, x));
    assert forall|y: usize| #[trigger] v@.contains(y) <==> before.contains(y) || y == x by {
        if v@.contains(y) {
            let k = choose|k: int| 0 <= k < v@.len() && v@[k] == y;
            if k < pos {
                assert(before[k] == y);
            } else if k > pos {
                assert(before[k - 1] == y);
            }
        }
        if before.contains(y) {
            let k = choose|k: int| 0 <= k < before.len() && before[k] == y;
            if k < pos {
                assert(v@[k] == y);
            } else {
                assert(v@[k + 1] == y);
            }
        }
        if y == x {
            assert(v@[pos as int] == x);
        }
    }
    assert forall|a: int, b: int| 0 <= a < b < v@.len() implies date_key(pages@[v@[a] as int].date)
        >= date_key(pages@[v@[b] as int].date) by {
        if b == pos {
            assert(v@[a] == before[a]);
        } else if a == pos {
            assert(v@[b] == before[b - 1]);
            assert(date_key(pages@[before[pos as int] as int].date) < kx);
            if b - 1 > pos {
                assert(date_key(pages@[before[pos as int] as int].date) >= date_key(pages@[before[b - 1] as int].date));
            }
        } else {
            let a0 = if a < pos { a } else { a - 1 };
            let b0 = if b < pos { b } else { b - 1 };
            assert(v@[a] == before[a0]);
            assert(v@[b] == before[b0]);
        }
    }
    assert forall|a: int, b: int| 0 <= a < b < v@.len() implies v@[a] != v@[b] by {
        if a == pos {
            assert(v@[b] == before[b - 1]);
            assert(before.contains(v@[b]));
        } else if b == pos {
            assert(v@[a] == before[a]);
            assert(before.contains(v@[a]));
        } else {
            let a0 = if a < pos { a } else { a - 1 };
            let b0 = if b < pos { b } else { b - 1 };
            assert(v@[a] == before[a0]);
            assert(v@[b] == before[b0]);
        }
    }
    assert forall|k: int| 0 <= k < v@.len() implies #[trigger] v@[k] < pages@.len() by {
        if k < pos {
            assert(v@[k] == before[k]);
        } else if k > pos {
            assert(v@[k] == before[k - 1]);
        }
    }
}

/// The indices of the dated pages, newest first.
pub fn dated_pages(site: &Site) -> (r: Vec<usize>)
    ensures
        newest_first(site.pages@, r@),
        distinct(r@),
        forall|i: usize| #[trigger] r@.contains(i) <==> i < site.pages@.len() && site.pages@[i as int].date is Some,
{
    let mut v: Vec<usize> = Vec::new();
    let mut i: usize = 0;
    while i < site.pages.len()
        invariant
            i <= site.pages@.len(),
            newest_first(site.pages@, v@),
            distinct(v@),
            forall|y: usize| #[trigger] v@.contains(y) <==> y < i && site.pages@[y as int].date is Some,
        decreases site.pages@.len() - i,
    {
        if site.pages[i].date.is_some() {
            insert_sorted(&site.pages, &mut v, i);
        }
        i = i + 1;
    }
    v
}

/// Whether `s` starts with `p`.
pub open spec fn starts_with(s: Seq<char>, p: Seq<char>) -> bool {
    p.len() <= s.len() && s.subrange(0, p.len() as int) == p
}

fn prefix_of(s: &str, p: &Vec<char>) -> (r: bool)
    ensures
        r == starts_with(s@, p@),
{
    let cs = crate::text::chars_of(s);
    crate::text::matches_at(&cs, p, 0)
}

/// The pages under the directory of `path` (every page whose name starts with `path` with its
/// last component popped), newest first, undated pages last.
pub fn section_pages(site: &Site, path: &str) -> (r: Vec<usize>)
    ensures
        newest_first(site.pages@, r@),
        distinct(r@),
        forall|i: usize| #[trigger] r@.contains(i) <==> i < site.pages@.len() && starts_with(
            site.pages@[i as int].name@,
            crate::paths::popped(path@),
        ),
{
    let prefix = crate::paths::popped_of(path);
    let mut v: Vec<usize> = Vec::new();
    let mut i: usize = 0;
    while i < site.pages.len()
        invariant
            i <= site.pages@.len(),
            prefix@ == crate::paths::popped(path@),
            newest_first(site.pages@, v@),
            distinct(v@),
            forall|y: usize| #[trigger] v@.contains(y) <==> y < i && starts_with(
                site.pages@[y as int].name@,
                crate::paths::popped(path@),
            ),
        decreases site.pages@.len() - i,
    {
        if prefix_of(site.pages[i].name.as_str(), &prefix) {
            insert_sorted(&site.pages, &mut v, i);
        }
        i = i + 1;
    }
    v
}

/// The entries of `order` whose page lists `term` under `tax`, in the same order.
pub fn pages_tagged(site: &Site, order: &Vec<usize>, tax: &str, term: &str) -> (r: Vec<usize>)
    ensures
        r@ == tagged_in(site.pages@, order@, tax@, term@),
{
    let mut v: Vec<usize> = Vec::new();
    let mut k: usize = 0;
    while k < order.len()
        invariant
            k <= order@.len(),
            v@ == tagged_in(site.pages@, order@.subrange(0, k as int), tax@, term@),
        decreases order@.len() - k,
    {
        let i = order[k];
        assert(order@.subrange(0, k + 1).drop_last() =~= order@.subrange(0, k as int));
        if i < site.pages.len() && has_tag(&site.pages[i], tax, term) {
            v.push(i);
        }
        k = k + 1;
    }
    assert(order@.subrange(0, k as int) =~= order@);
    v
}

/// The pages of a section, as indices into the site's pages, newest first.
pub struct Section {
    pub pages: Vec<usize>,
}

impl Site {
    /// The section that holds `path`: every page under the directory of `path`.
    pub fn section(&self, path: &str) -> (r: Section)
        ensures
            newest_first(self.pages@, r.pages@),
            distinct(r.pages@),
            forall|i: usize| #[trigger] r.pages@.contains(i) <==> i < self.pages@.len() && starts_with(
                self.pages@[i as int].name@,
                crate::paths::popped(path@),
            ),
    {
        Section { pages: section_pages(self, path) }
    }
}

} // verus!
