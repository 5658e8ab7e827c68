use vstd::prelude::*;

use crate::error::Error;
use crate::text::{chars_of, find, find_from, lemma_find_from, occurs_at};

verus! {

/// A span of a body: plain markdown, or one shortcode invocation (`{{` through `}}`).
#[derive(Clone, Copy, Debug)]
pub enum ContentRange {
    Markdown { start: usize, end: usize },
    ShortCode { start: usize, end: usize },
}

/// A range as (is a shortcode, start, end).
pub open spec fn range_view(r: ContentRange) -> (bool, int, int) {
    match r {
        ContentRange::Markdown { start, end } => (false, start as int, end as int),
        ContentRange::ShortCode { start, end } => (true, start as int, end as int),
    }
}

pub open spec fn open_marker() -> Seq<char> {
    seq!['{', '{']
}

pub open spec fn close_marker() -> Seq<char> {
    seq!['}', '}']
}

/// The ranges of `s` from index `from` on, scanning left to right: text before the next `{{`
/// is markdown, `{{` through the next `}}` is a shortcode, and what is left after the last one
/// is markdown. `None` when a `{{` has no `}}` after it.
pub open spec fn ranges_spec(s: Seq<char>, from: int) -> Option<Seq<(bool, int, int)>>
    decreases s.len() - from,
{
    if from < 0 || from > s.len() {
        None
    } else {
        match find_from(s, open_marker(), from) {
            None => Some(
                if from < s.len() {
                    seq![(false, from, s.len() as int)]
                } else {
                    seq![]
                },
            ),
            Some(st) => match find_from(s, close_marker(), st) {
                None => None,
                Some(e) => {
                    proof {
                        lemma_find_from(s, open_marker(), from);
                        lemma_find_from(s, close_marker(), st);
                    }
                    let pre = if st > from {
                        seq![(false, from, st)]
                    } else {
                        seq![]
                    };
                    match ranges_spec(s, e + 2) {
                        None => None,
                        Some(rest) => Some(pre + seq![(true, st, e + 2)] + rest),
                    }
                },
            },
        }
    }
}

/// The text of `s` under the ranges `rs`, one after another.
pub open spec fn joined(s: Seq<char>, rs: Seq<(bool, int, int)>) -> Seq<char>
    decreases rs.len(),
{
    if rs.len() == 0 {
        seq![]
    } else {
        s.subrange(rs[0].1, rs[0].2) + joined(s, rs.drop_first())
    }
}

/// The pieces one after another.
pub open spec fn concat(ps: Seq<Seq<char>>) -> Seq<char>
    decreases ps.len(),
{
    if ps.len() == 0 {
        seq![]
    } else {
        ps[0] + concat(ps.drop_first())
    }
}

pub open spec fn views(v: Seq<String>) -> Seq<Seq<char>> {
    v.map_values(|p: String| p@)
}

pub open spec fn prepend(
    acc: Seq<(bool, int, int)>,
    o: Option<Seq<(bool, int, int)>>,
) -> Option<Seq<(bool, int, int)>> {
    match o {
        None => None,
        Some(rest) => Some(acc + rest),
    }
}

proof fn lemma_joined_append(s: Seq<char>, a: Seq<(bool, int, int)>, b: Seq<(bool, int, int)>)
    ensures
        joined(s, a + b) == joined(s, a) + joined(s, b),
    decreases a.len(),
{
    if a.len() == 0 {
        assert(a + b =~= b);
    } else {
        assert((a + b).drop_first() =~= a.drop_first() + b);
        lemma_joined_append(s, a.drop_first(), b);
    }
}

proof fn lemma_joined_one(s: Seq<char>, r: (bool, int, int))
    ensures
        joined(s, seq![r]) == s.subrange(r.1, r.2),
{
    let e = Seq::<(bool, int, int)>::empty();
    assert(seq![r].drop_first() =~= e);
    assert(joined(s, e) == Seq::<char>::empty());
    assert(s.subrange(r.1, r.2) + Seq::<char>::empty() =~= s.subrange(r.1, r.2));
}

/// The ranges cut the text into consecutive pieces, in order: put back together they give the
/// text from `from` on, each shortcode range opens with `{{` and closes with `}}`, and no
/// markdown range holds a `{{`.
pub proof fn lemma_ranges_cover(s: Seq<char>, from: int)
    requires
        0 <= from <= s.len(),
        ranges_spec(s, from) is Some,
    ensures
        joined(s, ranges_spec(s, from)->0) == s.subrange(from, s.len() as int),
        forall|i: int|
            0 <= i < ranges_spec(s, from)->0.len() ==> {
                let r = #[trigger] ranges_spec(s, from)->0[i];
                &&& from <= r.1 < r.2 <= s.len()
                &&& r.0 ==> occurs_at(s, open_marker(), r.1) && occurs_at(
                    s,
                    close_marker(),
                    r.2 - 2,
                )
                &&& !r.0 ==> forall|j: int| r.1 <= j < r.2 ==> !occurs_at(s, open_marker(), j)
            },
    decreases s.len() - from,
{
    lemma_find_from(s, open_marker(), from);
    let rs = ranges_spec(s, from)->0;
    match find_from(s, open_marker(), from) {
        None => {
            if from < s.len() {
                lemma_joined_one(s, (false, from, s.len() as int));
            } else {
                assert(joined(s, rs) == Seq::<char>::empty());
                assert(s.subrange(from, s.len() as int) =~= Seq::<char>::empty());
            }
        },
        Some(st) => {
            lemma_find_from(s, close_marker(), st);
            let e = find_from(s, close_marker(), st)->0;
            let pre: Seq<(bool, int, int)> = if st > from {
                seq![(false, from, st)]
            } else {
                seq![]
            };
            let rest = ranges_spec(s, e + 2)->0;
            lemma_ranges_cover(s, e + 2);
            assert(rs == pre + seq![(true, st, e + 2)] + rest);
            lemma_joined_append(s, pre + seq![(true, st, e + 2)], rest);
            lemma_joined_append(s, pre, seq![(true, st, e + 2)]);
            lemma_joined_one(s, (true, st, e + 2));
            if st > from {
                lemma_joined_one(s, (false, from, st));
            } else {
                assert(joined(s, pre) == Seq::<char>::empty());
            }
            assert(s.subrange(from, s.len() as int) =~= s.subrange(from, st) + s.subrange(st, e + 2)
                + s.subrange(e + 2, s.len() as int));
            assert forall|i: int| 0 <= i < rs.len() implies {
                let r = #[trigger] rs[i];
                &&& from <= r.1 < r.2 <= s.len()
                &&& r.0 ==> occurs_at(s, open_marker(), r.1) && occurs_at(
                    s,
                    close_marker(),
                    r.2 - 2,
                )
                &&& !r.0 ==> forall|j: int| r.1 <= j < r.2 ==> !occurs_at(s, open_marker(), j)
            } by {
                if i >= pre.len() + 1 {
                    assert(rs[i] == rest[i - pre.len() - 1]);
                }
            }
        },
    }
}

/// One piece alone is the whole document.
pub proof fn lemma_concat_one(ps: Seq<Seq<char>>)
    requires
        ps.len() == 1,
    ensures
        concat(ps) == ps[0],
{
    assert(ps.drop_first() =~= Seq::<Seq<char>>::empty());
    assert(concat(ps.drop_first()) == Seq::<char>::empty());
    assert(ps[0] + Seq::<char>::empty() =~= ps[0]);
}

/// A body with no `{{` in it is one markdown range, the whole of it (none when it is empty).
pub proof fn lemma_no_marker_single_range(s: Seq<char>)
    requires
        forall|j: int| !occurs_at(s, open_marker(), j),
    ensures
        ranges_spec(s, 0) == Some(
            if s.len() > 0 {
                seq![(false, 0int, s.len() as int)]
            } else {
                Seq::<(bool, int, int)>::empty()
            },
        ),
        s.len() > 0 ==> joined(s, ranges_spec(s, 0)->0) == s,
{
    lemma_find_from(s, open_marker(), 0);
    if find_from(s, open_marker(), 0) is Some {
        assert(occurs_at(s, open_marker(), find_from(s, open_marker(), 0)->0));
    }
    if s.len() > 0 {
        lemma_ranges_cover(s, 0);
        assert(s.subrange(0, s.len() as int) =~= s);
    }
}

/// Splits a body into markdown and shortcode ranges, in order.
pub fn content_ranges(input: &str) -> (r: Result<Vec<ContentRange>, Error>)
    ensures
        match r {
            Ok(v) => ranges_spec(input@, 0) == Some(v@.map_values(|x: ContentRange| range_view(x))),
            Err(e) => ranges_spec(input@, 0) is None && e == Error::UnterminatedShortCode,
        },
{
    let s = chars_of(input);
    let n = s.len();
    let open = vec!['{', '{'];
    let close = vec!['}', '}'];
    assert(open@ == open_marker());
    assert(close@ == close_marker());
    let mut out: Vec<ContentRange> = Vec::new();
    let mut last: usize = 0;
    loop
        invariant
            last <= n == s@.len(),
            s@ == input@,
            open@ == open_marker(),
            close@ == close_marker(),
            ranges_spec(s@, 0) == prepend(
                out@.map_values(|x: ContentRange| range_view(x)),
                ranges_spec(s@, last as int),
            ),
        decreases n - last,
    {
        let ghost before = out@.map_values(|x: ContentRange| range_view(x));
        proof { lemma_find_from(s@, open_marker(), last as int); }
        match find(&s, &open, last) {
            None => {
                if last < n {
                    out.push(ContentRange::Markdown { start: last, end: n });
                }
                assert(out@.map_values(|x: ContentRange| range_view(x)) =~= before
                    + ranges_spec(s@, last as int)->0);
                return Ok(out);
            },
            Some(st) => {
                proof { lemma_find_from(s@, close_marker(), st as int); }
                match find(&s, &close, st) {
                    None => {
                        return Err(Error::UnterminatedShortCode);
                    },
                    Some(e) => {
                        if st > last {
                            out.push(ContentRange::Markdown { start: last, end: st });
                        }
                        out.push(ContentRange::ShortCode { start: st, end: e + 2 });
                        let ghost pre: Seq<(bool, int, int)> = if st > last {
                            seq![(false, last as int, st as int)]
                        } else {
                            seq![]
                        };
                        assert(out@.map_values(|x: ContentRange| range_view(x)) =~= before + pre
                            + seq![(true, st as int, e + 2)]);
                        assert(before + pre + seq![(true, st as int, e + 2)] + ranges_spec(
                            s@,
                            e + 2,
                        ).unwrap_or(seq![]) =~= before + (pre + seq![(true, st as int, e + 2)]
                            + ranges_spec(s@, e + 2).unwrap_or(seq![])));
                        last = e + 2;
                    },
                }
            },
        }
    }
}

/// The rendered pieces of a body joined in order into one document.
pub fn splice(pieces: &Vec<String>) -> (r: String)
    ensures
        r@ == concat(views(pieces@)),
{
    let mut out = String::new();
    let ghost all = views(pieces@);
    let mut k: usize = 0;
    assert(all.subrange(0, all.len() as int) =~= all);
    while k < pieces.len()
        invariant
            k <= pieces@.len() == all.len(),
            all == views(pieces@),
            out@ + concat(all.subrange(k as int, all.len() as int)) == concat(all),
        decreases pieces@.len() - k,
    {
        let ghost rest = all.subrange(k as int, all.len() as int);
        let ghost before = out@;
        assert(rest.drop_first() =~= all.subrange(k + 1, all.len() as int));
        assert(rest[0] == pieces@[k as int]@);
        out.append(pieces[k].as_str());
        assert(before + concat(rest) =~= out@ + concat(rest.drop_first()));
        k = k + 1;
    }
    assert(all.subrange(k as int, all.len() as int) =~= seq![]);
    assert(out@ + seq![] =~= out@);
    out
}

} // verus!
