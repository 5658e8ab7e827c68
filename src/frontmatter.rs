use vstd::prelude::*;

use crate::error::Error;
use crate::text::{
    chars_of, find, find_from, lemma_find_is, lemma_rscan, lemma_scan, matches_at, occurs_at,
    rscan, scan, slice, trim, trim_start, trimmed, trimmed_start, ws_pred,
};

verus! {

/// The marker that opens and closes a frontmatter block.
pub open spec fn delimiter() -> Seq<char> {
    seq!['+', '+', '+']
}

/// A content file split into its metadata text and its body.
pub struct Extracted {
    /// The text between the two delimiters, trimmed.
    pub metadata: String,
    /// The text after the closing delimiter, without leading whitespace.
    pub body: String,
}

/// What extraction gives for the text `s`: the metadata text and the body, or the error.
pub open spec fn extract_spec(s: Seq<char>) -> Result<(Seq<char>, Seq<char>), Error> {
    if !occurs_at(s, delimiter(), 0) {
        Err(Error::MalformedInput)
    } else {
        match find_from(s, delimiter(), 3) {
            None => Err(Error::UnterminatedBlock),
            Some(e) => Ok((trim(s.subrange(3, e)), trim_start(s.subrange(e + 3, s.len() as int)))),
        }
    }
}

/// Splits a content file into the frontmatter text and the body that follows it.
pub fn parse(data: &str) -> (r: Result<Extracted, Error>)
    ensures
        match r {
            Ok(x) => extract_spec(data@) == Ok::<(Seq<char>, Seq<char>), Error>((x.metadata@, x.body@)),
            Err(e) => extract_spec(data@) == Err::<(Seq<char>, Seq<char>), Error>(e),
        },
{
    let cs = chars_of(data);
    let d = vec!['+', '+', '+'];
    assert(d@ == delimiter());
    if !matches_at(&cs, &d, 0) {
        return Err(Error::MalformedInput);
    }
    match find(&cs, &d, 3) {
        None => Err(Error::UnterminatedBlock),
        Some(e) => {
            proof { crate::text::lemma_find_from(data@, delimiter(), 3); }
            let inner = slice(data, 3, e);
            let rest = slice(data, e + 3, cs.len());
            let metadata = trimmed(inner.as_str());
            let body = trimmed_start(rest.as_str());
            Ok(Extracted { metadata, body })
        },
    }
}

/// A file made of the metadata text `m` and the body `b`, framed by delimiters on lines of
/// their own.
pub open spec fn frame(m: Seq<char>, b: Seq<char>) -> Seq<char> {
    delimiter() + seq!['\n'] + m + seq!['\n'] + delimiter() + seq!['\n'] + b
}

/// Framing trimmed metadata text that holds no delimiter, together with a body that has no
/// leading whitespace, and then extracting, gives both back unchanged.
pub proof fn lemma_frame_round_trip(m: Seq<char>, b: Seq<char>)
    requires
        trim(m) == m,
        trim_start(b) == b,
        forall|i: int| !occurs_at(m, delimiter(), i),
    ensures
        extract_spec(frame(m, b)) == Ok::<(Seq<char>, Seq<char>), Error>((m, b)),
{
    let f = frame(m, b);
    let n = m.len() as int;
    let k = n + 5;
    assert(f.subrange(0, 3) =~= delimiter());
    assert(f.subrange(k, k + 3) =~= delimiter());
    assert forall|j: int| 3 <= j < k implies !occurs_at(f, delimiter(), j) by {
        if occurs_at(f, delimiter(), j) {
            if j == 3 {
                assert(f.subrange(j, j + 3)[0] == f[3]);
            } else if j + 3 <= n + 4 {
                assert(m.subrange(j - 4, j - 1) =~= f.subrange(j, j + 3));
                assert(occurs_at(m, delimiter(), j - 4));
            } else {
                assert(f.subrange(j, j + 3)[n + 4 - j] == f[n + 4]);
            }
        }
    }
    lemma_find_is(f, delimiter(), 3, k);
    // the metadata: a newline, m, a newline
    let t = f.subrange(3, k);
    assert(t =~= seq!['\n'] + m + seq!['\n']);
    lemma_scan(m, 0, ws_pred());
    lemma_rscan(m, scan(m, 0, ws_pred()), n, ws_pred());
    lemma_scan(t, 1, ws_pred());
    assert(scan(t, 0, ws_pred()) == scan(t, 1, ws_pred()));
    if n > 0 {
        assert(scan(m, 0, ws_pred()) == 0) by {
            assert(trim(m).len() == n);
        }
        assert(scan(t, 1, ws_pred()) == 1) by {
            assert(t[1] == m[0]);
        }
        assert(rscan(m, 0, n, ws_pred()) == n) by {
            assert(trim(m).len() == n);
        }
        assert(!ws_pred()(m[n - 1]));
        assert(rscan(t, 1, n + 2, ws_pred()) == rscan(t, 1, n + 1, ws_pred()));
        assert(t[n] == m[n - 1]);
        assert(rscan(t, 1, n + 1, ws_pred()) == n + 1);
        assert(trim(t) =~= m);
    } else {
        assert(scan(t, 1, ws_pred()) == 2);
        assert(trim(t) =~= m);
    }
    // the body: a newline, then b
    let u = f.subrange(k + 3, f.len() as int);
    assert(u =~= seq!['\n'] + b);
    lemma_scan(b, 0, ws_pred());
    assert(scan(b, 0, ws_pred()) == 0) by {
        assert(trim_start(b).len() == b.len());
    }
    assert(scan(u, 0, ws_pred()) == scan(u, 1, ws_pred()));
    if b.len() > 0 {
        assert(u[1] == b[0]);
    }
    assert(scan(u, 1, ws_pred()) == 1);
    assert(trim_start(u) =~= b);
}

/// A file that does not open with the delimiter is malformed; one that opens with it but
/// never closes it is unterminated.
pub proof fn lemma_extract_errors(s: Seq<char>)
    ensures
        !occurs_at(s, delimiter(), 0) ==> extract_spec(s) == Err::<(Seq<char>, Seq<char>), Error>(
            Error::MalformedInput,
        ),
        occurs_at(s, delimiter(), 0) && (forall|j: int| 3 <= j ==> !occurs_at(s, delimiter(), j))
            ==> extract_spec(s) == Err::<(Seq<char>, Seq<char>), Error>(Error::UnterminatedBlock),
{
    crate::text::lemma_find_from(s, delimiter(), 3);
}

} // verus!
