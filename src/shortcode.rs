use vstd::prelude::*;

use crate::error::Error;
use crate::text::{chars_of, lemma_scan, scan, skip_ws, slice, ws_pred};

verus! {

/// One `name="value"` pair of a shortcode invocation.
pub struct Argument {
    pub name: String,
    pub value: String,
}

/// A parsed invocation: a name and its arguments, in the order written.
pub struct ShortCode {
    pub name: String,
    pub arguments: Vec<Argument>,
}

/// The arguments as (name, value) pairs of character sequences.
pub open spec fn args_view(v: Seq<Argument>) -> Seq<(Seq<char>, Seq<char>)> {
    v.map_values(|a: Argument| (a.name@, a.value@))
}

/// What `char::is_alphanumeric` says of `c` (Unicode `Alphabetic` or `Numeric`).
pub uninterp spec fn alnum(c: char) -> bool;

/// Relies on `char::is_alphanumeric`, which decides by the character alone.
#[verifier::external_body]
fn is_alphanumeric(c: char) -> (r: bool)
    ensures
        r == alnum(c),
{
    c.is_alphanumeric()
}

pub open spec fn ident_pred() -> spec_fn(char) -> bool {
    |c: char| alnum(c) || c == '_'
}

pub open spec fn value_pred() -> spec_fn(char) -> bool {
    |c: char| c != '"'
}

/// The first index at or after `i` that is not whitespace.
pub open spec fn ws_end(s: Seq<char>, i: int) -> int {
    scan(s, i, ws_pred())
}

/// Whether `s[i]` is `c`.
pub open spec fn at(s: Seq<char>, i: int, c: char) -> bool {
    0 <= i < s.len() && s[i] == c
}

/// An argument `name = "value"` starting at `i`, with the whitespace after it: the pair and the
/// index after it, or the index where it breaks.
pub open spec fn arg_spec(s: Seq<char>, i: int) -> Result<((Seq<char>, Seq<char>), int), int> {
    let ne = scan(s, i, ident_pred());
    let j = ws_end(s, ne);
    let k = ws_end(s, j + 1);
    let q = scan(s, k + 1, value_pred());
    if ne == i {
        Err(i)
    } else if !at(s, j, '=') {
        Err(j)
    } else if !at(s, k, '"') {
        Err(k)
    } else if !at(s, q, '"') {
        Err(q)
    } else {
        Ok(((s.subrange(i, ne), s.subrange(k + 1, q)), ws_end(s, q + 1)))
    }
}

pub proof fn lemma_arg_spec(s: Seq<char>, i: int)
    requires
        0 <= i <= s.len(),
    ensures
        match arg_spec(s, i) {
            Ok((_, j)) => i < j <= s.len(),
            Err(e) => i <= e <= s.len(),
        },
{
    lemma_scan(s, i, ident_pred());
    let ne = scan(s, i, ident_pred());
    lemma_scan(s, ne, ws_pred());
    let j = ws_end(s, ne);
    if at(s, j, '=') {
        lemma_scan(s, j + 1, ws_pred());
        let k = ws_end(s, j + 1);
        if at(s, k, '"') {
            lemma_scan(s, k + 1, value_pred());
            let q = scan(s, k + 1, value_pred());
            if at(s, q, '"') {
                lemma_scan(s, q + 1, ws_pred());
            }
        }
    }
}

/// What follows an argument at `i`: further `, argument`s, then `)` and whitespace. Gives the
/// arguments and the index after it all, or the index where it breaks.
pub open spec fn rest_spec(s: Seq<char>, i: int) -> Result<(Seq<(Seq<char>, Seq<char>)>, int), int>
    decreases s.len() - i,
{
    if at(s, i, ')') {
        Ok((seq![], ws_end(s, i + 1)))
    } else if at(s, i, ',') {
        let start = ws_end(s, i + 1);
        match arg_spec(s, start) {
            Err(e) => Err(e),
            Ok((a, j)) => {
                proof {
                    lemma_scan(s, i + 1, ws_pred());
                    lemma_arg_spec(s, start);
                }
                match rest_spec(s, j) {
                    Err(e) => Err(e),
                    Ok((more, k)) => Ok((seq![a] + more, k)),
                }
            },
        }
    } else {
        Err(i)
    }
}

pub proof fn lemma_rest_spec(s: Seq<char>, i: int)
    requires
        0 <= i <= s.len(),
    ensures
        match rest_spec(s, i) {
            Ok((_, j)) => i < j <= s.len(),
            Err(e) => i <= e <= s.len(),
        },
    decreases s.len() - i,
{
    if at(s, i, ')') {
        lemma_scan(s, i + 1, ws_pred());
    } else if at(s, i, ',') {
        lemma_scan(s, i + 1, ws_pred());
        let start = ws_end(s, i + 1);
        lemma_arg_spec(s, start);
        if let Ok((a, j)) = arg_spec(s, start) {
            lemma_rest_spec(s, j);
        }
    }
}

/// The argument list from just after `(` and its whitespace, through `)` and the whitespace
/// after it.
pub open spec fn args_spec(s: Seq<char>, c: int) -> Result<(Seq<(Seq<char>, Seq<char>)>, int), int> {
    if at(s, c, ')') {
        Ok((seq![], ws_end(s, c + 1)))
    } else {
        match arg_spec(s, c) {
            Err(e) => Err(e),
            Ok((a, j)) => match rest_spec(s, j) {
                Err(e) => Err(e),
                Ok((more, k)) => Ok((seq![a] + more, k)),
            },
        }
    }
}

/// The grammar of an invocation, `{{ name(arg="value", ...) }}`, over the whole of `s`: its name
/// and arguments, or the character index where it breaks.
pub open spec fn shortcode_spec(s: Seq<char>) -> Result<(Seq<char>, Seq<(Seq<char>, Seq<char>)>), int> {
    let a = ws_end(s, 2);
    let ne = scan(s, a, ident_pred());
    let b = ws_end(s, ne);
    let c = ws_end(s, b + 1);
    if !(at(s, 0, '{') && at(s, 1, '{')) {
        Err(0)
    } else if ne == a {
        Err(a)
    } else if !at(s, b, '(') {
        Err(b)
    } else {
        match args_spec(s, c) {
            Err(e) => Err(e),
            Ok((args, d)) => if !(at(s, d, '}') && at(s, d + 1, '}')) {
                Err(d)
            } else if ws_end(s, d + 2) != s.len() {
                Err(ws_end(s, d + 2))
            } else {
                Ok((s.subrange(a, ne), args))
            },
        }
    }
}

/// The number of bytes that the first `i` characters of `s` take in UTF-8.
pub open spec fn byte_offset(s: Seq<char>, i: int) -> int {
    vstd::utf8::encode_utf8(s.subrange(0, i)).len() as int
}

fn scan_ident(s: &Vec<char>, i: usize) -> (r: usize)
    requires
        i <= s@.len(),
    ensures
        r == scan(s@, i as int, ident_pred()),
{
    let mut j = i;
    while j < s.len() && (is_alphanumeric(s[j]) || s[j] == '_')
        invariant
            i <= j <= s@.len(),
            scan(s@, i as int, ident_pred()) == scan(s@, j as int, ident_pred()),
        decreases s@.len() - j,
    {
        j = j + 1;
    }
    j
}

fn scan_value(s: &Vec<char>, i: usize) -> (r: usize)
    requires
        i <= s@.len(),
    ensures
        r == scan(s@, i as int, value_pred()),
{
    let mut j = i;
    while j < s.len() && s[j] != '"'
        invariant
            i <= j <= s@.len(),
            scan(s@, i as int, value_pred()) == scan(s@, j as int, value_pred()),
        decreases s@.len() - j,
    {
        j = j + 1;
    }
    j
}

fn is_at(s: &Vec<char>, i: usize, c: char) -> (r: bool)
    ensures
        r == at(s@, i as int, c),
{
    i < s.len() && s[i] == c
}

fn parse_arg(input: &str, s: &Vec<char>, i: usize) -> (r: Result<(Argument, usize), usize>)
    requires
        s@ == input@,
        i <= s@.len(),
    ensures
        match r {
            Ok((a, j)) => arg_spec(s@, i as int) == Ok::<((Seq<char>, Seq<char>), int), int>(
                ((a.name@, a.value@), j as int),
            ),
            Err(e) => arg_spec(s@, i as int) == Err::<((Seq<char>, Seq<char>), int), int>(e as int),
        },
{
    let n = s.len();
    proof { lemma_scan(s@, i as int, ident_pred()); }
    let ne = scan_ident(s, i);
    if ne == i {
        return Err(i);
    }
    proof { lemma_scan(s@, ne as int, ws_pred()); }
    let j = skip_ws(s, ne);
    if !is_at(s, j, '=') {
        return Err(j);
    }
    proof { lemma_scan(s@, j + 1, ws_pred()); }
    let k = skip_ws(s, j + 1);
    if !is_at(s, k, '"') {
        return Err(k);
    }
    proof { lemma_scan(s@, k + 1, value_pred()); }
    let q = scan_value(s, k + 1);
    if !is_at(s, q, '"') {
        return Err(q);
    }
    proof { lemma_scan(s@, q + 1, ws_pred()); }
    let after = skip_ws(s, q + 1);
    let name = slice(input, i, ne);
    let value = slice(input, k + 1, q);
    Ok((Argument { name, value }, after))
}

fn parse_rest(input: &str, s: &Vec<char>, i: usize) -> (r: Result<(Vec<Argument>, usize), usize>)
    requires
        s@ == input@,
        i <= s@.len(),
    ensures
        match r {
            Ok((v, j)) => rest_spec(s@, i as int) == Ok::<(Seq<(Seq<char>, Seq<char>)>, int), int>(
                (args_view(v@), j as int),
            ),
            Err(e) => rest_spec(s@, i as int) == Err::<(Seq<(Seq<char>, Seq<char>)>, int), int>(
                e as int,
            ),
        },
    decreases s@.len() - i,
{
    let n = s.len();
    if is_at(s, i, ')') {
        proof { lemma_scan(s@, i + 1, ws_pred()); }
        let after = skip_ws(s, i + 1);
        let v: Vec<Argument> = Vec::new();
        assert(args_view(v@) =~= seq![]);
        return Ok((v, after));
    }
    if !is_at(s, i, ',') {
        return Err(i);
    }
    proof { lemma_scan(s@, i + 1, ws_pred()); }
    let start = skip_ws(s, i + 1);
    proof { lemma_arg_spec(s@, start as int); }
    match parse_arg(input, s, start) {
        Err(e) => Err(e),
        Ok((a, j)) => match parse_rest(input, s, j) {
            Err(e) => Err(e),
            Ok((mut v, k)) => {
                let ghost pair = (a.name@, a.value@);
                let ghost old_v = v@;
                v.insert(0, a);
                assert(args_view(v@) =~= seq![pair] + args_view(old_v));
                Ok((v, k))
            },
        },
    }
}

/// Parses one invocation `{{ name(arg="value", ...) }}` that spans the whole of `input`.
/// Whitespace may stand around every token but inside the quotes, which keep their text as
/// written.
pub fn parse_shortcode(input: &str) -> (r: Result<ShortCode, Error>)
    ensures
        match r {
            Ok(sc) => shortcode_spec(input@) == Ok::<
                (Seq<char>, Seq<(Seq<char>, Seq<char>)>),
                int,
            >((sc.name@, args_view(sc.arguments@))),
            Err(e) => shortcode_spec(input@) is Err && e == Error::ShortCodeSyntaxError {
                offset: byte_offset(input@, shortcode_spec(input@)->Err_0) as usize,
            },
        },
{
    let s = chars_of(input);
    let res = parse_parts(input, &s);
    match res {
        Ok((name_end, a, args)) => {
            let name = slice(input, a, name_end);
            Ok(ShortCode { name, arguments: args })
        },
        Err(p) => {
            let offset = input.substring_char(0, p).len();
            Err(Error::ShortCodeSyntaxError { offset })
        },
    }
}

/// The argument list from `c`, just after `(` and its whitespace, through `)` and the
/// whitespace after it.
fn parse_args(input: &str, s: &Vec<char>, c: usize) -> (r: Result<(Vec<Argument>, usize), usize>)
    requires
        s@ == input@,
        c <= s@.len(),
    ensures
        match r {
            Ok((v, d)) => d <= s@.len() && args_spec(s@, c as int) == Ok::<
                (Seq<(Seq<char>, Seq<char>)>, int),
                int,
            >((args_view(v@), d as int)),
            Err(e) => e <= s@.len() && args_spec(s@, c as int) == Err::<
                (Seq<(Seq<char>, Seq<char>)>, int),
                int,
            >(e as int),
        },
{
    let n = s.len();
    if is_at(s, c, ')') {
        proof { lemma_scan(s@, c + 1, ws_pred()); }
        let after = skip_ws(s, c + 1);
        let v: Vec<Argument> = Vec::new();
        assert(args_view(v@) =~= seq![]);
        Ok((v, after))
    } else {
        proof { lemma_arg_spec(s@, c as int); }
        match parse_arg(input, s, c) {
            Err(e) => Err(e),
            Ok((arg, j)) => {
                proof { lemma_rest_spec(s@, j as int); }
                match parse_rest(input, s, j) {
                    Err(e) => Err(e),
                    Ok((mut v, k)) => {
                        let ghost pair = (arg.name@, arg.value@);
                        let ghost old_v = v@;
                        v.insert(0, arg);
                        assert(args_view(v@) =~= seq![pair] + args_view(old_v));
                        Ok((v, k))
                    },
                }
            },
        }
    }
}

fn parse_parts(input: &str, s: &Vec<char>) -> (r: Result<(usize, usize, Vec<Argument>), usize>)
    requires
        s@ == input@,
    ensures
        match r {
            Ok((ne, a, v)) => a <= ne <= s@.len() && shortcode_spec(s@) == Ok::<
                (Seq<char>, Seq<(Seq<char>, Seq<char>)>),
                int,
            >((s@.subrange(a as int, ne as int), args_view(v@))),
            Err(e) => e <= s@.len() && shortcode_spec(s@) == Err::<
                (Seq<char>, Seq<(Seq<char>, Seq<char>)>),
                int,
            >(e as int),
        },
{
    let n = s.len();
    if !(is_at(s, 0, '{') && is_at(s, 1, '{')) {
        return Err(0);
    }
    proof { lemma_scan(s@, 2, ws_pred()); }
    let a = skip_ws(s, 2);
    proof { lemma_scan(s@, a as int, ident_pred()); }
    let ne = scan_ident(s, a);
    if ne == a {
        return Err(a);
    }
    proof { lemma_scan(s@, ne as int, ws_pred()); }
    let b = skip_ws(s, ne);
    if !is_at(s, b, '(') {
        return Err(b);
    }
    proof { lemma_scan(s@, b + 1, ws_pred()); }
    let c = skip_ws(s, b + 1);
    proof { lemma_scan(s@, b + 1, ws_pred()); }
    let args_res = parse_args(input, s, c);
    match args_res {
        Err(e) => Err(e),
        Ok((v, d)) => {
            if !(is_at(s, d, '}') && is_at(s, d + 1, '}')) {
                return Err(d);
            }
            proof { lemma_scan(s@, d + 2, ws_pred()); }
            let end = skip_ws(s, d + 2);
            if end != s.len() {
                return Err(end);
            }
            Ok((ne, a, v))
        },
    }
}

} // verus!
