use vstd::prelude::*;

use crate::engine::{
    events_to_html, highlight_html, html_event, insert_fields, insert_text, markdown_events,
    markdown_html, markdown_to_html, md_kinds, render_template, template_names, template_set,
    theme_named, with_image_dest,
};
use crate::error::Error;
use crate::links::{image_url_spec, resolve_image_url};
use crate::paths::{not_dot, scan_back};
use crate::site::starts_with;
use crate::shortcode::{byte_offset, parse_shortcode, shortcode_spec, ShortCode};
use crate::splice::{
    concat, content_ranges, lemma_concat_one, lemma_no_marker_single_range, open_marker, ranges_spec,
    splice, views, ContentRange,
};
use crate::text::{
    chars_of, find, find_from, lemma_find_from, lemma_rscan, matches_at, occurs_at, rscan, slice, trim,
    trimmed,
};

verus! {

/// What shortcode templates and link rewriting see of the page being rendered.
pub struct PartialPage {
    pub title: String,
    pub description: String,
    pub date: Option<String>,
    /// The serialization of the page's absolute URL.
    pub permalink: String,
}

/// The markdown events that rendering treats on its own; every other event passes through.
pub enum MdEvent {
    /// The start of an image, with its destination.
    Image { dest: String },
    /// The start of a code block, with its language token if it is fenced.
    CodeStart { lang: Option<String> },
    Text { text: String },
    /// The end of a code block.
    CodeEnd,
    Other,
}

/// An event kind as plain values.
pub enum MdKind {
    Image(Seq<char>),
    CodeStart(Option<Seq<char>>),
    Text(Seq<char>),
    CodeEnd,
    Other,
}

pub open spec fn kind_view(e: MdEvent) -> MdKind {
    match e {
        MdEvent::Image { dest } => MdKind::Image(dest@),
        MdEvent::CodeStart { lang } => MdKind::CodeStart(
            match lang {
                Some(l) => Some(l@),
                None => None,
            },
        ),
        MdEvent::Text { text } => MdKind::Text(text@),
        MdEvent::CodeEnd => MdKind::CodeEnd,
        MdEvent::Other => MdKind::Other,
    }
}

/// The language a code block is highlighted in: its token, or empty when it has none.
pub open spec fn lang_of(lang: Option<String>) -> Seq<char> {
    match lang {
        Some(l) => l@,
        None => Seq::<char>::empty(),
    }
}

/// Whether the markdown `s` holds no image and no code block: its render needs no rewriting.
pub open spec fn md_plain(s: Seq<char>) -> bool {
    forall|i: int|
        0 <= i < md_kinds(s).len() ==> !(#[trigger] md_kinds(s)[i] is Image) && !(md_kinds(
            s,
        )[i] is CodeStart)
}

/// The code block being read: whether one is open, its language, and the text so far.
pub struct CodeBlock {
    pub open: bool,
    pub lang: String,
    pub code: String,
}

/// What to do with an event.
pub enum Step {
    /// Emit it as it is.
    Pass,
    /// Emit nothing for it.
    Hold,
    /// Emit the highlighted code block in its place.
    Highlight { lang: String, code: String },
}

/// One event's effect on the code block being read. The start of a block opens it, with its
/// language (empty when it has none), and holds back the event; text inside it is added to the
/// code; its end closes it and asks for the code to be highlighted. Everything else passes
/// through.
pub fn code_block_step(state: &mut CodeBlock, ev: &MdEvent) -> (r: Step)
    ensures
        match *ev {
            MdEvent::CodeStart { lang } => {
                &&& r is Hold
                &&& final(state).open
                &&& final(state).lang@ == lang_of(lang)
                &&& final(state).code@ == old(state).code@
            },
            MdEvent::Text { text } => if old(state).open {
                &&& r is Hold
                &&& final(state).open
                &&& final(state).lang@ == old(state).lang@
                &&& final(state).code@ == old(state).code@ + text@
            } else {
                r is Pass && *final(state) == *old(state)
            },
            MdEvent::CodeEnd => if old(state).open {
                &&& (r matches Step::Highlight { lang, code } && lang@ == old(state).lang@ && code@
                    == old(state).code@)
                &&& !final(state).open
                &&& final(state).code@.len() == 0
            } else {
                r is Pass && *final(state) == *old(state)
            },
            _ => r is Pass && *final(state) == *old(state),
        },
{
    match ev {
        MdEvent::CodeStart { lang } => {
            state.open = true;
            state.lang = match lang {
                Some(l) => l.clone(),
                None => String::new(),
            };
            Step::Hold
        },
        MdEvent::Text { text } => {
            if state.open {
                state.code.append(text.as_str());
                Step::Hold
            } else {
                Step::Pass
            }
        },
        MdEvent::CodeEnd => {
            if state.open {
                state.open = false;
                let code = state.code.clone();
                state.code = String::new();
                Step::Highlight { lang: state.lang.clone(), code }
            } else {
                Step::Pass
            }
        },
        _ => Step::Pass,
    }
}

/// Highlights code blocks with a set of syntaxes and a set of themes.
pub struct Highlighter {
    pub syntax_set: syntect::parsing::SyntaxSet,
    pub theme_set: syntect::highlighting::ThemeSet,
}

impl Highlighter {
    pub fn new(
        syntax_set: syntect::parsing::SyntaxSet,
        theme_set: syntect::highlighting::ThemeSet,
    ) -> (r: Highlighter)
        ensures
            r.syntax_set == syntax_set,
            r.theme_set == theme_set,
    {
        Highlighter { syntax_set, theme_set }
    }

    /// `input` as highlighted HTML, in the syntax that the token `lang` names, or as plain
    /// text where no syntax matches it. An unknown token is never an error: the only errors are
    /// a set without a plain-text syntax, a missing theme, and a failure of the highlighter.
    pub fn highlight(&self, lang: &str, input: &str) -> (r: Result<String, Error>)
        ensures
            r matches Err(e) ==> e is HighlightError,
    {
        let syntax = match choose_syntax(
            self.syntax_set.find_syntax_by_token(lang),
            self.syntax_set.find_syntax_by_name("Plain Text"),
        ) {
            Some(s) => s,
            None => {
                return Err(Error::HighlightError("no plain text syntax".to_owned()));
            },
        };
        let theme = match theme_named(&self.theme_set, "base16-ocean.dark") {
            Some(t) => t,
            None => {
                return Err(Error::HighlightError("no theme base16-ocean.dark".to_owned()));
            },
        };
        match highlight_html(input, &self.syntax_set, syntax, theme) {
            Ok(h) => Ok(h),
            Err(m) => Err(Error::HighlightError(m)),
        }
    }
}

/// The syntax to highlight in: the one the token names, else plain text; none only where the
/// token names none and there is no plain-text syntax.
pub fn choose_syntax<'a>(
    by_token: Option<&'a syntect::parsing::SyntaxReference>,
    plain_text: Option<&'a syntect::parsing::SyntaxReference>,
) -> (r: Option<&'a syntect::parsing::SyntaxReference>)
    ensures
        by_token is Some ==> r == by_token,
        by_token is None ==> r == plain_text,
{
    match by_token {
        Some(s) => Some(s),
        None => plain_text,
    }
}

pub open spec fn shortcodes_dir() -> Seq<char> {
    seq!['s', 'h', 'o', 'r', 't', 'c', 'o', 'd', 'e', 's', '/']
}

/// Whether template `t` is the shortcode template for `name`: it lies under `shortcodes/` and
/// its name there, up to its last `.`, is `name`.
pub open spec fn names_shortcode(t: Seq<char>, name: Seq<char>) -> bool {
    let d = rscan(t, 11, t.len() as int, not_dot());
    &&& starts_with(t, shortcodes_dir())
    &&& name == if d > 11 {
        t.subrange(11, d - 1)
    } else {
        t.subrange(11, t.len() as int)
    }
}

fn is_shortcode_template(t: &str, name: &str) -> (r: bool)
    ensures
        r == names_shortcode(t@, name@),
{
    let cs = chars_of(t);
    let dir = chars_of("shortcodes/");
    proof { reveal_strlit("shortcodes/"); }
    assert(dir@ =~= shortcodes_dir());
    if !matches_at(&cs, &dir, 0) {
        assert(!starts_with(t@, shortcodes_dir())) by {
            if starts_with(t@, shortcodes_dir()) {
                assert(t@.subrange(0, 11) =~= cs@.subrange(0, 11));
            }
        }
        return false;
    }
    assert(t@.subrange(0, 11) =~= cs@.subrange(0, 11));
    proof { lemma_rscan(cs@, 11, cs@.len() as int, not_dot()); }
    let d = scan_back(&cs, 11, cs.len(), '.');
    let end = if d > 11 { d - 1 } else { cs.len() };
    assert(names_shortcode(t@, name@) == (name@ == t@.subrange(11, end as int)));
    let n = chars_of(name);
    if end - 11 != n.len() {
        return false;
    }
    let mut i: usize = 0;
    while i < n.len()
        invariant
            i <= n@.len() == end - 11,
            end <= cs@.len(),
            n@ == name@,
            cs@ == t@,
            names_shortcode(t@, name@) == (name@ == t@.subrange(11, end as int)),
            forall|k: int| 0 <= k < i ==> cs@[11 + k] == n@[k],
        decreases n@.len() - i,
    {
        if cs[11 + i] != n[i] {
            assert(t@.subrange(11, end as int)[i as int] != name@[i as int]);
            return false;
        }
        i = i + 1;
    }
    assert(t@.subrange(11, end as int) =~= name@);
    true
}

/// Which of the registered template names is the template of shortcode `name`: the first
/// that `names_shortcode` accepts.
pub fn find_shortcode_template(names: &Vec<String>, name: &str) -> (r: Option<usize>)
    ensures
        match r {
            Some(i) => i < names@.len() && names_shortcode(names@[i as int]@, name@) && forall|j: int|
                0 <= j < i ==> !names_shortcode(#[trigger] names@[j]@, name@),
            None => forall|j: int| 0 <= j < names@.len() ==> !names_shortcode(#[trigger] names@[j]@, name@),
        },
{
    let mut i: usize = 0;
    while i < names.len()
        invariant
            i <= names@.len(),
            forall|j: int| 0 <= j < i ==> !names_shortcode(#[trigger] names@[j]@, name@),
        decreases names@.len() - i,
    {
        if is_shortcode_template(names[i].as_str(), name) {
            return Some(i);
        }
        i = i + 1;
    }
    None
}

/// The context that a shortcode's template sees: each argument as a string under its name, in
/// the order written (a later argument of the same name wins), then the page's fields under
/// `page`.
pub fn shortcode_context(sc: &ShortCode, page: &PartialPage) -> tera::Context {
    let mut ctx = tera::Context::new();
    let mut i: usize = 0;
    while i < sc.arguments.len()
        decreases sc.arguments@.len() - i,
    {
        insert_text(&mut ctx, sc.arguments[i].name.as_str(), sc.arguments[i].value.as_str());
        i = i + 1;
    }
    let mut fields: Vec<(String, Option<String>)> = Vec::new();
    fields.push(("title".to_owned(), Some(page.title.clone())));
    fields.push(("description".to_owned(), Some(page.description.clone())));
    fields.push(("date".to_owned(), page.date.clone()));
    fields.push(("permalink".to_owned(), Some(page.permalink.clone())));
    insert_fields(&mut ctx, "page", &fields);
    ctx
}

/// What the template engine's outcome becomes: the rendered text, or a render error that
/// carries the engine's message.
pub fn template_outcome(res: Result<String, String>) -> (r: Result<String, Error>)
    ensures
        match res {
            Ok(h) => (r matches Ok(x) && x@ == h@),
            Err(m) => (r matches Err(Error::TemplateRenderError(x)) && x@ == m@),
        },
{
    match res {
        Ok(h) => Ok(h),
        Err(m) => Err(Error::TemplateRenderError(m)),
    }
}

/// Renders a parsed shortcode with the first of `names` that is its template: unknown when
/// none is.
pub fn render_with_names(
    names: &Vec<String>,
    sc: &ShortCode,
    page: &PartialPage,
    tera: &tera::Tera,
) -> (r: Result<String, Error>)
    ensures
        (forall|j: int| 0 <= j < names@.len() ==> !names_shortcode(#[trigger] names@[j]@, sc.name@))
            ==> (r matches Err(Error::UnknownShortCode(n)) && n@ == sc.name@),
        (exists|j: int| 0 <= j < names@.len() && names_shortcode(#[trigger] names@[j]@, sc.name@))
            ==> (r is Ok || r matches Err(Error::TemplateRenderError(_))),
{
    match find_shortcode_template(names, sc.name.as_str()) {
        None => Err(Error::UnknownShortCode(sc.name.clone())),
        Some(i) => {
            let ctx = shortcode_context(sc, page);
            template_outcome(render_template(tera, names[i].as_str(), &ctx))
        },
    }
}

/// Parses one shortcode invocation and renders it with the template registered for its name,
/// given its arguments and the page.
pub fn render_shortcode(input: &str, page: &PartialPage, tera: &tera::Tera) -> (r: Result<String, Error>)
    ensures
        shortcode_spec(input@) is Err ==> (r matches Err(Error::ShortCodeSyntaxError { offset })
            && offset == byte_offset(input@, shortcode_spec(input@)->Err_0) as usize),
        shortcode_spec(input@) is Ok ==> !(r matches Err(Error::ShortCodeSyntaxError { .. })),
        shortcode_spec(input@) matches Ok((name, _)) ==> {
            &&& (forall|t: Seq<char>| #[trigger] template_set(*tera).contains(t) ==> !names_shortcode(t, name))
                ==> (r matches Err(Error::UnknownShortCode(n)) && n@ == name)
            &&& (exists|t: Seq<char>| #[trigger] template_set(*tera).contains(t) && names_shortcode(t, name))
                ==> (r is Ok || r matches Err(Error::TemplateRenderError(_)))
        },
{
    let sc = match parse_shortcode(input) {
        Ok(sc) => sc,
        Err(e) => {
            return Err(e);
        },
    };
    let names = template_names(tera);
    let ghost vs = names@.map_values(|n: String| n@);
    proof {
        assert forall|j: int| 0 <= j < names@.len() implies template_set(*tera).contains(#[trigger] names@[j]@) by {
            assert(vs[j] == names@[j]@);
            assert(vs.contains(vs[j]));
        }
        assert forall|t: Seq<char>| #[trigger] template_set(*tera).contains(t) implies exists|j: int|
            0 <= j < names@.len() && #[trigger] names@[j]@ == t by {
            assert(vs.to_set().contains(t));
            let j = choose|j: int| 0 <= j < vs.len() && vs[j] == t;
            assert(names@[j]@ == t);
        }
    }
    render_with_names(&names, &sc, page, tera)
}

/// Whether `k` is an image whose destination cannot be resolved against `permalink`.
pub open spec fn bad_image(k: MdKind, permalink: Seq<char>) -> bool {
    match k {
        MdKind::Image(d) => image_url_spec(d, permalink) is Err,
        _ => false,
    }
}

/// Renders markdown as HTML. Image destinations that are not absolute URLs are resolved against
/// the page's permalink; the text of each code block goes to the highlighter with the block's
/// language token, and its output stands in place of the block. Markdown with neither images
/// nor code blocks renders as the engine writes it.
pub fn render_markdown(input: &str, page: &PartialPage, highlighter: &Highlighter) -> (r: Result<
    String,
    Error,
>)
    ensures
        md_plain(input@) ==> (r matches Ok(h) && h@ == markdown_html(input@)),
        r matches Err(e) ==> {
            ||| e is InvalidUrl && exists|i: int|
                0 <= i < md_kinds(input@).len() && bad_image(#[trigger] md_kinds(input@)[i], page.permalink@)
            ||| e is HighlightError && exists|i: int|
                0 <= i < md_kinds(input@).len() && #[trigger] md_kinds(input@)[i] is CodeStart
        },
{
    let (kinds, mut events) = markdown_events(input);
    let ghost kv = md_kinds(input@);
    let n = kinds.len();
    let mut plain = true;
    let mut j: usize = 0;
    while j < n
        invariant
            j <= n == kinds@.len(),
            kinds@.map_values(|k: MdEvent| kind_view(k)) == kv,
            kv == md_kinds(input@),
            plain == forall|i: int| 0 <= i < j ==> !(#[trigger] kv[i] is Image) && !(kv[i] is CodeStart),
        decreases n - j,
    {
        assert(kv[j as int] == kind_view(kinds@[j as int]));
        match &kinds[j] {
            MdEvent::Image { .. } => {
                plain = false;
            },
            MdEvent::CodeStart { .. } => {
                plain = false;
            },
            _ => {},
        }
        j = j + 1;
    }
    if plain {
        return Ok(markdown_to_html(input));
    }
    let mut out = Vec::new();
    let mut state = CodeBlock { open: false, lang: String::new(), code: String::new() };
    let mut k: usize = 0;
    while k < n
        invariant
            k <= n == kinds@.len(),
            events@.len() == n - k,
            kinds@.map_values(|k: MdEvent| kind_view(k)) == kv,
            kv == md_kinds(input@),
            state.open ==> exists|i: int| 0 <= i < kv.len() && #[trigger] kv[i] is CodeStart,
        decreases n - k,
    {
        let ev = events.remove(0);
        assert(kv[k as int] == kind_view(kinds@[k as int]));
        match &kinds[k] {
            MdEvent::Image { dest } => {
                let url = match resolve_image_url(dest.as_str(), page.permalink.as_str()) {
                    Ok(u) => u,
                    Err(e) => {
                        assert(bad_image(kv[k as int], page.permalink@));
                        return Err(e);
                    },
                };
                out.push(with_image_dest(ev, url));
            },
            kind => {
                proof {
                    if *kind is CodeStart {
                        assert(kv[k as int] is CodeStart);
                    }
                }
                match code_block_step(&mut state, kind) {
                    Step::Pass => out.push(ev),
                    Step::Hold => {},
                    Step::Highlight { lang, code } => {
                        let html = match highlighter.highlight(lang.as_str(), code.as_str()) {
                            Ok(h) => h,
                            Err(e) => {
                                return Err(e);
                            },
                        };
                        out.push(html_event(html));
                    },
                }
            },
        }
        k = k + 1;
    }
    Ok(events_to_html(out))
}

/// Whether `p` may be the render of range `r` of `s`: a shortcode range's text parses, and a
/// markdown range with neither images nor code blocks renders as the engine writes it.
pub open spec fn piece_fits(s: Seq<char>, r: (bool, int, int), p: Seq<char>) -> bool {
    let t = s.subrange(r.1, r.2);
    if r.0 {
        shortcode_spec(t) is Ok
    } else {
        md_plain(t) ==> p == markdown_html(t)
    }
}

/// Whether `h` is made of one render per range of `s`, joined in the order of the ranges.
pub open spec fn rendered_from(s: Seq<char>, h: Seq<char>) -> bool {
    &&& ranges_spec(s, 0) is Some
    &&& exists|ps: Seq<Seq<char>>|
        {
            &&& ps.len() == ranges_spec(s, 0)->0.len()
            &&& h == #[trigger] concat(ps)
            &&& forall|i: int|
                0 <= i < ps.len() ==> piece_fits(s, ranges_spec(s, 0)->0[i], #[trigger] ps[i])
        }
}

/// Renders a body in which markdown and shortcode invocations alternate: each range in its own
/// mode, the results joined in the order of the ranges.
pub fn render_content(
    input: &str,
    page: &PartialPage,
    tera: &tera::Tera,
    highlighter: &Highlighter,
) -> (r: Result<String, Error>)
    ensures
        ranges_spec(input@, 0) is None <==> r matches Err(Error::UnterminatedShortCode),
        r matches Ok(html) ==> rendered_from(input@, html@),
        input@.len() == 0 ==> (r matches Ok(html) && html@.len() == 0),
        input@.len() > 0 && md_plain(input@) && (forall|j: int| !occurs_at(input@, open_marker(), j))
            ==> (r matches Ok(html) && html@ == markdown_html(input@)),
        r matches Err(Error::ShortCodeSyntaxError { .. }) ==> exists|i: int|
            0 <= i < ranges_spec(input@, 0)->0.len() && {
                let x = #[trigger] ranges_spec(input@, 0)->0[i];
                x.0 && shortcode_spec(input@.subrange(x.1, x.2)) is Err
            },
{
    let ghost no_marker = input@.len() > 0 && md_plain(input@) && (forall|j: int|
        !occurs_at(input@, open_marker(), j));
    proof {
        if no_marker {
            lemma_no_marker_single_range(input@);
            assert(input@.subrange(0, input@.len() as int) =~= input@);
        }
    }
    let ranges = match content_ranges(input) {
        Ok(v) => v,
        Err(e) => {
            return Err(e);
        },
    };
    let ghost rs = ranges@.map_values(|x: ContentRange| crate::splice::range_view(x));
    proof { crate::splice::lemma_ranges_cover(input@, 0); }
    let mut pieces: Vec<String> = Vec::new();
    let mut k: usize = 0;
    while k < ranges.len()
        invariant
            k <= ranges@.len(),
            pieces@.len() == k,
            ranges_spec(input@, 0) == Some(rs),
            rs == ranges@.map_values(|x: ContentRange| crate::splice::range_view(x)),
            forall|i: int| 0 <= i < rs.len() ==> {
                let x = #[trigger] rs[i];
                0 <= x.1 < x.2 <= input@.len()
            },
            forall|i: int| 0 <= i < k ==> piece_fits(input@, rs[i], #[trigger] views(pieces@)[i]),
            no_marker == (input@.len() > 0 && md_plain(input@) && (forall|j: int|
                !occurs_at(input@, open_marker(), j))),
            no_marker ==> rs == seq![(false, 0int, input@.len() as int)],
            no_marker ==> input@.subrange(0, input@.len() as int) == input@,
        decreases ranges@.len() - k,
    {
        let ghost before = pieces@;
        let ghost x = rs[k as int];
        let ghost t = input@.subrange(x.1, x.2);
        assert(x == crate::splice::range_view(ranges@[k as int]));
        let piece = match ranges[k] {
            ContentRange::Markdown { start, end } => {
                assert(x == (false, start as int, end as int));
                let text = slice(input, start, end);
                render_markdown(text.as_str(), page, highlighter)
            },
            ContentRange::ShortCode { start, end } => {
                assert(x == (true, start as int, end as int));
                let text = slice(input, start, end);
                render_shortcode(text.as_str(), page, tera)
            },
        };
        match piece {
            Ok(p) => {
                pieces.push(p);
                assert forall|i: int| 0 <= i < k + 1 implies piece_fits(input@, rs[i], #[trigger] views(pieces@)[i]) by {
                    if i < k {
                        assert(views(pieces@)[i] == views(before)[i]);
                    }
                }
            },
            Err(e) => {
                assert(!(e is UnterminatedShortCode));
                proof {
                    if e is ShortCodeSyntaxError {
                        assert(x.0);
                        assert(shortcode_spec(t) is Err);
                        assert(ranges_spec(input@, 0)->0[k as int] == x);
                    }
                    if no_marker {
                        assert(k == 0);
                        assert(!x.0);
                        assert(t == input@);
                        assert(md_plain(t));
                    }
                }
                return Err(e);
            },
        }
        k = k + 1;
    }
    let html = splice(&pieces);
    assert(views(pieces@).len() == rs.len());
    proof {
        if no_marker {
            lemma_concat_one(views(pieces@));
        }
        if input@.len() == 0 {
            assert(rs.len() == 0) by {
                crate::text::lemma_find_from(input@, open_marker(), 0);
            }
            assert(views(pieces@) =~= Seq::<Seq<char>>::empty());
        }
    }
    Ok(html)
}

pub open spec fn comment_open() -> Seq<char> {
    seq!['<', '!', '-', '-']
}

pub open spec fn comment_close() -> Seq<char> {
    seq!['-', '-', '>']
}

pub open spec fn more_word() -> Seq<char> {
    seq!['m', 'o', 'r', 'e']
}

/// Whether `a` and `b` are the same letter up to ASCII case.
pub open spec fn same_ignoring_case(a: char, b: char) -> bool {
    ||| a == b
    ||| ('A' <= a <= 'Z' && a as u32 + 32 == b as u32)
    ||| ('A' <= b <= 'Z' && b as u32 + 32 == a as u32)
}

/// Whether `a` and `b` are equal up to ASCII case.
pub open spec fn eq_ignoring_case(a: Seq<char>, b: Seq<char>) -> bool {
    a.len() == b.len() && forall|i: int| 0 <= i < a.len() ==> same_ignoring_case(#[trigger] a[i], b[i])
}

/// The first HTML comment at or after `i` whose text, trimmed, is `more` in any ASCII case: where
/// it starts. A comment's text runs to the first `-->` after its `<!--`.
pub open spec fn more_from(s: Seq<char>, i: int) -> Option<int>
    decreases s.len() + 1 - i,
{
    if i < 0 {
        None
    } else {
        match find_from(s, comment_open(), i) {
            None => None,
            Some(st) => match find_from(s, comment_close(), st + 4) {
                None => None,
                Some(e) => if eq_ignoring_case(trim(s.subrange(st + 4, e)), more_word()) {
                    Some(st)
                } else {
                    proof { lemma_find_from(s, comment_open(), i); }
                    more_from(s, st + 1)
                },
            },
        }
    }
}

/// Where the summary of a body ends: at the first HTML comment whose trimmed text is `more`,
/// in any ASCII case.
pub open spec fn more_marker(s: Seq<char>) -> Option<int> {
    more_from(s, 0)
}

fn is_more(s: &str) -> (r: bool)
    ensures
        r == eq_ignoring_case(s@, more_word()),
{
    let cs = chars_of(s);
    let w = chars_of("more");
    proof { reveal_strlit("more"); }
    assert(w@ =~= more_word());
    if cs.len() != 4 {
        return false;
    }
    let mut i: usize = 0;
    while i < 4
        invariant
            i <= 4,
            cs@.len() == 4,
            cs@ == s@,
            w@ == more_word(),
            forall|k: int| 0 <= k < i ==> same_ignoring_case(#[trigger] cs@[k], w@[k]),
        decreases 4 - i,
    {
        let a = cs[i];
        let b = w[i];
        let same = a == b || ('A' <= a && a <= 'Z' && a as u32 + 32 == b as u32) || ('A' <= b
            && b <= 'Z' && b as u32 + 32 == a as u32);
        if !same {
            return false;
        }
        i = i + 1;
    }
    true
}

/// The character index of the summary marker `<!-- more -->` in `body`, if it has one.
pub fn find_more_marker(body: &str) -> (r: Option<usize>)
    ensures
        match r {
            Some(i) => more_marker(body@) == Some(i as int) && i <= body@.len(),
            None => more_marker(body@) is None,
        },
{
    let cs = chars_of(body);
    let len = cs.len();
    let open = chars_of("<!--");
    let close = chars_of("-->");
    proof {
        reveal_strlit("<!--");
        reveal_strlit("-->");
    }
    assert(open@ =~= comment_open());
    assert(close@ =~= comment_close());
    let mut i: usize = 0;
    while i <= len
        invariant
            i <= len + 1,
            len == cs@.len(),
            cs@ == body@,
            open@ == comment_open(),
            close@ == comment_close(),
            more_marker(body@) == more_from(body@, i as int),
        decreases len + 1 - i,
    {
        proof { lemma_find_from(cs@, comment_open(), i as int); }
        match find(&cs, &open, i) {
            None => {
                return None;
            },
            Some(st) => {
                match find(&cs, &close, st + 4) {
                    None => {
                        return None;
                    },
                    Some(e) => {
                        proof { lemma_find_from(cs@, comment_close(), st + 4); }
                        let inner = slice(body, st + 4, e);
                        let t = trimmed(inner.as_str());
                        if is_more(t.as_str()) {
                            return Some(st);
                        }
                        i = st + 1;
                    },
                }
            },
        }
    }
    proof {
        assert(find_from(cs@, comment_open(), i as int) is None);
    }
    None
}

/// Markdown as HTML, with no rewriting.
pub fn plain_markdown(input: &str) -> (r: String)
    ensures
        r@ == markdown_html(input@),
{
    markdown_to_html(input)
}

/// The template filter that turns markdown into HTML, with no rewriting.
pub struct Markdown {}

impl Markdown {
    pub fn filter(&self, input: &str) -> (r: String)
        ensures
            r@ == markdown_html(input@),
    {
        plain_markdown(input)
    }
}

} // verus!
