use vstd::prelude::*;

use pulldown_cmark::{CodeBlockKind, Event, Tag};

use crate::render::{kind_view, MdEvent, MdKind};

verus! {

#[verifier::external_type_specification]
#[verifier::external_body]
pub struct ExTera(tera::Tera);

#[verifier::external_type_specification]
#[verifier::external_body]
pub struct ExTeraContext(tera::Context);

#[verifier::external_type_specification]
#[verifier::external_body]
pub struct ExEvent<'a>(pulldown_cmark::Event<'a>);

#[verifier::external_type_specification]
#[verifier::external_body]
pub struct ExSyntaxSet(syntect::parsing::SyntaxSet);

#[verifier::external_type_specification]
#[verifier::external_body]
pub struct ExSyntaxReference(syntect::parsing::SyntaxReference);

#[verifier::external_type_specification]
#[verifier::external_body]
pub struct ExThemeSet(syntect::highlighting::ThemeSet);

#[verifier::external_type_specification]
#[verifier::external_body]
pub struct ExTheme(syntect::highlighting::Theme);

/// Relies on `syntect`'s `SyntaxSet::find_syntax_by_token`: a syntax whose extension or name
/// matches the token, if the set has one.
pub assume_specification<'a>[ syntect::parsing::SyntaxSet::find_syntax_by_token ](
    set: &'a syntect::parsing::SyntaxSet,
    s: &str,
) -> Option<&'a syntect::parsing::SyntaxReference>;

/// Relies on `syntect`'s `SyntaxSet::find_syntax_by_name`: the syntax of that exact name, if the
/// set has one.
pub assume_specification<'a>[ syntect::parsing::SyntaxSet::find_syntax_by_name ](
    set: &'a syntect::parsing::SyntaxSet,
    name: &str,
) -> Option<&'a syntect::parsing::SyntaxReference>;

/// Relies on `syntect`'s `ThemeSet::themes` map: the theme of that name, if loaded.
#[verifier::external_body]
pub(crate) fn theme_named<'a>(set: &'a syntect::highlighting::ThemeSet, name: &str) -> Option<
    &'a syntect::highlighting::Theme,
> {
    set.themes.get(name)
}

/// Relies on `syntect::html::highlighted_html_for_string`: the code as highlighted HTML, or the
/// highlighter's error message.
#[verifier::external_body]
pub(crate) fn highlight_html(
    code: &str,
    set: &syntect::parsing::SyntaxSet,
    syntax: &syntect::parsing::SyntaxReference,
    theme: &syntect::highlighting::Theme,
) -> Result<String, String> {
    syntect::html::highlighted_html_for_string(code, set, syntax, theme).map_err(|e| e.to_string())
}

/// The names of the templates that a tera instance holds.
pub uninterp spec fn template_set(t: tera::Tera) -> Set<Seq<char>>;

/// The kinds of the events that pulldown-cmark's parser gives for a text, in order.
pub uninterp spec fn md_kinds(s: Seq<char>) -> Seq<MdKind>;

/// The HTML that pulldown-cmark writes for a text, parsed and written out unchanged.
pub uninterp spec fn markdown_html(s: Seq<char>) -> Seq<char>;

/// Relies on `tera::Tera::get_template_names`: the names of the loaded templates, each once, in
/// no particular order.
#[verifier::external_body]
pub(crate) fn template_names(t: &tera::Tera) -> (r: Vec<String>)
    ensures
        r@.map_values(|n: String| n@).to_set() == template_set(*t),
{
    t.get_template_names().map(String::from).collect()
}

/// Relies on `tera::Context::new`: an empty context.
pub assume_specification[ tera::Context::new ]() -> tera::Context;

/// Relies on `tera::Context::insert`, with a string value.
#[verifier::external_body]
pub(crate) fn insert_text(ctx: &mut tera::Context, key: &str, value: &str) {
    ctx.insert(key, value);
}

/// Relies on `tera::Context::insert`, with a map from field names to optional strings.
#[verifier::external_body]
pub(crate) fn insert_fields(ctx: &mut tera::Context, key: &str, fields: &Vec<(String, Option<String>)>) {
    let map: std::collections::BTreeMap<&str, Option<&str>> =
        fields.iter().map(|(k, v)| (k.as_str(), v.as_deref())).collect();
    ctx.insert(key, &map);
}

/// Relies on `tera::Tera::render`: the named template rendered with the context, or the
/// engine's error message; a name that the instance does not hold is an error.
#[verifier::external_body]
pub(crate) fn render_template(t: &tera::Tera, name: &str, ctx: &tera::Context) -> (r: Result<
    String,
    String,
>)
    ensures
        !template_set(*t).contains(name@) ==> r is Err,
{
    t.render(name, ctx).map_err(|e| e.to_string())
}

/// Relies on `pulldown_cmark::Parser`: the markdown's events in order, and beside them what
/// kind each is.
#[verifier::external_body]
pub(crate) fn markdown_events<'a>(input: &'a str) -> (r: (Vec<MdEvent>, Vec<Event<'a>>))
    ensures
        r.0@.len() == r.1@.len(),
        r.0@.map_values(|k: MdEvent| kind_view(k)) == md_kinds(input@),
{
    let events: Vec<Event<'a>> = pulldown_cmark::Parser::new(input).collect();
    let kinds = events.iter().map(event_kind).collect();
    (kinds, events)
}

/// Relies on `pulldown_cmark::Parser` and `pulldown_cmark::html::push_html`: the markdown
/// written out as HTML with no change.
#[verifier::external_body]
pub(crate) fn markdown_to_html(input: &str) -> (r: String)
    ensures
        r@ == markdown_html(input@),
{
    let mut out = String::new();
    pulldown_cmark::html::push_html(&mut out, pulldown_cmark::Parser::new(input));
    out
}

/// Tells apart the `pulldown_cmark::Event`s that rendering treats on its own.
#[verifier::external_body]
fn event_kind(e: &Event) -> MdEvent {
    match e {
        Event::Start(Tag::Image(_, dest, _)) => MdEvent::Image { dest: dest.to_string() },
        Event::Start(Tag::CodeBlock(CodeBlockKind::Fenced(l))) => MdEvent::CodeStart { lang: Some(l.to_string()) },
        Event::Start(Tag::CodeBlock(CodeBlockKind::Indented)) => MdEvent::CodeStart { lang: None },
        Event::Text(t) => MdEvent::Text { text: t.to_string() },
        Event::End(Tag::CodeBlock(_)) => MdEvent::CodeEnd,
        _ => MdEvent::Other,
    }
}

/// Relies on `pulldown_cmark::Tag::Image`: the same image start with another destination.
#[verifier::external_body]
pub(crate) fn with_image_dest<'a>(e: Event<'a>, dest: String) -> Event<'a> {
    match e {
        Event::Start(Tag::Image(kind, _, title)) => Event::Start(Tag::Image(kind, dest.into(), title)),
        other => other,
    }
}

/// Relies on `pulldown_cmark::Event::Html`: an event that emits the text as raw HTML.
#[verifier::external_body]
pub(crate) fn html_event<'a>(html: String) -> Event<'a> {
    Event::Html(html.into())
}

/// Relies on `pulldown_cmark::html::push_html`: the events written out as HTML.
#[verifier::external_body]
pub(crate) fn events_to_html(events: Vec<Event>) -> String {
    let mut out = String::new();
    pulldown_cmark::html::push_html(&mut out, events.into_iter());
    out
}

} // verus!
