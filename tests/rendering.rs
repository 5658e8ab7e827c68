use ministatic::error::Error;
use ministatic::pipeline::{classify_source, compile_page, date_text, listing_for, FrontMatter, SourceKind};
use ministatic::render::{
    choose_syntax, code_block_step, find_shortcode_template, plain_markdown, render_content,
    render_markdown, render_shortcode, render_with_names, template_outcome, CodeBlock, Highlighter,
    Markdown, MdEvent, PartialPage, Step,
};
use ministatic::shortcode::parse_shortcode;
use ministatic::site::{dated_pages, Date, Site, Taxonomy};
use ministatic::taxonomy::{build_taxonomy_pages, Config};
use syntect::highlighting::ThemeSet;
use syntect::parsing::SyntaxSet;

fn highlighter() -> Highlighter {
    Highlighter::new(SyntaxSet::load_defaults_newlines(), ThemeSet::load_defaults())
}

fn engine() -> tera::Tera {
    let mut t = tera::Tera::default();
    t.add_raw_template("shortcodes/note.html", "<em>{{text}}</em>").unwrap();
    t.add_raw_template("shortcodes/title.html", "[{{ page.title }}|{{ page.permalink | safe }}]").unwrap();
    t
}

fn partial() -> PartialPage {
    PartialPage {
        title: "T".to_string(),
        description: String::new(),
        date: None,
        permalink: "https://example.org/blog/post/".to_string(),
    }
}

fn config() -> Config {
    Config {
        title: "Site".to_string(),
        base_url: "https://example.org/".to_string(),
        taxonomies: vec![Taxonomy { name: "tags".to_string() }],
    }
}

fn frontmatter() -> FrontMatter {
    FrontMatter { title: None, date: None, template: None, description: None, taxonomies: vec![] }
}

#[test]
fn highlight_known_language() {
    let h = highlighter().highlight("python", "print(1)\n").unwrap();
    assert!(h.contains("<pre"));
    assert!(h.contains("print"));
}

#[test]
fn highlight_unknown_language_falls_back_to_plain_text() {
    let h = highlighter().highlight("foobar123", "some text\n").unwrap();
    assert!(h.contains("<pre"));
    assert!(h.contains("some text"));
}

#[test]
fn markdown_code_block_goes_through_highlighter() {
    let html = render_markdown("```python\nx = 1\n```\n", &partial(), &highlighter()).unwrap();
    assert!(html.contains("<pre style="));
    assert!(!html.contains("<code"));
}

#[test]
fn markdown_relative_image_made_absolute() {
    let html = render_markdown("![cat](cat.png)", &partial(), &highlighter()).unwrap();
    assert!(html.contains("src=\"https://example.org/blog/post/cat.png\""));
    let html = render_markdown("![cat](https://cdn.example.com/c.png)", &partial(), &highlighter()).unwrap();
    assert!(html.contains("src=\"https://cdn.example.com/c.png\""));
}

#[test]
fn code_block_step_sequence() {
    let mut s = CodeBlock { open: false, lang: String::new(), code: String::new() };
    assert!(matches!(code_block_step(&mut s, &MdEvent::Text { text: "a".to_string() }), Step::Pass));
    assert!(matches!(code_block_step(&mut s, &MdEvent::CodeStart { lang: Some("rust".to_string()) }), Step::Hold));
    assert!(matches!(code_block_step(&mut s, &MdEvent::Text { text: "x".to_string() }), Step::Hold));
    assert!(matches!(code_block_step(&mut s, &MdEvent::Text { text: "y".to_string() }), Step::Hold));
    match code_block_step(&mut s, &MdEvent::CodeEnd) {
        Step::Highlight { lang, code } => {
            assert_eq!(lang, "rust");
            assert_eq!(code, "xy");
        }
        _ => panic!("expected a highlight"),
    }
    assert!(!s.open);
    assert!(matches!(code_block_step(&mut s, &MdEvent::CodeEnd), Step::Pass));
    assert!(matches!(code_block_step(&mut s, &MdEvent::Other), Step::Pass));
}

#[test]
fn template_lookup_by_base_name() {
    let names = vec![
        "page.html".to_string(),
        "shortcodes/notes.html".to_string(),
        "shortcodes/note.html".to_string(),
        "shortcodes/note.txt".to_string(),
    ];
    assert_eq!(find_shortcode_template(&names, "note"), Some(2));
    assert_eq!(find_shortcode_template(&names, "page"), None);
    assert_eq!(find_shortcode_template(&names, "Note"), None);
}

#[test]
fn shortcode_renders_arguments() {
    let out = render_shortcode("{{ note(text=\"hi\") }}", &partial(), &engine()).unwrap();
    assert_eq!(out, "<em>hi</em>");
    let out = render_shortcode("{{ title() }}", &partial(), &engine()).unwrap();
    assert_eq!(out, "[T|https://example.org/blog/post/]");
}

#[test]
fn shortcode_unknown() {
    match render_shortcode("{{ ghost() }}", &partial(), &engine()) {
        Err(Error::UnknownShortCode(n)) => assert_eq!(n, "ghost"),
        _ => panic!("expected an unknown shortcode"),
    }
}

#[test]
fn shortcode_bad_arguments() {
    assert!(matches!(
        render_shortcode("{{ bad(x=\"1\" }}", &partial(), &engine()),
        Err(Error::ShortCodeSyntaxError { .. })
    ));
}

#[test]
fn content_without_shortcodes_is_markdown_alone() {
    let body = "# Title\n\nSome *text*.\n";
    let a = render_content(body, &partial(), &engine(), &highlighter()).unwrap();
    let b = render_markdown(body, &partial(), &highlighter()).unwrap();
    assert_eq!(a, b);
}

#[test]
fn content_keeps_order_of_ranges() {
    let h = highlighter();
    let out = render_content("A {{ note(text=\"hi\") }} B", &partial(), &engine(), &h).unwrap();
    let a = render_markdown("A ", &partial(), &h).unwrap();
    let b = render_markdown(" B", &partial(), &h).unwrap();
    assert_eq!(out, format!("{}<em>hi</em>{}", a, b));
}

#[test]
fn content_unterminated_shortcode() {
    assert!(matches!(
        render_content("x {{ note(", &partial(), &engine(), &highlighter()),
        Err(Error::UnterminatedShortCode)
    ));
}

#[test]
fn compile_page_with_summary_and_shortcode() {
    let h = highlighter();
    let t = engine();
    let body = "A <!-- more --> B {{ note(text=\"hi\") }}";
    let p = compile_page(&config(), "blog/first.md", frontmatter(), body, &t, &h).unwrap();
    assert_eq!(p.name, "blog/first/index.html");
    assert_eq!(p.title, "first");
    assert_eq!(p.template_name, "page.html");
    assert_eq!(p.permalink, "https://example.org/blog/first/");
    let pp = PartialPage {
        title: "first".to_string(),
        description: String::new(),
        date: None,
        permalink: p.permalink.clone(),
    };
    assert_eq!(p.summary.clone().unwrap(), render_markdown("A ", &pp, &h).unwrap());
    let head = render_markdown("A <!-- more --> B ", &pp, &h).unwrap();
    assert_eq!(p.content, format!("{}<em>hi</em>", head));
}

#[test]
fn compile_page_uses_frontmatter() {
    let fm = FrontMatter {
        title: Some("Hello".to_string()),
        date: Some(Date { year: 2024, month: 2, day: 9 }),
        template: Some("feed.xml".to_string()),
        description: Some("d".to_string()),
        taxonomies: vec![("tags".to_string(), vec!["rust".to_string()])],
    };
    let p = compile_page(&config(), "feed.md", fm, "body", &engine(), &highlighter()).unwrap();
    assert_eq!(p.name, "feed.xml");
    assert_eq!(p.title, "Hello");
    assert_eq!(p.description, "d");
    assert!(p.summary.is_none());
    assert_eq!(p.taxonomies.len(), 1);
}

#[test]
fn listing_for_term_and_plain_pages() {
    let h = highlighter();
    let t = engine();
    let mut site = Site::new();
    for (path, day, tag) in [("a.md", 1u8, "rust"), ("b.md", 2u8, "go")] {
        let fm = FrontMatter {
            title: None,
            date: Some(Date { year: 2024, month: 1, day }),
            template: None,
            description: None,
            taxonomies: vec![("tags".to_string(), vec![tag.to_string()])],
        };
        site.insert(compile_page(&config(), path, fm, "x", &t, &h).unwrap());
    }
    build_taxonomy_pages(&mut site, &config()).unwrap();
    let dated = dated_pages(&site);
    let term = site.position("tags/rust/index.html").unwrap();
    let listed = listing_for(&site, &dated, term);
    assert_eq!(listed.len(), 1);
    assert_eq!(site.pages[listed[0]].name, "a/index.html");
    let plain = site.position("b/index.html").unwrap();
    assert_eq!(listing_for(&site, &dated, plain), dated);
}

#[test]
fn date_text_is_zero_padded() {
    assert_eq!(date_text(Date { year: 2024, month: 3, day: 7 }), "2024-03-07");
    assert_eq!(date_text(Date { year: 999, month: 12, day: 31 }), "0999-12-31");
}

#[test]
fn classify_sources() {
    assert_eq!(classify_source("img/cat.png"), SourceKind::Asset);
    assert_eq!(classify_source("a/photo.jpeg"), SourceKind::Asset);
    assert_eq!(classify_source("blog/_partial.md"), SourceKind::Partial);
    assert_eq!(classify_source("_x.gif"), SourceKind::Asset);
    assert_eq!(classify_source("blog/post.md"), SourceKind::Page);
    assert_eq!(classify_source("blog/_dir/post.md"), SourceKind::Page);
}

#[test]
fn markdown_filter_renders_plainly() {
    assert_eq!(Markdown {}.filter("*a*"), "<p><em>a</em></p>\n");
}

#[test]
fn shortcode_template_failure_is_render_error() {
    let mut t = tera::Tera::default();
    t.add_raw_template("shortcodes/broken.html", "{{ missing_value }}").unwrap();
    assert!(matches!(
        render_shortcode("{{ broken() }}", &partial(), &t),
        Err(Error::TemplateRenderError(_))
    ));
}

#[test]
fn highlight_without_theme_is_highlight_error() {
    let h = Highlighter::new(SyntaxSet::load_defaults_newlines(), ThemeSet::new());
    assert!(matches!(h.highlight("rust", "fn main() {}\n"), Err(Error::HighlightError(_))));
    assert!(matches!(
        render_markdown("```rust\nfn main() {}\n```\n", &partial(), &h),
        Err(Error::HighlightError(_))
    ));
}

#[test]
fn taxonomy_build_fails_on_unusable_base_url() {
    let bad = Config { title: String::new(), base_url: "no base".to_string(), taxonomies: config().taxonomies };
    let mut site = Site::new();
    let fm = FrontMatter {
        title: None,
        date: None,
        template: None,
        description: None,
        taxonomies: vec![("tags".to_string(), vec!["x".to_string()])],
    };
    assert!(matches!(
        compile_page(&bad, "a.md", fm, "x", &engine(), &highlighter()),
        Err(Error::InvalidUrl)
    ));
    let mut p = compile_page(&config(), "a.md", frontmatter(), "x", &engine(), &highlighter()).unwrap();
    p.taxonomies = vec![("tags".to_string(), vec!["x".to_string()])];
    site.insert(p);
    assert!(matches!(build_taxonomy_pages(&mut site, &bad), Err(Error::InvalidUrl)));
}

#[test]
fn code_block_without_language_gets_empty_language() {
    let mut s = CodeBlock { open: false, lang: "old".to_string(), code: String::new() };
    code_block_step(&mut s, &MdEvent::CodeStart { lang: None });
    assert!(s.open);
    assert_eq!(s.lang, "");
}

#[test]
fn indented_code_block_is_highlighted() {
    let html = render_markdown("    x = 1\n", &partial(), &highlighter()).unwrap();
    assert!(html.contains("<pre style="));
}

#[test]
fn plain_markdown_equals_markdown_render() {
    let body = "# T\n\n[link](a.html) and *x*\n";
    assert_eq!(render_markdown(body, &partial(), &highlighter()).unwrap(), plain_markdown(body));
    assert_eq!(render_content("", &partial(), &engine(), &highlighter()).unwrap(), "");
}

#[test]
fn render_with_names_unknown_and_known() {
    let sc = parse_shortcode("{{ note(text=\"a\") }}").unwrap();
    let t = engine();
    let none = vec!["page.html".to_string(), "shortcodes/Note.html".to_string()];
    match render_with_names(&none, &sc, &partial(), &t) {
        Err(Error::UnknownShortCode(n)) => assert_eq!(n, "note"),
        _ => panic!("expected an unknown shortcode"),
    }
    let some = vec!["shortcodes/note.html".to_string()];
    assert_eq!(render_with_names(&some, &sc, &partial(), &t).unwrap(), "<em>a</em>");
}

#[test]
fn later_argument_of_same_name_wins() {
    let out = render_shortcode("{{ note(text=\"a\", text=\"b\") }}", &partial(), &engine()).unwrap();
    assert_eq!(out, "<em>b</em>");
}

#[test]
fn template_outcome_maps_errors() {
    assert_eq!(template_outcome(Ok("x".to_string())).unwrap(), "x");
    match template_outcome(Err("boom".to_string())) {
        Err(Error::TemplateRenderError(m)) => assert_eq!(m, "boom"),
        _ => panic!("expected a render error"),
    }
}

#[test]
fn choose_syntax_falls_back_to_plain_text() {
    let set = SyntaxSet::load_defaults_newlines();
    let plain = set.find_syntax_by_name("Plain Text");
    let chosen = choose_syntax(set.find_syntax_by_token("foobar123"), plain).unwrap();
    assert_eq!(chosen.name, "Plain Text");
    let chosen = choose_syntax(set.find_syntax_by_token("py"), plain).unwrap();
    assert_eq!(chosen.name, "Python");
    assert!(choose_syntax(None, None).is_none());
}

#[test]
fn summary_marker_after_another_comment() {
    let h = highlighter();
    let body = "<!-- x --> A <!-- more --> B";
    let p = compile_page(&config(), "c.md", frontmatter(), body, &engine(), &h).unwrap();
    let pp = PartialPage {
        title: "c".to_string(),
        description: String::new(),
        date: None,
        permalink: p.permalink.clone(),
    };
    assert_eq!(p.summary.unwrap(), render_markdown("<!-- x --> A ", &pp, &h).unwrap());
}
