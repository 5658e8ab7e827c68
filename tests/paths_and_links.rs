use ministatic::error::Error;
use ministatic::links::{choose_image_url, get_url, resolve_image_url, taxonomy_url};
use ministatic::paths::{output_path, permalink_path_of, slugify};
use ministatic::site::Taxonomy;
use ministatic::taxonomy::Config;

fn config() -> Config {
    Config {
        title: "Site".to_string(),
        base_url: "https://example.org/".to_string(),
        taxonomies: vec![Taxonomy { name: "tags".to_string() }],
    }
}

#[test]
fn slugify_replaces_spaces() {
    assert_eq!(slugify("a b  c"), "a-b--c");
    assert_eq!(slugify("plain"), "plain");
    assert_eq!(slugify(""), "");
}

#[test]
fn output_path_html_templates() {
    assert_eq!(output_path("blog/post.md", "page.html"), "blog/post/index.html");
    assert_eq!(output_path("blog/index.md", "page.html"), "blog/index.html");
    assert_eq!(output_path("index.md", "page.html"), "index.html");
    assert_eq!(output_path("my post.md", "page.html"), "my-post/index.html");
    assert_eq!(output_path("tags/rust", "tags/single.html"), "tags/rust/index.html");
}

#[test]
fn output_path_other_templates() {
    assert_eq!(output_path("feed.md", "feed.xml"), "feed.xml");
    assert_eq!(output_path("blog/a.tar.gz", "x.txt"), "blog/a.tar.txt");
    assert_eq!(output_path("blog/post.md", "plain"), "blog/post");
    assert_eq!(output_path("blog/.hidden", "page.html"), "blog/.hidden/index.html");
}

#[test]
fn permalink_path_drops_index_html() {
    assert_eq!(permalink_path_of("blog/post/index.html"), "blog/post/");
    assert_eq!(permalink_path_of("index.html"), "");
    assert_eq!(permalink_path_of("feed.xml"), "feed.xml");
}

#[test]
fn make_permalink_joins_base() {
    let c = config();
    assert_eq!(c.make_permalink("blog/post/index.html").unwrap(), "https://example.org/blog/post/");
    assert_eq!(c.make_permalink("index.html").unwrap(), "https://example.org/");
    let bad = Config { title: String::new(), base_url: "not a url".to_string(), taxonomies: vec![] };
    assert!(matches!(bad.make_permalink("x.html"), Err(Error::InvalidUrl)));
}

#[test]
fn image_absolute_url_is_kept() {
    let r = resolve_image_url("https://cdn.example.com/a.png", "https://example.org/blog/post/").unwrap();
    assert_eq!(r, "https://cdn.example.com/a.png");
}

#[test]
fn image_relative_url_is_resolved() {
    let r = resolve_image_url("cat.png", "https://example.org/blog/post/").unwrap();
    assert_eq!(r, "https://example.org/blog/post/cat.png");
    let r = resolve_image_url("/img/cat.png", "https://example.org/blog/post/").unwrap();
    assert_eq!(r, "https://example.org/img/cat.png");
}

#[test]
fn choose_image_url_cases() {
    assert_eq!(choose_image_url("a".to_string(), true, None).unwrap(), "a");
    assert_eq!(choose_image_url("a".to_string(), false, Some("http://x/a".to_string())).unwrap(), "http://x/a");
    assert!(matches!(choose_image_url("a".to_string(), false, None), Err(Error::InvalidUrl)));
}

#[test]
fn get_url_trims_and_joins() {
    assert_eq!(get_url("https://example.org/", "  about/ ").unwrap(), "https://example.org/about/");
}

#[test]
fn taxonomy_url_known_and_unknown() {
    let c = config();
    assert_eq!(
        taxonomy_url(&c.base_url, &c.taxonomies, "tags", "rust lang").unwrap(),
        "https://example.org/tags/rust-lang"
    );
    match taxonomy_url(&c.base_url, &c.taxonomies, "cats", "x") {
        Err(Error::UnknownTaxonomy(k)) => assert_eq!(k, "cats"),
        _ => panic!("expected an unknown taxonomy"),
    }
}
