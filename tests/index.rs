use ministatic::site::{dated_pages, pages_tagged, section_pages, term_pairs, Date, Page, Site, Taxonomy};
use ministatic::taxonomy::{build_taxonomy_pages, term_page, Config};

fn page(name: &str, date: Option<(u16, u8, u8)>, tags: &[&str]) -> Page {
    Page {
        name: name.to_string(),
        output_path: name.to_string(),
        template_name: "page.html".to_string(),
        taxonomy: None,
        title: name.to_string(),
        description: String::new(),
        date: date.map(|(year, month, day)| Date { year, month, day }),
        permalink: format!("https://example.org/{}", name),
        content: String::new(),
        summary: None,
        taxonomies: if tags.is_empty() {
            vec![]
        } else {
            vec![("tags".to_string(), tags.iter().map(|t| t.to_string()).collect())]
        },
    }
}

fn config() -> Config {
    Config {
        title: "Site".to_string(),
        base_url: "https://example.org/".to_string(),
        taxonomies: vec![Taxonomy { name: "tags".to_string() }],
    }
}

fn site_of(pages: Vec<Page>) -> Site {
    let mut site = Site::new();
    for p in pages {
        site.insert(p);
    }
    site
}

#[test]
fn insert_replaces_page_of_same_name() {
    let mut site = Site::new();
    site.insert(page("a/index.html", None, &[]));
    site.insert(page("b/index.html", None, &[]));
    let mut replacement = page("a/index.html", None, &[]);
    replacement.title = "new".to_string();
    site.insert(replacement);
    assert_eq!(site.pages.len(), 2);
    let i = site.position("a/index.html").unwrap();
    assert_eq!(site.pages[i].title, "new");
    assert_eq!(site.position("c"), None);
}

#[test]
fn term_pairs_are_distinct_and_configured_only() {
    let mut p = page("x", None, &["rust", "web", "rust"]);
    p.taxonomies.push(("cats".to_string(), vec!["c".to_string()]));
    let site = site_of(vec![p, page("y", None, &["rust"])]);
    let mut pairs = term_pairs(&site, &config().taxonomies);
    pairs.sort();
    assert_eq!(
        pairs,
        vec![("tags".to_string(), "rust".to_string()), ("tags".to_string(), "web".to_string())]
    );
}

#[test]
fn term_pairs_ignore_page_order() {
    let a = vec![page("x", None, &["b", "a"]), page("y", None, &["c", "a"])];
    let b = vec![page("y", None, &["c", "a"]), page("x", None, &["b", "a"])];
    let mut pa = term_pairs(&site_of(a), &config().taxonomies);
    let mut pb = term_pairs(&site_of(b), &config().taxonomies);
    pa.sort();
    pb.sort();
    assert_eq!(pa, pb);
    assert_eq!(pa.len(), 3);
}

#[test]
fn one_term_page_for_two_tagged_pages() {
    let mut site = site_of(vec![
        page("one/index.html", Some((2024, 1, 2)), &["rust"]),
        page("two/index.html", Some((2024, 3, 1)), &["rust"]),
    ]);
    let pairs = build_taxonomy_pages(&mut site, &config()).unwrap();
    assert_eq!(pairs, vec![("tags".to_string(), "rust".to_string())]);
    assert_eq!(site.pages.len(), 3);
    let i = site.position("tags/rust/index.html").unwrap();
    let t = &site.pages[i];
    assert_eq!(t.template_name, "tags/single.html");
    assert_eq!(t.title, "rust");
    assert_eq!(t.taxonomy, Some(("tags".to_string(), "rust".to_string())));
    assert_eq!(t.permalink, "https://example.org/tags/rust/");
    assert_eq!(t.content, "");
    let dated = dated_pages(&site);
    let listed = pages_tagged(&site, &dated, "tags", "rust");
    let names: Vec<&str> = listed.iter().map(|&k| site.pages[k].name.as_str()).collect();
    assert_eq!(names, vec!["two/index.html", "one/index.html"]);
}

#[test]
fn term_page_fields() {
    let p = term_page(&config(), &"tags".to_string(), &"web dev".to_string()).unwrap();
    assert_eq!(p.name, "tags/web-dev/index.html");
    assert_eq!(p.output_path, "tags/web-dev/index.html");
    assert_eq!(p.permalink, "https://example.org/tags/web-dev/");
    assert!(p.date.is_none() && p.summary.is_none() && p.description.is_empty());
}

#[test]
fn dated_pages_newest_first_without_undated() {
    let site = site_of(vec![
        page("a", Some((2023, 5, 1)), &[]),
        page("b", None, &[]),
        page("c", Some((2024, 1, 1)), &[]),
        page("d", Some((2023, 12, 31)), &[]),
    ]);
    let order: Vec<&str> = dated_pages(&site).iter().map(|&k| site.pages[k].name.as_str()).collect();
    assert_eq!(order, vec!["c", "d", "a"]);
}

#[test]
fn section_lists_pages_under_parent_directory() {
    let site = site_of(vec![
        page("blog/a/index.html", Some((2020, 1, 1)), &[]),
        page("blog/b/index.html", None, &[]),
        page("blog/c/index.html", Some((2021, 1, 1)), &[]),
        page("about/index.html", Some((2022, 1, 1)), &[]),
    ]);
    let names: Vec<&str> =
        section_pages(&site, "blog/index.html").iter().map(|&k| site.pages[k].name.as_str()).collect();
    assert_eq!(names, vec!["blog/c/index.html", "blog/a/index.html", "blog/b/index.html"]);
    let s = site.section("blog/index.html");
    assert_eq!(s.pages.len(), 3);
}

#[test]
fn section_parent_follows_path_pop() {
    let site = site_of(vec![
        page("blog/a/index.html", Some((2020, 1, 1)), &[]),
        page("blogroll/index.html", Some((2021, 1, 1)), &[]),
        page("/x/index.html", None, &[]),
    ]);
    // a trailing slash is dropped before popping: `blog/a/` pops to `blog`
    assert_eq!(section_pages(&site, "blog/a/").len(), 2);
    // `/x` pops to the root `/`
    let names: Vec<&str> =
        section_pages(&site, "/x").iter().map(|&k| site.pages[k].name.as_str()).collect();
    assert_eq!(names, vec!["/x/index.html"]);
}
