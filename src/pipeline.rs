use vstd::prelude::*;

use crate::error::Error;
use crate::links::url_joined;
use crate::paths::{
    eq_chars, ext, file_name, has_ext, name_start, not_dot, not_slash, output_path,
    permalink_path, raw_output_path, scan_back, slug, strip_ext,
};
use crate::render::{
    find_more_marker, more_marker, render_content, rendered_from, Highlighter, PartialPage,
};
use crate::site::{tagged_in, Date, Page, Site};
use crate::splice::ranges_spec;
use crate::taxonomy::Config;
use crate::text::{chars_of, lemma_rscan, lemma_rscan_all, lemma_rscan_shift, slice};

verus! {

/// The metadata of a content file, as its frontmatter gives it.
pub struct FrontMatter {
    pub title: Option<String>,
    pub date: Option<Date>,
    pub template: Option<String>,
    pub description: Option<String>,
    /// Taxonomy name to terms.
    pub taxonomies: Vec<(String, Vec<String>)>,
}

/// What to do with a file under the content root.
#[derive(Clone, Copy, Debug, PartialEq, Eq, Structural)]
pub enum SourceKind {
    /// An image: copied to the output unchanged.
    Asset,
    /// A file whose name starts with `_`: never a page of its own.
    Partial,
    /// A content file: compiled into a page.
    Page,
}

/// Whether `e` is the extension of an image format.
pub open spec fn is_asset_ext(e: Seq<char>) -> bool {
    ||| e == seq!['p', 'n', 'g']
    ||| e == seq!['w', 'e', 'b', 'p']
    ||| e == seq!['j', 'p', 'g']
    ||| e == seq!['j', 'p', 'e', 'g']
    ||| e == seq!['g', 'i', 'f']
}

pub open spec fn source_kind(rel: Seq<char>) -> SourceKind {
    if has_ext(rel) && is_asset_ext(ext(rel)) {
        SourceKind::Asset
    } else if file_name(rel).len() > 0 && file_name(rel)[0] == '_' {
        SourceKind::Partial
    } else {
        SourceKind::Page
    }
}

/// Sorts a file under the content root, at `rel_path`, into asset, partial or page.
pub fn classify_source(rel_path: &str) -> (r: SourceKind)
    ensures
        r == source_kind(rel_path@),
{
    let cs = chars_of(rel_path);
    proof { lemma_rscan(cs@, 0, cs@.len() as int, not_slash()); }
    let n = scan_back(&cs, 0, cs.len(), '/');
    proof { lemma_rscan(cs@, n as int, cs@.len() as int, not_dot()); }
    let d = scan_back(&cs, n, cs.len(), '.');
    if d > n && d - n > 1 {
        let len = cs.len();
        proof {
            reveal_strlit("png");
            reveal_strlit("webp");
            reveal_strlit("jpg");
            reveal_strlit("jpeg");
            reveal_strlit("gif");
        }
        assert(("png")@ =~= seq!['p', 'n', 'g']);
        assert(("webp")@ =~= seq!['w', 'e', 'b', 'p']);
        assert(("jpg")@ =~= seq!['j', 'p', 'g']);
        assert(("jpeg")@ =~= seq!['j', 'p', 'e', 'g']);
        assert(("gif")@ =~= seq!['g', 'i', 'f']);
        if eq_chars(&cs, d, len, "png") || eq_chars(&cs, d, len, "webp") || eq_chars(
            &cs,
            d,
            len,
            "jpg",
        ) || eq_chars(&cs, d, len, "jpeg") || eq_chars(&cs, d, len, "gif") {
            return SourceKind::Asset;
        }
    }
    if n < cs.len() && cs[n] == '_' {
        SourceKind::Partial
    } else {
        SourceKind::Page
    }
}

/// The name of the file at `rel` without its extension.
pub open spec fn stem(rel: Seq<char>) -> Seq<char> {
    strip_ext(file_name(rel))
}

pub open spec fn digits() -> Seq<char> {
    seq!['0', '1', '2', '3', '4', '5', '6', '7', '8', '9']
}

/// `n` in decimal, padded with zeros on the left to at least `width` digits.
pub open spec fn decimal(n: nat, width: nat) -> Seq<char>
    decreases n, width,
{
    if n < 10 && width <= 1 {
        seq![digits()[n as int]]
    } else {
        decimal(n / 10, if width > 0 { (width - 1) as nat } else { 0 }).push(digits()[(n % 10) as int])
    }
}

/// A date written `YYYY-MM-DD`.
pub open spec fn date_string(d: Date) -> Seq<char> {
    decimal(d.year as nat, 4) + seq!['-'] + decimal(d.month as nat, 2) + seq!['-'] + decimal(
        d.day as nat,
        2,
    )
}

fn digit(n: u32) -> (c: char)
    requires
        n < 10,
    ensures
        c == digits()[n as int],
{
    let d = ['0', '1', '2', '3', '4', '5', '6', '7', '8', '9'];
    assert(d@ =~= digits());
    d[n as usize]
}

fn push_decimal(out: &mut String, n: u32, width: u32)
    ensures
        final(out)@ == old(out)@ + decimal(n as nat, width as nat),
    decreases n, width,
{
    if n < 10 && width <= 1 {
        out.push(digit(n));
    } else {
        let w = if width > 0 { width - 1 } else { 0 };
        push_decimal(out, n / 10, w);
        out.push(digit(n % 10));
    }
}

/// The text of a date, `YYYY-MM-DD`.
pub fn date_text(d: Date) -> (r: String)
    ensures
        r@ == date_string(d),
{
    let mut out = String::new();
    push_decimal(&mut out, d.year as u32, 4);
    out.push('-');
    push_decimal(&mut out, d.month as u32, 2);
    out.push('-');
    push_decimal(&mut out, d.day as u32, 2);
    out
}

pub open spec fn page_html() -> Seq<char> {
    seq!['p', 'a', 'g', 'e', '.', 'h', 't', 'm', 'l']
}

/// The template that renders a page: the frontmatter's, or `page.html`.
pub open spec fn template_of(fm: FrontMatter) -> Seq<char> {
    match fm.template {
        Some(t) => t@,
        None => page_html(),
    }
}

fn file_stem(rel_path: &str) -> (r: String)
    ensures
        r@ == stem(rel_path@),
{
    let cs = chars_of(rel_path);
    proof { lemma_rscan(cs@, 0, cs@.len() as int, not_slash()); }
    let n = scan_back(&cs, 0, cs.len(), '/');
    proof { lemma_rscan(cs@, n as int, cs@.len() as int, not_dot()); }
    let d = scan_back(&cs, n, cs.len(), '.');
    let end = if d > n && d - n > 1 { d - 1 } else { cs.len() };
    let ghost name = file_name(cs@);
    proof {
        let len = cs@.len() as int;
        assert(name == cs@.subrange(n as int, len));
        lemma_rscan_all(name, 0, name.len() as int, not_slash());
        assert(name_start(name) == 0);
        lemma_rscan_shift(cs@, n as int, len, not_dot());
        assert(name.subrange(0, name.len() as int) =~= name);
        if d > n && d - n > 1 {
            assert(name.subrange(0, d - 1 - n) =~= cs@.subrange(n as int, d - 1));
        }
    }
    slice(rel_path, n, end)
}

/// Compiles one content file, at `rel_path` under the content root, with its parsed frontmatter
/// and its body, into a page. Where the body holds the summary marker, what comes before it is
/// rendered once more on its own as the page's summary.
pub fn compile_page(
    config: &Config,
    rel_path: &str,
    frontmatter: FrontMatter,
    body: &str,
    tera: &tera::Tera,
    highlighter: &Highlighter,
) -> (r: Result<Page, Error>)
    ensures
        r matches Ok(p) ==> {
            &&& p.template_name@ == template_of(frontmatter)
            &&& p.name@ == slug(raw_output_path(rel_path@, template_of(frontmatter)))
            &&& p.output_path@ == p.name@
            &&& url_joined(config.base_url@, permalink_path(p.name@)) == Some(p.permalink@)
            &&& p.title@ == match frontmatter.title {
                Some(t) => t@,
                None => stem(rel_path@),
            }
            &&& p.description@ == match frontmatter.description {
                Some(t) => t@,
                None => Seq::<char>::empty(),
            }
            &&& p.date == frontmatter.date
            &&& p.taxonomy is None
            &&& p.taxonomies@ == frontmatter.taxonomies@
            &&& (p.summary is Some <==> more_marker(body@) is Some)
            &&& rendered_from(body@, p.content@)
            &&& (p.summary matches Some(x) ==> rendered_from(
                body@.subrange(0, more_marker(body@)->0),
                x@,
            ))
        },
        ranges_spec(body@, 0) is None ==> r is Err,
        url_joined(
            config.base_url@,
            permalink_path(slug(raw_output_path(rel_path@, template_of(frontmatter)))),
        ) is None ==> r matches Err(Error::InvalidUrl),
{
    let ghost fm = frontmatter;
    let template_name = match frontmatter.template {
        Some(t) => t,
        None => {
            proof { reveal_strlit("page.html"); }
            assert(("page.html")@ =~= page_html());
            "page.html".to_owned()
        },
    };
    let path = output_path(rel_path, template_name.as_str());
    let permalink = match config.make_permalink(path.as_str()) {
        Ok(p) => p,
        Err(e) => {
            return Err(e);
        },
    };
    let title = match frontmatter.title {
        Some(t) => t,
        None => file_stem(rel_path),
    };
    let date_str = match frontmatter.date {
        Some(d) => Some(date_text(d)),
        None => None,
    };
    let description = match frontmatter.description {
        Some(d) => d,
        None => String::new(),
    };
    let partial = PartialPage { title, description, date: date_str, permalink };
    let summary = match find_more_marker(body) {
        Some(i) => {
            let head = slice(body, 0, i);
            match render_content(head.as_str(), &partial, tera, highlighter) {
                Ok(s) => Some(s),
                Err(e) => {
                    return Err(e);
                },
            }
        },
        None => None,
    };
    let content = match render_content(body, &partial, tera, highlighter) {
        Ok(c) => c,
        Err(e) => {
            return Err(e);
        },
    };
    Ok(build_page(path, template_name, partial, frontmatter.date, frontmatter.taxonomies, content, summary))
}

/// The page of a content file, from its output path, template, page variables, date, terms,
/// and rendered content and summary.
pub fn build_page(
    path: String,
    template_name: String,
    partial: PartialPage,
    date: Option<Date>,
    taxonomies: Vec<(String, Vec<String>)>,
    content: String,
    summary: Option<String>,
) -> (r: Page)
    ensures
        r.name@ == path@,
        r.output_path@ == path@,
        r.template_name == template_name,
        r.taxonomy is None,
        r.title == partial.title,
        r.description == partial.description,
        r.date == date,
        r.permalink == partial.permalink,
        r.content == content,
        r.summary == summary,
        r.taxonomies == taxonomies,
{
    Page {
        name: path.clone(),
        output_path: path,
        template_name,
        taxonomy: None,
        title: partial.title,
        description: partial.description,
        date,
        permalink: partial.permalink,
        content,
        summary,
        taxonomies,
    }
}

/// The pages that the page at `i` lists when it is rendered: for a term page, the pages of
/// `order` that carry its term; for any other page, all of `order`.
pub fn listing_for(site: &Site, order: &Vec<usize>, i: usize) -> (r: Vec<usize>)
    requires
        i < site.pages@.len(),
    ensures
        match site.pages@[i as int].taxonomy {
            Some((t, x)) => r@ == tagged_in(site.pages@, order@, t@, x@),
            None => r@ == order@,
        },
{
    match &site.pages[i].taxonomy {
        Some((t, x)) => crate::site::pages_tagged(site, order, t.as_str(), x.as_str()),
        None => {
            let mut v: Vec<usize> = Vec::new();
            let mut k: usize = 0;
            while k < order.len()
                invariant
                    k <= order@.len(),
                    v@ == order@.subrange(0, k as int),
                decreases order@.len() - k,
            {
                v.push(order[k]);
                assert(order@.subrange(0, k + 1) =~= order@.subrange(0, k as int).push(order@[k as int]));
                k = k + 1;
            }
            assert(order@.subrange(0, k as int) =~= order@);
            v
        },
    }
}

} // verus!
