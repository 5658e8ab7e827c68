use vstd::prelude::*;

use crate::error::Error;
use crate::links::{joined_or_error, permalink, result_view, url_joined};
use crate::paths::{output_path, permalink_path, push_str_chars, raw_output_path, slug};
use crate::site::{
    distinct_pairs, inserted, names_of, pair_set, pair_views, term_pairs, Page, Site, Taxonomy,
};

verus! {

/// The site-wide settings that page construction reads.
pub struct Config {
    pub title: String,
    /// The serialization of the site's base URL.
    pub base_url: String,
    pub taxonomies: Vec<Taxonomy>,
}

impl Config {
    /// The permalink of the page at output path `path`.
    pub fn make_permalink(&self, path: &str) -> (r: Result<String, Error>)
        ensures
            result_view(r) == joined_or_error(url_joined(self.base_url@, permalink_path(path@))),
    {
        permalink(self.base_url.as_str(), path)
    }
}

pub open spec fn single_html() -> Seq<char> {
    seq!['/', 's', 'i', 'n', 'g', 'l', 'e', '.', 'h', 't', 'm', 'l']
}

/// The template of the term pages of taxonomy `tax`: `<tax>/single.html`.
pub open spec fn term_template(tax: Seq<char>) -> Seq<char> {
    tax + single_html()
}

/// The key and output path of the page of `term` in `tax`, derived from the path `<tax>/<term>`.
pub open spec fn term_key(tax: Seq<char>, term: Seq<char>) -> Seq<char> {
    slug(raw_output_path(tax + seq!['/'] + term, term_template(tax)))
}

/// Whether `p` is the synthesized page of `term` in `tax` on the site at `base`.
pub open spec fn is_term_page(p: Page, tax: Seq<char>, term: Seq<char>, base: Seq<char>) -> bool {
    &&& p.name@ == term_key(tax, term)
    &&& p.output_path@ == term_key(tax, term)
    &&& p.template_name@ == term_template(tax)
    &&& p.title@ == term
    &&& match p.taxonomy {
        Some((a, b)) => a@ == tax && b@ == term,
        None => false,
    }
    &&& p.description@.len() == 0
    &&& p.content@.len() == 0
    &&& p.date is None
    &&& p.summary is None
    &&& p.taxonomies@.len() == 0
    &&& url_joined(base, permalink_path(term_key(tax, term))) == Some(p.permalink@)
}

/// `pages` with each of `ps` put under its name, in turn.
pub open spec fn inserted_all(pages: Seq<Page>, ps: Seq<Page>) -> Seq<Page>
    decreases ps.len(),
{
    if ps.len() == 0 {
        pages
    } else {
        inserted(inserted_all(pages, ps.drop_last()), ps.last())
    }
}

/// The page of `term` in taxonomy `tax`, with an empty body.
pub fn term_page(config: &Config, tax: &String, term: &String) -> (r: Result<Page, Error>)
    ensures
        r matches Ok(p) ==> is_term_page(p, tax@, term@, config.base_url@),
        r is Err <==> url_joined(config.base_url@, permalink_path(term_key(tax@, term@))) is None,
        r matches Err(e) ==> e == Error::InvalidUrl,
{
    let mut template_name = String::new();
    push_str_chars(&mut template_name, tax.as_str());
    push_str_chars(&mut template_name, "/single.html");
    proof { reveal_strlit("/single.html"); }
    assert(("/single.html")@ =~= single_html());
    let mut source = String::new();
    push_str_chars(&mut source, tax.as_str());
    source.push('/');
    push_str_chars(&mut source, term.as_str());
    assert(source@ =~= tax@ + seq!['/'] + term@);
    let path = output_path(source.as_str(), template_name.as_str());
    let link = config.make_permalink(path.as_str());
    match link {
        Err(e) => Err(e),
        Ok(permalink) => Ok(
            Page {
                name: path.clone(),
                output_path: path,
                template_name,
                taxonomy: Some((tax.clone(), term.clone())),
                title: term.clone(),
                description: String::new(),
                date: None,
                permalink,
                content: String::new(),
                summary: None,
                taxonomies: Vec::new(),
            },
        ),
    }
}

/// Synthesizes one page per distinct (taxonomy, term) pair that the pages list under a
/// configured taxonomy, and puts each into the site under its key, replacing what stood there.
/// Gives the pairs in the order their pages went in.
pub fn build_taxonomy_pages(site: &mut Site, config: &Config) -> (r: Result<
    Vec<(String, String)>,
    Error,
>)
    requires
        old(site).wf(),
    ensures
        final(site).wf(),
        r matches Ok(pairs) ==> {
            &&& distinct_pairs(pair_views(pairs@))
            &&& pair_views(pairs@).to_set() == pair_set(
                old(site).pages@,
                names_of(config.taxonomies@),
            )
            &&& exists|ps: Seq<Page>|
                {
                    &&& ps.len() == pairs@.len()
                    &&& forall|k: int|
                        0 <= k < ps.len() ==> is_term_page(
                            #[trigger] ps[k],
                            pairs@[k].0@,
                            pairs@[k].1@,
                            config.base_url@,
                        )
                    &&& final(site).pages@ == inserted_all(old(site).pages@, ps)
                }
        },
        r matches Err(e) ==> e == Error::InvalidUrl,
        r is Ok <==> forall|x: (Seq<char>, Seq<char>)|
            #[trigger] pair_set(old(site).pages@, names_of(config.taxonomies@)).contains(x)
                ==> url_joined(config.base_url@, permalink_path(term_key(x.0, x.1))) is Some,
{
    let ghost all = pair_set(site.pages@, names_of(config.taxonomies@));
    let pairs = term_pairs(site, &config.taxonomies);
    let ghost start = site.pages@;
    let ghost mut ps: Seq<Page> = seq![];
    let mut k: usize = 0;
    while k < pairs.len()
        invariant
            k <= pairs@.len(),
            site.wf(),
            pair_views(pairs@).to_set() == all,
            all == pair_set(old(site).pages@, names_of(config.taxonomies@)),
            ps.len() == k,
            forall|m: int|
                0 <= m < k ==> is_term_page(
                    #[trigger] ps[m],
                    pairs@[m].0@,
                    pairs@[m].1@,
                    config.base_url@,
                ),
            site.pages@ == inserted_all(start, ps),
        decreases pairs@.len() - k,
    {
        match term_page(config, &pairs[k].0, &pairs[k].1) {
            Err(e) => {
                proof {
                    let x = pair_views(pairs@)[k as int];
                    assert(pair_views(pairs@).to_set().contains(x));
                    assert(all.contains(x));
                    assert(url_joined(config.base_url@, permalink_path(term_key(x.0, x.1))) is None);
                }
                return Err(e);
            },
            Ok(page) => {
                proof {
                    let ghost prev = ps;
                    ps = ps.push(page);
                    assert(ps.drop_last() =~= prev);
                }
                site.insert(page);
            },
        }
        k = k + 1;
    }
    assert forall|x: (Seq<char>, Seq<char>)| #[trigger] all.contains(x) implies url_joined(
        config.base_url@,
        permalink_path(term_key(x.0, x.1)),
    ) is Some by {
        assert(pair_views(pairs@).to_set().contains(x));
        let m = choose|m: int| 0 <= m < pair_views(pairs@).len() && pair_views(pairs@)[m] == x;
        assert(is_term_page(ps[m], pairs@[m].0@, pairs@[m].1@, config.base_url@));
    }
    assert(forall|m: int|
        0 <= m < ps.len() ==> is_term_page(
            #[trigger] ps[m],
            pairs@[m].0@,
            pairs@[m].1@,
            config.base_url@,
        ));
    Ok(pairs)
}

} // verus!
