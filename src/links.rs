use vstd::prelude::*;

use crate::error::Error;
use crate::paths::{permalink_path, permalink_path_of, push_str_chars, slug, slugify};
use crate::site::{names_of, Taxonomy};
use crate::text::{str_eq, trim, trimmed};

verus! {

/// Whether `url::Url::parse` accepts `s` as an absolute URL.
pub uninterp spec fn parses_as_url(s: Seq<char>) -> bool;

/// The serialization of `url::Url::join` of `rel` onto the URL that `base` parses to; `None`
/// where `base` does not parse or the join fails.
pub uninterp spec fn url_joined(base: Seq<char>, rel: Seq<char>) -> Option<Seq<char>>;

/// Relies on `url::Url::parse`: whether the text is an absolute URL.
#[verifier::external_body]
fn url_parses(s: &str) -> (r: bool)
    ensures
        r == parses_as_url(s@),
{
    url::Url::parse(s).is_ok()
}

/// Relies on `url::Url::join`, applied to the URL that `base` parses to, and on the URL's
/// serialization.
#[verifier::external_body]
fn join_url(base: &str, rel: &str) -> (r: Option<String>)
    ensures
        r is Some == url_joined(base@, rel@) is Some,
        r matches Some(x) ==> x@ == url_joined(base@, rel@)->0,
{
    url::Url::parse(base).and_then(|b| b.join(rel)).ok().map(String::from)
}

/// What a joined URL gives: the URL, or `InvalidUrl` where the join failed.
pub open spec fn joined_or_error(j: Option<Seq<char>>) -> Result<Seq<char>, Error> {
    match j {
        Some(u) => Ok(u),
        None => Err(Error::InvalidUrl),
    }
}

pub open spec fn result_view(r: Result<String, Error>) -> Result<Seq<char>, Error> {
    match r {
        Ok(s) => Ok(s@),
        Err(e) => Err(e),
    }
}

fn join_or_error(base: &str, rel: &str) -> (r: Result<String, Error>)
    ensures
        result_view(r) == joined_or_error(url_joined(base@, rel@)),
{
    match join_url(base, rel) {
        Some(u) => Ok(u),
        None => Err(Error::InvalidUrl),
    }
}

/// The destination of an image: kept as written when it is already an absolute URL, else
/// resolved against the page's permalink.
pub open spec fn image_url_spec(dest: Seq<char>, permalink: Seq<char>) -> Result<Seq<char>, Error> {
    if parses_as_url(dest) {
        Ok(dest)
    } else {
        joined_or_error(url_joined(permalink, dest))
    }
}

/// Picks an image's destination given whether `dest` is absolute and what joining it onto the
/// permalink gave.
pub fn choose_image_url(dest: String, absolute: bool, joined: Option<String>) -> (r: Result<
    String,
    Error,
>)
    ensures
        absolute ==> (r matches Ok(u) && u@ == dest@),
        !absolute ==> match joined {
            Some(j) => (r matches Ok(u) && u@ == j@),
            None => r matches Err(Error::InvalidUrl),
        },
{
    if absolute {
        Ok(dest)
    } else {
        match joined {
            Some(j) => Ok(j),
            None => Err(Error::InvalidUrl),
        }
    }
}

/// Resolves an image destination against the permalink of the page that shows it. An
/// absolute URL is never rewritten; a relative one always is.
pub fn resolve_image_url(dest: &str, permalink: &str) -> (r: Result<String, Error>)
    ensures
        result_view(r) == image_url_spec(dest@, permalink@),
{
    let absolute = url_parses(dest);
    let joined = if absolute {
        None
    } else {
        join_url(permalink, dest)
    };
    choose_image_url(dest.to_owned(), absolute, joined)
}

/// The permalink of the page at output path `path`: the base URL joined with the path, a
/// trailing `index.html` dropped first.
pub fn permalink(base_url: &str, path: &str) -> (r: Result<String, Error>)
    ensures
        result_view(r) == joined_or_error(url_joined(base_url@, permalink_path(path@))),
{
    let p = permalink_path_of(path);
    join_or_error(base_url, p.as_str())
}

/// The URL of `path` (trimmed) on the site at `base_url`.
pub fn get_url(base_url: &str, path: &str) -> (r: Result<String, Error>)
    ensures
        result_view(r) == joined_or_error(url_joined(base_url@, trim(path@))),
{
    let p = trimmed(path);
    join_or_error(base_url, p.as_str())
}

/// The URL of the page of term `name` in taxonomy `kind`, which must be configured.
pub fn taxonomy_url(base_url: &str, taxonomies: &Vec<Taxonomy>, kind: &str, name: &str) -> (r: Result<
    String,
    Error,
>)
    ensures
        !names_of(taxonomies@).contains(kind@) ==> (r matches Err(Error::UnknownTaxonomy(k)) && k@
            == kind@),
        names_of(taxonomies@).contains(kind@) ==> result_view(r) == joined_or_error(
            url_joined(base_url@, trim(slug(kind@ + seq!['/'] + name@))),
        ),
{
    let mut i: usize = 0;
    while i < taxonomies.len()
        invariant
            i <= taxonomies@.len(),
            forall|k: int| 0 <= k < i ==> names_of(taxonomies@)[k] != kind@,
        decreases taxonomies@.len() - i,
    {
        if str_eq(taxonomies[i].name.as_str(), kind) {
            let mut p = String::new();
            push_str_chars(&mut p, kind);
            p.push('/');
            push_str_chars(&mut p, name);
            let s = slugify(p.as_str());
            let t = trimmed(s.as_str());
            assert(p@ =~= kind@ + seq!['/'] + name@);
            assert(names_of(taxonomies@)[i as int] == kind@);
            return join_or_error(base_url, t.as_str());
        }
        i = i + 1;
    }
    Err(Error::UnknownTaxonomy(kind.to_owned()))
}

} // verus!
