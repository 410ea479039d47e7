//! Title and link extraction from a fetched page. The `scraper` crate parses
//! the HTML; which links are kept and how they are resolved is decided here.
use vstd::prelude::*;
use crate::fetch::{join_url, url_join_of};
use crate::robots::{trim, trim_chars};
use crate::text::{chars_of, seq_starts_with, starts_with, string_of};

verus! {

/// The text of the first `<title>` element of a document, as `scraper`
/// collects it; `None` where there is no title element.
pub uninterp spec fn title_text_of(html: Seq<char>) -> Option<Seq<char>>;

/// The `href` of each `<a href>` element of a document in document order,
/// with whether the element carries a `download` attribute.
pub uninterp spec fn anchors_of(html: Seq<char>) -> Seq<(Seq<char>, bool)>;

/// The `href` of each `<link rel="canonical" href>` element, in document order.
pub uninterp spec fn canonical_hrefs_of(html: Seq<char>) -> Seq<Seq<char>>;

/// Relies on `scraper::Html::parse_document` and `scraper::Html::select`
/// with the selector `title`: the collected text of the first match.
#[verifier::external_body]
fn first_title_text(html: &str) -> (r: Option<String>)
    ensures
        match r {
            Some(t) => title_text_of(html@) == Some(t@),
            None => title_text_of(html@) is None,
        },
{
    let document = scraper::Html::parse_document(html);
    let selector = scraper::Selector::parse("title").ok()?;
    document.select(&selector).next().map(|e| e.text().collect::<String>())
}

/// Relies on `scraper::Html::parse_document` and `scraper::Html::select`
/// with the selector `a[href]`: each match's `href`, and whether it has a
/// `download` attribute.
#[verifier::external_body]
fn anchor_hrefs(html: &str) -> (r: Vec<(String, bool)>)
    ensures
        r@.map_values(|a: (String, bool)| (a.0@, a.1)) == anchors_of(html@),
{
    let document = scraper::Html::parse_document(html);
    let selector = scraper::Selector::parse("a[href]").unwrap();
    document.select(&selector)
        .map(|e| (e.value().attr("href").unwrap_or("").to_string(), e.value().attr("download").is_some()))
        .collect()
}

/// Relies on `scraper::Html::parse_document` and `scraper::Html::select`
/// with the selector `link[rel='canonical'][href]`: each match's `href`.
#[verifier::external_body]
fn canonical_hrefs(html: &str) -> (r: Vec<String>)
    ensures
        r@.map_values(|s: String| s@) == canonical_hrefs_of(html@),
{
    let document = scraper::Html::parse_document(html);
    let selector = scraper::Selector::parse("link[rel='canonical'][href]").unwrap();
    document.select(&selector).map(|e| e.value().attr("href").unwrap_or("").to_string()).collect()
}

/// A page's title and outgoing links.
#[derive(Debug, Clone)]
pub struct ParsedPage {
    pub title: Option<String>,
    pub links: Vec<String>,
}

/// The title: the first title's text without surrounding whitespace, none
/// where that is empty.
pub open spec fn spec_title(html: Seq<char>) -> Option<Seq<char>> {
    match title_text_of(html) {
        Some(t) => if trim(t).len() == 0 { None } else { Some(trim(t)) },
        None => None,
    }
}

/// Link prefixes that never lead to a page.
pub open spec fn skipped_scheme(h: Seq<char>) -> bool {
    seq_starts_with(h, "javascript:"@) || seq_starts_with(h, "mailto:"@)
        || seq_starts_with(h, "tel:"@) || seq_starts_with(h, "data:"@)
}

/// Where a link leads, if it is followed: the trimmed `href` must be
/// non-empty, not a fragment, not `javascript:`, `mailto:`, `tel:` or
/// `data:`, and must resolve against the base to an `http` or `https` URL.
pub open spec fn spec_resolve_link(href: Seq<char>, base: Seq<char>) -> Option<Seq<char>> {
    let h = trim(href);
    if h.len() == 0 || skipped_scheme(h) || h[0] == '#' {
        None
    } else {
        match url_join_of(base, h) {
            Some(u) => if seq_starts_with(u, "http:"@) || seq_starts_with(u, "https:"@) { Some(u) } else { None },
            None => None,
        }
    }
}

/// The followed links among anchors without `download`, in order.
pub open spec fn anchor_links(anchors: Seq<(Seq<char>, bool)>, base: Seq<char>) -> Seq<Seq<char>>
    decreases anchors.len(),
{
    if anchors.len() == 0 {
        Seq::empty()
    } else {
        let rest = anchor_links(anchors.drop_last(), base);
        let a = anchors.last();
        if !a.1 && spec_resolve_link(a.0, base) is Some {
            rest.push(spec_resolve_link(a.0, base)->0)
        } else {
            rest
        }
    }
}

/// The followed links among hrefs, in order.
pub open spec fn href_links(hrefs: Seq<Seq<char>>, base: Seq<char>) -> Seq<Seq<char>>
    decreases hrefs.len(),
{
    if hrefs.len() == 0 {
        Seq::empty()
    } else {
        let rest = href_links(hrefs.drop_last(), base);
        if spec_resolve_link(hrefs.last(), base) is Some {
            rest.push(spec_resolve_link(hrefs.last(), base)->0)
        } else {
            rest
        }
    }
}

/// The links of a page: those of its anchors, then those of its canonical links.
pub open spec fn spec_links(html: Seq<char>, base: Seq<char>) -> Seq<Seq<char>> {
    anchor_links(anchors_of(html), base) + href_links(canonical_hrefs_of(html), base)
}

fn has_prefix(h: &Vec<char>, lit: &str) -> (r: bool)
    ensures
        r == seq_starts_with(h@, lit@),
{
    starts_with(h, &chars_of(lit))
}

/// Where a link leads, if it is followed (see `spec_resolve_link`).
pub fn resolve_link(href: &str, base_url: &str) -> (r: Option<String>)
    ensures
        match r {
            Some(s) => spec_resolve_link(href@, base_url@) == Some(s@),
            None => spec_resolve_link(href@, base_url@) is None,
        },
{
    let h = trim_chars(&chars_of(href));
    if h.len() == 0 || has_prefix(&h, "javascript:") || has_prefix(&h, "mailto:") || has_prefix(&h, "tel:")
        || has_prefix(&h, "data:") || h[0] == '#' {
        return None;
    }
    let hs = string_of(&h);
    match join_url(base_url, hs.as_str()) {
        Some(u) => {
            let uc = chars_of(u.as_str());
            if has_prefix(&uc, "http:") || has_prefix(&uc, "https:") {
                Some(u)
            } else {
                None
            }
        },
        None => None,
    }
}

/// The page's title (see `spec_title`).
pub fn extract_title(html: &str) -> (r: Option<String>)
    ensures
        match r {
            Some(t) => spec_title(html@) == Some(t@),
            None => spec_title(html@) is None,
        },
{
    match first_title_text(html) {
        Some(t) => {
            let tt = trim_chars(&chars_of(t.as_str()));
            if tt.len() == 0 {
                None
            } else {
                Some(string_of(&tt))
            }
        },
        None => None,
    }
}

/// The page's followed links (see `spec_links`).
pub fn extract_links(html: &str, base_url: &str) -> (r: Vec<String>)
    ensures
        r@.map_values(|s: String| s@) == spec_links(html@, base_url@),
{
    let anchors = anchor_hrefs(html);
    let canon = canonical_hrefs(html);
    let ghost av = anchors@.map_values(|a: (String, bool)| (a.0@, a.1));
    let ghost cv = canon@.map_values(|s: String| s@);
    let mut links: Vec<String> = Vec::new();
    let mut i: usize = 0;
    while i < anchors.len()
        invariant
            0 <= i <= anchors.len(),
            av == anchors@.map_values(|a: (String, bool)| (a.0@, a.1)),
            links@.map_values(|s: String| s@) == anchor_links(av.subrange(0, i as int), base_url@),
        decreases anchors.len() - i,
    {
        proof {
            assert(av.subrange(0, i + 1).drop_last() =~= av.subrange(0, i as int));
            assert(av.subrange(0, i + 1).last() == av[i as int]);
        }
        if !anchors[i].1 {
            match resolve_link(anchors[i].0.as_str(), base_url) {
                Some(u) => {
                    let ghost before = links@;
                    links.push(u);
                    assert(links@.map_values(|s: String| s@) =~= before.map_values(|s: String| s@).push(links@.last()@));
                },
                None => {},
            }
        }
        i = i + 1;
    }
    assert(av.subrange(0, anchors.len() as int) =~= av);
    let ghost first = links@.map_values(|s: String| s@);
    let mut j: usize = 0;
    assert(first + href_links(cv.subrange(0, 0), base_url@) =~= first);
    while j < canon.len()
        invariant
            0 <= j <= canon.len(),
            cv == canon@.map_values(|s: String| s@),
            first == anchor_links(av, base_url@),
            links@.map_values(|s: String| s@) == first + href_links(cv.subrange(0, j as int), base_url@),
        decreases canon.len() - j,
    {
        proof {
            assert(cv.subrange(0, j + 1).drop_last() =~= cv.subrange(0, j as int));
            assert(cv.subrange(0, j + 1).last() == cv[j as int]);
        }
        match resolve_link(canon[j].as_str(), base_url) {
            Some(u) => {
                let ghost before = links@;
                links.push(u);
                assert(links@.map_values(|s: String| s@) =~= before.map_values(|s: String| s@).push(links@.last()@));
            },
            None => {},
        }
        j = j + 1;
    }
    assert(cv.subrange(0, canon.len() as int) =~= cv);
    links
}

/// The page's title and followed links.
pub fn parse_html(html: &str, base_url: &str) -> (r: Result<ParsedPage, String>)
    ensures
        r is Ok,
        match r->Ok_0.title {
            Some(t) => spec_title(html@) == Some(t@),
            None => spec_title(html@) is None,
        },
        r->Ok_0.links@.map_values(|s: String| s@) == spec_links(html@, base_url@),
{
    let title = extract_title(html);
    let links = extract_links(html, base_url);
    Ok(ParsedPage { title, links })
}

/// The page's followed links (see `spec_links`).
pub fn extract_links_simple(html: &str, base_url: &str) -> (r: Vec<String>)
    ensures
        r@.map_values(|s: String| s@) == spec_links(html@, base_url@),
{
    extract_links(html, base_url)
}

} // verus!
