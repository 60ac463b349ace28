use vstd::prelude::*;

verus! {

/// A link resolved against its page: the absolute URL as text, and its domain
/// when the URL has one.
pub type Resolved = Option<(String, Option<String>)>;

/// The view of a resolved link.
pub type ResolvedView = Option<(Seq<char>, Option<Seq<char>>)>;

pub open spec fn opt_text(o: Option<String>) -> Option<Seq<char>> {
    match o {
        Some(s) => Some(s@),
        None => None,
    }
}

pub open spec fn resolved_view(r: Resolved) -> ResolvedView {
    match r {
        Some((u, d)) => Some((u@, opt_text(d))),
        None => None,
    }
}

pub open spec fn texts(v: Seq<String>) -> Seq<Seq<char>> {
    v.map_values(|s: String| s@)
}

/// Text of the first `<title>` element of a document, if it has one.
pub uninterp spec fn title_of(html: Seq<char>) -> Option<Seq<char>>;

/// `href` values of the `<a href>` elements of a document, in document order.
pub uninterp spec fn hrefs_of(html: Seq<char>) -> Seq<Seq<char>>;

/// `href` resolved against `base`: the absolute URL and its domain, or `None`
/// when `base` does not parse or `href` does not resolve.
pub uninterp spec fn joined_url(base: Seq<char>, href: Seq<char>) -> ResolvedView;

/// A URL's domain: `None` when it does not parse, `Some(None)` when it parses
/// and has no domain (an IP address, say).
pub uninterp spec fn url_domain(url: Seq<char>) -> Option<Option<Seq<char>>>;

/// Relies on scraper: `Html::parse_document`, then the first match of the
/// selector `title`, its text nodes joined.
#[verifier::external_body]
fn document_title(html: &str) -> (r: Option<String>)
    ensures
        opt_text(r) == title_of(html@),
{
    let document = scraper::Html::parse_document(html);
    let selector = scraper::Selector::parse("title").ok()?;
    let element = document.select(&selector).next()?;
    Some(element.text().collect::<Vec<_>>().join(""))
}

/// Relies on scraper: `Html::parse_document`, then each match of the selector
/// `a[href]` in document order, with its `href` attribute.
#[verifier::external_body]
fn document_hrefs(html: &str) -> (r: Vec<String>)
    ensures
        texts(r@) == hrefs_of(html@),
{
    let document = scraper::Html::parse_document(html);
    match scraper::Selector::parse("a[href]") {
        Ok(selector) => document
            .select(&selector)
            .map(|element| element.attr("href").unwrap_or("").to_string())
            .collect(),
        Err(_) => Vec::new(),
    }
}

/// Relies on url: `Url::parse` of the base, `Url::join` of the href, then the
/// joined URL's serialization and `Url::domain`.
#[verifier::external_body]
fn join_href(base: &str, href: &str) -> (r: Resolved)
    ensures
        resolved_view(r) == joined_url(base@, href@),
{
    let joined = url::Url::parse(base).ok()?.join(href).ok()?;
    Some((joined.to_string(), joined.domain().map(|d| d.to_string())))
}

/// Relies on url: `Url::parse`, then `Url::domain`.
#[verifier::external_body]
fn parse_domain(url: &str) -> (r: Option<Option<String>>)
    ensures
        match (r, url_domain(url@)) {
            (None, None) => true,
            (Some(d), Some(e)) => opt_text(d) == e,
            _ => false,
        },
{
    match url::Url::parse(url) {
        Ok(parsed) => Some(parsed.domain().map(|d| d.to_string())),
        Err(_) => None,
    }
}

/// The domain filter that a seed URL gives: `None` when the seed does not
/// parse, the empty text when it has no domain.
pub open spec fn seed_domain(seed: Seq<char>) -> Option<Seq<char>> {
    match url_domain(seed) {
        None => None,
        Some(None) => Some(Seq::empty()),
        Some(Some(d)) => Some(d),
    }
}

/// Computes the domain filter of a seed URL.
pub fn domain_of_seed(seed: &str) -> (r: Option<String>)
    ensures
        opt_text(r) == seed_domain(seed@),
{
    match parse_domain(seed) {
        None => None,
        Some(None) => Some(String::new()),
        Some(Some(d)) => Some(d),
    }
}

/// Whether a resolved link lies in `domain`: its domain equals it exactly.
pub open spec fn in_domain(r: ResolvedView, domain: Seq<char>) -> bool {
    match r {
        Some((_, Some(d))) => d == domain,
        _ => false,
    }
}

/// The URLs of the resolved links that lie in `domain`, in order.
pub open spec fn kept_links(resolved: Seq<ResolvedView>, domain: Seq<char>) -> Seq<Seq<char>>
    decreases resolved.len(),
{
    if resolved.len() == 0 {
        Seq::empty()
    } else {
        let rest = kept_links(resolved.drop_last(), domain);
        let last = resolved.last();
        if in_domain(last, domain) {
            rest.push(last.unwrap().0)
        } else {
            rest
        }
    }
}

/// Keeps, in order, the URLs of the resolved links whose domain equals
/// `domain` exactly; links that did not resolve, have no domain or lie
/// elsewhere (a subdomain too) are dropped.
pub fn filter_in_domain(resolved: &Vec<Resolved>, domain: &str) -> (r: Vec<String>)
    ensures
        texts(r@) == kept_links(resolved@.map_values(|x: Resolved| resolved_view(x)), domain@),
{
    let ghost views = resolved@.map_values(|x: Resolved| resolved_view(x));
    let key = String::from_str(domain);
    let mut out: Vec<String> = Vec::new();
    let mut i: usize = 0;
    while i < resolved.len()
        invariant
            0 <= i <= resolved@.len(),
            key@ == domain@,
            views == resolved@.map_values(|x: Resolved| resolved_view(x)),
            texts(out@) == kept_links(views.subrange(0, i as int), domain@),
        decreases resolved@.len() - i,
    {
        let ghost before = out@;
        assert(views.subrange(0, i + 1).drop_last() =~= views.subrange(0, i as int));
        match &resolved[i] {
            Some((u, Some(d))) => {
                if *d == key {
                    out.push(u.clone());
                    assert(texts(out@) =~= texts(before).push(u@));
                }
            },
            _ => {},
        }
        i = i + 1;
    }
    assert(views.subrange(0, resolved@.len() as int) =~= views);
    out
}

/// What a page yields: its title and the in-domain links, in document order.
pub struct Page {
    pub title: String,
    pub links: Vec<String>,
}

/// The title a page is reported with.
pub open spec fn title_or_default(t: Option<Seq<char>>) -> Seq<char> {
    match t {
        Some(s) => s,
        None => "(no title)"@,
    }
}

/// Each `href` of `html` resolved against `page_url`.
pub open spec fn resolved_hrefs(html: Seq<char>, page_url: Seq<char>) -> Seq<ResolvedView> {
    hrefs_of(html).map_values(|h: Seq<char>| joined_url(page_url, h))
}

/// The in-domain links of a page, in document order, duplicates kept.
pub open spec fn page_links(html: Seq<char>, page_url: Seq<char>, domain: Seq<char>) -> Seq<Seq<char>> {
    kept_links(resolved_hrefs(html, page_url), domain)
}

/// Resolves each `href` against `page_url`.
pub fn resolve_all(hrefs: &Vec<String>, page_url: &str) -> (r: Vec<Resolved>)
    ensures
        r@.map_values(|x: Resolved| resolved_view(x)) == texts(hrefs@).map_values(
            |h: Seq<char>| joined_url(page_url@, h),
        ),
{
    let mut out: Vec<Resolved> = Vec::new();
    let mut i: usize = 0;
    while i < hrefs.len()
        invariant
            0 <= i <= hrefs@.len(),
            out@.len() == i,
            forall|k: int| 0 <= k < i ==> #[trigger] resolved_view(out@[k]) == joined_url(page_url@, hrefs@[k]@),
        decreases hrefs@.len() - i,
    {
        let r = join_href(page_url, &hrefs[i]);
        out.push(r);
        i = i + 1;
    }
    assert(out@.map_values(|x: Resolved| resolved_view(x)) =~= texts(hrefs@).map_values(
        |h: Seq<char>| joined_url(page_url@, h),
    ));
    out
}

/// Extracts a page's title (or the default) and its links that lie in
/// `domain`, resolved against `page_url`, in document order.
pub fn extract_page(html: &str, page_url: &str, domain: &str) -> (p: Page)
    ensures
        p.title@ == title_or_default(title_of(html@)),
        texts(p.links@) == page_links(html@, page_url@, domain@),
{
    let title = match document_title(html) {
        Some(t) => t,
        None => String::from_str("(no title)"),
    };
    let hrefs = document_hrefs(html);
    let resolved = resolve_all(&hrefs, page_url);
    let links = filter_in_domain(&resolved, domain);
    Page { title, links }
}

/// Every link that the domain filter keeps is the URL of a resolved link whose
/// domain equals the filter exactly, and every such resolved link is kept.
pub proof fn lemma_kept_links_in_domain(resolved: Seq<ResolvedView>, domain: Seq<char>)
    ensures
        forall|i: int|
            0 <= i < kept_links(resolved, domain).len() ==> exists|j: int|
                0 <= j < resolved.len() && #[trigger] resolved[j] == Some(
                    (#[trigger] kept_links(resolved, domain)[i], Some(domain)),
                ),
        forall|j: int|
            0 <= j < resolved.len() && in_domain(#[trigger] resolved[j], domain) ==> kept_links(
                resolved,
                domain,
            ).contains(resolved[j].unwrap().0),
    decreases resolved.len(),
{
    if resolved.len() > 0 {
        let init = resolved.drop_last();
        lemma_kept_links_in_domain(init, domain);
        let kept = kept_links(resolved, domain);
        let rest = kept_links(init, domain);
        assert forall|i: int| 0 <= i < kept.len() implies exists|j: int|
            0 <= j < resolved.len() && #[trigger] resolved[j] == Some((#[trigger] kept[i], Some(domain))) by {
            if i < rest.len() {
                assert(kept[i] == rest[i]);
                let j = choose|j: int| 0 <= j < init.len() && #[trigger] init[j] == Some((rest[i], Some(domain)));
                assert(resolved[j] == init[j]);
            } else {
                assert(resolved[resolved.len() - 1] == resolved.last());
            }
        }
        assert forall|j: int| 0 <= j < resolved.len() && in_domain(#[trigger] resolved[j], domain)
            implies kept.contains(resolved[j].unwrap().0) by {
            if j < init.len() {
                assert(init[j] == resolved[j]);
                let x = resolved[j].unwrap().0;
                assert(rest.contains(x));
                let m = choose|m: int| 0 <= m < rest.len() && rest[m] == x;
                assert(kept[m] == x);
            } else {
                assert(kept[kept.len() - 1] == resolved[j].unwrap().0);
            }
        }
    }
}

/// Extraction is a function of its inputs: two extractions of the same
/// document at the same URL under the same filter give the same title and the
/// same links.
pub proof fn lemma_extraction_idempotent(
    html: Seq<char>,
    page_url: Seq<char>,
    domain: Seq<char>,
    first: Page,
    second: Page,
)
    requires
        first.title@ == title_or_default(title_of(html)),
        texts(first.links@) == page_links(html, page_url, domain),
        second.title@ == title_or_default(title_of(html)),
        texts(second.links@) == page_links(html, page_url, domain),
    ensures
        first.title@ == second.title@,
        texts(first.links@) == texts(second.links@),
{
}

} // verus!
