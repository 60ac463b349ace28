use crawler::crawler::{Claim, CrawlError, Crawler, Offer, DEFAULT_CAPACITY};
use crawler::links::{domain_of_seed, extract_page, filter_in_domain, resolve_all, Resolved};
use crawler::visited::VisitedSet;

fn started(seed: &str, capacity: usize) -> Crawler {
    Crawler::with_capacity(seed, capacity).expect("valid seed")
}

#[test]
fn keeps_only_links_of_the_seed_domain() {
    let html = r#"<html><head><title>Home</title></head><body>
        <a href="https://sub.example.com/x">sub</a>
        <a href="https://example.com/y">same</a>
        <a href="https://other.com/z">other</a>
    </body></html>"#;
    let c = started("https://example.com", 4);
    let page = c.extract_links(html, "https://example.com/");
    assert_eq!(page.title, "Home");
    assert_eq!(page.links, vec!["https://example.com/y".to_string()]);
}

#[test]
fn extraction_twice_gives_the_same_page() {
    let html = r#"<title>T</title><a href="/a">a</a><a href="b">b</a><a href="/a">again</a>"#;
    let first = extract_page(html, "https://example.com/dir/page", "example.com");
    let second = extract_page(html, "https://example.com/dir/page", "example.com");
    assert_eq!(first.title, second.title);
    assert_eq!(first.links, second.links);
    assert_eq!(
        first.links,
        vec![
            "https://example.com/a".to_string(),
            "https://example.com/dir/b".to_string(),
            "https://example.com/a".to_string(),
        ]
    );
}

#[test]
fn missing_title_gets_the_default() {
    let page = extract_page("<p>no links here</p>", "https://example.com/", "example.com");
    assert_eq!(page.title, "(no title)");
    assert!(page.links.is_empty());
}

#[test]
fn links_are_dropped_when_the_page_url_does_not_parse() {
    let page = extract_page(r#"<a href="/a">a</a>"#, "not a url", "example.com");
    assert!(page.links.is_empty());
}

#[test]
fn resolving_joins_against_the_page_url() {
    let hrefs = vec!["/a".to_string(), "https://other.com/z".to_string()];
    let resolved = resolve_all(&hrefs, "https://example.com/dir/page");
    assert_eq!(
        resolved,
        vec![
            Some(("https://example.com/a".to_string(), Some("example.com".to_string()))),
            Some(("https://other.com/z".to_string(), Some("other.com".to_string()))),
        ]
    );
}

#[test]
fn domain_filter_is_exact() {
    let resolved: Vec<Resolved> = vec![
        Some(("https://sub.example.com/x".to_string(), Some("sub.example.com".to_string()))),
        None,
        Some(("https://example.com/y".to_string(), Some("example.com".to_string()))),
        Some(("http://10.0.0.1/".to_string(), None)),
        Some(("https://example.com/w".to_string(), Some("example.com".to_string()))),
    ];
    assert_eq!(
        filter_in_domain(&resolved, "example.com"),
        vec!["https://example.com/y".to_string(), "https://example.com/w".to_string()]
    );
}

#[test]
fn seed_domain_comes_from_the_host() {
    assert_eq!(domain_of_seed("https://www.example.com/path"), Some("www.example.com".to_string()));
    assert_eq!(domain_of_seed("http://10.0.0.1/"), Some(String::new()));
    assert_eq!(domain_of_seed("no scheme"), None);
}

#[test]
fn invalid_seed_is_refused() {
    assert_eq!(Crawler::new("::not a url::").err(), Some(CrawlError::InvalidSeed));
}

#[test]
fn zero_capacity_is_refused() {
    assert_eq!(
        Crawler::with_capacity("https://example.com", 0).err(),
        Some(CrawlError::ZeroCapacity)
    );
}

#[test]
fn new_seeds_the_frontier() {
    let c = Crawler::new("https://example.com").expect("valid seed");
    assert_eq!(c.pending(), 1);
    assert_eq!(c.in_flight(), 0);
    assert!(!c.is_closed());
    assert!(!c.is_visited("https://example.com"));
    assert_eq!(DEFAULT_CAPACITY, 100);
}

#[test]
fn single_page_crawl_runs_to_completion() {
    let mut c = started("https://example.com", 4);
    assert_eq!(c.claim_next(), Claim::Fetch("https://example.com".to_string()));
    assert_eq!(c.in_flight(), 1);
    assert!(c.is_visited("https://example.com"));
    assert_eq!(c.claim_next(), Claim::Wait);
    assert!(c.complete());
    assert_eq!(c.in_flight(), 0);
    assert!(c.is_closed());
    assert_eq!(c.claim_next(), Claim::Finished);
    assert_eq!(c.claim_next(), Claim::Finished);
}

#[test]
fn duplicate_links_are_fetched_once() {
    let mut c = started("https://example.com/", 8);
    assert_eq!(c.claim_next(), Claim::Fetch("https://example.com/".to_string()));
    assert_eq!(c.offer("https://example.com/a"), Offer::Enqueued);
    assert_eq!(c.offer("https://example.com/a"), Offer::Enqueued);
    assert_eq!(c.offer("https://example.com/"), Offer::AlreadyVisited);
    assert!(!c.complete());
    assert_eq!(c.claim_next(), Claim::Fetch("https://example.com/a".to_string()));
    assert_eq!(c.pending(), 1);
    assert_eq!(c.claim_next(), Claim::Wait);
    assert_eq!(c.pending(), 0);
    assert!(c.complete());
    assert_eq!(c.claim_next(), Claim::Finished);
}

#[test]
fn full_frontier_blocks_instead_of_dropping() {
    let mut c = started("https://example.com/", 2);
    assert_eq!(c.claim_next(), Claim::Fetch("https://example.com/".to_string()));
    let links = ["https://example.com/1", "https://example.com/2", "https://example.com/3"];
    assert_eq!(c.offer(links[0]), Offer::Enqueued);
    assert_eq!(c.offer(links[1]), Offer::Enqueued);
    assert_eq!(c.offer(links[2]), Offer::Full);
    assert_eq!(c.pending(), 2);
    assert_eq!(c.claim_next(), Claim::Fetch(links[0].to_string()));
    assert_eq!(c.offer(links[2]), Offer::Enqueued);
    assert_eq!(c.claim_next(), Claim::Fetch(links[1].to_string()));
    assert_eq!(c.claim_next(), Claim::Fetch(links[2].to_string()));
    assert_eq!(c.in_flight(), 4);
    for _ in 0..3 {
        assert!(!c.complete());
    }
    assert!(c.complete());
    assert!(c.is_closed());
}

#[test]
fn failed_fetch_is_not_retried_and_others_go_on() {
    let mut c = started("https://example.com/", 4);
    assert_eq!(c.claim_next(), Claim::Fetch("https://example.com/".to_string()));
    assert_eq!(c.offer("https://example.com/bad"), Offer::Enqueued);
    assert_eq!(c.offer("https://example.com/good"), Offer::Enqueued);
    assert!(!c.complete());
    assert_eq!(c.claim_next(), Claim::Fetch("https://example.com/bad".to_string()));
    assert_eq!(c.claim_next(), Claim::Fetch("https://example.com/good".to_string()));
    // The fetch of /bad fails: it is completed with nothing offered.
    assert!(!c.complete());
    assert!(c.is_visited("https://example.com/bad"));
    assert_eq!(c.offer("https://example.com/bad"), Offer::AlreadyVisited);
    assert_eq!(c.offer("https://example.com/next"), Offer::Enqueued);
    assert!(!c.complete());
    assert_eq!(c.claim_next(), Claim::Fetch("https://example.com/next".to_string()));
    assert!(c.complete());
}

#[test]
fn first_mark_wins() {
    let mut v = VisitedSet::new();
    assert!(!v.contains("https://example.com/"));
    assert!(v.mark_visited("https://example.com/"));
    assert!(!v.mark_visited("https://example.com/"));
    assert!(v.mark_visited("https://example.com/other"));
    assert!(v.contains("https://example.com/"));
    assert_eq!(v.len(), 2);
}
