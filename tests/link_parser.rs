use subdomain_crawler::{
    links_from_hrefs, next_step, parse_html, parse_urls, seed_frontier, Frontier, Inbound,
    LinkParser, Next, SeedError,
};

#[test]
fn link_parser_basic() {
    let html = "<html><body>\
        <a href='/'></a>\
        <a href='#'></a>\
        <a href='/#'></a>\
        <a href='https://monzo.com'></a>\
        <a href='https://monzo.com/blog'></a>\
        <a href='https://monzo.com/blog/5#cool-topic'></a>\
        <a href='https://community.monzo.com/is-not-valid'></a>\
        <a href='corrupted-href'></a>\
        <a></a>\
        <a href='mailto:usa-help@monzo.com'></a>\
        <a href='tel:+448008021281'></a>\
        <a href='../blog/2017/03/10/transparent-by-default/'></a>\
        </body></html>";
    let urls = parse_urls(html, "monzo.com");
    assert_eq!(6, urls.len())
}

#[test]
fn parse_html_basic() {
    let html = "<html><body></body></html>";
    assert_eq!(1, parse_html(html).len());
}

#[test]
fn noscript() {
    let html = "<html><body><noscript></noscript><noscript></noscript></body></html>";
    assert_eq!(3, parse_html(html).len());
}

#[test]
fn noscript_anchors_join_the_page_anchors() {
    let html = "<html><body>\
        <noscript><a href='/from-first'></a></noscript>\
        <noscript><a href='/from-second'></a></noscript>\
        <a href='/from-page'></a>\
        </body></html>";
    let urls = parse_urls(html, "x.com");
    let got: Vec<&str> = urls.iter().map(|l| l.as_str()).collect();
    assert_eq!(
        vec![
            "https://x.com/from-first",
            "https://x.com/from-second",
            "https://x.com/from-page"
        ],
        got
    );
}

#[test]
fn malformed_href_is_skipped() {
    let html = "<html><body>\
        <a href='/before'></a>\
        <a href='corrupted-href'></a>\
        <a href='/after'></a>\
        </body></html>";
    let urls = parse_urls(html, "x.com");
    let got: Vec<&str> = urls.iter().map(|l| l.as_str()).collect();
    assert_eq!(vec!["https://x.com/before", "https://x.com/after"], got);
}

#[test]
fn hrefs_become_parsed_links() {
    let hrefs = vec![
        Some("https://example.com".to_string()),
        None,
        Some("/a/b/#frag".to_string()),
        Some("https://other.example.com/a".to_string()),
        Some("https://127.0.0.1/".to_string()),
    ];
    let links = links_from_hrefs(&hrefs, "example.com");
    assert_eq!(2, links.len());
    assert_eq!("https://example.com/", links[0].as_str());
    assert_eq!("/", links[0].path);
    assert_eq!(Some("example.com".to_string()), links[0].host);
    assert_eq!("https://example.com/a/b/", links[1].as_str());
    assert_eq!("/a/b/", links[1].path);
    assert!(links[1].is_on("example.com"));
    assert!(!links[1].is_on("other.example.com"));
}

#[test]
fn other_hosts_are_never_claimed() {
    let parser = LinkParser::new("x.com");
    let mut frontier = Frontier::new();
    let html = "<a href='https://y.x.com/p'></a><a href='https://x.com.evil/p'></a>\
        <a href='https://other.com/p'></a>";
    let fresh = parser.process_page(&mut frontier, html);
    assert!(fresh.is_empty());
    assert_eq!(0, frontier.len());
    assert!(!frontier.contains("/p"));
}

#[test]
fn fragments_are_claimed_once() {
    let parser = LinkParser::new("x.com");
    let mut frontier = Frontier::new();
    let html = "<a href='https://x.com/page#a'></a><a href='https://x.com/page#b'></a>\
        <a href='/page/'></a>";
    let fresh = parser.process_page(&mut frontier, html);
    assert_eq!(1, fresh.len());
    assert_eq!("https://x.com/page", fresh[0].as_str());
    assert!(frontier.contains("/page"));
}

#[test]
fn repeated_discovery_across_pages_is_enqueued_once() {
    let parser = LinkParser::new("x.com");
    let mut frontier = Frontier::new();
    let first = parser.process_page(&mut frontier, "<a href='/shared'></a><a href='/one'></a>");
    let second = parser.process_page(&mut frontier, "<a href='/shared/'></a><a href='/two'></a>");
    let first: Vec<&str> = first.iter().map(|l| l.as_str()).collect();
    let second: Vec<&str> = second.iter().map(|l| l.as_str()).collect();
    assert_eq!(vec!["https://x.com/shared", "https://x.com/one"], first);
    assert_eq!(vec!["https://x.com/two"], second);
    assert_eq!(3, frontier.len());
}

#[test]
fn resources_are_not_claimed() {
    let parser = LinkParser::new("x.com");
    let mut frontier = Frontier::new();
    let html = "<a href='/doc.pdf'></a><a href='/song.mp3'></a><a href='/page'></a>";
    let fresh = parser.process_page(&mut frontier, html);
    assert_eq!(1, fresh.len());
    assert_eq!("https://x.com/page", fresh[0].as_str());
    assert!(!frontier.contains("/doc.pdf"));

    let open = LinkParser::with_excluded_suffixes("x.com", Vec::new());
    let mut frontier = Frontier::new();
    assert_eq!(3, open.process_page(&mut frontier, html).len());
}

fn community_page() -> String {
    let mut html = String::from("<html><body><noscript>");
    html.push_str("<a href=\"/\">Home</a><a href=\"/c/monzo/5\">Monzo</a>");
    html.push_str("</noscript><nav>");
    for href in [
        "#",
        "/#",
        "/c/customersupport/10",
        "/c/feedback/35",
        "/c/usa/46",
        "/c/developers/43",
        "/c/community/19",
        "/c/making-monzo/39",
        "/c/foyer/24",
        "/c/financial-chat/36",
        "/categories",
        "/guidelines",
        "https://monzo.com/legal",
        "/tos",
        "/privacy",
    ] {
        html.push_str(&format!("<a href=\"{}\">link</a>", href));
    }
    html.push_str("<a>no href</a></nav></body></html>");
    html
}

#[test]
fn community_page_yields_fourteen_urls() {
    let parser = LinkParser::new("community.monzo.com");
    let mut frontier = Frontier::new();
    assert!(frontier.try_claim("/"));
    let fresh = parser.process_page(&mut frontier, &community_page());
    let got: Vec<&str> = fresh.iter().map(|l| l.as_str()).collect();
    assert_eq!(
        vec![
            "https://community.monzo.com/",
            "https://community.monzo.com/c/monzo/5",
            "https://community.monzo.com/c/customersupport/10",
            "https://community.monzo.com/c/feedback/35",
            "https://community.monzo.com/c/usa/46",
            "https://community.monzo.com/c/developers/43",
            "https://community.monzo.com/c/community/19",
            "https://community.monzo.com/c/making-monzo/39",
            "https://community.monzo.com/c/foyer/24",
            "https://community.monzo.com/c/financial-chat/36",
            "https://community.monzo.com/categories",
            "https://community.monzo.com/guidelines",
            "https://community.monzo.com/tos",
            "https://community.monzo.com/privacy"
        ],
        got
    );
    let again = parser.process_page(&mut frontier, &community_page());
    assert!(again.is_empty());
}

#[test]
fn seeded_crawl_does_not_revisit_the_seed() {
    let mut frontier = Frontier::new();
    let seed = match seed_frontier("https://community.monzo.com", &mut frontier) {
        Ok(s) => s,
        Err(e) => panic!("seed refused: {:?}", e),
    };
    assert_eq!("community.monzo.com", seed.subdomain);
    assert_eq!("https://community.monzo.com/", seed.link.as_str());
    assert!(frontier.contains(""));
    let parser = LinkParser::new(&seed.subdomain);
    let fresh = parser.process_page(&mut frontier, &community_page());
    assert_eq!(13, fresh.len());
    assert_eq!("https://community.monzo.com/c/monzo/5", fresh[0].as_str());
}

#[test]
fn seed_errors() {
    let mut frontier = Frontier::new();
    assert!(matches!(seed_frontier("not a url", &mut frontier), Err(SeedError::NotAUrl)));
    assert!(matches!(seed_frontier("https://127.0.0.1/", &mut frontier), Err(SeedError::NoDomain)));
    assert!(matches!(seed_frontier("mailto:a@b.com", &mut frontier), Err(SeedError::NoDomain)));
    assert_eq!(0, frontier.len());
}

#[test]
fn idle_timeout_finishes_the_worker() {
    assert!(matches!(next_step(Inbound::<String>::TimedOut), Next::Finish));
    assert!(matches!(next_step(Inbound::<String>::Closed), Next::Finish));
    match next_step(Inbound::Item(7u32)) {
        Next::Handle(x) => assert_eq!(7, x),
        Next::Finish => panic!("an item must be handled"),
    }
}
