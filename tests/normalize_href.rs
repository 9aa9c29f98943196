use subdomain_crawler::normalize_href;

#[test]
fn handles_absolute() {
    assert_eq!(
        "https://example.com",
        normalize_href("https://example.com", "example.com")
    );
}

#[test]
fn handles_relative() {
    assert_eq!(
        "https://example.com/rofl",
        normalize_href("/rofl", "example.com")
    );
    assert_eq!(
        "https://example.com/rofl/copter",
        normalize_href("/rofl/copter", "example.com")
    );
}

#[test]
fn handles_bespoke() {
    assert_eq!("https://example.com", normalize_href("/", "example.com"));
    assert_eq!("https://example.com", normalize_href("", "example.com"));
    assert_eq!("https://example.com", normalize_href("#", "example.com"));
    assert_eq!("https://example.com", normalize_href("/#", "example.com"));
}

#[test]
fn handles_hash() {
    assert_eq!(
        "https://example.com/lol",
        normalize_href("/lol#wut", "example.com")
    );

    assert_eq!(
        "https://example.com/",
        normalize_href("https://example.com/#", "example.com")
    );
    assert_eq!(
        "https://example.com",
        normalize_href("https://example.com#", "example.com")
    );
    assert_eq!(
        "https://example.com/lol",
        normalize_href("https://example.com/lol#wut", "example.com")
    );
}

#[test]
fn normalizing_twice_changes_nothing() {
    for href in ["/a/b#c", "https://x.com/page", "/", "#", "relative/path", "https://x.com/q?x=1#f"] {
        let once = normalize_href(href, "x.com");
        assert_eq!(once, normalize_href(&once, "x.com"));
    }
    assert_eq!("https://x.com/page", normalize_href("https://x.com/page", "x.com"));
}

#[test]
fn fragments_normalize_alike() {
    let a = normalize_href("https://x.com/page#a", "x.com");
    let b = normalize_href("https://x.com/page#b", "x.com");
    assert_eq!(a, b);
    assert_eq!("https://x.com/page", a);
}

#[test]
fn hash_with_fragment_only_is_empty() {
    assert_eq!("", normalize_href("#top", "x.com"));
    assert_eq!("https://x.com/", normalize_href("/#top", "x.com"));
}

#[test]
fn non_ascii_href_keeps_its_characters() {
    assert_eq!("https://x.com/été", normalize_href("/été#ça", "x.com"));
}
