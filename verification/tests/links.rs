use futaba::links::{rewrite_links, STATUS_LINK_PATTERN, STATUS_LINK_REPLACEMENT};

#[test]
fn a_status_link_is_rewritten() {
    assert_eq!(
        rewrite_links("https://twitter.com/someone/status/1234567890"),
        Some("https://vxtwitter.com/someone/status/1234567890".to_string())
    );
    assert_eq!(
        rewrite_links("look: https://x.com/a_b/status/42 !"),
        Some("look: https://vxtwitter.com/a_b/status/42 !".to_string())
    );
}

#[test]
fn the_query_of_a_status_link_is_dropped() {
    assert_eq!(
        rewrite_links("https://x.com/someone/status/42?s=20&t=abc_DEF-1%20 and more"),
        Some("https://vxtwitter.com/someone/status/42 and more".to_string())
    );
}

#[test]
fn every_status_link_is_rewritten() {
    assert_eq!(
        rewrite_links("http://x.com/a/status/1 https://twitter.com/b/status/2"),
        Some("http://vxtwitter.com/a/status/1 https://vxtwitter.com/b/status/2".to_string())
    );
}

#[test]
fn content_without_a_status_link_gives_nothing() {
    assert_eq!(rewrite_links("hello"), None);
    assert_eq!(rewrite_links(""), None);
    assert_eq!(rewrite_links("https://x.com/someone"), None);
    assert_eq!(rewrite_links("https://x.com/someone/status/"), None);
    assert_eq!(rewrite_links("https://example.com/someone/status/42"), None);
    assert_eq!(rewrite_links("https://xxcom/someone/status/42"), None);
}

#[test]
fn a_link_that_is_rewritten_already_gives_nothing() {
    assert_eq!(rewrite_links("https://vxtwitter.com/someone/status/42"), None);
}

#[test]
fn the_pattern_and_the_replacement() {
    assert_eq!(
        STATUS_LINK_PATTERN,
        r"://(x|twitter)\.com/([^/]+)/status/(\d+)(\?[a-zA-Z0-9%\-_&=]+)?"
    );
    assert_eq!(STATUS_LINK_REPLACEMENT, "://vxtwitter.com/$2/status/$3");
}
