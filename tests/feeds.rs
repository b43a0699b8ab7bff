use rss_checker::diff::new_links;
use rss_checker::error::ErrorKind;
use rss_checker::feed::{parse_cached_feed, parse_feed, select_format, AtomFeed, RssChannel, RssOrAtomFeed};

fn rss_doc(links: &[&str]) -> String {
    let mut items = String::new();
    for l in links {
        items.push_str(&format!("<item><title>t</title><link>{}</link></item>", l));
    }
    format!(
        "<?xml version=\"1.0\"?><rss version=\"2.0\"><channel><title>test</title>\
         <link>http://example.com/feed.xml</link><description>d</description>{}</channel></rss>",
        items
    )
}

fn atom_doc(links: &[&str]) -> String {
    let mut entries = String::new();
    for (i, l) in links.iter().enumerate() {
        entries.push_str(&format!(
            "<entry><title>e</title><id>urn:{}</id><updated>2020-01-01T00:00:00Z</updated>\
             <link href=\"{}\"/></entry>",
            i, l
        ));
    }
    format!(
        "<?xml version=\"1.0\"?><feed xmlns=\"http://www.w3.org/2005/Atom\"><title>f</title>\
         <id>urn:f</id><updated>2020-01-01T00:00:00Z</updated>{}</feed>",
        entries
    )
}

fn rss_channel(links: &[&str]) -> RssOrAtomFeed {
    RssOrAtomFeed::Rss2(RssChannel {
        item_links: links.iter().map(|l| Some(l.to_string())).collect(),
    })
}

#[test]
fn should_parse_valid_feed() {
    let feed_name = "test";
    let xml = rss_doc(&["http://example.com/1", "http://example.com/2", "http://example.com/3"]);
    let channel = parse_feed(feed_name, xml.as_bytes()).unwrap();
    let channel_items = channel.get_links();
    assert_eq!(channel_items.len(), 3);
}

#[test]
fn links_are_serialized_urls() {
    let xml = rss_doc(&["http://example.com", "not a url", "HTTP://Example.COM/a"]);
    let feed = parse_feed("test", xml.as_bytes()).unwrap();
    assert_eq!(feed.get_links(), vec!["http://example.com/".to_string(), "http://example.com/a".to_string()]);
}

#[test]
fn items_without_links_are_skipped() {
    let feed = RssOrAtomFeed::Rss2(RssChannel {
        item_links: vec![None, Some("http://x/1".to_string()), None],
    });
    assert_eq!(feed.get_links(), vec!["http://x/1".to_string()]);
}

#[test]
fn atom_feed_links_are_read() {
    let xml = atom_doc(&["http://a.example/1", "http://a.example/2"]);
    let feed = parse_feed("atom", xml.as_bytes()).unwrap();
    assert!(matches!(feed, RssOrAtomFeed::Atom(_)));
    assert_eq!(feed.get_links(), vec!["http://a.example/1".to_string(), "http://a.example/2".to_string()]);
}

#[test]
fn atom_entries_with_several_links() {
    let feed = RssOrAtomFeed::Atom(AtomFeed {
        entry_links: vec![
            vec!["http://a/1".to_string(), "http://a/2".to_string()],
            vec![],
            vec!["http://a/3".to_string()],
        ],
    });
    assert_eq!(
        feed.get_links(),
        vec!["http://a/1".to_string(), "http://a/2".to_string(), "http://a/3".to_string()]
    );
}

#[test]
fn body_in_neither_format_is_rejected() {
    let err = parse_feed("bad", b"<html></html>").unwrap_err();
    assert!(matches!(err.kind, ErrorKind::FeedIsNeitherAtomOrRss(ref n) if n == "bad"));
}

#[test]
fn cache_in_neither_format_is_invalid() {
    let err = parse_cached_feed("bad", b"plain text").unwrap_err();
    assert!(matches!(err.kind, ErrorKind::InvalidCache(ref n) if n == "bad"));
}

#[test]
fn document_in_both_formats_is_ambiguous() {
    let rss = Some(RssChannel { item_links: vec![] });
    let atom = Some(AtomFeed { entry_links: vec![] });
    let err = select_format("both", rss, atom, ErrorKind::FeedIsNeitherAtomOrRss("both".to_string())).unwrap_err();
    assert!(matches!(err.kind, ErrorKind::AmbiguousFeed(ref n) if n == "both"));
}

#[test]
fn diff_holds_only_fresh_links() {
    let cached = rss_channel(&["http://x/a", "http://x/b"]);
    let fresh = rss_channel(&["http://x/b", "http://x/c"]);
    assert_eq!(new_links(Some(&cached), &fresh), vec!["http://x/c".to_string()]);
}

#[test]
fn diff_collapses_repeated_links() {
    let cached = rss_channel(&["http://x/a"]);
    let fresh = rss_channel(&["http://x/c", "http://x/c", "http://x/a"]);
    assert_eq!(new_links(Some(&cached), &fresh), vec!["http://x/c".to_string()]);
}

#[test]
fn diff_without_cache_is_every_fresh_link() {
    let fresh = rss_channel(&["http://x/1", "http://x/2"]);
    assert_eq!(new_links(None, &fresh), vec!["http://x/1".to_string(), "http://x/2".to_string()]);
}
