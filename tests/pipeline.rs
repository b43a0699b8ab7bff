use rss_checker::aggregate::{aggregate_new_links, compare_bytes};
use rss_checker::error::{Error, ErrorKind, IoError, IoErrorKind};
use rss_checker::unit::{fetch_outcome, read_cache_outcome};

fn rss_doc(links: &[&str]) -> Vec<u8> {
    let mut items = String::new();
    for l in links {
        items.push_str(&format!("<item><link>{}</link></item>", l));
    }
    format!(
        "<rss version=\"2.0\"><channel><title>t</title><link>http://example.com/</link>\
         <description>d</description>{}</channel></rss>",
        items
    )
    .into_bytes()
}

fn io_error(kind: IoErrorKind) -> Error {
    Error::new(ErrorKind::IoErr(IoError { kind, message: "io".to_string() }))
}

/// Runs one unit as the program does, returning the links and what was cached.
fn run_unit(cache: &mut Option<Vec<u8>>, live: Result<Vec<u8>, Error>) -> Result<Vec<String>, Error> {
    let read = match cache.clone() {
        Some(b) => Ok(b),
        None => Err(io_error(IoErrorKind::NotFound)),
    };
    let cached = read_cache_outcome("feed", read)?;
    let (links, body) = fetch_outcome("feed", cached, live)?;
    *cache = Some(body);
    Ok(links)
}

#[test]
fn first_run_reports_nothing_and_caches_the_fetch() {
    let live = rss_doc(&["http://x/1", "http://x/2"]);
    let mut cache = None;
    let links = run_unit(&mut cache, Ok(live.clone())).unwrap();
    assert!(links.is_empty());
    assert_eq!(cache, Some(live));
}

#[test]
fn second_run_on_unchanged_feed_is_empty() {
    let live = rss_doc(&["http://x/1", "http://x/2"]);
    let mut cache = None;
    run_unit(&mut cache, Ok(live.clone())).unwrap();
    let second = run_unit(&mut cache, Ok(live)).unwrap();
    assert!(second.is_empty());
    assert!(aggregate_new_links(&vec![Ok(second)]).is_empty());
}

#[test]
fn second_run_reports_added_links() {
    let mut cache = None;
    run_unit(&mut cache, Ok(rss_doc(&["http://x/a", "http://x/b"]))).unwrap();
    let links = run_unit(&mut cache, Ok(rss_doc(&["http://x/b", "http://x/c"]))).unwrap();
    assert_eq!(links, vec!["http://x/c".to_string()]);
}

#[test]
fn fetch_failure_leaves_cache_untouched() {
    let old = rss_doc(&["http://x/1"]);
    let mut cache = Some(old.clone());
    let failed = run_unit(&mut cache, Err(Error::new(ErrorKind::ReqwestErr("unreachable".to_string()))));
    assert!(matches!(failed, Err(ref e) if matches!(e.kind, ErrorKind::ReqwestErr(_))));
    assert_eq!(cache, Some(old));
}

#[test]
fn cache_read_failure_stops_the_unit() {
    let r = read_cache_outcome("feed", Err(io_error(IoErrorKind::Other)));
    assert!(matches!(r, Err(ref e) if matches!(e.kind, ErrorKind::IoErr(ref io) if io.kind == IoErrorKind::Other)));
}

#[test]
fn invalid_cache_is_an_error() {
    let r = read_cache_outcome("feed", Ok(b"garbage".to_vec()));
    assert!(matches!(r, Err(ref e) if matches!(e.kind, ErrorKind::InvalidCache(ref n) if n == "feed")));
}

#[test]
fn unparsable_fetch_is_an_error() {
    let r = fetch_outcome("feed", None, Ok(b"<html/>".to_vec()));
    assert!(matches!(r, Err(ref e) if matches!(e.kind, ErrorKind::FeedIsNeitherAtomOrRss(_))));
}

#[test]
fn failed_feed_does_not_hide_other_links() {
    let results = vec![
        Err(Error::new(ErrorKind::ReqwestErr("down".to_string()))),
        Ok(vec!["http://y/2".to_string(), "http://x/1".to_string()]),
    ];
    assert_eq!(aggregate_new_links(&results), vec!["http://x/1".to_string(), "http://y/2".to_string()]);
}

#[test]
fn aggregate_is_sorted_union_without_duplicates() {
    let results = vec![
        Ok(vec!["http://x/1".to_string()]),
        Ok(vec!["http://x/1".to_string(), "http://y/2".to_string()]),
    ];
    assert_eq!(aggregate_new_links(&results), vec!["http://x/1".to_string(), "http://y/2".to_string()]);
}

#[test]
fn aggregate_orders_by_bytes() {
    let results = vec![Ok(vec![
        "http://b/".to_string(),
        "http://a/z".to_string(),
        "http://a/".to_string(),
        "http://B/".to_string(),
    ])];
    assert_eq!(
        aggregate_new_links(&results),
        vec!["http://B/".to_string(), "http://a/".to_string(), "http://a/z".to_string(), "http://b/".to_string()]
    );
}

#[test]
fn aggregate_of_nothing_is_empty() {
    assert!(aggregate_new_links(&vec![]).is_empty());
}

#[test]
fn compare_bytes_orders_prefix_first() {
    assert!(compare_bytes(b"ab", b"abc") < 0);
    assert!(compare_bytes(b"abc", b"ab") > 0);
    assert_eq!(compare_bytes(b"abc", b"abc"), 0);
    assert!(compare_bytes(b"abd", b"abc") > 0);
    assert_eq!(compare_bytes(b"", b""), 0);
}

#[test]
fn error_carries_added_data() {
    let e = Error::new(ErrorKind::DuplicateFeed("f".to_string()));
    assert!(e.data.is_none());
    let e = e.with_data("feed[f]");
    assert_eq!(e.data.as_deref(), Some("feed[f]"));
    assert!(matches!(e.kind, ErrorKind::DuplicateFeed(ref n) if n == "f"));
    let mut e = e;
    e.with_data_mut("other");
    assert_eq!(e.data.as_deref(), Some("other"));
    assert!(!e.is_not_found());
    assert!(io_error(IoErrorKind::NotFound).is_not_found());
}
