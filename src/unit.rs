use vstd::prelude::*;

use crate::diff::new_links;
use crate::error::{not_found, Error};
use crate::feed::{format_error, parse_cached_feed, parse_feed, parsed_links, texts, RssOrAtomFeed};

verus! {

/// The links that a unit reports: none on a first run (no cached links),
/// else the fresh links that the cache does not hold.
pub open spec fn reported_links(cached: Option<Set<Seq<char>>>, fresh: Set<Seq<char>>) -> Set<
    Seq<char>,
> {
    match cached {
        Some(c) => fresh.difference(c),
        None => Set::empty(),
    }
}

/// The link set of a cached document, if there is one.
pub open spec fn cached_link_set(cached: Option<RssOrAtomFeed>) -> Option<Set<Seq<char>>> {
    match cached {
        Some(c) => Some(c.link_set()),
        None => None,
    }
}

/// Decides a unit after its cache read: the cached document, `None` where
/// the cache file does not exist (a first run), or the unit's error.
pub fn read_cache_outcome(feed_name: &str, read: Result<Vec<u8>, Error>) -> (r: Result<
    Option<RssOrAtomFeed>,
    Error,
>)
    ensures
        read matches Ok(b) ==> {
            &&& r is Ok <==> parsed_links(b@) is Some
            &&& r matches Ok(c) ==> (c matches Some(d) && parsed_links(b@) == Some(d.link_seq()))
            &&& r matches Err(e) ==> format_error(b@, feed_name@, true, e)
        },
        read matches Err(e) ==> if not_found(e) {
            r matches Ok(None)
        } else {
            r == Err::<Option<RssOrAtomFeed>, Error>(e)
        },
{
    match read {
        Ok(bytes) => match parse_cached_feed(feed_name, bytes.as_slice()) {
            Ok(doc) => Ok(Some(doc)),
            Err(e) => Err(e),
        },
        Err(e) => {
            if e.is_not_found() {
                Ok(None)
            } else {
                Err(e)
            }
        },
    }
}

/// Decides a unit after its fetch: the links to report and the body to
/// write to the cache, or the unit's error, in which case nothing is written.
pub fn fetch_outcome(
    feed_name: &str,
    cached: Option<RssOrAtomFeed>,
    fetched: Result<Vec<u8>, Error>,
) -> (r: Result<(Vec<String>, Vec<u8>), Error>)
    ensures
        fetched matches Ok(b) ==> {
            &&& r is Ok <==> parsed_links(b@) is Some
            &&& r matches Ok(out) ==> {
                &&& out.1@ == b@
                &&& texts(out.0@).to_set() == reported_links(
                    cached_link_set(cached),
                    parsed_links(b@)->0.to_set(),
                )
                &&& texts(out.0@).no_duplicates()
            }
            &&& r matches Err(e) ==> format_error(b@, feed_name@, false, e)
        },
        fetched matches Err(e) ==> r == Err::<(Vec<String>, Vec<u8>), Error>(e),
{
    match fetched {
        Ok(bytes) => match parse_feed(feed_name, bytes.as_slice()) {
            Ok(doc) => {
                let links = match &cached {
                    Some(c) => new_links(Some(c), &doc),
                    None => Vec::new(),
                };
                assert(texts(links@).to_set() =~= reported_links(
                    cached_link_set(cached),
                    parsed_links(bytes@)->0.to_set(),
                ));
                Ok((links, bytes))
            },
            Err(e) => Err(e),
        },
        Err(e) => Err(e),
    }
}

/// A feed fetched again unchanged reports no new link: where the cached
/// document is the one read from the body that a run cached, and the next
/// fetch returns that same body, the unit reports nothing.
pub proof fn lemma_unchanged_feed_reports_nothing(cached: RssOrAtomFeed, xml: Seq<u8>)
    requires
        parsed_links(xml) == Some(cached.link_seq()),
    ensures
        reported_links(cached_link_set(Some(cached)), parsed_links(xml)->0.to_set())
            == Set::<Seq<char>>::empty(),
{
    assert(reported_links(cached_link_set(Some(cached)), parsed_links(xml)->0.to_set())
        =~= Set::<Seq<char>>::empty());
}

/// A first run reports no link, whatever the fetched document holds.
pub proof fn lemma_first_run_reports_nothing(fresh: Set<Seq<char>>)
    ensures
        reported_links(None, fresh) == Set::<Seq<char>>::empty(),
{
}

} // verus!
