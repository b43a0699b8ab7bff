use vstd::prelude::*;

use crate::error::{Error, ErrorKind};
use crate::text::{parse_url, url_parse};

verus! {

/// The link of each item of the RSS 2.0 channel that `xml` holds, or `None`
/// where `xml` is not such a channel.
pub uninterp spec fn rss_item_links(xml: Seq<u8>) -> Option<Seq<Option<Seq<char>>>>;

/// The link targets of each entry of the Atom feed that `xml` holds, or
/// `None` where `xml` is not such a feed.
pub uninterp spec fn atom_entry_links(xml: Seq<u8>) -> Option<Seq<Seq<Seq<char>>>>;

/// The characters of each string, in order.
pub open spec fn texts(v: Seq<String>) -> Seq<Seq<char>> {
    v.map_values(|s: String| s@)
}

/// The present values among optional texts, in order.
pub open spec fn present(s: Seq<Option<Seq<char>>>) -> Seq<Seq<char>>
    decreases s.len(),
{
    if s.len() == 0 {
        Seq::empty()
    } else {
        present(s.drop_last()) + match s.last() {
            Some(t) => seq![t],
            None => Seq::empty(),
        }
    }
}

/// The texts of each group, one group after the other.
pub open spec fn concat_all(s: Seq<Seq<Seq<char>>>) -> Seq<Seq<char>>
    decreases s.len(),
{
    if s.len() == 0 {
        Seq::empty()
    } else {
        concat_all(s.drop_last()) + s.last()
    }
}

/// The serialized URL of each candidate that parses as one, in order;
/// candidates that do not parse are left out.
pub open spec fn url_links(cands: Seq<Seq<char>>) -> Seq<Seq<char>>
    decreases cands.len(),
{
    if cands.len() == 0 {
        Seq::empty()
    } else {
        url_links(cands.drop_last()) + match url_parse(cands.last()) {
            Some(u) => seq![u],
            None => Seq::empty(),
        }
    }
}

/// Relies on `rss::Channel::read_from`, `Channel::items` and `Item::link`:
/// whether `xml` reads as an RSS 2.0 channel, and its item links.
#[verifier::external_body]
fn read_rss(xml: &[u8]) -> (r: Option<RssChannel>)
    ensures
        r is Some <==> rss_item_links(xml@) is Some,
        r matches Some(c) ==> rss_item_links(xml@) == Some(c@),
{
    let channel = rss::Channel::read_from(xml).ok()?;
    let item_links = channel.items().iter().map(|i| i.link().map(String::from)).collect();
    Some(RssChannel { item_links })
}

/// Relies on `atom_syndication::Feed::read_from`, `Feed::entries`,
/// `Entry::links` and `Link::href`: whether `xml` reads as an Atom feed, and
/// the link targets of its entries.
#[verifier::external_body]
fn read_atom(xml: &[u8]) -> (r: Option<AtomFeed>)
    ensures
        r is Some <==> atom_entry_links(xml@) is Some,
        r matches Some(f) ==> atom_entry_links(xml@) == Some(f@),
{
    let feed = atom_syndication::Feed::read_from(xml).ok()?;
    let entry_links = feed.entries().iter().map(
        |e| e.links().iter().map(|l| String::from(l.href())).collect(),
    ).collect();
    Some(AtomFeed { entry_links })
}

/// The item links of the document that `xml` holds, where it reads in
/// exactly one of the two formats.
pub open spec fn parsed_links(xml: Seq<u8>) -> Option<Seq<Seq<char>>> {
    match (rss_item_links(xml), atom_entry_links(xml)) {
        (Some(items), None) => Some(url_links(present(items))),
        (None, Some(entries)) => Some(url_links(concat_all(entries))),
        _ => None,
    }
}

/// The error for `xml` where it does not read in exactly one format: an
/// ambiguous document, or one that reads in no format, which for a cache file
/// is an invalid cache.
pub open spec fn format_error(xml: Seq<u8>, feed_name: Seq<char>, cached: bool, e: Error) -> bool {
    &&& e.data is None
    &&& rss_item_links(xml) is Some && atom_entry_links(xml) is Some ==> (e.kind matches ErrorKind::AmbiguousFeed(n) && n@ == feed_name)
    &&& rss_item_links(xml) is None && atom_entry_links(xml) is None ==> if cached {
        e.kind matches ErrorKind::InvalidCache(n) && n@ == feed_name
    } else {
        e.kind matches ErrorKind::FeedIsNeitherAtomOrRss(n) && n@ == feed_name
    }
}

/// An RSS 2.0 channel, as the link of each of its items.
#[derive(Debug)]
pub struct RssChannel {
    pub item_links: Vec<Option<String>>,
}

impl View for RssChannel {
    type V = Seq<Option<Seq<char>>>;

    open spec fn view(&self) -> Seq<Option<Seq<char>>> {
        self.item_links@.map_values(
            |o: Option<String>|
                match o {
                    Some(s) => Some(s@),
                    None => None,
                },
        )
    }
}

/// An Atom feed, as the link targets of each of its entries.
#[derive(Debug)]
pub struct AtomFeed {
    pub entry_links: Vec<Vec<String>>,
}

impl View for AtomFeed {
    type V = Seq<Seq<Seq<char>>>;

    open spec fn view(&self) -> Seq<Seq<Seq<char>>> {
        self.entry_links@.map_values(|e: Vec<String>| texts(e@))
    }
}

/// A feed document in one of the two supported formats.
#[derive(Debug)]
pub enum RssOrAtomFeed {
    Rss2(RssChannel),
    Atom(AtomFeed),
}

impl RssOrAtomFeed {
    /// The link texts that the items carry, in document order.
    pub open spec fn candidates(&self) -> Seq<Seq<char>> {
        match self {
            RssOrAtomFeed::Rss2(c) => present(c@),
            RssOrAtomFeed::Atom(f) => concat_all(f@),
        }
    }

    /// The item links that parse as absolute URLs, serialized, in order.
    pub open spec fn link_seq(&self) -> Seq<Seq<char>> {
        url_links(self.candidates())
    }

    /// The set of item links of the document.
    pub open spec fn link_set(&self) -> Set<Seq<char>> {
        self.link_seq().to_set()
    }

    /// The link texts that the items carry, in document order.
    pub fn link_candidates(&self) -> (r: Vec<String>)
        ensures
            texts(r@) == self.candidates(),
    {
        let mut r: Vec<String> = Vec::new();
        match self {
            RssOrAtomFeed::Rss2(c) => {
                let mut i: usize = 0;
                while i < c.item_links.len()
                    invariant
                        i <= c.item_links.len(),
                        texts(r@) == present(c@.subrange(0, i as int)),
                    decreases c.item_links.len() - i,
                {
                    proof {
                        assert(c@.subrange(0, i + 1).drop_last() =~= c@.subrange(0, i as int));
                    }
                    if let Some(l) = &c.item_links[i] {
                        r.push(l.clone());
                    }
                    assert(texts(r@) =~= present(c@.subrange(0, i + 1)));
                    i = i + 1;
                }
                assert(c@.subrange(0, i as int) =~= c@);
            },
            RssOrAtomFeed::Atom(f) => {
                let mut i: usize = 0;
                while i < f.entry_links.len()
                    invariant
                        i <= f.entry_links.len(),
                        texts(r@) == concat_all(f@.subrange(0, i as int)),
                    decreases f.entry_links.len() - i,
                {
                    let entry = &f.entry_links[i];
                    let mut j: usize = 0;
                    while j < entry.len()
                        invariant
                            i < f.entry_links.len(),
                            entry == f.entry_links@[i as int],
                            j <= entry.len(),
                            texts(r@) == concat_all(f@.subrange(0, i as int)) + texts(
                                entry@,
                            ).subrange(0, j as int),
                        decreases entry.len() - j,
                    {
                        let ghost prev = r@;
                        r.push(entry[j].clone());
                        assert(texts(entry@).subrange(0, j + 1) =~= texts(entry@).subrange(
                            0,
                            j as int,
                        ).push(entry@[j as int]@));
                        assert(texts(r@) =~= texts(prev).push(entry@[j as int]@));
                        assert(texts(r@) =~= concat_all(f@.subrange(0, i as int)) + texts(
                            entry@,
                        ).subrange(0, j + 1));
                        j = j + 1;
                    }
                    proof {
                        assert(f@.subrange(0, i + 1).drop_last() =~= f@.subrange(0, i as int));
                        assert(texts(entry@).subrange(0, j as int) =~= texts(entry@));
                    }
                    assert(texts(r@) =~= concat_all(f@.subrange(0, i + 1)));
                    i = i + 1;
                }
                assert(f@.subrange(0, i as int) =~= f@);
            },
        }
        r
    }

    /// The item links that parse as absolute URLs, serialized, in document
    /// order; items without a link, or whose link does not parse, are left out.
    pub fn get_links(&self) -> (r: Vec<String>)
        ensures
            texts(r@) == self.link_seq(),
    {
        let cands = self.link_candidates();
        let mut r: Vec<String> = Vec::new();
        let mut i: usize = 0;
        while i < cands.len()
            invariant
                i <= cands.len(),
                texts(cands@) == self.candidates(),
                texts(r@) == url_links(texts(cands@).subrange(0, i as int)),
            decreases cands.len() - i,
        {
            proof {
                assert(texts(cands@).subrange(0, i + 1).drop_last() =~= texts(cands@).subrange(
                    0,
                    i as int,
                ));
            }
            match parse_url(cands[i].as_str()) {
                Ok(u) => r.push(u),
                Err(_) => {},
            }
            assert(texts(r@) =~= url_links(texts(cands@).subrange(0, i + 1)));
            i = i + 1;
        }
        assert(texts(cands@).subrange(0, i as int) =~= texts(cands@));
        r
    }
}

} // verus!

verus! {

/// Picks the one format that a document read as: a document read as both is
/// ambiguous, one read as neither fails with `neither`.
pub fn select_format(
    feed_name: &str,
    rss: Option<RssChannel>,
    atom: Option<AtomFeed>,
    neither: ErrorKind,
) -> (r: Result<RssOrAtomFeed, Error>)
    ensures
        match (rss, atom) {
            (Some(c), None) => r == Ok::<RssOrAtomFeed, Error>(RssOrAtomFeed::Rss2(c)),
            (None, Some(f)) => r == Ok::<RssOrAtomFeed, Error>(RssOrAtomFeed::Atom(f)),
            (Some(_), Some(_)) => r matches Err(e) && e.data is None && (
            e.kind matches ErrorKind::AmbiguousFeed(n) && n@ == feed_name@),
            (None, None) => r matches Err(e) && e.data is None && e.kind == neither,
        },
{
    match (rss, atom) {
        (Some(c), None) => Ok(RssOrAtomFeed::Rss2(c)),
        (None, Some(f)) => Ok(RssOrAtomFeed::Atom(f)),
        (Some(_), Some(_)) => Err(Error::new(ErrorKind::AmbiguousFeed(feed_name.to_string()))),
        (None, None) => Err(Error::new(neither)),
    }
}

fn read_document(feed_name: &str, xml: &[u8], cached: bool) -> (r: Result<
    RssOrAtomFeed,
    Error,
>)
    ensures
        r is Ok <==> parsed_links(xml@) is Some,
        r matches Ok(f) ==> parsed_links(xml@) == Some(f.link_seq()),
        r matches Err(e) ==> format_error(xml@, feed_name@, cached, e),
{
    let neither = if cached {
        ErrorKind::InvalidCache(feed_name.to_string())
    } else {
        ErrorKind::FeedIsNeitherAtomOrRss(feed_name.to_string())
    };
    let rss = read_rss(xml);
    let atom = read_atom(xml);
    select_format(feed_name, rss, atom, neither)
}

/// Reads a fetched body as a feed document, in whichever of the two formats
/// it is written.
pub fn parse_feed(feed_name: &str, xml: &[u8]) -> (r: Result<RssOrAtomFeed, Error>)
    ensures
        r is Ok <==> parsed_links(xml@) is Some,
        r matches Ok(f) ==> parsed_links(xml@) == Some(f.link_seq()),
        r matches Err(e) ==> format_error(xml@, feed_name@, false, e),
{
    read_document(feed_name, xml, false)
}

/// Reads the contents of a cache file as a feed document, in whichever of the
/// two formats it is written.
pub fn parse_cached_feed(feed_name: &str, xml: &[u8]) -> (r: Result<RssOrAtomFeed, Error>)
    ensures
        r is Ok <==> parsed_links(xml@) is Some,
        r matches Ok(f) ==> parsed_links(xml@) == Some(f.link_seq()),
        r matches Err(e) ==> format_error(xml@, feed_name@, true, e),
{
    read_document(feed_name, xml, true)
}

} // verus!
