use vstd::prelude::*;

use crate::error::{Error, ErrorKind, IoError};
use crate::text::{parse_url, trim_text, trim_of, url_parse};

verus! {

/// One regular file of the configuration directory, as it was listed and read.
#[derive(Debug)]
pub struct ConfEntry {
    /// The file name, where it is valid text.
    pub file_name: Option<String>,
    /// A lossy rendering of the file name, for diagnostics.
    pub display_name: String,
    /// The file's contents, or the failure to read them.
    pub contents: Result<String, IoError>,
}

/// A feed's name and the serialization of its URL.
#[derive(Debug)]
pub struct FeedUrl {
    pub name: String,
    pub url: String,
}

/// The URL that the entry's trimmed contents parse as, if any.
pub open spec fn entry_url(e: ConfEntry) -> Option<Seq<char>> {
    match e.contents {
        Ok(c) => url_parse(trim_of(c@)),
        Err(_) => None,
    }
}

/// A text file name whose trimmed contents parse as an absolute URL.
pub open spec fn entry_valid(e: ConfEntry) -> bool {
    e.file_name is Some && entry_url(e) is Some
}

/// The entry's file name as text, if it is text.
pub open spec fn name_view(e: ConfEntry) -> Option<Seq<char>> {
    match e.file_name {
        Some(n) => Some(n@),
        None => None,
    }
}

/// Whether an entry before `k` has the same name as the entry at `k`.
pub open spec fn name_taken(es: Seq<ConfEntry>, k: int) -> bool {
    exists|j: int| 0 <= j < k && name_view(#[trigger] es[j]) == name_view(es[k])
}

/// Every entry valid, and no two with one name.
pub open spec fn loads(es: Seq<ConfEntry>) -> bool {
    forall|k: int| 0 <= k < es.len() ==> entry_valid(#[trigger] es[k]) && !name_taken(es, k)
}

/// The error that the entry at `k` raises: its name is not text, its
/// contents could not be read or are not a URL, or its name was taken.
pub open spec fn entry_error(es: Seq<ConfEntry>, k: int, e: Error) -> bool {
    &&& e.data is None
    &&& match es[k].file_name {
        None => e.kind matches ErrorKind::InvalidFilename(n) && n@ == es[k].display_name@,
        Some(name) => match es[k].contents {
            Err(io) => e.kind == ErrorKind::IoErr(io),
            Ok(c) => if url_parse(trim_of(c@)) is None {
                e.kind matches ErrorKind::InvalidUrl { url, .. } && url@ == c@
            } else {
                name_taken(es, k) && (e.kind matches ErrorKind::DuplicateFeed(n) && n@ == name@)
            },
        },
    }
}

/// Whether `feeds` holds a feed named `name`.
fn has_feed(feeds: &Vec<FeedUrl>, name: &String) -> (r: bool)
    ensures
        r == exists|k: int| 0 <= k < feeds.len() && feeds@[k].name@ == name@,
{
    let mut i: usize = 0;
    while i < feeds.len()
        invariant
            i <= feeds.len(),
            forall|k: int| 0 <= k < i ==> feeds@[k].name@ != name@,
        decreases feeds.len() - i,
    {
        if feeds[i].name == *name {
            return true;
        }
        i = i + 1;
    }
    false
}

/// Builds the feed mapping from the configuration directory's regular files,
/// in the order given: each file's name is the feed's name and its trimmed
/// contents the feed's URL. The first entry that is not valid, or repeats a
/// name, fails the whole load.
pub fn walk_conf_dir(entries: Vec<ConfEntry>) -> (r: Result<Vec<FeedUrl>, Error>)
    ensures
        r is Ok <==> loads(entries@),
        r matches Ok(v) ==> {
            &&& v.len() == entries.len()
            &&& forall|k: int|
                0 <= k < v.len() ==> (#[trigger] v@[k]).name@ == entries@[k].file_name->0@
                    && v@[k].url@ == entry_url(entries@[k])->0
        },
        r matches Err(e) ==> exists|k: int|
            0 <= k < entries.len() && loads(entries@.subrange(0, k)) && entry_error(
                entries@,
                k,
                e,
            ),
{
    let ghost orig = entries@;
    let n = entries.len();
    let mut rest = entries;
    let mut feeds: Vec<FeedUrl> = Vec::new();
    let mut i: usize = 0;
    while i < n
        invariant
            orig == entries@,
            n == orig.len(),
            i <= n,
            rest@ == orig.subrange(i as int, n as int),
            feeds.len() == i,
            loads(orig.subrange(0, i as int)),
            forall|k: int|
                0 <= k < i ==> (#[trigger] feeds@[k]).name@ == orig[k].file_name->0@
                    && feeds@[k].url@ == entry_url(orig[k])->0,
        decreases n - i,
    {
        let entry = rest.remove(0);
        assert(entry == orig[i as int]);
        assert(orig.subrange(0, i as int) =~= orig.subrange(0, i + 1).subrange(0, i as int));
        let ConfEntry { file_name, display_name, contents } = entry;
        let name = match file_name {
            Some(name) => name,
            None => {
                let err = Error::new(ErrorKind::InvalidFilename(display_name));
                assert(entry_error(orig, i as int, err) && !entry_valid(orig[i as int]));
                assert(!loads(orig));
                return Err(err);
            },
        };
        let text = match contents {
            Ok(text) => text,
            Err(io) => {
                let err = Error::new(ErrorKind::IoErr(io));
                assert(entry_error(orig, i as int, err) && !entry_valid(orig[i as int]));
                assert(!loads(orig));
                return Err(err);
            },
        };
        let url = match parse_url(trim_text(text.as_str())) {
            Ok(url) => url,
            Err(reason) => {
                let err = Error::new(ErrorKind::InvalidUrl { reason, url: text });
                assert(entry_error(orig, i as int, err) && !entry_valid(orig[i as int]));
                assert(!loads(orig));
                return Err(err);
            },
        };
        if has_feed(&feeds, &name) {
            proof {
                let k = choose|k: int| 0 <= k < feeds.len() && feeds@[k].name@ == name@;
                assert(orig.subrange(0, i as int)[k] == orig[k]);
                assert(entry_valid(orig.subrange(0, i as int)[k]));
                assert(orig[k].file_name is Some);
                assert(orig[k].file_name->0@ == name@);
                assert(name_view(orig[k]) == name_view(orig[i as int]));
            }
            let err = Error::new(ErrorKind::DuplicateFeed(name));
            assert(entry_error(orig, i as int, err) && name_taken(orig, i as int));
            assert(!loads(orig));
            return Err(err);
        }
        proof {
            assert(!name_taken(orig, i as int)) by {
                if name_taken(orig, i as int) {
                    let j = choose|j: int|
                        0 <= j < i && name_view(#[trigger] orig[j]) == name_view(orig[i as int]);
                    assert(feeds@[j].name@ == name@);
                }
            }
            assert forall|k: int| 0 <= k < i + 1 implies entry_valid(
                #[trigger] orig.subrange(0, i + 1)[k],
            ) && !name_taken(orig.subrange(0, i + 1), k) by {
                assert(orig.subrange(0, i + 1)[k] == orig[k]);
                if k < i {
                    assert(orig.subrange(0, i as int)[k] == orig[k]);
                    assert(entry_valid(orig.subrange(0, i as int)[k]));
                    assert(!name_taken(orig.subrange(0, i as int), k));
                    if name_taken(orig.subrange(0, i + 1), k) {
                        let pre = orig.subrange(0, i + 1);
                        let j = choose|j: int|
                            0 <= j < k && name_view(#[trigger] pre[j]) == name_view(pre[k]);
                        assert(orig.subrange(0, i as int)[j] == orig[j]);
                    }
                } else {
                    if name_taken(orig.subrange(0, i + 1), k) {
                        let pre = orig.subrange(0, i + 1);
                        let j = choose|j: int|
                            0 <= j < k && name_view(#[trigger] pre[j]) == name_view(pre[k]);
                        assert(name_view(orig[j]) == name_view(orig[i as int]));
                    }
                }
            }
        }
        feeds.push(FeedUrl { name, url });
        i = i + 1;
    }
    assert(orig.subrange(0, n as int) =~= orig);
    Ok(feeds)
}

} // verus!
