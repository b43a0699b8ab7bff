use vstd::prelude::*;

use crate::feed::{texts, RssOrAtomFeed};

verus! {

/// The links of a cached document; none where there is no cached document.
pub open spec fn known_links(cached: Option<&RssOrAtomFeed>) -> Set<Seq<char>> {
    match cached {
        Some(c) => c.link_set(),
        None => Set::empty(),
    }
}

/// Whether `v` holds a string equal to `s`.
pub fn contains_text(v: &Vec<String>, s: &String) -> (r: bool)
    ensures
        r == texts(v@).contains(s@),
{
    let mut i: usize = 0;
    while i < v.len()
        invariant
            i <= v.len(),
            forall|k: int| 0 <= k < i ==> v@[k]@ != s@,
        decreases v.len() - i,
    {
        if v[i] == *s {
            assert(texts(v@)[i as int] == s@);
            return true;
        }
        i = i + 1;
    }
    proof {
        if texts(v@).contains(s@) {
            let k = choose|k: int| 0 <= k < texts(v@).len() && texts(v@)[k] == s@;
            assert(v@[k]@ == s@);
        }
    }
    false
}

/// The links of `fresh` that `cached` does not hold, each once; with no
/// cached document, every link of `fresh`.
pub fn new_links(cached: Option<&RssOrAtomFeed>, fresh: &RssOrAtomFeed) -> (r: Vec<String>)
    ensures
        texts(r@).to_set() == fresh.link_set().difference(known_links(cached)),
        texts(r@).no_duplicates(),
{
    let fl = fresh.get_links();
    let cl = match cached {
        Some(c) => c.get_links(),
        None => Vec::new(),
    };
    assert(texts(cl@).to_set() =~= known_links(cached));
    let mut r: Vec<String> = Vec::new();
    let mut i: usize = 0;
    while i < fl.len()
        invariant
            i <= fl.len(),
            texts(fl@) == fresh.link_seq(),
            texts(cl@).to_set() == known_links(cached),
            forall|x: Seq<char>|
                texts(r@).contains(x) <==> (texts(fl@).subrange(0, i as int).contains(x)
                    && !texts(cl@).contains(x)),
            texts(r@).no_duplicates(),
        decreases fl.len() - i,
    {
        let ghost prev = r@;
        let link = &fl[i];
        let in_cached = contains_text(&cl, link);
        let seen = contains_text(&r, link);
        if !in_cached && !seen {
            r.push(link.clone());
            assert(texts(r@) =~= texts(prev).push(link@));
        }
        proof {
            let before = texts(fl@).subrange(0, i as int);
            let after = texts(fl@).subrange(0, i + 1);
            assert(after =~= before.push(link@));
            assert forall|x: Seq<char>| #[trigger]
                texts(r@).contains(x) <==> (after.contains(x) && !texts(cl@).contains(x)) by {
                if texts(prev).contains(x) {
                    let k = choose|k: int| 0 <= k < texts(prev).len() && texts(prev)[k] == x;
                    assert(texts(r@)[k] == x);
                    let m = choose|m: int| 0 <= m < before.len() && before[m] == x;
                    assert(after[m] == x);
                }
                if texts(r@).contains(x) && !texts(prev).contains(x) {
                    let k = choose|k: int| 0 <= k < texts(r@).len() && texts(r@)[k] == x;
                    assert(k == prev.len());
                    assert(x == link@);
                    assert(after[i as int] == x);
                }
                if after.contains(x) && !texts(cl@).contains(x) {
                    let m = choose|m: int| 0 <= m < after.len() && after[m] == x;
                    if m < i {
                        assert(before[m] == x);
                    } else {
                        assert(x == link@);
                        if !seen {
                            assert(texts(r@)[prev.len() as int] == x);
                        }
                    }
                }
            }
        }
        i = i + 1;
    }
    assert(texts(fl@).subrange(0, i as int) =~= texts(fl@));
    assert(texts(r@).to_set() =~= fresh.link_set().difference(known_links(cached)));
    r
}

} // verus!
