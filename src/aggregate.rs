use vstd::prelude::*;
use vstd::utf8::{encode_utf8, encode_utf8_decode_utf8};

use crate::error::Error;
use crate::feed::texts;

verus! {

/// Lexicographic order on byte strings: a proper prefix comes first.
pub open spec fn lex_lt(a: Seq<u8>, b: Seq<u8>) -> bool
    decreases a.len(),
{
    if a.len() == 0 {
        b.len() > 0
    } else if b.len() == 0 {
        false
    } else if a[0] != b[0] {
        a[0] < b[0]
    } else {
        lex_lt(a.drop_first(), b.drop_first())
    }
}

/// Strictly increasing in the order of the texts' UTF-8 encodings, which is
/// the order of their characters' code points.
pub open spec fn strictly_sorted(v: Seq<Seq<char>>) -> bool {
    forall|i: int, j: int|
        0 <= i < j < v.len() ==> lex_lt(#[trigger] encode_utf8(v[i]), #[trigger] encode_utf8(v[j]))
}

/// Every link of every successful result.
pub open spec fn union_of_ok(results: Seq<Result<Vec<String>, Error>>) -> Set<Seq<char>> {
    Set::new(
        |u: Seq<char>|
            exists|i: int|
                0 <= i < results.len() && (#[trigger] results[i] matches Ok(v) && texts(
                    v@,
                ).contains(u)),
    )
}

pub proof fn lemma_lex_irreflexive(a: Seq<u8>)
    ensures
        !lex_lt(a, a),
    decreases a.len(),
{
    if a.len() > 0 {
        lemma_lex_irreflexive(a.drop_first());
    }
}

pub proof fn lemma_lex_transitive(a: Seq<u8>, b: Seq<u8>, c: Seq<u8>)
    requires
        lex_lt(a, b),
        lex_lt(b, c),
    ensures
        lex_lt(a, c),
    decreases a.len(),
{
    if a.len() > 0 && b.len() > 0 && c.len() > 0 && a[0] == b[0] && b[0] == c[0] {
        lemma_lex_transitive(a.drop_first(), b.drop_first(), c.drop_first());
    }
}

/// Compares two byte strings: negative, zero or positive as `a` comes
/// before, equals or comes after `b`.
pub fn compare_bytes(a: &[u8], b: &[u8]) -> (r: i8)
    ensures
        (r < 0) == lex_lt(a@, b@),
        (r == 0) == (a@ == b@),
        (r > 0) == lex_lt(b@, a@),
{
    let mut i: usize = 0;
    assert(a@.skip(0) =~= a@);
    assert(b@.skip(0) =~= b@);
    while i < a.len() && i < b.len()
        invariant
            i <= a.len(),
            i <= b.len(),
            a@.subrange(0, i as int) == b@.subrange(0, i as int),
            lex_lt(a@, b@) == lex_lt(a@.skip(i as int), b@.skip(i as int)),
            lex_lt(b@, a@) == lex_lt(b@.skip(i as int), a@.skip(i as int)),
        decreases a.len() - i,
    {
        assert(a@.skip(i as int).drop_first() =~= a@.skip(i + 1));
        assert(b@.skip(i as int).drop_first() =~= b@.skip(i + 1));
        if a[i] < b[i] {
            return -1;
        }
        if a[i] > b[i] {
            return 1;
        }
        assert(a@.subrange(0, i + 1) =~= a@.subrange(0, i as int).push(a@[i as int]));
        assert(b@.subrange(0, i + 1) =~= b@.subrange(0, i as int).push(b@[i as int]));
        i = i + 1;
    }
    if i < b.len() {
        return -1;
    }
    if i < a.len() {
        return 1;
    }
    assert(a@ =~= a@.subrange(0, i as int));
    assert(b@ =~= b@.subrange(0, i as int));
    0
}

/// Adds `s` to a strictly sorted list, unless it is there already.
pub fn insert_sorted(v: &mut Vec<String>, s: String)
    requires
        strictly_sorted(texts(old(v)@)),
    ensures
        strictly_sorted(texts(final(v)@)),
        texts(final(v)@).to_set() == texts(old(v)@).to_set().insert(s@),
{
    let mut i: usize = 0;
    let mut placed = false;
    while i < v.len() && !placed
        invariant
            i <= v.len(),
            v@ == old(v)@,
            strictly_sorted(texts(v@)),
            forall|k: int| 0 <= k < i ==> lex_lt(encode_utf8(#[trigger] v@[k]@), encode_utf8(s@)),
            placed ==> i < v.len() && lex_lt(encode_utf8(s@), encode_utf8(v@[i as int]@)),
        decreases v.len() - i + if placed { 0int } else { 1int },
    {
        let c = compare_bytes(v[i].as_str().as_bytes(), s.as_str().as_bytes());
        if c == 0 {
            proof {
                encode_utf8_decode_utf8(v@[i as int]@);
                encode_utf8_decode_utf8(s@);
                assert(v@[i as int]@ == s@);
                assert(texts(v@)[i as int] == s@);
                assert(texts(v@).to_set() =~= texts(v@).to_set().insert(s@));
            }
            return;
        }
        if c > 0 {
            placed = true;
        } else {
            i = i + 1;
        }
    }
    let ghost prev = v@;
    v.insert(i, s);
    proof {
        assert(texts(v@) =~= texts(prev).insert(i as int, s@));
        assert forall|j: int, k: int|
            0 <= j < k < texts(v@).len() implies lex_lt(
            #[trigger] encode_utf8(texts(v@)[j]),
            #[trigger] encode_utf8(texts(v@)[k]),
        ) by {
            if k < i {
                assert(texts(v@)[j] == texts(prev)[j]);
                assert(texts(v@)[k] == texts(prev)[k]);
            } else if k == i {
                assert(texts(v@)[j] == prev[j]@);
            } else if j == i {
                assert(texts(v@)[k] == texts(prev)[k - 1]);
                if k - 1 > i {
                    lemma_lex_transitive(
                        encode_utf8(s@),
                        encode_utf8(texts(prev)[i as int]),
                        encode_utf8(texts(prev)[k - 1]),
                    );
                }
            } else if j < i {
                assert(texts(v@)[j] == texts(prev)[j]);
                assert(texts(v@)[k] == texts(prev)[k - 1]);
            } else {
                assert(texts(v@)[j] == texts(prev)[j - 1]);
                assert(texts(v@)[k] == texts(prev)[k - 1]);
            }
        }
        assert forall|x: Seq<char>| #[trigger]
            texts(v@).to_set().contains(x) == texts(prev).to_set().insert(s@).contains(x) by {
            if x == s@ {
                assert(texts(v@)[i as int] == x);
            }
            if texts(prev).contains(x) {
                let m = choose|m: int| 0 <= m < texts(prev).len() && texts(prev)[m] == x;
                if m < i {
                    assert(texts(v@)[m] == x);
                } else {
                    assert(texts(v@)[m + 1] == x);
                }
            }
            if texts(v@).contains(x) {
                let m = choose|m: int| 0 <= m < texts(v@).len() && texts(v@)[m] == x;
                if m < i {
                    assert(texts(prev)[m] == x);
                } else if m > i {
                    assert(texts(prev)[m - 1] == x);
                }
            }
        }
        assert(texts(v@).to_set() =~= texts(prev).to_set().insert(s@));
    }
}

/// A strictly sorted list of texts holds each text once.
pub proof fn lemma_strictly_sorted_no_duplicates(v: Seq<Seq<char>>)
    requires
        strictly_sorted(v),
    ensures
        v.no_duplicates(),
{
    assert forall|i: int, j: int| 0 <= i < v.len() && 0 <= j < v.len() && i != j implies v[i]
        != v[j] by {
        if v[i] == v[j] {
            lemma_lex_irreflexive(encode_utf8(v[i]));
            if i < j {
                assert(lex_lt(encode_utf8(v[i]), encode_utf8(v[j])));
            } else {
                assert(lex_lt(encode_utf8(v[j]), encode_utf8(v[i])));
            }
        }
    }
}

/// Gathers the links of every successful result into one list, in
/// increasing order and each once; failed results contribute nothing.
pub fn aggregate_new_links(results: &Vec<Result<Vec<String>, Error>>) -> (r: Vec<String>)
    ensures
        texts(r@).to_set() == union_of_ok(results@),
        strictly_sorted(texts(r@)),
        texts(r@).no_duplicates(),
{
    let mut r: Vec<String> = Vec::new();
    let mut i: usize = 0;
    assert(texts(r@).to_set() =~= union_of_ok(results@.subrange(0, 0)));
    while i < results.len()
        invariant
            i <= results.len(),
            strictly_sorted(texts(r@)),
            texts(r@).to_set() == union_of_ok(results@.subrange(0, i as int)),
        decreases results.len() - i,
    {
        let ghost before = texts(r@).to_set();
        if let Ok(links) = &results[i] {
            let mut j: usize = 0;
            assert(texts(links@).subrange(0, 0).to_set() =~= Set::<Seq<char>>::empty());
            assert(texts(r@).to_set() =~= before.union(texts(links@).subrange(0, 0).to_set()));
            while j < links.len()
                invariant
                    i < results.len(),
                    results@[i as int] == Ok::<Vec<String>, Error>(*links),
                    j <= links.len(),
                    strictly_sorted(texts(r@)),
                    texts(r@).to_set() == before.union(texts(links@).subrange(0, j as int).to_set()),
                decreases links.len() - j,
            {
                insert_sorted(&mut r, links[j].clone());
                assert(texts(links@).subrange(0, j + 1) =~= texts(links@).subrange(0, j as int).push(
                    links@[j as int]@,
                ));
                proof {
                    texts(links@).subrange(0, j as int).lemma_push_to_set_commute(
                        links@[j as int]@,
                    );
                }
                assert(texts(links@).subrange(0, j + 1).to_set() =~= texts(links@).subrange(
                    0,
                    j as int,
                ).to_set().insert(links@[j as int]@));
                assert(texts(r@).to_set() =~= before.union(
                    texts(links@).subrange(0, j + 1).to_set(),
                ));
                j = j + 1;
            }
            assert(texts(links@).subrange(0, j as int) =~= texts(links@));
        }
        proof {
            let upto = results@.subrange(0, i as int);
            let next = results@.subrange(0, i + 1);
            assert forall|u: Seq<char>| #[trigger]
                union_of_ok(next).contains(u) == (union_of_ok(upto).contains(u) || (
                results@[i as int] matches Ok(v) && texts(v@).contains(u))) by {
                if union_of_ok(next).contains(u) {
                    let k = choose|k: int|
                        0 <= k < next.len() && (#[trigger] next[k] matches Ok(v) && texts(
                            v@,
                        ).contains(u));
                    if k < i {
                        assert(upto[k] == next[k]);
                    }
                }
                if union_of_ok(upto).contains(u) {
                    let k = choose|k: int|
                        0 <= k < upto.len() && (#[trigger] upto[k] matches Ok(v) && texts(
                            v@,
                        ).contains(u));
                    assert(next[k] == upto[k]);
                }
                if results@[i as int] matches Ok(v) && texts(v@).contains(u) {
                    assert(next[i as int] == results@[i as int]);
                }
            }
            assert(texts(r@).to_set() =~= union_of_ok(next));
        }
        i = i + 1;
    }
    assert(results@.subrange(0, i as int) =~= results@);
    proof {
        lemma_strictly_sorted_no_duplicates(texts(r@));
    }
    r
}

/// A failed result hides no link of another: each link of each successful
/// result is in the output, whichever other results failed.
pub proof fn lemma_failure_hides_no_link(
    results: Seq<Result<Vec<String>, Error>>,
    i: int,
    u: Seq<char>,
)
    requires
        0 <= i < results.len(),
        results[i] matches Ok(v) && texts(v@).contains(u),
    ensures
        union_of_ok(results).contains(u),
{
}

/// With no new link in any successful result, the output is empty.
pub proof fn lemma_nothing_new_gives_empty_output(results: Seq<Result<Vec<String>, Error>>)
    requires
        forall|i: int| 0 <= i < results.len() ==> (#[trigger] results[i] matches Ok(v) ==> v@.len() == 0),
    ensures
        union_of_ok(results) == Set::<Seq<char>>::empty(),
{
    assert(union_of_ok(results) =~= Set::<Seq<char>>::empty());
}

} // verus!
