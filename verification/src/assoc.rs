//! Header storage: an association list with unique keys, together
//! with the map it denotes.
//!
//! Headers are kept in insertion order in a `Vec` of pairs; the
//! contracts of everything built on top speak of the finite map the
//! list denotes.

use vstd::prelude::*;

verus! {

/// The views of the stored pairs.
pub open spec fn pairs_view(v: Seq<(String, String)>) -> Seq<(Seq<char>, Seq<char>)> {
    v.map_values(|p: (String, String)| (p.0@, p.1@))
}

/// No key occurs twice.
pub open spec fn keys_unique(hs: Seq<(Seq<char>, Seq<char>)>) -> bool {
    forall|i: int, j: int| 0 <= i < j < hs.len() ==> hs[i].0 != hs[j].0
}

/// The finite map an association list denotes, inserting the pairs
/// in order so that on a duplicate key the later pair wins.
pub open spec fn assoc_map(hs: Seq<(Seq<char>, Seq<char>)>) -> Map<Seq<char>, Seq<char>>
    decreases hs.len(),
{
    if hs.len() == 0 {
        Map::empty()
    } else {
        assoc_map(hs.drop_last()).insert(hs.last().0, hs.last().1)
    }
}

/// A key is in the map exactly when some pair carries it, and with
/// unique keys each pair's value is the one the map holds.
pub proof fn lemma_assoc_map_lookup(hs: Seq<(Seq<char>, Seq<char>)>)
    ensures
        forall|k: Seq<char>| #[trigger] assoc_map(hs).contains_key(k) <==> exists|i: int|
            0 <= i < hs.len() && #[trigger] hs[i].0 == k,
        keys_unique(hs) ==> forall|i: int|
            0 <= i < hs.len() ==> assoc_map(hs).contains_key(#[trigger] hs[i].0) && assoc_map(
                hs,
            )[hs[i].0] == hs[i].1,
    decreases hs.len(),
{
    if hs.len() > 0 {
        let d = hs.drop_last();
        lemma_assoc_map_lookup(d);
        assert(forall|i: int| 0 <= i < d.len() ==> #[trigger] d[i] == hs[i]);
        assert forall|k: Seq<char>| #[trigger] assoc_map(hs).contains_key(k) implies exists|i: int|
            0 <= i < hs.len() && #[trigger] hs[i].0 == k by {
            if k == hs.last().0 {
                assert(hs[hs.len() - 1].0 == k);
            } else {
                assert(assoc_map(d).contains_key(k));
                let i = choose|i: int| 0 <= i < d.len() && #[trigger] d[i].0 == k;
                assert(hs[i].0 == k);
            }
        }
        assert forall|k: Seq<char>|
            (exists|i: int| 0 <= i < hs.len() && #[trigger] hs[i].0 == k) implies #[trigger]
        assoc_map(hs).contains_key(k) by {
            let i = choose|i: int| 0 <= i < hs.len() && #[trigger] hs[i].0 == k;
            if i < hs.len() - 1 {
                assert(d[i].0 == k);
                assert(exists|j: int| 0 <= j < d.len() && #[trigger] d[j].0 == k);
                assert(assoc_map(d).contains_key(k));
            }
        }
        if keys_unique(hs) {
            assert(keys_unique(d)) by {
                assert forall|i: int, j: int| 0 <= i < j < d.len() implies #[trigger] d[i].0
                    != #[trigger] d[j].0 by {
                    assert(hs[i].0 != hs[j].0);
                }
            }
            assert forall|i: int| 0 <= i < hs.len() implies assoc_map(hs).contains_key(
                #[trigger] hs[i].0,
            ) && assoc_map(hs)[hs[i].0] == hs[i].1 by {
                assert(exists|j: int| 0 <= j < hs.len() && #[trigger] hs[j].0 == hs[i].0) by {
                    assert(0 <= i < hs.len() && hs[i].0 == hs[i].0);
                }
                assert(assoc_map(hs).contains_key(hs[i].0));
                if i < hs.len() - 1 {
                    assert(d[i].0 == hs[i].0 && d[i].1 == hs[i].1);
                    assert(assoc_map(d).contains_key(d[i].0) && assoc_map(d)[d[i].0] == d[i].1);
                    assert(hs[i].0 != hs[hs.len() - 1].0);
                    assert(assoc_map(hs)[hs[i].0] == assoc_map(d)[hs[i].0]);
                }
            }
        }
    }
}

/// Appending a pair with a fresh key inserts it into the map.
pub proof fn lemma_assoc_map_push(hs: Seq<(Seq<char>, Seq<char>)>, k: Seq<char>, v: Seq<char>)
    ensures
        assoc_map(hs.push((k, v))) == assoc_map(hs).insert(k, v),
{
    assert(hs.push((k, v)).drop_last() =~= hs);
    assert(hs.push((k, v)).last() == (k, v));
}

/// Replacing the pair that holds a key updates the map in place.
pub proof fn lemma_assoc_map_update(
    hs: Seq<(Seq<char>, Seq<char>)>,
    i: int,
    k: Seq<char>,
    v: Seq<char>,
)
    requires
        keys_unique(hs),
        0 <= i < hs.len(),
        hs[i].0 == k,
    ensures
        assoc_map(hs.update(i, (k, v))) == assoc_map(hs).insert(k, v),
    decreases hs.len(),
{
    let hs2 = hs.update(i, (k, v));
    let d = hs.drop_last();
    assert(keys_unique(d)) by {
        assert(forall|x: int, y: int| 0 <= x < y < d.len() ==> #[trigger] d[x].0 != #[trigger] d[y].0);
    }
    if i == hs.len() - 1 {
        assert(hs2.drop_last() =~= d);
        assert(assoc_map(hs2) == assoc_map(d).insert(k, v));
        assert(assoc_map(hs) == assoc_map(d).insert(k, hs[i].1));
        assert(assoc_map(d).insert(k, hs[i].1).insert(k, v) =~= assoc_map(d).insert(k, v));
    } else {
        lemma_assoc_map_update(d, i, k, v);
        assert(hs2.drop_last() =~= d.update(i, (k, v)));
        assert(hs2.last() == hs.last());
        assert(assoc_map(hs2) == assoc_map(d).insert(k, v).insert(hs.last().0, hs.last().1));
        assert(hs.last().0 != k) by {
            assert(hs[i].0 != hs[hs.len() - 1].0);
        }
        assert(assoc_map(d).insert(k, v).insert(hs.last().0, hs.last().1) =~= assoc_map(d).insert(
            hs.last().0,
            hs.last().1,
        ).insert(k, v));
    }
}

/// Inserts a pair into an association list the way a map insert
/// would: the later value wins, the position of an existing key is
/// kept, and the previous value is returned.
pub fn assoc_insert(v: &mut Vec<(String, String)>, name: String, value: String) -> (prev: Option<
    String,
>)
    requires
        keys_unique(pairs_view(old(v)@)),
    ensures
        keys_unique(pairs_view(final(v)@)),
        assoc_map(pairs_view(final(v)@)) == assoc_map(pairs_view(old(v)@)).insert(name@, value@),
        match prev {
            Some(p) => assoc_map(pairs_view(old(v)@)).contains_key(name@) && p@ == assoc_map(
                pairs_view(old(v)@),
            )[name@],
            None => !assoc_map(pairs_view(old(v)@)).contains_key(name@),
        },
        final(v)@.len() == if assoc_map(pairs_view(old(v)@)).contains_key(name@) {
            old(v)@.len()
        } else {
            old(v)@.len() + 1
        },
        !assoc_map(pairs_view(old(v)@)).contains_key(name@) ==> final(v)@ == old(v)@.push(
            (name, value),
        ),
        forall|i: int|
            0 <= i < old(v)@.len() && old(v)@[i].0@ != name@ ==> final(v)@[i] == old(v)@[i],
        forall|i: int|
            0 <= i < final(v)@.len() ==> final(v)@[i] == old(v)@[i] || final(v)@[i].0@ == name@
                && final(v)@[i].1@ == value@,
{
    let ghost hs0 = pairs_view(v@);
    proof {
        lemma_assoc_map_lookup(hs0);
    }
    let n = v.len();
    let mut i: usize = 0;
    while i < n
        invariant
            n == v@.len(),
            i <= n,
            hs0 == pairs_view(v@),
            keys_unique(hs0),
            v@ == old(v)@,
            forall|j: int| 0 <= j < i ==> v@[j].0@ != name@,
        decreases n - i,
    {
        if crate::text::str_eq(v[i].0.as_str(), name.as_str()) {
            proof {
                assert(hs0[i as int] == (v@[i as int].0@, v@[i as int].1@));
            }
            let ghost before = v@;
            let prev_val = v[i].1.clone();
            v[i] = (name, value);
            proof {
                assert(v@ == before.update(i as int, (name, value)));
                assert forall|x: int| 0 <= x < hs0.len() implies pairs_view(v@)[x] == hs0.update(
                    i as int,
                    (name@, value@),
                )[x] by {
                    assert(pairs_view(v@)[x] == (v@[x].0@, v@[x].1@));
                    if x != i {
                        assert(v@[x] == before[x]);
                        assert(hs0[x] == (before[x].0@, before[x].1@));
                    }
                }
                assert(pairs_view(v@) =~= hs0.update(i as int, (name@, value@)));
                assert(hs0[i as int].0 == name@);
                lemma_assoc_map_update(hs0, i as int, name@, value@);
                lemma_assoc_map_lookup(hs0);
                assert(assoc_map(hs0).contains_key(name@)) by {
                    assert(0 <= i < hs0.len() && hs0[i as int].0 == name@);
                }
                assert(assoc_map(hs0)[name@] == hs0[i as int].1);
                assert(keys_unique(pairs_view(v@))) by {
                    assert forall|x: int, y: int|
                        0 <= x < y < pairs_view(v@).len() implies pairs_view(v@)[x].0
                        != pairs_view(v@)[y].0 by {
                        assert(pairs_view(v@)[x] == hs0.update(i as int, (name@, value@))[x]);
                        assert(pairs_view(v@)[y] == hs0.update(i as int, (name@, value@))[y]);
                        assert(hs0[x].0 != hs0[y].0);
                        if x == i {
                            assert(hs0[x].0 == name@);
                        }
                        if y == i {
                            assert(hs0[y].0 == name@);
                        }
                    }
                }
            }
            return Some(prev_val);
        }
        proof {
            assert(hs0[i as int] == (v@[i as int].0@, v@[i as int].1@));
        }
        i = i + 1;
    }
    proof {
        lemma_assoc_map_lookup(hs0);
        assert(!assoc_map(hs0).contains_key(name@)) by {
            if assoc_map(hs0).contains_key(name@) {
                let j = choose|j: int| 0 <= j < hs0.len() && #[trigger] hs0[j].0 == name@;
                assert(hs0[j] == (v@[j].0@, v@[j].1@));
                assert(v@[j].0@ != name@);
            }
        }
    }
    let ghost before = v@;
    v.push((name, value));
    proof {
        assert forall|x: int| 0 <= x < v@.len() implies pairs_view(v@)[x] == hs0.push(
            (name@, value@),
        )[x] by {
            assert(pairs_view(v@)[x] == (v@[x].0@, v@[x].1@));
            if x < hs0.len() {
                assert(v@[x] == before[x]);
                assert(hs0[x] == (before[x].0@, before[x].1@));
            }
        }
        assert(pairs_view(v@) =~= hs0.push((name@, value@)));
        lemma_assoc_map_push(hs0, name@, value@);
        assert(keys_unique(pairs_view(v@))) by {
            assert forall|x: int, y: int|
                0 <= x < y < pairs_view(v@).len() implies pairs_view(v@)[x].0 != pairs_view(
                v@,
            )[y].0 by {
                assert(pairs_view(v@)[x] == hs0.push((name@, value@))[x]);
                assert(pairs_view(v@)[y] == hs0.push((name@, value@))[y]);
                if y < hs0.len() {
                    assert(hs0[x].0 != hs0[y].0);
                } else {
                    assert(hs0[x] == (before[x].0@, before[x].1@));
                    assert(before[x].0@ != name@);
                }
            }
        }
    }
    None
}

/// Looks a key up in an association list with unique keys.
pub fn assoc_lookup<'a>(v: &'a Vec<(String, String)>, name: &str) -> (r: Option<&'a str>)
    requires
        keys_unique(pairs_view(v@)),
    ensures
        match r {
            Some(val) => assoc_map(pairs_view(v@)).contains_key(name@) && val@ == assoc_map(
                pairs_view(v@),
            )[name@],
            None => !assoc_map(pairs_view(v@)).contains_key(name@),
        },
{
    let ghost hs = pairs_view(v@);
    proof {
        lemma_assoc_map_lookup(hs);
    }
    let n = v.len();
    let mut i: usize = 0;
    while i < n
        invariant
            n == v@.len(),
            i <= n,
            hs == pairs_view(v@),
            keys_unique(hs),
            forall|j: int| 0 <= j < i ==> v@[j].0@ != name@,
        decreases n - i,
    {
        if crate::text::str_eq(v[i].0.as_str(), name) {
            proof {
                lemma_assoc_map_lookup(hs);
                assert(hs[i as int] == (v@[i as int].0@, v@[i as int].1@));
                assert(hs[i as int].0 == name@);
                assert(assoc_map(hs).contains_key(name@)) by {
                    assert(0 <= i < hs.len() && hs[i as int].0 == name@);
                }
                assert(assoc_map(hs)[name@] == hs[i as int].1);
            }
            return Some(v[i].1.as_str());
        }
        proof {
            assert(hs[i as int] == (v@[i as int].0@, v@[i as int].1@));
        }
        i = i + 1;
    }
    proof {
        assert(!assoc_map(hs).contains_key(name@)) by {
            if assoc_map(hs).contains_key(name@) {
                let j = choose|j: int| 0 <= j < hs.len() && #[trigger] hs[j].0 == name@;
                assert(hs[j] == (v@[j].0@, v@[j].1@));
                assert(v@[j].0@ != name@);
            }
        }
    }
    None
}

} // verus!
