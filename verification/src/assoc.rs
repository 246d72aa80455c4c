//! Association sequences keyed by byte strings, abstracted to `Map`.
//!
//! The registry keeps its tables as vectors of entries with unique keys;
//! contracts speak of the `Map` such a sequence denotes.

use vstd::prelude::*;

verus! {

/// The map denoted by a sequence of key-value pairs. Later entries would
/// shadow earlier ones, but every use keeps the keys unique.
pub open spec fn assoc_map<V>(s: Seq<(Seq<u8>, V)>) -> Map<Seq<u8>, V>
    decreases s.len(),
{
    if s.len() == 0 {
        Map::empty()
    } else {
        assoc_map(s.drop_last()).insert(s.last().0, s.last().1)
    }
}

/// No two entries share a key.
pub open spec fn assoc_keys_unique<V>(s: Seq<(Seq<u8>, V)>) -> bool {
    forall|i: int, j: int|
        0 <= i < j < s.len() ==> (#[trigger] s[i]).0 != (#[trigger] s[j]).0
}

/// With unique keys, the map holds exactly the entries of the sequence.
pub proof fn lemma_assoc_map_entries<V>(s: Seq<(Seq<u8>, V)>)
    requires
        assoc_keys_unique(s),
    ensures
        forall|i: int|
            0 <= i < s.len() ==> assoc_map(s).dom().contains((#[trigger] s[i]).0)
                && assoc_map(s)[s[i].0] == s[i].1,
        forall|k: Seq<u8>|
            #[trigger] assoc_map(s).dom().contains(k) ==> exists|i: int|
                0 <= i < s.len() && (#[trigger] s[i]).0 == k,
    decreases s.len(),
{
    if s.len() > 0 {
        let prefix = s.drop_last();
        assert(assoc_keys_unique(prefix));
        lemma_assoc_map_entries(prefix);
        assert forall|i: int| 0 <= i < s.len() implies assoc_map(s).dom().contains(
            (#[trigger] s[i]).0,
        ) && assoc_map(s)[s[i].0] == s[i].1 by {
            if i < s.len() - 1 {
                assert(prefix[i] == s[i]);
                assert(s[i].0 != s[s.len() - 1].0);
            }
        }
        assert forall|k: Seq<u8>| #[trigger] assoc_map(s).dom().contains(k) implies exists|i: int|
            0 <= i < s.len() && (#[trigger] s[i]).0 == k by {
            if k != s.last().0 {
                assert(assoc_map(prefix).dom().contains(k));
                let i = choose|i: int| 0 <= i < prefix.len() && (#[trigger] prefix[i]).0 == k;
                assert(s[i] == prefix[i]);
            } else {
                assert(s[s.len() - 1].0 == k);
            }
        }
    }
}

/// Replacing the entry at `i` by one with the same key updates the map at
/// that key alone.
pub proof fn lemma_assoc_map_update<V>(s: Seq<(Seq<u8>, V)>, i: int, p: (Seq<u8>, V))
    requires
        assoc_keys_unique(s),
        0 <= i < s.len(),
        p.0 == s[i].0,
    ensures
        assoc_keys_unique(s.update(i, p)),
        assoc_map(s.update(i, p)) == assoc_map(s).insert(p.0, p.1),
    decreases s.len(),
{
    let t = s.update(i, p);
    assert forall|x: int, y: int| 0 <= x < y < t.len() implies (#[trigger] t[x]).0 != (
    #[trigger] t[y]).0 by {
        assert(s[x].0 != s[y].0);
    }
    if i == s.len() - 1 {
        assert(t.drop_last() =~= s.drop_last());
        assert(assoc_map(t) == assoc_map(s.drop_last()).insert(p.0, p.1));
        assert(assoc_map(s).insert(p.0, p.1) =~= assoc_map(s.drop_last()).insert(p.0, p.1));
    } else {
        assert(t.drop_last() =~= s.drop_last().update(i, p));
        assert(t.last() == s.last());
        lemma_assoc_map_update(s.drop_last(), i, p);
        assert(s.drop_last()[i] == s[i]);
        assert(assoc_map(t) == assoc_map(s.drop_last()).insert(p.0, p.1).insert(
            s.last().0,
            s.last().1,
        ));
        assert(p.0 != s.last().0);
        assert(assoc_map(s.drop_last()).insert(p.0, p.1).insert(s.last().0, s.last().1)
            =~= assoc_map(s).insert(p.0, p.1));
    }
}

/// Appending an entry with a fresh key inserts it into the map.
pub proof fn lemma_assoc_map_push<V>(s: Seq<(Seq<u8>, V)>, p: (Seq<u8>, V))
    requires
        assoc_keys_unique(s),
        forall|i: int| 0 <= i < s.len() ==> (#[trigger] s[i]).0 != p.0,
    ensures
        assoc_keys_unique(s.push(p)),
        assoc_map(s.push(p)) == assoc_map(s).insert(p.0, p.1),
{
    let t = s.push(p);
    assert(t.drop_last() =~= s);
    assert forall|x: int, y: int| 0 <= x < y < t.len() implies (#[trigger] t[x]).0 != (
    #[trigger] t[y]).0 by {
        if y < s.len() {
            assert(s[x].0 != s[y].0);
        } else {
            assert(t[y] == p);
            assert(t[x] == s[x]);
        }
    }
}

/// Deleting the entry at `i` removes its key from the map.
pub proof fn lemma_assoc_map_remove<V>(s: Seq<(Seq<u8>, V)>, i: int)
    requires
        assoc_keys_unique(s),
        0 <= i < s.len(),
    ensures
        assoc_keys_unique(s.remove(i)),
        assoc_map(s.remove(i)) == assoc_map(s).remove(s[i].0),
    decreases s.len(),
{
    let t = s.remove(i);
    assert forall|x: int, y: int| 0 <= x < y < t.len() implies (#[trigger] t[x]).0 != (
    #[trigger] t[y]).0 by {
        let sx: int = if x < i { x } else { x + 1 };
        let sy: int = if y < i { y } else { y + 1 };
        assert(t[x] == s[sx]);
        assert(t[y] == s[sy]);
        assert(s[sx].0 != s[sy].0);
    }
    lemma_assoc_map_entries(s.drop_last());
    if i == s.len() - 1 {
        assert(t =~= s.drop_last());
        assert(!assoc_map(s.drop_last()).dom().contains(s[i].0)) by {
            if assoc_map(s.drop_last()).dom().contains(s[i].0) {
                let j = choose|j: int|
                    0 <= j < s.drop_last().len() && (#[trigger] s.drop_last()[j]).0 == s[i].0;
                assert(s[j].0 == s[i].0);
            }
        }
        assert(assoc_map(s).remove(s[i].0) =~= assoc_map(s.drop_last()));
    } else {
        assert(t.drop_last() =~= s.drop_last().remove(i));
        assert(t.last() == s.last());
        lemma_assoc_map_remove(s.drop_last(), i);
        assert(s.drop_last()[i] == s[i]);
        assert(assoc_map(t) == assoc_map(s.drop_last()).remove(s[i].0).insert(
            s.last().0,
            s.last().1,
        ));
        assert(s[i].0 != s.last().0);
        assert(assoc_map(s.drop_last()).remove(s[i].0).insert(s.last().0, s.last().1)
            =~= assoc_map(s).remove(s[i].0));
    }
}

/// No element occurs twice.
pub open spec fn distinct_seq(s: Seq<Seq<u8>>) -> bool {
    forall|i: int, j: int| 0 <= i < j < s.len() ==> s[i] != s[j]
}

/// The sequence with the first occurrence of `a` deleted; unchanged when
/// `a` does not occur.
pub open spec fn remove_first(s: Seq<Seq<u8>>, a: Seq<u8>) -> Seq<Seq<u8>>
    decreases s.len(),
{
    if s.len() == 0 {
        s
    } else if s[0] == a {
        s.skip(1)
    } else {
        seq![s[0]] + remove_first(s.skip(1), a)
    }
}

/// Deleting the first occurrence is deleting at its index.
pub proof fn lemma_remove_first_at(s: Seq<Seq<u8>>, i: int)
    requires
        0 <= i < s.len(),
        forall|j: int| 0 <= j < i ==> s[j] != s[i],
    ensures
        remove_first(s, s[i]) == s.remove(i),
    decreases i,
{
    if i == 0 {
        assert(s.skip(1) =~= s.remove(0));
    } else {
        let tail = s.skip(1);
        assert(tail[i - 1] == s[i]);
        assert forall|j: int| 0 <= j < i - 1 implies #[trigger] tail[j] != tail[i - 1] by {
            assert(tail[j] == s[j + 1]);
        }
        lemma_remove_first_at(tail, i - 1);
        assert(seq![s[0]] + tail.remove(i - 1) =~= s.remove(i));
    }
}

/// Deleting an absent element changes nothing.
pub proof fn lemma_remove_first_absent(s: Seq<Seq<u8>>, a: Seq<u8>)
    requires
        !s.contains(a),
    ensures
        remove_first(s, a) == s,
    decreases s.len(),
{
    if s.len() > 0 {
        assert(s[0] != a);
        assert(!s.skip(1).contains(a)) by {
            if s.skip(1).contains(a) {
                let j = choose|j: int| 0 <= j < s.skip(1).len() && s.skip(1)[j] == a;
                assert(s[j + 1] == a);
            }
        }
        lemma_remove_first_absent(s.skip(1), a);
        assert(seq![s[0]] + s.skip(1) =~= s);
    }
}

} // verus!
