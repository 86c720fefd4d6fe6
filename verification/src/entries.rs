//! Sequences of entries, each a key with its translation, in the order of
//! their keys, and the maps that they stand for.

use vstd::prelude::*;
use crate::text::{key_less, lemma_key_less_irreflexive};

verus! {

/// Each key comes before every key behind it.
pub open spec fn sorted_by_key(s: Seq<(Seq<char>, Seq<char>)>) -> bool {
    forall|i: int, j: int| 0 <= i < j < s.len() ==> key_less(#[trigger] s[i].0, #[trigger] s[j].0)
}

/// Some entry of `s` has the key `k`.
pub open spec fn has_key(s: Seq<(Seq<char>, Seq<char>)>, k: Seq<char>) -> bool {
    exists|i: int| 0 <= i < s.len() && #[trigger] s[i].0 == k
}

/// The place of an entry of `s` with the key `k`.
pub open spec fn index_of_key(s: Seq<(Seq<char>, Seq<char>)>, k: Seq<char>) -> int {
    choose|i: int| 0 <= i < s.len() && #[trigger] s[i].0 == k
}

/// The map that a sequence of entries stands for.
pub open spec fn map_of(s: Seq<(Seq<char>, Seq<char>)>) -> Map<Seq<char>, Seq<char>> {
    Map::new(|k: Seq<char>| has_key(s, k), |k: Seq<char>| s[index_of_key(s, k)].1)
}

/// The key of an entry of `s` is a key of `s`.
pub proof fn lemma_has_key_at(s: Seq<(Seq<char>, Seq<char>)>, i: int)
    requires
        0 <= i < s.len(),
    ensures
        has_key(s, s[i].0),
{
    assert(s[i].0 == s[i].0);
}

/// A key is among the first `k + 1` entries if it is among the first `k` or
/// is the key of the entry behind them.
pub proof fn lemma_has_key_take(s: Seq<(Seq<char>, Seq<char>)>, k: int, key: Seq<char>)
    requires
        0 <= k < s.len(),
    ensures
        has_key(s.take(k + 1), key) <==> has_key(s.take(k), key) || s[k].0 == key,
        !has_key(s.take(0), key),
        s.take(s.len() as int) == s,
{
    assert(s.take(s.len() as int) =~= s);
    if has_key(s.take(k + 1), key) {
        let i = index_of_key(s.take(k + 1), key);
        if i < k {
            assert(s.take(k)[i] == s.take(k + 1)[i]);
            lemma_has_key_at(s.take(k), i);
        }
    }
    if has_key(s.take(k), key) {
        let i = index_of_key(s.take(k), key);
        assert(s.take(k)[i] == s.take(k + 1)[i]);
        lemma_has_key_at(s.take(k + 1), i);
    }
    if s[k].0 == key {
        assert(s.take(k + 1)[k] == s[k]);
        lemma_has_key_at(s.take(k + 1), k);
    }
}

/// In a sorted sequence a key stands at one place only, so the map holds
/// every entry as it stands.
pub proof fn lemma_map_of_sorted(s: Seq<(Seq<char>, Seq<char>)>)
    requires
        sorted_by_key(s),
    ensures
        forall|i: int, j: int| 0 <= i < s.len() && 0 <= j < s.len() && s[i].0 == s[j].0 ==> i == j,
        forall|i: int|
            0 <= i < s.len() ==> map_of(s).contains_key(#[trigger] s[i].0) && map_of(s)[s[i].0]
                == s[i].1,
{
    assert forall|i: int, j: int|
        0 <= i < s.len() && 0 <= j < s.len() && s[i].0 == s[j].0 implies i == j by {
        lemma_key_less_irreflexive(s[i].0);
        if i < j {
            assert(key_less(s[i].0, s[j].0));
        } else if j < i {
            assert(key_less(s[j].0, s[i].0));
        }
    }
    assert forall|i: int| 0 <= i < s.len() implies map_of(s).contains_key(#[trigger] s[i].0)
        && map_of(s)[s[i].0] == s[i].1 by {
        lemma_has_key_at(s, i);
        let j = index_of_key(s, s[i].0);
        assert(s[j].0 == s[i].0);
    }
}

/// A sorted sequence has as many entries as its map has keys.
pub proof fn lemma_len_of_sorted(s: Seq<(Seq<char>, Seq<char>)>)
    requires
        sorted_by_key(s),
    ensures
        map_of(s).dom().finite(),
        map_of(s).len() == s.len(),
    decreases s.len(),
{
    if s.len() == 0 {
        assert(map_of(s).dom() =~= Set::<Seq<char>>::empty());
    } else {
        let t = s.drop_last();
        assert forall|i: int, j: int| 0 <= i < j < t.len() implies key_less(
            #[trigger] t[i].0,
            #[trigger] t[j].0,
        ) by {
            assert(t[i] == s[i] && t[j] == s[j]);
        }
        lemma_len_of_sorted(t);
        lemma_map_of_sorted(s);
        let k = s.last().0;
        assert(!has_key(t, k)) by {
            if has_key(t, k) {
                let i = index_of_key(t, k);
                assert(t[i] == s[i]);
                assert(s[i].0 == s[s.len() - 1].0);
            }
        }
        assert(map_of(s).dom() =~= map_of(t).dom().insert(k)) by {
            assert forall|x: Seq<char>| map_of(s).dom().contains(x) <==> map_of(t).dom().insert(
                k,
            ).contains(x) by {
                if has_key(s, x) {
                    let i = index_of_key(s, x);
                    if i < t.len() {
                        assert(t[i] == s[i]);
                        lemma_has_key_at(t, i);
                    }
                }
                if has_key(t, x) {
                    let i = index_of_key(t, x);
                    assert(t[i] == s[i]);
                    lemma_has_key_at(s, i);
                }
                if x == k {
                    lemma_has_key_at(s, s.len() - 1);
                }
            }
        }
    }
}

/// Putting an entry between the keys before it and the keys behind it keeps
/// the order and gives the key its translation.
pub proof fn lemma_insert_entry(
    s: Seq<(Seq<char>, Seq<char>)>,
    at: int,
    key: Seq<char>,
    value: Seq<char>,
)
    requires
        sorted_by_key(s),
        0 <= at <= s.len(),
        forall|i: int| 0 <= i < at ==> key_less(#[trigger] s[i].0, key),
        forall|i: int| at <= i < s.len() ==> key_less(key, #[trigger] s[i].0),
    ensures
        sorted_by_key(s.insert(at, (key, value))),
        map_of(s.insert(at, (key, value))) == map_of(s).insert(key, value),
{
    let t = s.insert(at, (key, value));
    assert forall|i: int, j: int| 0 <= i < j < t.len() implies key_less(
        #[trigger] t[i].0,
        #[trigger] t[j].0,
    ) by {
        let a = if i < at { i } else { i - 1 };
        let b = if j < at { j } else { j - 1 };
        if i != at {
            assert(t[i] == s[a]);
        }
        if j != at {
            assert(t[j] == s[b]);
        }
        if i != at && j != at {
            assert(key_less(s[a].0, s[b].0));
        }
    }
    lemma_map_of_sorted(s);
    lemma_map_of_sorted(t);
    assert(t[at] == (key, value));
    assert forall|k: Seq<char>| map_of(t).contains_key(k) <==> map_of(s).insert(
        key,
        value,
    ).contains_key(k) by {
        if has_key(t, k) {
            let i = index_of_key(t, k);
            if i < at {
                assert(t[i] == s[i]);
                lemma_has_key_at(s, i);
            } else if i > at {
                assert(t[i] == s[i - 1]);
                lemma_has_key_at(s, i - 1);
            }
        }
        if has_key(s, k) {
            let i = index_of_key(s, k);
            if i < at {
                assert(t[i] == s[i]);
                lemma_has_key_at(t, i);
            } else {
                assert(t[i + 1] == s[i]);
                lemma_has_key_at(t, i + 1);
            }
        }
        if k == key {
            lemma_has_key_at(t, at);
        }
    }
    assert forall|k: Seq<char>| map_of(t).contains_key(k) implies map_of(t)[k] == map_of(
        s,
    ).insert(key, value)[k] by {
        let i = index_of_key(t, k);
        if i < at {
            assert(t[i] == s[i]);
        } else if i > at {
            assert(t[i] == s[i - 1]);
        }
    }
    assert(map_of(t) =~= map_of(s).insert(key, value));
}

/// Giving the entry at one place another translation keeps the order and
/// gives its key that translation.
pub proof fn lemma_replace_entry(s: Seq<(Seq<char>, Seq<char>)>, at: int, value: Seq<char>)
    requires
        sorted_by_key(s),
        0 <= at < s.len(),
    ensures
        sorted_by_key(s.update(at, (s[at].0, value))),
        map_of(s.update(at, (s[at].0, value))) == map_of(s).insert(s[at].0, value),
{
    let key = s[at].0;
    let t = s.update(at, (key, value));
    assert forall|i: int, j: int| 0 <= i < j < t.len() implies key_less(
        #[trigger] t[i].0,
        #[trigger] t[j].0,
    ) by {
        assert(t[i].0 == s[i].0 && t[j].0 == s[j].0);
    }
    lemma_map_of_sorted(s);
    lemma_map_of_sorted(t);
    assert forall|k: Seq<char>| map_of(t).contains_key(k) <==> map_of(s).insert(
        key,
        value,
    ).contains_key(k) by {
        if has_key(t, k) {
            let i = index_of_key(t, k);
            assert(t[i].0 == s[i].0);
            lemma_has_key_at(s, i);
        }
        if has_key(s, k) {
            let i = index_of_key(s, k);
            assert(t[i].0 == s[i].0);
            lemma_has_key_at(t, i);
        }
        if k == key {
            assert(t[at].0 == key);
            lemma_has_key_at(t, at);
        }
    }
    assert forall|k: Seq<char>| map_of(t).contains_key(k) implies map_of(t)[k] == map_of(
        s,
    ).insert(key, value)[k] by {
        let i = index_of_key(t, k);
        assert(t[i].0 == s[i].0);
        if i != at {
            assert(t[i] == s[i]);
        }
    }
    assert(map_of(t) =~= map_of(s).insert(key, value));
}

/// Taking the entry at one place out keeps the order and takes its key out
/// of the map.
pub proof fn lemma_remove_entry(s: Seq<(Seq<char>, Seq<char>)>, at: int)
    requires
        sorted_by_key(s),
        0 <= at < s.len(),
    ensures
        sorted_by_key(s.remove(at)),
        map_of(s.remove(at)) == map_of(s).remove(s[at].0),
{
    let key = s[at].0;
    let t = s.remove(at);
    assert forall|i: int, j: int| 0 <= i < j < t.len() implies key_less(
        #[trigger] t[i].0,
        #[trigger] t[j].0,
    ) by {
        let a = if i < at { i } else { i + 1 };
        let b = if j < at { j } else { j + 1 };
        assert(t[i] == s[a] && t[j] == s[b]);
        assert(key_less(s[a].0, s[b].0));
    }
    lemma_map_of_sorted(s);
    lemma_map_of_sorted(t);
    assert forall|k: Seq<char>| map_of(t).contains_key(k) <==> map_of(s).remove(
        key,
    ).contains_key(k) by {
        if has_key(t, k) {
            let i = index_of_key(t, k);
            let a = if i < at { i } else { i + 1 };
            assert(t[i] == s[a]);
            lemma_has_key_at(s, a);
        }
        if has_key(s, k) && k != key {
            let i = index_of_key(s, k);
            let a = if i < at { i } else { i - 1 };
            assert(t[a] == s[i]);
            lemma_has_key_at(t, a);
        }
    }
    assert forall|k: Seq<char>| map_of(t).contains_key(k) implies map_of(t)[k] == map_of(
        s,
    ).remove(key)[k] by {
        let i = index_of_key(t, k);
        let a = if i < at { i } else { i + 1 };
        assert(t[i] == s[a]);
    }
    assert(map_of(t) =~= map_of(s).remove(key));
}

} // verus!
