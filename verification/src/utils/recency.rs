//! Recency lists: the pairs of a least-recently-used cache, most recently used first.
//!
//! A list is a sequence of key-value pairs. Index 0 is the pair that was used
//! last; the pair at the end is the one that goes when room is needed.

use vstd::prelude::*;
use vstd::set_lib::{lemma_int_range, lemma_map_size_bound, set_int_range};

verus! {

/// A list of key-value pairs.
pub type Pairs<T> = Seq<(Seq<char>, T)>;

/// Some pair of `order` has the key `key`.
pub open spec fn holds<T>(order: Pairs<T>, key: Seq<char>) -> bool {
    exists|i: int| 0 <= i < order.len() && (#[trigger] order[i]).0 == key
}

/// The index of a pair with the key `key`, where there is one.
pub open spec fn position<T>(order: Pairs<T>, key: Seq<char>) -> int {
    choose|i: int| 0 <= i < order.len() && (#[trigger] order[i]).0 == key
}

/// The value paired with `key`, if any.
pub open spec fn find<T>(order: Pairs<T>, key: Seq<char>) -> Option<T> {
    if holds(order, key) {
        Some(order[position(order, key)].1)
    } else {
        None
    }
}

/// No key occurs twice.
pub open spec fn distinct<T>(order: Pairs<T>) -> bool {
    forall|i: int, j: int|
        0 <= i < j < order.len() ==> (#[trigger] order[i]).0 != (#[trigger] order[j]).0
}

/// The pairs as a map from key to value.
pub open spec fn entries<T>(order: Pairs<T>) -> Map<Seq<char>, T> {
    Map::new(|key: Seq<char>| holds(order, key), |key: Seq<char>| order[position(order, key)].1)
}

/// The list after `key` was used: its pair moves to the front, the others keep
/// their order. A key that is not in the list changes nothing.
pub open spec fn touch<T>(order: Pairs<T>, key: Seq<char>) -> Pairs<T> {
    if holds(order, key) {
        seq![order[position(order, key)]] + order.remove(position(order, key))
    } else {
        order
    }
}

/// The list after `key` was put in with `value`, in a cache that holds at most
/// `limit` pairs. A pair with that key is replaced; otherwise a full list drops
/// its last pair. The new pair stands at the front.
pub open spec fn put<T>(order: Pairs<T>, key: Seq<char>, value: T, limit: nat) -> Pairs<T> {
    if holds(order, key) {
        seq![(key, value)] + order.remove(position(order, key))
    } else if order.len() == limit {
        seq![(key, value)] + order.drop_last()
    } else {
        seq![(key, value)] + order
    }
}

/// The value that leaves the list when `key` is put in: the one that `key` was
/// paired with, or else the last one of a full list.
pub open spec fn displaced<T>(order: Pairs<T>, key: Seq<char>, limit: nat) -> Option<T> {
    if holds(order, key) {
        Some(order[position(order, key)].1)
    } else if order.len() == limit {
        Some(order.last().1)
    } else {
        None
    }
}

/// The list without the pair of `key`.
pub open spec fn without<T>(order: Pairs<T>, key: Seq<char>) -> Pairs<T> {
    if holds(order, key) {
        order.remove(position(order, key))
    } else {
        order
    }
}

/// In a list without repeated keys, the pair of a key stands at one index only.
pub proof fn lemma_position<T>(order: Pairs<T>, key: Seq<char>, i: int)
    requires
        distinct(order),
        0 <= i < order.len(),
        order[i].0 == key,
    ensures
        holds(order, key),
        position(order, key) == i,
        find(order, key) == Some(order[i].1),
{
    let p = position(order, key);
    assert(0 <= p < order.len() && order[p].0 == key);
    if p < i {
        assert(order[p].0 != order[i].0);
    } else if i < p {
        assert(order[i].0 != order[p].0);
    }
}

/// Using a key keeps the pairs and puts that key's pair first.
pub proof fn lemma_touch<T>(order: Pairs<T>, key: Seq<char>)
    requires
        distinct(order),
    ensures
        distinct(touch(order, key)),
        touch(order, key).len() == order.len(),
        entries(touch(order, key)) == entries(order),
        holds(order, key) ==> touch(order, key)[0] == order[position(order, key)],
{
    let after = touch(order, key);
    if holds(order, key) {
        let p = position(order, key);
        assert(0 <= p < order.len() && order[p].0 == key);
        assert forall|j: int| 0 <= j < after.len() implies #[trigger] after[j] == order[if j == 0 {
            p
        } else if j <= p {
            j - 1
        } else {
            j
        }] by {}
        assert(distinct(after));
        assert forall|k: Seq<char>| holds(after, k) == holds(order, k) && (holds(order, k) ==> find(
            after,
            k,
        ) == find(order, k)) by {
            if holds(order, k) {
                let j = position(order, k);
                assert(0 <= j < order.len() && order[j].0 == k);
                let to = if j == p {
                    0
                } else if j < p {
                    j + 1
                } else {
                    j
                };
                assert(after[to] == order[j]);
                lemma_position(after, k, to);
            }
            if holds(after, k) {
                let j = position(after, k);
                assert(0 <= j < after.len() && after[j].0 == k);
                let from = if j == 0 {
                    p
                } else if j <= p {
                    j - 1
                } else {
                    j
                };
                assert(order[from] == after[j]);
            }
        }
        assert(entries(after) =~= entries(order));
    }
}

/// Putting a key in keeps the list within its limit, pairs the key with the new
/// value and changes no other pair; the only pair that may go is the one that
/// `displaced` names.
pub proof fn lemma_put<T>(order: Pairs<T>, key: Seq<char>, value: T, limit: nat)
    requires
        distinct(order),
        order.len() <= limit,
        limit > 0,
    ensures
        distinct(put(order, key, value, limit)),
        put(order, key, value, limit).len() <= limit,
        put(order, key, value, limit)[0] == (key, value),
        find(put(order, key, value, limit), key) == Some(value),
        forall|k: Seq<char>|
            k != key && #[trigger] holds(put(order, key, value, limit), k) ==> holds(order, k)
                && find(put(order, key, value, limit), k) == find(order, k),
        forall|k: Seq<char>|
            k != key && #[trigger] holds(order, k) && !(!holds(order, key) && order.len() == limit
                && order.last().0 == k) ==> holds(put(order, key, value, limit), k),
{
    let after = put(order, key, value, limit);
    if holds(order, key) {
        let p = position(order, key);
        assert(0 <= p < order.len() && order[p].0 == key);
        assert forall|j: int| 1 <= j < after.len() implies #[trigger] after[j] == order[if j <= p {
            j - 1
        } else {
            j
        }] by {}
        assert forall|i: int, j: int| 0 <= i < j < after.len() implies (#[trigger] after[i]).0 != (
        #[trigger] after[j]).0 by {
            let fj = if j <= p {
                j - 1
            } else {
                j
            };
            assert(after[j] == order[fj]);
            if i == 0 {
                if fj < p {
                    assert(order[fj].0 != order[p].0);
                } else {
                    assert(order[p].0 != order[fj].0);
                }
            } else {
                let fi = if i <= p {
                    i - 1
                } else {
                    i
                };
                assert(after[i] == order[fi]);
                assert(order[fi].0 != order[fj].0);
            }
        }
        lemma_position(after, key, 0);
        assert forall|k: Seq<char>| k != key && #[trigger] holds(after, k) implies holds(order, k)
            && find(after, k) == find(order, k) by {
            let j = position(after, k);
            assert(0 <= j < after.len() && after[j].0 == k);
            let from = if j <= p {
                j - 1
            } else {
                j
            };
            assert(after[j] == order[from]);
            lemma_position(order, k, from);
        }
        assert forall|k: Seq<char>| k != key && #[trigger] holds(order, k) implies
            holds(after, k) by {
            let j = position(order, k);
            assert(0 <= j < order.len() && order[j].0 == k);
            let to = if j < p {
                j + 1
            } else {
                j
            };
            assert(after[to] == order[j]);
        }
    } else {
        let kept = if order.len() == limit {
            order.drop_last()
        } else {
            order
        };
        assert(after == seq![(key, value)] + kept);
        assert forall|j: int| 1 <= j < after.len() implies #[trigger] after[j] == order[j - 1] by {}
        assert forall|i: int, j: int| 0 <= i < j < after.len() implies (#[trigger] after[i]).0 != (
        #[trigger] after[j]).0 by {
            assert(after[j] == order[j - 1]);
            if i == 0 {
                assert(order[j - 1].0 != key);
            } else {
                assert(after[i] == order[i - 1]);
                assert(order[i - 1].0 != order[j - 1].0);
            }
        }
        lemma_position(after, key, 0);
        assert forall|k: Seq<char>| k != key && #[trigger] holds(after, k) implies holds(order, k)
            && find(after, k) == find(order, k) by {
            let j = position(after, k);
            assert(0 <= j < after.len() && after[j].0 == k);
            assert(after[j] == order[j - 1]);
            lemma_position(order, k, j - 1);
        }
        assert forall|k: Seq<char>|
            k != key && #[trigger] holds(order, k) && !(order.len() == limit && order.last().0
                == k) implies holds(after, k) by {
            let j = position(order, k);
            assert(0 <= j < order.len() && order[j].0 == k);
            assert(j < kept.len());
            assert(after[j + 1] == order[j]);
        }
    }
}

/// Taking a key out removes its pair and no other.
pub proof fn lemma_without<T>(order: Pairs<T>, key: Seq<char>)
    requires
        distinct(order),
    ensures
        distinct(without(order, key)),
        without(order, key).len() <= order.len(),
        entries(without(order, key)) == entries(order).remove(key),
{
    let after = without(order, key);
    if holds(order, key) {
        let p = position(order, key);
        assert(0 <= p < order.len() && order[p].0 == key);
        assert forall|j: int| 0 <= j < after.len() implies #[trigger] after[j] == order[if j < p {
            j
        } else {
            j + 1
        }] by {}
        assert(distinct(after));
        assert forall|k: Seq<char>| holds(after, k) == (k != key && holds(order, k)) && (holds(
            after,
            k,
        ) ==> find(after, k) == find(order, k)) by {
            if k != key && holds(order, k) {
                let j = position(order, k);
                assert(0 <= j < order.len() && order[j].0 == k);
                let to = if j < p {
                    j
                } else {
                    j - 1
                };
                assert(after[to] == order[j]);
                lemma_position(after, k, to);
            }
            if holds(after, k) {
                let j = position(after, k);
                assert(0 <= j < after.len() && after[j].0 == k);
                let from = if j < p {
                    j
                } else {
                    j + 1
                };
                assert(order[from] == after[j]);
                lemma_position(order, k, from);
            }
        }
        assert(entries(after) =~= entries(order).remove(key));
    } else {
        assert(entries(after) =~= entries(order).remove(key));
    }
}

/// The list after `key` was put in with `value` and the list was cut back to
/// `limit` pairs: what a cache does that makes room after it has taken the pair.
pub open spec fn put_trim<T>(
    order: Pairs<T>,
    key: Seq<char>,
    value: T,
    limit: nat,
) -> Pairs<T> {
    let grown = if holds(order, key) {
        seq![(key, value)] + order.remove(position(order, key))
    } else {
        seq![(key, value)] + order
    };
    if grown.len() > limit {
        grown.drop_last()
    } else {
        grown
    }
}

/// Making room before or after the pair is taken comes to the same list, and a
/// cache without room stays empty.
pub proof fn lemma_put_trim<T>(order: Pairs<T>, key: Seq<char>, value: T, limit: nat)
    requires
        distinct(order),
        order.len() <= limit,
    ensures
        limit > 0 ==> put_trim(order, key, value, limit) == put(order, key, value, limit),
        limit == 0 ==> put_trim(order, key, value, limit) == Pairs::<T>::empty(),
{
    if holds(order, key) {
        let p = position(order, key);
        assert(0 <= p < order.len() && order[p].0 == key);
    } else if limit > 0 {
        if order.len() == limit {
            assert((seq![(key, value)] + order).drop_last() =~= seq![(key, value)]
                + order.drop_last());
        }
    } else {
        assert((seq![(key, value)] + order).drop_last() =~= Pairs::<T>::empty());
    }
}

/// Putting a key in right after it was used gives the list that putting it in
/// gives.
pub proof fn lemma_put_after_touch<T>(
    order: Pairs<T>,
    key: Seq<char>,
    value: T,
    limit: nat,
)
    requires
        distinct(order),
        holds(order, key),
    ensures
        put(touch(order, key), key, value, limit) == put(order, key, value, limit),
        displaced(touch(order, key), key, limit) == displaced(order, key, limit),
{
    let p = position(order, key);
    assert(0 <= p < order.len() && order[p].0 == key);
    let touched = touch(order, key);
    lemma_touch(order, key);
    assert(touched[0] == order[p]);
    lemma_position(touched, key, 0);
    assert(touched.remove(0) =~= order.remove(p));
}

/// The list `slots` with each slot replaced by the value that `values` holds there.
pub open spec fn resolve<V>(slots: Pairs<usize>, values: Map<usize, V>) -> Pairs<V> {
    Seq::new(slots.len(), |i: int| (slots[i].0, values[slots[i].1]))
}

/// Some pair of the list has its value in `slot`.
pub open spec fn uses(slots: Pairs<usize>, slot: usize) -> bool {
    exists|i: int| 0 <= i < slots.len() && (#[trigger] slots[i]).1 == slot
}

/// The list and the arena fit: every slot of the list is occupied, no two pairs
/// share a slot, and the arena holds no value that no pair refers to.
pub open spec fn placed<V>(slots: Pairs<usize>, values: Map<usize, V>) -> bool {
    &&& forall|i: int| 0 <= i < slots.len() ==> values.contains_key((#[trigger] slots[i]).1)
    &&& forall|i: int, j: int|
        0 <= i < j < slots.len() ==> (#[trigger] slots[i]).1 != (#[trigger] slots[j]).1
    &&& forall|slot: usize| #[trigger] values.contains_key(slot) ==> uses(slots, slot)
}

/// An arena that fits a list holds no more values than the list has pairs.
pub proof fn lemma_placed_count<V>(slots: Pairs<usize>, values: Map<usize, V>)
    requires
        placed(slots, values),
    ensures
        values.dom().finite(),
        values.dom().len() <= slots.len(),
{
    let indices = set_int_range(0, slots.len() as int);
    let slot_at = |i: int| slots[i].1;
    lemma_int_range(0, slots.len() as int);
    assert forall|slot: usize| values.dom().contains(slot) == indices.map(slot_at).contains(
        slot,
    ) by {
        if values.dom().contains(slot) {
            assert(values.contains_key(slot));
            let i = choose|i: int| 0 <= i < slots.len() && (#[trigger] slots[i]).1 == slot;
            assert(indices.contains(i) && slot_at(i) == slot);
        }
        if indices.map(slot_at).contains(slot) {
            let i = choose|i: int| indices.contains(i) && slot_at(i) == slot;
            assert(values.contains_key(slots[i].1));
        }
    }
    assert(indices.map(slot_at) =~= values.dom());
    lemma_map_size_bound(indices, values.dom(), slot_at);
}

/// Two lists with the same keys at the same places find each key at the same place.
pub proof fn lemma_same_keys<A, B>(a: Pairs<A>, b: Pairs<B>, key: Seq<char>)
    requires
        a.len() == b.len(),
        forall|i: int| 0 <= i < a.len() ==> (#[trigger] a[i]).0 == b[i].0,
        distinct(a),
    ensures
        distinct(b),
        holds(a, key) == holds(b, key),
        holds(a, key) ==> position(a, key) == position(b, key),
{
    assert forall|i: int, j: int| 0 <= i < j < b.len() implies (#[trigger] b[i]).0 != (
    #[trigger] b[j]).0 by {
        assert(a[i].0 != a[j].0);
    }
    if holds(a, key) {
        let p = position(a, key);
        assert(0 <= p < a.len() && a[p].0 == key);
        assert(b[p].0 == key);
        lemma_position(b, key, p);
    }
    if holds(b, key) {
        let p = position(b, key);
        assert(0 <= p < b.len() && b[p].0 == key);
        assert(a[p].0 == key);
    }
}

/// Moving a pair to the front of the slots moves it to the front of the values.
pub proof fn lemma_touch_resolves<V>(
    slots: Pairs<usize>,
    values: Map<usize, V>,
    key: Seq<char>,
)
    requires
        distinct(slots),
    ensures
        resolve(touch(slots, key), values) == touch(resolve(slots, values), key),
        placed(slots, values) ==> placed(touch(slots, key), values),
        find(resolve(slots, values), key) == match find(slots, key) {
            Some(slot) => Some(values[slot]),
            None => None,
        },
{
    let before = resolve(slots, values);
    lemma_same_keys(slots, before, key);
    if holds(slots, key) {
        let p = position(slots, key);
        assert(0 <= p < slots.len() && slots[p].0 == key);
        let after = touch(slots, key);
        assert forall|j: int| 0 <= j < after.len() implies #[trigger] after[j] == slots[if j == 0 {
            p
        } else if j <= p {
            j - 1
        } else {
            j
        }] by {}
        assert(resolve(after, values) =~= touch(before, key));
        if placed(slots, values) {
            assert forall|slot: usize| #[trigger] values.contains_key(slot) implies uses(
                after,
                slot,
            ) by {
                let i = choose|i: int| 0 <= i < slots.len() && (#[trigger] slots[i]).1 == slot;
                let to = if i == p {
                    0
                } else if i < p {
                    i + 1
                } else {
                    i
                };
                assert(after[to] == slots[i]);
            }
            assert(placed(after, values));
        }
    }
}

/// Taking a pair out of the slots, and its value out of the arena, takes it out
/// of the values.
pub proof fn lemma_delete_resolves<V>(
    slots: Pairs<usize>,
    values: Map<usize, V>,
    key: Seq<char>,
    rest: Map<usize, V>,
)
    requires
        distinct(slots),
        placed(slots, values),
        rest == match find(slots, key) {
            Some(slot) => values.remove(slot),
            None => values,
        },
    ensures
        resolve(without(slots, key), rest) == without(resolve(slots, values), key),
        placed(without(slots, key), rest),
{
    let before = resolve(slots, values);
    lemma_same_keys(slots, before, key);
    if holds(slots, key) {
        let p = position(slots, key);
        assert(0 <= p < slots.len() && slots[p].0 == key);
        let after = without(slots, key);
        assert forall|j: int| 0 <= j < after.len() implies #[trigger] after[j] == slots[if j < p {
            j
        } else {
            j + 1
        }] by {}
        assert forall|j: int| 0 <= j < after.len() implies
            (#[trigger] after[j]).1 != slots[p].1 by {
            let from = if j < p {
                j
            } else {
                j + 1
            };
            assert(after[j] == slots[from]);
            if from < p {
                assert(slots[from].1 != slots[p].1);
            } else {
                assert(slots[p].1 != slots[from].1);
            }
        }
        assert(resolve(after, rest) =~= without(before, key));
        assert forall|slot: usize| #[trigger] rest.contains_key(slot) implies uses(after, slot) by {
            let i = choose|i: int| 0 <= i < slots.len() && (#[trigger] slots[i]).1 == slot;
            let to = if i < p {
                i
            } else {
                i - 1
            };
            assert(after[to] == slots[i]);
        }
        assert(placed(after, rest));
    } else {
        assert(resolve(slots, rest) =~= before);
    }
}

/// Putting a pair into the slots with a fresh slot for its value, and giving up
/// the slot that was displaced, puts the pair into the values.
pub proof fn lemma_insert_resolves<V>(
    slots: Pairs<usize>,
    values: Map<usize, V>,
    key: Seq<char>,
    slot: usize,
    value: V,
    limit: nat,
    rest: Map<usize, V>,
)
    requires
        distinct(slots),
        placed(slots, values),
        slots.len() <= limit,
        limit > 0,
        !values.contains_key(slot),
        rest == match displaced(slots, key, limit) {
            Some(old_slot) => values.insert(slot, value).remove(old_slot),
            None => values.insert(slot, value),
        },
    ensures
        resolve(put(slots, key, slot, limit), rest) == put(
            resolve(slots, values),
            key,
            value,
            limit,
        ),
        placed(put(slots, key, slot, limit), rest),
{
    let before = resolve(slots, values);
    let after = put(slots, key, slot, limit);
    lemma_same_keys(slots, before, key);
    assert forall|i: int| 0 <= i < slots.len() implies (#[trigger] slots[i]).1 != slot by {}
    if holds(slots, key) {
        let p = position(slots, key);
        assert(0 <= p < slots.len() && slots[p].0 == key);
        assert forall|j: int| 1 <= j < after.len() implies #[trigger] after[j] == slots[if j <= p {
            j - 1
        } else {
            j
        }] && after[j].1 != slots[p].1 && after[j].1 != slot by {
            let from = if j <= p {
                j - 1
            } else {
                j
            };
            if from < p {
                assert(slots[from].1 != slots[p].1);
            } else {
                assert(slots[p].1 != slots[from].1);
            }
        }
        assert(resolve(after, rest) =~= put(before, key, value, limit));
        assert forall|s: usize| #[trigger] rest.contains_key(s) implies uses(after, s) by {
            if s == slot {
                assert(after[0].1 == s);
            } else {
                let i = choose|i: int| 0 <= i < slots.len() && (#[trigger] slots[i]).1 == s;
                let to = if i < p {
                    i + 1
                } else {
                    i
                };
                assert(after[to] == slots[i]);
            }
        }
        assert(placed(after, rest));
    } else if slots.len() == limit {
        let last = slots.len() - 1;
        assert forall|j: int| 1 <= j < after.len() implies #[trigger] after[j] == slots[j - 1]
            && after[j].1 != slots[last].1 && after[j].1 != slot by {
            assert(slots[j - 1].1 != slots[last].1);
        }
        assert(resolve(after, rest) =~= put(before, key, value, limit));
        assert forall|s: usize| #[trigger] rest.contains_key(s) implies uses(after, s) by {
            if s == slot {
                assert(after[0].1 == s);
            } else {
                let i = choose|i: int| 0 <= i < slots.len() && (#[trigger] slots[i]).1 == s;
                assert(after[i + 1] == slots[i]);
            }
        }
        assert(placed(after, rest));
    } else {
        assert forall|j: int| 1 <= j < after.len() implies #[trigger] after[j] == slots[j - 1]
            && after[j].1 != slot by {}
        assert(resolve(after, rest) =~= put(before, key, value, limit));
        assert forall|s: usize| #[trigger] rest.contains_key(s) implies uses(after, s) by {
            if s == slot {
                assert(after[0].1 == s);
            } else {
                let i = choose|i: int| 0 <= i < slots.len() && (#[trigger] slots[i]).1 == s;
                assert(after[i + 1] == slots[i]);
            }
        }
        assert(placed(after, rest));
    }
}

/// Dropping the last pair of the slots, and its value from the arena, drops the
/// last pair of the values.
pub proof fn lemma_drop_last_resolves<V>(slots: Pairs<usize>, values: Map<usize, V>)
    requires
        slots.len() > 0,
        placed(slots, values),
    ensures
        resolve(slots.drop_last(), values.remove(slots.last().1)) == resolve(
            slots,
            values,
        ).drop_last(),
        placed(slots.drop_last(), values.remove(slots.last().1)),
{
    let last = slots.len() - 1;
    assert forall|j: int| 0 <= j < last implies (#[trigger] slots[j]).1 != slots[last].1 by {}
    assert(resolve(slots.drop_last(), values.remove(slots.last().1)) =~= resolve(
        slots,
        values,
    ).drop_last());
    assert forall|slot: usize| #[trigger]
        values.remove(slots.last().1).contains_key(slot) implies uses(slots.drop_last(), slot) by {
        let i = choose|i: int| 0 <= i < slots.len() && (#[trigger] slots[i]).1 == slot;
        assert(slots.drop_last()[i] == slots[i]);
    }
}

} // verus!
