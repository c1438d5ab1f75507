use crate::image::Image;
use std::collections::BTreeMap;
use vstd::prelude::*;
use core::cmp::Ordering;
use vstd::std_specs::btree::{increasing_seq, key_obeys_cmp_spec};
use vstd::std_specs::cmp::OrdSpec;
use vstd::std_specs::iter::IteratorSpec;

verus! {

/// The number of items in all the buckets of a map together.
pub open spec fn total<K, V>(buckets: Map<K, Seq<V>>) -> nat
    decreases buckets.dom().len(),
    when buckets.dom().finite()
{
    if buckets.dom().len() == 0 {
        0
    } else {
        let key = buckets.dom().choose();
        buckets[key].len() + total(buckets.remove(key))
    }
}

/// The bucket stored under a key, empty where the map has no such key.
pub open spec fn bucket_of<K, V>(buckets: Map<K, Seq<V>>, key: K) -> Seq<V> {
    if buckets.contains_key(key) {
        buckets[key]
    } else {
        Seq::empty()
    }
}

/// The map after one more item has gone to the end of the bucket of `key`.
pub open spec fn appended<K, V>(buckets: Map<K, Seq<V>>, key: K, item: V) -> Map<K, Seq<V>> {
    buckets.insert(key, bucket_of(buckets, key).push(item))
}

/// Any one bucket can be counted first.
pub proof fn lemma_total_remove<K, V>(buckets: Map<K, Seq<V>>, key: K)
    requires
        buckets.dom().finite(),
        buckets.contains_key(key),
    ensures
        total(buckets) == buckets[key].len() + total(buckets.remove(key)),
    decreases buckets.dom().len(),
{
    let chosen = buckets.dom().choose();
    if chosen != key {
        lemma_total_remove(buckets.remove(chosen), key);
        lemma_total_remove(buckets.remove(key), chosen);
        assert(buckets.remove(chosen).remove(key) =~= buckets.remove(key).remove(chosen));
    }
}

/// Appending one item to a bucket, new or old, raises the total by one.
pub proof fn lemma_total_appended<K, V>(buckets: Map<K, Seq<V>>, key: K, item: V)
    requires
        buckets.dom().finite(),
    ensures
        total(appended(buckets, key, item)) == total(buckets) + 1,
{
    let after = appended(buckets, key, item);
    lemma_total_remove(after, key);
    if buckets.contains_key(key) {
        lemma_total_remove(buckets, key);
        assert(after.remove(key) =~= buckets.remove(key));
    } else {
        assert(after.remove(key) =~= buckets);
    }
}

/// Whether `right` holds exactly the buckets of `left`, each under the key
/// that `to` makes of its key in `left`; `back` undoes `to`.
pub open spec fn corresponds<J, K, V>(
    left: Map<J, Seq<V>>,
    right: Map<K, Seq<V>>,
    to: spec_fn(J) -> K,
    back: spec_fn(K) -> J,
) -> bool {
    &&& forall|j: J| #[trigger]
        left.contains_key(j) ==> right.contains_key(to(j)) && right[to(j)] == left[j]
    &&& forall|k: K| #[trigger]
        right.contains_key(k) ==> left.contains_key(back(k)) && to(back(k)) == k
    &&& forall|j: J| back(#[trigger] to(j)) == j
}

/// Two maps that hold the same buckets under keys that correspond one to
/// one hold the same number of items.
pub proof fn lemma_total_rekeyed<J, K, V>(
    left: Map<J, Seq<V>>,
    right: Map<K, Seq<V>>,
    to: spec_fn(J) -> K,
    back: spec_fn(K) -> J,
)
    requires
        left.dom().finite(),
        right.dom().finite(),
        corresponds(left, right, to, back),
    ensures
        total(left) == total(right),
    decreases left.dom().len(),
{
    if left.dom().len() == 0 {
        if right.dom().len() != 0 {
            let k = right.dom().choose();
            assert(right.dom().contains(k));
            assert(left.contains_key(back(k)));
            assert(left.dom().contains(back(k)));
        }
    } else {
        let j = left.dom().choose();
        assert(left.dom().contains(j));
        lemma_total_remove(left, j);
        lemma_total_remove(right, to(j));
        let smaller_left = left.remove(j);
        let smaller_right = right.remove(to(j));
        assert forall|i: J| #[trigger] smaller_left.contains_key(i) implies {
            &&& smaller_right.contains_key(to(i))
            &&& smaller_right[to(i)] == smaller_left[i]
        } by {
            assert(left.contains_key(i));
            assert(back(to(i)) == i);
        }
        assert forall|k: K| #[trigger] smaller_right.contains_key(k) implies {
            &&& smaller_left.contains_key(back(k))
            &&& to(back(k)) == k
        } by {
            assert(right.contains_key(k));
        }
        lemma_total_rekeyed(smaller_left, smaller_right, to, back);
    }
}

/// An append on one side of two corresponding maps is an append on the
/// other side, under the key that corresponds.
pub proof fn lemma_appended_rekeyed<J, K, V>(
    left: Map<J, Seq<V>>,
    right: Map<K, Seq<V>>,
    left_after: Map<J, Seq<V>>,
    right_after: Map<K, Seq<V>>,
    to: spec_fn(J) -> K,
    back: spec_fn(K) -> J,
    key: J,
    item: V,
)
    requires
        corresponds(left, right, to, back),
        corresponds(left_after, right_after, to, back),
        left_after == appended(left, key, item),
    ensures
        right_after == appended(right, to(key), item),
{
    let target = appended(right, to(key), item);
    assert(back(to(key)) == key);
    assert(left_after.contains_key(key));
    assert(left_after[key] == bucket_of(left, key).push(item));
    assert(left.contains_key(key) == right.contains_key(to(key))) by {
        if right.contains_key(to(key)) {
            assert(left.contains_key(back(to(key))));
        }
    }
    assert(bucket_of(left, key) == bucket_of(right, to(key))) by {
        if left.contains_key(key) {
            assert(right[to(key)] == left[key]);
        }
    }
    assert forall|k: K| right_after.contains_key(k) == target.contains_key(k) by {
        if right_after.contains_key(k) {
            assert(left_after.contains_key(back(k)));
            if back(k) != key {
                assert(left.contains_key(back(k)));
                assert(right.contains_key(to(back(k))));
            }
        }
        if target.contains_key(k) {
            if k == to(key) {
                assert(right_after.contains_key(to(key)));
            } else {
                assert(right.contains_key(k));
                assert(left.contains_key(back(k)));
                assert(left_after.contains_key(back(k)));
                assert(right_after.contains_key(to(back(k))));
            }
        }
    }
    assert forall|k: K| target.contains_key(k) implies right_after[k] == target[k] by {
        if k == to(key) {
            assert(right_after[to(key)] == left_after[key]);
        } else {
            assert(right.contains_key(k));
            let j = back(k);
            assert(left.contains_key(j));
            assert(to(j) == k);
            assert(j != key);
            assert(left_after.contains_key(j));
            assert(left_after[j] == left[j]);
            assert(right_after[to(j)] == left_after[j]);
            assert(right[to(j)] == left[j]);
        }
    }
    assert(right_after =~= target);
}

/// Where `raw` lists the keys of one of two corresponding maps, its
/// counterpart lists the keys of the other.
pub proof fn lemma_keys_rekeyed<J, K, V>(
    raw: Seq<J>,
    keys: Seq<K>,
    left: Map<J, Seq<V>>,
    right: Map<K, Seq<V>>,
    to: spec_fn(J) -> K,
    back: spec_fn(K) -> J,
)
    requires
        corresponds(left, right, to, back),
        keys.len() == raw.len(),
        forall|i: int| 0 <= i < raw.len() ==> #[trigger] keys[i] == to(raw[i]),
        forall|j: J| raw.contains(j) <==> left.contains_key(j),
    ensures
        forall|k: K| keys.contains(k) <==> right.dom().contains(k),
{
    assert forall|k: K| keys.contains(k) <==> right.dom().contains(k) by {
        if keys.contains(k) {
            let at = choose|at: int| 0 <= at < keys.len() && keys[at] == k;
            assert(raw.contains(raw[at]));
            assert(left.contains_key(raw[at]));
        }
        if right.contains_key(k) {
            assert(raw.contains(back(k)));
            let at = choose|at: int| 0 <= at < raw.len() && raw[at] == back(k);
            assert(keys[at] == k);
        }
    }
}

/// What a map of vectors holds, each vector taken as the sequence of its items.
pub open spec fn bucket_views<K>(map: Map<K, Vec<Image>>) -> Map<K, Seq<Image>> {
    map.map_values(|images: Vec<Image>| images@)
}

/// Appends `image` to the bucket of `key`, which is created where the map
/// has none.
pub(crate) fn append<K: Ord + Copy>(map: &mut BTreeMap<K, Vec<Image>>, key: K, image: Image)
    requires
        vstd::laws_cmp::obeys_cmp::<K>(),
    ensures
        bucket_views(final(map)@) == appended(bucket_views(old(map)@), key, image),
{
    broadcast use vstd::std_specs::btree::group_btree_axioms;

    let mut images = match map.remove(&key) {
        Some(images) => images,
        None => Vec::new(),
    };
    images.push(image);
    map.insert(key, images);
    assert(bucket_views(map@) =~= appended(bucket_views(old(map)@), key, image));
}

/// Counts the items of all buckets.
pub(crate) fn count<K>(map: &BTreeMap<K, Vec<Image>>) -> (n: usize)
    requires
        key_obeys_cmp_spec::<K>(),
        total(bucket_views(map@)) <= usize::MAX,
    ensures
        n == total(bucket_views(map@)),
{
    broadcast use vstd::std_specs::btree::group_btree_axioms;

    let mut n: usize = 0;
    let ghost mut rest = bucket_views(map@);
    proof {
        assert(rest.dom() =~= map@.dom());
    }
    for entry in entries: map.iter()
        invariant
            rest.dom().finite(),
            n + total(rest) == total(bucket_views(map@)),
            total(bucket_views(map@)) <= usize::MAX,
            entries.seq().no_duplicates(),
            forall|j: int|
                entries.index() <= j < entries.seq().len() ==> rest.contains_key(
                    *(#[trigger] entries.seq()[j]).0,
                ),
            forall|key: K|
                rest.contains_key(key) ==> exists|j: int|
                    entries.index() <= j < entries.seq().len() && *(#[trigger] entries.seq()[j]).0
                        == key,
            forall|key: K|
                rest.contains_key(key) ==> map@.contains_key(key) && rest[key] == map@[key]@,
            forall|j: int|
                0 <= j < entries.seq().len() ==> map@.contains_key(*(#[trigger] entries.seq()[j]).0)
                    && map@[*entries.seq()[j].0] == *entries.seq()[j].1,
    {
        proof {
            lemma_total_remove(rest, *entry.0);
            rest = rest.remove(*entry.0);
        }
        n = n + entry.1.len();
    }
    assert(rest.dom() =~= Set::<K>::empty());
    n
}

/// The keys of the map in the order of `Ord`, each once.
pub(crate) fn ordered_keys<K: Ord + Copy>(map: &BTreeMap<K, Vec<Image>>) -> (keys: Vec<K>)
    requires
        vstd::laws_cmp::obeys_cmp::<K>(),
    ensures
        forall|i: int, j: int|
            #![trigger keys@[i], keys@[j]]
            0 <= i < j < keys@.len() ==> keys@[i].cmp_spec(&keys@[j]) is Less,
        forall|key: K| keys@.contains(key) <==> bucket_views(map@).contains_key(key),
{
    broadcast use vstd::std_specs::btree::group_btree_axioms;
    broadcast use vstd::laws_cmp::group_laws_cmp;

    let mut keys: Vec<K> = Vec::new();
    let ghost all = map.keys().remaining();
    for key in walk: map.keys()
        invariant
            walk.seq() == all,
            keys@.len() == walk.index(),
            forall|i: int| 0 <= i < keys@.len() ==> #[trigger] keys@[i] == *all[i],
    {
        keys.push(*key);
    }
    proof {
        assert(increasing_seq(all));
        assert(vstd::laws_cmp::obeys_cmp::<&K>());
        assert(keys@ =~= all.unref());
        assert forall|i: int, j: int|
            #![trigger keys@[i], keys@[j]]
            0 <= i < j < keys@.len() implies keys@[i].cmp_spec(&keys@[j]) is Less by {
            assert(OrdSpec::cmp_spec(&all[i], &all[j]) is Less);
        }
        assert forall|key: K| keys@.contains(key) <==> map@.contains_key(key) by {
            assert(keys@.to_set().contains(key) <==> keys@.contains(key));
        }
    }
    keys
}

} // verus!
