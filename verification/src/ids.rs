//! Ordered lists of identifiers, and the keys of maps.
use std::collections::HashMap;
use vstd::prelude::*;
use vstd::std_specs::hash::obeys_key_model;

verus! {

broadcast use vstd::std_specs::hash::group_hash_axioms;

/// Each identifier is smaller than the ones after it.
pub open spec fn increasing(ids: Seq<u64>) -> bool {
    forall|i: int, j: int| 0 <= i < j < ids.len() ==> ids[i] < ids[j]
}

/// `ids` lists the members of the set, each once, in increasing order.
pub open spec fn lists(ids: Seq<u64>, set: Set<u64>) -> bool {
    increasing(ids) && ids.to_set() == set
}

/// The members of a finite set in increasing order.
pub open spec fn in_order(set: Set<u64>) -> Seq<u64> {
    choose|ids: Seq<u64>| lists(ids, set)
}

proof fn lemma_lists_equal(a: Seq<u64>, b: Seq<u64>)
    requires
        increasing(a),
        increasing(b),
        a.to_set() == b.to_set(),
    ensures
        a == b,
    decreases a.len(),
{
    if a.len() == 0 {
        if b.len() > 0 {
            assert(b.to_set().contains(b[0]));
            assert(a.to_set().contains(b[0]));
        }
        assert(a =~= b);
    } else {
        assert(a.to_set().contains(a[0]));
        assert(b.to_set().contains(a[0]));
        assert(a.to_set().contains(a.last()));
        assert(b.to_set().contains(a.last()));
        assert(b.to_set().contains(b.last()));
        assert(a.to_set().contains(b.last()));
        let i = choose|i: int| 0 <= i < a.len() && a[i] == b.last();
        let j = choose|j: int| 0 <= j < b.len() && b[j] == a.last();
        assert(a.last() == b.last());
        let init_a = a.drop_last();
        let init_b = b.drop_last();
        assert forall|id: u64| init_a.to_set().contains(id) <==> init_b.to_set().contains(id) by {
            if init_a.contains(id) {
                let k = choose|k: int| 0 <= k < init_a.len() && init_a[k] == id;
                assert(a[k] == id);
                assert(a.to_set().contains(id));
                assert(b.to_set().contains(id));
                let m = choose|m: int| 0 <= m < b.len() && b[m] == id;
                assert(init_b[m] == id);
            }
            if init_b.contains(id) {
                let k = choose|k: int| 0 <= k < init_b.len() && init_b[k] == id;
                assert(b[k] == id);
                assert(b.to_set().contains(id));
                assert(a.to_set().contains(id));
                let m = choose|m: int| 0 <= m < a.len() && a[m] == id;
                assert(init_a[m] == id);
            }
        }
        assert(init_a.to_set() =~= init_b.to_set());
        lemma_lists_equal(init_a, init_b);
        assert(a =~= init_a.push(a.last()));
        assert(b =~= init_b.push(b.last()));
    }
}

/// A list in increasing order is the list of its members in increasing order.
pub proof fn lemma_in_order(ids: Seq<u64>, set: Set<u64>)
    requires
        lists(ids, set),
    ensures
        in_order(set) == ids,
{
    lemma_lists_equal(in_order(set), ids);
}

/// Puts an identifier in its place in an ordered list, unless it is there already.
pub fn add_id(ids: &mut Vec<u64>, id: u64)
    requires
        increasing(old(ids)@),
    ensures
        lists(final(ids)@, old(ids)@.to_set().insert(id)),
{
    let mut i: usize = ids.len();
    while i > 0 && ids[i - 1] > id
        invariant
            *ids == *old(ids),
            i <= ids@.len(),
            increasing(ids@),
            forall|k: int| i <= k < ids@.len() ==> ids@[k] > id,
        decreases i,
    {
        i -= 1;
    }
    let ghost before = ids@;
    if i > 0 && ids[i - 1] == id {
        assert(before.to_set().contains(before[i - 1]));
        assert(before.to_set() =~= before.to_set().insert(id));
        return ;
    }
    ids.insert(i, id);
    proof {
        assert forall|x: u64| ids@.to_set().contains(x) <==> before.to_set().insert(id).contains(
            x,
        ) by {
            if ids@.contains(x) {
                let k = choose|k: int| 0 <= k < ids@.len() && ids@[k] == x;
                if k < i {
                    assert(before[k] == x);
                } else if k > i {
                    assert(before[k - 1] == x);
                }
            }
            if before.contains(x) {
                let k = choose|k: int| 0 <= k < before.len() && before[k] == x;
                if k < i {
                    assert(ids@[k] == x);
                } else {
                    assert(ids@[k + 1] == x);
                }
            }
            assert(ids@[i as int] == id);
        }
        assert(ids@.to_set() =~= before.to_set().insert(id));
        assert(forall|k: int| 0 <= k < i ==> #[trigger] before[k] < id);
    }
}

/// The keys of a map, each once, in no particular order.
pub fn keys_of<K: Copy, V>(map: &HashMap<K, V>) -> (r: Vec<K>)
    requires
        obeys_key_model::<K>(),
    ensures
        r@.no_duplicates(),
        r@.to_set() == map@.dom(),
        r@.len() == map@.dom().len(),
        forall|k: K| r@.contains(k) <==> map@.contains_key(k),
{
    let mut r: Vec<K> = Vec::new();
    for key in it: map.keys()
        invariant
            it.seq().unref().to_set() == map@.dom(),
            it.seq().no_duplicates(),
            it.seq().len() == map@.dom().len(),
            r@ == it.seq().unref().take(it.index() as int),
            it.index() == it.seq().len() ==> r@ == it.seq().unref(),
            it.seq().unref().no_duplicates(),
    {
        r.push(*key);
        assert(r@ =~= it.seq().unref().take(it.index() + 1));
        assert(it.index() + 1 == it.seq().len() ==> r@ =~= it.seq().unref());
    }
    assert forall|k: K| r@.contains(k) <==> map@.contains_key(k) by {
        assert(r@.to_set().contains(k) <==> map@.dom().contains(k));
    }
    r
}

/// Whether the identifier is in the list.
pub fn has_id(ids: &Vec<u64>, id: u64) -> (r: bool)
    ensures
        r == ids@.contains(id),
{
    for i in 0..ids.len()
        invariant
            forall|k: int| 0 <= k < i ==> ids@[k] != id,
    {
        if ids[i] == id {
            return true;
        }
    }
    false
}

} // verus!
