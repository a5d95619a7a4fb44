//! Stable ordering of entries by an integer key, as `sort_by_key` on a
//! slice orders them.
use vstd::prelude::*;

verus! {

/// `item` placed after every entry whose key is not larger.
pub open spec fn insert_by_key<T>(sorted: Seq<(usize, T)>, item: (usize, T)) -> Seq<(usize, T)>
    decreases sorted.len(),
{
    if sorted.len() == 0 {
        seq![item]
    } else if sorted[0].0 > item.0 {
        seq![item] + sorted
    } else {
        seq![sorted[0]] + insert_by_key(sorted.drop_first(), item)
    }
}

/// The entries ordered by key; entries with equal keys keep their order.
pub open spec fn sort_by_key<T>(items: Seq<(usize, T)>) -> Seq<(usize, T)>
    decreases items.len(),
{
    if items.len() == 0 {
        seq![]
    } else {
        insert_by_key(sort_by_key(items.drop_last()), items.last())
    }
}

/// Where `item` goes in `sorted`: after the entries whose key is not larger.
pub proof fn lemma_insert_by_key<T>(sorted: Seq<(usize, T)>, item: (usize, T), j: int)
    requires
        0 <= j <= sorted.len(),
        forall|k: int| 0 <= k < j ==> sorted[k].0 <= item.0,
        j < sorted.len() ==> sorted[j].0 > item.0,
    ensures
        insert_by_key(sorted, item) == sorted.insert(j, item),
    decreases sorted.len(),
{
    if sorted.len() == 0 {
        assert(sorted.insert(j, item) =~= seq![item]);
    } else if j == 0 {
        assert(sorted.insert(0, item) =~= seq![item] + sorted);
    } else {
        let rest = sorted.drop_first();
        assert forall|k: int| 0 <= k < j - 1 implies rest[k].0 <= item.0 by {
            assert(rest[k] == sorted[k + 1]);
        }
        if j - 1 < rest.len() {
            assert(rest[j - 1] == sorted[j]);
        }
        lemma_insert_by_key(rest, item, j - 1);
        assert(seq![sorted[0]] + rest.insert(j - 1, item) =~= sorted.insert(j, item));
    }
}

/// Where an entry with key `key` goes in entries already in key order: after
/// every entry whose key is not larger.
pub fn key_insert_position<T>(sorted: &Vec<(usize, T)>, key: usize) -> (j: usize)
    ensures
        j <= sorted.len(),
        forall|k: int| 0 <= k < j ==> sorted@[k].0 <= key,
        j < sorted.len() ==> sorted@[j as int].0 > key,
{
    let mut j: usize = 0;
    while j < sorted.len() && sorted[j].0 <= key
        invariant
            j <= sorted.len(),
            forall|k: int| 0 <= k < j ==> sorted@[k].0 <= key,
        decreases sorted.len() - j,
    {
        j = j + 1;
    }
    j
}

pub open spec fn sorted_by_key<T>(items: Seq<(usize, T)>) -> bool {
    forall|i: int, j: int| 0 <= i < j < items.len() ==> #[trigger] items[i].0 <= #[trigger] items[j].0
}

/// Inserting into entries in key order keeps them in key order.
pub proof fn lemma_insert_keeps_order<T>(sorted: Seq<(usize, T)>, item: (usize, T))
    requires
        sorted_by_key(sorted),
    ensures
        sorted_by_key(insert_by_key(sorted, item)),
        insert_by_key(sorted, item).len() == sorted.len() + 1,
        forall|q: int|
            0 <= q < insert_by_key(sorted, item).len() ==> (#[trigger] insert_by_key(sorted, item)[q]).0
                == item.0 || (0 <= q - 1 < sorted.len() && insert_by_key(sorted, item)[q] == sorted[q
                - 1]) || (q < sorted.len() && insert_by_key(sorted, item)[q] == sorted[q]),
    decreases sorted.len(),
{
    if sorted.len() > 0 && sorted[0].0 <= item.0 {
        let rest = sorted.drop_first();
        assert(sorted_by_key(rest)) by {
            assert forall|i: int, j: int| 0 <= i < j < rest.len() implies #[trigger] rest[i].0
                <= #[trigger] rest[j].0 by {
                assert(rest[i] == sorted[i + 1]);
                assert(rest[j] == sorted[j + 1]);
            }
        }
        lemma_insert_keeps_order(rest, item);
        let ins = insert_by_key(sorted, item);
        let r = insert_by_key(rest, item);
        assert(ins == seq![sorted[0]] + r);
        assert forall|q: int| 0 <= q < ins.len() implies (#[trigger] ins[q]).0 == item.0 || (0
            <= q - 1 < sorted.len() && ins[q] == sorted[q - 1]) || (q < sorted.len() && ins[q]
            == sorted[q]) by {
            if q > 0 {
                assert(ins[q] == r[q - 1]);
                if q - 1 < rest.len() && r[q - 1] == rest[q - 1] {
                    assert(rest[q - 1] == sorted[q]);
                }
                if 0 <= q - 2 && r[q - 1] == rest[q - 2] {
                    assert(rest[q - 2] == sorted[q - 1]);
                }
            }
        }
        assert forall|i: int, j: int| 0 <= i < j < ins.len() implies #[trigger] ins[i].0
            <= #[trigger] ins[j].0 by {
            if i == 0 {
                assert(ins[0] == sorted[0]);
                assert(ins[j] == r[j - 1]);
                let q = j - 1;
                assert(r[q].0 == item.0 || (0 <= q - 1 < rest.len() && r[q] == rest[q - 1]) || (q
                    < rest.len() && r[q] == rest[q]));
                if 0 <= q - 1 < rest.len() && r[q] == rest[q - 1] {
                    assert(rest[q - 1] == sorted[q]);
                    assert(sorted[0].0 <= sorted[q].0);
                }
                if q < rest.len() && r[q] == rest[q] {
                    assert(rest[q] == sorted[q + 1]);
                    assert(sorted[0].0 <= sorted[q + 1].0);
                }
            } else {
                assert(ins[i] == r[i - 1]);
                assert(ins[j] == r[j - 1]);
            }
        }
    } else if sorted.len() > 0 {
        let ins = insert_by_key(sorted, item);
        assert(ins == seq![item] + sorted);
        assert forall|i: int, j: int| 0 <= i < j < ins.len() implies #[trigger] ins[i].0
            <= #[trigger] ins[j].0 by {
            assert(ins[j] == sorted[j - 1]);
            if i > 0 {
                assert(ins[i] == sorted[i - 1]);
            } else {
                assert(sorted[0].0 <= sorted[j - 1].0);
            }
        }
        assert forall|q: int| 0 <= q < ins.len() implies (#[trigger] ins[q]).0 == item.0 || (0
            <= q - 1 < sorted.len() && ins[q] == sorted[q - 1]) || (q < sorted.len() && ins[q]
            == sorted[q]) by {
            if q > 0 {
                assert(ins[q] == sorted[q - 1]);
            }
        }
    }
}

/// Ordered entries are in key order.
pub proof fn lemma_sort_by_key_sorted<T>(items: Seq<(usize, T)>)
    ensures
        sorted_by_key(sort_by_key(items)),
        sort_by_key(items).len() == items.len(),
    decreases items.len(),
{
    if items.len() > 0 {
        lemma_sort_by_key_sorted(items.drop_last());
        lemma_insert_keeps_order(sort_by_key(items.drop_last()), items.last());
    }
}

} // verus!
