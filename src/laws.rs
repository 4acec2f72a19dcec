use vstd::prelude::*;

use crate::object::{integers_of, wrong_type, Dictionary, Primitive};

verus! {

/// After `set(k, v)` a lookup of `k` finds `v`, and a second `set` of the
/// same key wins over the first.
pub proof fn lemma_set_then_get(d: Dictionary, k: Seq<char>, v1: Primitive, v2: Primitive)
    ensures
        d@.insert(k, v1).contains_key(k),
        d@.insert(k, v1)[k] == v1,
        d@.insert(k, v1).insert(k, v2)[k] == v2,
        d@.insert(k, v1).insert(k, v2) == d@.insert(k, v2),
{
    assert(d@.insert(k, v1).insert(k, v2) =~= d@.insert(k, v2));
}

/// A list whose items are all integers reads as those integers.
pub proof fn lemma_integers_of_all(items: Seq<Primitive>)
    requires
        forall|j: int| 0 <= j < items.len() ==> items[j] is Integer,
    ensures
        integers_of(items) == Ok::<Seq<i32>, crate::error::Error>(
            items.map_values(|p: Primitive| p->Integer_0),
        ),
    decreases items.len(),
{
    if items.len() > 0 {
        lemma_integers_of_all(items.drop_last());
        assert(items.map_values(|p: Primitive| p->Integer_0) =~= items.drop_last().map_values(
            |p: Primitive| p->Integer_0,
        ).push(items.last()->Integer_0));
    } else {
        assert(items.map_values(|p: Primitive| p->Integer_0) =~= Seq::<i32>::empty());
    }
}

/// Reading a list as integers fails with the error of its first item that is
/// not an integer; nothing after that item matters.
pub proof fn lemma_integers_of_first_failure(items: Seq<Primitive>, i: int)
    requires
        0 <= i < items.len(),
        forall|j: int| 0 <= j < i ==> items[j] is Integer,
        !(items[i] is Integer),
    ensures
        integers_of(items) == Err::<Seq<i32>, crate::error::Error>(wrong_type("Integer", items[i])),
{
    let prefix = items.subrange(0, i);
    lemma_integers_of_all(prefix);
    assert(items.subrange(0, i + 1).drop_last() =~= prefix);
    crate::object::lemma_integers_of_failure_stays(items, i + 1);
}

} // verus!
