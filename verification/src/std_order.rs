use vstd::prelude::*;
use vstd::std_specs::cmp::PartialOrdIs;
use vstd::std_specs::cmp::PartialOrdSpec;
use vstd::std_specs::cmp::OrdSpec;
use core::ops::RangeInclusive;
use vstd::std_specs::btree::increasing_seq;
use vstd::std_specs::btree::key_obeys_cmp_spec;

verus! {

/// `RangeInclusive::start` hands back a reference to the lower bound the range
/// was built with. What it gives once the range has been iterated to its end
/// is left unsaid, as std leaves it.
pub assume_specification<Idx>[ RangeInclusive::<Idx>::start ](r: &RangeInclusive<Idx>) -> (res: &Idx)
    ensures
        !r@.exhausted ==> *res == r@.start,
;

/// `RangeInclusive::end` hands back a reference to the upper bound the range
/// was built with. What it gives once the range has been iterated to its end
/// is left unsaid, as std leaves it.
pub assume_specification<Idx>[ RangeInclusive::<Idx>::end ](r: &RangeInclusive<Idx>) -> (res: &Idx)
    ensures
        !r@.exhausted ==> *res == r@.end,
;

/// `RangeInclusive::is_empty` is true when the range holds no item: when it has
/// been iterated to completion, or when its start is not at most its end.
pub assume_specification<Idx: PartialOrd<Idx>>[ RangeInclusive::<Idx>::is_empty ](r: &RangeInclusive<Idx>) -> (res: bool) where Idx: PartialOrd<Idx>
    ensures
        Idx::obeys_partial_cmp_spec() ==> res == (r@.exhausted || !r@.start.is_le(&r@.end)),
;

/// Timestamps are ordered as integers, so a `BTreeMap` keyed by them hands its
/// entries out in increasing key order.
pub proof fn lemma_i32_keys_ordered()
    ensures
        key_obeys_cmp_spec::<i32>(),
{
    broadcast use vstd::laws_cmp::group_laws_cmp;
    broadcast use vstd::std_specs::btree::group_btree_axioms;
}

/// An increasing sequence of `i32` keys is strictly increasing as integers.
pub proof fn lemma_increasing_i32_keys(s: Seq<(&i32, &i32)>)
    requires
        increasing_seq(s.map_values(|kv: (&i32, &i32)| *kv.0)),
    ensures
        forall|i: int, j: int| 0 <= i < j < s.len() ==> *s[i].0 < *s[j].0,
{
    broadcast use vstd::laws_cmp::group_laws_cmp;
    broadcast use vstd::std_specs::btree::group_btree_axioms;
    let keys = s.map_values(|kv: (&i32, &i32)| *kv.0);
    assert(vstd::laws_cmp::obeys_cmp::<i32>());
    assert(increasing_seq(keys));
    assert forall|i: int, j: int| 0 <= i < j < s.len() implies *s[i].0 < *s[j].0 by {
        assert(keys[i] == *s[i].0);
        assert(keys[j] == *s[j].0);
        assert(keys[i].cmp_spec(&keys[j]) is Less);
    }
}

} // verus!
