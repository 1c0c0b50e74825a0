//! General properties of the priority-ordered merge, stated and proved
//! over the same spec functions the builder's contracts use: a chain of
//! partial views, highest priority first, folded onto an aggregate by
//! [`apply_chain`].

use vstd::prelude::*;

use crate::builder::apply_chain;
use crate::model::{merge_slot, merge_slots, SlotV};

verus! {

/// A field already set in the aggregate survives every further merge: no
/// lower-priority layer can overwrite it.
pub proof fn lemma_set_scalar_survives(acc: Seq<SlotV>, chains: Seq<Seq<SlotV>>, i: int)
    requires
        forall|k: int| 0 <= k < chains.len() ==> (#[trigger] chains[k]).len() == acc.len(),
        0 <= i < acc.len(),
        acc[i] is Scalar,
    ensures
        apply_chain(acc, chains).len() == acc.len(),
        apply_chain(acc, chains)[i] == acc[i],
    decreases chains.len(),
{
    if chains.len() > 0 {
        let next = merge_slots(acc, chains.first());
        crate::model::lemma_merge_slots_len(acc, chains.first());
        crate::model::lemma_merge_slots_index(acc, chains.first(), i);
        assert(next[i] == merge_slot(acc[i], chains.first()[i]));
        assert(forall|k: int|
            0 <= k < chains.drop_first().len() ==> (#[trigger] chains.drop_first()[k]).len()
                == next.len());
        lemma_set_scalar_survives(next, chains.drop_first(), i);
    }
}

/// For all stacks of layers, the highest-priority layer that sets a scalar
/// field wins, regardless of how many lower layers also set it: if every
/// layer above `j` leaves field `i` unset, and layer `j` sets it, the
/// merged configuration holds layer `j`'s value at `i`.
pub proof fn lemma_highest_setter_wins(acc: Seq<SlotV>, chains: Seq<Seq<SlotV>>, i: int, j: int)
    requires
        forall|k: int| 0 <= k < chains.len() ==> (#[trigger] chains[k]).len() == acc.len(),
        0 <= i < acc.len(),
        0 <= j < chains.len(),
        acc[i] is Absent,
        chains[j][i] is Scalar,
        forall|k: int| 0 <= k < j ==> #[trigger] chains[k][i] is Absent,
    ensures
        apply_chain(acc, chains).len() == acc.len(),
        apply_chain(acc, chains)[i] == chains[j][i],
    decreases chains.len(),
{
    let next = merge_slots(acc, chains.first());
    crate::model::lemma_merge_slots_len(acc, chains.first());
    crate::model::lemma_merge_slots_index(acc, chains.first(), i);
    assert(next[i] == merge_slot(acc[i], chains.first()[i]));
    assert(forall|k: int|
        0 <= k < chains.drop_first().len() ==> (#[trigger] chains.drop_first()[k]).len()
            == next.len());
    if j == 0 {
        assert(next[i] == chains.first()[i]);
        lemma_set_scalar_survives(next, chains.drop_first(), i);
    } else {
        assert(chains[0][i] is Absent);
        assert(next[i] is Absent);
        assert(forall|k: int|
            0 <= k < j - 1 ==> #[trigger] chains.drop_first()[k][i] is Absent);
        lemma_highest_setter_wins(next, chains.drop_first(), i, j - 1);
        assert(chains.drop_first()[j - 1] == chains[j]);
    }
}

/// A field no layer sets stays unset through the whole merge.
pub proof fn lemma_unset_everywhere_stays_unset(acc: Seq<SlotV>, chains: Seq<Seq<SlotV>>, i: int)
    requires
        forall|k: int| 0 <= k < chains.len() ==> (#[trigger] chains[k]).len() == acc.len(),
        0 <= i < acc.len(),
        acc[i] is Absent,
        forall|k: int| 0 <= k < chains.len() ==> #[trigger] chains[k][i] is Absent,
    ensures
        apply_chain(acc, chains).len() == acc.len(),
        apply_chain(acc, chains)[i] is Absent,
    decreases chains.len(),
{
    if chains.len() > 0 {
        let next = merge_slots(acc, chains.first());
        crate::model::lemma_merge_slots_len(acc, chains.first());
        crate::model::lemma_merge_slots_index(acc, chains.first(), i);
        assert(forall|k: int|
            0 <= k < chains.drop_first().len() ==> (#[trigger] chains.drop_first()[k]).len()
                == next.len());
        assert(forall|k: int|
            0 <= k < chains.drop_first().len() ==> #[trigger] chains.drop_first()[k][i]
                is Absent);
        lemma_unset_everywhere_stays_unset(next, chains.drop_first(), i);
    }
}

/// For layers with disjoint scalar field sets, merging yields the union:
/// each field set by exactly one layer carries that layer's value, and a
/// field set by no layer stays unset.
pub proof fn lemma_disjoint_layers_union(acc: Seq<SlotV>, chains: Seq<Seq<SlotV>>, i: int)
    requires
        forall|k: int| 0 <= k < chains.len() ==> (#[trigger] chains[k]).len() == acc.len(),
        0 <= i < acc.len(),
        acc[i] is Absent,
        forall|k: int| 0 <= k < chains.len() ==> !(#[trigger] chains[k][i] is Sub),
        forall|k1: int, k2: int|
            0 <= k1 < chains.len() && 0 <= k2 < chains.len() && k1 != k2 && #[trigger] chains[k1][i]
                is Scalar ==> !(#[trigger] chains[k2][i] is Scalar),
    ensures
        forall|j: int|
            0 <= j < chains.len() && #[trigger] chains[j][i] is Scalar ==> apply_chain(
                acc,
                chains,
            )[i] == chains[j][i],
        (forall|j: int| 0 <= j < chains.len() ==> !(#[trigger] chains[j][i] is Scalar))
            ==> apply_chain(acc, chains)[i] is Absent,
{
    assert forall|j: int|
        0 <= j < chains.len() && #[trigger] chains[j][i] is Scalar implies apply_chain(
        acc,
        chains,
    )[i] == chains[j][i] by {
        assert forall|k: int| 0 <= k < j implies #[trigger] chains[k][i] is Absent by {
            assert(!(chains[k][i] is Scalar));
            assert(!(chains[k][i] is Sub));
        }
        lemma_highest_setter_wins(acc, chains, i, j);
    }
    if forall|j: int| 0 <= j < chains.len() ==> !(#[trigger] chains[j][i] is Scalar) {
        assert forall|k: int| 0 <= k < chains.len() implies #[trigger] chains[k][i] is Absent by {
            assert(!(chains[k][i] is Scalar));
            assert(!(chains[k][i] is Sub));
        }
        lemma_unset_everywhere_stays_unset(acc, chains, i);
    }
}

/// Merging nested sub-configurations is field-wise recursive: where a
/// higher layer sets field `jb` of a sub-configuration and a lower layer
/// sets a field `ja` the higher layer leaves unset, both values appear in
/// the merged sub-configuration.
pub proof fn lemma_nested_merge_fieldwise(
    a: Seq<SlotV>,
    b: Seq<SlotV>,
    i: int,
    ja: int,
    jb: int,
)
    requires
        a.len() == b.len(),
        0 <= i < a.len(),
        a[i] is Sub,
        b[i] is Sub,
        a[i]->Sub_0.len() == b[i]->Sub_0.len(),
        0 <= ja < a[i]->Sub_0.len(),
        0 <= jb < a[i]->Sub_0.len(),
        a[i]->Sub_0[ja] is Absent,
        a[i]->Sub_0[jb] is Scalar,
    ensures
        merge_slots(a, b)[i] == SlotV::Sub(merge_slots(a[i]->Sub_0, b[i]->Sub_0)),
        merge_slots(a[i]->Sub_0, b[i]->Sub_0)[ja] == b[i]->Sub_0[ja],
        merge_slots(a[i]->Sub_0, b[i]->Sub_0)[jb] == a[i]->Sub_0[jb],
{
    crate::model::lemma_merge_slots_index(a, b, i);
    crate::model::lemma_merge_slots_index(a[i]->Sub_0, b[i]->Sub_0, ja);
    crate::model::lemma_merge_slots_index(a[i]->Sub_0, b[i]->Sub_0, jb);
}

} // verus!
