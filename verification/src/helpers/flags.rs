//! Counting what is left in a list of used-marks.

use vstd::prelude::*;

verus! {

/// How many items are not used yet.
pub open spec fn unused(used: Seq<bool>) -> nat
    decreases used.len(),
{
    if used.len() == 0 {
        0
    } else {
        unused(used.drop_last()) + if used.last() {
            0nat
        } else {
            1nat
        }
    }
}

/// Using an item leaves one less.
pub proof fn lemma_unused_update(used: Seq<bool>, j: int)
    requires
        0 <= j < used.len(),
        !used[j],
    ensures
        unused(used.update(j, true)) == unused(used) - 1,
    decreases used.len(),
{
    let after = used.update(j, true);
    if j == used.len() - 1 {
        assert(after.drop_last() =~= used.drop_last());
    } else {
        lemma_unused_update(used.drop_last(), j);
        assert(after.drop_last() =~= used.drop_last().update(j, true));
    }
}

/// There are no more unused items than items.
pub proof fn lemma_unused_bound(used: Seq<bool>)
    ensures
        unused(used) <= used.len(),
    decreases used.len(),
{
    if used.len() > 0 {
        lemma_unused_bound(used.drop_last());
    }
}

} // verus!
