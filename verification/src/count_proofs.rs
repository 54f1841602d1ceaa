//! Facts about counting disks.

use vstd::prelude::*;
use crate::board::{Grid, Player};
use crate::rules::{disks, disks_upto};

verus! {

/// Among the first `k` squares there are between 0 and `k` disks of one side,
/// and the two sides together hold no more than `k`.
pub proof fn lemma_disks_upto_bounds(g: Grid, p: Player, k: int)
    requires
        0 <= k,
    ensures
        0 <= disks_upto(g, p, k) <= k,
        disks_upto(g, p, k) + disks_upto(g, p.other(), k) <= k,
    decreases k,
{
    if k > 0 {
        lemma_disks_upto_bounds(g, p, k - 1);
    }
}

/// A side holds between 0 and 64 disks, and both sides together at most 64.
pub proof fn lemma_disks_bounds(g: Grid, p: Player)
    ensures
        0 <= disks(g, p) <= 64,
        disks(g, p) + disks(g, p.other()) <= 64,
{
    lemma_disks_upto_bounds(g, p, 64);
}

} // verus!
