//! The size of the whole data directory, remembered between scans.
use crate::tree::{dir_stats, tree_size, DirNode};
use vstd::prelude::*;

verus! {

/// The last measured size of the data directory, and whether it still holds.
#[derive(Clone, Copy, Debug)]
pub struct TotalCache {
    pub total: u64,
    pub valid: bool,
}

/// How the size of the data directory is to be had.
#[derive(Clone, Copy, Debug, PartialEq, Eq, Structural)]
pub enum TotalAnswer {
    /// It is known.
    Known(u64),
    /// The directory has to be measured, and the result handed to `store_total`.
    Measure,
}

impl TotalCache {
    /// A cache in which nothing was measured yet.
    pub fn new() -> (r: TotalCache)
        ensures
            r == (TotalCache { total: 0, valid: false }),
    {
        TotalCache { total: 0, valid: false }
    }
}

/// The size of the data directory: measured anew where `compute` asks for it or nothing valid is
/// remembered, else the remembered one.
pub open spec fn total_answer(cache: TotalCache, compute: bool) -> TotalAnswer {
    if compute || !cache.valid {
        TotalAnswer::Measure
    } else {
        TotalAnswer::Known(cache.total)
    }
}

/// Whether a scan measures the data directory anew: only where that was asked for.
pub fn wants_total(asked: Option<bool>) -> (r: bool)
    ensures
        r == (asked == Some(true)),
{
    match asked {
        Some(compute) => compute,
        None => false,
    }
}

/// How the size of the data directory is to be had.
pub fn root_total(cache: &TotalCache, compute: bool) -> (r: TotalAnswer)
    ensures
        r == total_answer(*cache, compute),
{
    if compute || !cache.valid {
        TotalAnswer::Measure
    } else {
        TotalAnswer::Known(cache.total)
    }
}

/// Remembers the size of the data directory, and returns it.
pub fn store_total(cache: &mut TotalCache, root: &DirNode) -> (r: u64)
    requires
        tree_size(*root) <= u64::MAX,
    ensures
        r == tree_size(*root),
        *final(cache) == (TotalCache { total: r, valid: true }),
{
    let (total, _) = dir_stats(root);
    cache.total = total;
    cache.valid = true;
    total
}

/// Forgets that the remembered size holds: something was removed.
pub fn invalidate_total(cache: &mut TotalCache)
    ensures
        *final(cache) == (TotalCache { valid: false, ..*old(cache) }),
{
    cache.valid = false;
}

/// A stored size answers every scan that does not ask for a new one, until it is invalidated; after
/// that every scan measures.
pub proof fn law_stored_until_invalidated(cache: TotalCache, total: u64, compute: bool)
    ensures
        total_answer(TotalCache { total, valid: true }, false) == TotalAnswer::Known(total),
        total_answer(cache, true) == TotalAnswer::Measure,
        total_answer(TotalCache { valid: false, ..cache }, compute) == TotalAnswer::Measure,
{
}

/// Measuring stores what was measured, and that is the answer from then on; a cache in which nothing
/// was measured has no answer.
pub proof fn law_nothing_is_known_unmeasured(total: u64)
    ensures
        total_answer(TotalCache { total, valid: false }, false) is Measure,
        total_answer(TotalCache { total, valid: false }, true) is Measure,
        total_answer(TotalCache { total, valid: true }, true) is Measure,
        total_answer(TotalCache { total, valid: true }, false) matches TotalAnswer::Known(known)
            && known == total,
{
}

} // verus!
