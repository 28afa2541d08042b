//! The random draws the library makes, each behind a contract that states what
//! holds of every outcome.

use rand::seq::IndexedRandom;
use rand::seq::SliceRandom;
use vstd::prelude::*;

verus! {

/// Calls `rand::random_range` on the half-open range from `low` to `high`.
///
/// Trusted: the draw lies in the range. The range must not be empty, since the
/// sampler refuses an empty range.
#[verifier::external_body]
pub(crate) fn random_range(low: i128, high: i128) -> (drawn: i128)
    requires
        low < high,
    ensures
        low <= drawn < high,
{
    rand::random_range(low..high)
}

/// Calls `SliceRandom::shuffle` on the items with the thread's generator.
///
/// Trusted: the shuffle only swaps items, so afterwards the vector holds the
/// same items, each as often as before.
#[verifier::external_body]
pub(crate) fn shuffle<T>(items: &mut Vec<T>)
    ensures
        final(items)@.to_multiset() == old(items)@.to_multiset(),
{
    items.shuffle(&mut rand::rng())
}

/// The sum of the weights of the entries: of their second components.
pub open spec fn weight_sum(entries: Seq<(usize, usize)>) -> int
    decreases entries.len(),
{
    if entries.len() == 0 {
        0
    } else {
        weight_sum(entries.drop_last()) + entries.last().1
    }
}

/// Whether a weighted draw from the entries succeeds: there is an entry, and
/// the weights add up to more than zero and to no more than can be held.
pub open spec fn drawable(entries: Seq<(usize, usize)>) -> bool {
    entries.len() > 0 && 0 < weight_sum(entries) <= usize::MAX
}

/// Calls `IndexedRandom::choose_weighted` on the entries, each weighted by its
/// second component, and hands back a copy of the entry that was drawn.
///
/// Trusted: the draw fails exactly if there is no entry, the weights add up to
/// more than can be held, or they add up to zero. An entry that comes back is
/// one of those given, and its weight is above zero.
#[verifier::external_body]
pub(crate) fn choose_weighted(entries: &Vec<(usize, usize)>) -> (drawn: Option<(usize, usize)>)
    ensures
        drawn is Some <==> drawable(entries@),
        drawn matches Some(entry) ==> entries@.contains(entry) && entry.1 > 0,
{
    entries.choose_weighted(&mut rand::rng(), |entry| entry.1).ok().copied()
}

/// A number drawn from zero up to, but not including, `bound`.
pub fn random_below(bound: usize) -> (drawn: usize)
    requires
        bound > 0,
    ensures
        drawn < bound,
{
    random_range(0, bound as i128) as usize
}

/// A number drawn from minus `spread` up to, but not including, `spread`.
pub fn random_offset(spread: i32) -> (drawn: i32)
    requires
        spread > 0,
    ensures
        -spread <= drawn < spread,
{
    random_range(-(spread as i128), spread as i128) as i32
}

/// Picks a position among `len` items, each equally likely, or none if there
/// are no items.
pub fn choose_index(len: usize) -> (chosen: Option<usize>)
    ensures
        len == 0 <==> chosen is None,
        chosen matches Some(index) ==> index < len,
{
    if len == 0 {
        None
    } else {
        Some(random_below(len))
    }
}

} // verus!
