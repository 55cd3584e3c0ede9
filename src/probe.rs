use vstd::prelude::*;

use rayon::iter::{IntoParallelRefIterator, ParallelIterator};

verus! {

/// The sum of the byte lengths `lens`.
pub open spec fn len_sum(lens: Seq<u64>) -> nat
    decreases lens.len(),
{
    if lens.len() == 0 {
        0
    } else {
        len_sum(lens.drop_last()) + lens.last() as nat
    }
}

/// Relies on rayon's `ParallelIterator::sum` over the lengths widened with
/// `u128::from`: the parallel reduction adds every item once, and a sum of at
/// most `usize::MAX` values below 2^64 does not overflow a `u128`.
#[verifier::external_body]
fn parallel_sum(lens: &Vec<u64>) -> (r: u128)
    ensures
        r == len_sum(lens@),
{
    lens.par_iter().copied().map(u128::from).sum::<u128>()
}

/// The total size of a directory tree whose regular files have the byte
/// lengths `lens`, summed in parallel; `None` when it does not fit in a `u64`.
pub fn measure_total(lens: &Vec<u64>) -> (r: Option<u64>)
    ensures
        len_sum(lens@) <= u64::MAX ==> r == Some(len_sum(lens@) as u64),
        len_sum(lens@) > u64::MAX ==> r is None,
{
    let total = parallel_sum(lens);
    if total <= u64::MAX as u128 {
        Some(total as u64)
    } else {
        None
    }
}

} // verus!
