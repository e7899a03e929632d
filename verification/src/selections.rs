//! The selections that the generator walks: choices of one alternate per
//! field, subsets of the fields, and the orders in which a subset can be taken.

use crate::conversion::ConversionSort;
use itertools::Itertools;
use vstd::prelude::*;

verus! {

/// The lists inside a list of lists.
pub open spec fn nested(lists: Vec<Vec<usize>>) -> Seq<Seq<usize>> {
    Seq::new(lists@.len(), |i: int| lists@[i]@)
}

/// Whether `list` holds every sequence that meets `wanted`, once, and nothing else.
pub open spec fn enumerates(list: Seq<Seq<usize>>, wanted: spec_fn(Seq<usize>) -> bool) -> bool {
    &&& forall|i: int| 0 <= i < list.len() ==> wanted(#[trigger] list[i])
    &&& forall|s: Seq<usize>| wanted(s) ==> #[trigger] list.contains(s)
    &&& forall|i: int, j: int| 0 <= i < j < list.len() ==> #[trigger] list[i] != #[trigger] list[j]
}

/// Whether `choice` picks, for each position, an index below that position's count.
pub open spec fn is_choice(choice: Seq<usize>, counts: Seq<usize>) -> bool {
    &&& choice.len() == counts.len()
    &&& forall|i: int| 0 <= i < choice.len() ==> #[trigger] choice[i] < counts[i]
}

/// Whether `subset` holds indices below `n` in ascending order.
pub open spec fn is_subset(subset: Seq<usize>, n: nat) -> bool {
    &&& forall|i: int| 0 <= i < subset.len() ==> #[trigger] subset[i] < n
    &&& forall|i: int, j: int| 0 <= i < j < subset.len() ==> subset[i] < subset[j]
}

/// Whether `order` holds each item of `items` once, in any order.
pub open spec fn is_ordering(order: Seq<usize>, items: Seq<usize>) -> bool {
    &&& order.len() == items.len()
    &&& order.no_duplicates()
    &&& forall|i: int| 0 <= i < order.len() ==> items.contains(#[trigger] order[i])
}

/// What `multi_cartesian_product` of itertools yields for the ranges `0..counts[i]`.
pub uninterp spec fn cartesian_product_of(counts: Seq<usize>) -> Seq<Seq<usize>>;

/// What `powerset` of itertools yields for the range `0..n`.
pub uninterp spec fn powerset_of(n: usize) -> Seq<Seq<usize>>;

/// What `combinations` of itertools yields for the range `0..n` and the length `k`.
pub uninterp spec fn combinations_of(n: usize, k: usize) -> Seq<Seq<usize>>;

/// What `permutations` of itertools yields for `items`, taken at their full length.
pub uninterp spec fn permutations_of(items: Seq<usize>) -> Seq<Seq<usize>>;

/// Calls `Itertools::multi_cartesian_product` on the ranges `0..counts[i]`.
/// The contract claims that it yields every way to pick one index per
/// range, each once: with no range at all the one empty pick, and nothing
/// where a range is empty.
#[verifier::external_body]
pub(crate) fn multi_cartesian_product(counts: &Vec<usize>) -> (r: Vec<Vec<usize>>)
    ensures
        nested(r) == cartesian_product_of(counts@),
        enumerates(nested(r), |choice: Seq<usize>| is_choice(choice, counts@)),
{
    counts.iter().map(|count| 0..*count).multi_cartesian_product().collect()
}

/// Calls `Itertools::powerset` on the range `0..n`. The contract claims that
/// it yields every subset of the range once, each in ascending order.
#[verifier::external_body]
pub(crate) fn powerset(n: usize) -> (r: Vec<Vec<usize>>)
    ensures
        nested(r) == powerset_of(n),
        enumerates(nested(r), |subset: Seq<usize>| is_subset(subset, n as nat)),
{
    (0..n).powerset().collect()
}

/// Calls `Itertools::combinations` on the range `0..n`. The contract claims
/// that it yields every subset of `k` indices once, each in ascending order.
#[verifier::external_body]
pub(crate) fn combinations(n: usize, k: usize) -> (r: Vec<Vec<usize>>)
    ensures
        nested(r) == combinations_of(n, k),
        enumerates(
            nested(r),
            |subset: Seq<usize>| is_subset(subset, n as nat) && subset.len() == k,
        ),
{
    (0..n).combinations(k).collect()
}

/// Calls `Itertools::permutations` on `items` with their number as length.
/// The contract claims that, where no item occurs twice, it yields every
/// order of the items once.
#[verifier::external_body]
pub(crate) fn permutations(items: &Vec<usize>) -> (r: Vec<Vec<usize>>)
    ensures
        nested(r) == permutations_of(items@),
        items@.no_duplicates() ==> enumerates(
            nested(r),
            |order: Seq<usize>| is_ordering(order, items@),
        ),
{
    items.iter().copied().permutations(items.len()).collect()
}

/// Whether the keys ascend strictly by `sort_number`.
pub open spec fn ascending_keys(keys: Seq<ConversionSort>) -> bool {
    forall|i: int, j: int|
        0 <= i < j < keys.len() ==> (#[trigger] keys[i]).sort_number < (#[trigger] keys[j]).sort_number
}

/// Whether no two keys share a `sort_number`.
pub open spec fn distinct_keys(keys: Seq<ConversionSort>) -> bool {
    forall|i: int, j: int|
        0 <= i < j < keys.len() ==> (#[trigger] keys[i]).sort_number != (#[trigger] keys[j]).sort_number
}

/// Calls `Itertools::sorted_by_key` with `sort_number` as the key. The
/// contract claims that the result holds the same keys, as many, in
/// ascending order of `sort_number`.
#[verifier::external_body]
pub(crate) fn sorted(keys: Vec<ConversionSort>) -> (r: Vec<ConversionSort>)
    requires
        distinct_keys(keys@),
    ensures
        r@.len() == keys@.len(),
        r@.to_set() == keys@.to_set(),
        ascending_keys(r@),
{
    keys.into_iter().sorted_by_key(|key| key.sort_number).collect()
}

} // verus!
