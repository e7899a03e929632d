//! The edges that lead from one synthesized record to another: which fields
//! an edge splits off, which it leaves behind, and the records it joins.

use crate::conversion::ConversionSort;
use crate::error::GenerationError;
use crate::registry::{holds, lemma_position, position, Registry, StructPlanView};
use crate::selections::{
    ascending_keys, combinations_of, distinct_keys, is_ordering, is_subset, nested, permutations,
    permutations_of, sorted,
};
use vstd::prelude::*;

verus! {

/// One way through the record: the fields `current` are split off a
/// combination in that order, the fields `other` stay behind in a remainder,
/// and combining the remainder with the split-off fields gives the
/// combination back. Both records are named by their place in their registry.
pub struct Edge {
    pub combined: usize,
    pub remainder: usize,
    pub current: Vec<ConversionSort>,
    pub other: Vec<ConversionSort>,
}

pub struct EdgeView {
    pub combined: int,
    pub remainder: int,
    pub current: Seq<ConversionSort>,
    pub other: Seq<ConversionSort>,
}

impl View for Edge {
    type V = EdgeView;

    open spec fn view(&self) -> EdgeView {
        EdgeView {
            combined: self.combined as int,
            remainder: self.remainder as int,
            current: self.current@,
            other: self.other@,
        }
    }
}

/// Whether `base` holds one key for each field, in the order of the fields.
pub open spec fn is_base(base: Seq<ConversionSort>) -> bool {
    forall|i: int| 0 <= i < base.len() ==> (#[trigger] base[i]).sort_number == i
}

/// Whether `order` names fields below `n`, none twice.
pub open spec fn is_order(order: Seq<usize>, n: nat) -> bool {
    &&& order.no_duplicates()
    &&& forall|i: int| 0 <= i < order.len() ==> #[trigger] order[i] < n
}

/// The keys of the fields that `order` names, in that order.
pub open spec fn taken(base: Seq<ConversionSort>, order: Seq<usize>) -> Seq<ConversionSort> {
    Seq::new(order.len(), |i: int| base[order[i] as int])
}

/// The keys of the fields that `order` does not name, in the order of the fields.
pub open spec fn left(base: Seq<ConversionSort>, order: Seq<usize>) -> Seq<ConversionSort> {
    base.filter(|key: ConversionSort| !order.contains(key.sort_number))
}

/// The edge that splits the fields named by `order` off `base`.
pub open spec fn edge_for(
    combinations: Seq<StructPlanView>,
    remainders: Seq<StructPlanView>,
    base: Seq<ConversionSort>,
    order: Seq<usize>,
) -> EdgeView {
    EdgeView {
        combined: position(combinations, base),
        remainder: position(remainders, left(base, order)),
        current: taken(base, order),
        other: left(base, order),
    }
}

/// The keys left behind are keys of `base`, in its order, and those that
/// `order` does not name.
pub proof fn lemma_left(base: Seq<ConversionSort>, order: Seq<usize>)
    requires
        is_base(base),
    ensures
        ascending_keys(left(base, order)),
        forall|j: int|
            0 <= j < left(base, order).len() ==> {
                let key = #[trigger] left(base, order)[j];
                key.sort_number < base.len() && base[key.sort_number as int] == key
                    && !order.contains(key.sort_number)
            },
        forall|k: int|
            0 <= k < base.len() && !order.contains(k as usize) ==> left(base, order).contains(
                #[trigger] base[k],
            ),
    decreases base.len(),
{
    reveal(Seq::filter);
    let keep = |key: ConversionSort| !order.contains(key.sort_number);
    if base.len() > 0 {
        let front = base.drop_last();
        lemma_left(front, order);
        let rest = left(front, order);
        assert(rest == front.filter(keep));
        let all = left(base, order);
        assert(all == if keep(base.last()) {
            rest.push(base.last())
        } else {
            rest
        });
        assert forall|j: int| 0 <= j < all.len() implies {
            let key = #[trigger] all[j];
            key.sort_number < base.len() && base[key.sort_number as int] == key
                && !order.contains(key.sort_number)
        } by {
            if j < rest.len() {
                let key = rest[j];
                assert(front[key.sort_number as int] == key);
            }
        }
        assert forall|i: int, j: int| 0 <= i < j < all.len() implies (#[trigger] all[i]).sort_number
            < (#[trigger] all[j]).sort_number by {
            if j < rest.len() {
            } else {
                let key = rest[i];
                assert(key.sort_number < front.len());
            }
        }
        assert forall|k: int| 0 <= k < base.len() && !order.contains(k as usize) implies all.contains(
            #[trigger] base[k],
        ) by {
            if k < front.len() {
                assert(rest.contains(front[k]));
                let j = choose|j: int| 0 <= j < rest.len() && rest[j] == front[k];
                assert(all[j] == base[k]);
            } else {
                assert(all[all.len() - 1] == base[k]);
            }
        }
    }
}

/// The fields split off and the fields left behind are disjoint, and
/// together they are the fields of `base`.
pub proof fn lemma_partition(base: Seq<ConversionSort>, order: Seq<usize>)
    requires
        is_base(base),
        is_order(order, base.len()),
    ensures
        forall|i: int, j: int|
            0 <= i < taken(base, order).len() && 0 <= j < left(base, order).len() ==> (
            #[trigger] taken(base, order)[i]).sort_number != (#[trigger] left(
                base,
                order,
            )[j]).sort_number,
        forall|k: int|
            0 <= k < base.len() ==> taken(base, order).contains(#[trigger] base[k]) != left(
                base,
                order,
            ).contains(base[k]),
        distinct_keys(taken(base, order) + left(base, order)),
        (taken(base, order) + left(base, order)).to_set() == base.to_set(),
{
    lemma_left(base, order);
    let t = taken(base, order);
    let l = left(base, order);
    assert forall|i: int, j: int| 0 <= i < t.len() && 0 <= j < l.len() implies (#[trigger] t[i]).sort_number
        != (#[trigger] l[j]).sort_number by {
        assert(t[i].sort_number == order[i]);
        assert(order.contains(order[i]));
    }
    assert forall|k: int| 0 <= k < base.len() implies t.contains(#[trigger] base[k]) != l.contains(
        base[k],
    ) by {
        if order.contains(k as usize) {
            let i = choose|i: int| 0 <= i < order.len() && order[i] == k as usize;
            assert(t[i] == base[k]);
            if l.contains(base[k]) {
                let j = choose|j: int| 0 <= j < l.len() && l[j] == base[k];
                assert(!order.contains(l[j].sort_number));
            }
        } else {
            if t.contains(base[k]) {
                let i = choose|i: int| 0 <= i < t.len() && t[i] == base[k];
                assert(order.contains(order[i]));
            }
        }
    }
    let both = t + l;
    assert forall|i: int, j: int| 0 <= i < j < both.len() implies (#[trigger] both[i]).sort_number
        != (#[trigger] both[j]).sort_number by {
        if j < t.len() {
            assert(both[i] == t[i] && both[j] == t[j]);
            assert(t[i].sort_number == order[i]);
            assert(t[j].sort_number == order[j]);
        } else if i < t.len() {
            assert(both[i] == t[i] && both[j] == l[j - t.len()]);
        } else {
            assert(both[i] == l[i - t.len()] && both[j] == l[j - t.len()]);
        }
    }
    assert forall|key: ConversionSort| both.to_set().contains(key) <==> base.to_set().contains(
        key,
    ) by {
        if both.contains(key) {
            let i = choose|i: int| 0 <= i < both.len() && both[i] == key;
            if i < t.len() {
                assert(key == base[order[i] as int]);
            } else {
                assert(key == l[i - t.len()]);
                assert(base[key.sort_number as int] == key);
            }
        }
        if base.contains(key) {
            let k = choose|k: int| 0 <= k < base.len() && base[k] == key;
            if t.contains(base[k]) {
                let i = choose|i: int| 0 <= i < t.len() && t[i] == base[k];
                assert(both[i] == key);
            } else {
                let j = choose|j: int| 0 <= j < l.len() && l[j] == base[k];
                assert(both[t.len() + j] == key);
            }
        }
    }
    assert(both.to_set() =~= base.to_set());
}

/// Keys in ascending order are determined by the set they form.
pub proof fn lemma_ascending_keys_unique(s: Seq<ConversionSort>, t: Seq<ConversionSort>)
    requires
        ascending_keys(s),
        ascending_keys(t),
        s.to_set() == t.to_set(),
    ensures
        s == t,
    decreases s.len(),
{
    if s.len() == 0 {
        if t.len() > 0 {
            assert(t.to_set().contains(t[0]));
            assert(s.contains(t[0]));
        }
    } else {
        let x = s.last();
        assert(s.to_set().contains(x));
        assert(t.contains(x));
        let k = choose|k: int| 0 <= k < t.len() && t[k] == x;
        let y = t.last();
        assert(t.to_set().contains(y));
        assert(s.contains(y));
        let m = choose|m: int| 0 <= m < s.len() && s[m] == y;
        assert(x == y);
        let s0 = s.drop_last();
        let t0 = t.drop_last();
        assert forall|key: ConversionSort| s0.to_set().contains(key) <==> t0.to_set().contains(
            key,
        ) by {
            if s0.contains(key) {
                let i = choose|i: int| 0 <= i < s0.len() && s0[i] == key;
                assert(s[i] == key);
                assert(t.to_set().contains(key));
                let j = choose|j: int| 0 <= j < t.len() && t[j] == key;
                assert(t0[j] == key);
            }
            if t0.contains(key) {
                let j = choose|j: int| 0 <= j < t0.len() && t0[j] == key;
                assert(t[j] == key);
                assert(s.to_set().contains(key));
                let i = choose|i: int| 0 <= i < s.len() && s[i] == key;
                assert(s0[i] == key);
            }
        }
        assert(s0.to_set() =~= t0.to_set());
        lemma_ascending_keys_unique(s0, t0);
        assert(s =~= s0.push(x));
        assert(t =~= t0.push(y));
    }
}

fn names_field(order: &Vec<usize>, field: usize) -> (r: bool)
    ensures
        r == order@.contains(field),
{
    let mut i: usize = 0;
    while i < order.len()
        invariant
            i <= order.len(),
            forall|j: int| 0 <= j < i ==> order@[j] != field,
        decreases order.len() - i,
    {
        if order[i] == field {
            return true;
        }
        i += 1;
    }
    false
}

/// Splits `base` into the keys of the fields that `order` names, in that
/// order, and the keys of the other fields, in the order of the fields.
pub fn split_fields(base: &Vec<ConversionSort>, order: &Vec<usize>) -> (r: (
    Vec<ConversionSort>,
    Vec<ConversionSort>,
))
    requires
        forall|i: int| 0 <= i < order@.len() ==> #[trigger] order@[i] < base@.len(),
    ensures
        r.0@ == taken(base@, order@),
        r.1@ == left(base@, order@),
{
    let mut current: Vec<ConversionSort> = Vec::new();
    let mut i: usize = 0;
    while i < order.len()
        invariant
            i <= order.len(),
            forall|i: int| 0 <= i < order@.len() ==> #[trigger] order@[i] < base@.len(),
            current@ == taken(base@, order@.take(i as int)),
        decreases order.len() - i,
    {
        current.push(base[order[i]]);
        assert(current@ =~= taken(base@, order@.take(i + 1)));
        i += 1;
    }
    assert(order@.take(i as int) =~= order@);
    let ghost keep = |key: ConversionSort| !order@.contains(key.sort_number);
    let mut other: Vec<ConversionSort> = Vec::new();
    let mut k: usize = 0;
    proof {
        reveal(Seq::filter);
        assert(base@.take(0).filter(keep) =~= Seq::<ConversionSort>::empty());
    }
    while k < base.len()
        invariant
            k <= base.len(),
            keep == |key: ConversionSort| !order@.contains(key.sort_number),
            other@ == base@.take(k as int).filter(keep),
        decreases base.len() - k,
    {
        proof {
            reveal(Seq::filter);
            assert(base@.take(k + 1).drop_last() =~= base@.take(k as int));
        }
        if !names_field(order, base[k].sort_number) {
            other.push(base[k]);
        }
        k += 1;
    }
    assert(base@.take(k as int) =~= base@);
    (current, other)
}

fn append_keys(keys: &mut Vec<ConversionSort>, more: &Vec<ConversionSort>)
    ensures
        final(keys)@ == old(keys)@ + more@,
{
    let ghost before = keys@;
    let mut i: usize = 0;
    while i < more.len()
        invariant
            i <= more.len(),
            keys@ == before + more@.take(i as int),
        decreases more.len() - i,
    {
        keys.push(more[i]);
        assert(keys@ =~= before + more@.take(i + 1));
        i += 1;
    }
    assert(more@.take(i as int) =~= more@);
}

/// Makes the edge that splits the fields named by `order` off `base`: the
/// combination is looked up under all the keys, sorted, and the remainder
/// under the keys left behind, sorted.
pub fn make_edge(
    combinations: &Registry,
    remainders: &Registry,
    base: &Vec<ConversionSort>,
    order: &Vec<usize>,
) -> (r: Result<Edge, GenerationError>)
    requires
        is_base(base@),
        is_order(order@, base@.len()),
    ensures
        match r {
            Ok(edge) => holds(combinations@, base@) && holds(remainders@, left(base@, order@))
                && edge@ == edge_for(combinations@, remainders@, base@, order@),
            Err(e) => if holds(combinations@, base@) {
                e == GenerationError::MissingRemainder && !holds(
                    remainders@,
                    left(base@, order@),
                )
            } else {
                e == GenerationError::MissingCombination
            },
        },
{
    let (current, other) = split_fields(base, order);
    proof {
        lemma_partition(base@, order@);
        lemma_left(base@, order@);
    }
    let mut all: Vec<ConversionSort> = Vec::new();
    append_keys(&mut all, &current);
    append_keys(&mut all, &other);
    let all = sorted(all);
    proof {
        lemma_ascending_keys_unique(all@, base@);
    }
    let combined = match combinations.lookup(&all) {
        Some(combined) => combined,
        None => { return Err(GenerationError::MissingCombination); },
    };
    let mut key: Vec<ConversionSort> = Vec::new();
    append_keys(&mut key, &other);
    let key = sorted(key);
    proof {
        lemma_ascending_keys_unique(key@, other@);
    }
    let remainder = match remainders.lookup(&key) {
        Some(remainder) => remainder,
        None => { return Err(GenerationError::MissingRemainder); },
    };
    Ok(Edge { combined, remainder, current, other })
}

/// Whether one of `keys` stands for field `field`.
pub open spec fn names(keys: Seq<ConversionSort>, field: int) -> bool {
    exists|i: int| 0 <= i < keys.len() && (#[trigger] keys[i]).sort_number == field
}

/// The place among `keys` of the key for field `field`.
pub open spec fn place_of(keys: Seq<ConversionSort>, field: int) -> int {
    choose|i: int| 0 <= i < keys.len() && (#[trigger] keys[i]).sort_number == field
}

/// Whether an edge splits a record of `n` fields: every field is either
/// split off or left behind, never both and none twice.
pub open spec fn splits(edge: EdgeView, n: nat) -> bool {
    &&& edge.current.len() + edge.other.len() == n
    &&& distinct_keys(edge.current)
    &&& distinct_keys(edge.other)
    &&& forall|i: int| 0 <= i < edge.current.len() ==> (#[trigger] edge.current[i]).sort_number < n
    &&& forall|j: int| 0 <= j < edge.other.len() ==> (#[trigger] edge.other[j]).sort_number < n
    &&& forall|f: int| 0 <= f < n ==> #[trigger] names(edge.current, f) != names(edge.other, f)
}

/// Filtering by two tests that agree on every item gives the same items.
pub proof fn lemma_filter_agrees<A>(s: Seq<A>, p: spec_fn(A) -> bool, q: spec_fn(A) -> bool)
    requires
        forall|i: int| 0 <= i < s.len() ==> p(#[trigger] s[i]) == q(s[i]),
    ensures
        s.filter(p) == s.filter(q),
    decreases s.len(),
{
    reveal(Seq::filter);
    if s.len() > 0 {
        let front = s.drop_last();
        assert forall|i: int| 0 <= i < front.len() implies p(#[trigger] front[i]) == q(
            front[i],
        ) by {
            assert(front[i] == s[i]);
        }
        lemma_filter_agrees(front, p, q);
        assert(p(s.last()) == q(s[s.len() - 1]));
    }
}

/// Every field is either named by `order` or left behind: the two counts
/// add up to the number of fields.
pub proof fn lemma_left_len(base: Seq<ConversionSort>, order: Seq<usize>)
    requires
        is_base(base),
        is_order(order, base.len()),
    ensures
        left(base, order).len() + order.len() == base.len(),
    decreases base.len(),
{
    reveal(Seq::filter);
    let keep = |key: ConversionSort| !order.contains(key.sort_number);
    if base.len() == 0 {
        if order.len() > 0 {
            assert(order[0] < 0);
        }
    } else {
        let front = base.drop_last();
        let f = base.last().sort_number;
        assert(f == base.len() - 1);
        if order.contains(f) {
            let at = choose|at: int| 0 <= at < order.len() && order[at] == f;
            let rest = order.remove(at);
            assert(is_order(rest, front.len())) by {
                assert forall|i: int| 0 <= i < rest.len() implies #[trigger] rest[i]
                    < front.len() by {
                    let i0 = if i < at { i } else { i + 1 };
                    assert(rest[i] == order[i0]);
                    assert(order[i0] != order[at]);
                }
                assert forall|i: int, j: int| 0 <= i < rest.len() && 0 <= j < rest.len() && i
                    != j implies rest[i] != rest[j] by {
                    let i0 = if i < at { i } else { i + 1 };
                    let j0 = if j < at { j } else { j + 1 };
                    assert(rest[i] == order[i0] && rest[j] == order[j0]);
                }
            }
            let keep_rest = |key: ConversionSort| !rest.contains(key.sort_number);
            assert forall|i: int| 0 <= i < front.len() implies keep(#[trigger] front[i])
                == keep_rest(front[i]) by {
                let x = front[i].sort_number;
                assert(front[i] == base[i]);
                assert(x != f);
                if order.contains(x) {
                    let p = choose|p: int| 0 <= p < order.len() && order[p] == x;
                    let p0 = if p < at { p } else { p - 1 };
                    assert(rest[p0] == x);
                }
                if rest.contains(x) {
                    let p = choose|p: int| 0 <= p < rest.len() && rest[p] == x;
                    let p0 = if p < at { p } else { p + 1 };
                    assert(order[p0] == x);
                }
            }
            lemma_filter_agrees(front, keep, keep_rest);
            lemma_left_len(front, rest);
            assert(left(base, order) == front.filter(keep));
        } else {
            assert(is_order(order, front.len())) by {
                assert forall|i: int| 0 <= i < order.len() implies #[trigger] order[i]
                    < front.len() by {
                    assert(order.contains(order[i]));
                }
            }
            lemma_left_len(front, order);
            assert(left(base, order) == front.filter(keep).push(base.last()));
        }
    }
}

/// The fields that an order names, in the order of the fields: the order is
/// one of the orders of that subset, and names no more fields than there are.
pub proof fn lemma_order_subset(n: nat, order: Seq<usize>) -> (subset: Seq<usize>)
    requires
        is_order(order, n),
        n <= usize::MAX,
    ensures
        is_subset(subset, n),
        is_ordering(order, subset),
        order.len() <= n,
{
    let base = Seq::new(n, |i: int| ConversionSort { sort_number: i as usize, alternate: 0 });
    assert(is_base(base));
    lemma_left(base, order);
    lemma_left_len(base, order);
    let unnamed = left(base, order);
    let rest = Seq::new(unnamed.len(), |j: int| unnamed[j].sort_number);
    assert(is_order(rest, n)) by {
        assert forall|i: int, j: int| 0 <= i < rest.len() && 0 <= j < rest.len() && i
            != j implies rest[i] != rest[j] by {
            if i < j {
                assert(unnamed[i].sort_number < unnamed[j].sort_number);
            } else {
                assert(unnamed[j].sort_number < unnamed[i].sort_number);
            }
        }
        assert forall|i: int| 0 <= i < rest.len() implies #[trigger] rest[i] < n by {
            assert(unnamed[i].sort_number < base.len());
        }
    }
    lemma_left(base, rest);
    lemma_left_len(base, rest);
    let named = left(base, rest);
    let subset = Seq::new(named.len(), |j: int| named[j].sort_number);
    assert(is_subset(subset, n)) by {
        assert forall|i: int| 0 <= i < subset.len() implies #[trigger] subset[i] < n by {
            assert(named[i].sort_number < base.len());
        }
        assert forall|i: int, j: int| 0 <= i < j < subset.len() implies subset[i] < subset[j] by {
            assert(named[i].sort_number < named[j].sort_number);
        }
    }
    assert forall|i: int| 0 <= i < order.len() implies subset.contains(#[trigger] order[i]) by {
        let f = order[i];
        assert(order.contains(f));
        if rest.contains(f) {
            let j = choose|j: int| 0 <= j < rest.len() && rest[j] == f;
            assert(!order.contains(unnamed[j].sort_number));
        }
        assert(base[f as int].sort_number == f);
        assert(named.contains(base[f as int]));
        let j = choose|j: int| 0 <= j < named.len() && named[j] == base[f as int];
        assert(subset[j] == f);
    }
    subset
}

/// The edges in a list.
pub open spec fn edges_view(edges: Vec<Edge>) -> Seq<EdgeView> {
    Seq::new(edges@.len(), |i: int| edges@[i]@)
}

/// Whether a remainder is registered for whatever can be left of `base`.
pub open spec fn covers(remainders: Seq<StructPlanView>, base: Seq<ConversionSort>) -> bool {
    forall|order: Seq<usize>|
        is_order(order, base.len()) ==> holds(remainders, #[trigger] left(base, order))
}

/// Whether an edge is sound for a record of `n` fields: its two records are
/// registered, the remainder holds the fields left behind, the keys of the
/// edge are keys of the combination, and the edge splits the record.
pub open spec fn edge_well_formed(
    edge: EdgeView,
    combinations: Seq<StructPlanView>,
    remainders: Seq<StructPlanView>,
    n: nat,
) -> bool {
    &&& 0 <= edge.combined < combinations.len()
    &&& 0 <= edge.remainder < remainders.len()
    &&& remainders[edge.remainder].fields == edge.other
    &&& combinations[edge.combined].fields.len() == n
    &&& is_base(combinations[edge.combined].fields)
    &&& forall|i: int|
        0 <= i < edge.current.len() ==> combinations[edge.combined].fields.contains(
            #[trigger] edge.current[i],
        )
    &&& forall|j: int|
        0 <= j < edge.other.len() ==> combinations[edge.combined].fields.contains(
            #[trigger] edge.other[j],
        )
    &&& splits(edge, n)
}

/// The edge made for an order of fields is sound.
pub proof fn lemma_edge_for(
    combinations: Seq<StructPlanView>,
    remainders: Seq<StructPlanView>,
    base: Seq<ConversionSort>,
    order: Seq<usize>,
)
    requires
        is_base(base),
        is_order(order, base.len()),
        holds(combinations, base),
        holds(remainders, left(base, order)),
    ensures
        edge_well_formed(
            edge_for(combinations, remainders, base, order),
            combinations,
            remainders,
            base.len(),
        ),
{
    lemma_partition(base, order);
    lemma_left(base, order);
    let edge = edge_for(combinations, remainders, base, order);
    let c = position(combinations, base);
    let r = position(remainders, left(base, order));
    lemma_position(combinations, base);
    lemma_position(remainders, left(base, order));
    assert(combinations[c].fields == base);
    assert(remainders[r].fields == left(base, order));
    assert forall|i: int| 0 <= i < edge.current.len() implies base.contains(
        #[trigger] edge.current[i],
    ) by {
        assert(base[order[i] as int] == edge.current[i]);
    }
    assert forall|j: int| 0 <= j < edge.other.len() implies base.contains(
        #[trigger] edge.other[j],
    ) by {
        assert(base[edge.other[j].sort_number as int] == edge.other[j]);
    }
    lemma_left_len(base, order);
    assert(distinct_keys(edge.current)) by {
        assert forall|i: int, j: int| 0 <= i < j < edge.current.len() implies (
        #[trigger] edge.current[i]).sort_number != (#[trigger] edge.current[j]).sort_number by {
            assert(edge.current[i].sort_number == order[i]);
            assert(edge.current[j].sort_number == order[j]);
        }
    }
    assert forall|f: int| 0 <= f < base.len() implies #[trigger] names(edge.current, f) != names(
        edge.other,
        f,
    ) by {
        let field = base[f].sort_number;
        if order.contains(field) {
            let i = choose|i: int| 0 <= i < order.len() && order[i] == field;
            assert(edge.current[i].sort_number == f);
            if names(edge.other, f) {
                let j = place_of(edge.other, f);
                assert(!order.contains(edge.other[j].sort_number));
            }
        } else {
            assert(edge.other.contains(base[f]));
            let j = choose|j: int| 0 <= j < edge.other.len() && edge.other[j] == base[f];
            assert(edge.other[j].sort_number == f);
            if names(edge.current, f) {
                let i = place_of(edge.current, f);
                assert(edge.current[i].sort_number == order[i]);
                assert(order.contains(order[i]));
            }
        }
    }
    assert forall|i: int| 0 <= i < edge.current.len() implies (#[trigger] edge.current[i]).sort_number
        < base.len() by {
        assert(edge.current[i].sort_number == order[i]);
    }
}

/// The edges for the given orders of fields, in the order given.
pub open spec fn edges_of_orders(
    combinations: Seq<StructPlanView>,
    remainders: Seq<StructPlanView>,
    base: Seq<ConversionSort>,
    orders: Seq<Seq<usize>>,
) -> Seq<EdgeView> {
    Seq::new(orders.len(), |i: int| edge_for(combinations, remainders, base, orders[i]))
}

/// The edges for every order of each of the first `m` subsets.
pub open spec fn edges_of_subsets(
    combinations: Seq<StructPlanView>,
    remainders: Seq<StructPlanView>,
    base: Seq<ConversionSort>,
    subsets: Seq<Seq<usize>>,
    m: nat,
) -> Seq<EdgeView>
    decreases m,
{
    if m == 0 || m > subsets.len() {
        Seq::empty()
    } else {
        edges_of_subsets(combinations, remainders, base, subsets, (m - 1) as nat)
            + edges_of_orders(combinations, remainders, base, permutations_of(subsets[m - 1]))
    }
}

/// The edges for every order of every subset of fewer than `k` fields.
pub open spec fn edges_of_sizes(
    combinations: Seq<StructPlanView>,
    remainders: Seq<StructPlanView>,
    base: Seq<ConversionSort>,
    k: nat,
) -> Seq<EdgeView>
    decreases k,
{
    if k == 0 {
        Seq::empty()
    } else {
        let subsets = combinations_of(base.len() as usize, (k - 1) as usize);
        edges_of_sizes(combinations, remainders, base, (k - 1) as nat) + edges_of_subsets(
            combinations,
            remainders,
            base,
            subsets,
            subsets.len(),
        )
    }
}

/// The edges that lead out of the combination `base`: one for every order of
/// every subset of its fields, the subsets by size.
pub open spec fn edges_of_base(
    combinations: Seq<StructPlanView>,
    remainders: Seq<StructPlanView>,
    base: Seq<ConversionSort>,
) -> Seq<EdgeView> {
    edges_of_sizes(combinations, remainders, base, base.len() + 1)
}

/// Whether the edges hold the edge for every order in which fields of
/// `base` can be split off.
pub open spec fn leads_everywhere(
    edges: Seq<EdgeView>,
    combinations: Seq<StructPlanView>,
    remainders: Seq<StructPlanView>,
    base: Seq<ConversionSort>,
) -> bool {
    forall|order: Seq<usize>|
        is_order(order, base.len()) ==> edges.contains(
            #[trigger] edge_for(combinations, remainders, base, order),
        )
}

/// Whether the edges from place `from` on are sound.
pub open spec fn sound_from(
    edges: Seq<EdgeView>,
    from: int,
    combinations: Seq<StructPlanView>,
    remainders: Seq<StructPlanView>,
    n: nat,
) -> bool {
    forall|i: int|
        from <= i < edges.len() ==> edge_well_formed(
            #[trigger] edges[i],
            combinations,
            remainders,
            n,
        )
}

/// Appends the edge for each of `orders`.
pub fn push_order_edges(
    state_conversions: &mut Vec<Edge>,
    combinations: &Registry,
    remainders: &Registry,
    base: &Vec<ConversionSort>,
    orders: &Vec<Vec<usize>>,
)
    requires
        is_base(base@),
        holds(combinations@, base@),
        covers(remainders@, base@),
        forall|i: int|
            0 <= i < orders@.len() ==> is_order(#[trigger] nested(*orders)[i], base@.len()),
    ensures
        edges_view(*final(state_conversions)) == edges_view(*old(state_conversions))
            + edges_of_orders(combinations@, remainders@, base@, nested(*orders)),
        sound_from(
            edges_view(*final(state_conversions)),
            old(state_conversions)@.len() as int,
            combinations@,
            remainders@,
            base@.len(),
        ),
{
    let ghost before = edges_view(*state_conversions);
    let ghost all = nested(*orders);
    let mut i: usize = 0;
    assert(edges_of_orders(combinations@, remainders@, base@, all.take(0)) =~= Seq::<
        EdgeView,
    >::empty());
    while i < orders.len()
        invariant
            i <= orders.len(),
            all == nested(*orders),
            is_base(base@),
            holds(combinations@, base@),
            covers(remainders@, base@),
            forall|i: int| 0 <= i < orders@.len() ==> is_order(#[trigger] all[i], base@.len()),
            edges_view(*state_conversions) == before + edges_of_orders(
                combinations@,
                remainders@,
                base@,
                all.take(i as int),
            ),
            sound_from(
                edges_view(*state_conversions),
                before.len() as int,
                combinations@,
                remainders@,
                base@.len(),
            ),
        decreases orders.len() - i,
    {
        let ghost current = edges_view(*state_conversions);
        let order = &orders[i];
        assert(all[i as int] == order@);
        match make_edge(combinations, remainders, base, order) {
            Ok(edge) => {
                proof {
                    lemma_edge_for(combinations@, remainders@, base@, order@);
                }
                state_conversions.push(edge);
                assert(edges_view(*state_conversions) =~= current.push(edge@));
            },
            Err(_) => {
                assert(false);
            },
        }
        assert(edges_of_orders(combinations@, remainders@, base@, all.take(i + 1))
            =~= edges_of_orders(combinations@, remainders@, base@, all.take(i as int)).push(
            edge_for(combinations@, remainders@, base@, order@),
        ));
        i += 1;
    }
    assert(all.take(i as int) =~= all);
}

/// Appends, for each of `subsets`, the edge for each order it can be taken in.
pub fn push_subset_edges(
    state_conversions: &mut Vec<Edge>,
    combinations: &Registry,
    remainders: &Registry,
    base: &Vec<ConversionSort>,
    subsets: &Vec<Vec<usize>>,
)
    requires
        is_base(base@),
        holds(combinations@, base@),
        covers(remainders@, base@),
        forall|i: int|
            0 <= i < subsets@.len() ==> is_subset(#[trigger] nested(*subsets)[i], base@.len()),
    ensures
        edges_view(*final(state_conversions)) == edges_view(*old(state_conversions))
            + edges_of_subsets(
            combinations@,
            remainders@,
            base@,
            nested(*subsets),
            subsets@.len(),
        ),
        sound_from(
            edges_view(*final(state_conversions)),
            old(state_conversions)@.len() as int,
            combinations@,
            remainders@,
            base@.len(),
        ),
        forall|j: int, order: Seq<usize>|
            0 <= j < subsets@.len() && #[trigger] is_ordering(order, nested(*subsets)[j])
                ==> edges_view(*final(state_conversions)).contains(
                edge_for(combinations@, remainders@, base@, order),
            ),
{
    let ghost before = edges_view(*state_conversions);
    let ghost all = nested(*subsets);
    let mut i: usize = 0;
    while i < subsets.len()
        invariant
            i <= subsets.len(),
            all == nested(*subsets),
            is_base(base@),
            holds(combinations@, base@),
            covers(remainders@, base@),
            forall|i: int|
                0 <= i < subsets@.len() ==> is_subset(#[trigger] all[i], base@.len()),
            edges_view(*state_conversions) == before + edges_of_subsets(
                combinations@,
                remainders@,
                base@,
                all,
                i as nat,
            ),
            sound_from(
                edges_view(*state_conversions),
                before.len() as int,
                combinations@,
                remainders@,
                base@.len(),
            ),
            forall|j: int, order: Seq<usize>|
                0 <= j < i && #[trigger] is_ordering(order, all[j]) ==> edges_view(
                    *state_conversions,
                ).contains(edge_for(combinations@, remainders@, base@, order)),
        decreases subsets.len() - i,
    {
        let subset = &subsets[i];
        assert(all[i as int] == subset@);
        assert(is_subset(subset@, base@.len()));
        assert(subset@.no_duplicates());
        let orders = permutations(subset);
        proof {
            assert forall|j: int| 0 <= j < orders@.len() implies is_order(
                #[trigger] nested(orders)[j],
                base@.len(),
            ) by {
                let order = nested(orders)[j];
                assert(is_ordering(order, subset@));
                assert forall|p: int| 0 <= p < order.len() implies #[trigger] order[p]
                    < base@.len() by {
                    assert(subset@.contains(order[p]));
                }
            }
        }
        let ghost current = edges_view(*state_conversions);
        push_order_edges(state_conversions, combinations, remainders, base, &orders);
        proof {
            let after = edges_view(*state_conversions);
            assert forall|p: int| before.len() <= p < after.len() implies edge_well_formed(
                #[trigger] after[p],
                combinations@,
                remainders@,
                base@.len(),
            ) by {
                if p < current.len() {
                    assert(after[p] == current[p]);
                }
            }
            assert forall|j: int, order: Seq<usize>|
                0 <= j < i + 1 && #[trigger] is_ordering(order, all[j]) implies after.contains(
                edge_for(combinations@, remainders@, base@, order),
            ) by {
                let edge = edge_for(combinations@, remainders@, base@, order);
                if j < i {
                    let p = choose|p: int| 0 <= p < current.len() && current[p] == edge;
                    assert(after[p] == edge);
                } else {
                    assert(nested(orders).contains(order));
                    let q = choose|q: int| 0 <= q < orders@.len() && nested(orders)[q] == order;
                    assert(after[current.len() + q] == edge);
                }
            }
        }
        i += 1;
    }
}

/// Appends the edges that lead out of the combination `base`: for every
/// number of fields from none to all, for every subset of that size, for
/// every order of the subset.
pub fn push_base_edges(
    state_conversions: &mut Vec<Edge>,
    combinations: &Registry,
    remainders: &Registry,
    base: &Vec<ConversionSort>,
)
    requires
        is_base(base@),
        holds(combinations@, base@),
        covers(remainders@, base@),
    ensures
        edges_view(*final(state_conversions)) == edges_view(*old(state_conversions))
            + edges_of_base(combinations@, remainders@, base@),
        sound_from(
            edges_view(*final(state_conversions)),
            old(state_conversions)@.len() as int,
            combinations@,
            remainders@,
            base@.len(),
        ),
        leads_everywhere(
            edges_view(*final(state_conversions)),
            combinations@,
            remainders@,
            base@,
        ),
{
    let ghost before = edges_view(*state_conversions);
    let n = base.len();
    let mut k: usize = 0;
    loop
        invariant_except_break
            k <= n,
            edges_view(*state_conversions) == before + edges_of_sizes(
                combinations@,
                remainders@,
                base@,
                k as nat,
            ),
            forall|order: Seq<usize>|
                is_order(order, n as nat) && order.len() < k ==> edges_view(
                    *state_conversions,
                ).contains(#[trigger] edge_for(combinations@, remainders@, base@, order)),
        invariant
            n == base@.len(),
            is_base(base@),
            holds(combinations@, base@),
            covers(remainders@, base@),
            sound_from(
                edges_view(*state_conversions),
                before.len() as int,
                combinations@,
                remainders@,
                base@.len(),
            ),
        ensures
            edges_view(*state_conversions) == before + edges_of_base(
                combinations@,
                remainders@,
                base@,
            ),
            leads_everywhere(edges_view(*state_conversions), combinations@, remainders@, base@),
        decreases n - k,
    {
        let subsets = crate::selections::combinations(n, k);
        let ghost current = edges_view(*state_conversions);
        push_subset_edges(state_conversions, combinations, remainders, base, &subsets);
        proof {
            let after = edges_view(*state_conversions);
            assert forall|p: int| before.len() <= p < after.len() implies edge_well_formed(
                #[trigger] after[p],
                combinations@,
                remainders@,
                base@.len(),
            ) by {
                if p < current.len() {
                    assert(after[p] == current[p]);
                }
            }
            assert(after =~= before + edges_of_sizes(
                combinations@,
                remainders@,
                base@,
                (k + 1) as nat,
            ));
            assert forall|order: Seq<usize>|
                is_order(order, n as nat) && order.len() < k + 1 implies after.contains(
                #[trigger] edge_for(combinations@, remainders@, base@, order),
            ) by {
                let edge = edge_for(combinations@, remainders@, base@, order);
                if order.len() < k {
                    let p = choose|p: int| 0 <= p < current.len() && current[p] == edge;
                    assert(after[p] == edge);
                } else {
                    let subset = lemma_order_subset(n as nat, order);
                    assert(nested(subsets).contains(subset));
                    let j = choose|j: int| 0 <= j < subsets@.len() && nested(subsets)[j] == subset;
                    assert(is_ordering(order, nested(subsets)[j]));
                }
            }
            if k == n {
                assert forall|order: Seq<usize>| is_order(order, n as nat) implies after.contains(
                    #[trigger] edge_for(combinations@, remainders@, base@, order),
                ) by {
                    let subset = lemma_order_subset(n as nat, order);
                }
            }
        }
        if k == n {
            break ;
        }
        k += 1;
    }
}

} // verus!
