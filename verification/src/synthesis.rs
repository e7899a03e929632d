//! Registering the synthesized records: one for every choice of types over
//! every subset of the fields.

use crate::conversion::ConversionSort;
use crate::generics::{Generics, GenericsView, WherePredicate, WherePredicateView};
use crate::plan::{bounds_view, fits, plan_for, struct_plan, table_view};
use crate::registry::{holds, Registry, StructPlanView};
use crate::selections::{
    ascending_keys, cartesian_product_of, enumerates, is_choice, is_subset, multi_cartesian_product,
    nested,
};
use vstd::prelude::*;

verus! {

/// The keys that take field `subset[i]` as its type number `choice[i]`.
pub open spec fn slots(subset: Seq<usize>, choice: Seq<usize>) -> Seq<ConversionSort> {
    Seq::new(
        subset.len(),
        |i: int| ConversionSort { sort_number: subset[i], alternate: choice[i] },
    )
}

/// For each field of `subset`, the number of types it can be taken as.
pub open spec fn counts_at(table: Seq<Seq<GenericsView>>, subset: Seq<usize>) -> Seq<usize> {
    Seq::new(subset.len(), |i: int| table[subset[i] as int].len() as usize)
}

/// The fields of a record of `n` fields, in their order.
pub open spec fn all_fields(n: nat) -> Seq<usize> {
    Seq::new(n, |i: int| i as usize)
}

/// The fields that keys stand for.
pub open spec fn sort_numbers(keys: Seq<ConversionSort>) -> Seq<usize> {
    Seq::new(keys.len(), |i: int| keys[i].sort_number)
}

/// The synthesized records over `subset`, one for each of `choices`.
pub open spec fn plans_of_choices(
    table: Seq<Seq<GenericsView>>,
    bounds: Seq<WherePredicateView>,
    subset: Seq<usize>,
    choices: Seq<Seq<usize>>,
) -> Seq<StructPlanView> {
    Seq::new(choices.len(), |i: int| plan_for(table, bounds, slots(subset, choices[i])))
}

/// The synthesized records over the first `m` of `subsets`: for each subset,
/// one for every choice of types for its fields.
pub open spec fn plans_of_subsets(
    table: Seq<Seq<GenericsView>>,
    bounds: Seq<WherePredicateView>,
    subsets: Seq<Seq<usize>>,
    m: nat,
) -> Seq<StructPlanView>
    decreases m,
{
    if m == 0 || m > subsets.len() {
        Seq::empty()
    } else {
        let subset = subsets[m - 1];
        plans_of_subsets(table, bounds, subsets, (m - 1) as nat) + plans_of_choices(
            table,
            bounds,
            subset,
            cartesian_product_of(counts_at(table, subset)),
        )
    }
}

/// Whether a record is registered for every choice of types over `subset`.
pub open spec fn holds_choices(
    entries: Seq<StructPlanView>,
    table: Seq<Seq<GenericsView>>,
    subset: Seq<usize>,
) -> bool {
    forall|choice: Seq<usize>|
        is_choice(choice, counts_at(table, subset)) ==> holds(
            entries,
            #[trigger] slots(subset, choice),
        )
}

/// Whether every entry is a record over one of the first `m` of `subsets`.
pub open spec fn within(entries: Seq<StructPlanView>, subsets: Seq<Seq<usize>>, m: int) -> bool {
    forall|p: int|
        0 <= p < entries.len() ==> exists|j: int|
            0 <= j < m && j < subsets.len() && sort_numbers((#[trigger] entries[p]).fields)
                == #[trigger] subsets[j]
}

/// A table held in memory has no more fields, and no field more types, than
/// an index can count.
pub proof fn lemma_table_bounds(table: Vec<Vec<Generics>>)
    ensures
        table_view(table).len() <= usize::MAX,
        forall|f: int|
            0 <= f < table_view(table).len() ==> (#[trigger] table_view(table)[f]).len()
                <= usize::MAX,
{
    assert(table_view(table).len() == table.len());
    assert forall|f: int| 0 <= f < table_view(table).len() implies (#[trigger] table_view(
        table,
    )[f]).len() <= usize::MAX by {
        assert(table_view(table)[f].len() == table@[f].len());
    }
}

/// The keys over a subset ascend, and fit the table where the choice does.
pub proof fn lemma_slots(table: Seq<Seq<GenericsView>>, subset: Seq<usize>, choice: Seq<usize>)
    requires
        is_subset(subset, table.len()),
        table.len() <= usize::MAX,
        forall|f: int| 0 <= f < table.len() ==> (#[trigger] table[f]).len() <= usize::MAX,
        is_choice(choice, counts_at(table, subset)),
    ensures
        ascending_keys(slots(subset, choice)),
        fits(table, slots(subset, choice)),
        sort_numbers(slots(subset, choice)) == subset,
{
    let keys = slots(subset, choice);
    assert forall|i: int| 0 <= i < keys.len() implies (#[trigger] keys[i]).sort_number
        < table.len() && keys[i].alternate < table[keys[i].sort_number as int].len() by {
        assert(subset[i] < table.len());
        assert(choice[i] < counts_at(table, subset)[i]);
    }
    assert(sort_numbers(keys) =~= subset);
}

/// Makes the keys that take field `subset[i]` as its type number `choice[i]`.
pub fn make_slots(subset: &Vec<usize>, choice: &Vec<usize>) -> (r: Vec<ConversionSort>)
    requires
        subset@.len() == choice@.len(),
    ensures
        r@ == slots(subset@, choice@),
{
    let mut keys: Vec<ConversionSort> = Vec::new();
    let mut i: usize = 0;
    while i < subset.len()
        invariant
            i <= subset.len(),
            subset@.len() == choice@.len(),
            keys@ == slots(subset@.take(i as int), choice@.take(i as int)),
        decreases subset.len() - i,
    {
        keys.push(ConversionSort { sort_number: subset[i], alternate: choice[i] });
        assert(keys@ =~= slots(subset@.take(i + 1), choice@.take(i + 1)));
        i += 1;
    }
    assert(subset@.take(i as int) =~= subset@);
    assert(choice@.take(i as int) =~= choice@);
    keys
}

/// For each field of `subset`, counts the types it can be taken as.
pub fn counts_for(table: &Vec<Vec<Generics>>, subset: &Vec<usize>) -> (r: Vec<usize>)
    requires
        forall|i: int| 0 <= i < subset@.len() ==> #[trigger] subset@[i] < table@.len(),
    ensures
        r@ == counts_at(table_view(*table), subset@),
{
    let mut counts: Vec<usize> = Vec::new();
    let mut i: usize = 0;
    while i < subset.len()
        invariant
            i <= subset.len(),
            forall|i: int| 0 <= i < subset@.len() ==> #[trigger] subset@[i] < table@.len(),
            counts@ == counts_at(table_view(*table), subset@.take(i as int)),
        decreases subset.len() - i,
    {
        counts.push(table[subset[i]].len());
        assert(counts@ =~= counts_at(table_view(*table), subset@.take(i + 1)));
        i += 1;
    }
    assert(subset@.take(i as int) =~= subset@);
    counts
}

/// Registers, for each of `choices`, the record that holds the fields of
/// `subset` as the types chosen.
pub fn register_choices(
    registry: &mut Registry,
    table: &Vec<Vec<Generics>>,
    bounds: &Vec<WherePredicate>,
    subset: &Vec<usize>,
    choices: &Vec<Vec<usize>>,
)
    requires
        old(registry).well_formed(),
        is_subset(subset@, table@.len()),
        enumerates(
            nested(*choices),
            |choice: Seq<usize>| is_choice(choice, counts_at(table_view(*table), subset@)),
        ),
        forall|p: int|
            0 <= p < old(registry)@.len() ==> sort_numbers((#[trigger] old(registry)@[p]).fields)
                != subset@,
    ensures
        final(registry).well_formed(),
        final(registry)@ == old(registry)@ + plans_of_choices(
            table_view(*table),
            bounds_view(*bounds),
            subset@,
            nested(*choices),
        ),
        holds_choices(final(registry)@, table_view(*table), subset@),
{
    let ghost before = registry@;
    let ghost tv = table_view(*table);
    let ghost bv = bounds_view(*bounds);
    let ghost all = nested(*choices);
    let mut i: usize = 0;
    assert(plans_of_choices(tv, bv, subset@, all.take(0)) =~= Seq::<StructPlanView>::empty());
    while i < choices.len()
        invariant
            i <= choices.len(),
            tv == table_view(*table),
            bv == bounds_view(*bounds),
            all == nested(*choices),
            registry.well_formed(),
            is_subset(subset@, table@.len()),
            enumerates(all, |choice: Seq<usize>| is_choice(choice, counts_at(tv, subset@))),
            forall|p: int|
                0 <= p < before.len() ==> sort_numbers((#[trigger] before[p]).fields) != subset@,
            registry@ == before + plans_of_choices(tv, bv, subset@, all.take(i as int)),
        decreases choices.len() - i,
    {
        let choice = &choices[i];
        let ghost current = registry@;
        assert(all[i as int] == choice@);
        assert(is_choice(choice@, counts_at(tv, subset@)));
        proof {
            lemma_table_bounds(*table);
            lemma_slots(tv, subset@, choice@);
        }
        let fields = make_slots(subset, choice);
        let plan = struct_plan(table, bounds, fields);
        proof {
            assert forall|p: int| 0 <= p < current.len() implies (#[trigger] current[p]).fields
                != plan@.fields by {
                if p < before.len() {
                    assert(current[p] == before[p]);
                } else {
                    let q = p - before.len();
                    assert(current[p] == plan_for(tv, bv, slots(subset@, all[q])));
                    assert(all[q] != all[i as int]);
                    assert(is_choice(all[q], counts_at(tv, subset@)));
                    if slots(subset@, all[q]) == slots(subset@, choice@) {
                        lemma_slots_injective(subset@, all[q], choice@);
                    }
                }
            }
        }
        match registry.register(plan) {
            Ok(_) => {},
            Err(_) => {
                assert(false);
            },
        }
        assert(plans_of_choices(tv, bv, subset@, all.take(i + 1)) =~= plans_of_choices(
            tv,
            bv,
            subset@,
            all.take(i as int),
        ).push(plan@));
        i += 1;
    }
    proof {
        assert(all.take(i as int) =~= all);
        assert forall|choice: Seq<usize>|
            is_choice(choice, counts_at(tv, subset@)) implies holds(
            registry@,
            #[trigger] slots(subset@, choice),
        ) by {
            assert(all.contains(choice));
            let q = choose|q: int| 0 <= q < all.len() && all[q] == choice;
            assert(registry@[before.len() + q].fields == slots(subset@, choice));
        }
    }
}

/// Two choices over one subset that give the same keys are the same choice.
pub proof fn lemma_slots_injective(subset: Seq<usize>, a: Seq<usize>, b: Seq<usize>)
    requires
        a.len() == subset.len(),
        b.len() == subset.len(),
        slots(subset, a) == slots(subset, b),
    ensures
        a == b,
{
    assert forall|i: int| 0 <= i < a.len() implies a[i] == b[i] by {
        assert(slots(subset, a)[i].alternate == a[i]);
        assert(slots(subset, b)[i].alternate == b[i]);
    }
    assert(a =~= b);
}

/// Registers the records over each of `subsets`: for each subset, one for
/// every choice of types for its fields.
pub fn register_subsets(
    registry: &mut Registry,
    table: &Vec<Vec<Generics>>,
    bounds: &Vec<WherePredicate>,
    subsets: &Vec<Vec<usize>>,
)
    requires
        old(registry)@.len() == 0,
        enumerates(
            nested(*subsets),
            |subset: Seq<usize>| is_subset(subset, table@.len()),
        ),
    ensures
        final(registry).well_formed(),
        final(registry)@ == plans_of_subsets(
            table_view(*table),
            bounds_view(*bounds),
            nested(*subsets),
            subsets@.len(),
        ),
        forall|subset: Seq<usize>|
            is_subset(subset, table@.len()) ==> #[trigger] holds_choices(
                final(registry)@,
                table_view(*table),
                subset,
            ),
{
    let ghost tv = table_view(*table);
    let ghost bv = bounds_view(*bounds);
    let ghost all = nested(*subsets);
    let mut i: usize = 0;
    assert(registry@ =~= plans_of_subsets(tv, bv, all, 0));
    while i < subsets.len()
        invariant
            i <= subsets.len(),
            tv == table_view(*table),
            bv == bounds_view(*bounds),
            all == nested(*subsets),
            registry.well_formed(),
            enumerates(all, |subset: Seq<usize>| is_subset(subset, table@.len())),
            registry@ == plans_of_subsets(tv, bv, all, i as nat),
            within(registry@, all, i as int),
            forall|j: int| 0 <= j < i ==> #[trigger] holds_choices(registry@, tv, all[j]),
        decreases subsets.len() - i,
    {
        let subset = &subsets[i];
        let ghost current = registry@;
        assert(all[i as int] == subset@);
        assert(is_subset(subset@, table@.len()));
        let counts = counts_for(table, subset);
        let choices = multi_cartesian_product(&counts);
        proof {
            assert forall|p: int| 0 <= p < current.len() implies sort_numbers(
                (#[trigger] current[p]).fields,
            ) != subset@ by {
                let j = choose|j: int|
                    0 <= j < i && j < all.len() && sort_numbers(current[p].fields) == all[j];
                assert(all[j] != all[i as int]);
            }
        }
        register_choices(registry, table, bounds, subset, &choices);
        proof {
            let after = registry@;
            assert forall|p: int| 0 <= p < after.len() implies exists|j: int|
                0 <= j < i + 1 && j < all.len() && sort_numbers((#[trigger] after[p]).fields)
                    == #[trigger] all[j] by {
                if p < current.len() {
                    assert(after[p] == current[p]);
                    let j = choose|j: int|
                        0 <= j < i && j < all.len() && sort_numbers(current[p].fields) == all[j];
                    assert(sort_numbers(after[p].fields) == all[j]);
                } else {
                    let q = p - current.len();
                    let choice = nested(choices)[q];
                    assert(after[p] == plan_for(tv, bv, slots(subset@, choice)));
                    assert(is_choice(choice, counts_at(tv, subset@)));
                    lemma_table_bounds(*table);
                    lemma_slots(tv, subset@, choice);
                    assert(sort_numbers(after[p].fields) == all[i as int]);
                }
            }
            assert forall|j: int| 0 <= j < i + 1 implies #[trigger] holds_choices(
                after,
                tv,
                all[j],
            ) by {
                if j < i {
                    assert(holds_choices(current, tv, all[j]));
                    assert forall|choice: Seq<usize>|
                        is_choice(choice, counts_at(tv, all[j])) implies holds(
                        after,
                        #[trigger] slots(all[j], choice),
                    ) by {
                        assert(holds(current, slots(all[j], choice)));
                        let p = choose|p: int|
                            0 <= p < current.len() && (#[trigger] current[p]).fields == slots(
                                all[j],
                                choice,
                            );
                        assert(after[p].fields == slots(all[j], choice));
                    }
                }
            }
        }
        i += 1;
    }
    proof {
        assert forall|subset: Seq<usize>|
            is_subset(subset, table@.len()) implies #[trigger] holds_choices(
            registry@,
            tv,
            subset,
        ) by {
            assert(all.contains(subset));
            let j = choose|j: int| 0 <= j < all.len() && all[j] == subset;
            assert(holds_choices(registry@, tv, all[j]));
        }
    }
}

} // verus!
