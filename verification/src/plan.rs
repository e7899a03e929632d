//! The synthesized records: the fields each holds and the generic parameters
//! it declares.

use crate::conversion::ConversionSort;
use crate::generics::{
    declares, declares_name, distinct_names, lemma_merge_params, merge_generics, merge_params,
    Generics, GenericsView, WherePredicate, WherePredicateView,
};
use crate::registry::{StructPlan, StructPlanView};
use vstd::prelude::*;

verus! {

/// For each field, the generic parameters that each of its types brings.
pub open spec fn table_view(table: Vec<Vec<Generics>>) -> Seq<Seq<GenericsView>> {
    Seq::new(table@.len(), |f: int| Seq::new(table@[f]@.len(), |a: int| table@[f]@[a]@))
}

/// The bounds in a list.
pub open spec fn bounds_view(bounds: Vec<WherePredicate>) -> Seq<WherePredicateView> {
    Seq::new(bounds@.len(), |i: int| bounds@[i]@)
}

/// Whether every key names a field of the table and one of its types.
pub open spec fn fits(table: Seq<Seq<GenericsView>>, fields: Seq<ConversionSort>) -> bool {
    forall|i: int|
        0 <= i < fields.len() ==> (#[trigger] fields[i]).sort_number < table.len()
            && fields[i].alternate < table[fields[i].sort_number as int].len()
}

/// The two lists merged as `merge_generics` merges them.
pub open spec fn merged(a: GenericsView, b: GenericsView) -> GenericsView {
    GenericsView {
        params: merge_params(a.params, b.params),
        where_clause: a.where_clause + b.where_clause,
    }
}

/// The generic parameters of the first `n` of `fields`, merged in their order.
pub open spec fn merged_generics(
    table: Seq<Seq<GenericsView>>,
    fields: Seq<ConversionSort>,
    n: nat,
) -> GenericsView
    decreases n,
{
    if n == 0 || n > fields.len() {
        GenericsView { params: Seq::empty(), where_clause: Seq::empty() }
    } else {
        let key = fields[n - 1];
        merged(
            merged_generics(table, fields, (n - 1) as nat),
            table[key.sort_number as int][key.alternate as int],
        )
    }
}

/// A synthesized record declares the parameters that its fields bring, no
/// others, and none twice.
pub proof fn lemma_merged_generics(
    table: Seq<Seq<GenericsView>>,
    fields: Seq<ConversionSort>,
    n: nat,
)
    requires
        n <= fields.len(),
    ensures
        distinct_names(merged_generics(table, fields, n).params),
        forall|name: Seq<char>|
            #[trigger] declares(merged_generics(table, fields, n).params, name) <==> exists|
                i: int,
            |
                0 <= i < n && declares(
                    #[trigger] table[fields[i].sort_number as int][fields[i].alternate
                        as int].params,
                    name,
                ),
    decreases n,
{
    let all = merged_generics(table, fields, n).params;
    if n > 0 {
        let key = fields[n - 1];
        let before = merged_generics(table, fields, (n - 1) as nat).params;
        let brought = table[key.sort_number as int][key.alternate as int].params;
        lemma_merged_generics(table, fields, (n - 1) as nat);
        lemma_merge_params(before, brought);
        assert forall|name: Seq<char>| #[trigger]
            declares(all, name) <==> exists|i: int|
                0 <= i < n && declares(
                    #[trigger] table[fields[i].sort_number as int][fields[i].alternate
                        as int].params,
                    name,
                ) by {
            if declares(all, name) {
                if declares(before, name) {
                    let i = choose|i: int|
                        0 <= i < n - 1 && declares(
                            #[trigger] table[fields[i].sort_number as int][fields[i].alternate
                                as int].params,
                            name,
                        );
                    assert(0 <= i < n);
                } else {
                    assert(declares(brought, name));
                }
            }
            if exists|i: int|
                0 <= i < n && declares(
                    #[trigger] table[fields[i].sort_number as int][fields[i].alternate
                        as int].params,
                    name,
                ) {
                let i = choose|i: int|
                    0 <= i < n && declares(
                        #[trigger] table[fields[i].sort_number as int][fields[i].alternate
                            as int].params,
                        name,
                    );
                if i < n - 1 {
                    assert(declares(before, name));
                } else {
                    assert(declares(brought, name));
                }
            }
        }
    }
}

/// `generics`, with those of `bounds` added that constrain one of its parameters.
pub open spec fn constrained(generics: GenericsView, bounds: Seq<WherePredicateView>) -> GenericsView {
    GenericsView {
        params: generics.params,
        where_clause: generics.where_clause + bounds.filter(
            |bound: WherePredicateView| declares(generics.params, bound.param),
        ),
    }
}

/// The synthesized record that holds `fields`.
pub open spec fn plan_for(
    table: Seq<Seq<GenericsView>>,
    bounds: Seq<WherePredicateView>,
    fields: Seq<ConversionSort>,
) -> StructPlanView {
    StructPlanView {
        fields,
        generics: constrained(merged_generics(table, fields, fields.len()), bounds),
    }
}

/// Adds to `generics` the bounds that constrain one of its parameters.
pub fn constrain(generics: Generics, bounds: &Vec<WherePredicate>) -> (r: Generics)
    ensures
        r@ == constrained(generics@, bounds_view(*bounds)),
{
    let ghost before = generics@;
    let ghost all = bounds_view(*bounds);
    let ghost applies = |bound: WherePredicateView| declares(before.params, bound.param);
    let mut out = generics;
    let mut i: usize = 0;
    proof {
        reveal(Seq::filter);
        assert(all.take(0).filter(applies) =~= Seq::<WherePredicateView>::empty());
    }
    while i < bounds.len()
        invariant
            i <= bounds.len(),
            all == bounds_view(*bounds),
            applies == |bound: WherePredicateView| declares(before.params, bound.param),
            out@.params == before.params,
            out@.where_clause == before.where_clause + all.take(i as int).filter(applies),
        decreases bounds.len() - i,
    {
        let ghost current = out@;
        proof {
            reveal(Seq::filter);
            assert(all.take(i + 1).drop_last() =~= all.take(i as int));
            assert(all.take(i + 1).last() == bounds@[i as int]@);
        }
        if declares_name(&out.params, &bounds[i].param) {
            let bound = bounds[i].clone();
            out.where_clause.push(bound);
            assert(out@.params =~= current.params);
            assert(out@.where_clause =~= current.where_clause.push(bound@));
        }
        i += 1;
    }
    assert(all.take(i as int) =~= all);
    out
}

/// Makes the synthesized record that holds `fields`.
pub fn struct_plan(
    table: &Vec<Vec<Generics>>,
    bounds: &Vec<WherePredicate>,
    fields: Vec<ConversionSort>,
) -> (r: StructPlan)
    requires
        fits(table_view(*table), fields@),
    ensures
        r@ == plan_for(table_view(*table), bounds_view(*bounds), fields@),
{
    let ghost tv = table_view(*table);
    let mut generics = Generics::new();
    let mut i: usize = 0;
    while i < fields.len()
        invariant
            i <= fields.len(),
            tv == table_view(*table),
            fits(tv, fields@),
            generics@ == merged_generics(tv, fields@, i as nat),
        decreases fields.len() - i,
    {
        let key = fields[i];
        assert(fields@[i as int] == key);
        assert(tv[key.sort_number as int][key.alternate as int]
            == table@[key.sort_number as int]@[key.alternate as int]@);
        generics = merge_generics(generics, &table[key.sort_number][key.alternate]);
        i += 1;
    }
    let generics = constrain(generics, bounds);
    StructPlan { fields, generics }
}

} // verus!
