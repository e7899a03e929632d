//! The subset generator: from a record's declaration to the synthesized
//! records and the edges between them.

use crate::algebra::{combined_values, lemma_split_then_combine, values_at};
use crate::conversion::{ConversionSort, RecordDecl, RecordDeclView};
use crate::error::GenerationError;
use crate::generics::GenericsView;
use crate::edges::{
    covers,
    edge_for,
    edge_well_formed,
    edges_of_base,
    edges_view,
    is_base,
    is_order,
    leads_everywhere,
    left,
    lemma_left,
    names,
    place_of,
    push_base_edges,
    sound_from,
    splits,
    Edge,
    EdgeView,
};
use crate::plan::{bounds_view, fits, table_view};
use crate::record::{
    all_slots, build_table, check_names, check_types, field_names, first_repeat, nameable,
    types_of,
};
use crate::registry::{holds, unambiguous, Registry, StructPlanView};
use crate::selections::{
    cartesian_product_of, is_choice, is_subset, multi_cartesian_product, nested, powerset,
    powerset_of,
};
use crate::synthesis::{
    all_fields, counts_at, counts_for, holds_choices, lemma_slots, lemma_table_bounds, make_slots,
    plans_of_choices, plans_of_subsets, register_choices, register_subsets, slots, sort_numbers,
};
use vstd::prelude::*;

verus! {

/// What is generated for a record.
pub struct Plan {
    /// The names of the fields, by `sort_number`.
    pub field_names: Vec<String>,
    /// The combinations: one for every choice of a type for each field.
    pub combinations: Registry,
    /// The remainders: one for every choice of types over every subset of the fields.
    pub remainders: Registry,
    /// The edges that lead out of the record itself.
    pub original: Vec<Edge>,
    /// The edges that lead out of each combination.
    pub edges: Vec<Edge>,
}

pub struct PlanView {
    pub field_names: Seq<Seq<char>>,
    pub combinations: Seq<StructPlanView>,
    pub remainders: Seq<StructPlanView>,
    pub original: Seq<EdgeView>,
    pub edges: Seq<EdgeView>,
}

impl View for Plan {
    type V = PlanView;

    open spec fn view(&self) -> PlanView {
        PlanView {
            field_names: Seq::new(self.field_names@.len(), |i: int| self.field_names@[i]@),
            combinations: self.combinations@,
            remainders: self.remainders@,
            original: edges_view(self.original),
            edges: edges_view(self.edges),
        }
    }
}

impl PlanView {
    /// Whether no key is registered twice and every edge is sound.
    pub open spec fn well_formed(self) -> bool {
        &&& unambiguous(self.combinations)
        &&& unambiguous(self.remainders)
        &&& sound_from(self.original, 0, self.combinations, self.remainders, self.field_names.len())
        &&& sound_from(self.edges, 0, self.combinations, self.remainders, self.field_names.len())
    }
}

impl PlanView {
    /// Whether nothing is missing for a record with the given table: a
    /// combination is registered for every choice of a type for each field
    /// and a remainder for every such choice over every subset of the fields,
    /// and there is an edge out of the record and out of every combination
    /// for every order in which fields can be split off.
    pub open spec fn complete(self, table: Seq<Seq<GenericsView>>) -> bool {
        let n = self.field_names.len();
        &&& holds_choices(self.combinations, table, all_fields(n))
        &&& forall|subset: Seq<usize>|
            is_subset(subset, n) ==> #[trigger] holds_choices(self.remainders, table, subset)
        &&& leads_everywhere(self.original, self.combinations, self.remainders, original_base(n))
        &&& forall|choice: Seq<usize>|
            is_choice(choice, counts_at(table, all_fields(n))) ==> leads_everywhere(
                self.edges,
                self.combinations,
                self.remainders,
                #[trigger] slots(all_fields(n), choice),
            )
    }
}

/// The declared type of each of `n` fields.
pub open spec fn declared_types(n: nat) -> Seq<usize> {
    Seq::new(n, |i: int| 0usize)
}

/// The keys of a record of `n` fields, each taken as its declared type.
pub open spec fn original_base(n: nat) -> Seq<ConversionSort> {
    slots(all_fields(n), declared_types(n))
}

/// The edges out of the combinations for the first `m` of `choices`.
pub open spec fn edges_of_choices(
    combinations: Seq<StructPlanView>,
    remainders: Seq<StructPlanView>,
    n: nat,
    choices: Seq<Seq<usize>>,
    m: nat,
) -> Seq<EdgeView>
    decreases m,
{
    if m == 0 || m > choices.len() {
        Seq::empty()
    } else {
        edges_of_choices(combinations, remainders, n, choices, (m - 1) as nat) + edges_of_base(
            combinations,
            remainders,
            slots(all_fields(n), choices[m - 1]),
        )
    }
}

/// What is generated for a sound record.
pub open spec fn plan_of(record: RecordDeclView) -> PlanView {
    let table = record.table();
    let bounds = record.generics.where_clause;
    let n = record.field_count();
    let choices = cartesian_product_of(counts_at(table, all_fields(n)));
    let subsets = powerset_of(n as usize);
    let combinations = plans_of_choices(table, bounds, all_fields(n), choices);
    let remainders = plans_of_subsets(table, bounds, subsets, subsets.len());
    PlanView {
        field_names: record.field_names(),
        combinations,
        remainders,
        original: edges_of_base(combinations, remainders, original_base(n)),
        edges: edges_of_choices(combinations, remainders, n, choices, choices.len()),
    }
}

/// Whether a record can be generated for: a field name comes of every type
/// declared for the whole record, no two fields share a name, every generic
/// conversion names type parameters of the record, and no two types that
/// fields can be taken as are the same.
pub open spec fn sound(record: RecordDeclView) -> bool {
    &&& forall|e: int|
        0 <= e < record.extra_fields.len() ==> nameable(#[trigger] record.extra_fields[e])
    &&& record.field_names().no_duplicates()
    &&& record.resolved()
    &&& record.slot_types().no_duplicates()
}

/// Whether `error` is the defect for which a record is refused: the first of
/// its kind, where no defect of an earlier kind is found.
pub open spec fn is_defect(record: RecordDeclView, error: GenerationError) -> bool {
    match error {
        GenerationError::UnnamedExtraField { extra } => {
            &&& extra < record.extra_fields.len()
            &&& !nameable(record.extra_fields[extra as int])
            &&& forall|e: int| 0 <= e < extra ==> nameable(#[trigger] record.extra_fields[e])
        },
        GenerationError::DuplicateField { first, second } => {
            &&& forall|e: int|
                0 <= e < record.extra_fields.len() ==> nameable(#[trigger] record.extra_fields[e])
            &&& first_repeat(record.field_names(), first as int, second as int)
        },
        GenerationError::UnresolvedParameter { field, conversion, ident } => {
            &&& forall|e: int|
                0 <= e < record.extra_fields.len() ==> nameable(#[trigger] record.extra_fields[e])
            &&& record.field_names().no_duplicates()
            &&& record.first_unresolved(field as int, conversion as int, ident as int)
        },
        GenerationError::AmbiguousConversion { one, other } => {
            &&& forall|e: int|
                0 <= e < record.extra_fields.len() ==> nameable(#[trigger] record.extra_fields[e])
            &&& record.field_names().no_duplicates()
            &&& record.resolved()
            &&& exists|p: int, q: int|
                first_repeat(record.slot_types(), p, q) && record.all_slots()[p] == one
                    && record.all_slots()[q] == other
        },
        GenerationError::MissingCombination => false,
        GenerationError::MissingRemainder => false,
    }
}

/// A record with a defect is not sound: a sound record is generated for.
pub proof fn lemma_defect_excludes_sound(record: RecordDeclView, error: GenerationError)
    requires
        is_defect(record, error),
    ensures
        !sound(record),
{
    match error {
        GenerationError::UnnamedExtraField { extra } => {},
        GenerationError::DuplicateField { first, second } => {},
        GenerationError::UnresolvedParameter { field, conversion, ident } => {
            assert(record.unresolved(field as int, conversion as int, ident as int));
        },
        GenerationError::AmbiguousConversion { one, other } => {
            let (p, q) = choose|p: int, q: int|
                first_repeat(record.slot_types(), p, q) && record.all_slots()[p] == one
                    && record.all_slots()[q] == other;
            assert(record.slot_types()[p] == record.slot_types()[q]);
        },
        GenerationError::MissingCombination => {},
        GenerationError::MissingRemainder => {},
    }
}

/// A record has at most one defect for which it is refused.
pub proof fn lemma_defect_unique(record: RecordDeclView, a: GenerationError, b: GenerationError)
    requires
        is_defect(record, a),
        is_defect(record, b),
    ensures
        a == b,
{
    lemma_defect_excludes_sound(record, a);
    match (a, b) {
        (
            GenerationError::DuplicateField { first: i, second: j },
            GenerationError::DuplicateField { first: p, second: q },
        ) => {
            let names = record.field_names();
            if j < q {
                assert(names[i as int] == names[j as int]);
            } else if q < j {
                assert(names[p as int] == names[q as int]);
            }
        },
        (
            GenerationError::UnresolvedParameter { field: f, conversion: c, ident: i },
            GenerationError::UnresolvedParameter { field: g, conversion: d, ident: j },
        ) => {
            assert(record.unresolved(f as int, c as int, i as int));
            assert(record.unresolved(g as int, d as int, j as int));
        },
        (
            GenerationError::AmbiguousConversion { one: a1, other: a2 },
            GenerationError::AmbiguousConversion { one: b1, other: b2 },
        ) => {
            let types = record.slot_types();
            let (p, q) = choose|p: int, q: int|
                first_repeat(types, p, q) && record.all_slots()[p] == a1 && record.all_slots()[q]
                    == a2;
            let (u, v) = choose|u: int, v: int|
                first_repeat(types, u, v) && record.all_slots()[u] == b1 && record.all_slots()[v]
                    == b2;
            if q < v {
                assert(types[p] == types[q]);
            } else if v < q {
                assert(types[u] == types[v]);
            }
        },
        (
            GenerationError::UnnamedExtraField { extra: x },
            GenerationError::UnresolvedParameter { field, conversion, ident },
        ) => {},
        (
            GenerationError::UnresolvedParameter { field, conversion, ident },
            GenerationError::AmbiguousConversion { one, other },
        ) => {
            assert(record.unresolved(field as int, conversion as int, ident as int));
        },
        (
            GenerationError::AmbiguousConversion { one, other },
            GenerationError::UnresolvedParameter { field, conversion, ident },
        ) => {
            assert(record.unresolved(field as int, conversion as int, ident as int));
        },
        _ => {},
    }
}

/// Where a remainder is registered for every choice of types over every
/// subset, one is registered for whatever can be left of a combination.
pub proof fn lemma_covers(
    remainders: Seq<StructPlanView>,
    table: Seq<Seq<GenericsView>>,
    base: Seq<ConversionSort>,
)
    requires
        is_base(base),
        fits(table, base),
        base.len() == table.len(),
        table.len() <= usize::MAX,
        forall|f: int| 0 <= f < table.len() ==> (#[trigger] table[f]).len() <= usize::MAX,
        forall|subset: Seq<usize>|
            is_subset(subset, table.len()) ==> #[trigger] holds_choices(remainders, table, subset),
    ensures
        covers(remainders, base),
{
    assert forall|order: Seq<usize>| is_order(order, base.len()) implies holds(
        remainders,
        #[trigger] left(base, order),
    ) by {
        lemma_left(base, order);
        let rest = left(base, order);
        let subset = sort_numbers(rest);
        let choice = Seq::new(rest.len(), |i: int| rest[i].alternate);
        assert(is_subset(subset, table.len())) by {
            assert forall|i: int, j: int| 0 <= i < j < subset.len() implies subset[i]
                < subset[j] by {
                assert(rest[i].sort_number < rest[j].sort_number);
            }
        }
        assert(is_choice(choice, counts_at(table, subset))) by {
            assert forall|i: int| 0 <= i < choice.len() implies #[trigger] choice[i] < counts_at(
                table,
                subset,
            )[i] by {
                let key = rest[i];
                assert(base[key.sort_number as int] == key);
            }
        }
        assert(holds_choices(remainders, table, subset));
        assert(slots(subset, choice) =~= rest);
    }
}

/// The names of the fields that keys stand for.
pub open spec fn field_name_set(field_names: Seq<Seq<char>>, keys: Seq<ConversionSort>) -> Set<
    Seq<char>,
> {
    Set::new(
        |name: Seq<char>|
            exists|i: int|
                0 <= i < keys.len() && field_names[(#[trigger] keys[i]).sort_number as int] == name,
    )
}

/// Where no two fields share a name, the names of the fields that an edge
/// splits off and the names of those it leaves behind have no name in
/// common, and together they are the names of all the fields.
pub proof fn lemma_names_partition(field_names: Seq<Seq<char>>, edge: EdgeView)
    requires
        field_names.no_duplicates(),
        splits(edge, field_names.len()),
    ensures
        field_name_set(field_names, edge.current).disjoint(
            field_name_set(field_names, edge.other),
        ),
        field_name_set(field_names, edge.current).union(field_name_set(field_names, edge.other))
            == field_names.to_set(),
{
    let current = field_name_set(field_names, edge.current);
    let other = field_name_set(field_names, edge.other);
    assert forall|name: Seq<char>| !(current.contains(name) && other.contains(name)) by {
        if current.contains(name) && other.contains(name) {
            let i = choose|i: int|
                0 <= i < edge.current.len() && field_names[(
                #[trigger] edge.current[i]).sort_number as int] == name;
            let j = choose|j: int|
                0 <= j < edge.other.len() && field_names[(#[trigger] edge.other[j]).sort_number as int]
                    == name;
            let f = edge.current[i].sort_number as int;
            assert(edge.other[j].sort_number == f);
            assert(names(edge.current, f));
            assert(names(edge.other, f));
        }
    }
    assert forall|name: Seq<char>|
        current.union(other).contains(name) <==> field_names.to_set().contains(name) by {
        if current.contains(name) {
            let i = choose|i: int|
                0 <= i < edge.current.len() && field_names[(
                #[trigger] edge.current[i]).sort_number as int] == name;
            assert(field_names.contains(field_names[edge.current[i].sort_number as int]));
        }
        if other.contains(name) {
            let j = choose|j: int|
                0 <= j < edge.other.len() && field_names[(#[trigger] edge.other[j]).sort_number as int]
                    == name;
            assert(field_names.contains(field_names[edge.other[j].sort_number as int]));
        }
        if field_names.contains(name) {
            let f = choose|f: int| 0 <= f < field_names.len() && field_names[f] == name;
            assert(names(edge.current, f) != names(edge.other, f));
            if names(edge.current, f) {
                let i = place_of(edge.current, f);
                assert(field_names[edge.current[i].sort_number as int] == name);
            } else {
                let j = place_of(edge.other, f);
                assert(field_names[edge.other[j].sort_number as int] == name);
            }
        }
    }
    assert(current.union(other) =~= field_names.to_set());
}

impl PlanView {
    /// Whether `edge` is one of the plan's edges.
    pub open spec fn has_edge(self, edge: EdgeView) -> bool {
        self.original.contains(edge) || self.edges.contains(edge)
    }
}

/// In a well-formed plan every edge is sound.
pub proof fn lemma_plan_edge(plan: PlanView, edge: EdgeView)
    requires
        plan.well_formed(),
        plan.has_edge(edge),
    ensures
        edge_well_formed(edge, plan.combinations, plan.remainders, plan.field_names.len()),
{
    if plan.original.contains(edge) {
        let i = choose|i: int| 0 <= i < plan.original.len() && plan.original[i] == edge;
        assert(edge_well_formed(
            plan.original[i],
            plan.combinations,
            plan.remainders,
            plan.field_names.len(),
        ));
    } else {
        let i = choose|i: int| 0 <= i < plan.edges.len() && plan.edges[i] == edge;
        assert(edge_well_formed(
            plan.edges[i],
            plan.combinations,
            plan.remainders,
            plan.field_names.len(),
        ));
    }
}

/// Round trip: along every edge of a well-formed plan, splitting a record's
/// value and combining the parts again gives the value back.
pub proof fn lemma_plan_round_trip<V>(plan: PlanView, edge: EdgeView, record: Seq<V>)
    requires
        plan.well_formed(),
        plan.has_edge(edge),
        record.len() == plan.field_names.len(),
    ensures
        combined_values(edge, values_at(record, edge.other), values_at(record, edge.current))
            == record,
{
    lemma_plan_edge(plan, edge);
    lemma_split_then_combine(edge, record);
}

/// Partition: along every edge of a well-formed plan whose fields have
/// different names, the names of the fields split off and the names of the
/// fields of the remainder have no name in common, and together they are
/// the names of all the fields.
pub proof fn lemma_plan_partition(plan: PlanView, edge: EdgeView)
    requires
        plan.well_formed(),
        plan.has_edge(edge),
        plan.field_names.no_duplicates(),
    ensures
        field_name_set(plan.field_names, edge.current).disjoint(
            field_name_set(plan.field_names, plan.remainders[edge.remainder].fields),
        ),
        field_name_set(plan.field_names, edge.current).union(
            field_name_set(plan.field_names, plan.remainders[edge.remainder].fields),
        ) == plan.field_names.to_set(),
{
    lemma_plan_edge(plan, edge);
    lemma_names_partition(plan.field_names, edge);
}

fn fields_in_order(n: usize) -> (r: Vec<usize>)
    ensures
        r@ == all_fields(n as nat),
{
    let mut fields: Vec<usize> = Vec::new();
    let mut i: usize = 0;
    while i < n
        invariant
            i <= n,
            fields@ == all_fields(i as nat),
        decreases n - i,
    {
        fields.push(i);
        assert(fields@ =~= all_fields((i + 1) as nat));
        i += 1;
    }
    fields
}

/// Appends the edges that lead out of the record itself: for every number of
/// fields from none to all, for every subset of that size and every order of
/// it, the edge that splits those fields, as declared, off the record.
pub fn create_original_conversion_combinations(
    state_conversions: &mut Vec<Edge>,
    combination_names: &Registry,
    remainder_names: &Registry,
    fields: usize,
)
    requires
        holds(combination_names@, original_base(fields as nat)),
        covers(remainder_names@, original_base(fields as nat)),
    ensures
        edges_view(*final(state_conversions)) == edges_view(*old(state_conversions))
            + edges_of_base(combination_names@, remainder_names@, original_base(fields as nat)),
        sound_from(
            edges_view(*final(state_conversions)),
            old(state_conversions)@.len() as int,
            combination_names@,
            remainder_names@,
            fields as nat,
        ),
        leads_everywhere(
            edges_view(*final(state_conversions)),
            combination_names@,
            remainder_names@,
            original_base(fields as nat),
        ),
{
    let mut base: Vec<ConversionSort> = Vec::new();
    let mut i: usize = 0;
    while i < fields
        invariant
            i <= fields,
            base@ == original_base(i as nat),
        decreases fields - i,
    {
        base.push(ConversionSort { sort_number: i, alternate: 0 });
        assert(base@ =~= original_base((i + 1) as nat));
        i += 1;
    }
    push_base_edges(state_conversions, combination_names, remainder_names, &base);
}

/// Generates for a record: registers a combination for every choice of a
/// type for each field and a remainder for every such choice over every
/// subset of the fields, then makes the edges out of the record and out of
/// every combination. A record with a defect is refused with the defect.
pub fn state_filter_conversion(record: &RecordDecl) -> (r: Result<Plan, GenerationError>)
    ensures
        match r {
            Ok(plan) => {
                &&& sound(record@)
                &&& plan@ == plan_of(record@)
                &&& plan@.well_formed()
                &&& plan@.complete(record@.table())
            },
            Err(error) => is_defect(record@, error),
        },
{
    let names = match field_names(record) {
        Ok(names) => names,
        Err(error) => { return Err(error); },
    };
    match check_names(&names) {
        Ok(_) => {},
        Err(error) => { return Err(error); },
    }
    let table = match build_table(record) {
        Ok(table) => table,
        Err(error) => { return Err(error); },
    };
    let keys = all_slots(record, &table);
    proof {
        assert(types_of(record@, keys@) =~= record@.slot_types());
    }
    match check_types(record, &keys) {
        Ok(_) => {},
        Err(error) => { return Err(error); },
    }
    let bounds = &record.generics.where_clause;
    let n = names.len();
    let ghost tv = table_view(table);
    let ghost bv = bounds_view(*bounds);
    proof {
        assert(bv =~= record@.generics.where_clause);
        assert(Seq::new(names@.len(), |i: int| names@[i]@).len() == n);
        assert(record@.field_names().len() == record@.field_count());
        assert(record@.table().len() == record@.field_count());
        assert(tv.len() == n);
        lemma_table_bounds(table);
    }
    let fields = fields_in_order(n);
    let counts = counts_for(&table, &fields);
    let choices = multi_cartesian_product(&counts);
    let mut combination_names = Registry::new();
    register_choices(&mut combination_names, &table, bounds, &fields, &choices);
    let subsets = powerset(n);
    let mut remainder_names = Registry::new();
    register_subsets(&mut remainder_names, &table, bounds, &subsets);
    proof {
        assert(combination_names@ =~= plans_of_choices(tv, bv, fields@, nested(choices)));
        let first = declared_types(n as nat);
        assert(is_choice(first, counts_at(tv, fields@))) by {
            assert forall|i: int| 0 <= i < first.len() implies #[trigger] first[i] < counts_at(
                tv,
                fields@,
            )[i] by {
                assert(tv[i].len() == record@.alternates(i));
            }
        }
        lemma_slots(tv, fields@, first);
        assert(holds(combination_names@, slots(fields@, first)));
        lemma_covers(remainder_names@, tv, original_base(n as nat));
    }
    let mut original: Vec<Edge> = Vec::new();
    create_original_conversion_combinations(
        &mut original,
        &combination_names,
        &remainder_names,
        n,
    );
    assert(edges_view(original) =~= edges_of_base(
        combination_names@,
        remainder_names@,
        original_base(n as nat),
    ));
    let mut edges: Vec<Edge> = Vec::new();
    let mut k: usize = 0;
    assert(edges_view(edges) =~= Seq::<EdgeView>::empty());
    while k < choices.len()
        invariant
            k <= choices.len(),
            n == tv.len(),
            tv == table_view(table),
            tv.len() <= usize::MAX,
            forall|f: int| 0 <= f < tv.len() ==> (#[trigger] tv[f]).len() <= usize::MAX,
            fields@ == all_fields(n as nat),
            crate::selections::enumerates(
                nested(choices),
                |choice: Seq<usize>| is_choice(choice, counts_at(tv, fields@)),
            ),
            holds_choices(combination_names@, tv, fields@),
            forall|subset: Seq<usize>|
                is_subset(subset, tv.len()) ==> #[trigger] holds_choices(
                    remainder_names@,
                    tv,
                    subset,
                ),
            edges_view(edges) == edges_of_choices(
                combination_names@,
                remainder_names@,
                n as nat,
                nested(choices),
                k as nat,
            ),
            sound_from(edges_view(edges), 0, combination_names@, remainder_names@, n as nat),
            forall|j: int|
                0 <= j < k ==> leads_everywhere(
                    edges_view(edges),
                    combination_names@,
                    remainder_names@,
                    #[trigger] slots(fields@, nested(choices)[j]),
                ),
        decreases choices.len() - k,
    {
        let choice = &choices[k];
        assert(nested(choices)[k as int] == choice@);
        assert(is_choice(choice@, counts_at(tv, fields@)));
        proof {
            lemma_slots(tv, fields@, choice@);
            lemma_covers(remainder_names@, tv, slots(fields@, choice@));
        }
        let base = make_slots(&fields, choice);
        let ghost current = edges_view(edges);
        push_base_edges(&mut edges, &combination_names, &remainder_names, &base);
        proof {
            let after = edges_view(edges);
            assert forall|p: int| 0 <= p < after.len() implies edge_well_formed(
                #[trigger] after[p],
                combination_names@,
                remainder_names@,
                n as nat,
            ) by {
                if p < current.len() {
                    assert(after[p] == current[p]);
                }
            }
            assert forall|j: int| 0 <= j < k implies leads_everywhere(
                after,
                combination_names@,
                remainder_names@,
                #[trigger] slots(fields@, nested(choices)[j]),
            ) by {
                let earlier = slots(fields@, nested(choices)[j]);
                assert(leads_everywhere(current, combination_names@, remainder_names@, earlier));
                assert forall|order: Seq<usize>| is_order(order, earlier.len()) implies after.contains(
                    #[trigger] edge_for(combination_names@, remainder_names@, earlier, order),
                ) by {
                    let edge = edge_for(combination_names@, remainder_names@, earlier, order);
                    let p = choose|p: int| 0 <= p < current.len() && current[p] == edge;
                    assert(after[p] == edge);
                }
            }
        }
        k += 1;
    }
    let plan = Plan {
        field_names: names,
        combinations: combination_names,
        remainders: remainder_names,
        original,
        edges,
    };
    proof {
        assert(plan@.field_names =~= record@.field_names());
        assert(counts@ == counts_at(record@.table(), all_fields(record@.field_count())));
        assert forall|choice: Seq<usize>|
            is_choice(choice, counts_at(tv, all_fields(n as nat))) implies leads_everywhere(
            plan@.edges,
            plan@.combinations,
            plan@.remainders,
            #[trigger] slots(all_fields(n as nat), choice),
        ) by {
            assert(nested(choices).contains(choice));
            let j = choose|j: int| 0 <= j < choices@.len() && nested(choices)[j] == choice;
            assert(slots(fields@, nested(choices)[j]) == slots(all_fields(n as nat), choice));
        }
    }
    Ok(plan)
}

} // verus!
