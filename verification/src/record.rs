//! Reading a record's declaration: its fields, their names and types, and
//! the defects for which a declaration is refused.

use crate::casing::{snake_case, snake_case_of};
use crate::conversion::{
    ConversionSort, ConversionType, ConversionTypeView, RecordDecl, RecordDeclView,
};
use crate::error::GenerationError;
use crate::generics::{
    extract_generics_from_type, extracted, merge_generics, tagged, GenericParam, GenericParamView,
    Generics, GenericsView, ParamKind, WherePredicateView,
};
use crate::plan::{merged, table_view};
use crate::type_expr::{TypeExpr, TypeExprView};
use vstd::prelude::*;

verus! {

/// Whether a field name comes of a type: whether it is a path with a segment.
pub open spec fn nameable(ty: TypeExprView) -> bool {
    ty is Path && ty->Path_segments.len() > 0
}

/// The field name that comes of a type: its last segment in snake case.
pub open spec fn name_for(ty: TypeExprView) -> Seq<char> {
    if nameable(ty) {
        snake_case_of(ty->Path_segments.last().ident)
    } else {
        Seq::empty()
    }
}

impl RecordDeclView {
    /// The number of fields: those declared, then one for each type declared
    /// for the whole record.
    pub open spec fn field_count(self) -> nat {
        self.fields.len() + self.extra_fields.len()
    }

    /// The name of field `f`: as declared, or as it comes of the type.
    pub open spec fn field_name(self, f: int) -> Seq<char> {
        if f < self.fields.len() {
            self.fields[f].name
        } else {
            name_for(self.extra_fields[f - self.fields.len()])
        }
    }

    /// The names of all the fields.
    pub open spec fn field_names(self) -> Seq<Seq<char>> {
        Seq::new(self.field_count(), |f: int| self.field_name(f))
    }

    /// The number of types that field `f` can be taken as.
    pub open spec fn alternates(self, f: int) -> nat {
        if f < self.fields.len() {
            self.fields[f].alternates()
        } else {
            1
        }
    }

    /// Whether `key` names a field and one of its types.
    pub open spec fn has(self, key: ConversionSort) -> bool {
        key.sort_number < self.field_count() && key.alternate < self.alternates(
            key.sort_number as int,
        )
    }

    /// The type that `key` stands for.
    pub open spec fn slot_type(self, key: ConversionSort) -> TypeExprView {
        if key.sort_number < self.fields.len() {
            self.fields[key.sort_number as int].alternate_type(key.alternate as int)
        } else {
            self.extra_fields[key.sort_number - self.fields.len()]
        }
    }
}

/// Whether a parameter list declares the type parameter `name`.
pub open spec fn declares_type(params: Seq<GenericParamView>, name: Seq<char>) -> bool {
    exists|i: int|
        0 <= i < params.len() && (#[trigger] params[i]).kind == ParamKind::Type && params[i].name
            == name
}

/// The parameters of the record that a type refers to: of the names that the
/// type may refer to, those that the record declares, as the kind it declares.
pub open spec fn referenced(declared: Seq<GenericParamView>, ty: TypeExprView) -> GenericsView {
    GenericsView {
        params: extracted(ty).params.filter(|param: GenericParamView| declared.contains(param)),
        where_clause: Seq::empty(),
    }
}

/// The parameters that a conversion brings: those that a concrete type refers
/// to; for a generic one, the type parameters that it names, then those that
/// its path refers to besides.
pub open spec fn conversion_generics(
    declared: Seq<GenericParamView>,
    conversion: ConversionTypeView,
) -> GenericsView {
    match conversion {
        ConversionTypeView::Type(ty) => referenced(declared, ty),
        ConversionTypeView::Generic { generic_ident, path } => merged(
            GenericsView {
                params: tagged(ParamKind::Type, generic_ident),
                where_clause: Seq::empty(),
            },
            referenced(declared, path),
        ),
    }
}

impl RecordDeclView {
    /// The parameters that field `f` brings when taken as its type number `a`.
    pub open spec fn slot_generics(self, f: int, a: int) -> GenericsView {
        if f < self.fields.len() {
            if a == 0 {
                referenced(self.generics.params, self.fields[f].ty)
            } else {
                conversion_generics(self.generics.params, self.fields[f].conversions[a - 1])
            }
        } else {
            referenced(self.generics.params, self.extra_fields[f - self.fields.len()])
        }
    }

    /// For each field, the parameters that each of its types brings.
    pub open spec fn table(self) -> Seq<Seq<GenericsView>> {
        Seq::new(
            self.field_count(),
            |f: int| Seq::new(self.alternates(f), |a: int| self.slot_generics(f, a)),
        )
    }

    /// Whether identifier `ident` of conversion `conversion` of field `field`
    /// names a type parameter that the record does not declare.
    pub open spec fn unresolved(self, field: int, conversion: int, ident: int) -> bool {
        &&& 0 <= field < self.fields.len()
        &&& 0 <= conversion < self.fields[field].conversions.len()
        &&& self.fields[field].conversions[conversion] matches ConversionTypeView::Generic {
            generic_ident,
            path,
        }
        &&& 0 <= ident < generic_ident.len()
        &&& !declares_type(self.generics.params, generic_ident[ident])
    }

    /// Whether every generic conversion names declared type parameters only.
    pub open spec fn resolved(self) -> bool {
        forall|field: int, conversion: int, ident: int|
            !#[trigger] self.unresolved(field, conversion, ident)
    }

    /// Whether `(field, conversion, ident)` is the first unresolved identifier.
    pub open spec fn first_unresolved(self, field: int, conversion: int, ident: int) -> bool {
        &&& self.unresolved(field, conversion, ident)
        &&& forall|f: int, c: int, i: int|
            (f < field || (f == field && (c < conversion || (c == conversion && i < ident))))
                ==> !#[trigger] self.unresolved(f, c, i)
    }

    /// The keys before field `f`: field by field, each field's types in order.
    pub open spec fn slots_before(self, f: nat) -> Seq<ConversionSort>
        decreases f,
    {
        if f == 0 {
            Seq::empty()
        } else {
            self.slots_before((f - 1) as nat) + Seq::new(
                self.alternates(f - 1),
                |a: int| ConversionSort { sort_number: (f - 1) as usize, alternate: a as usize },
            )
        }
    }

    /// Every key of the record.
    pub open spec fn all_slots(self) -> Seq<ConversionSort> {
        self.slots_before(self.field_count())
    }

    /// The type of every key, in the order of `all_slots`.
    pub open spec fn slot_types(self) -> Seq<TypeExprView> {
        Seq::new(self.all_slots().len(), |p: int| self.slot_type(self.all_slots()[p]))
    }
}

impl RecordDecl {
    /// The type that `key` stands for.
    pub fn slot_type(&self, key: ConversionSort) -> (r: &TypeExpr)
        requires
            self@.has(key),
        ensures
            r@ == self@.slot_type(key),
    {
        if key.sort_number < self.fields.len() {
            let field = &self.fields[key.sort_number];
            assert(self@.fields[key.sort_number as int] == field@);
            if key.alternate == 0 {
                &field.ty
            } else {
                assert(field@.conversions[key.alternate - 1] == field.conversions@[key.alternate
                    - 1]@);
                field.conversions[key.alternate - 1].ty()
            }
        } else {
            &self.extra_fields[key.sort_number - self.fields.len()]
        }
    }
}

/// Whether `s[i]` and `s[j]` are the first two items of `s` that are the
/// same: no item before `s[j]` repeats an earlier one, and `s[i]` is the
/// first that `s[j]` repeats.
pub open spec fn first_repeat<T>(s: Seq<T>, i: int, j: int) -> bool {
    &&& 0 <= i < j < s.len()
    &&& s[i] == s[j]
    &&& forall|p: int, q: int| 0 <= p < q < j ==> s[p] != s[q]
    &&& forall|p: int| 0 <= p < i ==> s[p] != s[j]
}

/// The name of the field that comes of `ty`, if one does.
pub fn extra_field_name(ty: &TypeExpr) -> (r: Option<String>)
    ensures
        match r {
            Some(name) => nameable(ty@) && name@ == name_for(ty@),
            None => !nameable(ty@),
        },
{
    match ty {
        TypeExpr::Path { segments } => {
            if segments.len() == 0 {
                None
            } else {
                let last = &segments[segments.len() - 1];
                assert(ty@->Path_segments.last() == last@);
                Some(snake_case(last.ident.as_str()))
            }
        },
        _ => None,
    }
}

/// The names of the fields, or the first type declared for the whole record
/// of which no name comes.
pub fn field_names(record: &RecordDecl) -> (r: Result<Vec<String>, GenerationError>)
    ensures
        match r {
            Ok(names) => {
                &&& forall|e: int|
                    0 <= e < record@.extra_fields.len() ==> nameable(
                        #[trigger] record@.extra_fields[e],
                    )
                &&& Seq::new(names@.len(), |i: int| names@[i]@) == record@.field_names()
            },
            Err(error) => {
                &&& error matches GenerationError::UnnamedExtraField { extra }
                &&& extra < record@.extra_fields.len()
                &&& !nameable(record@.extra_fields[extra as int])
                &&& forall|e: int| 0 <= e < extra ==> nameable(#[trigger] record@.extra_fields[e])
            },
        },
{
    let mut names: Vec<String> = Vec::new();
    let mut i: usize = 0;
    while i < record.fields.len()
        invariant
            i <= record.fields.len(),
            names@.len() == i,
            forall|f: int| 0 <= f < i ==> (#[trigger] names@[f])@ == record@.field_name(f),
        decreases record.fields.len() - i,
    {
        assert(record@.fields[i as int] == record.fields@[i as int]@);
        names.push(record.fields[i].name.clone());
        i += 1;
    }
    let mut e: usize = 0;
    while e < record.extra_fields.len()
        invariant
            e <= record.extra_fields.len(),
            names@.len() == record.fields@.len() + e,
            forall|f: int|
                0 <= f < names@.len() ==> (#[trigger] names@[f])@ == record@.field_name(f),
            forall|x: int| 0 <= x < e ==> nameable(#[trigger] record@.extra_fields[x]),
        decreases record.extra_fields.len() - e,
    {
        assert(record@.extra_fields[e as int] == record.extra_fields@[e as int]@);
        match extra_field_name(&record.extra_fields[e]) {
            Some(name) => {
                names.push(name);
            },
            None => {
                return Err(GenerationError::UnnamedExtraField { extra: e });
            },
        }
        e += 1;
    }
    assert(Seq::new(names@.len(), |i: int| names@[i]@) =~= record@.field_names());
    Ok(names)
}

/// Refuses the names where two are the same, with the places of the first
/// two that are.
pub fn check_names(names: &Vec<String>) -> (r: Result<(), GenerationError>)
    ensures
        match r {
            Ok(_) => Seq::new(names@.len(), |i: int| names@[i]@).no_duplicates(),
            Err(error) => {
                &&& error matches GenerationError::DuplicateField { first, second }
                &&& first_repeat(
                    Seq::new(names@.len(), |i: int| names@[i]@),
                    first as int,
                    second as int,
                )
            },
        },
{
    let ghost view = Seq::new(names@.len(), |i: int| names@[i]@);
    let mut j: usize = 0;
    while j < names.len()
        invariant
            j <= names.len(),
            view == Seq::new(names@.len(), |i: int| names@[i]@),
            forall|p: int, q: int| 0 <= p < q < j ==> view[p] != view[q],
        decreases names.len() - j,
    {
        let mut i: usize = 0;
        while i < j
            invariant
                i <= j,
                j < names.len(),
                view == Seq::new(names@.len(), |i: int| names@[i]@),
                forall|p: int, q: int| 0 <= p < q < j ==> view[p] != view[q],
                forall|p: int| 0 <= p < i ==> view[p] != view[j as int],
            decreases j - i,
        {
            if names[i] == names[j] {
                assert(view[i as int] == view[j as int]);
                return Err(GenerationError::DuplicateField { first: i, second: j });
            }
            i += 1;
        }
        j += 1;
    }
    Ok(())
}

fn declares_type_name(params: &Vec<GenericParam>, name: &String) -> (r: bool)
    ensures
        r == declares_type(Seq::new(params@.len(), |i: int| params@[i]@), name@),
{
    let ghost view = Seq::new(params@.len(), |i: int| params@[i]@);
    let mut i: usize = 0;
    while i < params.len()
        invariant
            i <= params.len(),
            view == Seq::new(params@.len(), |i: int| params@[i]@),
            forall|j: int|
                0 <= j < i ==> !((#[trigger] view[j]).kind == ParamKind::Type && view[j].name
                    == name@),
        decreases params.len() - i,
    {
        let is_type = match params[i].kind {
            ParamKind::Type => true,
            _ => false,
        };
        if is_type && params[i].name == *name {
            assert(view[i as int].kind == ParamKind::Type && view[i as int].name == name@);
            return true;
        }
        i += 1;
    }
    false
}

fn declares_param(params: &Vec<GenericParam>, param: &GenericParam) -> (r: bool)
    ensures
        r == Seq::new(params@.len(), |i: int| params@[i]@).contains(param@),
{
    let ghost view = Seq::new(params@.len(), |i: int| params@[i]@);
    let mut i: usize = 0;
    while i < params.len()
        invariant
            i <= params.len(),
            view == Seq::new(params@.len(), |i: int| params@[i]@),
            forall|j: int| 0 <= j < i ==> view[j] != param@,
        decreases params.len() - i,
    {
        if params[i].kind == param.kind && params[i].name == param.name {
            assert(view[i as int] == param@);
            return true;
        }
        i += 1;
    }
    false
}

/// Lists the parameters of `declared` that `ty` refers to.
pub fn referenced_generics(declared: &Generics, ty: &TypeExpr) -> (r: Generics)
    ensures
        r@ == referenced(declared@.params, ty@),
{
    let found = extract_generics_from_type(ty);
    let ghost all = found@.params;
    let ghost keep = |param: GenericParamView| declared@.params.contains(param);
    let mut generics = Generics::new();
    let mut i: usize = 0;
    proof {
        reveal(Seq::filter);
        assert(all.take(0).filter(keep) =~= Seq::<GenericParamView>::empty());
    }
    while i < found.params.len()
        invariant
            i <= found.params.len(),
            all == found@.params,
            keep == |param: GenericParamView| declared@.params.contains(param),
            generics@.where_clause == Seq::<WherePredicateView>::empty(),
            generics@.params == all.take(i as int).filter(keep),
        decreases found.params.len() - i,
    {
        let ghost current = generics@;
        proof {
            reveal(Seq::filter);
            assert(all.take(i + 1).drop_last() =~= all.take(i as int));
            assert(all.take(i + 1).last() == found.params@[i as int]@);
            assert(declared@.params =~= Seq::new(
                declared.params@.len(),
                |i: int| declared.params@[i]@,
            ));
        }
        if declares_param(&declared.params, &found.params[i]) {
            let param = found.params[i].clone();
            generics.params.push(param);
            assert(generics@.params =~= current.params.push(param@));
            assert(generics@.where_clause =~= current.where_clause);
        }
        i += 1;
    }
    assert(all.take(i as int) =~= all);
    generics
}

/// The parameters that one conversion brings, or the place of the first
/// identifier that names no type parameter of `declared`.
pub fn conversion_generics_of(declared: &Generics, conversion: &ConversionType) -> (r: Result<
    Generics,
    usize,
>)
    ensures
        match r {
            Ok(generics) => {
                &&& generics@ == conversion_generics(declared@.params, conversion@)
                &&& conversion@ matches ConversionTypeView::Generic { generic_ident, path }
                    ==> forall|i: int|
                    0 <= i < generic_ident.len() ==> declares_type(
                        declared@.params,
                        #[trigger] generic_ident[i],
                    )
            },
            Err(ident) => {
                &&& conversion@ matches ConversionTypeView::Generic { generic_ident, path }
                &&& ident < generic_ident.len()
                &&& !declares_type(declared@.params, generic_ident[ident as int])
                &&& forall|i: int|
                    0 <= i < ident ==> declares_type(
                        declared@.params,
                        #[trigger] generic_ident[i],
                    )
            },
        },
{
    match conversion {
        ConversionType::Type(ty) => Ok(referenced_generics(declared, ty)),
        ConversionType::Generic { generic_ident, path } => {
            let ghost idents = conversion@->Generic_generic_ident;
            let mut generics = Generics::new();
            let mut i: usize = 0;
            while i < generic_ident.len()
                invariant
                    i <= generic_ident.len(),
                    idents == Seq::new(generic_ident@.len(), |i: int| generic_ident@[i]@),
                    conversion@ is Generic,
                    idents == conversion@->Generic_generic_ident,
                    generics@.where_clause == Seq::<WherePredicateView>::empty(),
                    generics@.params == tagged(ParamKind::Type, idents.take(i as int)),
                    forall|j: int|
                        0 <= j < i ==> declares_type(declared@.params, #[trigger] idents[j]),
                decreases generic_ident.len() - i,
            {
                let ghost current = generics@;
                assert(declared@.params =~= Seq::new(
                    declared.params@.len(),
                    |i: int| declared.params@[i]@,
                ));
                assert(idents[i as int] == generic_ident@[i as int]@);
                if !declares_type_name(&declared.params, &generic_ident[i]) {
                    return Err(i);
                }
                let param = GenericParam { kind: ParamKind::Type, name: generic_ident[i].clone() };
                generics.params.push(param);
                assert(generics@.params =~= current.params.push(param@));
                assert(generics@.where_clause =~= current.where_clause);
                assert(generics@.params =~= tagged(ParamKind::Type, idents.take(i + 1)));
                i += 1;
            }
            assert(idents.take(i as int) =~= idents);
            Ok(merge_generics(generics, &referenced_generics(declared, path)))
        },
    }
}

/// For each field, the parameters that each of its types brings; or the
/// first identifier of a generic conversion that names no type parameter of
/// the record.
pub fn build_table(record: &RecordDecl) -> (r: Result<Vec<Vec<Generics>>, GenerationError>)
    ensures
        match r {
            Ok(table) => record@.resolved() && table_view(table) == record@.table(),
            Err(error) => {
                &&& error matches GenerationError::UnresolvedParameter { field, conversion, ident }
                &&& record@.first_unresolved(field as int, conversion as int, ident as int)
            },
        },
{
    let mut table: Vec<Vec<Generics>> = Vec::new();
    let mut f: usize = 0;
    while f < record.fields.len()
        invariant
            f <= record.fields.len(),
            table@.len() == f,
            forall|g: int|
                0 <= g < f ==> (#[trigger] table_view(table)[g]) == record@.table()[g],
            forall|g: int, c: int, i: int| g < f ==> !#[trigger] record@.unresolved(g, c, i),
        decreases record.fields.len() - f,
    {
        let field = &record.fields[f];
        assert(record@.fields[f as int] == field@);
        let mut row: Vec<Generics> = Vec::new();
        row.push(referenced_generics(&record.generics, &field.ty));
        let mut c: usize = 0;
        while c < field.conversions.len()
            invariant
                c <= field.conversions.len(),
                f < record.fields.len(),
                record@.fields[f as int] == field@,
                row@.len() == c + 1,
                forall|a: int|
                    0 <= a < row@.len() ==> (#[trigger] row@[a])@ == record@.slot_generics(
                        f as int,
                        a,
                    ),
                forall|g: int, c: int, i: int| g < f ==> !#[trigger] record@.unresolved(g, c, i),
                forall|d: int, i: int| d < c ==> !#[trigger] record@.unresolved(f as int, d, i),
            decreases field.conversions.len() - c,
        {
            let conversion = &field.conversions[c];
            assert(field@.conversions[c as int] == conversion@);
            match conversion_generics_of(&record.generics, conversion) {
                Ok(generics) => {
                    row.push(generics);
                },
                Err(ident) => {
                    return Err(
                        GenerationError::UnresolvedParameter { field: f, conversion: c, ident },
                    );
                },
            }
            c += 1;
        }
        let ghost before = table_view(table);
        table.push(row);
        proof {
            let after = table_view(table);
            assert forall|g: int| 0 <= g < f + 1 implies (#[trigger] after[g])
                == record@.table()[g] by {
                if g < f {
                    assert(after[g] =~= before[g]);
                } else {
                    assert(after[g] =~= record@.table()[g]);
                }
            }
        }
        f += 1;
    }
    let mut e: usize = 0;
    while e < record.extra_fields.len()
        invariant
            e <= record.extra_fields.len(),
            table@.len() == record.fields@.len() + e,
            forall|g: int|
                0 <= g < table@.len() ==> (#[trigger] table_view(table)[g]) == record@.table()[g],
            record@.resolved(),
        decreases record.extra_fields.len() - e,
    {
        assert(record@.extra_fields[e as int] == record.extra_fields@[e as int]@);
        let mut row: Vec<Generics> = Vec::new();
        row.push(referenced_generics(&record.generics, &record.extra_fields[e]));
        let ghost before = table_view(table);
        let ghost g0 = table@.len() as int;
        table.push(row);
        proof {
            let after = table_view(table);
            assert forall|g: int| 0 <= g < table@.len() implies (#[trigger] after[g])
                == record@.table()[g] by {
                if g < g0 {
                    assert(after[g] =~= before[g]);
                } else {
                    assert(after[g] =~= record@.table()[g]);
                }
            }
        }
        e += 1;
    }
    assert(table_view(table) =~= record@.table());
    Ok(table)
}

/// The types that keys stand for.
pub open spec fn types_of(record: RecordDeclView, keys: Seq<ConversionSort>) -> Seq<TypeExprView> {
    Seq::new(keys.len(), |p: int| record.slot_type(keys[p]))
}

/// Lists every key of the record: field by field, each field's types in order.
pub fn all_slots(record: &RecordDecl, table: &Vec<Vec<Generics>>) -> (r: Vec<ConversionSort>)
    requires
        table_view(*table) == record@.table(),
    ensures
        r@ == record@.all_slots(),
        forall|p: int| 0 <= p < r@.len() ==> record@.has(#[trigger] r@[p]),
{
    let ghost tv = table_view(*table);
    let mut keys: Vec<ConversionSort> = Vec::new();
    let mut f: usize = 0;
    assert(tv.len() == table@.len());
    while f < table.len()
        invariant
            f <= table.len(),
            tv == table_view(*table),
            tv == record@.table(),
            table@.len() == record@.field_count(),
            keys@ == record@.slots_before(f as nat),
            forall|p: int| 0 <= p < keys@.len() ==> record@.has(#[trigger] keys@[p]),
        decreases table.len() - f,
    {
        let ghost before = keys@;
        let row = &table[f];
        assert(tv[f as int].len() == row@.len());
        assert(record@.table()[f as int].len() == record@.alternates(f as int));
        let mut a: usize = 0;
        while a < row.len()
            invariant
                a <= row.len(),
                f < table.len(),
                table@.len() == record@.field_count(),
                row@.len() == record@.alternates(f as int),
                keys@ == before + Seq::new(
                    a as nat,
                    |a: int| ConversionSort { sort_number: f, alternate: a as usize },
                ),
                forall|p: int| 0 <= p < keys@.len() ==> record@.has(#[trigger] keys@[p]),
            decreases row.len() - a,
        {
            keys.push(ConversionSort { sort_number: f, alternate: a });
            assert(keys@ =~= before + Seq::new(
                (a + 1) as nat,
                |a: int| ConversionSort { sort_number: f, alternate: a as usize },
            ));
            a += 1;
        }
        assert(keys@ =~= record@.slots_before((f + 1) as nat));
        f += 1;
    }
    keys
}

/// Refuses the keys where two stand for the same type, with the first two that do.
pub fn check_types(record: &RecordDecl, keys: &Vec<ConversionSort>) -> (r: Result<
    (),
    GenerationError,
>)
    requires
        forall|p: int| 0 <= p < keys@.len() ==> record@.has(#[trigger] keys@[p]),
    ensures
        match r {
            Ok(_) => types_of(record@, keys@).no_duplicates(),
            Err(error) => {
                &&& error matches GenerationError::AmbiguousConversion { one, other }
                &&& exists|p: int, q: int|
                    first_repeat(types_of(record@, keys@), p, q) && keys@[p] == one && keys@[q]
                        == other
            },
        },
{
    let ghost types = types_of(record@, keys@);
    let mut q: usize = 0;
    while q < keys.len()
        invariant
            q <= keys.len(),
            types == types_of(record@, keys@),
            forall|p: int| 0 <= p < keys@.len() ==> record@.has(#[trigger] keys@[p]),
            forall|a: int, b: int| 0 <= a < b < q ==> types[a] != types[b],
        decreases keys.len() - q,
    {
        let other = record.slot_type(keys[q]);
        let mut p: usize = 0;
        while p < q
            invariant
                p <= q,
                q < keys.len(),
                types == types_of(record@, keys@),
                other@ == types[q as int],
                forall|p: int| 0 <= p < keys@.len() ==> record@.has(#[trigger] keys@[p]),
                forall|a: int, b: int| 0 <= a < b < q ==> types[a] != types[b],
                forall|a: int| 0 <= a < p ==> types[a] != types[q as int],
            decreases q - p,
        {
            if record.slot_type(keys[p]).same(other) {
                assert(first_repeat(types, p as int, q as int));
                return Err(GenerationError::AmbiguousConversion { one: keys[p], other: keys[q] });
            }
            p += 1;
        }
        q += 1;
    }
    Ok(())
}

} // verus!
