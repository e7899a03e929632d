//! Generic parameter lists: what a type refers to, and how lists merge.

use crate::names::{
    ascending, lemma_name_lt_irreflexive, lemma_name_lt_transitive, name_lt, NameSet,
};
use crate::type_expr::{
    GenericArgument, GenericArgumentView, PathSegmentView, TypeExpr, TypeExprView,
};
use vstd::prelude::*;

verus! {

/// The three kinds of generic parameter.
#[derive(Clone, Copy, Debug, PartialEq, Eq, Structural)]
pub enum ParamKind {
    Lifetime,
    Type,
    Const,
}

/// One generic parameter. A lifetime's name is kept without its apostrophe.
pub struct GenericParam {
    pub kind: ParamKind,
    pub name: String,
}

pub struct GenericParamView {
    pub kind: ParamKind,
    pub name: Seq<char>,
}

impl View for GenericParam {
    type V = GenericParamView;

    open spec fn view(&self) -> GenericParamView {
        GenericParamView { kind: self.kind, name: self.name@ }
    }
}

impl Clone for GenericParam {
    fn clone(&self) -> (r: GenericParam)
        ensures
            r@ == self@,
    {
        GenericParam { kind: self.kind, name: self.name.clone() }
    }
}

/// One predicate of a where clause: the parameter it constrains and its bounds as text.
pub struct WherePredicate {
    pub param: String,
    pub bounds: String,
}

pub struct WherePredicateView {
    pub param: Seq<char>,
    pub bounds: Seq<char>,
}

impl View for WherePredicate {
    type V = WherePredicateView;

    open spec fn view(&self) -> WherePredicateView {
        WherePredicateView { param: self.param@, bounds: self.bounds@ }
    }
}

impl Clone for WherePredicate {
    fn clone(&self) -> (r: WherePredicate)
        ensures
            r@ == self@,
    {
        WherePredicate { param: self.param.clone(), bounds: self.bounds.clone() }
    }
}

/// A list of generic parameters with its where clause.
pub struct Generics {
    pub params: Vec<GenericParam>,
    pub where_clause: Vec<WherePredicate>,
}

pub struct GenericsView {
    pub params: Seq<GenericParamView>,
    pub where_clause: Seq<WherePredicateView>,
}

impl View for Generics {
    type V = GenericsView;

    open spec fn view(&self) -> GenericsView {
        GenericsView {
            params: Seq::new(self.params@.len(), |i: int| self.params@[i]@),
            where_clause: Seq::new(self.where_clause@.len(), |i: int| self.where_clause@[i]@),
        }
    }
}

impl Generics {
    /// The empty list.
    pub fn new() -> (r: Generics)
        ensures
            r@.params == Seq::<GenericParamView>::empty(),
            r@.where_clause == Seq::<WherePredicateView>::empty(),
    {
        let r = Generics { params: Vec::new(), where_clause: Vec::new() };
        assert(r@.params =~= Seq::<GenericParamView>::empty());
        assert(r@.where_clause =~= Seq::<WherePredicateView>::empty());
        r
    }
}

/// Whether a parameter list declares `name`, whatever its kind.
pub open spec fn declares(params: Seq<GenericParamView>, name: Seq<char>) -> bool {
    exists|i: int| 0 <= i < params.len() && #[trigger] params[i].name == name
}

/// The names that a parameter list declares.
pub open spec fn declared_names(params: Seq<GenericParamView>) -> Set<Seq<char>> {
    Set::new(|name: Seq<char>| declares(params, name))
}

/// Whether no name is declared twice.
pub open spec fn distinct_names(params: Seq<GenericParamView>) -> bool {
    forall|i: int, j: int|
        0 <= i < j < params.len() ==> (#[trigger] params[i]).name != (#[trigger] params[j]).name
}

/// `a`, followed by those parameters of `b` whose name was not declared before them.
pub open spec fn merge_params(a: Seq<GenericParamView>, b: Seq<GenericParamView>) -> Seq<
    GenericParamView,
>
    decreases b.len(),
{
    if b.len() == 0 {
        a
    } else {
        let merged = merge_params(a, b.drop_last());
        if declares(merged, b.last().name) {
            merged
        } else {
            merged.push(b.last())
        }
    }
}

/// Merging declares what either list declares, keeps the first list in front,
/// and declares no name twice where the first list declared none twice.
pub proof fn lemma_merge_params(a: Seq<GenericParamView>, b: Seq<GenericParamView>)
    ensures
        merge_params(a, b).len() >= a.len(),
        merge_params(a, b).take(a.len() as int) == a,
        forall|name: Seq<char>|
            #[trigger] declares(merge_params(a, b), name) <==> declares(a, name) || declares(
                b,
                name,
            ),
        distinct_names(a) ==> distinct_names(merge_params(a, b)),
    decreases b.len(),
{
    if b.len() == 0 {
        assert(a.take(a.len() as int) =~= a);
    } else {
        let front = b.drop_last();
        let merged = merge_params(a, front);
        lemma_merge_params(a, front);
        let all = merge_params(a, b);
        assert(all.take(a.len() as int) =~= merged.take(a.len() as int));
        assert forall|name: Seq<char>| #[trigger]
            declares(all, name) <==> declares(a, name) || declares(b, name) by {
            if declares(all, name) {
                let i = choose|i: int| 0 <= i < all.len() && (#[trigger] all[i]).name == name;
                if i < merged.len() {
                    assert(merged[i].name == name);
                    assert(declares(merged, name));
                    if declares(front, name) {
                        let j = choose|j: int|
                            0 <= j < front.len() && (#[trigger] front[j]).name == name;
                        assert(b[j].name == name);
                    }
                } else {
                    assert(b[b.len() - 1].name == name);
                }
            }
            if declares(a, name) {
                assert(declares(merged, name));
                let i = choose|i: int| 0 <= i < merged.len() && (#[trigger] merged[i]).name == name;
                assert(all[i].name == name);
            }
            if declares(b, name) {
                let j = choose|j: int| 0 <= j < b.len() && (#[trigger] b[j]).name == name;
                if j < front.len() {
                    assert(front[j].name == name);
                    assert(declares(merged, name));
                    let i = choose|i: int|
                        0 <= i < merged.len() && (#[trigger] merged[i]).name == name;
                    assert(all[i].name == name);
                } else if declares(merged, name) {
                    let i = choose|i: int|
                        0 <= i < merged.len() && (#[trigger] merged[i]).name == name;
                    assert(all[i].name == name);
                } else {
                    assert(all[all.len() - 1].name == name);
                }
            }
        }
        if distinct_names(a) {
            assert forall|i: int, j: int| 0 <= i < j < all.len() implies (#[trigger] all[i]).name
                != (#[trigger] all[j]).name by {
                if j < merged.len() {
                    assert(all[i] == merged[i] && all[j] == merged[j]);
                } else {
                    assert(all[i] == merged[i]);
                    assert(!declares(merged, b.last().name));
                }
            }
        }
    }
}

/// Whether `params` declares `name`.
pub fn declares_name(params: &Vec<GenericParam>, name: &String) -> (r: bool)
    ensures
        r == declares(Seq::new(params@.len(), |i: int| params@[i]@), name@),
{
    let ghost view = Seq::new(params@.len(), |i: int| params@[i]@);
    let mut i: usize = 0;
    while i < params.len()
        invariant
            i <= params.len(),
            view == Seq::new(params@.len(), |i: int| params@[i]@),
            forall|j: int| 0 <= j < i ==> (#[trigger] view[j]).name != name@,
        decreases params.len() - i,
    {
        if params[i].name == *name {
            assert(view[i as int].name == name@);
            return true;
        }
        i += 1;
    }
    false
}

/// Merges `generics_b` into `generics_a`: a parameter comes over unless its
/// name is declared already, and the where clause of `generics_b` is appended.
pub fn merge_generics(generics_a: Generics, generics_b: &Generics) -> (r: Generics)
    ensures
        r@.params == merge_params(generics_a@.params, generics_b@.params),
        r@.where_clause == generics_a@.where_clause + generics_b@.where_clause,
{
    let ghost a = generics_a@;
    let ghost b = generics_b@;
    let mut merged = generics_a;
    let mut i: usize = 0;
    assert(b.params.take(0) =~= Seq::<GenericParamView>::empty());
    while i < generics_b.params.len()
        invariant
            i <= generics_b.params.len(),
            b == generics_b@,
            merged@.params == merge_params(a.params, b.params.take(i as int)),
            merged@.where_clause == a.where_clause,
        decreases generics_b.params.len() - i,
    {
        let param = &generics_b.params[i];
        let ghost before = merged@;
        assert(b.params.take(i + 1).drop_last() =~= b.params.take(i as int));
        assert(b.params.take(i + 1).last() == param@);
        if !declares_name(&merged.params, &param.name) {
            merged.params.push(param.clone());
            assert(merged@.params =~= before.params.push(param@));
            assert(merged@.where_clause =~= before.where_clause);
        }
        i += 1;
    }
    assert(b.params.take(i as int) =~= b.params);
    let mut j: usize = 0;
    while j < generics_b.where_clause.len()
        invariant
            j <= generics_b.where_clause.len(),
            b == generics_b@,
            merged@.params == merge_params(a.params, b.params),
            merged@.where_clause == a.where_clause + b.where_clause.take(j as int),
        decreases generics_b.where_clause.len() - j,
    {
        let ghost before = merged@;
        let predicate = generics_b.where_clause[j].clone();
        assert(predicate@ == b.where_clause[j as int]);
        merged.where_clause.push(predicate);
        assert(merged@.params =~= before.params);
        assert(merged@.where_clause =~= before.where_clause.push(predicate@));
        assert(merged@.where_clause =~= a.where_clause + b.where_clause.take(j + 1));
        j += 1;
    }
    assert(b.where_clause.take(j as int) =~= b.where_clause);
    merged
}

/// The names of kind `kind` that a type may refer to, at any depth between
/// angle brackets and behind references. As lifetimes: the lifetimes of
/// references and the lifetime arguments. As constants: the constant
/// arguments that are a lone identifier. As types: the first segment of every
/// path, where it has no arguments; such a name is a type parameter only if
/// the record declares it.
pub open spec fn names_in_type(ty: TypeExprView, kind: ParamKind) -> Set<Seq<char>>
    decreases ty, 0nat,
{
    match ty {
        TypeExprView::Path { segments } => {
            let inner = names_in_segments(segments, segments.len(), kind);
            if kind == ParamKind::Type && opens_with_name(segments) {
                inner.insert(segments[0].ident)
            } else {
                inner
            }
        },
        TypeExprView::Reference { lifetime, mutable, elem } => {
            let inner = names_in_type(*elem, kind);
            match lifetime {
                Some(name) if kind == ParamKind::Lifetime => inner.insert(name),
                _ => inner,
            }
        },
        TypeExprView::Other { text } => Set::empty(),
    }
}

/// Whether a path opens with a segment without arguments.
pub open spec fn opens_with_name(segments: Seq<PathSegmentView>) -> bool {
    segments.len() > 0 && segments[0].arguments.len() == 0
}

/// The names in the first `n` segments of a path.
pub open spec fn names_in_segments(
    segments: Seq<PathSegmentView>,
    n: nat,
    kind: ParamKind,
) -> Set<Seq<char>>
    decreases segments, n,
{
    if n == 0 || n > segments.len() {
        Set::empty()
    } else {
        let arguments = segments[n - 1].arguments;
        names_in_segments(segments, (n - 1) as nat, kind).union(
            names_in_arguments(arguments, arguments.len(), kind),
        )
    }
}

/// The names in the first `n` arguments of a segment.
pub open spec fn names_in_arguments(
    arguments: Seq<GenericArgumentView>,
    n: nat,
    kind: ParamKind,
) -> Set<Seq<char>>
    decreases arguments, n,
{
    if n == 0 || n > arguments.len() {
        Set::empty()
    } else {
        names_in_arguments(arguments, (n - 1) as nat, kind).union(
            names_in_argument(arguments[n - 1], kind),
        )
    }
}

/// The names in one argument.
pub open spec fn names_in_argument(argument: GenericArgumentView, kind: ParamKind) -> Set<
    Seq<char>,
>
    decreases argument, 0nat,
{
    match argument {
        GenericArgumentView::Type(ty) => names_in_type(ty, kind),
        GenericArgumentView::Lifetime(name) => if kind == ParamKind::Lifetime {
            set![name]
        } else {
            Set::empty()
        },
        GenericArgumentView::Const(name) => if kind == ParamKind::Const {
            set![name]
        } else {
            Set::empty()
        },
        GenericArgumentView::Other(text) => Set::empty(),
    }
}

/// Adds to the sets the names that `ty` may refer to.
pub fn collect_generics(
    ty: &TypeExpr,
    type_params: &mut NameSet,
    lifetime_params: &mut NameSet,
    const_params: &mut NameSet,
)
    requires
        old(type_params).well_formed(),
        old(lifetime_params).well_formed(),
        old(const_params).well_formed(),
    ensures
        final(type_params).well_formed(),
        final(lifetime_params).well_formed(),
        final(const_params).well_formed(),
        final(type_params)@.to_set() == old(type_params)@.to_set().union(
            names_in_type(ty@, ParamKind::Type),
        ),
        final(lifetime_params)@.to_set() == old(lifetime_params)@.to_set().union(
            names_in_type(ty@, ParamKind::Lifetime),
        ),
        final(const_params)@.to_set() == old(const_params)@.to_set().union(
            names_in_type(ty@, ParamKind::Const),
        ),
    decreases ty,
{
    let ghost types0 = type_params@.to_set();
    let ghost lifetimes0 = lifetime_params@.to_set();
    let ghost consts0 = const_params@.to_set();
    match ty {
        TypeExpr::Path { segments } => {
            let ghost segs = ty@->Path_segments;
            let mut i: usize = 0;
            while i < segments.len()
                invariant
                    i <= segments.len(),
                    ty == (TypeExpr::Path { segments: *segments }),
                    segs == ty@->Path_segments,
                    type_params.well_formed(),
                    lifetime_params.well_formed(),
                    const_params.well_formed(),
                    type_params@.to_set() == types0.union(
                        names_in_segments(segs, i as nat, ParamKind::Type),
                    ),
                    lifetime_params@.to_set() == lifetimes0.union(
                        names_in_segments(segs, i as nat, ParamKind::Lifetime),
                    ),
                    const_params@.to_set() == consts0.union(
                        names_in_segments(segs, i as nat, ParamKind::Const),
                    ),
                decreases segments.len() - i,
            {
                let segment = &segments[i];
                let ghost args = segs[i as int].arguments;
                let ghost types1 = type_params@.to_set();
                let ghost lifetimes1 = lifetime_params@.to_set();
                let ghost consts1 = const_params@.to_set();
                assert(segs[i as int] == segment@);
                let mut j: usize = 0;
                while j < segment.arguments.len()
                    invariant
                        j <= segment.arguments.len(),
                        i < segments.len(),
                        ty == (TypeExpr::Path { segments: *segments }),
                        *segment == segments[i as int],
                        args == segment@.arguments,
                        type_params.well_formed(),
                        lifetime_params.well_formed(),
                        const_params.well_formed(),
                        type_params@.to_set() == types1.union(
                            names_in_arguments(args, j as nat, ParamKind::Type),
                        ),
                        lifetime_params@.to_set() == lifetimes1.union(
                            names_in_arguments(args, j as nat, ParamKind::Lifetime),
                        ),
                        const_params@.to_set() == consts1.union(
                            names_in_arguments(args, j as nat, ParamKind::Const),
                        ),
                    decreases segment.arguments.len() - j,
                {
                    let argument = &segment.arguments[j];
                    let ghost types2 = type_params@.to_set();
                    let ghost lifetimes2 = lifetime_params@.to_set();
                    let ghost consts2 = const_params@.to_set();
                    assert(args[j as int] == argument@);
                    match argument {
                        GenericArgument::Type(inner_ty) => {
                            proof {
                                assert(decreases_to!(*ty => ty->Path_segments));
                                assert(decreases_to!(*segments => segments[i as int]));
                                assert(decreases_to!(segment.arguments => segment.arguments[j as int]));
                            }
                            collect_generics(inner_ty, type_params, lifetime_params, const_params);
                        },
                        GenericArgument::Lifetime(lt) => {
                            lifetime_params.insert(lt.clone());
                        },
                        GenericArgument::Const(ident) => {
                            const_params.insert(ident.clone());
                        },
                        GenericArgument::Other(_) => {},
                    }
                    proof {
                        let n = (j + 1) as nat;
                        assert(type_params@.to_set() =~= types2.union(
                            names_in_argument(args[j as int], ParamKind::Type),
                        ));
                        assert(type_params@.to_set() =~= types1.union(
                            names_in_arguments(args, n, ParamKind::Type),
                        ));
                        assert(lifetime_params@.to_set() =~= lifetimes2.union(
                            names_in_argument(args[j as int], ParamKind::Lifetime),
                        ));
                        assert(const_params@.to_set() =~= consts2.union(
                            names_in_argument(args[j as int], ParamKind::Const),
                        ));
                        assert(lifetime_params@.to_set() =~= lifetimes1.union(
                            names_in_arguments(args, n, ParamKind::Lifetime),
                        ));
                        assert(const_params@.to_set() =~= consts1.union(
                            names_in_arguments(args, n, ParamKind::Const),
                        ));
                    }
                    j += 1;
                }
                proof {
                    let n = (i + 1) as nat;
                    assert(type_params@.to_set() =~= types0.union(
                        names_in_segments(segs, n, ParamKind::Type),
                    ));
                    assert(lifetime_params@.to_set() =~= lifetimes0.union(
                        names_in_segments(segs, n, ParamKind::Lifetime),
                    ));
                    assert(const_params@.to_set() =~= consts0.union(
                        names_in_segments(segs, n, ParamKind::Const),
                    ));
                }
                i += 1;
            }
            if segments.len() > 0 && segments[0].arguments.len() == 0 {
                assert(segs[0] == segments@[0]@);
                type_params.insert(segments[0].ident.clone());
            } else {
                assert(segments.len() > 0 ==> segs[0] == segments@[0]@);
            }
            proof {
                assert(type_params@.to_set() =~= types0.union(names_in_type(ty@, ParamKind::Type)));
                assert(lifetime_params@.to_set() =~= lifetimes0.union(
                    names_in_type(ty@, ParamKind::Lifetime),
                ));
                assert(const_params@.to_set() =~= consts0.union(
                    names_in_type(ty@, ParamKind::Const),
                ));
            }
        },
        TypeExpr::Reference { lifetime, mutable, elem } => {
            if let Some(lt) = lifetime {
                lifetime_params.insert(lt.clone());
            }
            collect_generics(elem, type_params, lifetime_params, const_params);
            proof {
                assert(type_params@.to_set() =~= types0.union(names_in_type(ty@, ParamKind::Type)));
                assert(lifetime_params@.to_set() =~= lifetimes0.union(
                    names_in_type(ty@, ParamKind::Lifetime),
                ));
                assert(const_params@.to_set() =~= consts0.union(
                    names_in_type(ty@, ParamKind::Const),
                ));
            }
        },
        TypeExpr::Other { text } => {
            assert(type_params@.to_set() =~= types0.union(names_in_type(ty@, ParamKind::Type)));
            assert(lifetime_params@.to_set() =~= lifetimes0.union(
                names_in_type(ty@, ParamKind::Lifetime),
            ));
            assert(const_params@.to_set() =~= consts0.union(
                names_in_type(ty@, ParamKind::Const),
            ));
        },
    }
}

/// Whether `names` lists `set` in ascending order.
pub open spec fn lists(names: Seq<Seq<char>>, set: Set<Seq<char>>) -> bool {
    ascending(names) && names.to_set() == set
}

/// The members of `set` in ascending order.
pub open spec fn sorted_names(set: Set<Seq<char>>) -> Seq<Seq<char>> {
    choose|names: Seq<Seq<char>>| lists(names, set)
}

/// The parameters of kind `kind` with the given names.
pub open spec fn tagged(kind: ParamKind, names: Seq<Seq<char>>) -> Seq<GenericParamView> {
    Seq::new(names.len(), |i: int| GenericParamView { kind, name: names[i] })
}

/// At most one ascending sequence lists a set.
pub proof fn lemma_ascending_unique(s: Seq<Seq<char>>, t: Seq<Seq<char>>)
    requires
        ascending(s),
        ascending(t),
        s.to_set() == t.to_set(),
    ensures
        s == t,
    decreases s.len(),
{
    if s.len() == 0 {
        if t.len() > 0 {
            assert(t.to_set().contains(t[0]));
            assert(s.contains(t[0]));
        }
    } else {
        let x = s.last();
        assert(s.to_set().contains(x));
        assert(t.contains(x));
        let k = choose|k: int| 0 <= k < t.len() && t[k] == x;
        let y = t.last();
        assert(t.to_set().contains(y));
        assert(s.contains(y));
        let m = choose|m: int| 0 <= m < s.len() && s[m] == y;
        if k < t.len() - 1 {
            lemma_name_lt_irreflexive(x);
            if m < s.len() - 1 {
                lemma_name_lt_transitive(x, y, x);
            }
        }
        assert(x == y);
        let s0 = s.drop_last();
        let t0 = t.drop_last();
        assert forall|n: Seq<char>| s0.to_set().contains(n) <==> t0.to_set().contains(n) by {
            lemma_name_lt_irreflexive(x);
            if s0.contains(n) {
                let i = choose|i: int| 0 <= i < s0.len() && s0[i] == n;
                assert(s[i] == n);
                assert(name_lt(n, x));
                assert(t.to_set().contains(n));
                let j = choose|j: int| 0 <= j < t.len() && t[j] == n;
                assert(t0[j] == n);
            }
            if t0.contains(n) {
                let j = choose|j: int| 0 <= j < t0.len() && t0[j] == n;
                assert(t[j] == n);
                assert(name_lt(n, y));
                assert(s.to_set().contains(n));
                let i = choose|i: int| 0 <= i < s.len() && s[i] == n;
                assert(s0[i] == n);
            }
        }
        assert(s0.to_set() =~= t0.to_set());
        lemma_ascending_unique(s0, t0);
        assert(s =~= s0.push(x));
        assert(t =~= t0.push(y));
    }
}

/// An ascending sequence is the sorted form of the set it lists.
pub proof fn lemma_sorted_names(names: Seq<Seq<char>>)
    requires
        ascending(names),
    ensures
        sorted_names(names.to_set()) == names,
{
    assert(lists(names, names.to_set()));
    lemma_ascending_unique(sorted_names(names.to_set()), names);
}

fn push_tagged(params: &mut Vec<GenericParam>, kind: ParamKind, names: &NameSet)
    ensures
        Seq::new(final(params)@.len(), |i: int| final(params)@[i]@) == Seq::new(
            old(params)@.len(),
            |i: int| old(params)@[i]@,
        ) + tagged(kind, names@),
{
    let ghost before = Seq::new(params@.len(), |i: int| params@[i]@);
    let mut i: usize = 0;
    while i < names.names.len()
        invariant
            i <= names.names.len(),
            Seq::new(params@.len(), |i: int| params@[i]@) == before + tagged(
                kind,
                names@.take(i as int),
            ),
        decreases names.names.len() - i,
    {
        let ghost current = Seq::new(params@.len(), |i: int| params@[i]@);
        let param = GenericParam { kind, name: names.names[i].clone() };
        params.push(param);
        assert(Seq::new(params@.len(), |i: int| params@[i]@) =~= current.push(param@));
        assert(tagged(kind, names@.take(i + 1)) =~= tagged(kind, names@.take(i as int)).push(
            param@,
        ));
        i += 1;
    }
    assert(names@.take(i as int) =~= names@);
}

/// The parameters that a type may refer to: the lifetimes in ascending
/// order, then the types, then the constants, with no where clause.
pub open spec fn extracted(ty: TypeExprView) -> GenericsView {
    GenericsView {
        params: tagged(ParamKind::Lifetime, sorted_names(names_in_type(ty, ParamKind::Lifetime)))
            + tagged(ParamKind::Type, sorted_names(names_in_type(ty, ParamKind::Type))) + tagged(
            ParamKind::Const,
            sorted_names(names_in_type(ty, ParamKind::Const)),
        ),
        where_clause: Seq::empty(),
    }
}

/// Lists the parameters that `ty` may refer to.
pub fn extract_generics_from_type(ty: &TypeExpr) -> (r: Generics)
    ensures
        r@ == extracted(ty@),
{
    let mut type_params = NameSet::new();
    let mut lifetime_params = NameSet::new();
    let mut const_params = NameSet::new();
    collect_generics(ty, &mut type_params, &mut lifetime_params, &mut const_params);
    proof {
        assert(type_params@.to_set() =~= names_in_type(ty@, ParamKind::Type));
        assert(lifetime_params@.to_set() =~= names_in_type(ty@, ParamKind::Lifetime));
        assert(const_params@.to_set() =~= names_in_type(ty@, ParamKind::Const));
        lemma_sorted_names(type_params@);
        lemma_sorted_names(lifetime_params@);
        lemma_sorted_names(const_params@);
    }
    let mut generics = Generics::new();
    push_tagged(&mut generics.params, ParamKind::Lifetime, &lifetime_params);
    push_tagged(&mut generics.params, ParamKind::Type, &type_params);
    push_tagged(&mut generics.params, ParamKind::Const, &const_params);
    assert(generics@.where_clause =~= Seq::<WherePredicateView>::empty());
    assert(generics@.params =~= extracted(ty@).params);
    generics
}

} // verus!
