use state_validation::conversion::{ConversionSort, ConversionType, FieldDecl, RecordDecl};
use state_validation::error::GenerationError;
use state_validation::generics::{GenericParam, Generics, ParamKind, WherePredicate};
use state_validation::generator::create_original_conversion_combinations;
use state_validation::edges::{push_base_edges, push_order_edges, push_subset_edges, Edge};
use state_validation::synthesis::{counts_for, make_slots, register_choices, register_subsets};
use state_validation::registry::Registry;
use state_validation::registry::StructPlan;
use state_validation::type_expr::{GenericArgument, PathSegment, TypeExpr};
use state_validation::{state_filter_conversion, FilterError, Plan};

fn path(name: &str) -> TypeExpr {
    TypeExpr::Path { segments: vec![PathSegment { ident: name.to_string(), arguments: vec![] }] }
}

fn path_of(name: &str, arguments: Vec<GenericArgument>) -> TypeExpr {
    TypeExpr::Path { segments: vec![PathSegment { ident: name.to_string(), arguments }] }
}

fn field(name: &str, ty: TypeExpr, conversions: Vec<ConversionType>) -> FieldDecl {
    FieldDecl { name: name.to_string(), ty, conversions }
}

fn record(fields: Vec<FieldDecl>) -> RecordDecl {
    RecordDecl {
        name: "Input".to_string(),
        generics: Generics { params: vec![], where_clause: vec![] },
        fields,
        extra_fields: vec![],
    }
}

fn key(sort_number: usize, alternate: usize) -> ConversionSort {
    ConversionSort { sort_number, alternate }
}

fn user_with_username() -> RecordDecl {
    record(vec![
        field("user_id", path("UserID"), vec![ConversionType::Type(path("User"))]),
        field("username", path("String"), vec![]),
    ])
}

fn generate(record: &RecordDecl) -> Plan {
    match state_filter_conversion(record) {
        Ok(plan) => plan,
        Err(error) => panic!("refused: {}", error.message()),
    }
}

fn fields_of(plans: &Vec<StructPlan>) -> Vec<Vec<ConversionSort>> {
    plans.iter().map(|plan| plan.fields.clone()).collect()
}

fn shape(edge: &Edge) -> (usize, usize, Vec<ConversionSort>, Vec<ConversionSort>) {
    (edge.combined, edge.remainder, edge.current.clone(), edge.other.clone())
}

#[test]
fn one_combination_for_every_choice_of_types() {
    let plan = generate(&user_with_username());
    assert_eq!(
        fields_of(&plan.combinations.entries),
        vec![vec![key(0, 0), key(1, 0)], vec![key(0, 1), key(1, 0)]]
    );
}

#[test]
fn one_remainder_for_every_choice_over_every_subset() {
    let plan = generate(&user_with_username());
    assert_eq!(
        fields_of(&plan.remainders.entries),
        vec![
            vec![],
            vec![key(0, 0)],
            vec![key(0, 1)],
            vec![key(1, 0)],
            vec![key(0, 0), key(1, 0)],
            vec![key(0, 1), key(1, 0)],
        ]
    );
}

#[test]
fn edges_out_of_the_record_take_the_declared_types() {
    let plan = generate(&user_with_username());
    let edges: Vec<_> = plan.original.iter().map(shape).collect();
    assert_eq!(
        edges,
        vec![
            (0, 4, vec![], vec![key(0, 0), key(1, 0)]),
            (0, 3, vec![key(0, 0)], vec![key(1, 0)]),
            (0, 1, vec![key(1, 0)], vec![key(0, 0)]),
            (0, 0, vec![key(0, 0), key(1, 0)], vec![]),
            (0, 0, vec![key(1, 0), key(0, 0)], vec![]),
        ]
    );
}

#[test]
fn edges_out_of_every_combination() {
    let plan = generate(&user_with_username());
    let edges: Vec<_> = plan.edges.iter().map(shape).collect();
    assert_eq!(
        edges,
        vec![
            (0, 4, vec![], vec![key(0, 0), key(1, 0)]),
            (0, 3, vec![key(0, 0)], vec![key(1, 0)]),
            (0, 1, vec![key(1, 0)], vec![key(0, 0)]),
            (0, 0, vec![key(0, 0), key(1, 0)], vec![]),
            (0, 0, vec![key(1, 0), key(0, 0)], vec![]),
            (1, 5, vec![], vec![key(0, 1), key(1, 0)]),
            (1, 3, vec![key(0, 1)], vec![key(1, 0)]),
            (1, 2, vec![key(1, 0)], vec![key(0, 1)]),
            (1, 0, vec![key(0, 1), key(1, 0)], vec![]),
            (1, 0, vec![key(1, 0), key(0, 1)], vec![]),
        ]
    );
}

#[test]
fn orders_of_three_fields_come_in_the_order_of_the_fields() {
    let plan = generate(&record(vec![
        field("a", path("A"), vec![]),
        field("b", path("B"), vec![]),
        field("c", path("C"), vec![]),
    ]));
    let taken: Vec<Vec<usize>> = plan
        .original
        .iter()
        .map(|edge| edge.current.iter().map(|key| key.sort_number).collect())
        .collect();
    assert_eq!(
        taken,
        vec![
            vec![],
            vec![0],
            vec![1],
            vec![2],
            vec![0, 1],
            vec![1, 0],
            vec![0, 2],
            vec![2, 0],
            vec![1, 2],
            vec![2, 1],
            vec![0, 1, 2],
            vec![0, 2, 1],
            vec![1, 0, 2],
            vec![1, 2, 0],
            vec![2, 0, 1],
            vec![2, 1, 0],
        ]
    );
}

#[test]
fn edges_out_of_the_record_can_be_made_again_from_the_registries() {
    let plan = generate(&user_with_username());
    let mut again = Vec::new();
    create_original_conversion_combinations(&mut again, &plan.combinations, &plan.remainders, 2);
    let expected: Vec<_> = plan.original.iter().map(shape).collect();
    assert_eq!(again.iter().map(shape).collect::<Vec<_>>(), expected);
}

#[test]
fn edges_are_appended_to_those_that_are_there() {
    let plan = generate(&user_with_username());
    let base = vec![key(0, 1), key(1, 0)];
    let mut edges = Vec::new();
    push_order_edges(&mut edges, &plan.combinations, &plan.remainders, &base, &vec![vec![1, 0]]);
    assert_eq!(
        edges.iter().map(shape).collect::<Vec<_>>(),
        vec![(1, 0, vec![key(1, 0), key(0, 1)], vec![])]
    );
    push_subset_edges(&mut edges, &plan.combinations, &plan.remainders, &base, &vec![vec![0], vec![]]);
    assert_eq!(
        edges.iter().map(shape).collect::<Vec<_>>(),
        vec![
            (1, 0, vec![key(1, 0), key(0, 1)], vec![]),
            (1, 3, vec![key(0, 1)], vec![key(1, 0)]),
            (1, 5, vec![], vec![key(0, 1), key(1, 0)]),
        ]
    );
    let mut all = Vec::new();
    push_base_edges(&mut all, &plan.combinations, &plan.remainders, &base);
    let expected: Vec<_> = plan.edges[5..].iter().map(shape).collect();
    assert_eq!(all.iter().map(shape).collect::<Vec<_>>(), expected);
}

#[test]
fn records_are_registered_for_the_choices_given() {
    let empty = || Generics { params: vec![], where_clause: vec![] };
    let table = vec![vec![empty(), empty()], vec![empty()], vec![empty(), empty(), empty()]];
    assert_eq!(counts_for(&table, &vec![0, 2]), vec![2, 3]);
    assert_eq!(make_slots(&vec![0, 2], &vec![1, 2]), vec![key(0, 1), key(2, 2)]);
    let mut registry = Registry::new();
    register_choices(&mut registry, &table, &vec![], &vec![1], &vec![vec![0]]);
    register_choices(&mut registry, &table, &vec![], &vec![0, 2], &vec![
        vec![0, 0], vec![0, 1], vec![0, 2], vec![1, 0], vec![1, 1], vec![1, 2],
    ]);
    assert_eq!(
        fields_of(&registry.entries),
        vec![
            vec![key(1, 0)],
            vec![key(0, 0), key(2, 0)],
            vec![key(0, 0), key(2, 1)],
            vec![key(0, 0), key(2, 2)],
            vec![key(0, 1), key(2, 0)],
            vec![key(0, 1), key(2, 1)],
            vec![key(0, 1), key(2, 2)],
        ]
    );
    let mut remainders = Registry::new();
    let two = vec![vec![empty(), empty()], vec![empty()]];
    register_subsets(&mut remainders, &two, &vec![], &vec![
        vec![], vec![0], vec![1], vec![0, 1],
    ]);
    assert_eq!(
        fields_of(&remainders.entries),
        vec![
            vec![],
            vec![key(0, 0)],
            vec![key(0, 1)],
            vec![key(1, 0)],
            vec![key(0, 0), key(1, 0)],
            vec![key(0, 1), key(1, 0)],
        ]
    );
}

#[test]
fn plan_names_the_fields() {
    let plan = generate(&user_with_username());
    assert_eq!(plan.field_names, vec!["user_id".to_string(), "username".to_string()]);
}

#[test]
fn record_without_fields_has_one_empty_combination() {
    let plan = generate(&record(vec![]));
    assert_eq!(fields_of(&plan.combinations.entries), vec![Vec::<ConversionSort>::new()]);
    assert_eq!(fields_of(&plan.remainders.entries), vec![Vec::<ConversionSort>::new()]);
    assert_eq!(plan.original.len(), 1);
    assert_eq!(plan.edges.len(), 1);
}

#[test]
fn three_fields_give_sixteen_edges_per_combination() {
    let plan = generate(&record(vec![
        field("a", path("A"), vec![ConversionType::Type(path("A2"))]),
        field("b", path("B"), vec![ConversionType::Type(path("B2")), ConversionType::Type(path("B3"))]),
        field("c", path("C"), vec![]),
    ]));
    // 2 * 3 * 1 choices of types over all the fields.
    assert_eq!(plan.combinations.entries.len(), 6);
    // Over the subsets {}, {a}, {b}, {c}, {a,b}, {a,c}, {b,c}, {a,b,c}:
    // 1 + 2 + 3 + 1 + 6 + 2 + 3 + 6 choices.
    assert_eq!(plan.remainders.entries.len(), 24);
    // 1 + 3 * 1 + 3 * 2 + 1 * 6 orders of subsets.
    assert_eq!(plan.original.len(), 16);
    assert_eq!(plan.edges.len(), 6 * 16);
}

#[test]
fn every_edge_names_the_records_it_joins() {
    let plan = generate(&record(vec![
        field("a", path("A"), vec![ConversionType::Type(path("A2"))]),
        field("b", path("B"), vec![ConversionType::Type(path("B2"))]),
        field("c", path("C"), vec![]),
    ]));
    for edge in plan.original.iter().chain(plan.edges.iter()) {
        let mut all: Vec<ConversionSort> =
            edge.current.iter().chain(edge.other.iter()).cloned().collect();
        all.sort_by_key(|key| key.sort_number);
        assert_eq!(plan.combinations.entries[edge.combined].fields, all);
        assert_eq!(plan.remainders.entries[edge.remainder].fields, edge.other);
    }
}

#[test]
fn every_edge_parts_the_field_names() {
    let plan = generate(&record(vec![
        field("a", path("A"), vec![ConversionType::Type(path("A2"))]),
        field("b", path("B"), vec![]),
        field("c", path("C"), vec![ConversionType::Type(path("C2"))]),
    ]));
    for edge in plan.original.iter().chain(plan.edges.iter()) {
        let current: Vec<&String> =
            edge.current.iter().map(|key| &plan.field_names[key.sort_number]).collect();
        let other: Vec<&String> =
            edge.other.iter().map(|key| &plan.field_names[key.sort_number]).collect();
        for name in current.iter() {
            assert!(!other.contains(name));
        }
        for name in plan.field_names.iter() {
            assert!(current.contains(&name) || other.contains(&name));
        }
        assert_eq!(current.len() + other.len(), plan.field_names.len());
    }
}

#[test]
fn splitting_and_combining_gives_the_record_back() {
    let plan = generate(&record(vec![
        field("a", path("A"), vec![ConversionType::Type(path("A2"))]),
        field("b", path("B"), vec![]),
        field("c", path("C"), vec![]),
    ]));
    for edge in plan.original.iter().chain(plan.edges.iter()) {
        let value = vec!["first".to_string(), "second".to_string(), "third".to_string()];
        let (taken, remainder) = edge.split_take(value.clone());
        assert_eq!(taken.len(), edge.current.len());
        assert_eq!(remainder.len(), edge.other.len());
        assert_eq!(edge.combine(remainder, taken), value);
    }
}

#[test]
fn split_takes_the_fields_in_the_order_asked() {
    let edge = Edge { combined: 0, remainder: 0, current: vec![key(2, 0), key(0, 0)], other: vec![key(1, 0)] };
    let (taken, remainder) = edge.split_take(vec![10, 20, 30]);
    assert_eq!(taken, vec![30, 10]);
    assert_eq!(remainder, vec![20]);
    assert_eq!(edge.combine(vec![21], vec![31, 11]), vec![11, 21, 31]);
}

#[test]
fn type_declared_for_the_whole_record_adds_a_field() {
    let mut declared = user_with_username();
    declared.extra_fields.push(path("SessionToken"));
    let plan = generate(&declared);
    assert_eq!(
        plan.field_names,
        vec!["user_id".to_string(), "username".to_string(), "session_token".to_string()]
    );
    assert_eq!(
        fields_of(&plan.combinations.entries),
        vec![
            vec![key(0, 0), key(1, 0), key(2, 0)],
            vec![key(0, 1), key(1, 0), key(2, 0)],
        ]
    );
    assert_eq!(plan.remainders.entries.len(), 12);
    assert_eq!(plan.original.len(), 16);
}

#[test]
fn type_that_is_no_path_gives_no_field_name() {
    let mut declared = user_with_username();
    declared.extra_fields.push(path("Token"));
    declared.extra_fields.push(TypeExpr::Other { text: "(u8, u8)".to_string() });
    match state_filter_conversion(&declared) {
        Err(error) => assert_eq!(error, GenerationError::UnnamedExtraField { extra: 1 }),
        Ok(_) => panic!("a type without a name was accepted"),
    }
}

#[test]
fn two_fields_of_one_name_are_refused() {
    let mut declared = user_with_username();
    declared.extra_fields.push(path("UserId"));
    match state_filter_conversion(&declared) {
        Err(error) => assert_eq!(error, GenerationError::DuplicateField { first: 0, second: 2 }),
        Ok(_) => panic!("two fields of one name were accepted"),
    }
}

#[test]
fn two_fields_of_one_type_are_refused() {
    let declared = record(vec![
        field("x", path("i32"), vec![]),
        field("y", path("u8"), vec![ConversionType::Type(path("i32"))]),
    ]);
    match state_filter_conversion(&declared) {
        Err(error) => assert_eq!(
            error,
            GenerationError::AmbiguousConversion { one: key(0, 0), other: key(1, 1) }
        ),
        Ok(_) => panic!("an ambiguous record was accepted"),
    }
}

#[test]
fn conversion_to_the_declared_type_is_refused() {
    let declared = record(vec![field("x", path("A"), vec![ConversionType::Type(path("A"))])]);
    match state_filter_conversion(&declared) {
        Err(error) => assert_eq!(
            error,
            GenerationError::AmbiguousConversion { one: key(0, 0), other: key(0, 1) }
        ),
        Ok(_) => panic!("an ambiguous record was accepted"),
    }
}

fn wrapper_of_t() -> ConversionType {
    ConversionType::Generic {
        generic_ident: vec!["T".to_string()],
        path: path_of("Wrapper", vec![GenericArgument::Type(path("T"))]),
    }
}

#[test]
fn generic_conversion_brings_its_parameter() {
    let mut declared = record(vec![
        field("inner", path("Plain"), vec![wrapper_of_t()]),
        field("count", path("usize"), vec![]),
    ]);
    declared.generics.params.push(GenericParam { kind: ParamKind::Type, name: "T".to_string() });
    declared.generics.where_clause.push(WherePredicate {
        param: "T".to_string(),
        bounds: "Clone".to_string(),
    });
    let plan = generate(&declared);
    // The combination that takes `inner` as `Wrapper<T>` declares `T`, with its bound.
    let wrapped = &plan.combinations.entries[1];
    assert_eq!(wrapped.fields, vec![key(0, 1), key(1, 0)]);
    assert_eq!(wrapped.generics.params.len(), 1);
    assert!(wrapped.generics.params[0].kind == ParamKind::Type);
    assert_eq!(wrapped.generics.params[0].name, "T");
    assert_eq!(wrapped.generics.where_clause.len(), 1);
    assert_eq!(wrapped.generics.where_clause[0].param, "T");
    assert_eq!(wrapped.generics.where_clause[0].bounds, "Clone");
    assert!(declared.slot_type(key(0, 1)).same(&path_of(
        "Wrapper",
        vec![GenericArgument::Type(path("T"))]
    )));
    // The combination that takes `inner` as `Plain` declares nothing.
    let plain = &plan.combinations.entries[0];
    assert_eq!(plain.fields, vec![key(0, 0), key(1, 0)]);
    assert!(plain.generics.params.is_empty());
    assert!(plain.generics.where_clause.is_empty());
    // A remainder declares `T` only where it holds `inner` as `Wrapper<T>`.
    for remainder in plan.remainders.entries.iter() {
        let carries = remainder.fields.contains(&key(0, 1));
        assert_eq!(remainder.generics.params.len(), if carries { 1 } else { 0 });
    }
}

#[test]
fn generic_conversion_of_an_undeclared_parameter_is_refused() {
    let declared = record(vec![
        field("count", path("usize"), vec![]),
        field("inner", path("Plain"), vec![ConversionType::Type(path("Other")), wrapper_of_t()]),
    ]);
    match state_filter_conversion(&declared) {
        Err(error) => assert_eq!(
            error,
            GenerationError::UnresolvedParameter { field: 1, conversion: 1, ident: 0 }
        ),
        Ok(_) => panic!("an undeclared parameter was accepted"),
    }
}

#[test]
fn lifetime_parameter_must_be_a_type_parameter_to_be_named() {
    let mut declared = record(vec![field("inner", path("Plain"), vec![wrapper_of_t()])]);
    declared.generics.params.push(GenericParam { kind: ParamKind::Lifetime, name: "T".to_string() });
    match state_filter_conversion(&declared) {
        Err(error) => assert_eq!(
            error,
            GenerationError::UnresolvedParameter { field: 0, conversion: 0, ident: 0 }
        ),
        Ok(_) => panic!("a lifetime was accepted as a type parameter"),
    }
}

#[test]
fn lifetimes_of_fields_are_merged_without_repeats() {
    let borrowed = |name: &str| TypeExpr::Reference {
        lifetime: Some(name.to_string()),
        mutable: false,
        elem: Box::new(path("str")),
    };
    let mut declared = record(vec![
        field("first", borrowed("b"), vec![]),
        field("second", path_of("Pair", vec![
            GenericArgument::Lifetime("a".to_string()),
            GenericArgument::Lifetime("b".to_string()),
            GenericArgument::Lifetime("static".to_string()),
        ]), vec![]),
    ]);
    for name in ["a", "b", "c"] {
        declared.generics.params.push(GenericParam { kind: ParamKind::Lifetime, name: name.to_string() });
    }
    let plan = generate(&declared);
    let names: Vec<&str> = plan.combinations.entries[0]
        .generics
        .params
        .iter()
        .map(|param| param.name.as_str())
        .collect();
    assert_eq!(names, vec!["b", "a"]);
}

#[test]
fn concrete_type_that_names_a_parameter_brings_it() {
    let mut declared = record(vec![
        field("items", path_of("Vec", vec![GenericArgument::Type(path("T"))]), vec![]),
        field("count", path("usize"), vec![ConversionType::Type(path("U"))]),
    ]);
    for name in ["T", "U", "V"] {
        declared.generics.params.push(GenericParam { kind: ParamKind::Type, name: name.to_string() });
    }
    declared.generics.where_clause.push(WherePredicate {
        param: "U".to_string(),
        bounds: "Copy".to_string(),
    });
    let plan = generate(&declared);
    let names = |plan: &StructPlan| -> Vec<String> {
        plan.generics.params.iter().map(|param| param.name.clone()).collect()
    };
    assert_eq!(names(&plan.combinations.entries[0]), vec!["T"]);
    assert!(plan.combinations.entries[0].generics.where_clause.is_empty());
    assert_eq!(names(&plan.combinations.entries[1]), vec!["T", "U"]);
    assert_eq!(plan.combinations.entries[1].generics.where_clause.len(), 1);
    // The remainder that holds `count` alone, as it is declared, names nothing.
    assert_eq!(plan.remainders.entries[2].fields, vec![key(1, 0)]);
    assert!(names(&plan.remainders.entries[2]).is_empty());
    assert_eq!(plan.remainders.entries[3].fields, vec![key(1, 1)]);
    assert_eq!(names(&plan.remainders.entries[3]), vec!["U"]);
}

#[test]
fn defects_read_as_text() {
    assert_eq!(
        GenerationError::DuplicateField { first: 0, second: 1 }.message(),
        "two fields have the same name"
    );
    assert_eq!(
        GenerationError::MissingRemainder.message(),
        "no remainder is registered for these fields"
    );
}
