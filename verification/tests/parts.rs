use state_validation::casing::snake_case;
use state_validation::conversion::{ConversionSort, ConversionType};
use state_validation::error::GenerationError;
use state_validation::generics::{
    collect_generics, declares_name, extract_generics_from_type, merge_generics, GenericParam,
    Generics, ParamKind, WherePredicate,
};
use state_validation::names::{name_before, NameSet};
use state_validation::edges::{make_edge, split_fields};
use state_validation::plan::{constrain, struct_plan};
use state_validation::record::{
    check_names, conversion_generics_of, extra_field_name, referenced_generics,
};
use state_validation::registry::{same_key, Registry, StructPlan};
use state_validation::syntax::ConversionSyntax;
use state_validation::type_expr::{GenericArgument, PathSegment, TypeExpr};

fn path(name: &str) -> TypeExpr {
    TypeExpr::Path { segments: vec![PathSegment { ident: name.to_string(), arguments: vec![] }] }
}

fn path_of(name: &str, arguments: Vec<GenericArgument>) -> TypeExpr {
    TypeExpr::Path { segments: vec![PathSegment { ident: name.to_string(), arguments }] }
}

fn reference(lifetime: Option<&str>, mutable: bool, elem: TypeExpr) -> TypeExpr {
    TypeExpr::Reference {
        lifetime: lifetime.map(|name| name.to_string()),
        mutable,
        elem: Box::new(elem),
    }
}

fn param(kind: ParamKind, name: &str) -> GenericParam {
    GenericParam { kind, name: name.to_string() }
}

fn listed(generics: &Generics) -> Vec<(ParamKind, String)> {
    generics.params.iter().map(|param| (param.kind, param.name.clone())).collect()
}

fn key(sort_number: usize, alternate: usize) -> ConversionSort {
    ConversionSort { sort_number, alternate }
}

fn plan(fields: Vec<ConversionSort>) -> StructPlan {
    StructPlan { fields, generics: Generics::new() }
}

#[test]
fn snake_case_puts_an_underscore_before_a_word() {
    assert_eq!(snake_case("UserID"), "user_id");
    assert_eq!(snake_case("SessionToken"), "session_token");
    assert_eq!(snake_case("Point2D"), "point2_d");
}

#[test]
fn snake_case_keeps_what_is_lower_case() {
    assert_eq!(snake_case("user_name"), "user_name");
    assert_eq!(snake_case("x"), "x");
    assert_eq!(snake_case(""), "");
}

#[test]
fn snake_case_of_upper_case_runs() {
    assert_eq!(snake_case("HTTPServer"), "httpserver");
    assert_eq!(snake_case("User_Name"), "user_name");
    assert_eq!(snake_case("A"), "a");
}

#[test]
fn extra_field_is_named_after_the_last_segment() {
    let nested = TypeExpr::Path {
        segments: vec![
            PathSegment { ident: "auth".to_string(), arguments: vec![] },
            PathSegment { ident: "ApiKey".to_string(), arguments: vec![] },
        ],
    };
    assert_eq!(extra_field_name(&nested), Some("api_key".to_string()));
    assert_eq!(extra_field_name(&TypeExpr::Path { segments: vec![] }), None);
    assert_eq!(extra_field_name(&reference(None, false, path("Key"))), None);
}

#[test]
fn names_are_ordered_by_their_bytes() {
    let before = |a: &str, b: &str| name_before(&a.to_string(), &b.to_string());
    assert!(before("a", "b"));
    assert!(!before("b", "a"));
    assert!(!before("a", "a"));
    assert!(before("", "a"));
    assert!(before("ab", "abc"));
    assert!(before("Z", "a"));
    assert!(before("a", "é"));
}

#[test]
fn name_set_keeps_its_names_in_order_and_once() {
    let mut set = NameSet::new();
    for name in ["m", "b", "z", "b", "a", "m"] {
        set.insert(name.to_string());
    }
    assert_eq!(set.names, vec!["a", "b", "m", "z"]);
}

#[test]
fn same_type_is_the_same_writing() {
    let list = |inner: &str| path_of("Vec", vec![GenericArgument::Type(path(inner))]);
    assert!(list("u8").same(&list("u8")));
    assert!(!list("u8").same(&list("u16")));
    assert!(!list("u8").same(&path("Vec")));
    assert!(reference(Some("a"), false, path("T")).same(&reference(Some("a"), false, path("T"))));
    assert!(!reference(Some("a"), false, path("T")).same(&reference(Some("a"), true, path("T"))));
    assert!(!reference(Some("a"), false, path("T")).same(&reference(None, false, path("T"))));
    assert!(!path("T").same(&TypeExpr::Other { text: "T".to_string() }));
    assert!(!path_of("A", vec![GenericArgument::Lifetime("x".to_string())])
        .same(&path_of("A", vec![GenericArgument::Const("x".to_string())])));
}

#[test]
fn extract_lists_lifetimes_then_constants_in_order() {
    let ty = path_of(
        "Grid",
        vec![
            GenericArgument::Const("WIDTH".to_string()),
            GenericArgument::Lifetime("b".to_string()),
            GenericArgument::Type(reference(Some("a"), false, path_of(
                "Row",
                vec![GenericArgument::Const("HEIGHT".to_string()), GenericArgument::Lifetime("b".to_string())],
            ))),
            GenericArgument::Other("{ 1 + 1 }".to_string()),
        ],
    );
    let generics = extract_generics_from_type(&ty);
    assert_eq!(
        listed(&generics),
        vec![
            (ParamKind::Lifetime, "a".to_string()),
            (ParamKind::Lifetime, "b".to_string()),
            (ParamKind::Const, "HEIGHT".to_string()),
            (ParamKind::Const, "WIDTH".to_string()),
        ]
    );
    assert!(generics.where_clause.is_empty());
}

#[test]
fn extract_lists_the_names_that_open_a_path() {
    let map = path_of(
        "Map",
        vec![
            GenericArgument::Type(path("K")),
            GenericArgument::Type(TypeExpr::Path {
                segments: vec![
                    PathSegment { ident: "T".to_string(), arguments: vec![] },
                    PathSegment { ident: "Item".to_string(), arguments: vec![] },
                ],
            }),
            GenericArgument::Type(reference(Some("a"), false, path("K"))),
            GenericArgument::Const("N".to_string()),
        ],
    );
    assert_eq!(
        listed(&extract_generics_from_type(&map)),
        vec![
            (ParamKind::Lifetime, "a".to_string()),
            (ParamKind::Type, "K".to_string()),
            (ParamKind::Type, "T".to_string()),
            (ParamKind::Const, "N".to_string()),
        ]
    );
    assert_eq!(
        listed(&extract_generics_from_type(&path("String"))),
        vec![(ParamKind::Type, "String".to_string())]
    );
    assert!(extract_generics_from_type(&TypeExpr::Other { text: "[T; N]".to_string() })
        .params
        .is_empty());
    assert!(extract_generics_from_type(&TypeExpr::Path { segments: vec![] }).params.is_empty());
}

#[test]
fn referenced_keeps_what_the_record_declares() {
    let declared = Generics {
        params: vec![
            param(ParamKind::Lifetime, "a"),
            param(ParamKind::Type, "T"),
            param(ParamKind::Const, "N"),
            param(ParamKind::Type, "Unused"),
        ],
        where_clause: vec![],
    };
    let ty = reference(
        Some("static"),
        false,
        path_of(
            "Buf",
            vec![
                GenericArgument::Lifetime("a".to_string()),
                GenericArgument::Type(path("T")),
                GenericArgument::Type(path("String")),
                GenericArgument::Type(path("N")),
                GenericArgument::Const("N".to_string()),
                GenericArgument::Const("M".to_string()),
            ],
        ),
    );
    assert_eq!(
        listed(&referenced_generics(&declared, &ty)),
        vec![
            (ParamKind::Lifetime, "a".to_string()),
            (ParamKind::Type, "T".to_string()),
            (ParamKind::Const, "N".to_string()),
        ]
    );
    assert!(referenced_generics(&Generics::new(), &ty).params.is_empty());
}

#[test]
fn collect_adds_to_the_sets_it_is_given() {
    let mut types = NameSet::new();
    let mut lifetimes = NameSet::new();
    let mut consts = NameSet::new();
    types.insert("T".to_string());
    lifetimes.insert("z".to_string());
    collect_generics(
        &reference(
            Some("a"),
            true,
            path_of(
                "Buf",
                vec![GenericArgument::Const("N".to_string()), GenericArgument::Type(path("Item"))],
            ),
        ),
        &mut types,
        &mut lifetimes,
        &mut consts,
    );
    assert_eq!(types.names, vec!["Item", "T"]);
    assert_eq!(lifetimes.names, vec!["a", "z"]);
    assert_eq!(consts.names, vec!["N"]);
}

#[test]
fn merge_keeps_the_first_of_a_name() {
    let a = Generics {
        params: vec![param(ParamKind::Lifetime, "a"), param(ParamKind::Type, "T")],
        where_clause: vec![WherePredicate { param: "T".to_string(), bounds: "Clone".to_string() }],
    };
    let b = Generics {
        params: vec![
            param(ParamKind::Type, "U"),
            param(ParamKind::Const, "T"),
            param(ParamKind::Type, "U"),
            param(ParamKind::Type, "a"),
            param(ParamKind::Const, "N"),
        ],
        where_clause: vec![WherePredicate { param: "U".to_string(), bounds: "Copy".to_string() }],
    };
    let merged = merge_generics(a, &b);
    assert_eq!(
        listed(&merged),
        vec![
            (ParamKind::Lifetime, "a".to_string()),
            (ParamKind::Type, "T".to_string()),
            (ParamKind::Type, "U".to_string()),
            (ParamKind::Const, "N".to_string()),
        ]
    );
    let bounds: Vec<(&str, &str)> = merged
        .where_clause
        .iter()
        .map(|bound| (bound.param.as_str(), bound.bounds.as_str()))
        .collect();
    assert_eq!(bounds, vec![("T", "Clone"), ("U", "Copy")]);
}

#[test]
fn merge_with_nothing_changes_nothing() {
    let a = Generics { params: vec![param(ParamKind::Type, "T")], where_clause: vec![] };
    let merged = merge_generics(a, &Generics::new());
    assert_eq!(listed(&merged), vec![(ParamKind::Type, "T".to_string())]);
    let merged = merge_generics(Generics::new(), &merged);
    assert_eq!(listed(&merged), vec![(ParamKind::Type, "T".to_string())]);
}

#[test]
fn declares_name_looks_at_the_name_alone() {
    let params = vec![param(ParamKind::Lifetime, "a"), param(ParamKind::Type, "T")];
    assert!(declares_name(&params, &"a".to_string()));
    assert!(declares_name(&params, &"T".to_string()));
    assert!(!declares_name(&params, &"U".to_string()));
}

#[test]
fn constrain_adds_the_bounds_of_declared_parameters() {
    let generics = Generics { params: vec![param(ParamKind::Type, "T")], where_clause: vec![] };
    let bounds = vec![
        WherePredicate { param: "U".to_string(), bounds: "Copy".to_string() },
        WherePredicate { param: "T".to_string(), bounds: "Clone".to_string() },
        WherePredicate { param: "T".to_string(), bounds: "Send".to_string() },
    ];
    let constrained = constrain(generics, &bounds);
    let kept: Vec<&str> = constrained.where_clause.iter().map(|bound| bound.bounds.as_str()).collect();
    assert_eq!(kept, vec!["Clone", "Send"]);
    assert_eq!(listed(&constrained), vec![(ParamKind::Type, "T".to_string())]);
}

#[test]
fn struct_plan_merges_the_generics_of_its_fields() {
    let table = vec![
        vec![
            Generics { params: vec![param(ParamKind::Lifetime, "a")], where_clause: vec![] },
            Generics { params: vec![param(ParamKind::Type, "T")], where_clause: vec![] },
        ],
        vec![Generics {
            params: vec![param(ParamKind::Type, "T"), param(ParamKind::Const, "N")],
            where_clause: vec![],
        }],
    ];
    let made = struct_plan(&table, &vec![], vec![key(0, 1), key(1, 0)]);
    assert_eq!(made.fields, vec![key(0, 1), key(1, 0)]);
    assert_eq!(
        listed(&made.generics),
        vec![(ParamKind::Type, "T".to_string()), (ParamKind::Const, "N".to_string())]
    );
    let made = struct_plan(&table, &vec![], vec![key(0, 0)]);
    assert_eq!(listed(&made.generics), vec![(ParamKind::Lifetime, "a".to_string())]);
}

#[test]
fn conversion_generics_name_declared_type_parameters() {
    let declared = Generics {
        params: vec![
            param(ParamKind::Lifetime, "a"),
            param(ParamKind::Type, "T"),
            param(ParamKind::Type, "U"),
        ],
        where_clause: vec![],
    };
    let generic = ConversionType::Generic {
        generic_ident: vec!["U".to_string(), "T".to_string()],
        path: path_of(
            "Both",
            vec![
                GenericArgument::Lifetime("a".to_string()),
                GenericArgument::Type(path("T")),
                GenericArgument::Type(path("U")),
            ],
        ),
    };
    match conversion_generics_of(&declared, &generic) {
        Ok(generics) => assert_eq!(
            listed(&generics),
            vec![
                (ParamKind::Type, "U".to_string()),
                (ParamKind::Type, "T".to_string()),
                (ParamKind::Lifetime, "a".to_string()),
            ]
        ),
        Err(_) => panic!("declared parameters were refused"),
    }
    let unknown = ConversionType::Generic {
        generic_ident: vec!["T".to_string(), "V".to_string()],
        path: path("Both"),
    };
    assert!(matches!(conversion_generics_of(&declared, &unknown), Err(1)));
    let concrete = ConversionType::Type(path_of(
        "X",
        vec![GenericArgument::Lifetime("a".to_string()), GenericArgument::Lifetime("b".to_string())],
    ));
    match conversion_generics_of(&declared, &concrete) {
        Ok(generics) => assert_eq!(listed(&generics), vec![(ParamKind::Lifetime, "a".to_string())]),
        Err(_) => panic!("a concrete type was refused"),
    }
}

#[test]
fn conversion_stands_for_its_type_or_its_path() {
    assert!(ConversionType::Type(path("User")).ty().same(&path("User")));
    let generic = ConversionType::Generic { generic_ident: vec!["T".to_string()], path: path("W") };
    assert!(generic.ty().same(&path("W")));
}

#[test]
fn check_names_reports_the_first_repeat() {
    let names = |list: &[&str]| list.iter().map(|name| name.to_string()).collect::<Vec<_>>();
    assert_eq!(check_names(&names(&["a", "b", "c"])), Ok(()));
    assert_eq!(
        check_names(&names(&["a", "b", "c", "b", "a"])),
        Err(GenerationError::DuplicateField { first: 1, second: 3 })
    );
    assert_eq!(
        check_names(&names(&["a", "a", "a"])),
        Err(GenerationError::DuplicateField { first: 0, second: 1 })
    );
}

#[test]
fn registry_enters_a_key_once() {
    let mut registry = Registry::new();
    assert_eq!(registry.register(plan(vec![key(0, 0)])), Ok(0));
    assert_eq!(registry.register(plan(vec![key(0, 1)])), Ok(1));
    assert_eq!(registry.register(plan(vec![])), Ok(2));
    assert_eq!(registry.register(plan(vec![key(0, 1)])), Err(1));
    assert_eq!(registry.entries.len(), 3);
    assert_eq!(registry.lookup(&vec![key(0, 1)]), Some(1));
    assert_eq!(registry.lookup(&vec![]), Some(2));
    assert_eq!(registry.lookup(&vec![key(1, 0)]), None);
    assert_eq!(registry.lookup(&vec![key(0, 0), key(0, 1)]), None);
}

#[test]
fn same_key_compares_field_and_type() {
    assert!(same_key(&vec![key(0, 1), key(2, 0)], &vec![key(0, 1), key(2, 0)]));
    assert!(!same_key(&vec![key(0, 1), key(2, 0)], &vec![key(0, 1), key(2, 1)]));
    assert!(!same_key(&vec![key(0, 1)], &vec![key(0, 1), key(2, 0)]));
    assert!(same_key(&vec![], &vec![]));
}

#[test]
fn split_fields_keeps_the_order_asked_and_the_order_of_the_rest() {
    let base = vec![key(0, 1), key(1, 0), key(2, 2), key(3, 0)];
    let (current, other) = split_fields(&base, &vec![2, 0]);
    assert_eq!(current, vec![key(2, 2), key(0, 1)]);
    assert_eq!(other, vec![key(1, 0), key(3, 0)]);
    let (current, other) = split_fields(&base, &vec![]);
    assert_eq!(current, vec![]);
    assert_eq!(other, base);
}

#[test]
fn make_edge_finds_both_records_under_sorted_keys() {
    let base = vec![key(0, 1), key(1, 0), key(2, 0)];
    let mut combinations = Registry::new();
    assert_eq!(combinations.register(plan(vec![key(0, 0), key(1, 0), key(2, 0)])), Ok(0));
    assert_eq!(combinations.register(plan(base.clone())), Ok(1));
    let mut remainders = Registry::new();
    assert_eq!(remainders.register(plan(vec![key(1, 0)])), Ok(0));
    assert_eq!(remainders.register(plan(vec![key(0, 1)])), Ok(1));
    match make_edge(&combinations, &remainders, &base, &vec![2, 0]) {
        Ok(edge) => {
            assert_eq!(edge.combined, 1);
            assert_eq!(edge.remainder, 0);
            assert_eq!(edge.current, vec![key(2, 0), key(0, 1)]);
            assert_eq!(edge.other, vec![key(1, 0)]);
        }
        Err(_) => panic!("registered records were not found"),
    }
}

#[test]
fn make_edge_reports_what_is_not_registered() {
    let base = vec![key(0, 0), key(1, 0)];
    let empty = Registry::new();
    assert!(matches!(
        make_edge(&empty, &empty, &base, &vec![0]),
        Err(GenerationError::MissingCombination)
    ));
    let mut combinations = Registry::new();
    assert_eq!(combinations.register(plan(base.clone())), Ok(0));
    assert!(matches!(
        make_edge(&combinations, &empty, &base, &vec![0]),
        Err(GenerationError::MissingRemainder)
    ));
}

fn parsed(text: &str) -> Option<(Vec<String>, String)> {
    match ConversionSyntax::parse(text) {
        ConversionSyntax::Generic { generic_ident, path } => Some((generic_ident, path)),
        ConversionSyntax::Type { text: read } => {
            assert_eq!(read, text);
            None
        }
    }
}

fn generic(idents: &[&str], path: &str) -> Option<(Vec<String>, String)> {
    Some((idents.iter().map(|ident| ident.to_string()).collect(), path.to_string()))
}

#[test]
fn parse_tells_a_generic_conversion_by_its_equals_sign() {
    assert_eq!(parsed("T = Wrapper<T>"), generic(&["T"], " Wrapper<T>"));
    assert_eq!(parsed("  Item_2=Vec<Item_2>"), generic(&["Item_2"], "Vec<Item_2>"));
    assert_eq!(parsed("T =="), generic(&["T"], "="));
}

#[test]
fn parse_reads_a_list_of_parameters() {
    assert_eq!(parsed("K, V = Map<K, V>"), generic(&["K", "V"], " Map<K, V>"));
    assert_eq!(parsed("<K, V> = Map<K, V>"), generic(&["K", "V"], " Map<K, V>"));
    assert_eq!(parsed("< A ,B,  C >=X"), generic(&["A", "B", "C"], "X"));
    assert_eq!(parsed("<T>=W<T>"), generic(&["T"], "W<T>"));
}

#[test]
fn parse_reads_anything_else_as_a_type() {
    for text in [
        "User",
        "Vec<T>",
        "&'a str",
        "",
        "  ",
        "2 = x",
        "a::B = C",
        "Map<K = V>",
        "<T as Trait>::Item",
        "<K, V = Map",
        "K, = Map",
        "K, 2 = Map",
        "K V = Map",
        "<> = Map",
    ] {
        assert_eq!(parsed(text), None);
    }
}
