use pgx_entity_graph::maybe_variadic_type::{
    path_is_variadic, MaybeVariadicType, MaybeVariadicTypeList, SourceType, TypeExpr, ValueShape,
};

fn plain(source: &str) -> SourceType {
    SourceType::Plain { source: source.to_string() }
}

fn invocation(path: &[&str], tokens: &str) -> SourceType {
    SourceType::Macro {
        path: path.iter().map(|s| s.to_string()).collect(),
        tokens: tokens.to_string(),
        source: format!("{} ! ({})", path.join(" :: "), tokens),
    }
}

fn source_of(ty: &SourceType) -> String {
    ty.source().clone()
}

fn is_scalar_of(shape: &ValueShape, expected: &str) -> bool {
    matches!(shape, ValueShape::Scalar { ty } if ty == expected)
}

fn is_variadic_of(shape: &ValueShape, expected: &str) -> bool {
    matches!(shape, ValueShape::Variadic { ty, .. } if ty == expected)
}

#[test]
fn only_the_two_variadic_paths_are_variadic() {
    let path = |segments: &[&str]| -> Vec<String> { segments.iter().map(|s| s.to_string()).collect() };
    assert!(path_is_variadic(&path(&["variadic"])));
    assert!(path_is_variadic(&path(&["pgx", "variadic"])));
    assert!(!path_is_variadic(&path(&[])));
    assert!(!path_is_variadic(&path(&["pgx"])));
    assert!(!path_is_variadic(&path(&["Variadic"])));
    assert!(!path_is_variadic(&path(&["variadics"])));
    assert!(!path_is_variadic(&path(&["other", "variadic"])));
    assert!(!path_is_variadic(&path(&["variadic", "pgx"])));
    assert!(!path_is_variadic(&path(&["variadic", "variadic"])));
    assert!(!path_is_variadic(&path(&["pgx", "pgx"])));
    assert!(!path_is_variadic(&path(&["pgx", "variadic", "variadic"])));
    assert!(!path_is_variadic(&path(&["crate", "pgx", "variadic"])));
    assert!(!path_is_variadic(&path(&["pgx", "datum", "variadic"])));
}

#[test]
fn a_plain_type_is_a_scalar() {
    let found = MaybeVariadicType::new(plain("i32")).expect("a plain type is read");
    assert!(found.variadic_ty.is_none());
    assert_eq!(source_of(&found.ty), "i32");
    assert!(is_scalar_of(&found.shape(), "i32"));
}

#[test]
fn the_bare_wrapper_is_variadic() {
    let found = MaybeVariadicType::new(invocation(&["variadic"], "i32")).expect("i32 is a type");
    let inner = found.variadic_ty.as_ref().expect("the wrapper is variadic");
    assert_eq!(source_of(inner), "i32");
    assert_eq!(source_of(&found.ty), "variadic ! (i32)");
    match found.shape() {
        ValueShape::Variadic { ty, provenance } => {
            assert_eq!(ty, "i32");
            assert_eq!(provenance, "variadic ! (i32)");
        }
        other => panic!("{:?}", other),
    }
}

#[test]
fn the_namespaced_wrapper_is_variadic() {
    let found =
        MaybeVariadicType::new(invocation(&["pgx", "variadic"], "i64")).expect("i64 is a type");
    assert!(is_variadic_of(&found.shape(), "i64"));
}

#[test]
fn another_macro_is_a_scalar() {
    for path in [
        vec!["other", "variadic"],
        vec!["variadic", "pgx"],
        vec!["crate", "pgx", "variadic"],
        vec!["composite_type"],
        vec!["name"],
    ] {
        let ty = invocation(&path, "i32");
        let source = source_of(&ty);
        let found = MaybeVariadicType::new(ty).expect("no tokens are parsed");
        assert!(found.variadic_ty.is_none(), "{:?}", path);
        assert!(is_scalar_of(&found.shape(), &source), "{:?}", path);
    }
}

#[test]
fn the_tokens_of_another_macro_are_not_parsed() {
    let found = MaybeVariadicType::new(invocation(&["name"], "+ + +"));
    assert!(found.is_ok());
}

#[test]
fn the_wrapped_tokens_are_parsed_as_a_type() {
    let found = MaybeVariadicType::new(invocation(&["variadic"], "Option<Vec<i32>>"))
        .expect("the tokens are a type");
    let inner = found.variadic_ty.expect("the wrapper is variadic");
    match inner {
        SourceType::Plain { source } => {
            assert_eq!(source.replace(' ', ""), "Option<Vec<i32>>");
        }
        other => panic!("{:?}", other),
    }
}

#[test]
fn a_wrapped_macro_is_read_by_its_path_and_tokens() {
    let found = MaybeVariadicType::new(invocation(&["pgx", "variadic"], "a::b!(c d)"))
        .expect("the tokens are a type");
    match found.variadic_ty.expect("the wrapper is variadic") {
        SourceType::Macro { path, tokens, source } => {
            assert_eq!(path, vec!["a".to_string(), "b".to_string()]);
            assert_eq!(tokens, "c d");
            assert_eq!(source.replace(' ', ""), "a::b!(cd)");
        }
        other => panic!("{:?}", other),
    }
}

#[test]
fn wrapped_tokens_that_are_no_type_are_malformed() {
    for tokens in ["", "+", "i32 i64", "fn", "(", "Vec<", "1 + 1"] {
        let e = MaybeVariadicType::new(invocation(&["variadic"], tokens))
            .expect_err("the tokens are no type");
        assert_eq!(e.source, tokens);
        assert!(!e.cause.to_string().is_empty());
    }
}

#[test]
fn unwrapped_takes_the_parsed_type() {
    let ty = invocation(&["variadic"], "ignored");
    let tokens = "ignored".to_string();
    let found = MaybeVariadicType::unwrapped(ty, &tokens, Ok(plain("bool"))).expect("a type was given");
    assert_eq!(source_of(&found.ty), "variadic ! (ignored)");
    assert_eq!(source_of(found.variadic_ty.as_ref().unwrap()), "bool");
}

#[test]
fn unwrapped_keeps_the_error_and_the_tokens() {
    let cause = match syn::parse_str::<syn::Type>("+") {
        Err(cause) => cause,
        Ok(_) => panic!("`+` parsed as a type"),
    };
    let message = cause.to_string();
    let e = MaybeVariadicType::unwrapped(invocation(&["variadic"], "+"), &"+".to_string(), Err(cause))
        .expect_err("an error was given");
    assert_eq!(e.source, "+");
    assert_eq!(e.cause.to_string(), message);
}

#[test]
fn a_single_type_gives_one_shape() {
    let list = MaybeVariadicTypeList::new(TypeExpr::Single(plain("i32"))).expect("a plain type");
    assert_eq!(list.found.len(), 1);
    let shapes = list.shapes();
    assert_eq!(shapes.len(), 1);
    assert!(is_scalar_of(&shapes[0], "i32"));
    assert!(matches!(list.original, TypeExpr::Single(_)));
}

#[test]
fn a_tuple_gives_one_shape_for_each_element_in_order() {
    let list = MaybeVariadicTypeList::new(TypeExpr::Tuple(vec![
        plain("i32"),
        invocation(&["variadic"], "bool"),
        plain("(i64 , i64)"),
        invocation(&["other"], "x"),
        invocation(&["pgx", "variadic"], "String"),
    ]))
    .expect("every element is read");
    let shapes = list.shapes();
    assert_eq!(shapes.len(), 5);
    assert!(is_scalar_of(&shapes[0], "i32"));
    assert!(is_variadic_of(&shapes[1], "bool"));
    assert!(is_scalar_of(&shapes[2], "(i64 , i64)"));
    assert!(is_scalar_of(&shapes[3], "other ! (x)"));
    assert!(is_variadic_of(&shapes[4], "String"));
    match list.original {
        TypeExpr::Tuple(elems) => assert_eq!(elems.len(), 5),
        other => panic!("{:?}", other),
    }
}

#[test]
fn an_empty_tuple_gives_no_shape() {
    let list = MaybeVariadicTypeList::new(TypeExpr::Tuple(vec![])).expect("nothing to read");
    assert!(list.found.is_empty());
    assert!(list.shapes().is_empty());
}

#[test]
fn a_tuple_fails_on_its_first_malformed_element() {
    let e = MaybeVariadicTypeList::new(TypeExpr::Tuple(vec![
        plain("i32"),
        invocation(&["variadic"], "+ first"),
        invocation(&["variadic"], "+ second"),
    ]))
    .expect_err("the second element is malformed");
    assert_eq!(e.source, "+ first");
}

#[test]
fn a_shape_renders_to_the_sql_name_of_its_type() {
    let scalar = |ty: &str| ValueShape::Scalar { ty: ty.to_string() }.to_sql();
    assert_eq!(scalar("i32"), "integer");
    assert_eq!(scalar("i64"), "bigint");
    assert_eq!(scalar("i16"), "smallint");
    assert_eq!(scalar("bool"), "boolean");
    assert_eq!(scalar("String"), "text");
    assert_eq!(scalar("IntegerAvgState"), "IntegerAvgState");
    let variadic = ValueShape::Variadic { ty: "i32".to_string(), provenance: "variadic ! (i32)".to_string() };
    assert_eq!(variadic.to_sql(), "VARIADIC integer");
}

#[test]
fn a_duplicate_holds_the_same_values() {
    let ty = invocation(&["pgx", "variadic"], "i32");
    match ty.duplicate() {
        SourceType::Macro { path, tokens, source } => {
            assert_eq!(path, vec!["pgx".to_string(), "variadic".to_string()]);
            assert_eq!(tokens, "i32");
            assert_eq!(source, "pgx :: variadic ! (i32)");
        }
        other => panic!("{:?}", other),
    }
}
