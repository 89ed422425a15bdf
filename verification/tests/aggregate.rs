use pgx_entity_graph::aggregate::{
    AggregateDeclaration, AggregateDescriptor, AggregateError, FinalizeModify, ParallelOption,
};
use pgx_entity_graph::integer_avg::IntegerAvgState;
use pgx_entity_graph::maybe_variadic_type::{SourceType, TypeExpr, ValueShape};

fn plain(source: &str) -> SourceType {
    SourceType::Plain { source: source.to_string() }
}

fn variadic(tokens: &str) -> SourceType {
    SourceType::Macro {
        path: vec!["variadic".to_string()],
        tokens: tokens.to_string(),
        source: format!("variadic ! ({})", tokens),
    }
}

fn some(text: &str) -> Option<String> {
    Some(text.to_string())
}

/// The aggregate `DEMOAVG` as its `CREATE AGGREGATE` statement wires it.
fn demo_avg() -> AggregateDeclaration {
    AggregateDeclaration {
        name: "DEMOAVG".to_string(),
        args: TypeExpr::Single(plain("i32")),
        state_type: "IntegerAvgState".to_string(),
        finalize_type: None,
        order_by_type: None,
        moving_state_type: None,
        parallel: None,
        finalize_modify: None,
        moving_finalize_modify: None,
        initial_condition: some("0,0"),
        moving_initial_condition: None,
        sort_operator: None,
        hypothetical: None,
        state_fn: "integer_avg_state_func".to_string(),
        finalize_fn: some("integer_avg_final_func"),
        combine_fn: None,
        serial_fn: None,
        deserial_fn: None,
        moving_state_fn: None,
        moving_finalize_fn: None,
    }
}

/// `DEMOAVG` with everything declared that an aggregate can declare.
fn full() -> AggregateDeclaration {
    AggregateDeclaration {
        args: TypeExpr::Tuple(vec![plain("i32"), variadic("i64")]),
        finalize_type: some("i32"),
        order_by_type: some("i32"),
        moving_state_type: some("i32"),
        parallel: Some(ParallelOption::Unsafe),
        finalize_modify: Some(FinalizeModify::ReadWrite),
        moving_finalize_modify: Some(FinalizeModify::Shareable),
        moving_initial_condition: some("1,1"),
        sort_operator: some("sortop"),
        hypothetical: Some(true),
        combine_fn: some("combine"),
        serial_fn: some("serial"),
        deserial_fn: some("deserial"),
        moving_state_fn: some("moving_state"),
        moving_finalize_fn: some("moving_finalize"),
        ..demo_avg()
    }
}

fn built(declaration: AggregateDeclaration) -> AggregateDescriptor {
    AggregateDescriptor::build(declaration).expect("the declaration is valid")
}

fn invalid_field(declaration: AggregateDeclaration) -> &'static str {
    match AggregateDescriptor::build(declaration) {
        Err(AggregateError::InvalidAggregateDescriptor { field }) => field,
        other => panic!("{:?}", other),
    }
}

#[test]
fn what_is_not_declared_takes_its_default() {
    let descriptor = built(demo_avg());
    assert_eq!(descriptor.parallel_safety, ParallelOption::Unspecified);
    assert_eq!(descriptor.finalize_modify, FinalizeModify::Unspecified);
    assert_eq!(descriptor.moving_finalize_modify, FinalizeModify::Unspecified);
    assert!(!descriptor.hypothetical);
    assert_eq!(descriptor.finalize_type, None);
    assert_eq!(descriptor.order_by_type, None);
    assert_eq!(descriptor.moving_state_type, None);
    assert_eq!(descriptor.moving_initial_condition, None);
    assert_eq!(descriptor.sort_operator, None);
    assert_eq!(descriptor.combine_fn, None);
    assert_eq!(descriptor.serial_fn, None);
    assert_eq!(descriptor.deserial_fn, None);
    assert_eq!(descriptor.moving_state_fn, None);
    assert_eq!(descriptor.moving_finalize_fn, None);
}

#[test]
fn what_is_declared_is_kept() {
    let descriptor = built(full());
    assert_eq!(descriptor.name, "DEMOAVG");
    assert_eq!(descriptor.state_type, "IntegerAvgState");
    assert_eq!(descriptor.finalize_type, some("i32"));
    assert_eq!(descriptor.order_by_type, some("i32"));
    assert_eq!(descriptor.moving_state_type, some("i32"));
    assert_eq!(descriptor.parallel_safety, ParallelOption::Unsafe);
    assert_eq!(descriptor.finalize_modify, FinalizeModify::ReadWrite);
    assert_eq!(descriptor.moving_finalize_modify, FinalizeModify::Shareable);
    assert_eq!(descriptor.initial_condition, some("0,0"));
    assert_eq!(descriptor.moving_initial_condition, some("1,1"));
    assert_eq!(descriptor.sort_operator, some("sortop"));
    assert!(descriptor.hypothetical);
    assert_eq!(descriptor.state_fn, "integer_avg_state_func");
    assert_eq!(descriptor.finalize_fn, some("integer_avg_final_func"));
    assert_eq!(descriptor.combine_fn, some("combine"));
    assert_eq!(descriptor.serial_fn, some("serial"));
    assert_eq!(descriptor.deserial_fn, some("deserial"));
    assert_eq!(descriptor.moving_state_fn, some("moving_state"));
    assert_eq!(descriptor.moving_finalize_fn, some("moving_finalize"));
}

#[test]
fn the_arguments_are_classified() {
    let descriptor = built(full());
    assert_eq!(descriptor.argument_shapes.len(), 2);
    assert!(matches!(&descriptor.argument_shapes[0], ValueShape::Scalar { ty } if ty == "i32"));
    assert!(
        matches!(&descriptor.argument_shapes[1], ValueShape::Variadic { ty, .. } if ty == "i64")
    );
}

#[test]
fn a_malformed_argument_type_fails_the_build() {
    let declaration = AggregateDeclaration {
        args: TypeExpr::Tuple(vec![plain("i32"), variadic("+")]),
        ..demo_avg()
    };
    match AggregateDescriptor::build(declaration) {
        Err(AggregateError::MalformedTypeExpression(e)) => assert_eq!(e.source, "+"),
        other => panic!("{:?}", other),
    }
}

#[test]
fn a_malformed_argument_type_is_reported_before_the_moving_parts() {
    let declaration = AggregateDeclaration {
        args: TypeExpr::Single(variadic("+")),
        moving_state_type: some("i32"),
        ..demo_avg()
    };
    assert!(matches!(
        AggregateDescriptor::build(declaration),
        Err(AggregateError::MalformedTypeExpression(_))
    ));
}

#[test]
fn a_moving_state_needs_its_functions_and_its_initial_condition() {
    assert_eq!(invalid_field(AggregateDeclaration { moving_state_fn: None, ..full() }), "moving_state_fn");
    assert_eq!(
        invalid_field(AggregateDeclaration { moving_finalize_fn: None, ..full() }),
        "moving_finalize_fn"
    );
    assert_eq!(
        invalid_field(AggregateDeclaration { moving_initial_condition: None, ..full() }),
        "moving_initial_condition"
    );
    assert_eq!(
        invalid_field(AggregateDeclaration { moving_state_type: some("i32"), ..demo_avg() }),
        "moving_state_fn"
    );
}

#[test]
fn moving_parts_need_a_moving_state() {
    assert_eq!(
        invalid_field(AggregateDeclaration { moving_state_fn: some("f"), ..demo_avg() }),
        "moving_state_fn"
    );
    assert_eq!(
        invalid_field(AggregateDeclaration { moving_finalize_fn: some("f"), ..demo_avg() }),
        "moving_finalize_fn"
    );
    assert_eq!(
        invalid_field(AggregateDeclaration { moving_initial_condition: some("0"), ..demo_avg() }),
        "moving_initial_condition"
    );
    assert_eq!(
        invalid_field(AggregateDeclaration {
            moving_finalize_modify: Some(FinalizeModify::ReadOnly),
            ..demo_avg()
        }),
        "moving_finalize_modify"
    );
    assert_eq!(invalid_field(AggregateDeclaration { moving_state_type: None, ..full() }), "moving_state_fn");
}

#[test]
fn an_unspecified_moving_mode_needs_no_moving_state() {
    let declaration = AggregateDeclaration {
        moving_finalize_modify: Some(FinalizeModify::Unspecified),
        ..demo_avg()
    };
    assert_eq!(built(declaration).moving_finalize_modify, FinalizeModify::Unspecified);
}

#[test]
fn a_moving_state_may_leave_its_mode_open() {
    let declaration = AggregateDeclaration { moving_finalize_modify: None, ..full() };
    assert_eq!(built(declaration).moving_finalize_modify, FinalizeModify::Unspecified);
}

#[test]
fn demo_avg_renders_to_its_statement() {
    assert_eq!(
        built(demo_avg()).to_sql(),
        "CREATE AGGREGATE DEMOAVG (integer)\n(\n    sfunc = integer_avg_state_func,\n    stype = IntegerAvgState,\n    finalfunc = integer_avg_final_func,\n    initcond = '0,0'\n);"
    );
}

#[test]
fn every_setting_renders_on_its_line() {
    assert_eq!(
        built(full()).to_sql(),
        "CREATE AGGREGATE DEMOAVG (integer, VARIADIC bigint ORDER BY integer)\n(\n    sfunc = integer_avg_state_func,\n    stype = IntegerAvgState,\n    finalfunc = integer_avg_final_func,\n    finalfunc_modify = READ_WRITE,\n    combinefunc = combine,\n    serialfunc = serial,\n    deserialfunc = deserial,\n    initcond = '0,0',\n    msfunc = moving_state,\n    mstype = integer,\n    mfinalfunc = moving_finalize,\n    mfinalfunc_modify = SHAREABLE,\n    minitcond = '1,1',\n    sortop = sortop,\n    parallel = UNSAFE,\n    hypothetical\n);"
    );
}

#[test]
fn the_least_aggregate_renders_its_two_settings() {
    let declaration = AggregateDeclaration {
        args: TypeExpr::Tuple(vec![]),
        initial_condition: None,
        finalize_fn: None,
        ..demo_avg()
    };
    assert_eq!(
        built(declaration).to_sql(),
        "CREATE AGGREGATE DEMOAVG ()\n(\n    sfunc = integer_avg_state_func,\n    stype = IntegerAvgState\n);"
    );
}

#[test]
fn the_options_render_to_their_keywords() {
    assert_eq!(ParallelOption::Safe.to_sql(), some("SAFE"));
    assert_eq!(ParallelOption::Restricted.to_sql(), some("RESTRICTED"));
    assert_eq!(ParallelOption::Unsafe.to_sql(), some("UNSAFE"));
    assert_eq!(ParallelOption::Unspecified.to_sql(), None);
    assert_eq!(FinalizeModify::ReadOnly.to_sql(), some("READ_ONLY"));
    assert_eq!(FinalizeModify::Shareable.to_sql(), some("SHAREABLE"));
    assert_eq!(FinalizeModify::ReadWrite.to_sql(), some("READ_WRITE"));
    assert_eq!(FinalizeModify::Unspecified.to_sql(), None);
}

#[test]
fn the_initial_condition_of_demo_avg_accumulates_to_the_average() {
    let descriptor = built(demo_avg());
    let initial = descriptor.initial_condition.expect("DEMOAVG has an initial condition");
    assert_eq!(initial, "0,0");
    let mut state = IntegerAvgState::input(&initial).expect("the initial condition is a state");
    for v in [1, 2, 3] {
        state = state.acc(v);
    }
    assert_eq!(state.finalize(), 2);
    let mut text = String::new();
    state.output(&mut text);
    assert_eq!(text, "6,3");
}
