use pgx_entity_graph::integer_avg::{
    integer_avg_final_func, integer_avg_state_func, IntegerAvgState,
};

fn text_of(state: IntegerAvgState) -> String {
    let mut buffer = String::new();
    state.output(&mut buffer);
    buffer
}

#[test]
fn test_integer_avg_state() {
    assert_eq!(2, IntegerAvgState::default().acc(1).acc(2).acc(3).finalize());
}

#[test]
fn the_default_state_is_zero() {
    assert_eq!(IntegerAvgState::default(), IntegerAvgState { sum: 0, n: 0 });
}

#[test]
fn the_initial_condition_accumulates_to_the_average() {
    let mut state = IntegerAvgState::input("0,0").expect("the initial condition parses");
    for v in [1, 2, 3] {
        state = integer_avg_state_func(state, v);
    }
    assert_eq!(state, IntegerAvgState { sum: 6, n: 3 });
    assert_eq!(integer_avg_final_func(state), 2);
}

#[test]
fn acc_adds_the_value_and_counts_it() {
    let state = IntegerAvgState { sum: -4, n: 7 }.acc(9);
    assert_eq!(state, IntegerAvgState { sum: 5, n: 8 });
}

#[test]
fn finalize_rounds_towards_zero() {
    assert_eq!(IntegerAvgState { sum: 7, n: 2 }.finalize(), 3);
    assert_eq!(IntegerAvgState { sum: -7, n: 2 }.finalize(), -3);
    assert_eq!(IntegerAvgState { sum: 7, n: -2 }.finalize(), -3);
    assert_eq!(IntegerAvgState { sum: -7, n: -2 }.finalize(), 3);
    assert_eq!(IntegerAvgState { sum: i32::MIN, n: 1 }.finalize(), i32::MIN);
    assert_eq!(IntegerAvgState { sum: i32::MIN, n: -2 }.finalize(), 1073741824);
    assert_eq!(IntegerAvgState { sum: i32::MAX, n: -1 }.finalize(), -i32::MAX);
    assert_eq!(IntegerAvgState { sum: 0, n: 5 }.finalize(), 0);
}

#[test]
fn a_state_is_written_as_sum_and_count() {
    assert_eq!(text_of(IntegerAvgState { sum: 6, n: 3 }), "6,3");
    assert_eq!(text_of(IntegerAvgState { sum: 0, n: 0 }), "0,0");
    assert_eq!(text_of(IntegerAvgState { sum: -120, n: 45 }), "-120,45");
    assert_eq!(
        text_of(IntegerAvgState { sum: i32::MIN, n: i32::MAX }),
        "-2147483648,2147483647"
    );
}

#[test]
fn output_appends_to_the_buffer() {
    let mut buffer = String::from("state: ");
    IntegerAvgState { sum: 10, n: 4 }.output(&mut buffer);
    assert_eq!(buffer, "state: 10,4");
}

#[test]
fn a_written_state_is_read_back() {
    assert_eq!(IntegerAvgState::input("6,3"), Some(IntegerAvgState { sum: 6, n: 3 }));
    for state in [
        IntegerAvgState { sum: 6, n: 3 },
        IntegerAvgState { sum: 0, n: 0 },
        IntegerAvgState { sum: -1, n: -1 },
        IntegerAvgState { sum: i32::MIN, n: i32::MAX },
        IntegerAvgState { sum: 1000000, n: 7 },
    ] {
        assert_eq!(IntegerAvgState::input(&text_of(state)), Some(state));
    }
}

#[test]
fn signs_and_leading_zeros_are_read() {
    assert_eq!(IntegerAvgState::input("+6,-3"), Some(IntegerAvgState { sum: 6, n: -3 }));
    assert_eq!(IntegerAvgState::input("007,000"), Some(IntegerAvgState { sum: 7, n: 0 }));
    assert_eq!(IntegerAvgState::input("-0,+0"), Some(IntegerAvgState { sum: 0, n: 0 }));
    assert_eq!(
        IntegerAvgState::input("-2147483648,2147483647"),
        Some(IntegerAvgState { sum: i32::MIN, n: i32::MAX })
    );
}

#[test]
fn text_without_two_integers_is_not_a_state() {
    for text in [
        "", "6", ",", "6,", ",3", "6,3,1", "6, 3", " 6,3", "6,3 ", "a,3", "6,b", "-,3", "+,3", "6,-",
        "2147483648,0", "0,-2147483649", "99999999999999999999,1", "6;3", "6,3\n", "--6,3", "6,+-3",
        "\u{663},3",
    ] {
        assert_eq!(IntegerAvgState::input(text), None, "{:?}", text);
    }
}
