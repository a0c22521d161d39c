use text_duplicator::parser::{compile, evaluate, DupError, Generator};

fn values(g: &Generator, n: u32) -> Vec<i128> {
    let mut out = Vec::new();
    let mut i: u32 = 0;
    while i < n {
        out.push(evaluate(g, i));
        i += 1;
    }
    out
}

#[test]
fn from_start_counts_up() {
    let g = compile("1..", 5).unwrap();
    assert_eq!(g, Generator::FromStart { a: 1 });
    assert_eq!(values(&g, 5), vec![1, 2, 3, 4, 5]);
}

#[test]
fn from_start_negative() {
    let g = compile("-3..", 4).unwrap();
    assert_eq!(values(&g, 4), vec![-3, -2, -1, 0]);
}

#[test]
fn whitespace_is_stripped() {
    assert_eq!(compile("1 .. 5", 9), compile("1..5", 9));
    assert_eq!(compile("\t-2 , 0 ..", 9), compile("-2,0..", 9));
}

#[test]
fn step_from_start() {
    let g = compile("1,3..", 4).unwrap();
    assert_eq!(g, Generator::StepFromStart { a: 1, b: 3 });
    assert_eq!(values(&g, 4), vec![1, 3, 5, 7]);
}

#[test]
fn step_from_start_descending() {
    let g = compile("1,-1..", 3).unwrap();
    assert_eq!(values(&g, 3), vec![1, -1, -3]);
}

#[test]
fn to_end_reaches_final_value() {
    let g = compile("..5", 3).unwrap();
    assert_eq!(g, Generator::ToEnd { a: 5, total: 3 });
    assert_eq!(values(&g, 3), vec![3, 4, 5]);
}

#[test]
fn step_to_end_reaches_final_pair() {
    let g = compile("..7,5", 3).unwrap();
    assert_eq!(g, Generator::StepToEnd { a: 7, b: 5, total: 3 });
    assert_eq!(values(&g, 3), vec![9, 7, 5]);
}

#[test]
fn cycle_ascending() {
    let g = compile("1..3", 8).unwrap();
    assert_eq!(g, Generator::Cycle { a: 1, b: 3 });
    assert_eq!(values(&g, 8), vec![1, 2, 3, 1, 2, 3, 1, 2]);
}

#[test]
fn cycle_descending() {
    let g = compile("3..1", 8).unwrap();
    assert_eq!(values(&g, 8), vec![3, 2, 1, 3, 2, 1, 3, 2]);
}

#[test]
fn cycle_single_value() {
    let g = compile("4..4", 3).unwrap();
    assert_eq!(values(&g, 3), vec![4, 4, 4]);
}

#[test]
fn cycle_to_end_monotonic_accepted() {
    let g = compile("1..5,7", 9).unwrap();
    assert_eq!(g, Generator::CycleToEnd { a: 1, b: 5, c: 7 });
    assert_eq!(values(&g, 9), vec![1, 3, 5, 7, 1, 3, 5, 7, 1]);
}

#[test]
fn cycle_to_end_non_monotonic_rejected() {
    assert_eq!(compile("1..5,3", 9), Err(DupError::MalformedPattern));
}

#[test]
fn cycle_from_start_monotonic_accepted() {
    let g = compile("1,3..7", 9).unwrap();
    assert_eq!(g, Generator::CycleFromStart { a: 1, b: 3, c: 7 });
    assert_eq!(values(&g, 9), vec![1, 3, 5, 7, 1, 3, 5, 7, 1]);
}

#[test]
fn cycle_from_start_descending() {
    let g = compile("7,5..1", 5).unwrap();
    assert_eq!(values(&g, 5), vec![7, 5, 3, 1, 7]);
}

#[test]
fn cycle_from_start_non_monotonic_rejected() {
    assert_eq!(compile("3,3..7", 9), Err(DupError::MalformedPattern));
    assert_eq!(compile("1,5..3", 9), Err(DupError::MalformedPattern));
}

#[test]
fn malformed_shapes_rejected() {
    assert_eq!(compile("abc", 3), Err(DupError::MalformedPattern));
    assert_eq!(compile("1..2..3", 3), Err(DupError::MalformedPattern));
    assert_eq!(compile("..", 3), Err(DupError::MalformedPattern));
    assert_eq!(compile("1...", 3), Err(DupError::MalformedPattern));
    assert_eq!(compile("1,2..3,4", 3), Err(DupError::MalformedPattern));
    assert_eq!(compile("--1..", 3), Err(DupError::MalformedPattern));
    assert_eq!(compile("-..", 3), Err(DupError::MalformedPattern));
    assert_eq!(compile("1", 3), Err(DupError::MalformedPattern));
    assert_eq!(compile("", 3), Err(DupError::MalformedPattern));
}

#[test]
fn integer_range_is_i32() {
    assert!(compile("2147483647..", 3).is_ok());
    assert_eq!(compile("2147483648..", 3), Err(DupError::MalformedPattern));
    assert!(compile("-2147483648..", 3).is_ok());
    assert_eq!(compile("-2147483649..", 3), Err(DupError::MalformedPattern));
    assert_eq!(compile("99999999999..", 3), Err(DupError::MalformedPattern));
}

#[test]
fn leading_zeros_are_accepted() {
    let g = compile("007..", 2).unwrap();
    assert_eq!(g, Generator::FromStart { a: 7 });
}

#[test]
fn step_to_end_ascending() {
    let g = compile("..3,5", 3).unwrap();
    assert_eq!(values(&g, 3), vec![1, 3, 5]);
}

#[test]
fn spaces_inside_a_number_join_its_digits() {
    // stripping happens before matching, so "1 2.." reads as "12.."
    let g = compile("1 2..", 2).unwrap();
    assert_eq!(g, Generator::FromStart { a: 12 });
}

#[test]
fn to_end_with_zero_copies() {
    // idx is never drawn from [0, 0), but the generator itself is well formed
    let g = compile("..5", 0).unwrap();
    assert_eq!(g, Generator::ToEnd { a: 5, total: 0 });
}
