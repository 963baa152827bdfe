use fresh_stark::{
    build_cubic_trace, build_trace, get_pub_inputs, Computation, ConfigError, FreshAir, InputArg,
    PublicInputs, MODULUS,
};

fn rows(start: u128, n: usize) -> Vec<Vec<u128>> {
    let t = build_trace(&InputArg { start, n }).unwrap();
    (0..t.length()).map(|s| (0..t.width()).map(|c| t.get(c, s)).collect()).collect()
}

#[test]
fn bounds_trace_start_zero_four_rows() {
    let r = rows(0, 4);
    assert_eq!(
        r,
        vec![vec![4, 1, 3, 0], vec![2, 2, 2, 0], vec![0, 3, 1, 1], vec![2, 4, 0, 1]]
    );
}

#[test]
fn bounds_trace_public_inputs() {
    let t = build_trace(&InputArg { start: 0, n: 4 }).unwrap();
    let p = get_pub_inputs(&t);
    assert_eq!(p, PublicInputs { start: 4, result: 2 });
}

#[test]
fn bounds_trace_every_transition_is_zero() {
    for (start, n) in [(0u128, 4usize), (0, 16), (5, 8), (100, 1024), (7, 2)] {
        let t = build_trace(&InputArg { start, n }).unwrap();
        let air = FreshAir::new(Computation::ConvergingBounds, t.width(), t.length(),
            get_pub_inputs(&t)).unwrap();
        for i in 0..t.rows.len() - 1 {
            assert_eq!(air.evaluate_transition(&t.rows[i], &t.rows[i + 1]), 0);
        }
    }
}

#[test]
fn bounds_trace_tampered_row_is_caught() {
    let t = build_trace(&InputArg { start: 0, n: 4 }).unwrap();
    let air = FreshAir::new(Computation::ConvergingBounds, 4, 4, get_pub_inputs(&t)).unwrap();
    let mut bad = t.rows[3].clone();
    bad[0] = 3;
    assert_eq!(air.evaluate_transition(&t.rows[2], &bad), MODULUS - 1);
}

#[test]
fn bounds_trace_errors() {
    assert!(matches!(build_trace(&InputArg { start: 0, n: 0 }), Err(ConfigError::NoRows)));
    assert!(matches!(
        build_trace(&InputArg { start: u128::MAX, n: 1 }),
        Err(ConfigError::BoundsOverflow)
    ));
    assert!(build_trace(&InputArg { start: u128::MAX - 1, n: 1 }).is_ok());
}

#[test]
fn bounds_trace_single_row() {
    assert_eq!(rows(10, 1), vec![vec![9, 11, 0, 1]]);
}

#[test]
fn cubic_trace_start_three_two_rows() {
    let t = build_cubic_trace(&InputArg { start: 3, n: 2 }).unwrap();
    assert_eq!(t.width(), 1);
    assert_eq!(t.rows, vec![vec![3], vec![69]]);
    let p = get_pub_inputs(&t);
    assert_eq!(p, PublicInputs { start: 3, result: 69 });
    let air = FreshAir::new(Computation::CubicRecurrence, 1, 2, p).unwrap();
    assert_eq!(air.evaluate_transition(&t.rows[0], &t.rows[1]), 0);
    // A claimed result of 70 does not follow from 3.
    assert_eq!(air.evaluate_transition(&t.rows[0], &vec![70]), MODULUS - 1);
    let tampered = FreshAir::new(Computation::CubicRecurrence, 1, 2,
        PublicInputs { start: 3, result: 70 }).unwrap();
    assert_ne!(tampered.get_assertions()[1].value, t.get(0, 1));
}

#[test]
fn cubic_trace_rows_follow_recurrence() {
    let t = build_cubic_trace(&InputArg { start: 12345, n: 64 }).unwrap();
    let air = FreshAir::new(Computation::CubicRecurrence, 1, 64, get_pub_inputs(&t)).unwrap();
    for i in 0..63 {
        assert_eq!(air.evaluate_transition(&t.rows[i], &t.rows[i + 1]), 0);
    }
    let small = build_cubic_trace(&InputArg { start: 3, n: 3 }).unwrap();
    assert_eq!(small.get(0, 2), 69u128 * 69 * 69 + 42);
}

#[test]
fn cubic_trace_reduces_start() {
    let t = build_cubic_trace(&InputArg { start: MODULUS + 5, n: 1 }).unwrap();
    assert_eq!(t.rows, vec![vec![5]]);
    assert!(matches!(build_cubic_trace(&InputArg { start: 1, n: 0 }), Err(ConfigError::NoRows)));
}

#[test]
fn cubic_trace_wraps_in_field() {
    let t = build_cubic_trace(&InputArg { start: MODULUS - 1, n: 2 }).unwrap();
    // (-1)^3 + 42 = 41
    assert_eq!(t.get(0, 1), 41);
}

#[test]
fn air_width_and_degrees() {
    let p = PublicInputs { start: 1, result: 2 };
    assert!(matches!(FreshAir::new(Computation::ConvergingBounds, 1, 8, p), Err(ConfigError::WidthMismatch)));
    assert!(matches!(FreshAir::new(Computation::CubicRecurrence, 4, 8, p), Err(ConfigError::WidthMismatch)));
    assert!(matches!(FreshAir::new(Computation::CubicRecurrence, 1, 0, p), Err(ConfigError::NoRows)));
    let a = FreshAir::new(Computation::ConvergingBounds, 4, 8, p).unwrap();
    assert_eq!(a.transition_degree(), 2);
    assert_eq!(a.num_assertions(), 2);
    let b = FreshAir::new(Computation::CubicRecurrence, 1, 8, p).unwrap();
    assert_eq!(b.transition_degree(), 3);
    let asserts = b.get_assertions();
    assert_eq!(asserts.len(), 2);
    assert_eq!((asserts[0].column, asserts[0].step, asserts[0].value), (0, 0, 1));
    assert_eq!((asserts[1].column, asserts[1].step, asserts[1].value), (0, 7, 2));
}
