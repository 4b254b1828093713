use neural::{arg_max, scalar_eq, scalar_le, scalar_lt};

/// The order on encoded scalars agrees with the floating-point order on a
/// spread of ordinary values.
#[test]
fn encoded_order_agrees_with_the_usual_order() {
    let samples: [f64; 12] = [
        -1000.5, -3.0, -2.0, -1.0, -0.25, -0.0, 0.0, 0.25, 1.0, 2.0, 3.0, 1000.5,
    ];
    for &a in &samples {
        for &b in &samples {
            assert_eq!(
                scalar_lt(a.to_bits(), b.to_bits()),
                a < b,
                "ordering {a} against {b}"
            );
            assert_eq!(
                scalar_le(a.to_bits(), b.to_bits()),
                a <= b,
                "ordering {a} against {b}"
            );
            assert_eq!(
                scalar_eq(a.to_bits(), b.to_bits()),
                a == b,
                "comparing {a} against {b}"
            );
        }
    }
}

#[test]
fn the_two_zeros_are_equal() {
    assert!(scalar_eq((0.0f64).to_bits(), (-0.0f64).to_bits()));
    assert!(!scalar_lt((-0.0f64).to_bits(), (0.0f64).to_bits()));
}

#[test]
fn arg_max_picks_the_largest_value() {
    let values: Vec<u64> = [0.1f64, 0.9, 0.3, -2.0]
        .iter()
        .map(|x| x.to_bits())
        .collect();
    assert_eq!(arg_max(&values), 1);
}

#[test]
fn arg_max_breaks_ties_towards_the_last() {
    let values: Vec<u64> = [1.0f64, 0.5, 1.0].iter().map(|x| x.to_bits()).collect();
    assert_eq!(arg_max(&values), 2);
}
