use neural::{Pool2D, PoolType};

fn bits(values: &[f64]) -> Vec<u64> {
    values.iter().map(|x| x.to_bits()).collect()
}

/// The 4x4 sample grid, column-major: columns (1,5,9,13), (2,6,10,14),
/// (3,7,11,15), (4,8,12,16).
fn sample_image() -> Vec<u64> {
    bits(&[
        1.0, 5.0, 9.0, 13.0, 2.0, 6.0, 10.0, 14.0, 3.0, 7.0, 11.0, 15.0, 4.0, 8.0, 12.0, 16.0,
    ])
}

#[test]
fn max_feed_forward() {
    let input = sample_image();
    let layer = Pool2D::new_square(PoolType::MAX, 4, 2);
    assert_eq!(layer.max_pooled(&input), bits(&[6.0, 14.0, 8.0, 16.0]));
}

#[test]
fn max_back_propagation() {
    let previous_activation = sample_image();
    let weighted_input = bits(&[6.0, 14.0, 8.0, 16.0]);
    let error = bits(&[4.0, 4.0, 4.0, 4.0]);

    let layer = Pool2D::new_square(PoolType::MAX, 4, 2);
    let routed = layer.route_max_error(&weighted_input, &previous_activation, &error);

    assert_eq!(
        routed,
        bits(&[
            0.0, 0.0, 0.0, 0.0, 0.0, 4.0, 0.0, 4.0, 0.0, 0.0, 0.0, 0.0, 0.0, 4.0, 0.0, 4.0
        ])
    );
}

#[test]
fn max_back_propagation_ties_route_to_all_matches() {
    // Both cells of a 2x1 block hold the maximum: each receives the error.
    let activation = bits(&[7.0, 7.0]);
    let pooled = bits(&[7.0]);
    let error = bits(&[3.0]);
    let layer = Pool2D::new(PoolType::MAX, 1, 2, 1, 2);
    assert_eq!(
        layer.route_max_error(&pooled, &activation, &error),
        bits(&[3.0, 3.0])
    );
}

#[test]
fn pool_size_and_block_of() {
    let layer = Pool2D::new(PoolType::AVERAGE, 6, 4, 3, 2);
    assert_eq!(layer.size(), 4);
    // Column-major block indexing: block column first, block row second.
    assert_eq!(layer.block_of(0, 0), 0);
    assert_eq!(layer.block_of(2, 1), 0);
    assert_eq!(layer.block_of(0, 2), 1);
    assert_eq!(layer.block_of(3, 0), 2);
    assert_eq!(layer.block_of(5, 3), 3);
}

#[test]
fn pool_layers_are_not_trainable() {
    let layer = Pool2D::new_square(PoolType::MAX, 4, 2);
    assert!(!layer.trainable());
}

#[test]
fn max_pooling_with_negative_values() {
    // All values negative: the one closest to zero wins.
    let input = bits(&[-4.0, -3.0, -2.0, -1.0]);
    let layer = Pool2D::new_square(PoolType::MAX, 2, 2);
    assert_eq!(layer.max_pooled(&input), bits(&[-1.0]));
}
