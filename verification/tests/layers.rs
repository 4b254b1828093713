use neural::{
    flip_grid, ActivationFunction, BackpropagationResult, Conv2D, CostFunction, Filter,
    FullyConnected, Input, LayerEnum, Network,
};

fn bits(values: &[f64]) -> Vec<u64> {
    values.iter().map(|x| x.to_bits()).collect()
}

#[test]
fn input_layers_pass_values_through() {
    let layer = Input::new(3);
    let values = bits(&[0.5, -1.0, 2.0]);
    assert_eq!(layer.feed_forward(&values), values);
    assert_eq!(layer.size(), 3);
    assert!(!layer.trainable());
}

#[test]
fn fully_connected_layers_start_with_zero_biases() {
    let layer = FullyConnected::new(
        2,
        3,
        ActivationFunction::Sigmoid,
        bits(&[0.1, 0.2, 0.3, 0.4, 0.5, 0.6]),
    );
    assert_eq!(layer.size(), 3);
    assert!(layer.trainable());
    assert_eq!(layer.biases, vec![0u64; 3]);
    assert_eq!(f64::from_bits(layer.biases[0]), 0.0);
    assert_eq!(layer.weights, bits(&[0.1, 0.2, 0.3, 0.4, 0.5, 0.6]));
}

#[test]
fn convolution_size_sums_the_output_maps() {
    // Two 2x2 filters over a 4x4 grid: each map is 3x3.
    let layer = Conv2D::new_square(2, 4, 2, vec![bits(&[1.0; 4]), bits(&[2.0; 4])]);
    assert_eq!(layer.size(), 18);
    assert!(layer.trainable());
}

#[test]
fn flip_grid_rotates_half_a_turn() {
    // A 2x3 column-major grid; a half turn reverses the flattened order.
    let values = bits(&[1.0, 2.0, 3.0, 4.0, 5.0, 6.0]);
    assert_eq!(
        flip_grid(2, 3, &values),
        bits(&[6.0, 5.0, 4.0, 3.0, 2.0, 1.0])
    );
}

#[test]
fn gradients_match_only_their_own_layer_kind() {
    let dense = LayerEnum::FullyConnected(FullyConnected::new(
        2,
        2,
        ActivationFunction::ReLU,
        bits(&[0.1, 0.2, 0.3, 0.4]),
    ));
    let fitting = BackpropagationResult::FullyConnected {
        delta_weights: bits(&[0.0; 4]),
        delta_biases: bits(&[0.0; 2]),
    };
    let wrong_shape = BackpropagationResult::FullyConnected {
        delta_weights: bits(&[0.0; 3]),
        delta_biases: bits(&[0.0; 2]),
    };
    assert!(fitting.matches_layer(&dense));
    assert!(!wrong_shape.matches_layer(&dense));
    assert!(!BackpropagationResult::Empty.matches_layer(&dense));

    let input = LayerEnum::Input(Input::new(2));
    assert!(BackpropagationResult::Empty.matches_layer(&input));
    assert!(!fitting.matches_layer(&input));

    let conv = LayerEnum::Conv2D(Conv2D::new_square(1, 4, 2, vec![bits(&[0.5; 4])]));
    let conv_gradient = BackpropagationResult::Conv2D {
        delta_filters: vec![Filter {
            rows: 2,
            cols: 2,
            values: bits(&[0.0; 4]),
        }],
    };
    let conv_gradient_wrong = BackpropagationResult::Conv2D {
        delta_filters: vec![Filter {
            rows: 3,
            cols: 2,
            values: bits(&[0.0; 6]),
        }],
    };
    assert!(conv_gradient.matches_layer(&conv));
    assert!(!conv_gradient_wrong.matches_layer(&conv));
}

#[test]
fn network_shape_lists_the_layer_sizes() {
    let mut network = Network::new(CostFunction::MeanSquaredError);
    network.add_layer(LayerEnum::Input(Input::new(4)));
    network.add_layer(LayerEnum::FullyConnected(FullyConnected::new(
        4,
        2,
        ActivationFunction::Sigmoid,
        bits(&[0.0; 8]),
    )));
    assert_eq!(network.shape(), vec![4, 2]);
    assert_eq!(network.cost_function, CostFunction::MeanSquaredError);
}
