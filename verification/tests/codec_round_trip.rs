use neural::{
    decode_network, encode_network, ActivationFunction, Conv2D, CostFunction, FullyConnected,
    Input, LayerEnum, Network, Pool2D, PoolType,
};

fn bits(values: &[f64]) -> Vec<u64> {
    values.iter().map(|x| x.to_bits()).collect()
}

fn sample_network() -> Network {
    let mut network = Network::new(CostFunction::MeanSquaredError);
    network.add_layer(LayerEnum::Input(Input::new(16)));
    network.add_layer(LayerEnum::Conv2D(Conv2D::new(
        2,
        4,
        4,
        2,
        2,
        vec![
            bits(&[0.25, -0.5, 0.125, 1.0]),
            bits(&[-0.0625, 0.375, -1.5, 2.0]),
        ],
    )));
    network.add_layer(LayerEnum::Pool2D(Pool2D::new(PoolType::MAX, 3, 6, 3, 3)));
    network.add_layer(LayerEnum::FullyConnected(FullyConnected::new(
        2,
        3,
        ActivationFunction::LeakyReLU((0.01f64).to_bits()),
        bits(&[0.1, -0.2, 0.3, -0.4, 0.5, -0.6]),
    )));
    network
}

#[test]
fn encode_then_decode_preserves_the_network() {
    let network = sample_network();
    let encoded = encode_network(&network);
    let decoded = decode_network(&encoded).expect("the encoding must decode");
    assert_eq!(decoded, network);
    assert_eq!(decoded.shape(), network.shape());
}

#[test]
fn encode_then_decode_preserves_parameters_bit_for_bit() {
    let network = sample_network();
    let decoded = decode_network(&encode_network(&network)).unwrap();
    match (&decoded.layers[3], &network.layers[3]) {
        (LayerEnum::FullyConnected(got), LayerEnum::FullyConnected(expected)) => {
            assert_eq!(got.weights, expected.weights);
            assert_eq!(got.biases, expected.biases);
            assert_eq!(got.activation_function, expected.activation_function);
        }
        _ => panic!("layer kinds changed"),
    }
    match (&decoded.layers[1], &network.layers[1]) {
        (LayerEnum::Conv2D(got), LayerEnum::Conv2D(expected)) => {
            assert_eq!(got.filters, expected.filters);
        }
        _ => panic!("layer kinds changed"),
    }
    assert_eq!(decoded.cost_function, CostFunction::MeanSquaredError);
}

#[test]
fn an_empty_network_round_trips() {
    let network = Network::new(CostFunction::MeanAbsoluteError);
    let decoded = decode_network(&encode_network(&network)).unwrap();
    assert_eq!(decoded, network);
}

#[test]
fn truncated_encodings_are_rejected() {
    let network = sample_network();
    let mut encoded = encode_network(&network);
    encoded.pop();
    assert!(decode_network(&encoded).is_none());
}

#[test]
fn trailing_bytes_are_rejected() {
    let network = sample_network();
    let mut encoded = encode_network(&network);
    encoded.push(0);
    assert!(decode_network(&encoded).is_none());
}

#[test]
fn unknown_layer_tags_are_rejected() {
    // Cost tag, layer count one, then an unknown layer kind tag.
    let mut bytes = vec![0u8];
    bytes.extend_from_slice(&1u64.to_le_bytes());
    bytes.push(9u8);
    assert!(decode_network(&bytes).is_none());
}

#[test]
fn pool_layers_with_a_non_dividing_kernel_are_rejected() {
    // Cost tag, one layer, pooling kind, MAX, then a 3x3 input with a 2x2
    // kernel: the kernel does not tile the input, so decoding must fail.
    let mut bytes = vec![0u8];
    bytes.extend_from_slice(&1u64.to_le_bytes());
    bytes.push(2u8);
    bytes.push(0u8);
    for dim in [3u64, 3, 2, 2] {
        bytes.extend_from_slice(&dim.to_le_bytes());
    }
    assert!(decode_network(&bytes).is_none());
}

#[test]
fn a_well_formed_pool_layer_decodes() {
    let mut bytes = vec![1u8];
    bytes.extend_from_slice(&1u64.to_le_bytes());
    bytes.push(2u8);
    bytes.push(1u8);
    for dim in [4u64, 4, 2, 2] {
        bytes.extend_from_slice(&dim.to_le_bytes());
    }
    let network = decode_network(&bytes).expect("a well-formed pooling layer must decode");
    assert_eq!(network.cost_function, CostFunction::MeanSquaredError);
    assert_eq!(network.shape(), vec![4]);
    assert!(matches!(
        network.layers[0],
        LayerEnum::Pool2D(Pool2D {
            pool_type: PoolType::AVERAGE,
            ..
        })
    ));
}
