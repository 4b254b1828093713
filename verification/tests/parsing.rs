use neural::{ActivationFunction, CostFunction, PoolType};

#[test]
fn cost_function_names() {
    assert_eq!(
        CostFunction::from("mae"),
        Some(CostFunction::MeanAbsoluteError)
    );
    assert_eq!(
        CostFunction::from("mean-absolute-error"),
        Some(CostFunction::MeanAbsoluteError)
    );
    assert_eq!(
        CostFunction::from("mse"),
        Some(CostFunction::MeanSquaredError)
    );
    assert_eq!(
        CostFunction::from("mean-squared-error"),
        Some(CostFunction::MeanSquaredError)
    );
    assert_eq!(CostFunction::from("MAE"), None);
    assert_eq!(CostFunction::from("entropy"), None);
    assert_eq!(CostFunction::from(""), None);
}

#[test]
fn activation_function_names_ignore_ascii_case() {
    assert_eq!(
        ActivationFunction::from_name("input"),
        Some(ActivationFunction::Input)
    );
    assert_eq!(
        ActivationFunction::from_name("SIGMOID"),
        Some(ActivationFunction::Sigmoid)
    );
    assert_eq!(
        ActivationFunction::from_name("ReLU"),
        Some(ActivationFunction::ReLU)
    );
    assert_eq!(
        ActivationFunction::from_name("Tanh"),
        Some(ActivationFunction::Tanh)
    );
    assert_eq!(ActivationFunction::from_name("softmax"), None);
    assert_eq!(ActivationFunction::from_name("relu6"), None);
    assert_eq!(ActivationFunction::from_name(""), None);
}

#[test]
fn leaky_relu_slope_text_is_extracted() {
    assert_eq!(
        ActivationFunction::leaky_relu_slope_text("leakyrelu(0.01)"),
        Some("0.01".to_owned())
    );
    assert_eq!(
        ActivationFunction::leaky_relu_slope_text("leakyrelu()"),
        Some("".to_owned())
    );
    assert_eq!(ActivationFunction::leaky_relu_slope_text("relu"), None);
    assert_eq!(ActivationFunction::leaky_relu_slope_text("leakyrelu(0.01"), None);
    assert_eq!(ActivationFunction::leaky_relu_slope_text("LeakyReLU(0.01)"), None);
}

#[test]
fn pool_type_names() {
    assert!(matches!(PoolType::from_str("max"), Some(PoolType::MAX)));
    assert!(matches!(PoolType::from_str("avg"), Some(PoolType::AVERAGE)));
    assert!(matches!(
        PoolType::from_str("average"),
        Some(PoolType::AVERAGE)
    ));
    assert!(PoolType::from_str("MAX").is_none());
    assert!(PoolType::from_str("median").is_none());
}
