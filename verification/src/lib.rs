//! A feed-forward neural network library: layer shapes and invariants,
//! dataset container parsing, training-set batching, and a binary codec for
//! trained parameters, all with machine-checked contracts.
//!
//! Scalar values (weights, biases, activations) are carried as the bit
//! patterns of their binary64 encodings, held in `u64` fields; the
//! floating-point arithmetic itself is performed by callers on those
//! encodings.

pub mod activation;
pub mod codec;
pub mod conv2d;
pub mod cost;
pub mod idx;
pub mod fully_connected;
pub mod input;
pub mod layer;
pub mod network;
pub mod pool;
pub mod scalar;
pub mod train;

pub use activation::ActivationFunction;
pub use codec::decode_network;
pub use codec::encode_network;
pub use conv2d::Conv2D;
pub use conv2d::Filter;
pub use conv2d::flip_grid;
pub use cost::CostFunction;
pub use fully_connected::FullyConnected;
pub use idx::IDXFile;
pub use idx::IdxError;
pub use idx::parse_idx_file;
pub use input::Input;
pub use layer::BackpropagationResult;
pub use layer::LayerEnum;
pub use network::Network;
pub use pool::Pool2D;
pub use pool::PoolType;
pub use scalar::SCALAR_ONE;
pub use scalar::arg_max;
pub use scalar::scalar_eq;
pub use scalar::scalar_le;
pub use scalar::scalar_lt;
pub use train::TrainingPair;
pub use train::one_hot;
pub use train::shuffled_batches;
