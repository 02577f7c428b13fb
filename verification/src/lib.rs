//! Verified logic of incrementally verifiable (Nova) proofs for federated
//! learning: the step circuits that prove an aggregation round and the
//! accuracy of a trained model, over the BN254 scalar field.
pub mod field;
pub mod layers;
pub mod inference;
pub mod aggregation;
pub mod endpoint;

