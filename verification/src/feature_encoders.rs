//! The encoders: fit-then-transform feature transformations, each
//! incrementally maintainable because its state is a commutative-group
//! aggregate over the current multiset of inputs.

pub mod column_encoder;
pub mod feature_extraction;
pub mod function_encoder;
pub mod kbins_discretizer;
pub mod minmax_scaler;
pub mod multi_column_encoder;
pub mod one_hot_encoder;
pub mod ordinal_encoder;
pub mod passthrough;
pub mod pipeline;
pub mod polynomial_features_encoder;
pub mod standard_scaler;
