//! The value model: tagged row values, rows, dense vectors, the exact scalar
//! they are built from, and the aggregate state types that the encoders
//! maintain.

pub mod dense_vector;
pub mod integer_assignment_aggregate;
pub mod ratio;
pub mod row;
pub mod row_value;
pub mod safe_hash_map;
pub mod safe_vec;
