//! Verified core of the V.E.R.S.E model-validation tools: fixed-point model
//! arithmetic, decision-tree evaluation, dataset parsing and the reports that
//! the command line shows.

pub mod fixed_q16;

pub mod fixed_decimal;
pub mod argmax;
pub mod counting;
pub mod float_bits;
pub mod flat_tree;
pub mod id_tree;
pub mod map_tree;
pub mod text;
pub mod csv_dataset;
pub mod json;
pub mod reports;
pub mod session;
pub mod batches;
