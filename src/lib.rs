//! Model intermediate representation of a neural-network inference engine.
//!
//! - `datum`: element types and their promotion lattice.
//! - `dim`: symbolic dimensions, affine in the streaming symbol.
//! - `tensor`: typed row-major tensors and conversions between types.
//! - `fact`: partial knowledge of tensors and its unification.
//! - `model`: the dataflow graph; `ops`: its closed family of operators.
//! - `rules`, `analyser`: inference rules and the fixed-point solver.
//! - `plan`, `state`: evaluation order and execution with liveness.
//! - `flatten`, `reduce`, `quant`, `scan`: operator kernels and rewrites.
//! - `pulse`: facts of a graph run one pulse at a time.
//! - `onnx`: tensors decoded from the fields of ONNX tensor records.
//! - `node_def`: the TensorFlow node record.
use vstd::prelude::*;

pub mod analyser;
pub mod datum;
pub mod dim;
pub mod errors;
pub mod fact;
pub mod flatten;
pub mod model;
pub mod node_def;
pub mod onnx;
pub mod ops;
pub mod plan;
pub mod pulse;
pub mod quant;
pub mod reduce;
pub mod rules;
pub mod scan;
pub mod state;
pub mod tensor;

verus! {

} // verus!
