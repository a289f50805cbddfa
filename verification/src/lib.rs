//! A compiler from quantized computation graphs to arithmetic-circuit
//! descriptions: execution-bucket scheduling, per-bucket node configuration
//! with polynomial-operation fusion and lookup-table deduplication, output
//! packing and range-check planning, and a deterministic witness layout pass.

pub mod ops;
pub mod tensor;
pub mod vars;
pub mod node;
pub mod model;
pub mod config;
pub mod fuse;
pub mod lookup;
pub mod configure;
pub mod eval;
pub mod layout;
pub mod laws;
pub mod sizes;
