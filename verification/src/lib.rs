//! Verified core of a small neural-network inference engine that runs
//! models exported in the PNNX format.

pub mod dtype;
pub mod text;
pub mod value_parser;
pub mod pnnx_reader;
pub mod node;
pub mod tensor;
pub mod op;
pub mod graph;
pub mod schedule;
pub mod weights;
pub mod server;
