//! A dataflow engine for a visual node editor: typed slots, nodes with
//! signatures, a directed graph with cycle and type checks, a texture pool
//! that tracks ownership, and an undo/redo history.

pub mod topology;
pub mod numeric;
pub mod value;
pub mod error;
pub mod slot;
pub mod signature;
pub mod ops;
pub mod node;
pub mod history;
pub mod gpu_pool;
pub mod engine;
pub mod wiring;
pub mod editing;
pub mod execution;
