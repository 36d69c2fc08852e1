//! Static footprint analysis of stack-machine bytecode, and a scheduler that
//! orders transactions by the footprints of the methods they call.
//!
//! The analysis never runs the bytecode on real inputs.  It cuts the code
//! into blocks, interprets each block over symbolic values, walks the graph
//! of the jumps between the blocks and gathers, for every method of a
//! contract, the storage locations that a call reads and writes and the
//! external calls that it makes.  The scheduler builds from these footprints
//! a graph of "must finish before" edges between submitted transactions, so
//! that transactions without a conflict can run at the same time.
//!
//! Every contract of this library is stated over mathematical models: the
//! view of a symbolic value is an expression tree, that of a stack or a
//! memory a sequence of such trees, that of the graph a sequence of
//! transactions with their edges.

pub mod contract_analyzer;
pub mod contract_data;
pub mod contract_logger;
pub mod contract_utils;
pub mod cycle_resolution;
pub mod evm_function;
pub mod evm_instructions;
pub mod evm_memory;
pub mod evm_types;
pub mod function_analyzer;
pub mod net;
pub mod value_set;
pub mod word;
pub mod word_map;
