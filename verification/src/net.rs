//! The scheduler: a graph of transactions in which an edge means "must
//! finish before", built from the footprints of the methods they call.

pub mod footprints;
pub mod net_executor;
pub mod netbuilder;
pub mod runtime_delegation;
pub mod transaction;
