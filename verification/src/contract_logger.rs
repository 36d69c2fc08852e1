//! The hooks through which an analysis reports its progress.

use vstd::prelude::*;
use crate::contract_data::ContractData;
use crate::evm_function::EvmFunction;
use crate::evm_memory::EvmStack;

verus! {

/// What an observer of an analysis is told.  The analysis does not depend
/// on anything a logger does.
pub trait ContractLogger {
    /// An instruction is about to run at `pc`, on `stack`.
    fn log_instruction(&mut self, instruction: &str, pc: usize, stack: &EvmStack);

    /// The block that starts at `start` is about to be interpreted.
    fn log_new_function(&mut self, start: usize);

    /// A block has been interpreted to its end.
    fn finalize_function(&mut self, function: &EvmFunction);

    /// All blocks of one code have been interpreted.
    fn finalize(&mut self);

    /// The footprint of a contract is complete.
    fn log_contract_data(&mut self, contract_data: ContractData);
}

/// The logger that ignores everything.
pub struct NoLogger();

impl ContractLogger for NoLogger {
    fn log_instruction(&mut self, _instruction: &str, _pc: usize, _stack: &EvmStack) {
    }

    fn log_new_function(&mut self, _start: usize) {
    }

    fn finalize_function(&mut self, _function: &EvmFunction) {
    }

    fn finalize(&mut self) {
    }

    fn log_contract_data(&mut self, _contract_data: ContractData) {
    }
}

} // verus!
