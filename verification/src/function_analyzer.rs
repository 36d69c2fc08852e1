//! Interpreting every block of one code.

use vstd::prelude::*;
use crate::contract_logger::ContractLogger;
use crate::evm_function::EvmFunction;
use crate::evm_function::FunctionModel;
use crate::evm_function::FunctionRegistry;

verus! {

/// The blocks that start at the given offsets of `code`, each run to its
/// end.
pub open spec fn analyzed_blocks(code: Seq<u8>, functions: Seq<usize>) -> Seq<FunctionModel> {
    Seq::new(functions.len(), |i: int| FunctionModel::start(functions[i] as nat, code).run())
}

/// Whether each offset is larger than the one before it.
pub open spec fn strictly_increasing(functions: Seq<usize>) -> bool {
    forall|i: int, j: int| 0 <= i < j < functions.len() ==> functions[i] < functions[j]
}

/// The longest code whose blocks can be interpreted without the counter of
/// consumed caller slots overflowing.
pub open spec fn analyzable(code: Seq<u8>) -> bool {
    7 * code.len() + 17 <= usize::MAX
}

/// Whether a code is short enough to be interpreted on this machine.
pub fn is_analyzable(code: &[u8]) -> (r: bool)
    ensures
        r == analyzable(code@),
{
    code.len() <= (usize::MAX - 17) / 7
}

/// Interprets the block at each of the offsets `functions`, one after the
/// other, and collects the blocks in a registry.  The offsets are an ordered
/// set: each is larger than the one before it.
pub fn single_threded_function_analyzer<'a>(
    code: &'a [u8],
    functions: &[usize],
    logger: &mut impl ContractLogger,
) -> (registry: FunctionRegistry<'a>)
    requires
        analyzable(code@),
        strictly_increasing(functions@),
    ensures
        registry.wf(),
        registry.positions() == functions@,
        registry.model() == analyzed_blocks(code@, functions@),
{
    let mut registry = FunctionRegistry::new();
    let mut i: usize = 0;
    while i < functions.len()
        invariant
            i <= functions.len(),
            analyzable(code@),
            strictly_increasing(functions@),
            registry.wf(),
            registry.analyzed@.len() == i,
            forall|k: int|
                0 <= k < i ==> (#[trigger] registry.analyzed@[k]).position == functions@[k]
                    && registry.analyzed@[k]@ == FunctionModel::start(
                    functions@[k] as nat,
                    code@,
                ).run(),
        decreases functions.len() - i,
    {
        let f_loc = functions[i];
        logger.log_new_function(f_loc);
        let mut evm_func = EvmFunction::new(f_loc, code);
        evm_func.execute(logger);
        logger.finalize_function(&evm_func);
        let ghost before = registry.analyzed@;
        assert forall|k: int| 0 <= k < before.len() implies before[k].position < evm_func.position by {
            assert(before[k].position == functions@[k]);
        }
        registry.insert(evm_func);
        assert(registry.analyzed@ == before.push(evm_func));
        i += 1;
    }
    assert(registry.positions() =~= functions@);
    assert(registry.model() =~= analyzed_blocks(code@, functions@));
    registry
}

} // verus!
