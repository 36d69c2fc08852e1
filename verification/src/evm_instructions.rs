//! The instructions, as abstract operations on one block.
//!
//! No instruction computes with real inputs.  An arithmetic instruction
//! pops its operands and pushes a node with its operator; a jump is
//! recorded as an outgoing edge and not followed.

use vstd::prelude::*;
use ethereum_types::U256;
use crate::contract_logger::ContractLogger;
use crate::evm_function::EdgeModel;
use crate::evm_function::EvmFunction;
use crate::evm_function::FunctionModel;
use crate::evm_function::edge_model;
use crate::evm_function::edges_model;
use crate::evm_memory::StackModel;
use crate::evm_memory::lemma_pop_deficit;
use crate::evm_memory::lemma_swap_deficit;
use crate::evm_memory::memory_read;
use crate::evm_memory::memory_window;
use crate::evm_memory::memory_write;
use crate::evm_types::Expr;
use crate::evm_types::Operator;
use crate::evm_types::StackValue;
use crate::word::Word;
use crate::word::be_value;

verus! {

/// The word for a small number.
pub open spec fn small_word(n: nat) -> Word {
    Word { w0: n as u64, w1: 0, w2: 0, w3: 0 }
}

/// Start and size of the window of the code that offset and length
/// describe, where both are concrete and the window lies inside the code.
pub open spec fn code_bounds_of(code: Seq<u8>, offset: Expr, length: Expr) -> Option<(usize, usize)> {
    match (offset.resolve(), length.resolve()) {
        (Some(a), Some(b)) => if a.value() + b.value() <= code.len() {
            Some((a.value() as usize, b.value() as usize))
        } else {
            None
        },
        _ => None,
    }
}

/// What CODECOPY stores: the bytes of the window where offset and length
/// are concrete and the window lies inside the code, else a symbolic copy.
pub open spec fn code_window(code: Seq<u8>, offset: Expr, length: Expr) -> Expr {
    match code_bounds_of(code, offset, length) {
        Some((start, size)) => Expr::Code(code.subrange(start as int, start + size)),
        None => Expr::Op2(Operator::CodeCopy, Box::new(offset), Box::new(length)),
    }
}

/// The immediate data behind the opcode at `pc`: `width` bytes, or as many
/// as the code holds.
pub open spec fn immediate(code: Seq<u8>, pc: nat, width: nat) -> Seq<u8> {
    let start: int = if pc < code.len() {
        pc as int + 1
    } else {
        code.len() as int
    };
    let end: int = if start + width <= code.len() {
        start + width
    } else {
        code.len() as int
    };
    code.subrange(start, end)
}

impl FunctionModel {
    /// An operator without operands is pushed.
    pub open spec fn nullary(self, op: Operator) -> FunctionModel {
        FunctionModel { stack: self.stack.push(Expr::Op0(op)), ..self }
    }

    /// One operand is popped, the operator applied to it is pushed.
    pub open spec fn unary(self, op: Operator) -> FunctionModel {
        let (s1, a) = self.stack.pop();
        FunctionModel { stack: s1.push(Expr::Op1(op, Box::new(a))), ..self }
    }

    /// Two operands are popped, the operator applied to them, in the order
    /// in which they left the stack, is pushed.
    pub open spec fn binary(self, op: Operator) -> FunctionModel {
        let (s1, a) = self.stack.pop();
        let (s2, b) = s1.pop();
        FunctionModel { stack: s2.push(Expr::Op2(op, Box::new(a), Box::new(b))), ..self }
    }

    /// Three operands are popped, the operator applied to them is pushed.
    pub open spec fn ternary(self, op: Operator) -> FunctionModel {
        let (s1, a) = self.stack.pop();
        let (s2, b) = s1.pop();
        let (s3, c) = s2.pop();
        FunctionModel {
            stack: s3.push(Expr::Op3(op, Box::new(a), Box::new(b), Box::new(c))),
            ..self
        }
    }

    /// Four operands are popped, the operator applied to them is pushed.
    pub open spec fn quaternary(self, op: Operator) -> FunctionModel {
        let (s1, a) = self.stack.pop();
        let (s2, b) = s1.pop();
        let (s3, c) = s2.pop();
        let (s4, d) = s3.pop();
        FunctionModel {
            stack: s4.push(Expr::Op4(op, Box::new(a), Box::new(b), Box::new(c), Box::new(d))),
            ..self
        }
    }

    /// Six operands are popped, the operator applied to them is pushed.
    pub open spec fn senary(self, op: Operator) -> FunctionModel {
        let (s1, a) = self.stack.pop();
        let (s2, b) = s1.pop();
        let (s3, c) = s2.pop();
        let (s4, d) = s3.pop();
        let (s5, e) = s4.pop();
        let (s6, f) = s5.pop();
        FunctionModel {
            stack: s6.push(
                Expr::Op6(
                    op,
                    Box::new(a),
                    Box::new(b),
                    Box::new(c),
                    Box::new(d),
                    Box::new(e),
                    Box::new(f),
                ),
            ),
            ..self
        }
    }

    /// The block ends.
    pub open spec fn stop(self) -> FunctionModel {
        FunctionModel { ended: true, ..self }
    }

    /// The block ends and what it read, wrote and called is void.
    pub open spec fn revert(self) -> FunctionModel {
        FunctionModel {
            ended: true,
            storage_access_read: Set::empty(),
            storage_access_write: Set::empty(),
            external_calls: Set::empty(),
            ..self
        }
    }

    /// Offset and length are popped; the hash of the memory entries in that
    /// window is pushed, or an unknown value where either is not concrete.
    pub open spec fn sha3(self) -> FunctionModel {
        let (s1, a) = self.stack.pop();
        let (s2, b) = s1.pop();
        let value = match (a.resolve(), b.resolve()) {
            (Some(offset), Some(length)) => Expr::Hash(
                memory_window(self.memory, offset, length, self.memory.len() as int),
            ),
            _ => Expr::Op0(Operator::Unknown),
        };
        FunctionModel { stack: s2.push(value), ..self }
    }

    /// Length, offset and destination are popped; the copy of the call data is
    /// stored at the destination.
    pub open spec fn calldata_copy(self) -> FunctionModel {
        let (s1, length) = self.stack.pop();
        let (s2, offset) = s1.pop();
        let (s3, dest) = s2.pop();
        let value = Expr::Op2(Operator::CalldataCopy, Box::new(length), Box::new(offset));
        FunctionModel { stack: s3, memory: memory_write(self.memory, dest, value, length), ..self }
    }

    /// Destination, offset and length are popped; the window of the code is
    /// stored at the destination.
    pub open spec fn codecopy(self) -> FunctionModel {
        let (s1, dest) = self.stack.pop();
        let (s2, offset) = s1.pop();
        let (s3, length) = s2.pop();
        let value = code_window(self.code, offset, length);
        FunctionModel { stack: s3, memory: memory_write(self.memory, dest, value, length), ..self }
    }

    /// Length, offset, destination and address are popped; the copy of the
    /// other contract's code is stored at the destination.
    pub open spec fn ext_codecopy(self) -> FunctionModel {
        let (s1, length) = self.stack.pop();
        let (s2, offset) = s1.pop();
        let (s3, dest) = s2.pop();
        let (s4, addr) = s3.pop();
        let value = Expr::Op3(
            Operator::ExtCodeCopy,
            Box::new(addr),
            Box::new(offset),
            Box::new(length),
        );
        FunctionModel { stack: s4, memory: memory_write(self.memory, dest, value, length), ..self }
    }

    /// Length, offset and destination are popped; the copy of the returned
    /// data is stored at the destination.
    pub open spec fn return_data_copy(self) -> FunctionModel {
        let (s1, length) = self.stack.pop();
        let (s2, offset) = s1.pop();
        let (s3, dest) = s2.pop();
        let value = Expr::Op2(Operator::ReturnDataCopy, Box::new(offset), Box::new(length));
        FunctionModel { stack: s3, memory: memory_write(self.memory, dest, value, length), ..self }
    }

    /// One value is popped.
    pub open spec fn pop(self) -> FunctionModel {
        FunctionModel { stack: self.stack.pop().0, ..self }
    }

    /// The offset is popped; what the memory holds there, as a word of 32
    /// bytes, is pushed.
    pub open spec fn mload(self) -> FunctionModel {
        let (s1, offset) = self.stack.pop();
        let value = memory_read(self.memory, offset, Expr::Literal(small_word(32)));
        FunctionModel { stack: s1.push(value), ..self }
    }

    /// Offset and value are popped; the value is stored with `width` bytes.
    pub open spec fn mstore(self, width: nat) -> FunctionModel {
        let (s1, offset) = self.stack.pop();
        let (s2, value) = s1.pop();
        FunctionModel {
            stack: s2,
            memory: memory_write(self.memory, offset, value, Expr::Literal(small_word(width))),
            ..self
        }
    }

    /// The address is popped and recorded as read; the load is pushed.
    pub open spec fn sload(self) -> FunctionModel {
        let (s1, a) = self.stack.pop();
        FunctionModel {
            stack: s1.push(Expr::Op1(Operator::SLoad, Box::new(a))),
            storage_access_read: self.storage_access_read.insert(a),
            ..self
        }
    }

    /// Address and value are popped; the address is recorded as written.
    pub open spec fn sstore(self) -> FunctionModel {
        let (s1, a) = self.stack.pop();
        let (s2, _v) = s1.pop();
        FunctionModel {
            stack: s2,
            storage_access_write: self.storage_access_write.insert(a),
            ..self
        }
    }

    /// The target is popped; the jump is recorded as an edge with the stack
    /// and memory of that moment, and the block ends.
    pub open spec fn jump(self) -> FunctionModel {
        let (s1, target) = self.stack.pop();
        FunctionModel {
            stack: s1,
            ended: true,
            internal_calls: self.internal_calls.push(
                EdgeModel { target, stack: s1, memory: self.memory, condition: None },
            ),
            ..self
        }
    }

    /// Target and condition are popped; the jump is recorded as an edge
    /// with its condition, and the block goes on.
    pub open spec fn jumpi(self) -> FunctionModel {
        let (s1, target) = self.stack.pop();
        let (s2, condition) = s1.pop();
        FunctionModel {
            stack: s2,
            internal_calls: self.internal_calls.push(
                EdgeModel { target, stack: s2, memory: self.memory, condition: Some(condition) },
            ),
            ..self
        }
    }

    /// The program counter is pushed as a literal.
    pub open spec fn program_counter(self) -> FunctionModel {
        FunctionModel { stack: self.stack.push(Expr::Literal(small_word(self.pc))), ..self }
    }

    /// A jump target: nothing happens.
    pub open spec fn jumpdest(self) -> FunctionModel {
        self
    }

    /// The immediate data behind the opcode, as far as the code holds it,
    /// is pushed as a literal; the program counter moves to its last byte.
    pub open spec fn push(self, width: nat) -> FunctionModel {
        let bytes = immediate(self.code, self.pc, width);
        FunctionModel {
            stack: self.stack.push(Expr::Literal(Word::from_value(be_value(bytes)))),
            pc: self.pc + bytes.len(),
            ..self
        }
    }

    /// The value at position `n` from the top is pushed.
    pub open spec fn dup(self, n: nat) -> FunctionModel {
        FunctionModel { stack: self.stack.push(self.stack.peek(n)), ..self }
    }

    /// The top is exchanged with the value `n` places below it.
    pub open spec fn swap(self, n: nat) -> FunctionModel {
        FunctionModel { stack: self.stack.swap(n), ..self }
    }

    /// Offset, length and `n` topics are popped.
    pub open spec fn log(self, n: nat) -> FunctionModel {
        FunctionModel { stack: self.stack.pop_n(n + 2), ..self }
    }

    /// Seven operands are popped.  The second is the target; the fourth and
    /// fifth are offset and length of the call data, which is read from
    /// memory.  Target and call data are recorded as an external call, and
    /// the call is pushed.
    pub open spec fn call(self) -> FunctionModel {
        let (s1, a) = self.stack.pop();
        let (s2, address) = s1.pop();
        let (s3, c) = s2.pop();
        let (s4, offset) = s3.pop();
        let (s5, length) = s4.pop();
        let (s6, f) = s5.pop();
        let (s7, g) = s6.pop();
        let data = memory_read(self.memory, offset, length);
        FunctionModel {
            stack: s7.push(
                Expr::Op7(
                    Operator::Call,
                    Box::new(a),
                    Box::new(address),
                    Box::new(c),
                    Box::new(offset),
                    Box::new(length),
                    Box::new(f),
                    Box::new(g),
                ),
            ),
            external_calls: self.external_calls.insert((address, data)),
            ..self
        }
    }

    /// Offset and length are popped and recorded, length first, as the
    /// returned memory area; the block ends.
    pub open spec fn return_(self) -> FunctionModel {
        let (s1, offset) = self.stack.pop();
        let (s2, length) = s1.pop();
        FunctionModel { stack: s2, return_value: Some((length, offset)), ended: true, ..self }
    }


    /// The block after the instruction with opcode `op` has worked on it,
    /// the program counter still at the instruction or, after a PUSH, at the
    /// last byte of its immediate data.  An opcode that is not listed ends
    /// the block.
    pub open spec fn instruction(self, op: u8) -> FunctionModel {
        if 0x60 <= op <= 0x7f {
            self.push((op - 0x5f) as nat)
        } else if 0x80 <= op <= 0x8f {
            self.dup((op - 0x7f) as nat)
        } else if 0x90 <= op <= 0x9f {
            self.swap((op - 0x8f) as nat)
        } else if 0xa0 <= op <= 0xa4 {
            self.log((op - 0xa0) as nat)
        } else if op == 0xf2 {
            self.call()
        } else if op == 0x00 {
            self.stop()
        } else if op == 0x01 {
            self.binary(Operator::Add)
        } else if op == 0x02 {
            self.binary(Operator::Mul)
        } else if op == 0x03 {
            self.binary(Operator::Sub)
        } else if op == 0x04 {
            self.binary(Operator::Div)
        } else if op == 0x05 {
            self.binary(Operator::SDiv)
        } else if op == 0x06 {
            self.binary(Operator::Mod)
        } else if op == 0x07 {
            self.binary(Operator::SMod)
        } else if op == 0x08 {
            self.ternary(Operator::AddMod)
        } else if op == 0x09 {
            self.ternary(Operator::MulMod)
        } else if op == 0x0a {
            self.binary(Operator::Exp)
        } else if op == 0x0b {
            self.binary(Operator::SignExtend)
        } else if op == 0x10 {
            self.binary(Operator::LT)
        } else if op == 0x11 {
            self.binary(Operator::GT)
        } else if op == 0x12 {
            self.binary(Operator::SLT)
        } else if op == 0x13 {
            self.binary(Operator::SGT)
        } else if op == 0x14 {
            self.binary(Operator::EQ)
        } else if op == 0x15 {
            self.unary(Operator::IsZero)
        } else if op == 0x16 {
            self.binary(Operator::And)
        } else if op == 0x17 {
            self.binary(Operator::Or)
        } else if op == 0x18 {
            self.binary(Operator::Xor)
        } else if op == 0x19 {
            self.unary(Operator::Not)
        } else if op == 0x1a {
            self.binary(Operator::Byte)
        } else if op == 0x1b {
            self.binary(Operator::ShL)
        } else if op == 0x1c {
            self.binary(Operator::Shr)
        } else if op == 0x1d {
            self.binary(Operator::Sar)
        } else if op == 0x20 {
            self.sha3()
        } else if op == 0x30 {
            self.nullary(Operator::Address)
        } else if op == 0x31 {
            self.unary(Operator::Balance)
        } else if op == 0x32 {
            self.nullary(Operator::Origin)
        } else if op == 0x33 {
            self.nullary(Operator::Caller)
        } else if op == 0x34 {
            self.nullary(Operator::CallValue)
        } else if op == 0x35 {
            self.unary(Operator::CallDataLoad)
        } else if op == 0x36 {
            self.nullary(Operator::CallDataSize)
        } else if op == 0x37 {
            self.calldata_copy()
        } else if op == 0x38 {
            self.nullary(Operator::CodeSize)
        } else if op == 0x39 {
            self.codecopy()
        } else if op == 0x3a {
            self.nullary(Operator::GasPrice)
        } else if op == 0x3b {
            self.unary(Operator::ExtCodeSize)
        } else if op == 0x3c {
            self.ext_codecopy()
        } else if op == 0x3d {
            self.nullary(Operator::ReturnDataSize)
        } else if op == 0x3e {
            self.return_data_copy()
        } else if op == 0x3f {
            self.unary(Operator::ExtCodeHash)
        } else if op == 0x40 {
            self.unary(Operator::Blockhash)
        } else if op == 0x41 {
            self.nullary(Operator::CoinBase)
        } else if op == 0x42 {
            self.nullary(Operator::TimeStamp)
        } else if op == 0x43 {
            self.nullary(Operator::Number)
        } else if op == 0x44 {
            self.nullary(Operator::Difficulty)
        } else if op == 0x45 {
            self.nullary(Operator::GasLimit)
        } else if op == 0x50 {
            self.pop()
        } else if op == 0x51 {
            self.mload()
        } else if op == 0x52 {
            self.mstore(32)
        } else if op == 0x53 {
            self.mstore(1)
        } else if op == 0x54 {
            self.sload()
        } else if op == 0x55 {
            self.sstore()
        } else if op == 0x56 {
            self.jump()
        } else if op == 0x57 {
            self.jumpi()
        } else if op == 0x58 {
            self.program_counter()
        } else if op == 0x59 {
            self.nullary(Operator::MSize)
        } else if op == 0x5a {
            self.nullary(Operator::Gas)
        } else if op == 0x5b {
            self.jumpdest()
        } else if op == 0xf0 {
            self.ternary(Operator::Create)
        } else if op == 0xf1 {
            self.call()
        } else if op == 0xf3 {
            self.return_()
        } else if op == 0xf4 {
            self.senary(Operator::DelegateCall)
        } else if op == 0xf5 {
            self.quaternary(Operator::Create2)
        } else if op == 0xfa {
            self.senary(Operator::StaticCall)
        } else if op == 0xfd {
            self.revert()
        } else if op == 0xff {
            self.stop()
        } else {
            self.stop()
        }
    }

    /// The block after one instruction: the instruction at the program
    /// counter has worked, and the program counter stands behind it.
    pub open spec fn step(self) -> FunctionModel {
        let after = self.instruction(self.code[self.pc as int]);
        FunctionModel { pc: after.pc + 1, ..after }
    }

    /// The block at its end: stepped until an instruction ends it, or ended
    /// where the program counter leaves the code.
    #[verifier::opaque]
    pub open spec fn run(self) -> FunctionModel
        decreases self.code.len() - self.pc,
    {
        if self.ended {
            self
        } else if self.pc >= self.code.len() {
            FunctionModel { ended: true, ..self }
        } else {
            proof {
                lemma_instruction_frame(self, self.code[self.pc as int]);
            }
            self.step().run()
        }
    }

    /// The counter of consumed caller slots cannot overflow before the
    /// block ends: an instruction consumes at most seven, and a SWAP looks
    /// seventeen deep.
    pub open spec fn has_room(self) -> bool {
        self.pc <= self.code.len() ==> self.stack.deficit + 7 * (self.code.len() - self.pc) + 17
            <= usize::MAX
    }
}

/// The deficit after `n` pops is at most `n` more than before.
pub proof fn lemma_pop_n_deficit(s: StackModel, n: nat)
    ensures
        s.pop_n(n).deficit <= s.deficit + n,
    decreases n,
{
    if n > 0 {
        lemma_pop_deficit(s);
        lemma_pop_n_deficit(s.pop().0, (n - 1) as nat);
    }
}

/// One more pop after `n` pops is `n + 1` pops.
pub proof fn lemma_pop_n_step(s: StackModel, n: nat)
    ensures
        s.pop_n(n).pop().0 == s.pop_n(n + 1),
    decreases n,
{
    if n > 0 {
        let t = s.pop().0;
        lemma_pop_n_step(t, (n - 1) as nat);
        assert(s.pop_n(n) == t.pop_n((n - 1) as nat));
        assert(s.pop_n(n + 1) == t.pop_n(n));
    } else {
        assert(s.pop_n(0) == s);
        assert(s.pop().0.pop_n(0) == s.pop().0);
        assert(s.pop_n(1) == s.pop().0.pop_n(0));
    }
}

/// An instruction leaves the code and the position as they are, does not
/// move the program counter back or out of the code, and consumes at most
/// seven slots of the caller.
pub proof fn lemma_instruction_frame(m: FunctionModel, op: u8)
    requires
        m.pc < m.code.len(),
    ensures
        m.instruction(op).code == m.code,
        m.instruction(op).position == m.position,
        m.pc <= m.instruction(op).pc < m.code.len(),
        m.instruction(op).stack.deficit <= m.stack.deficit + 7,
{
    assert forall|s: StackModel| (#[trigger] s.pop()).0.deficit <= s.deficit + 1 by {
        lemma_pop_deficit(s);
    }
    if 0xa0 <= op <= 0xa4 {
        lemma_pop_n_deficit(m.stack, (op - 0xa0 + 2) as nat);
    }
    if 0x90 <= op <= 0x9f {
        lemma_swap_deficit(m.stack, (op - 0x8f) as nat);
    }
}

/// A run ends the block and leaves its code and its position as they are.
pub proof fn lemma_run_frame(m: FunctionModel)
    ensures
        m.run().ended,
        m.run().code == m.code,
        m.run().position == m.position,
    decreases m.code.len() - m.pc,
{
    reveal(FunctionModel::run);
    if !m.ended && m.pc < m.code.len() {
        lemma_instruction_frame(m, m.code[m.pc as int]);
        lemma_run_frame(m.step());
    }
}

/// `format!` with the `LowerHex` of `U256`: the name under which a PUSH of
/// `value` is logged.  Nothing is claimed of the text.
#[verifier::external_body]
fn push_label(value: Word) -> String {
    format!("PUSH({:x})", U256([value.w0, value.w1, value.w2, value.w3]))
}

/// `format!`: the name under which an instruction with a number is logged.
/// Nothing is claimed of the text.
#[verifier::external_body]
fn numbered_label(name: &str, n: usize) -> String {
    format!("{} {}", name, n)
}


impl<'a> EvmFunction<'a> {
    /// Runs the block to its end: instruction after instruction until one
    /// ends the block or the code is over.
    pub fn execute(&mut self, logger: &mut impl ContractLogger)
        requires
            old(self)@.has_room(),
        ensures
            final(self)@ == old(self)@.run(),
            final(self).ended,
            final(self).position == old(self).position,
            final(self).code@ == old(self).code@,
    {
        reveal(FunctionModel::run);
        while !self.ended
            invariant
                self@.has_room(),
                self@.run() == old(self)@.run(),
                self.position == old(self).position,
                self.code@ == old(self).code@,
            decreases
                    (if self.ended {
                        0int
                    } else {
                        1int
                    }) + (if self.pc <= self.code@.len() {
                        self.code@.len() - self.pc
                    } else {
                        0int
                    }),
        {
            proof {
                reveal(FunctionModel::run);
            }
            if self.pc >= self.code.len() {
                self.ended = true;
            } else {
                let ghost before = self@;
                proof {
                    lemma_instruction_frame(before, self.code@[self.pc as int]);
                }
                let opcode = self.code[self.pc];
                match opcode {
                    0x00 => self.stop(logger),
                    0x01 => self.add(logger),
                    0x02 => self.mul(logger),
                    0x03 => self.sub(logger),
                    0x04 => self.div(logger),
                    0x05 => self.sdiv(logger),
                    0x06 => self.mod_(logger),
                    0x07 => self.smod(logger),
                    0x08 => self.add_mod(logger),
                    0x09 => self.mul_mod(logger),
                    0x0a => self.exp(logger),
                    0x0b => self.sign_extend(logger),
                    0x10 => self.lt(logger),
                    0x11 => self.gt(logger),
                    0x12 => self.slt(logger),
                    0x13 => self.sgt(logger),
                    0x14 => self.eq(logger),
                    0x15 => self.iszero(logger),
                    0x16 => self.and(logger),
                    0x17 => self.or(logger),
                    0x18 => self.xor(logger),
                    0x19 => self.not(logger),
                    0x1a => self.byte(logger),
                    0x1b => self.shl(logger),
                    0x1c => self.shr(logger),
                    0x1d => self.sar(logger),
                    0x20 => self.sha3(logger),
                    0x30 => self.address(logger),
                    0x31 => self.balance(logger),
                    0x32 => self.origin(logger),
                    0x33 => self.caller(logger),
                    0x34 => self.callvalue(logger),
                    0x35 => self.calldata_load(logger),
                    0x36 => self.calldata_size(logger),
                    0x37 => self.calldata_copy(logger),
                    0x38 => self.code_size(logger),
                    0x39 => self.codecopy(logger),
                    0x3a => self.gasprice(logger),
                    0x3b => self.ext_codesize(logger),
                    0x3c => self.ext_codecopy(logger),
                    0x3d => self.return_data_size(logger),
                    0x3e => self.return_data_copy(logger),
                    0x3f => self.ext_codehash(logger),
                    0x40 => self.blockhash(logger),
                    0x41 => self.coinbase(logger),
                    0x42 => self.timestamp(logger),
                    0x43 => self.number(logger),
                    0x44 => self.difficulty(logger),
                    0x45 => self.gaslimit(logger),
                    0x50 => self.pop(logger),
                    0x51 => self.mload(logger),
                    0x52 => self.mstore(logger),
                    0x53 => self.mstore8(logger),
                    0x54 => self.sload(logger),
                    0x55 => self.sstore(logger),
                    0x56 => self.jump(logger),
                    0x57 => self.jumpi(logger),
                    0x58 => self.pc(logger),
                    0x59 => self.msize(logger),
                    0x5a => self.gas(logger),
                    0x5b => self.jumpdest(logger),
                    0xf0 => self.create(logger),
                    0xf1 => self.call(logger),
                    0xf2 => self.call(logger),
                    0xf3 => self.return_(logger),
                    0xf4 => self.delegate_call(logger),
                    0xf5 => self.create2(logger),
                    0xfa => self.static_call(logger),
                    0xfd => self.revert(logger),
                    0xff => self.selfdestruct(logger),
                    0x60 => self.push(1, logger),
                    0x61 => self.push(2, logger),
                    0x62 => self.push(3, logger),
                    0x63 => self.push(4, logger),
                    0x64 => self.push(5, logger),
                    0x65 => self.push(6, logger),
                    0x66 => self.push(7, logger),
                    0x67 => self.push(8, logger),
                    0x68 => self.push(9, logger),
                    0x69 => self.push(10, logger),
                    0x6a => self.push(11, logger),
                    0x6b => self.push(12, logger),
                    0x6c => self.push(13, logger),
                    0x6d => self.push(14, logger),
                    0x6e => self.push(15, logger),
                    0x6f => self.push(16, logger),
                    0x70 => self.push(17, logger),
                    0x71 => self.push(18, logger),
                    0x72 => self.push(19, logger),
                    0x73 => self.push(20, logger),
                    0x74 => self.push(21, logger),
                    0x75 => self.push(22, logger),
                    0x76 => self.push(23, logger),
                    0x77 => self.push(24, logger),
                    0x78 => self.push(25, logger),
                    0x79 => self.push(26, logger),
                    0x7a => self.push(27, logger),
                    0x7b => self.push(28, logger),
                    0x7c => self.push(29, logger),
                    0x7d => self.push(30, logger),
                    0x7e => self.push(31, logger),
                    0x7f => self.push(32, logger),
                    0x80 => self.dup(1, logger),
                    0x81 => self.dup(2, logger),
                    0x82 => self.dup(3, logger),
                    0x83 => self.dup(4, logger),
                    0x84 => self.dup(5, logger),
                    0x85 => self.dup(6, logger),
                    0x86 => self.dup(7, logger),
                    0x87 => self.dup(8, logger),
                    0x88 => self.dup(9, logger),
                    0x89 => self.dup(10, logger),
                    0x8a => self.dup(11, logger),
                    0x8b => self.dup(12, logger),
                    0x8c => self.dup(13, logger),
                    0x8d => self.dup(14, logger),
                    0x8e => self.dup(15, logger),
                    0x8f => self.dup(16, logger),
                    0x90 => self.swap(1, logger),
                    0x91 => self.swap(2, logger),
                    0x92 => self.swap(3, logger),
                    0x93 => self.swap(4, logger),
                    0x94 => self.swap(5, logger),
                    0x95 => self.swap(6, logger),
                    0x96 => self.swap(7, logger),
                    0x97 => self.swap(8, logger),
                    0x98 => self.swap(9, logger),
                    0x99 => self.swap(10, logger),
                    0x9a => self.swap(11, logger),
                    0x9b => self.swap(12, logger),
                    0x9c => self.swap(13, logger),
                    0x9d => self.swap(14, logger),
                    0x9e => self.swap(15, logger),
                    0x9f => self.swap(16, logger),
                    0xa0 => self.log(0, logger),
                    0xa1 => self.log(1, logger),
                    0xa2 => self.log(2, logger),
                    0xa3 => self.log(3, logger),
                    0xa4 => self.log(4, logger),
                    _ => self.ended = true,
                }
                assert(self@ == before.instruction(opcode));
                self.pc += 1;
                assert(self@ == before.step());
            }
        }
    }

    /// Tells the logger that the instruction named `name` is about to run.
    pub fn log_operation(&self, logger: &mut impl ContractLogger, name: &str)
    {
        logger.log_instruction(name, self.pc, &self.stack);
    }

    /// The instruction STOP.
    pub fn stop(&mut self, logger: &mut impl ContractLogger)
        ensures
            final(self)@ == old(self)@.stop(),
    {
        self.log_operation(logger, "STOP");
        self.ended = true;
    }

    /// The instruction ADD.
    pub fn add(&mut self, logger: &mut impl ContractLogger)
        requires
            old(self)@.stack.deficit + 2 <= usize::MAX,
        ensures
            final(self)@ == old(self)@.binary(Operator::Add),
    {
        self.log_operation(logger, "ADD");
        let op1 = self.stack.pop();
        let op2 = self.stack.pop();
        self.stack.push(StackValue::Add(Box::new(op1), Box::new(op2)));
    }

    /// The instruction MUL.
    pub fn mul(&mut self, logger: &mut impl ContractLogger)
        requires
            old(self)@.stack.deficit + 2 <= usize::MAX,
        ensures
            final(self)@ == old(self)@.binary(Operator::Mul),
    {
        self.log_operation(logger, "MUL");
        let op1 = self.stack.pop();
        let op2 = self.stack.pop();
        self.stack.push(StackValue::Mul(Box::new(op1), Box::new(op2)));
    }

    /// The instruction SUB.
    pub fn sub(&mut self, logger: &mut impl ContractLogger)
        requires
            old(self)@.stack.deficit + 2 <= usize::MAX,
        ensures
            final(self)@ == old(self)@.binary(Operator::Sub),
    {
        self.log_operation(logger, "SUB");
        let op1 = self.stack.pop();
        let op2 = self.stack.pop();
        self.stack.push(StackValue::Sub(Box::new(op1), Box::new(op2)));
    }

    /// The instruction DIV.
    pub fn div(&mut self, logger: &mut impl ContractLogger)
        requires
            old(self)@.stack.deficit + 2 <= usize::MAX,
        ensures
            final(self)@ == old(self)@.binary(Operator::Div),
    {
        self.log_operation(logger, "DIV");
        let op1 = self.stack.pop();
        let op2 = self.stack.pop();
        self.stack.push(StackValue::Div(Box::new(op1), Box::new(op2)));
    }

    /// The instruction SDIV.
    pub fn sdiv(&mut self, logger: &mut impl ContractLogger)
        requires
            old(self)@.stack.deficit + 2 <= usize::MAX,
        ensures
            final(self)@ == old(self)@.binary(Operator::SDiv),
    {
        self.log_operation(logger, "SDIV");
        let op1 = self.stack.pop();
        let op2 = self.stack.pop();
        self.stack.push(StackValue::SDiv(Box::new(op1), Box::new(op2)));
    }

    /// The instruction MOD.
    pub fn mod_(&mut self, logger: &mut impl ContractLogger)
        requires
            old(self)@.stack.deficit + 2 <= usize::MAX,
        ensures
            final(self)@ == old(self)@.binary(Operator::Mod),
    {
        self.log_operation(logger, "MOD");
        let op1 = self.stack.pop();
        let op2 = self.stack.pop();
        self.stack.push(StackValue::Mod(Box::new(op1), Box::new(op2)));
    }

    /// The instruction SMOD.
    pub fn smod(&mut self, logger: &mut impl ContractLogger)
        requires
            old(self)@.stack.deficit + 2 <= usize::MAX,
        ensures
            final(self)@ == old(self)@.binary(Operator::SMod),
    {
        self.log_operation(logger, "SMOD");
        let op1 = self.stack.pop();
        let op2 = self.stack.pop();
        self.stack.push(StackValue::SMod(Box::new(op1), Box::new(op2)));
    }

    /// The instruction ADDMOD.
    pub fn add_mod(&mut self, logger: &mut impl ContractLogger)
        requires
            old(self)@.stack.deficit + 3 <= usize::MAX,
        ensures
            final(self)@ == old(self)@.ternary(Operator::AddMod),
    {
        self.log_operation(logger, "ADDMOD");
        let op1 = self.stack.pop();
        let op2 = self.stack.pop();
        let op3 = self.stack.pop();
        self.stack.push(StackValue::AddMod(Box::new(op1), Box::new(op2), Box::new(op3)));
    }

    /// The instruction MULMOD.
    pub fn mul_mod(&mut self, logger: &mut impl ContractLogger)
        requires
            old(self)@.stack.deficit + 3 <= usize::MAX,
        ensures
            final(self)@ == old(self)@.ternary(Operator::MulMod),
    {
        self.log_operation(logger, "MULMOD");
        let op1 = self.stack.pop();
        let op2 = self.stack.pop();
        let op3 = self.stack.pop();
        self.stack.push(StackValue::MulMod(Box::new(op1), Box::new(op2), Box::new(op3)));
    }

    /// The instruction EXP.
    pub fn exp(&mut self, logger: &mut impl ContractLogger)
        requires
            old(self)@.stack.deficit + 2 <= usize::MAX,
        ensures
            final(self)@ == old(self)@.binary(Operator::Exp),
    {
        self.log_operation(logger, "EXP");
        let op1 = self.stack.pop();
        let op2 = self.stack.pop();
        self.stack.push(StackValue::Exp(Box::new(op1), Box::new(op2)));
    }

    /// The instruction SIGNEXTEND.
    pub fn sign_extend(&mut self, logger: &mut impl ContractLogger)
        requires
            old(self)@.stack.deficit + 2 <= usize::MAX,
        ensures
            final(self)@ == old(self)@.binary(Operator::SignExtend),
    {
        self.log_operation(logger, "SIGNEXTEND");
        let op1 = self.stack.pop();
        let op2 = self.stack.pop();
        self.stack.push(StackValue::SignExtend(Box::new(op1), Box::new(op2)));
    }

    /// The instruction LT.
    pub fn lt(&mut self, logger: &mut impl ContractLogger)
        requires
            old(self)@.stack.deficit + 2 <= usize::MAX,
        ensures
            final(self)@ == old(self)@.binary(Operator::LT),
    {
        self.log_operation(logger, "LT");
        let op1 = self.stack.pop();
        let op2 = self.stack.pop();
        self.stack.push(StackValue::LT(Box::new(op1), Box::new(op2)));
    }

    /// The instruction GT.
    pub fn gt(&mut self, logger: &mut impl ContractLogger)
        requires
            old(self)@.stack.deficit + 2 <= usize::MAX,
        ensures
            final(self)@ == old(self)@.binary(Operator::GT),
    {
        self.log_operation(logger, "GT");
        let op1 = self.stack.pop();
        let op2 = self.stack.pop();
        self.stack.push(StackValue::GT(Box::new(op1), Box::new(op2)));
    }

    /// The instruction SLT.
    pub fn slt(&mut self, logger: &mut impl ContractLogger)
        requires
            old(self)@.stack.deficit + 2 <= usize::MAX,
        ensures
            final(self)@ == old(self)@.binary(Operator::SLT),
    {
        self.log_operation(logger, "SLT");
        let op1 = self.stack.pop();
        let op2 = self.stack.pop();
        self.stack.push(StackValue::SLT(Box::new(op1), Box::new(op2)));
    }

    /// The instruction SGT.
    pub fn sgt(&mut self, logger: &mut impl ContractLogger)
        requires
            old(self)@.stack.deficit + 2 <= usize::MAX,
        ensures
            final(self)@ == old(self)@.binary(Operator::SGT),
    {
        self.log_operation(logger, "SGT");
        let op1 = self.stack.pop();
        let op2 = self.stack.pop();
        self.stack.push(StackValue::SGT(Box::new(op1), Box::new(op2)));
    }

    /// The instruction EQ.
    pub fn eq(&mut self, logger: &mut impl ContractLogger)
        requires
            old(self)@.stack.deficit + 2 <= usize::MAX,
        ensures
            final(self)@ == old(self)@.binary(Operator::EQ),
    {
        self.log_operation(logger, "EQ");
        let op1 = self.stack.pop();
        let op2 = self.stack.pop();
        self.stack.push(StackValue::EQ(Box::new(op1), Box::new(op2)));
    }

    /// The instruction ISZERO.
    pub fn iszero(&mut self, logger: &mut impl ContractLogger)
        requires
            old(self)@.stack.deficit + 1 <= usize::MAX,
        ensures
            final(self)@ == old(self)@.unary(Operator::IsZero),
    {
        self.log_operation(logger, "ISZERO");
        let op1 = self.stack.pop();
        self.stack.push(StackValue::IsZero(Box::new(op1)));
    }

    /// The instruction AND.
    pub fn and(&mut self, logger: &mut impl ContractLogger)
        requires
            old(self)@.stack.deficit + 2 <= usize::MAX,
        ensures
            final(self)@ == old(self)@.binary(Operator::And),
    {
        self.log_operation(logger, "AND");
        let op1 = self.stack.pop();
        let op2 = self.stack.pop();
        self.stack.push(StackValue::And(Box::new(op1), Box::new(op2)));
    }

    /// The instruction OR.
    pub fn or(&mut self, logger: &mut impl ContractLogger)
        requires
            old(self)@.stack.deficit + 2 <= usize::MAX,
        ensures
            final(self)@ == old(self)@.binary(Operator::Or),
    {
        self.log_operation(logger, "OR");
        let op1 = self.stack.pop();
        let op2 = self.stack.pop();
        self.stack.push(StackValue::Or(Box::new(op1), Box::new(op2)));
    }

    /// The instruction XOR.
    pub fn xor(&mut self, logger: &mut impl ContractLogger)
        requires
            old(self)@.stack.deficit + 2 <= usize::MAX,
        ensures
            final(self)@ == old(self)@.binary(Operator::Xor),
    {
        self.log_operation(logger, "XOR");
        let op1 = self.stack.pop();
        let op2 = self.stack.pop();
        self.stack.push(StackValue::Xor(Box::new(op1), Box::new(op2)));
    }

    /// The instruction NOT.
    pub fn not(&mut self, logger: &mut impl ContractLogger)
        requires
            old(self)@.stack.deficit + 1 <= usize::MAX,
        ensures
            final(self)@ == old(self)@.unary(Operator::Not),
    {
        self.log_operation(logger, "NOT");
        let op1 = self.stack.pop();
        self.stack.push(StackValue::Not(Box::new(op1)));
    }

    /// The instruction BYTE.
    pub fn byte(&mut self, logger: &mut impl ContractLogger)
        requires
            old(self)@.stack.deficit + 2 <= usize::MAX,
        ensures
            final(self)@ == old(self)@.binary(Operator::Byte),
    {
        self.log_operation(logger, "BYTE");
        let op1 = self.stack.pop();
        let op2 = self.stack.pop();
        self.stack.push(StackValue::Byte(Box::new(op1), Box::new(op2)));
    }

    /// The instruction SHL.
    pub fn shl(&mut self, logger: &mut impl ContractLogger)
        requires
            old(self)@.stack.deficit + 2 <= usize::MAX,
        ensures
            final(self)@ == old(self)@.binary(Operator::ShL),
    {
        self.log_operation(logger, "SHL");
        let op1 = self.stack.pop();
        let op2 = self.stack.pop();
        self.stack.push(StackValue::ShL(Box::new(op1), Box::new(op2)));
    }

    /// The instruction SHR.
    pub fn shr(&mut self, logger: &mut impl ContractLogger)
        requires
            old(self)@.stack.deficit + 2 <= usize::MAX,
        ensures
            final(self)@ == old(self)@.binary(Operator::Shr),
    {
        self.log_operation(logger, "SHR");
        let op1 = self.stack.pop();
        let op2 = self.stack.pop();
        self.stack.push(StackValue::Shr(Box::new(op1), Box::new(op2)));
    }

    /// The instruction SAR.
    pub fn sar(&mut self, logger: &mut impl ContractLogger)
        requires
            old(self)@.stack.deficit + 2 <= usize::MAX,
        ensures
            final(self)@ == old(self)@.binary(Operator::Sar),
    {
        self.log_operation(logger, "SAR");
        let op1 = self.stack.pop();
        let op2 = self.stack.pop();
        self.stack.push(StackValue::Sar(Box::new(op1), Box::new(op2)));
    }

    /// The instruction ADDRESS.
    pub fn address(&mut self, logger: &mut impl ContractLogger)
        ensures
            final(self)@ == old(self)@.nullary(Operator::Address),
    {
        self.log_operation(logger, "ADDRESS");
        self.stack.push(StackValue::Address);
    }

    /// The instruction BALANCE.
    pub fn balance(&mut self, logger: &mut impl ContractLogger)
        requires
            old(self)@.stack.deficit + 1 <= usize::MAX,
        ensures
            final(self)@ == old(self)@.unary(Operator::Balance),
    {
        self.log_operation(logger, "BALANCE");
        let op1 = self.stack.pop();
        self.stack.push(StackValue::Balance(Box::new(op1)));
    }

    /// The instruction ORIGIN.
    pub fn origin(&mut self, logger: &mut impl ContractLogger)
        ensures
            final(self)@ == old(self)@.nullary(Operator::Origin),
    {
        self.log_operation(logger, "ORIGIN");
        self.stack.push(StackValue::Origin);
    }

    /// The instruction CALLER.
    pub fn caller(&mut self, logger: &mut impl ContractLogger)
        ensures
            final(self)@ == old(self)@.nullary(Operator::Caller),
    {
        self.log_operation(logger, "CALLER");
        self.stack.push(StackValue::Caller);
    }

    /// The instruction CALLVALUE.
    pub fn callvalue(&mut self, logger: &mut impl ContractLogger)
        ensures
            final(self)@ == old(self)@.nullary(Operator::CallValue),
    {
        self.log_operation(logger, "CALLVALUE");
        self.stack.push(StackValue::CallValue);
    }

    /// The instruction CALLDATALOAD.
    pub fn calldata_load(&mut self, logger: &mut impl ContractLogger)
        requires
            old(self)@.stack.deficit + 1 <= usize::MAX,
        ensures
            final(self)@ == old(self)@.unary(Operator::CallDataLoad),
    {
        self.log_operation(logger, "CALLDATALOAD");
        let op1 = self.stack.pop();
        self.stack.push(StackValue::CallDataLoad(Box::new(op1)));
    }

    /// The instruction CALLDATASIZE.
    pub fn calldata_size(&mut self, logger: &mut impl ContractLogger)
        ensures
            final(self)@ == old(self)@.nullary(Operator::CallDataSize),
    {
        self.log_operation(logger, "CALLDATASIZE");
        self.stack.push(StackValue::CallDataSize);
    }

    /// The instruction CODESIZE.
    pub fn code_size(&mut self, logger: &mut impl ContractLogger)
        ensures
            final(self)@ == old(self)@.nullary(Operator::CodeSize),
    {
        self.log_operation(logger, "CODESIZE");
        self.stack.push(StackValue::CodeSize);
    }

    /// The instruction GASPRICE.
    pub fn gasprice(&mut self, logger: &mut impl ContractLogger)
        ensures
            final(self)@ == old(self)@.nullary(Operator::GasPrice),
    {
        self.log_operation(logger, "GASPRICE");
        self.stack.push(StackValue::GasPrice);
    }

    /// The instruction EXTCODESIZE.
    pub fn ext_codesize(&mut self, logger: &mut impl ContractLogger)
        requires
            old(self)@.stack.deficit + 1 <= usize::MAX,
        ensures
            final(self)@ == old(self)@.unary(Operator::ExtCodeSize),
    {
        self.log_operation(logger, "EXTCODESIZE");
        let op1 = self.stack.pop();
        self.stack.push(StackValue::ExtCodeSize(Box::new(op1)));
    }

    /// The instruction RETURNDATASIZE.
    pub fn return_data_size(&mut self, logger: &mut impl ContractLogger)
        ensures
            final(self)@ == old(self)@.nullary(Operator::ReturnDataSize),
    {
        self.log_operation(logger, "RETURNDATASIZE");
        self.stack.push(StackValue::ReturnDataSize);
    }

    /// The instruction EXTCODEHASH.
    pub fn ext_codehash(&mut self, logger: &mut impl ContractLogger)
        requires
            old(self)@.stack.deficit + 1 <= usize::MAX,
        ensures
            final(self)@ == old(self)@.unary(Operator::ExtCodeHash),
    {
        self.log_operation(logger, "EXTCODEHASH");
        let op1 = self.stack.pop();
        self.stack.push(StackValue::ExtCodeHash(Box::new(op1)));
    }

    /// The instruction BLOCKHASH.
    pub fn blockhash(&mut self, logger: &mut impl ContractLogger)
        requires
            old(self)@.stack.deficit + 1 <= usize::MAX,
        ensures
            final(self)@ == old(self)@.unary(Operator::Blockhash),
    {
        self.log_operation(logger, "BLOCKHASH");
        let op1 = self.stack.pop();
        self.stack.push(StackValue::Blockhash(Box::new(op1)));
    }

    /// The instruction COINBASE.
    pub fn coinbase(&mut self, logger: &mut impl ContractLogger)
        ensures
            final(self)@ == old(self)@.nullary(Operator::CoinBase),
    {
        self.log_operation(logger, "COINBASE");
        self.stack.push(StackValue::CoinBase);
    }

    /// The instruction TIMESTAMP.
    pub fn timestamp(&mut self, logger: &mut impl ContractLogger)
        ensures
            final(self)@ == old(self)@.nullary(Operator::TimeStamp),
    {
        self.log_operation(logger, "TIMESTAMP");
        self.stack.push(StackValue::TimeStamp);
    }

    /// The instruction NUMBER.
    pub fn number(&mut self, logger: &mut impl ContractLogger)
        ensures
            final(self)@ == old(self)@.nullary(Operator::Number),
    {
        self.log_operation(logger, "NUMBER");
        self.stack.push(StackValue::Number);
    }

    /// The instruction DIFFICULTY.
    pub fn difficulty(&mut self, logger: &mut impl ContractLogger)
        ensures
            final(self)@ == old(self)@.nullary(Operator::Difficulty),
    {
        self.log_operation(logger, "DIFFICULTY");
        self.stack.push(StackValue::Difficulty);
    }

    /// The instruction GASLIMIT.
    pub fn gaslimit(&mut self, logger: &mut impl ContractLogger)
        ensures
            final(self)@ == old(self)@.nullary(Operator::GasLimit),
    {
        self.log_operation(logger, "GASLIMIT");
        self.stack.push(StackValue::GasLimit);
    }

    /// The instruction MSIZE.
    pub fn msize(&mut self, logger: &mut impl ContractLogger)
        ensures
            final(self)@ == old(self)@.nullary(Operator::MSize),
    {
        self.log_operation(logger, "MSIZE");
        self.stack.push(StackValue::MSize);
    }

    /// The instruction GAS.
    pub fn gas(&mut self, logger: &mut impl ContractLogger)
        ensures
            final(self)@ == old(self)@.nullary(Operator::Gas),
    {
        self.log_operation(logger, "GAS");
        self.stack.push(StackValue::Gas);
    }

    /// The instruction CREATE.
    pub fn create(&mut self, logger: &mut impl ContractLogger)
        requires
            old(self)@.stack.deficit + 3 <= usize::MAX,
        ensures
            final(self)@ == old(self)@.ternary(Operator::Create),
    {
        self.log_operation(logger, "CREATE");
        let op1 = self.stack.pop();
        let op2 = self.stack.pop();
        let op3 = self.stack.pop();
        self.stack.push(StackValue::Create(Box::new(op1), Box::new(op2), Box::new(op3)));
    }

    /// The instruction DELEGATECALL.
    pub fn delegate_call(&mut self, logger: &mut impl ContractLogger)
        requires
            old(self)@.stack.deficit + 6 <= usize::MAX,
        ensures
            final(self)@ == old(self)@.senary(Operator::DelegateCall),
    {
        self.log_operation(logger, "DELEGATECALL");
        let op1 = self.stack.pop();
        let op2 = self.stack.pop();
        let op3 = self.stack.pop();
        let op4 = self.stack.pop();
        let op5 = self.stack.pop();
        let op6 = self.stack.pop();
        self.stack.push(
            StackValue::DelegateCall(
                Box::new(op1),
                Box::new(op2),
                Box::new(op3),
                Box::new(op4),
                Box::new(op5),
                Box::new(op6),
            ),
        );
    }

    /// The instruction CREATE2.
    pub fn create2(&mut self, logger: &mut impl ContractLogger)
        requires
            old(self)@.stack.deficit + 4 <= usize::MAX,
        ensures
            final(self)@ == old(self)@.quaternary(Operator::Create2),
    {
        self.log_operation(logger, "CREATE2");
        let op1 = self.stack.pop();
        let op2 = self.stack.pop();
        let op3 = self.stack.pop();
        let op4 = self.stack.pop();
        self.stack.push(
            StackValue::Create2(
                Box::new(op1),
                Box::new(op2),
                Box::new(op3),
                Box::new(op4),
            ),
        );
    }

    /// The instruction STATICCALL.
    pub fn static_call(&mut self, logger: &mut impl ContractLogger)
        requires
            old(self)@.stack.deficit + 6 <= usize::MAX,
        ensures
            final(self)@ == old(self)@.senary(Operator::StaticCall),
    {
        self.log_operation(logger, "STATICCALL");
        let op1 = self.stack.pop();
        let op2 = self.stack.pop();
        let op3 = self.stack.pop();
        let op4 = self.stack.pop();
        let op5 = self.stack.pop();
        let op6 = self.stack.pop();
        self.stack.push(
            StackValue::StaticCall(
                Box::new(op1),
                Box::new(op2),
                Box::new(op3),
                Box::new(op4),
                Box::new(op5),
                Box::new(op6),
            ),
        );
    }

    /// The instruction SELFDESTRUCT.
    pub fn selfdestruct(&mut self, logger: &mut impl ContractLogger)
        ensures
            final(self)@ == old(self)@.stop(),
    {
        self.log_operation(logger, "SELFDESTRUCT");
        self.ended = true;
    }

    /// The instruction SHA3.
    pub fn sha3(&mut self, logger: &mut impl ContractLogger)
        requires
            old(self)@.stack.deficit + 2 <= usize::MAX,
        ensures
            final(self)@ == old(self)@.sha3(),
    {
        self.log_operation(logger, "SHA3");
        let op1 = self.stack.pop();
        let op2 = self.stack.pop();
        let value = match (op1.resolve(), op2.resolve()) {
            (Some(offset), Some(length)) => StackValue::Sha3(self.memory.retrive_array(offset, length)),
            _ => StackValue::Unknown,
        };
        self.stack.push(value);
    }

    /// The instruction CALLDATACOPY.
    pub fn calldata_copy(&mut self, logger: &mut impl ContractLogger)
        requires
            old(self)@.stack.deficit + 3 <= usize::MAX,
        ensures
            final(self)@ == old(self)@.calldata_copy(),
    {
        self.log_operation(logger, "CALLDATACOPY");
        let length = self.stack.pop();
        let offset = self.stack.pop();
        let dest_offset = self.stack.pop();
        let length_clone = length.clone();
        let value = StackValue::CalldataCopy(Box::new(length), Box::new(offset));
        self.memory.store(dest_offset, value, length_clone);
    }

    /// The instruction CODECOPY.
    pub fn codecopy(&mut self, logger: &mut impl ContractLogger)
        requires
            old(self)@.stack.deficit + 3 <= usize::MAX,
        ensures
            final(self)@ == old(self)@.codecopy(),
    {
        self.log_operation(logger, "CODECOPY");
        let dest_offset = self.stack.pop();
        let code_offset = self.stack.pop();
        let length = self.stack.pop();
        let length2 = length.clone();
        let value = self.code_section(code_offset, length);
        self.memory.store(dest_offset, value, length2);
    }

    /// Start and size of the window of the code that concrete offset and
    /// length describe, where it lies inside the code.
    pub fn code_bounds(&self, code_offset: &StackValue, length: &StackValue) -> (r: Option<
        (usize, usize),
    >)
        ensures
            r == code_bounds_of(self.code@, code_offset@, length@),
    {
        let len = self.code.len();
        match (code_offset.resolve(), length.resolve()) {
            (Some(a), Some(b)) => match (a.to_usize(), b.to_usize()) {
                (Some(start), Some(size)) => {
                    if start <= len && size <= len - start {
                        Some((start, size))
                    } else {
                        None
                    }
                },
                _ => None,
            },
            _ => None,
        }
    }

    /// What CODECOPY stores for a window of the code.
    pub fn code_section(&self, code_offset: StackValue, length: StackValue) -> (r: StackValue)
        ensures
            r@ == code_window(self.code@, code_offset@, length@),
    {
        let len = self.code.len();
        match self.code_bounds(&code_offset, &length) {
            Some((start, size)) => StackValue::CodeSection(
                slice_to_vec(&self.code[start..start + size]),
            ),
            None => StackValue::CodeCopy(Box::new(code_offset), Box::new(length)),
        }
    }

    /// The instruction EXTCODECOPY.
    pub fn ext_codecopy(&mut self, logger: &mut impl ContractLogger)
        requires
            old(self)@.stack.deficit + 4 <= usize::MAX,
        ensures
            final(self)@ == old(self)@.ext_codecopy(),
    {
        self.log_operation(logger, "EXTCODECOPY");
        let length = self.stack.pop();
        let code_offset = self.stack.pop();
        let dest_offset = self.stack.pop();
        let addr = self.stack.pop();
        let length_clone = length.clone();
        let value = StackValue::ExtCodeCopy(Box::new(addr), Box::new(code_offset), Box::new(length_clone));
        self.memory.store(dest_offset, value, length);
    }

    /// The instruction RETURNDATACOPY.
    pub fn return_data_copy(&mut self, logger: &mut impl ContractLogger)
        requires
            old(self)@.stack.deficit + 3 <= usize::MAX,
        ensures
            final(self)@ == old(self)@.return_data_copy(),
    {
        self.log_operation(logger, "RETURNDATACOPY");
        let length = self.stack.pop();
        let code_offset = self.stack.pop();
        let dest_offset = self.stack.pop();
        let length_clone = length.clone();
        let value = StackValue::ReturnDataCopy(Box::new(code_offset), Box::new(length_clone));
        self.memory.store(dest_offset, value, length);
    }

    /// The instruction POP.
    pub fn pop(&mut self, logger: &mut impl ContractLogger)
        requires
            old(self)@.stack.deficit + 1 <= usize::MAX,
        ensures
            final(self)@ == old(self)@.pop(),
    {
        self.log_operation(logger, "POP");
        self.stack.pop();
    }

    /// The instruction MLOAD.
    pub fn mload(&mut self, logger: &mut impl ContractLogger)
        requires
            old(self)@.stack.deficit + 1 <= usize::MAX,
        ensures
            final(self)@ == old(self)@.mload(),
    {
        self.log_operation(logger, "MLOAD");
        let offset = self.stack.pop();
        let sv = self.memory.retrive(offset.clone(), StackValue::ActualValue(Word::from_u64(32)));
        if let Some(av) = sv {
            self.stack.push(av);
        } else {
            self.stack.push(
                StackValue::MemoryPlaceHolder(
                    Box::new(offset),
                    Box::new(StackValue::ActualValue(Word::from_u64(32))),
                ),
            )
        }
    }

    /// The instruction MSTORE.
    pub fn mstore(&mut self, logger: &mut impl ContractLogger)
        requires
            old(self)@.stack.deficit + 2 <= usize::MAX,
        ensures
            final(self)@ == old(self)@.mstore(32),
    {
        self.log_operation(logger, "MSTORE");
        let op1 = self.stack.pop();
        let op2 = self.stack.pop();
        self.memory.store(op1, op2, StackValue::ActualValue(Word::from_u64(32)));
    }

    /// The instruction MSTORE8.
    pub fn mstore8(&mut self, logger: &mut impl ContractLogger)
        requires
            old(self)@.stack.deficit + 2 <= usize::MAX,
        ensures
            final(self)@ == old(self)@.mstore(1),
    {
        self.log_operation(logger, "MSTORE8");
        let op1 = self.stack.pop();
        let op2 = self.stack.pop();
        self.memory.store(op1, op2, StackValue::ActualValue(Word::from_u64(1)));
    }

    /// The instruction SLOAD.
    pub fn sload(&mut self, logger: &mut impl ContractLogger)
        requires
            old(self)@.stack.deficit + 1 <= usize::MAX,
        ensures
            final(self)@ == old(self)@.sload(),
    {
        self.log_operation(logger, "SLOAD");
        let op1 = self.stack.pop();
        self.stack.push(StackValue::SLoad(Box::new(op1.clone())));
        self.storage_access_read.insert(op1);
    }

    /// The instruction SSTORE.
    pub fn sstore(&mut self, logger: &mut impl ContractLogger)
        requires
            old(self)@.stack.deficit + 2 <= usize::MAX,
        ensures
            final(self)@ == old(self)@.sstore(),
    {
        self.log_operation(logger, "SSTORE");
        let storage = self.stack.pop();
        self.stack.pop();
        self.storage_access_write.insert(storage);
    }

    /// The instruction JUMP.
    pub fn jump(&mut self, logger: &mut impl ContractLogger)
        requires
            old(self)@.stack.deficit + 1 <= usize::MAX,
        ensures
            final(self)@ == old(self)@.jump(),
    {
        self.log_operation(logger, "JUMP");
        let jmp_address = self.stack.pop();
        self.ended = true;
        let edge = (jmp_address, self.stack.clone(), self.memory.clone(), None);
        let ghost before = self.internal_calls@;
        self.internal_calls.push(edge);
        assert(edges_model(self.internal_calls@) =~= edges_model(before).push(edge_model(edge)));
    }

    /// The instruction JUMPI.
    pub fn jumpi(&mut self, logger: &mut impl ContractLogger)
        requires
            old(self)@.stack.deficit + 2 <= usize::MAX,
        ensures
            final(self)@ == old(self)@.jumpi(),
    {
        self.log_operation(logger, "JUMPI");
        let jmp_address = self.stack.pop();
        let condition = self.stack.pop();
        let edge = (jmp_address, self.stack.clone(), self.memory.clone(), Some(condition));
        let ghost before = self.internal_calls@;
        self.internal_calls.push(edge);
        assert(edges_model(self.internal_calls@) =~= edges_model(before).push(edge_model(edge)));
    }

    /// The instruction PC.
    pub fn pc(&mut self, logger: &mut impl ContractLogger)
        ensures
            final(self)@ == old(self)@.program_counter(),
    {
        self.log_operation(logger, "PC");
        self.stack.push(StackValue::ActualValue(Word::from_usize(self.pc)));
    }

    /// The instruction JUMPDEST.
    pub fn jumpdest(&mut self, logger: &mut impl ContractLogger)
        ensures
            final(self)@ == old(self)@.jumpdest(),
    {
        self.log_operation(logger, "JUMPDEST");
    }

    /// PUSH of `length` bytes, 1 to 32.
    pub fn push(&mut self, length: usize, logger: &mut impl ContractLogger)
        requires
            length <= 32,
        ensures
            final(self)@ == old(self)@.push(length as nat),
    {
        let len = self.code.len();
        let start = if self.pc < len {
            self.pc + 1
        } else {
            len
        };
        let end = if length <= len - start {
            start + length
        } else {
            len
        };
        let value = match Word::from_big_endian(&self.code[start..end]) {
            Some(w) => w,
            None => Word::zero(),
        };
        let label = push_label(value);
        self.log_operation(logger, label.as_str());
        self.pc += end - start;
        self.stack.push(StackValue::ActualValue(value));
    }

    /// DUP of the value at position `n` from the top.
    pub fn dup(&mut self, n: usize, logger: &mut impl ContractLogger)
        ensures
            final(self)@ == old(self)@.dup(n as nat),
    {
        let label = numbered_label("DUP", n);
        self.log_operation(logger, label.as_str());
        let value = self.stack.clone_pos(n);
        self.stack.push(value);
    }

    /// SWAP of the top with the value `n` places below it.
    pub fn swap(&mut self, n: usize, logger: &mut impl ContractLogger)
        requires
            old(self)@.stack.deficit + n + 1 <= usize::MAX,
        ensures
            final(self)@ == old(self)@.swap(n as nat),
    {
        let label = numbered_label("SWAP", n);
        self.log_operation(logger, label.as_str());
        self.stack.swap(n);
    }

    /// LOG with `n` topics.
    pub fn log(&mut self, n: usize, logger: &mut impl ContractLogger)
        requires
            old(self)@.stack.deficit + n + 2 <= usize::MAX,
        ensures
            final(self)@ == old(self)@.log(n as nat),
    {
        let label = numbered_label("LOG", n);
        self.log_operation(logger, label.as_str());
        let ghost start = self@.stack;
        proof {
            lemma_pop_n_deficit(start, 1);
            lemma_pop_n_step(start, 0);
            lemma_pop_n_step(start, 1);
        }
        self.stack.pop();
        proof {
            lemma_pop_n_deficit(start, 1);
        }
        self.stack.pop();
        let mut i: usize = 0;
        while i < n
            invariant
                i <= n,
                start.deficit + n + 2 <= usize::MAX,
                self.stack@ == start.pop_n((i + 2) as nat),
                self@ == (FunctionModel { stack: self.stack@, ..old(self)@ }),
            decreases n - i,
        {
            proof {
                lemma_pop_n_deficit(start, (i + 2) as nat);
                lemma_pop_n_step(start, (i + 2) as nat);
            }
            self.stack.pop();
            i += 1;
        }
    }

    /// The instruction CALL.
    pub fn call(&mut self, logger: &mut impl ContractLogger)
        requires
            old(self)@.stack.deficit + 7 <= usize::MAX,
        ensures
            final(self)@ == old(self)@.call(),
    {
        self.log_operation(logger, "CALL");
        let op1 = self.stack.pop();
        let address = self.stack.pop();
        let op3 = self.stack.pop();
        let offset = self.stack.pop();
        let mem_length = self.stack.pop();
        let op6 = self.stack.pop();
        let op7 = self.stack.pop();
        let mem_value = self.memory.retrive(offset.clone(), mem_length.clone());
        self.external_calls.insert((address.clone(), mem_value.unwrap()));
        self.stack.push(
            StackValue::Call(
                Box::new(op1),
                Box::new(address),
                Box::new(op3),
                Box::new(offset),
                Box::new(mem_length),
                Box::new(op6),
                Box::new(op7),
            ),
        )
    }

    /// The instruction RETURN.
    pub fn return_(&mut self, logger: &mut impl ContractLogger)
        requires
            old(self)@.stack.deficit + 2 <= usize::MAX,
        ensures
            final(self)@ == old(self)@.return_(),
    {
        self.log_operation(logger, "RETURN");
        let op1 = self.stack.pop();
        let op2 = self.stack.pop();
        self.return_value = Some((op2, op1));
        self.ended = true;
    }

    /// The instruction REVERT.
    pub fn revert(&mut self, logger: &mut impl ContractLogger)
        ensures
            final(self)@ == old(self)@.revert(),
    {
        self.log_operation(logger, "REVERT");
        self.storage_access_read.clear();
        self.storage_access_write.clear();
        self.external_calls.clear();
        self.ended = true;
    }
}

/// A copy of a window of the code.
pub fn slice_to_vec(bytes: &[u8]) -> (out: Vec<u8>)
    ensures
        out@ == bytes@,
{
    let mut out: Vec<u8> = Vec::new();
    let mut i: usize = 0;
    while i < bytes.len()
        invariant
            i <= bytes.len(),
            out@ == bytes@.take(i as int),
        decreases bytes.len() - i,
    {
        out.push(bytes[i]);
        i += 1;
    }
    assert(bytes@.take(bytes.len() as int) =~= bytes@);
    out
}

} // verus!

