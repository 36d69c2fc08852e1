//! Symbolic values: the expression trees that stand for the words a block
//! computes.
//!
//! [`StackValue`] is the executable tree.  Its view is the mathematical tree
//! [`Expr`], in which two values are equal exactly when they have the same
//! shape: every contract of this library speaks of that view.

use vstd::prelude::*;
use crate::word::Word;
use crate::word::be_value;
use crate::evm_memory::EvmMemory;
use crate::evm_memory::EvmStack;
use crate::evm_memory::MemoryModel;
use crate::evm_memory::StackModel;
use crate::evm_memory::memory_read;

verus! {

/// The operators of symbolic values: every kind of node but literals, code
/// bytes, hashes and stack-slot placeholders.
#[derive(Clone, Copy, Debug, PartialEq, Eq, Hash, Structural)]
pub enum Operator {
    Calldata,
    Unknown,
    Add,
    Mul,
    Sub,
    Div,
    SDiv,
    Mod,
    SMod,
    AddMod,
    MulMod,
    Exp,
    SignExtend,
    LT,
    GT,
    SLT,
    SGT,
    EQ,
    IsZero,
    And,
    Or,
    Xor,
    Not,
    Byte,
    ShL,
    Shr,
    Sar,
    Address,
    Balance,
    Origin,
    Caller,
    CallValue,
    CallDataLoad,
    CallDataSize,
    CalldataCopy,
    CodeSize,
    CodeCopy,
    GasPrice,
    ExtCodeSize,
    ExtCodeCopy,
    ReturnDataSize,
    ReturnDataCopy,
    ExtCodeHash,
    Blockhash,
    CoinBase,
    TimeStamp,
    Number,
    Difficulty,
    GasLimit,
    SLoad,
    PC,
    MSize,
    Gas,
    Create,
    Call,
    CallCode,
    DelegateCall,
    Create2,
    StaticCall,
    MemoryPlaceHolder,
}

/// The mathematical model of a symbolic value.
pub enum Expr {
    /// A concrete word.
    Literal(Word),
    /// Bytes copied out of the code.
    Code(Seq<u8>),
    /// The hash of a list of preimages, each with its byte offset.
    Hash(Seq<(nat, Expr)>),
    /// The value that the caller holds at a depth of its stack.
    Slot(nat),
    /// An operator without operands.
    Op0(Operator),
    /// An operator applied to one operand.
    Op1(Operator, Box<Expr>),
    /// An operator applied to two operands.
    Op2(Operator, Box<Expr>, Box<Expr>),
    /// An operator applied to three operands.
    Op3(Operator, Box<Expr>, Box<Expr>, Box<Expr>),
    /// An operator applied to four operands.
    Op4(Operator, Box<Expr>, Box<Expr>, Box<Expr>, Box<Expr>),
    /// An operator applied to six operands.
    Op6(Operator, Box<Expr>, Box<Expr>, Box<Expr>, Box<Expr>, Box<Expr>, Box<Expr>),
    /// An operator applied to seven operands.
    Op7(
        Operator,
        Box<Expr>,
        Box<Expr>,
        Box<Expr>,
        Box<Expr>,
        Box<Expr>,
        Box<Expr>,
        Box<Expr>,
    ),
}

/// A symbolic value: a word that a block computes, as an expression tree.
#[derive(Debug, PartialEq, Eq, Hash)]
pub enum StackValue {
    /// A concrete word.
    ActualValue(Word),
    /// The whole call data.
    Calldata,
    /// A value of which nothing is known.
    Unknown,
    Add(Box<StackValue>, Box<StackValue>),
    Mul(Box<StackValue>, Box<StackValue>),
    Sub(Box<StackValue>, Box<StackValue>),
    Div(Box<StackValue>, Box<StackValue>),
    SDiv(Box<StackValue>, Box<StackValue>),
    Mod(Box<StackValue>, Box<StackValue>),
    SMod(Box<StackValue>, Box<StackValue>),
    AddMod(Box<StackValue>, Box<StackValue>, Box<StackValue>),
    MulMod(Box<StackValue>, Box<StackValue>, Box<StackValue>),
    Exp(Box<StackValue>, Box<StackValue>),
    SignExtend(Box<StackValue>, Box<StackValue>),
    LT(Box<StackValue>, Box<StackValue>),
    GT(Box<StackValue>, Box<StackValue>),
    SLT(Box<StackValue>, Box<StackValue>),
    SGT(Box<StackValue>, Box<StackValue>),
    EQ(Box<StackValue>, Box<StackValue>),
    IsZero(Box<StackValue>),
    And(Box<StackValue>, Box<StackValue>),
    Or(Box<StackValue>, Box<StackValue>),
    Xor(Box<StackValue>, Box<StackValue>),
    Not(Box<StackValue>),
    Byte(Box<StackValue>, Box<StackValue>),
    ShL(Box<StackValue>, Box<StackValue>),
    Shr(Box<StackValue>, Box<StackValue>),
    Sar(Box<StackValue>, Box<StackValue>),
    /// The hash of the memory entries in a window, each with its byte offset.
    Sha3(Vec<(usize, StackValue)>),
    Address,
    Balance(Box<StackValue>),
    Origin,
    Caller,
    CallValue,
    /// The word of call data at an offset.
    CallDataLoad(Box<StackValue>),
    CallDataSize,
    CalldataCopy(Box<StackValue>, Box<StackValue>),
    CodeSize,
    CodeCopy(Box<StackValue>, Box<StackValue>),
    GasPrice,
    ExtCodeSize(Box<StackValue>),
    ExtCodeCopy(Box<StackValue>, Box<StackValue>, Box<StackValue>),
    ReturnDataSize,
    ReturnDataCopy(Box<StackValue>, Box<StackValue>),
    ExtCodeHash(Box<StackValue>),
    Blockhash(Box<StackValue>),
    CoinBase,
    TimeStamp,
    Number,
    Difficulty,
    GasLimit,
    /// The content of a storage slot.
    SLoad(Box<StackValue>),
    PC,
    MSize,
    Gas,
    Create(Box<StackValue>, Box<StackValue>, Box<StackValue>),
    Call(Box<StackValue>, Box<StackValue>, Box<StackValue>, Box<StackValue>, Box<StackValue>, Box<StackValue>, Box<StackValue>),
    CallCode(Box<StackValue>, Box<StackValue>, Box<StackValue>, Box<StackValue>, Box<StackValue>, Box<StackValue>, Box<StackValue>),
    DelegateCall(Box<StackValue>, Box<StackValue>, Box<StackValue>, Box<StackValue>, Box<StackValue>, Box<StackValue>),
    Create2(Box<StackValue>, Box<StackValue>, Box<StackValue>, Box<StackValue>),
    StaticCall(Box<StackValue>, Box<StackValue>, Box<StackValue>, Box<StackValue>, Box<StackValue>, Box<StackValue>),
    /// Bytes copied out of the code.
    CodeSection(Vec<u8>),
    /// The value that the caller holds at a depth of its stack.
    StackPaceHolder(usize),
    /// A read of the caller's memory: offset and length.
    MemoryPlaceHolder(Box<StackValue>, Box<StackValue>),
}

/// The model of a list of hash preimages.
pub open spec fn preimages_model(v: Seq<(usize, StackValue)>) -> Seq<(nat, Expr)>
    decreases v,
{
    Seq::new(
        v.len(),
        |i: int|
            if 0 <= i < v.len() {
                (v[i].0 as nat, v[i].1.expr())
            } else {
                (0nat, Expr::Slot(0))
            },
    )
}

impl StackValue {
    /// The mathematical tree that this value stands for.
    pub open spec fn expr(&self) -> Expr
        decreases self,
    {
        match self {
            StackValue::ActualValue(x) => Expr::Literal(*x),
            StackValue::Sha3(v) => Expr::Hash(preimages_model(v@)),
            StackValue::CodeSection(c) => Expr::Code(c@),
            StackValue::StackPaceHolder(d) => Expr::Slot(*d as nat),
            StackValue::Calldata => Expr::Op0(Operator::Calldata),
            StackValue::Unknown => Expr::Op0(Operator::Unknown),
            StackValue::Add(a, b) => Expr::Op2(
                Operator::Add,
                Box::new(a.expr()),
                Box::new(b.expr()),
            ),
            StackValue::Mul(a, b) => Expr::Op2(
                Operator::Mul,
                Box::new(a.expr()),
                Box::new(b.expr()),
            ),
            StackValue::Sub(a, b) => Expr::Op2(
                Operator::Sub,
                Box::new(a.expr()),
                Box::new(b.expr()),
            ),
            StackValue::Div(a, b) => Expr::Op2(
                Operator::Div,
                Box::new(a.expr()),
                Box::new(b.expr()),
            ),
            StackValue::SDiv(a, b) => Expr::Op2(
                Operator::SDiv,
                Box::new(a.expr()),
                Box::new(b.expr()),
            ),
            StackValue::Mod(a, b) => Expr::Op2(
                Operator::Mod,
                Box::new(a.expr()),
                Box::new(b.expr()),
            ),
            StackValue::SMod(a, b) => Expr::Op2(
                Operator::SMod,
                Box::new(a.expr()),
                Box::new(b.expr()),
            ),
            StackValue::AddMod(a, b, c) => Expr::Op3(
                Operator::AddMod,
                Box::new(a.expr()),
                Box::new(b.expr()),
                Box::new(c.expr()),
            ),
            StackValue::MulMod(a, b, c) => Expr::Op3(
                Operator::MulMod,
                Box::new(a.expr()),
                Box::new(b.expr()),
                Box::new(c.expr()),
            ),
            StackValue::Exp(a, b) => Expr::Op2(
                Operator::Exp,
                Box::new(a.expr()),
                Box::new(b.expr()),
            ),
            StackValue::SignExtend(a, b) => Expr::Op2(
                Operator::SignExtend,
                Box::new(a.expr()),
                Box::new(b.expr()),
            ),
            StackValue::LT(a, b) => Expr::Op2(
                Operator::LT,
                Box::new(a.expr()),
                Box::new(b.expr()),
            ),
            StackValue::GT(a, b) => Expr::Op2(
                Operator::GT,
                Box::new(a.expr()),
                Box::new(b.expr()),
            ),
            StackValue::SLT(a, b) => Expr::Op2(
                Operator::SLT,
                Box::new(a.expr()),
                Box::new(b.expr()),
            ),
            StackValue::SGT(a, b) => Expr::Op2(
                Operator::SGT,
                Box::new(a.expr()),
                Box::new(b.expr()),
            ),
            StackValue::EQ(a, b) => Expr::Op2(
                Operator::EQ,
                Box::new(a.expr()),
                Box::new(b.expr()),
            ),
            StackValue::IsZero(a) => Expr::Op1(
                Operator::IsZero,
                Box::new(a.expr()),
            ),
            StackValue::And(a, b) => Expr::Op2(
                Operator::And,
                Box::new(a.expr()),
                Box::new(b.expr()),
            ),
            StackValue::Or(a, b) => Expr::Op2(
                Operator::Or,
                Box::new(a.expr()),
                Box::new(b.expr()),
            ),
            StackValue::Xor(a, b) => Expr::Op2(
                Operator::Xor,
                Box::new(a.expr()),
                Box::new(b.expr()),
            ),
            StackValue::Not(a) => Expr::Op1(
                Operator::Not,
                Box::new(a.expr()),
            ),
            StackValue::Byte(a, b) => Expr::Op2(
                Operator::Byte,
                Box::new(a.expr()),
                Box::new(b.expr()),
            ),
            StackValue::ShL(a, b) => Expr::Op2(
                Operator::ShL,
                Box::new(a.expr()),
                Box::new(b.expr()),
            ),
            StackValue::Shr(a, b) => Expr::Op2(
                Operator::Shr,
                Box::new(a.expr()),
                Box::new(b.expr()),
            ),
            StackValue::Sar(a, b) => Expr::Op2(
                Operator::Sar,
                Box::new(a.expr()),
                Box::new(b.expr()),
            ),
            StackValue::Address => Expr::Op0(Operator::Address),
            StackValue::Balance(a) => Expr::Op1(
                Operator::Balance,
                Box::new(a.expr()),
            ),
            StackValue::Origin => Expr::Op0(Operator::Origin),
            StackValue::Caller => Expr::Op0(Operator::Caller),
            StackValue::CallValue => Expr::Op0(Operator::CallValue),
            StackValue::CallDataLoad(a) => Expr::Op1(
                Operator::CallDataLoad,
                Box::new(a.expr()),
            ),
            StackValue::CallDataSize => Expr::Op0(Operator::CallDataSize),
            StackValue::CalldataCopy(a, b) => Expr::Op2(
                Operator::CalldataCopy,
                Box::new(a.expr()),
                Box::new(b.expr()),
            ),
            StackValue::CodeSize => Expr::Op0(Operator::CodeSize),
            StackValue::CodeCopy(a, b) => Expr::Op2(
                Operator::CodeCopy,
                Box::new(a.expr()),
                Box::new(b.expr()),
            ),
            StackValue::GasPrice => Expr::Op0(Operator::GasPrice),
            StackValue::ExtCodeSize(a) => Expr::Op1(
                Operator::ExtCodeSize,
                Box::new(a.expr()),
            ),
            StackValue::ExtCodeCopy(a, b, c) => Expr::Op3(
                Operator::ExtCodeCopy,
                Box::new(a.expr()),
                Box::new(b.expr()),
                Box::new(c.expr()),
            ),
            StackValue::ReturnDataSize => Expr::Op0(Operator::ReturnDataSize),
            StackValue::ReturnDataCopy(a, b) => Expr::Op2(
                Operator::ReturnDataCopy,
                Box::new(a.expr()),
                Box::new(b.expr()),
            ),
            StackValue::ExtCodeHash(a) => Expr::Op1(
                Operator::ExtCodeHash,
                Box::new(a.expr()),
            ),
            StackValue::Blockhash(a) => Expr::Op1(
                Operator::Blockhash,
                Box::new(a.expr()),
            ),
            StackValue::CoinBase => Expr::Op0(Operator::CoinBase),
            StackValue::TimeStamp => Expr::Op0(Operator::TimeStamp),
            StackValue::Number => Expr::Op0(Operator::Number),
            StackValue::Difficulty => Expr::Op0(Operator::Difficulty),
            StackValue::GasLimit => Expr::Op0(Operator::GasLimit),
            StackValue::SLoad(a) => Expr::Op1(
                Operator::SLoad,
                Box::new(a.expr()),
            ),
            StackValue::PC => Expr::Op0(Operator::PC),
            StackValue::MSize => Expr::Op0(Operator::MSize),
            StackValue::Gas => Expr::Op0(Operator::Gas),
            StackValue::Create(a, b, c) => Expr::Op3(
                Operator::Create,
                Box::new(a.expr()),
                Box::new(b.expr()),
                Box::new(c.expr()),
            ),
            StackValue::Call(a, b, c, d, e, f, g) => Expr::Op7(
                Operator::Call,
                Box::new(a.expr()),
                Box::new(b.expr()),
                Box::new(c.expr()),
                Box::new(d.expr()),
                Box::new(e.expr()),
                Box::new(f.expr()),
                Box::new(g.expr()),
            ),
            StackValue::CallCode(a, b, c, d, e, f, g) => Expr::Op7(
                Operator::CallCode,
                Box::new(a.expr()),
                Box::new(b.expr()),
                Box::new(c.expr()),
                Box::new(d.expr()),
                Box::new(e.expr()),
                Box::new(f.expr()),
                Box::new(g.expr()),
            ),
            StackValue::DelegateCall(a, b, c, d, e, f) => Expr::Op6(
                Operator::DelegateCall,
                Box::new(a.expr()),
                Box::new(b.expr()),
                Box::new(c.expr()),
                Box::new(d.expr()),
                Box::new(e.expr()),
                Box::new(f.expr()),
            ),
            StackValue::Create2(a, b, c, d) => Expr::Op4(
                Operator::Create2,
                Box::new(a.expr()),
                Box::new(b.expr()),
                Box::new(c.expr()),
                Box::new(d.expr()),
            ),
            StackValue::StaticCall(a, b, c, d, e, f) => Expr::Op6(
                Operator::StaticCall,
                Box::new(a.expr()),
                Box::new(b.expr()),
                Box::new(c.expr()),
                Box::new(d.expr()),
                Box::new(e.expr()),
                Box::new(f.expr()),
            ),
            StackValue::MemoryPlaceHolder(a, b) => Expr::Op2(
                Operator::MemoryPlaceHolder,
                Box::new(a.expr()),
                Box::new(b.expr()),
            ),
        }
    }
}

impl View for StackValue {
    type V = Expr;

    open spec fn view(&self) -> Expr {
        self.expr()
    }
}

/// A copy of a list of code bytes.
pub fn clone_bytes(c: &Vec<u8>) -> (out: Vec<u8>)
    ensures
        out@ == c@,
{
    let mut out: Vec<u8> = Vec::new();
    let mut i: usize = 0;
    while i < c.len()
        invariant
            i <= c.len(),
            out@ == c@.take(i as int),
        decreases c.len() - i,
    {
        out.push(c[i]);
        i += 1;
    }
    assert(c@.take(c.len() as int) =~= c@);
    out
}

/// Whether two lists of code bytes are equal.
pub fn same_bytes(a: &Vec<u8>, b: &Vec<u8>) -> (r: bool)
    ensures
        r == (a@ == b@),
{
    if a.len() != b.len() {
        return false;
    }
    let mut i: usize = 0;
    while i < a.len()
        invariant
            i <= a.len(),
            a.len() == b.len(),
            a@.take(i as int) == b@.take(i as int),
        decreases a.len() - i,
    {
        if a[i] != b[i] {
            return false;
        }
        assert(a@.take(i + 1) =~= a@.take(i as int).push(a@[i as int]));
        assert(b@.take(i + 1) =~= b@.take(i as int).push(b@[i as int]));
        i += 1;
    }
    assert(a@.take(a.len() as int) =~= a@);
    assert(b@.take(b.len() as int) =~= b@);
    true
}

/// A copy of a list of hash preimages.
pub fn clone_preimages(v: &Vec<(usize, StackValue)>) -> (out: Vec<(usize, StackValue)>)
    ensures
        preimages_model(out@) == preimages_model(v@),
    decreases v,
{
    let mut out: Vec<(usize, StackValue)> = Vec::new();
    let mut i: usize = 0;
    while i < v.len()
        invariant
            i <= v.len(),
            out.len() == i,
            forall|j: int|
                0 <= j < i ==> out[j].0 == v[j].0 && (#[trigger] out[j]).1.expr() == v[j].1.expr(),
        decreases v.len() - i,
    {
        let item = &v[i];
        let copy = item.1.clone();
        out.push((item.0, copy));
        i += 1;
    }
    assert(preimages_model(out@) =~= preimages_model(v@));
    out
}

/// Whether two lists of hash preimages have the same model.
pub fn same_preimages(a: &Vec<(usize, StackValue)>, b: &Vec<(usize, StackValue)>) -> (r: bool)
    ensures
        r == (preimages_model(a@) == preimages_model(b@)),
    decreases a,
{
    if a.len() != b.len() {
        assert(preimages_model(a@).len() != preimages_model(b@).len());
        return false;
    }
    let mut i: usize = 0;
    while i < a.len()
        invariant
            i <= a.len(),
            a.len() == b.len(),
            forall|j: int|
                0 <= j < i ==> a[j].0 == b[j].0 && (#[trigger] a[j]).1.expr() == b[j].1.expr(),
        decreases a.len() - i,
    {
        let x = &a[i];
        let y = &b[i];
        if x.0 != y.0 || !x.1.same(&y.1) {
            assert(preimages_model(a@)[i as int] != preimages_model(b@)[i as int]);
            return false;
        }
        i += 1;
    }
    assert(preimages_model(a@) =~= preimages_model(b@));
    true
}

impl Clone for StackValue {
    /// A deep copy: a value with the same model.
    fn clone(&self) -> (r: Self)
        ensures
            r@ == self@,
        decreases self,
    {
        match self {
            StackValue::ActualValue(x) => StackValue::ActualValue(*x),
            StackValue::Sha3(v) => StackValue::Sha3(clone_preimages(v)),
            StackValue::CodeSection(c) => StackValue::CodeSection(clone_bytes(c)),
            StackValue::StackPaceHolder(d) => StackValue::StackPaceHolder(*d),
            StackValue::Calldata => StackValue::Calldata,
            StackValue::Unknown => StackValue::Unknown,
            StackValue::Add(a, b) => StackValue::Add(
                Box::new((**a).clone()),
                Box::new((**b).clone()),
            ),
            StackValue::Mul(a, b) => StackValue::Mul(
                Box::new((**a).clone()),
                Box::new((**b).clone()),
            ),
            StackValue::Sub(a, b) => StackValue::Sub(
                Box::new((**a).clone()),
                Box::new((**b).clone()),
            ),
            StackValue::Div(a, b) => StackValue::Div(
                Box::new((**a).clone()),
                Box::new((**b).clone()),
            ),
            StackValue::SDiv(a, b) => StackValue::SDiv(
                Box::new((**a).clone()),
                Box::new((**b).clone()),
            ),
            StackValue::Mod(a, b) => StackValue::Mod(
                Box::new((**a).clone()),
                Box::new((**b).clone()),
            ),
            StackValue::SMod(a, b) => StackValue::SMod(
                Box::new((**a).clone()),
                Box::new((**b).clone()),
            ),
            StackValue::AddMod(a, b, c) => StackValue::AddMod(
                Box::new((**a).clone()),
                Box::new((**b).clone()),
                Box::new((**c).clone()),
            ),
            StackValue::MulMod(a, b, c) => StackValue::MulMod(
                Box::new((**a).clone()),
                Box::new((**b).clone()),
                Box::new((**c).clone()),
            ),
            StackValue::Exp(a, b) => StackValue::Exp(
                Box::new((**a).clone()),
                Box::new((**b).clone()),
            ),
            StackValue::SignExtend(a, b) => StackValue::SignExtend(
                Box::new((**a).clone()),
                Box::new((**b).clone()),
            ),
            StackValue::LT(a, b) => StackValue::LT(
                Box::new((**a).clone()),
                Box::new((**b).clone()),
            ),
            StackValue::GT(a, b) => StackValue::GT(
                Box::new((**a).clone()),
                Box::new((**b).clone()),
            ),
            StackValue::SLT(a, b) => StackValue::SLT(
                Box::new((**a).clone()),
                Box::new((**b).clone()),
            ),
            StackValue::SGT(a, b) => StackValue::SGT(
                Box::new((**a).clone()),
                Box::new((**b).clone()),
            ),
            StackValue::EQ(a, b) => StackValue::EQ(
                Box::new((**a).clone()),
                Box::new((**b).clone()),
            ),
            StackValue::IsZero(a) => StackValue::IsZero(
                Box::new((**a).clone()),
            ),
            StackValue::And(a, b) => StackValue::And(
                Box::new((**a).clone()),
                Box::new((**b).clone()),
            ),
            StackValue::Or(a, b) => StackValue::Or(
                Box::new((**a).clone()),
                Box::new((**b).clone()),
            ),
            StackValue::Xor(a, b) => StackValue::Xor(
                Box::new((**a).clone()),
                Box::new((**b).clone()),
            ),
            StackValue::Not(a) => StackValue::Not(
                Box::new((**a).clone()),
            ),
            StackValue::Byte(a, b) => StackValue::Byte(
                Box::new((**a).clone()),
                Box::new((**b).clone()),
            ),
            StackValue::ShL(a, b) => StackValue::ShL(
                Box::new((**a).clone()),
                Box::new((**b).clone()),
            ),
            StackValue::Shr(a, b) => StackValue::Shr(
                Box::new((**a).clone()),
                Box::new((**b).clone()),
            ),
            StackValue::Sar(a, b) => StackValue::Sar(
                Box::new((**a).clone()),
                Box::new((**b).clone()),
            ),
            StackValue::Address => StackValue::Address,
            StackValue::Balance(a) => StackValue::Balance(
                Box::new((**a).clone()),
            ),
            StackValue::Origin => StackValue::Origin,
            StackValue::Caller => StackValue::Caller,
            StackValue::CallValue => StackValue::CallValue,
            StackValue::CallDataLoad(a) => StackValue::CallDataLoad(
                Box::new((**a).clone()),
            ),
            StackValue::CallDataSize => StackValue::CallDataSize,
            StackValue::CalldataCopy(a, b) => StackValue::CalldataCopy(
                Box::new((**a).clone()),
                Box::new((**b).clone()),
            ),
            StackValue::CodeSize => StackValue::CodeSize,
            StackValue::CodeCopy(a, b) => StackValue::CodeCopy(
                Box::new((**a).clone()),
                Box::new((**b).clone()),
            ),
            StackValue::GasPrice => StackValue::GasPrice,
            StackValue::ExtCodeSize(a) => StackValue::ExtCodeSize(
                Box::new((**a).clone()),
            ),
            StackValue::ExtCodeCopy(a, b, c) => StackValue::ExtCodeCopy(
                Box::new((**a).clone()),
                Box::new((**b).clone()),
                Box::new((**c).clone()),
            ),
            StackValue::ReturnDataSize => StackValue::ReturnDataSize,
            StackValue::ReturnDataCopy(a, b) => StackValue::ReturnDataCopy(
                Box::new((**a).clone()),
                Box::new((**b).clone()),
            ),
            StackValue::ExtCodeHash(a) => StackValue::ExtCodeHash(
                Box::new((**a).clone()),
            ),
            StackValue::Blockhash(a) => StackValue::Blockhash(
                Box::new((**a).clone()),
            ),
            StackValue::CoinBase => StackValue::CoinBase,
            StackValue::TimeStamp => StackValue::TimeStamp,
            StackValue::Number => StackValue::Number,
            StackValue::Difficulty => StackValue::Difficulty,
            StackValue::GasLimit => StackValue::GasLimit,
            StackValue::SLoad(a) => StackValue::SLoad(
                Box::new((**a).clone()),
            ),
            StackValue::PC => StackValue::PC,
            StackValue::MSize => StackValue::MSize,
            StackValue::Gas => StackValue::Gas,
            StackValue::Create(a, b, c) => StackValue::Create(
                Box::new((**a).clone()),
                Box::new((**b).clone()),
                Box::new((**c).clone()),
            ),
            StackValue::Call(a, b, c, d, e, f, g) => StackValue::Call(
                Box::new((**a).clone()),
                Box::new((**b).clone()),
                Box::new((**c).clone()),
                Box::new((**d).clone()),
                Box::new((**e).clone()),
                Box::new((**f).clone()),
                Box::new((**g).clone()),
            ),
            StackValue::CallCode(a, b, c, d, e, f, g) => StackValue::CallCode(
                Box::new((**a).clone()),
                Box::new((**b).clone()),
                Box::new((**c).clone()),
                Box::new((**d).clone()),
                Box::new((**e).clone()),
                Box::new((**f).clone()),
                Box::new((**g).clone()),
            ),
            StackValue::DelegateCall(a, b, c, d, e, f) => StackValue::DelegateCall(
                Box::new((**a).clone()),
                Box::new((**b).clone()),
                Box::new((**c).clone()),
                Box::new((**d).clone()),
                Box::new((**e).clone()),
                Box::new((**f).clone()),
            ),
            StackValue::Create2(a, b, c, d) => StackValue::Create2(
                Box::new((**a).clone()),
                Box::new((**b).clone()),
                Box::new((**c).clone()),
                Box::new((**d).clone()),
            ),
            StackValue::StaticCall(a, b, c, d, e, f) => StackValue::StaticCall(
                Box::new((**a).clone()),
                Box::new((**b).clone()),
                Box::new((**c).clone()),
                Box::new((**d).clone()),
                Box::new((**e).clone()),
                Box::new((**f).clone()),
            ),
            StackValue::MemoryPlaceHolder(a, b) => StackValue::MemoryPlaceHolder(
                Box::new((**a).clone()),
                Box::new((**b).clone()),
            ),
        }
    }
}

impl StackValue {
    /// Structural equality: whether the two values have the same model.
    pub fn same(&self, other: &StackValue) -> (r: bool)
        ensures
            r == (self@ == other@),
        decreases self,
    {
        match (self, other) {
            (StackValue::ActualValue(x), StackValue::ActualValue(y)) => *x == *y,
            (StackValue::Sha3(v), StackValue::Sha3(u)) => same_preimages(v, u),
            (StackValue::CodeSection(c), StackValue::CodeSection(d)) => same_bytes(c, d),
            (StackValue::StackPaceHolder(x), StackValue::StackPaceHolder(y)) => *x == *y,
            (StackValue::Calldata, StackValue::Calldata) => true,
            (StackValue::Unknown, StackValue::Unknown) => true,
            (StackValue::Add(xa, xb), StackValue::Add(ya, yb)) => {
                xa.same(ya) && xb.same(yb)
            },
            (StackValue::Mul(xa, xb), StackValue::Mul(ya, yb)) => {
                xa.same(ya) && xb.same(yb)
            },
            (StackValue::Sub(xa, xb), StackValue::Sub(ya, yb)) => {
                xa.same(ya) && xb.same(yb)
            },
            (StackValue::Div(xa, xb), StackValue::Div(ya, yb)) => {
                xa.same(ya) && xb.same(yb)
            },
            (StackValue::SDiv(xa, xb), StackValue::SDiv(ya, yb)) => {
                xa.same(ya) && xb.same(yb)
            },
            (StackValue::Mod(xa, xb), StackValue::Mod(ya, yb)) => {
                xa.same(ya) && xb.same(yb)
            },
            (StackValue::SMod(xa, xb), StackValue::SMod(ya, yb)) => {
                xa.same(ya) && xb.same(yb)
            },
            (StackValue::AddMod(xa, xb, xc), StackValue::AddMod(ya, yb, yc)) => {
                xa.same(ya) && xb.same(yb) && xc.same(yc)
            },
            (StackValue::MulMod(xa, xb, xc), StackValue::MulMod(ya, yb, yc)) => {
                xa.same(ya) && xb.same(yb) && xc.same(yc)
            },
            (StackValue::Exp(xa, xb), StackValue::Exp(ya, yb)) => {
                xa.same(ya) && xb.same(yb)
            },
            (StackValue::SignExtend(xa, xb), StackValue::SignExtend(ya, yb)) => {
                xa.same(ya) && xb.same(yb)
            },
            (StackValue::LT(xa, xb), StackValue::LT(ya, yb)) => {
                xa.same(ya) && xb.same(yb)
            },
            (StackValue::GT(xa, xb), StackValue::GT(ya, yb)) => {
                xa.same(ya) && xb.same(yb)
            },
            (StackValue::SLT(xa, xb), StackValue::SLT(ya, yb)) => {
                xa.same(ya) && xb.same(yb)
            },
            (StackValue::SGT(xa, xb), StackValue::SGT(ya, yb)) => {
                xa.same(ya) && xb.same(yb)
            },
            (StackValue::EQ(xa, xb), StackValue::EQ(ya, yb)) => {
                xa.same(ya) && xb.same(yb)
            },
            (StackValue::IsZero(xa), StackValue::IsZero(ya)) => {
                xa.same(ya)
            },
            (StackValue::And(xa, xb), StackValue::And(ya, yb)) => {
                xa.same(ya) && xb.same(yb)
            },
            (StackValue::Or(xa, xb), StackValue::Or(ya, yb)) => {
                xa.same(ya) && xb.same(yb)
            },
            (StackValue::Xor(xa, xb), StackValue::Xor(ya, yb)) => {
                xa.same(ya) && xb.same(yb)
            },
            (StackValue::Not(xa), StackValue::Not(ya)) => {
                xa.same(ya)
            },
            (StackValue::Byte(xa, xb), StackValue::Byte(ya, yb)) => {
                xa.same(ya) && xb.same(yb)
            },
            (StackValue::ShL(xa, xb), StackValue::ShL(ya, yb)) => {
                xa.same(ya) && xb.same(yb)
            },
            (StackValue::Shr(xa, xb), StackValue::Shr(ya, yb)) => {
                xa.same(ya) && xb.same(yb)
            },
            (StackValue::Sar(xa, xb), StackValue::Sar(ya, yb)) => {
                xa.same(ya) && xb.same(yb)
            },
            (StackValue::Address, StackValue::Address) => true,
            (StackValue::Balance(xa), StackValue::Balance(ya)) => {
                xa.same(ya)
            },
            (StackValue::Origin, StackValue::Origin) => true,
            (StackValue::Caller, StackValue::Caller) => true,
            (StackValue::CallValue, StackValue::CallValue) => true,
            (StackValue::CallDataLoad(xa), StackValue::CallDataLoad(ya)) => {
                xa.same(ya)
            },
            (StackValue::CallDataSize, StackValue::CallDataSize) => true,
            (StackValue::CalldataCopy(xa, xb), StackValue::CalldataCopy(ya, yb)) => {
                xa.same(ya) && xb.same(yb)
            },
            (StackValue::CodeSize, StackValue::CodeSize) => true,
            (StackValue::CodeCopy(xa, xb), StackValue::CodeCopy(ya, yb)) => {
                xa.same(ya) && xb.same(yb)
            },
            (StackValue::GasPrice, StackValue::GasPrice) => true,
            (StackValue::ExtCodeSize(xa), StackValue::ExtCodeSize(ya)) => {
                xa.same(ya)
            },
            (StackValue::ExtCodeCopy(xa, xb, xc), StackValue::ExtCodeCopy(ya, yb, yc)) => {
                xa.same(ya) && xb.same(yb) && xc.same(yc)
            },
            (StackValue::ReturnDataSize, StackValue::ReturnDataSize) => true,
            (StackValue::ReturnDataCopy(xa, xb), StackValue::ReturnDataCopy(ya, yb)) => {
                xa.same(ya) && xb.same(yb)
            },
            (StackValue::ExtCodeHash(xa), StackValue::ExtCodeHash(ya)) => {
                xa.same(ya)
            },
            (StackValue::Blockhash(xa), StackValue::Blockhash(ya)) => {
                xa.same(ya)
            },
            (StackValue::CoinBase, StackValue::CoinBase) => true,
            (StackValue::TimeStamp, StackValue::TimeStamp) => true,
            (StackValue::Number, StackValue::Number) => true,
            (StackValue::Difficulty, StackValue::Difficulty) => true,
            (StackValue::GasLimit, StackValue::GasLimit) => true,
            (StackValue::SLoad(xa), StackValue::SLoad(ya)) => {
                xa.same(ya)
            },
            (StackValue::PC, StackValue::PC) => true,
            (StackValue::MSize, StackValue::MSize) => true,
            (StackValue::Gas, StackValue::Gas) => true,
            (StackValue::Create(xa, xb, xc), StackValue::Create(ya, yb, yc)) => {
                xa.same(ya) && xb.same(yb) && xc.same(yc)
            },
            (StackValue::Call(xa, xb, xc, xd, xe, xf, xg), StackValue::Call(ya, yb, yc, yd, ye, yf, yg)) => {
                xa.same(ya) && xb.same(yb) && xc.same(yc) && xd.same(yd) && xe.same(ye) && xf.same(yf) && xg.same(yg)
            },
            (StackValue::CallCode(xa, xb, xc, xd, xe, xf, xg), StackValue::CallCode(ya, yb, yc, yd, ye, yf, yg)) => {
                xa.same(ya) && xb.same(yb) && xc.same(yc) && xd.same(yd) && xe.same(ye) && xf.same(yf) && xg.same(yg)
            },
            (StackValue::DelegateCall(xa, xb, xc, xd, xe, xf), StackValue::DelegateCall(ya, yb, yc, yd, ye, yf)) => {
                xa.same(ya) && xb.same(yb) && xc.same(yc) && xd.same(yd) && xe.same(ye) && xf.same(yf)
            },
            (StackValue::Create2(xa, xb, xc, xd), StackValue::Create2(ya, yb, yc, yd)) => {
                xa.same(ya) && xb.same(yb) && xc.same(yc) && xd.same(yd)
            },
            (StackValue::StaticCall(xa, xb, xc, xd, xe, xf), StackValue::StaticCall(ya, yb, yc, yd, ye, yf)) => {
                xa.same(ya) && xb.same(yb) && xc.same(yc) && xd.same(yd) && xe.same(ye) && xf.same(yf)
            },
            (StackValue::MemoryPlaceHolder(xa, xb), StackValue::MemoryPlaceHolder(ya, yb)) => {
                xa.same(ya) && xb.same(yb)
            },
            _ => false,
        }
    }

    /// The word that the value folds to.  Literals, code bytes of at most
    /// 32 bytes, and sums, conjunctions and shifts of values that fold
    /// do; every other value stays symbolic.
    pub fn resolve(&self) -> (r: Option<Word>)
        ensures
            r == self@.resolve(),
        decreases self,
    {
        match self {
            StackValue::ActualValue(x) => Some(*x),
            StackValue::CodeSection(c) => Word::from_big_endian(c.as_slice()),
            StackValue::Add(a, b) => {
                match (a.resolve(), b.resolve()) {
                    (Some(x), Some(y)) => Some(x.wrapping_add(&y)),
                    _ => None,
                }
            },
            StackValue::ShL(a, b) => {
                match (b.resolve(), a.resolve()) {
                    (Some(x), Some(y)) => Some(x.shl(&y)),
                    _ => None,
                }
            },
            StackValue::Shr(a, b) => {
                match (b.resolve(), a.resolve()) {
                    (Some(x), Some(y)) => Some(x.shr(&y)),
                    _ => None,
                }
            },
            StackValue::And(a, b) => {
                match (b.resolve(), a.resolve()) {
                    (Some(x), Some(y)) => Some(x.bitand(&y)),
                    _ => None,
                }
            },
            _ => None,
        }
    }

    /// Replaces the placeholders by what the calling block holds: a stack
    /// slot by the value at that position of the caller's stack, a memory
    /// read by what the caller's memory holds at that offset.  Sums,
    /// products and hashes are rebuilt from their replaced operands; every
    /// other value is returned as it is.
    pub fn replace_parent_call(&self, extended_stack: &EvmStack, extended_memory: &EvmMemory) -> (r:
        StackValue)
        ensures
            r@ == self@.substitute(extended_stack@, extended_memory@),
        decreases self,
    {
        match self {
            StackValue::StackPaceHolder(a) => extended_stack.clone_pos(*a),
            StackValue::MemoryPlaceHolder(a, b) => {
                match extended_memory.retrive((**a).clone(), (**b).clone()) {
                    Some(v) => v,
                    None => self.clone(),
                }
            },
            StackValue::Add(a, b) => StackValue::Add(
                Box::new(a.replace_parent_call(extended_stack, extended_memory)),
                Box::new(b.replace_parent_call(extended_stack, extended_memory)),
            ),
            StackValue::Mul(a, b) => StackValue::Mul(
                Box::new(a.replace_parent_call(extended_stack, extended_memory)),
                Box::new(b.replace_parent_call(extended_stack, extended_memory)),
            ),
            StackValue::Sha3(v) => StackValue::Sha3(
                replace_preimages(v, extended_stack, extended_memory),
            ),
            _ => self.clone(),
        }
    }
}

impl StackValue {
    /// Folds every subtree that folds to a word into that word, and leaves
    /// the rest of the tree as it is.
    pub fn simplify(&self) -> (r: StackValue)
        ensures
            r@ == self@.simplified(),
        decreases self, 1nat,
    {
        match self.resolve() {
            Some(word) => StackValue::ActualValue(word),
            None => self.rebuild(),
        }
    }

    /// Rebuilds the value from its operands, each with what folds in it
    /// folded.
    pub fn rebuild(&self) -> (r: StackValue)
        ensures
            r@ == self@.rebuilt(),
        decreases self, 0nat,
    {
        match self {
            StackValue::ActualValue(x) => StackValue::ActualValue(*x),
            StackValue::Sha3(v) => StackValue::Sha3(simplify_preimages(v)),
            StackValue::CodeSection(c) => StackValue::CodeSection(clone_bytes(c)),
            StackValue::StackPaceHolder(d) => StackValue::StackPaceHolder(*d),
            StackValue::Calldata => StackValue::Calldata,
            StackValue::Unknown => StackValue::Unknown,
            StackValue::Add(a, b) => StackValue::Add(
                Box::new(a.simplify()),
                Box::new(b.simplify()),
            ),
            StackValue::Mul(a, b) => StackValue::Mul(
                Box::new(a.simplify()),
                Box::new(b.simplify()),
            ),
            StackValue::Sub(a, b) => StackValue::Sub(
                Box::new(a.simplify()),
                Box::new(b.simplify()),
            ),
            StackValue::Div(a, b) => StackValue::Div(
                Box::new(a.simplify()),
                Box::new(b.simplify()),
            ),
            StackValue::SDiv(a, b) => StackValue::SDiv(
                Box::new(a.simplify()),
                Box::new(b.simplify()),
            ),
            StackValue::Mod(a, b) => StackValue::Mod(
                Box::new(a.simplify()),
                Box::new(b.simplify()),
            ),
            StackValue::SMod(a, b) => StackValue::SMod(
                Box::new(a.simplify()),
                Box::new(b.simplify()),
            ),
            StackValue::AddMod(a, b, c) => StackValue::AddMod(
                Box::new(a.simplify()),
                Box::new(b.simplify()),
                Box::new(c.simplify()),
            ),
            StackValue::MulMod(a, b, c) => StackValue::MulMod(
                Box::new(a.simplify()),
                Box::new(b.simplify()),
                Box::new(c.simplify()),
            ),
            StackValue::Exp(a, b) => StackValue::Exp(
                Box::new(a.simplify()),
                Box::new(b.simplify()),
            ),
            StackValue::SignExtend(a, b) => StackValue::SignExtend(
                Box::new(a.simplify()),
                Box::new(b.simplify()),
            ),
            StackValue::LT(a, b) => StackValue::LT(
                Box::new(a.simplify()),
                Box::new(b.simplify()),
            ),
            StackValue::GT(a, b) => StackValue::GT(
                Box::new(a.simplify()),
                Box::new(b.simplify()),
            ),
            StackValue::SLT(a, b) => StackValue::SLT(
                Box::new(a.simplify()),
                Box::new(b.simplify()),
            ),
            StackValue::SGT(a, b) => StackValue::SGT(
                Box::new(a.simplify()),
                Box::new(b.simplify()),
            ),
            StackValue::EQ(a, b) => StackValue::EQ(
                Box::new(a.simplify()),
                Box::new(b.simplify()),
            ),
            StackValue::IsZero(a) => StackValue::IsZero(
                Box::new(a.simplify()),
            ),
            StackValue::And(a, b) => StackValue::And(
                Box::new(a.simplify()),
                Box::new(b.simplify()),
            ),
            StackValue::Or(a, b) => StackValue::Or(
                Box::new(a.simplify()),
                Box::new(b.simplify()),
            ),
            StackValue::Xor(a, b) => StackValue::Xor(
                Box::new(a.simplify()),
                Box::new(b.simplify()),
            ),
            StackValue::Not(a) => StackValue::Not(
                Box::new(a.simplify()),
            ),
            StackValue::Byte(a, b) => StackValue::Byte(
                Box::new(a.simplify()),
                Box::new(b.simplify()),
            ),
            StackValue::ShL(a, b) => StackValue::ShL(
                Box::new(a.simplify()),
                Box::new(b.simplify()),
            ),
            StackValue::Shr(a, b) => StackValue::Shr(
                Box::new(a.simplify()),
                Box::new(b.simplify()),
            ),
            StackValue::Sar(a, b) => StackValue::Sar(
                Box::new(a.simplify()),
                Box::new(b.simplify()),
            ),
            StackValue::Address => StackValue::Address,
            StackValue::Balance(a) => StackValue::Balance(
                Box::new(a.simplify()),
            ),
            StackValue::Origin => StackValue::Origin,
            StackValue::Caller => StackValue::Caller,
            StackValue::CallValue => StackValue::CallValue,
            StackValue::CallDataLoad(a) => StackValue::CallDataLoad(
                Box::new(a.simplify()),
            ),
            StackValue::CallDataSize => StackValue::CallDataSize,
            StackValue::CalldataCopy(a, b) => StackValue::CalldataCopy(
                Box::new(a.simplify()),
                Box::new(b.simplify()),
            ),
            StackValue::CodeSize => StackValue::CodeSize,
            StackValue::CodeCopy(a, b) => StackValue::CodeCopy(
                Box::new(a.simplify()),
                Box::new(b.simplify()),
            ),
            StackValue::GasPrice => StackValue::GasPrice,
            StackValue::ExtCodeSize(a) => StackValue::ExtCodeSize(
                Box::new(a.simplify()),
            ),
            StackValue::ExtCodeCopy(a, b, c) => StackValue::ExtCodeCopy(
                Box::new(a.simplify()),
                Box::new(b.simplify()),
                Box::new(c.simplify()),
            ),
            StackValue::ReturnDataSize => StackValue::ReturnDataSize,
            StackValue::ReturnDataCopy(a, b) => StackValue::ReturnDataCopy(
                Box::new(a.simplify()),
                Box::new(b.simplify()),
            ),
            StackValue::ExtCodeHash(a) => StackValue::ExtCodeHash(
                Box::new(a.simplify()),
            ),
            StackValue::Blockhash(a) => StackValue::Blockhash(
                Box::new(a.simplify()),
            ),
            StackValue::CoinBase => StackValue::CoinBase,
            StackValue::TimeStamp => StackValue::TimeStamp,
            StackValue::Number => StackValue::Number,
            StackValue::Difficulty => StackValue::Difficulty,
            StackValue::GasLimit => StackValue::GasLimit,
            StackValue::SLoad(a) => StackValue::SLoad(
                Box::new(a.simplify()),
            ),
            StackValue::PC => StackValue::PC,
            StackValue::MSize => StackValue::MSize,
            StackValue::Gas => StackValue::Gas,
            StackValue::Create(a, b, c) => StackValue::Create(
                Box::new(a.simplify()),
                Box::new(b.simplify()),
                Box::new(c.simplify()),
            ),
            StackValue::Call(a, b, c, d, e, f, g) => StackValue::Call(
                Box::new(a.simplify()),
                Box::new(b.simplify()),
                Box::new(c.simplify()),
                Box::new(d.simplify()),
                Box::new(e.simplify()),
                Box::new(f.simplify()),
                Box::new(g.simplify()),
            ),
            StackValue::CallCode(a, b, c, d, e, f, g) => StackValue::CallCode(
                Box::new(a.simplify()),
                Box::new(b.simplify()),
                Box::new(c.simplify()),
                Box::new(d.simplify()),
                Box::new(e.simplify()),
                Box::new(f.simplify()),
                Box::new(g.simplify()),
            ),
            StackValue::DelegateCall(a, b, c, d, e, f) => StackValue::DelegateCall(
                Box::new(a.simplify()),
                Box::new(b.simplify()),
                Box::new(c.simplify()),
                Box::new(d.simplify()),
                Box::new(e.simplify()),
                Box::new(f.simplify()),
            ),
            StackValue::Create2(a, b, c, d) => StackValue::Create2(
                Box::new(a.simplify()),
                Box::new(b.simplify()),
                Box::new(c.simplify()),
                Box::new(d.simplify()),
            ),
            StackValue::StaticCall(a, b, c, d, e, f) => StackValue::StaticCall(
                Box::new(a.simplify()),
                Box::new(b.simplify()),
                Box::new(c.simplify()),
                Box::new(d.simplify()),
                Box::new(e.simplify()),
                Box::new(f.simplify()),
            ),
            StackValue::MemoryPlaceHolder(a, b) => StackValue::MemoryPlaceHolder(
                Box::new(a.simplify()),
                Box::new(b.simplify()),
            ),
        }
    }
}

/// Folds what folds in each preimage of a hash.
pub fn simplify_preimages(v: &Vec<(usize, StackValue)>) -> (out: Vec<(usize, StackValue)>)
    ensures
        preimages_model(out@) == simplified_each(preimages_model(v@)),
    decreases v, 2nat,
{
    let mut out: Vec<(usize, StackValue)> = Vec::new();
    let mut i: usize = 0;
    while i < v.len()
        invariant
            i <= v.len(),
            out.len() == i,
            forall|j: int|
                0 <= j < i ==> out[j].0 == v[j].0 && (#[trigger] out[j]).1.expr()
                    == v[j].1.expr().simplified(),
        decreases v.len() - i,
    {
        let item = &v[i];
        let folded = item.1.simplify();
        out.push((item.0, folded));
        i += 1;
    }
    assert(preimages_model(out@) =~= simplified_each(preimages_model(v@)));
    out
}

/// Each preimage with what folds in it folded, at its old offset.
pub open spec fn simplified_each(v: Seq<(nat, Expr)>) -> Seq<(nat, Expr)>
    decreases v,
{
    Seq::new(
        v.len(),
        |i: int|
            if 0 <= i < v.len() {
                (v[i].0, v[i].1.simplified())
            } else {
                (0nat, Expr::Slot(0))
            },
    )
}

/// Replaces the placeholders in each preimage of a hash.
pub fn replace_preimages(
    v: &Vec<(usize, StackValue)>,
    extended_stack: &EvmStack,
    extended_memory: &EvmMemory,
) -> (out: Vec<(usize, StackValue)>)
    ensures
        preimages_model(out@) == substitute_each(
            preimages_model(v@),
            extended_stack@,
            extended_memory@,
        ),
    decreases v,
{
    let mut out: Vec<(usize, StackValue)> = Vec::new();
    let mut i: usize = 0;
    while i < v.len()
        invariant
            i <= v.len(),
            out.len() == i,
            forall|j: int|
                0 <= j < i ==> out[j].0 == v[j].0 && (#[trigger] out[j]).1.expr()
                    == v[j].1.expr().substitute(extended_stack@, extended_memory@),
        decreases v.len() - i,
    {
        let item = &v[i];
        let replaced = item.1.replace_parent_call(extended_stack, extended_memory);
        out.push((item.0, replaced));
        i += 1;
    }
    assert(preimages_model(out@) =~= substitute_each(
        preimages_model(v@),
        extended_stack@,
        extended_memory@,
    ));
    out
}

/// Each preimage with its placeholders replaced, at its old offset.
pub open spec fn substitute_each(v: Seq<(nat, Expr)>, stack: StackModel, memory: MemoryModel) -> Seq<
    (nat, Expr),
>
    decreases v,
{
    Seq::new(
        v.len(),
        |i: int|
            if 0 <= i < v.len() {
                (v[i].0, v[i].1.substitute(stack, memory))
            } else {
                (0nat, Expr::Slot(0))
            },
    )
}

impl Expr {
    /// The expression with the placeholders replaced by what a caller with
    /// the given stack and memory holds.
    pub open spec fn substitute(self, stack: StackModel, memory: MemoryModel) -> Expr
        decreases self,
    {
        match self {
            Expr::Slot(depth) => stack.peek(depth),
            Expr::Op2(Operator::MemoryPlaceHolder, offset, length) => memory_read(
                memory,
                *offset,
                *length,
            ),
            Expr::Op2(Operator::Add, a, b) => Expr::Op2(
                Operator::Add,
                Box::new(a.substitute(stack, memory)),
                Box::new(b.substitute(stack, memory)),
            ),
            Expr::Op2(Operator::Mul, a, b) => Expr::Op2(
                Operator::Mul,
                Box::new(a.substitute(stack, memory)),
                Box::new(b.substitute(stack, memory)),
            ),
            Expr::Hash(v) => Expr::Hash(substitute_each(v, stack, memory)),
            _ => self,
        }
    }

    /// The expression with every subtree that folds to a word replaced by
    /// that word.
    pub open spec fn simplified(self) -> Expr
        decreases self, 1nat,
    {
        if self.resolve() is Some {
            Expr::Literal(self.resolve()->0)
        } else {
            self.rebuilt()
        }
    }

    /// The expression rebuilt from its operands, each with what folds in
    /// it folded.
    pub open spec fn rebuilt(self) -> Expr
        decreases self, 0nat,
    {
        match self {
            Expr::Literal(_) => self,
            Expr::Code(_) => self,
            Expr::Slot(_) => self,
            Expr::Op0(_) => self,
            Expr::Hash(v) => Expr::Hash(simplified_each(v)),
            Expr::Op1(op, a) => Expr::Op1(op, Box::new(a.simplified())),
            Expr::Op2(op, a, b) => Expr::Op2(op, Box::new(a.simplified()), Box::new(b.simplified())),
            Expr::Op3(op, a, b, c) => Expr::Op3(
                op,
                Box::new(a.simplified()),
                Box::new(b.simplified()),
                Box::new(c.simplified()),
            ),
            Expr::Op4(op, a, b, c, d) => Expr::Op4(
                op,
                Box::new(a.simplified()),
                Box::new(b.simplified()),
                Box::new(c.simplified()),
                Box::new(d.simplified()),
            ),
            Expr::Op6(op, a, b, c, d, e, f) => Expr::Op6(
                op,
                Box::new(a.simplified()),
                Box::new(b.simplified()),
                Box::new(c.simplified()),
                Box::new(d.simplified()),
                Box::new(e.simplified()),
                Box::new(f.simplified()),
            ),
            Expr::Op7(op, a, b, c, d, e, f, g) => Expr::Op7(
                op,
                Box::new(a.simplified()),
                Box::new(b.simplified()),
                Box::new(c.simplified()),
                Box::new(d.simplified()),
                Box::new(e.simplified()),
                Box::new(f.simplified()),
                Box::new(g.simplified()),
            ),
        }
    }

    /// The word that the expression folds to: a literal is itself; code
    /// bytes of at most 32 bytes are the number they denote; a sum is the
    /// sum modulo 2^256; a shift has the shift as first operand and the
    /// shifted value as second; a conjunction is bitwise.  There is no other
    /// folding.
    pub open spec fn resolve(self) -> Option<Word>
        decreases self,
    {
        match self {
            Expr::Literal(x) => Some(x),
            Expr::Code(bytes) => if bytes.len() <= 32 {
                Some(Word::from_value(be_value(bytes)))
            } else {
                None
            },
            Expr::Op2(Operator::Add, a, b) => match (a.resolve(), b.resolve()) {
                (Some(x), Some(y)) => Some(x.add_spec(y)),
                _ => None,
            },
            Expr::Op2(Operator::ShL, a, b) => match (b.resolve(), a.resolve()) {
                (Some(x), Some(y)) => Some(x.shl_spec(y)),
                _ => None,
            },
            Expr::Op2(Operator::Shr, a, b) => match (b.resolve(), a.resolve()) {
                (Some(x), Some(y)) => Some(x.shr_spec(y)),
                _ => None,
            },
            Expr::Op2(Operator::And, a, b) => match (b.resolve(), a.resolve()) {
                (Some(x), Some(y)) => Some(x.and_spec(y)),
                _ => None,
            },
            _ => None,
        }
    }
}

/// Folding the subtrees of an expression does not change what the
/// expression folds to.
pub proof fn lemma_simplified_resolves(e: Expr)
    ensures
        e.simplified().resolve() == e.resolve(),
    decreases e,
{
    if e.resolve() is None {
        match e {
            Expr::Op2(op, a, b) => {
                lemma_simplified_resolves(*a);
                lemma_simplified_resolves(*b);
            },
            _ => {},
        }
    }
}

} // verus!
