//! Reading resolved expressions: the shape of a storage location and the
//! selector that a dispatcher compares the call data with.

use vstd::prelude::*;
use crate::evm_memory::EvmMemory;
use crate::evm_memory::EvmStack;
use crate::evm_types::Expr;
use crate::evm_types::Operator;
use crate::evm_types::StackValue;
use crate::value_set::Symbolic;
use crate::word::Word;

verus! {

/// The model of a classified storage location.
pub enum DataModel {
    Field(Expr),
    Struct(Expr),
    Vector(Expr),
    Mapping(Expr, Expr),
    Unknown(Expr),
}

impl DataModel {
    /// The expression for the address of the data.
    pub open spec fn value(self) -> Expr {
        match self {
            DataModel::Field(x) => x,
            DataModel::Struct(x) => x,
            DataModel::Vector(x) => x,
            DataModel::Mapping(x, _) => x,
            DataModel::Unknown(x) => x,
        }
    }
}

/// The kind of data that a storage location belongs to, with the
/// expression for its address.
#[derive(Debug, PartialEq, Eq, Hash)]
pub enum DataType {
    /// A plain slot: a bare literal.
    Field(StackValue),
    /// A member of a structure: a literal base plus something.
    Struct(StackValue),
    /// A slot of an array: its base went through a hash of one preimage.
    Vector(StackValue),
    /// A slot of a mapping: the base, and the hash of key and base.
    Mapping(StackValue, StackValue),
    /// Anything else.
    Unknown(StackValue),
}

impl View for DataType {
    type V = DataModel;

    open spec fn view(&self) -> DataModel {
        match self {
            DataType::Field(x) => DataModel::Field(x@),
            DataType::Struct(x) => DataModel::Struct(x@),
            DataType::Vector(x) => DataModel::Vector(x@),
            DataType::Mapping(x, y) => DataModel::Mapping(x@, y@),
            DataType::Unknown(x) => DataModel::Unknown(x@),
        }
    }
}

impl Clone for DataType {
    fn clone(&self) -> (r: Self)
        ensures
            r@ == self@,
    {
        match self {
            DataType::Field(x) => DataType::Field(x.clone()),
            DataType::Struct(x) => DataType::Struct(x.clone()),
            DataType::Vector(x) => DataType::Vector(x.clone()),
            DataType::Mapping(x, y) => DataType::Mapping(x.clone(), y.clone()),
            DataType::Unknown(x) => DataType::Unknown(x.clone()),
        }
    }
}

impl Symbolic for DataType {
    fn same_as(&self, other: &Self) -> (r: bool) {
        match (self, other) {
            (DataType::Field(x), DataType::Field(y)) => x.same(y),
            (DataType::Struct(x), DataType::Struct(y)) => x.same(y),
            (DataType::Vector(x), DataType::Vector(y)) => x.same(y),
            (DataType::Mapping(x, k), DataType::Mapping(y, l)) => x.same(y) && k.same(l),
            (DataType::Unknown(x), DataType::Unknown(y)) => x.same(y),
            _ => false,
        }
    }

    fn duplicate(&self) -> (r: Self) {
        self.clone()
    }
}

impl DataType {
    /// The symbolic value for the storage address of the data.
    pub fn value(&self) -> (r: StackValue)
        ensures
            r@ == self@.value(),
    {
        match self {
            DataType::Field(x) => x.clone(),
            DataType::Struct(x) => x.clone(),
            DataType::Vector(x) => x.clone(),
            DataType::Mapping(x, _) => x.clone(),
            DataType::Unknown(x) => x.clone(),
        }
    }
}

/// The word zero.
pub open spec fn zero_word() -> Word {
    Word { w0: 0, w1: 0, w2: 0, w3: 0 }
}

/// Whether one of the preimages loads the selector.
pub open spec fn any_loads_selector(v: Seq<(nat, Expr)>) -> bool
    decreases v,
{
    exists|i: int| 0 <= i < v.len() && loads_selector(#[trigger] v[i].1)
}

/// Whether the expression holds, anywhere in its tree, a load of the call
/// data at the literal offset 0: the word that starts with the selector.
pub open spec fn loads_selector(e: Expr) -> bool
    decreases e,
{
    match e {
        Expr::Literal(_) => false,
        Expr::Code(_) => false,
        Expr::Slot(_) => false,
        Expr::Op0(_) => false,
        Expr::Hash(v) => any_loads_selector(v),
        Expr::Op1(op, a) => (op == Operator::CallDataLoad && *a == Expr::Literal(zero_word()))
            || loads_selector(*a),
        Expr::Op2(_, a, b) => loads_selector(*a) || loads_selector(*b),
        Expr::Op3(_, a, b, c) => loads_selector(*a) || loads_selector(*b) || loads_selector(*c),
        Expr::Op4(_, a, b, c, d) => loads_selector(*a) || loads_selector(*b) || loads_selector(*c)
            || loads_selector(*d),
        Expr::Op6(_, a, b, c, d, e, f) => loads_selector(*a) || loads_selector(*b)
            || loads_selector(*c) || loads_selector(*d) || loads_selector(*e) || loads_selector(
            *f,
        ),
        Expr::Op7(_, a, b, c, d, e, f, g) => loads_selector(*a) || loads_selector(*b)
            || loads_selector(*c) || loads_selector(*d) || loads_selector(*e) || loads_selector(
            *f,
        ) || loads_selector(*g),
    }
}

/// The word of a literal.
pub open spec fn literal_of(e: Expr) -> Option<Word> {
    match e {
        Expr::Literal(x) => Some(x),
        _ => None,
    }
}

/// The selector that a branch condition dispatches on: the literal side of
/// an equality whose other side loads the selector.  Where both sides are
/// literals there is none.
pub open spec fn dispatched_selector(guard: Expr) -> Option<Word> {
    match guard {
        Expr::Op2(Operator::EQ, a, b) => {
            if literal_of(*a) is Some && loads_selector(*b) {
                literal_of(*a)
            } else if literal_of(*b) is Some && loads_selector(*a) {
                literal_of(*b)
            } else {
                None
            }
        },
        _ => None,
    }
}

/// The kind of data that a resolved address expression belongs to.
pub open spec fn classify(e: Expr) -> DataModel
    decreases e,
{
    match e {
        Expr::Literal(_) => DataModel::Field(e),
        Expr::Op2(Operator::Add, a, b) => {
            match classify(*a) {
                DataModel::Vector(x) => DataModel::Vector(x),
                _ => match classify(*b) {
                    DataModel::Unknown(x) => DataModel::Unknown(
                        Expr::Op2(Operator::Add, a, Box::new(x)),
                    ),
                    DataModel::Field(y) => DataModel::Struct(y),
                    DataModel::Struct(y) => DataModel::Struct(y),
                    DataModel::Mapping(x, y) => DataModel::Mapping(x, y),
                    DataModel::Vector(y) => DataModel::Vector(y),
                },
            }
        },
        Expr::Hash(v) => {
            if v.len() == 1 {
                DataModel::Vector(v[0].1)
            } else if v.len() == 2 {
                if v[0].0 > v[1].0 {
                    DataModel::Mapping(classify(v[0].1).value(), e)
                } else {
                    DataModel::Mapping(classify(v[1].1).value(), e)
                }
            } else {
                DataModel::Unknown(e)
            }
        },
        _ => DataModel::Unknown(e),
    }
}

/// The selector of the public method that the branch guarded by `guard`
/// leads to, if the guard compares a literal with the selector of the call
/// data.
pub fn get_pubblic_method(guard: &StackValue, stack: &Vec<(&EvmStack, &EvmMemory)>) -> (r: Option<
    Word,
>)
    ensures
        r == dispatched_selector(guard@),
{
    if let StackValue::EQ(a, b) = guard {
        if let Some(x) = as_literal(a) {
            if look_for_calldata(b) {
                return Some(x);
            }
        }
        if let Some(x) = as_literal(b) {
            if look_for_calldata(a) {
                return Some(x);
            }
        }
    }
    None
}

/// The word of a literal value.
pub fn as_literal(val: &StackValue) -> (r: Option<Word>)
    ensures
        r == literal_of(val@),
{
    match val {
        StackValue::ActualValue(x) => Some(*x),
        _ => None,
    }
}

/// Whether one of the preimages of a hash loads the selector.
pub fn look_for_calldata_in(v: &Vec<(usize, StackValue)>) -> (r: bool)
    ensures
        r == any_loads_selector(crate::evm_types::preimages_model(v@)),
    decreases v,
{
    let ghost m = crate::evm_types::preimages_model(v@);
    let mut i: usize = 0;
    while i < v.len()
        invariant
            i <= v.len(),
            m == crate::evm_types::preimages_model(v@),
            forall|j: int| 0 <= j < i ==> !loads_selector(#[trigger] m[j].1),
        decreases v.len() - i,
    {
        if look_for_calldata(&v[i].1) {
            assert(loads_selector(m[i as int].1));
            return true;
        }
        i += 1;
    }
    false
}

/// Whether the value holds, anywhere in its tree, a load of the call data at
/// the literal offset 0.
pub fn look_for_calldata(val: &StackValue) -> (r: bool)
    ensures
        r == loads_selector(val@),
    decreases val,
{
    match val {
        StackValue::ActualValue(_) => false,
        StackValue::CodeSection(_) => false,
        StackValue::StackPaceHolder(_) => false,
        StackValue::Sha3(v) => look_for_calldata_in(v),
        StackValue::CallDataLoad(x) => {
            match as_literal(x) {
                Some(v) => {
                    assert(!loads_selector(x@));
                    v.is_zero()
                },
                None => look_for_calldata(x),
            }
        },
        StackValue::Calldata => false,
        StackValue::Unknown => false,
        StackValue::Add(a, b) => look_for_calldata(a) || look_for_calldata(b),
        StackValue::Mul(a, b) => look_for_calldata(a) || look_for_calldata(b),
        StackValue::Sub(a, b) => look_for_calldata(a) || look_for_calldata(b),
        StackValue::Div(a, b) => look_for_calldata(a) || look_for_calldata(b),
        StackValue::SDiv(a, b) => look_for_calldata(a) || look_for_calldata(b),
        StackValue::Mod(a, b) => look_for_calldata(a) || look_for_calldata(b),
        StackValue::SMod(a, b) => look_for_calldata(a) || look_for_calldata(b),
        StackValue::AddMod(a, b, c) => look_for_calldata(a) || look_for_calldata(b) || look_for_calldata(c),
        StackValue::MulMod(a, b, c) => look_for_calldata(a) || look_for_calldata(b) || look_for_calldata(c),
        StackValue::Exp(a, b) => look_for_calldata(a) || look_for_calldata(b),
        StackValue::SignExtend(a, b) => look_for_calldata(a) || look_for_calldata(b),
        StackValue::LT(a, b) => look_for_calldata(a) || look_for_calldata(b),
        StackValue::GT(a, b) => look_for_calldata(a) || look_for_calldata(b),
        StackValue::SLT(a, b) => look_for_calldata(a) || look_for_calldata(b),
        StackValue::SGT(a, b) => look_for_calldata(a) || look_for_calldata(b),
        StackValue::EQ(a, b) => look_for_calldata(a) || look_for_calldata(b),
        StackValue::IsZero(a) => look_for_calldata(a),
        StackValue::And(a, b) => look_for_calldata(a) || look_for_calldata(b),
        StackValue::Or(a, b) => look_for_calldata(a) || look_for_calldata(b),
        StackValue::Xor(a, b) => look_for_calldata(a) || look_for_calldata(b),
        StackValue::Not(a) => look_for_calldata(a),
        StackValue::Byte(a, b) => look_for_calldata(a) || look_for_calldata(b),
        StackValue::ShL(a, b) => look_for_calldata(a) || look_for_calldata(b),
        StackValue::Shr(a, b) => look_for_calldata(a) || look_for_calldata(b),
        StackValue::Sar(a, b) => look_for_calldata(a) || look_for_calldata(b),
        StackValue::Address => false,
        StackValue::Balance(a) => look_for_calldata(a),
        StackValue::Origin => false,
        StackValue::Caller => false,
        StackValue::CallValue => false,
        StackValue::CallDataSize => false,
        StackValue::CalldataCopy(a, b) => look_for_calldata(a) || look_for_calldata(b),
        StackValue::CodeSize => false,
        StackValue::CodeCopy(a, b) => look_for_calldata(a) || look_for_calldata(b),
        StackValue::GasPrice => false,
        StackValue::ExtCodeSize(a) => look_for_calldata(a),
        StackValue::ExtCodeCopy(a, b, c) => look_for_calldata(a) || look_for_calldata(b) || look_for_calldata(c),
        StackValue::ReturnDataSize => false,
        StackValue::ReturnDataCopy(a, b) => look_for_calldata(a) || look_for_calldata(b),
        StackValue::ExtCodeHash(a) => look_for_calldata(a),
        StackValue::Blockhash(a) => look_for_calldata(a),
        StackValue::CoinBase => false,
        StackValue::TimeStamp => false,
        StackValue::Number => false,
        StackValue::Difficulty => false,
        StackValue::GasLimit => false,
        StackValue::SLoad(a) => look_for_calldata(a),
        StackValue::PC => false,
        StackValue::MSize => false,
        StackValue::Gas => false,
        StackValue::Create(a, b, c) => look_for_calldata(a) || look_for_calldata(b) || look_for_calldata(c),
        StackValue::Call(a, b, c, d, e, f, g) => look_for_calldata(a) || look_for_calldata(b) || look_for_calldata(c) || look_for_calldata(d) || look_for_calldata(e) || look_for_calldata(f) || look_for_calldata(g),
        StackValue::CallCode(a, b, c, d, e, f, g) => look_for_calldata(a) || look_for_calldata(b) || look_for_calldata(c) || look_for_calldata(d) || look_for_calldata(e) || look_for_calldata(f) || look_for_calldata(g),
        StackValue::DelegateCall(a, b, c, d, e, f) => look_for_calldata(a) || look_for_calldata(b) || look_for_calldata(c) || look_for_calldata(d) || look_for_calldata(e) || look_for_calldata(f),
        StackValue::Create2(a, b, c, d) => look_for_calldata(a) || look_for_calldata(b) || look_for_calldata(c) || look_for_calldata(d),
        StackValue::StaticCall(a, b, c, d, e, f) => look_for_calldata(a) || look_for_calldata(b) || look_for_calldata(c) || look_for_calldata(d) || look_for_calldata(e) || look_for_calldata(f),
        StackValue::MemoryPlaceHolder(a, b) => look_for_calldata(a) || look_for_calldata(b),
    }
}

/// The "top level" data structure that a storage location belongs to.
pub fn top_level_data(expr: &StackValue) -> (r: DataType)
    ensures
        r@ == classify(expr@),
    decreases expr,
{
    match expr {
        StackValue::ActualValue(_) => DataType::Field(expr.clone()),
        StackValue::Add(a, b) => {
            let right = top_level_data(b);
            if let DataType::Vector(x) = top_level_data(a) {
                return DataType::Vector(x);
            }
            match right {
                DataType::Unknown(x) => DataType::Unknown(
                    StackValue::Add(Box::new((**a).clone()), Box::new(x)),
                ),
                DataType::Field(y) => DataType::Struct(y),
                DataType::Struct(y) => DataType::Struct(y),
                DataType::Mapping(x, y) => DataType::Mapping(x, y),
                DataType::Vector(y) => DataType::Vector(y),
            }
        },
        StackValue::Sha3(v) => {
            let ghost m = crate::evm_types::preimages_model(v@);
            if v.len() == 1 {
                assert(m[0].1 == v[0].1@);
                return DataType::Vector(v[0].1.clone());
            }
            if v.len() == 2 {
                assert(m[0] == (v[0].0 as nat, v[0].1@));
                assert(m[1] == (v[1].0 as nat, v[1].1@));
                if v[0].0 > v[1].0 {
                    let resolved = top_level_data(&v[0].1);
                    DataType::Mapping(resolved.value(), expr.clone())
                } else {
                    let resolved = top_level_data(&v[1].1);
                    DataType::Mapping(resolved.value(), expr.clone())
                }
            } else {
                DataType::Unknown(expr.clone())
            }
        },
        _ => DataType::Unknown(expr.clone()),
    }
}

} // verus!
