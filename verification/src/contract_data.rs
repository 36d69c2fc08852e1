//! The footprint of a contract: what each of its methods reads, writes and
//! calls.

use vstd::prelude::*;
use crate::contract_utils::DataModel;
use crate::contract_utils::DataType;
use crate::evm_types::Expr;
use crate::evm_types::StackValue;
use crate::value_set::ValueSet;
use crate::word::Word;
use crate::word_map::WordMap;

verus! {

/// The model of the footprint of one method.
pub struct MethodModel {
    pub storage_read: Set<DataModel>,
    pub storage_write: Set<DataModel>,
    pub method_call: Set<(Expr, Expr)>,
}

impl MethodModel {
    /// The footprint of a method that touches nothing.
    pub open spec fn empty() -> MethodModel {
        MethodModel { storage_read: Set::empty(), storage_write: Set::empty(), method_call: Set::empty() }
    }
}

/// The model of the footprint of a contract.
pub struct ContractModel {
    pub constructor: MethodModel,
    pub methods: Map<Word, MethodModel>,
}

/// The footprint of one method: the storage locations it reads and writes
/// and the external calls (target, call data) it makes.
#[derive(Debug)]
pub struct ContractMethod {
    pub storage_read: ValueSet<DataType>,
    pub storage_write: ValueSet<DataType>,
    pub method_call: ValueSet<(StackValue, StackValue)>,
}

/// The footprint of a contract: that of its constructor and that of each
/// method, by selector.
#[derive(Debug)]
pub struct ContractData {
    pub constructor: ContractMethod,
    pub methods: WordMap<ContractMethod>,
}

impl View for ContractMethod {
    type V = MethodModel;

    open spec fn view(&self) -> MethodModel {
        MethodModel {
            storage_read: self.storage_read@,
            storage_write: self.storage_write@,
            method_call: self.method_call@,
        }
    }
}

/// The models of the methods of a map.
pub open spec fn methods_model(methods: Map<Word, ContractMethod>) -> Map<Word, MethodModel> {
    Map::new(|k: Word| methods.contains_key(k), |k: Word| methods[k]@)
}

impl View for ContractData {
    type V = ContractModel;

    open spec fn view(&self) -> ContractModel {
        ContractModel { constructor: self.constructor@, methods: methods_model(self.methods@) }
    }
}

impl Clone for ContractMethod {
    fn clone(&self) -> (r: Self)
        ensures
            r@ == self@,
    {
        ContractMethod {
            storage_read: self.storage_read.duplicate(),
            storage_write: self.storage_write.duplicate(),
            method_call: self.method_call.duplicate(),
        }
    }
}

impl ContractMethod {
    pub fn new() -> (r: Self)
        ensures
            r@ == MethodModel::empty(),
    {
        ContractMethod {
            storage_read: ValueSet::new(),
            storage_write: ValueSet::new(),
            method_call: ValueSet::new(),
        }
    }

    /// Adds storage locations that the method writes.
    pub fn access_write(&mut self, access: ValueSet<DataType>)
        ensures
            final(self)@ == (MethodModel {
                storage_write: old(self)@.storage_write.union(access@),
                ..old(self)@
            }),
    {
        self.storage_write.extend(&access);
    }

    /// Adds storage locations that the method reads.
    pub fn access_read(&mut self, access: ValueSet<DataType>)
        ensures
            final(self)@ == (MethodModel {
                storage_read: old(self)@.storage_read.union(access@),
                ..old(self)@
            }),
    {
        self.storage_read.extend(&access);
    }

    /// Adds external calls that the method makes.
    pub fn method_calls(&mut self, access: ValueSet<(StackValue, StackValue)>)
        ensures
            final(self)@ == (MethodModel {
                method_call: old(self)@.method_call.union(access@),
                ..old(self)@
            }),
    {
        self.method_call.extend(&access);
    }

    /// Adds one storage location that the method reads.
    pub fn push_read_location(&mut self, location: DataType)
        ensures
            final(self)@ == (MethodModel {
                storage_read: old(self)@.storage_read.insert(location@),
                ..old(self)@
            }),
    {
        self.storage_read.insert(location);
    }

    /// Adds one storage location that the method writes.
    pub fn push_write_location(&mut self, location: DataType)
        ensures
            final(self)@ == (MethodModel {
                storage_write: old(self)@.storage_write.insert(location@),
                ..old(self)@
            }),
    {
        self.storage_write.insert(location);
    }

    /// Adds one external call that the method makes.
    pub fn push_external_call(&mut self, call: (StackValue, StackValue))
        ensures
            final(self)@ == (MethodModel {
                method_call: old(self)@.method_call.insert(call@),
                ..old(self)@
            }),
    {
        self.method_call.insert(call);
    }
}

impl ContractData {
    /// No method has two entries.
    pub open spec fn wf(&self) -> bool {
        self.methods.wf()
    }

    pub fn new() -> (r: Self)
        ensures
            r.wf(),
            r@ == (ContractModel { constructor: MethodModel::empty(), methods: Map::empty() }),
    {
        let r = ContractData { constructor: ContractMethod::new(), methods: WordMap::new() };
        assert(r@.methods =~= Map::<Word, MethodModel>::empty());
        r
    }

    /// The footprint made of a constructor and of methods.
    pub fn construct(constructor: ContractMethod, methods: WordMap<ContractMethod>) -> (r: Self)
        requires
            methods.wf(),
        ensures
            r.wf(),
            r@ == (ContractModel { constructor: constructor@, methods: methods_model(methods@) }),
    {
        ContractData { constructor, methods }
    }

    /// The method with selector `hash`, for changing it in place; it is
    /// created empty where the contract has none.
    pub fn get_method(&mut self, hash: Word) -> (r: &mut ContractMethod)
        requires
            old(self).wf(),
        ensures
            r@ == (if old(self)@.methods.contains_key(hash) {
                old(self)@.methods[hash]
            } else {
                MethodModel::empty()
            }),
            final(self).wf(),
            final(self)@ == (ContractModel {
                methods: old(self)@.methods.insert(hash, final(r)@),
                ..old(self)@
            }),
    {
        let ghost before = self.methods@;
        if !self.methods.contains_key(&hash) {
            self.methods.insert(hash, ContractMethod::new());
        }
        let ghost middle = self.methods@;
        let r = self.methods.get_mut(&hash).unwrap();
        proof {
            assert forall|m: ContractMethod| #[trigger]
                methods_model(middle.insert(hash, m)) == methods_model(before).insert(hash, m@) by {
                assert(methods_model(middle.insert(hash, m)) =~= methods_model(before).insert(
                    hash,
                    m@,
                ));
            }
        }
        r
    }

    pub fn set_constructor(&mut self, method: ContractMethod)
        ensures
            final(self)@ == (ContractModel { constructor: method@, ..old(self)@ }),
            final(self).methods == old(self).methods,
    {
        self.constructor = method;
    }
}

} // verus!
