//! What the ledger keeps for a deployed contract: its state value, its
//! operations by entry point, and its maintenance committee.
use vstd::prelude::*;
use crate::bytes::copy_vec;
use crate::keymap::Duplicate;
use crate::maintenance::ContractMaintenanceAuthority;
use crate::signatures::VerifyingKey;
use crate::state::{state_model_wf, ContractOperation, EntryPointBuf, StateModel, StateValue};

verus! {

/// The verifier key of an operation's current version, by its bytes.
pub open spec fn operation_model(op: ContractOperation) -> Option<Seq<u8>> {
    match op.v2 {
        Some(k) => Some(k@),
        None => None,
    }
}

/// What a contract state holds, with every vector taken by its contents.
pub struct ContractModel {
    pub data: StateModel,
    pub operations: Seq<(Seq<u8>, Option<Seq<u8>>)>,
    pub maintenance_authority: (Seq<VerifyingKey>, u32, u32),
}

/// A deployed contract: its state, its operations by entry point (one entry
/// per entry point), and the committee that may change its operations.
#[derive(Debug)]
pub struct ContractState {
    pub data: StateValue,
    pub operations: Vec<(EntryPointBuf, ContractOperation)>,
    pub maintenance_authority: ContractMaintenanceAuthority,
}

/// No entry point occurs twice.
pub open spec fn distinct_entry_points(ops: Seq<(Seq<u8>, Option<Seq<u8>>)>) -> bool {
    forall|i: int, j: int| 0 <= i < j < ops.len() ==> #[trigger] ops[i].0 != #[trigger] ops[j].0
}

impl View for ContractState {
    type V = ContractModel;

    open spec fn view(&self) -> ContractModel {
        ContractModel {
            data: self.data.model(),
            operations: Seq::new(
                self.operations@.len(),
                |i: int| (self.operations@[i].0.0@, operation_model(self.operations@[i].1)),
            ),
            maintenance_authority: (
                self.maintenance_authority.committee@,
                self.maintenance_authority.threshold,
                self.maintenance_authority.counter,
            ),
        }
    }
}

impl ContractState {
    /// Each entry point has one entry, and each map in the state holds each key once.
    pub open spec fn wf(&self) -> bool {
        &&& distinct_entry_points(self@.operations)
        &&& state_model_wf(self@.data)
    }

    /// A copy, all the way down.
    pub fn duplicate(&self) -> (r: Self)
        ensures
            r@ == self@,
    {
        let mut ops: Vec<(EntryPointBuf, ContractOperation)> = Vec::new();
        let mut i: usize = 0;
        while i < self.operations.len()
            invariant
                i <= self.operations@.len(),
                ops@.len() == i,
                forall|j: int|
                    0 <= j < i ==> (#[trigger] ops@[j]).0.0@ == self.operations@[j].0.0@
                        && operation_model(ops@[j].1) == operation_model(self.operations@[j].1),
            decreases self.operations@.len() - i,
        {
            let (ep, op) = &self.operations[i];
            let v2 = match &op.v2 {
                Some(k) => Some(k.duplicate()),
                None => None,
            };
            ops.push((EntryPointBuf(copy_vec(&ep.0)), ContractOperation { v2 }));
            i = i + 1;
        }
        let r = ContractState {
            data: self.data.duplicate(),
            operations: ops,
            maintenance_authority: ContractMaintenanceAuthority {
                committee: copy_vec(&self.maintenance_authority.committee),
                threshold: self.maintenance_authority.threshold,
                counter: self.maintenance_authority.counter,
            },
        };
        assert(r@.operations =~= self@.operations);
        r
    }
}

impl Duplicate for ContractState {
    fn duplicate(&self) -> (r: Self) {
        ContractState::duplicate(self)
    }
}

/// The model of the default contract state.
pub open spec fn default_contract_model() -> ContractModel {
    ContractModel {
        data: StateModel::Null,
        operations: Seq::empty(),
        maintenance_authority: (Seq::empty(), 1u32, 0u32),
    }
}

impl Default for ContractState {
    /// A null state, no operations, and the default committee.
    fn default() -> (s: ContractState)
        ensures
            s.wf(),
            s@ == default_contract_model(),
    {
        let s = ContractState {
            data: StateValue::Null,
            operations: Vec::new(),
            maintenance_authority: ContractMaintenanceAuthority::new(),
        };
        assert(s@.operations =~= Seq::<(Seq<u8>, Option<Seq<u8>>)>::empty());
        assert(s@.maintenance_authority.0 =~= Seq::<VerifyingKey>::empty());
        s
    }
}

} // verus!
