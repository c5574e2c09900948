//! The context a contract query runs in: the block, the effects claimed so far, and the results.
use vstd::prelude::*;
use crate::coin::{spec_commitment, Commitment, Info, Nullifier, QualifiedInfo};
use crate::contract::Address;
use crate::hash::{blank_hash, HashOutput};
use crate::keymap::{ExactEq, KeyMap};
use crate::state::{StateModel, StateValue};
use crate::transfer::Recipient;
use crate::vm::{InvalidBuiltinDecode, OnchainProgramError, ResultMode};

verus! {

/// An element of the proof system's scalar field, held as its 32 bytes.
#[derive(Clone, Copy, Debug, PartialEq, Eq, PartialOrd, Ord, Hash)]
pub struct Fr(pub [u8; 32]);

impl ExactEq for HashOutput {
    fn exact_eq(&self, other: &Self) -> (b: bool) {
        self.same_as(other)
    }
}

impl ExactEq for Nullifier {
    fn exact_eq(&self, other: &Self) -> (b: bool) {
        self.same_as(other)
    }
}

impl ExactEq for Address {
    fn exact_eq(&self, other: &Self) -> (b: bool) {
        self.same_as(other)
    }
}

impl ExactEq for Fr {
    fn exact_eq(&self, other: &Self) -> (b: bool) {
        HashOutput(self.0).same_as(&HashOutput(other.0))
    }
}

/// A call to another contract that a contract call claims: its sequence
/// number, the callee's address, the entry point's hash and the commitment to
/// the call.
#[derive(Clone, Copy, Debug, PartialEq, Eq, PartialOrd, Ord, Hash)]
pub struct ClaimedContractCall(pub u64, pub Address, pub HashOutput, pub Fr);

impl ExactEq for ClaimedContractCall {
    fn exact_eq(&self, other: &Self) -> (b: bool) {
        self.0 == other.0 && self.1.exact_eq(&other.1) && self.2.exact_eq(&other.2) && self.3.exact_eq(&other.3)
    }
}

/// The block a transaction is applied in.
#[derive(Clone, Copy, Debug)]
pub struct BlockContext {
    pub seconds_since_epoch: u64,
    pub seconds_since_epoch_err: u32,
    pub block_hash: HashOutput,
}

impl Default for BlockContext {
    /// Time zero, no error margin, a zeroed block hash.
    fn default() -> (b: BlockContext)
        ensures
            b.seconds_since_epoch == 0,
            b.seconds_since_epoch_err == 0,
            b.block_hash.0@ == Seq::new(32, |i: int| 0u8),
    {
        BlockContext { seconds_since_epoch: 0, seconds_since_epoch_err: 0, block_hash: blank_hash() }
    }
}

/// What a contract call claims: nullifiers, coins received and spent, calls to
/// other contracts, and tokens minted.
#[derive(Debug)]
pub struct Effects {
    pub claimed_nullifiers: KeyMap<Nullifier, ()>,
    pub claimed_receives: KeyMap<Commitment, ()>,
    pub claimed_spends: KeyMap<Commitment, ()>,
    pub claimed_contract_calls: KeyMap<ClaimedContractCall, ()>,
    pub mints: KeyMap<HashOutput, u64>,
}

impl Effects {
    /// Every collection holds distinct keys.
    pub open spec fn wf(&self) -> bool {
        &&& self.claimed_nullifiers.wf()
        &&& self.claimed_receives.wf()
        &&& self.claimed_spends.wf()
        &&& self.claimed_contract_calls.wf()
        &&& self.mints.wf()
    }

    /// Nothing claimed, nothing minted.
    pub open spec fn is_empty(&self) -> bool {
        &&& self.claimed_nullifiers@ == Map::<Nullifier, ()>::empty()
        &&& self.claimed_receives@ == Map::<Commitment, ()>::empty()
        &&& self.claimed_spends@ == Map::<Commitment, ()>::empty()
        &&& self.claimed_contract_calls@ == Map::<ClaimedContractCall, ()>::empty()
        &&& self.mints@ == Map::<HashOutput, u64>::empty()
    }
}

/// The two hold the same claims and mints.
pub open spec fn same_effects(a: Effects, b: Effects) -> bool {
    &&& a.claimed_nullifiers@ == b.claimed_nullifiers@
    &&& a.claimed_receives@ == b.claimed_receives@
    &&& a.claimed_spends@ == b.claimed_spends@
    &&& a.claimed_contract_calls@ == b.claimed_contract_calls@
    &&& a.mints@ == b.mints@
}

impl Effects {
    /// Whether the two hold the same claims and mints.
    pub fn same_as(&self, other: &Effects) -> (b: bool)
        requires
            self.wf(),
            other.wf(),
        ensures
            b == same_effects(*self, *other),
            b <==> {
                &&& self.claimed_nullifiers@ == other.claimed_nullifiers@
                &&& self.claimed_receives@ == other.claimed_receives@
                &&& self.claimed_spends@ == other.claimed_spends@
                &&& self.claimed_contract_calls@ == other.claimed_contract_calls@
                &&& self.mints@ == other.mints@
            },
    {
        self.claimed_nullifiers.same_keys(&other.claimed_nullifiers) && self.claimed_receives.same_keys(
            &other.claimed_receives,
        ) && self.claimed_spends.same_keys(&other.claimed_spends) && self.claimed_contract_calls.same_keys(
            &other.claimed_contract_calls,
        ) && self.mints.same_as(&other.mints)
    }

    /// A copy, collection for collection.
    pub fn duplicate(&self) -> (e: Effects)
        requires
            self.wf(),
        ensures
            e.wf(),
            same_effects(e, *self),
    {
        Effects {
            claimed_nullifiers: self.claimed_nullifiers.duplicate(),
            claimed_receives: self.claimed_receives.duplicate(),
            claimed_spends: self.claimed_spends.duplicate(),
            claimed_contract_calls: self.claimed_contract_calls.duplicate(),
            mints: self.mints.duplicate(),
        }
    }
}

impl Default for Effects {
    /// No effects.
    fn default() -> (e: Effects)
        ensures
            e.wf(),
            e.is_empty(),
    {
        Effects {
            claimed_nullifiers: KeyMap::new(),
            claimed_receives: KeyMap::new(),
            claimed_spends: KeyMap::new(),
            claimed_contract_calls: KeyMap::new(),
            mints: KeyMap::new(),
        }
    }
}

/// The context a query of a contract runs in.
#[derive(Debug)]
pub struct QueryContext {
    pub state: StateValue,
    pub effects: Effects,
    pub address: Address,
    pub com_indicies: KeyMap<Commitment, u64>,
    pub block: BlockContext,
}

impl QueryContext {
    /// A context for the contract at `address` with state `state`, no effects,
    /// no known coins and the default block.
    pub fn new(state: StateValue, address: Address) -> (q: Self)
        ensures
            q.state == state,
            q.address == address,
            q.effects.wf(),
            q.effects.is_empty(),
            q.com_indicies.wf(),
            q.com_indicies@ == Map::<Commitment, u64>::empty(),
            q.block.seconds_since_epoch == 0,
            q.block.seconds_since_epoch_err == 0,
            q.block.block_hash.0@ == Seq::new(32, |i: int| 0u8),
    {
        QueryContext {
            state,
            address,
            effects: Effects::default(),
            com_indicies: KeyMap::new(),
            block: BlockContext::default(),
        }
    }

    /// The coin `coin` held by this contract, placed at its index in the
    /// commitment tree, if its commitment is known.
    pub fn qualify(&self, coin: &Info) -> (r: Option<QualifiedInfo>)
        requires
            self.com_indicies.wf(),
        ensures
            ({
                let cm = spec_commitment(*coin, Recipient::Contract(self.address));
                match r {
                    Some(q) => self.com_indicies@.contains_key(cm) && q == (QualifiedInfo {
                        nonce: coin.nonce,
                        type_: coin.type_,
                        value: coin.value,
                        mt_index: self.com_indicies@[cm],
                    }),
                    None => !self.com_indicies@.contains_key(cm),
                }
            }),
    {
        let cm = coin.commitment(&Recipient::Contract(self.address));
        match self.com_indicies.get(&cm) {
            Some(idx) => Some(coin.qualify(idx)),
            None => None,
        }
    }
}

/// What a query leaves: the new context, the events recorded and the gas used.
#[derive(Debug)]
pub struct QueryResults<M: ResultMode> {
    pub context: QueryContext,
    pub events: Vec<M::Event>,
    pub gas_cost: u64,
}

/// Why a transcript was rejected.
#[derive(Debug)]
pub enum TranscriptRejected {
    Execution(OnchainProgramError),
    Decode(InvalidBuiltinDecode),
    FinalStackWrongLength,
    WeakStateReturned,
    EffectDecodeError,
}

impl From<OnchainProgramError> for TranscriptRejected {
    fn from(err: OnchainProgramError) -> (r: TranscriptRejected) {
        TranscriptRejected::Execution(err)
    }
}

impl vstd::std_specs::convert::FromSpecImpl<OnchainProgramError> for TranscriptRejected {
    open spec fn obeys_from_spec() -> bool {
        true
    }

    open spec fn from_spec(err: OnchainProgramError) -> TranscriptRejected {
        TranscriptRejected::Execution(err)
    }
}

impl From<InvalidBuiltinDecode> for TranscriptRejected {
    fn from(err: InvalidBuiltinDecode) -> (r: TranscriptRejected) {
        TranscriptRejected::Decode(err)
    }
}

impl vstd::std_specs::convert::FromSpecImpl<InvalidBuiltinDecode> for TranscriptRejected {
    open spec fn obeys_from_spec() -> bool {
        true
    }

    open spec fn from_spec(err: InvalidBuiltinDecode) -> TranscriptRejected {
        TranscriptRejected::Decode(err)
    }
}

} // verus!
