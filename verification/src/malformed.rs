//! Why a transaction is malformed, and the checks of a contract's deployed
//! state that need no ledger.
use vstd::prelude::*;
use crate::bytes::copy_vec;
use crate::coin::{Commitment, Nullifier, TokenType};
use crate::context::Fr;
use crate::contract::Address;
use crate::contract_state::{ContractModel, ContractState};
use crate::hash::HashOutput;
use crate::ledger::{GuaranteedSectionLimitExceeded, LedgerState, WellFormedStrictness};
use crate::maintenance::{spec_data_to_sign, MaintenanceUpdate, SingleUpdate, UpdateModel};
use crate::signatures::{schnorr_verifies, Signature, VerifyingKey};
use crate::state::{ContractOperation, EntryPointBuf};
use crate::vm::InvalidBuiltinDecode;

verus! {

/// Why a transaction is malformed. The proof system's verification error and
/// the coin layer's malformed-offer error are held as their messages.
#[derive(Debug)]
pub enum MalformedTransaction {
    VerifierKeyNotSet { address: Address, operation: EntryPointBuf },
    TransactionTooLarge { tx_size: usize, limit: u64 },
    VerifierKeyTooLarge { actual: u64, limit: u64 },
    VerifierKeyNotPresent { address: Address, operation: EntryPointBuf },
    ContractNotPresent(Address),
    InvalidProof(String),
    BindingCommitmentOpeningInvalid,
    NotNormalized,
    FallibleWithoutCheckpoint,
    ClaimReceiveFailed(Commitment),
    ClaimSpendFailed(Commitment),
    ClaimNullifierFailed(Nullifier),
    ClaimCallFailed { address: Address, entry_point: HashOutput, comm: Fr },
    InvalidSchnorrProof,
    UnclaimedCoinCom(Commitment),
    UnclaimedNullifier(Nullifier),
    Unbalanced(TokenType, i128),
    Zswap(String),
    BuiltinDecode(InvalidBuiltinDecode),
    GuaranteedLimit(GuaranteedSectionLimitExceeded),
    MergingContracts,
    CantMergeTypes,
    ClaimOverflow,
    ClaimCoinMismatch,
    KeyNotInCommittee { address: Address, key_id: usize },
    InvalidCommitteeSignature { address: Address, key_id: usize },
    ThresholdMissed { address: Address, signatures: usize, threshold: usize },
    TooManyZswapEntries,
    UnsupportedProofVersion { op_version: String },
    GuaranteedTranscriptVersion { op_version: String },
    FallibleTranscriptVersion { op_version: String },
}

impl From<InvalidBuiltinDecode> for MalformedTransaction {
    fn from(err: InvalidBuiltinDecode) -> (r: MalformedTransaction) {
        MalformedTransaction::BuiltinDecode(err)
    }
}

impl vstd::std_specs::convert::FromSpecImpl<InvalidBuiltinDecode> for MalformedTransaction {
    open spec fn obeys_from_spec() -> bool {
        true
    }

    open spec fn from_spec(err: InvalidBuiltinDecode) -> MalformedTransaction {
        MalformedTransaction::BuiltinDecode(err)
    }
}

impl From<GuaranteedSectionLimitExceeded> for MalformedTransaction {
    fn from(err: GuaranteedSectionLimitExceeded) -> (r: MalformedTransaction) {
        MalformedTransaction::GuaranteedLimit(err)
    }
}

impl vstd::std_specs::convert::FromSpecImpl<GuaranteedSectionLimitExceeded> for MalformedTransaction {
    open spec fn obeys_from_spec() -> bool {
        true
    }

    open spec fn from_spec(err: GuaranteedSectionLimitExceeded) -> MalformedTransaction {
        MalformedTransaction::GuaranteedLimit(err)
    }
}

/// `e` reports that `operation` of the contract at `address` has no verifier key.
pub open spec fn is_key_not_set(e: MalformedTransaction, address: Address, operation: Seq<u8>) -> bool {
    e matches MalformedTransaction::VerifierKeyNotSet { address: a, operation: o } && a == address && o.0@
        == operation
}

/// Every operation before index `n` has a verifier key.
pub open spec fn keys_set_before(ops: Seq<(Seq<u8>, Option<Seq<u8>>)>, n: int) -> bool {
    forall|j: int| 0 <= j < n ==> (#[trigger] ops[j]).1 is Some
}

impl ContractOperation {
    /// An operation is well-formed when its current version has a verifier key.
    pub fn well_formed(&self, address: Address, operation: &EntryPointBuf) -> (r: Result<
        (),
        MalformedTransaction,
    >)
        ensures
            match r {
                Ok(()) => self.v2 is Some,
                Err(e) => self.v2 is None && is_key_not_set(e, address, operation.0@),
            },
    {
        match &self.v2 {
            Some(_) => Ok(()),
            None => Err(
                MalformedTransaction::VerifierKeyNotSet { address, operation: EntryPointBuf(copy_vec(&operation.0)) },
            ),
        }
    }
}

impl ContractState {
    /// A contract may be deployed when each of its operations has a verifier key
    /// and its committee has never been replaced (counter zero). Reports the
    /// first operation without a key, in the order they are held.
    pub fn well_formed(&self, address: Address) -> (r: Result<(), MalformedTransaction>)
        ensures
            r is Ok <==> keys_set_before(self@.operations, self@.operations.len() as int)
                && self.maintenance_authority.counter == 0,
            r matches Err(e) ==> (exists|i: int|
                0 <= i < self@.operations.len() && keys_set_before(self@.operations, i)
                    && #[trigger] self@.operations[i].1 is None && is_key_not_set(
                    e,
                    address,
                    self@.operations[i].0,
                )) || (e is NotNormalized && keys_set_before(
                self@.operations,
                self@.operations.len() as int,
            ) && self.maintenance_authority.counter != 0),
    {
        let mut i: usize = 0;
        while i < self.operations.len()
            invariant
                i <= self.operations@.len(),
                keys_set_before(self@.operations, i as int),
            decreases self.operations@.len() - i,
        {
            let (ep, op) = &self.operations[i];
            match op.well_formed(address, ep) {
                Ok(()) => {},
                Err(e) => {
                    assert(self@.operations[i as int].1 is None);
                    return Err(e);
                },
            }
            i = i + 1;
        }
        if self.maintenance_authority.counter != 0 {
            return Err(MalformedTransaction::NotNormalized);
        }
        Ok(())
    }
}


/// The member indices of the signatures strictly increase, so no member signs twice.
pub open spec fn indices_increasing(sigs: Seq<(u32, Signature)>) -> bool {
    forall|i: int, j: int| 0 <= i < j < sigs.len() ==> #[trigger] sigs[i].0 < #[trigger] sigs[j].0
}

/// The counter a replacement committee must carry: one more than the update's,
/// saturating.
pub open spec fn next_counter(counter: u32) -> u32 {
    if counter == u32::MAX {
        u32::MAX
    } else {
        (counter + 1) as u32
    }
}

/// `u` replaces the committee with one whose counter is not `expected`.
pub open spec fn bad_replacement(u: UpdateModel, expected: u32) -> bool {
    u matches UpdateModel::ReplaceAuthority(a) && a.2 != expected
}

/// What is wrong with one signature entry for `data`, if anything: its member
/// is not in the committee, or (when checked) the signature does not verify.
pub open spec fn entry_problem(
    entry: (u32, Signature),
    committee: Seq<VerifyingKey>,
    data: Seq<u8>,
    verify: bool,
    address: Address,
) -> Option<MalformedTransaction> {
    if entry.0 >= committee.len() {
        Some(MalformedTransaction::KeyNotInCommittee { address, key_id: entry.0 as usize })
    } else if verify && !schnorr_verifies(committee[entry.0 as int]@, data, entry.1@) {
        Some(MalformedTransaction::InvalidCommitteeSignature { address, key_id: entry.0 as usize })
    } else {
        None
    }
}

/// The problem of the first signature entry that has one, in order.
pub open spec fn first_entry_problem(
    sigs: Seq<(u32, Signature)>,
    committee: Seq<VerifyingKey>,
    data: Seq<u8>,
    verify: bool,
    address: Address,
) -> Option<MalformedTransaction>
    decreases sigs.len(),
{
    if sigs.len() == 0 {
        None
    } else {
        match first_entry_problem(sigs.drop_last(), committee, data, verify, address) {
            Some(e) => Some(e),
            None => entry_problem(sigs.last(), committee, data, verify, address),
        }
    }
}

/// Once a prefix of the entries has a problem, the first problem of all of them is that one.
proof fn lemma_first_problem_prefix(
    sigs: Seq<(u32, Signature)>,
    j: int,
    committee: Seq<VerifyingKey>,
    data: Seq<u8>,
    verify: bool,
    address: Address,
)
    requires
        0 <= j <= sigs.len(),
        first_entry_problem(sigs.take(j), committee, data, verify, address) is Some,
    ensures
        first_entry_problem(sigs, committee, data, verify, address) == first_entry_problem(
            sigs.take(j),
            committee,
            data,
            verify,
            address,
        ),
    decreases sigs.len(),
{
    if j == sigs.len() {
        assert(sigs.take(j) =~= sigs);
    } else {
        assert(sigs.drop_last().take(j) =~= sigs.take(j));
        lemma_first_problem_prefix(sigs.drop_last(), j, committee, data, verify, address);
    }
}

/// When every entry is by a committee member and verifies, no entry has a problem.
proof fn lemma_no_entry_problem(
    sigs: Seq<(u32, Signature)>,
    committee: Seq<VerifyingKey>,
    data: Seq<u8>,
    verify: bool,
    address: Address,
)
    requires
        forall|i: int|
            0 <= i < sigs.len() ==> (#[trigger] sigs[i]).0 < committee.len() && schnorr_verifies(
                committee[sigs[i].0 as int]@,
                data,
                sigs[i].1@,
            ),
    ensures
        first_entry_problem(sigs, committee, data, verify, address) is None,
    decreases sigs.len(),
{
    if sigs.len() > 0 {
        let init = sigs.drop_last();
        assert forall|i: int| 0 <= i < init.len() implies (#[trigger] init[i]).0 < committee.len() && schnorr_verifies(
            committee[init[i].0 as int]@,
            data,
            init[i].1@,
        ) by {
            assert(init[i] == sigs[i]);
        }
        lemma_no_entry_problem(init, committee, data, verify, address);
        assert(sigs.last() == sigs[sigs.len() - 1]);
    }
}

/// Whether a maintenance update is well-formed against the contract it names
/// (`None` when there is none), and why not: the contract must exist, the
/// signatures' member indices strictly increase, every replacement committee
/// carries the next counter, each signature is by a committee member and (when
/// checked) verifies over the signed message, and there are at least as many
/// signatures as the committee's threshold.
pub open spec fn spec_maintenance_well_formed(
    address: Address,
    updates: Seq<UpdateModel>,
    counter: u32,
    sigs: Seq<(u32, Signature)>,
    contract: Option<ContractModel>,
    verify: bool,
) -> Result<(), MalformedTransaction> {
    match contract {
        None => Err(MalformedTransaction::ContractNotPresent(address)),
        Some(c) => {
            let committee = c.maintenance_authority.0;
            let threshold = c.maintenance_authority.1;
            if !indices_increasing(sigs) {
                Err(MalformedTransaction::NotNormalized)
            } else if exists|i: int| 0 <= i < updates.len() && #[trigger] bad_replacement(updates[i], next_counter(counter)) {
                Err(MalformedTransaction::NotNormalized)
            } else {
                match first_entry_problem(sigs, committee, spec_data_to_sign(address, updates, counter), verify, address) {
                    Some(e) => Err(e),
                    None => if sigs.len() < threshold {
                        Err(
                            MalformedTransaction::ThresholdMissed {
                                address,
                                signatures: sigs.len() as usize,
                                threshold: threshold as usize,
                            },
                        )
                    } else {
                        Ok(())
                    },
                }
            }
        },
    }
}

/// The contract at `address` in a ledger model, if any.
pub open spec fn contract_at(state: crate::ledger::LedgerModel, address: Address) -> Option<ContractModel> {
    if state.contract.contains_key(address) {
        Some(state.contract[address])
    } else {
        None
    }
}

/// A maintenance update is accepted when the contract exists, each committee
/// member it names signs at most once and in order, every entry is a committee
/// member's valid signature of the signed message, there are at least as many
/// as the threshold, and every replacement committee carries the next counter.
pub proof fn law_signed_update_accepted(
    address: Address,
    updates: Seq<UpdateModel>,
    counter: u32,
    sigs: Seq<(u32, Signature)>,
    contract: ContractModel,
    verify: bool,
)
    requires
        indices_increasing(sigs),
        forall|i: int| 0 <= i < updates.len() ==> !#[trigger] bad_replacement(updates[i], next_counter(counter)),
        forall|i: int|
            0 <= i < sigs.len() ==> (#[trigger] sigs[i]).0 < contract.maintenance_authority.0.len()
                && schnorr_verifies(
                contract.maintenance_authority.0[sigs[i].0 as int]@,
                spec_data_to_sign(address, updates, counter),
                sigs[i].1@,
            ),
        sigs.len() >= contract.maintenance_authority.1,
    ensures
        spec_maintenance_well_formed(address, updates, counter, sigs, Some(contract), verify) is Ok,
{
    lemma_no_entry_problem(
        sigs,
        contract.maintenance_authority.0,
        spec_data_to_sign(address, updates, counter),
        verify,
        address,
    );
}

/// Whether the member indices of `sigs` strictly increase.
fn check_indices(sigs: &Vec<(u32, Signature)>) -> (b: bool)
    ensures
        b == indices_increasing(sigs@),
{
    let ghost s = sigs@;
    let mut i: usize = 1;
    while i < sigs.len()
        invariant
            s == sigs@,
            1 <= i,
            i <= s.len() || s.len() == 0,
            forall|a: int, b: int| 0 <= a < b < i && b < s.len() ==> #[trigger] s[a].0 < #[trigger] s[b].0,
        decreases s.len() - i,
    {
        if sigs[i - 1].0 >= sigs[i].0 {
            assert(!(s[i - 1].0 < s[i as int].0));
            return false;
        }
        proof {
            assert forall|a: int, b: int| 0 <= a < b < i + 1 && b < s.len() implies #[trigger] s[a].0
                < #[trigger] s[b].0 by {
                if b == i && a < i - 1 {
                    assert(s[a].0 < s[i - 1].0);
                }
            }
        }
        i = i + 1;
    }
    true
}

/// Whether some update replaces the committee with one whose counter is not `expected`.
fn has_bad_replacement(updates: &Vec<SingleUpdate>, expected: u32) -> (b: bool)
    ensures
        b == exists|i: int| 0 <= i < updates.deep_view().len() && #[trigger] bad_replacement(updates.deep_view()[i], expected),
{
    let ghost ups = updates.deep_view();
    let mut j: usize = 0;
    while j < updates.len()
        invariant
            ups == updates.deep_view(),
            j <= ups.len(),
            forall|k: int| 0 <= k < j ==> !#[trigger] bad_replacement(ups[k], expected),
        decreases ups.len() - j,
    {
        match &updates[j] {
            SingleUpdate::ReplaceAuthority(auth) => {
                if auth.counter != expected {
                    assert(bad_replacement(ups[j as int], expected));
                    return true;
                }
            },
            _ => {},
        }
        j = j + 1;
    }
    false
}

/// The problem of the first signature entry that has one, in order.
fn check_entries(
    sigs: &Vec<(u32, Signature)>,
    committee: &Vec<VerifyingKey>,
    data: &Vec<u8>,
    verify: bool,
    address: Address,
) -> (r: Option<MalformedTransaction>)
    ensures
        r == first_entry_problem(sigs@, committee@, data@, verify, address),
{
    let ghost s = sigs@;
    let mut k: usize = 0;
    assert(s.take(0) =~= Seq::<(u32, Signature)>::empty());
    while k < sigs.len()
        invariant
            s == sigs@,
            k <= s.len(),
            first_entry_problem(s.take(k as int), committee@, data@, verify, address) is None,
        decreases s.len() - k,
    {
        let idx = sigs[k].0;
        proof {
            assert(s.take(k + 1).drop_last() =~= s.take(k as int));
            assert(s.take(k + 1).last() == s[k as int]);
        }
        if idx as usize >= committee.len() {
            proof {
                lemma_first_problem_prefix(s, k + 1, committee@, data@, verify, address);
            }
            return Some(MalformedTransaction::KeyNotInCommittee { address, key_id: idx as usize });
        }
        let vk = &committee[idx as usize];
        if verify && !vk.verify(data.as_slice(), &sigs[k].1) {
            proof {
                lemma_first_problem_prefix(s, k + 1, committee@, data@, verify, address);
            }
            return Some(MalformedTransaction::InvalidCommitteeSignature { address, key_id: idx as usize });
        }
        k = k + 1;
    }
    assert(s.take(s.len() as int) =~= s);
    None
}

impl MaintenanceUpdate {
    /// Checks the update against the contract it names in `ref_state`; the
    /// signatures are verified when `strictness` asks for it.
    pub fn well_formed(&self, ref_state: &LedgerState, strictness: WellFormedStrictness) -> (r: Result<
        (),
        MalformedTransaction,
    >)
        requires
            ref_state.wf(),
        ensures
            r == spec_maintenance_well_formed(
                self.address,
                self.updates.deep_view(),
                self.counter,
                self.signatures@,
                contract_at(ref_state@, self.address),
                strictness.verify_signatures,
            ),
    {
        let cstate = match ref_state.contract.get_ref(&self.address) {
            Some(c) => c,
            None => {
                return Err(MalformedTransaction::ContractNotPresent(self.address));
            },
        };
        assert(contract_at(ref_state@, self.address) == Some(cstate@));
        let data = self.data_to_sign();
        if !check_indices(&self.signatures) {
            return Err(MalformedTransaction::NotNormalized);
        }
        let expected = self.counter.saturating_add(1);
        assert(expected == next_counter(self.counter));
        if has_bad_replacement(&self.updates, expected) {
            return Err(MalformedTransaction::NotNormalized);
        }
        match check_entries(
            &self.signatures,
            &cstate.maintenance_authority.committee,
            &data,
            strictness.verify_signatures,
            self.address,
        ) {
            Some(e) => {
                return Err(e);
            },
            None => {},
        }
        let threshold = cstate.maintenance_authority.threshold;
        if self.signatures.len() < threshold as usize {
            return Err(
                MalformedTransaction::ThresholdMissed {
                    address: self.address,
                    signatures: self.signatures.len(),
                    threshold: threshold as usize,
                },
            );
        }
        Ok(())
    }
}

} // verus!
