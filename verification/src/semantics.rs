//! Why a transaction fails against the ledger state, and what a transaction
//! section does to the ledger's contracts and treasury: deployments, recorded
//! call results, maintenance updates and credited imbalances.
use vstd::prelude::*;
use crate::bytes::copy_vec;
use crate::coin::{PublicKey, TokenType};
use crate::context::{same_effects, Effects, QueryContext, TranscriptRejected};
use crate::contract::Address;
use crate::contract_state::{ContractModel, ContractState};
use crate::ledger::{get_or_zero, saturating_sum, LedgerModel, LedgerState};
use crate::maintenance::{ContractMaintenanceAuthority, MaintenanceUpdate, SingleUpdate, UpdateModel};
use crate::malformed::{bad_replacement, next_counter, spec_maintenance_well_formed, contract_at};
use crate::state::{
    ContractOperation, ContractOperationVersion, ContractOperationVersionedVerifierKey, EntryPointBuf,
};

verus! {

/// Why a transaction fails against the current ledger state. The coin layer's
/// error is held as its message.
#[derive(Debug)]
pub enum TransactionInvalid {
    EffectsMismatch { declared: Box<Effects>, actual: Box<Effects> },
    ContractAlreadyDeployed(Address),
    ContractNotPresent(Address),
    Zswap(String),
    Transcript(TranscriptRejected),
    InsufficientClaimable { requested: u128, token_type: TokenType, claimable: u128, claimant: PublicKey },
    VerifierKeyNotFound(EntryPointBuf, ContractOperationVersion),
    VerifierKeyAlreadyPresent(EntryPointBuf, ContractOperationVersion),
    ReplayCounterMismatch(Address),
}

impl From<TranscriptRejected> for TransactionInvalid {
    fn from(err: TranscriptRejected) -> (r: TransactionInvalid) {
        TransactionInvalid::Transcript(err)
    }
}

impl vstd::std_specs::convert::FromSpecImpl<TranscriptRejected> for TransactionInvalid {
    open spec fn obeys_from_spec() -> bool {
        true
    }

    open spec fn from_spec(err: TranscriptRejected) -> TransactionInvalid {
        TransactionInvalid::Transcript(err)
    }
}

/// Why a maintenance update cannot be applied, with entry points by their bytes.
pub enum UpdateFailure {
    ContractNotPresent(Address),
    ReplayCounterMismatch(Address),
    VerifierKeyNotFound(Seq<u8>, ContractOperationVersion),
    VerifierKeyAlreadyPresent(Seq<u8>, ContractOperationVersion),
}

/// `e` is the error `f` describes.
pub open spec fn reports(e: TransactionInvalid, f: UpdateFailure) -> bool {
    match f {
        UpdateFailure::ContractNotPresent(a) => e == TransactionInvalid::ContractNotPresent(a),
        UpdateFailure::ReplayCounterMismatch(a) => e == TransactionInvalid::ReplayCounterMismatch(a),
        UpdateFailure::VerifierKeyNotFound(ep, v) => e matches TransactionInvalid::VerifierKeyNotFound(p, w)
            && p.0@ == ep && w == v,
        UpdateFailure::VerifierKeyAlreadyPresent(ep, v) => e matches TransactionInvalid::VerifierKeyAlreadyPresent(p, w)
            && p.0@ == ep && w == v,
    }
}

/// `i` is the first position of entry point `ep` among `ops`.
pub open spec fn first_position(ops: Seq<(Seq<u8>, Option<Seq<u8>>)>, ep: Seq<u8>, i: int) -> bool {
    &&& 0 <= i < ops.len()
    &&& ops[i].0 == ep
    &&& forall|j: int| 0 <= j < i ==> (#[trigger] ops[j]).0 != ep
}

/// The first position of `ep` among `ops`, if it occurs.
pub open spec fn position_of(ops: Seq<(Seq<u8>, Option<Seq<u8>>)>, ep: Seq<u8>) -> Option<int> {
    if exists|i: int| first_position(ops, ep, i) {
        Some(choose|i: int| first_position(ops, ep, i))
    } else {
        None
    }
}

/// A contract after one single update: a replaced committee; an entry point's
/// key removed (its entry goes, as an operation without keys); or a key
/// inserted for an entry point that has none (a new entry goes last).
pub open spec fn apply_update(c: ContractModel, u: UpdateModel) -> Result<ContractModel, UpdateFailure> {
    match u {
        UpdateModel::ReplaceAuthority(a) => Ok(ContractModel { maintenance_authority: a, ..c }),
        UpdateModel::VerifierKeyRemove(ep, ver) => match position_of(c.operations, ep) {
            None => Err(UpdateFailure::VerifierKeyNotFound(ep, ver)),
            Some(i) => Ok(ContractModel { operations: c.operations.remove(i), ..c }),
        },
        UpdateModel::VerifierKeyInsert(ep, vk) => match position_of(c.operations, ep) {
            Some(i) => if c.operations[i].1 is Some {
                Err(UpdateFailure::VerifierKeyAlreadyPresent(ep, ContractOperationVersion::V2))
            } else {
                Ok(ContractModel { operations: c.operations.update(i, (ep, Some(vk))), ..c })
            },
            None => Ok(ContractModel { operations: c.operations.push((ep, Some(vk))), ..c }),
        },
    }
}

/// A contract after the updates in turn, or the first failure.
pub open spec fn apply_updates(c: ContractModel, us: Seq<UpdateModel>) -> Result<ContractModel, UpdateFailure>
    decreases us.len(),
{
    if us.len() == 0 {
        Ok(c)
    } else {
        match apply_updates(c, us.drop_last()) {
            Err(f) => Err(f),
            Ok(c2) => apply_update(c2, us.last()),
        }
    }
}

/// The ledger after a maintenance update: the contract must exist and carry the
/// update's counter; its counter goes up by one (saturating), then the updates
/// apply in turn.
pub open spec fn spec_apply_maintenance(
    s: LedgerModel,
    address: Address,
    updates: Seq<UpdateModel>,
    counter: u32,
) -> Result<LedgerModel, UpdateFailure> {
    if !s.contract.contains_key(address) {
        Err(UpdateFailure::ContractNotPresent(address))
    } else {
        let c = s.contract[address];
        let auth = c.maintenance_authority;
        if auth.2 != counter {
            Err(UpdateFailure::ReplayCounterMismatch(address))
        } else {
            let c1 = ContractModel { maintenance_authority: (auth.0, auth.1, next_counter(auth.2)), ..c };
            match apply_updates(c1, updates) {
                Err(f) => Err(f),
                Ok(c2) => Ok(LedgerModel { contract: s.contract.insert(address, c2), ..s }),
            }
        }
    }
}

/// The position of `ep` among the operations of `c`, if any.
fn find_operation(c: &ContractState, ep: &EntryPointBuf) -> (r: Option<usize>)
    ensures
        match r {
            Some(i) => position_of(c@.operations, ep.0@) == Some(i as int) && i < c.operations@.len(),
            None => position_of(c@.operations, ep.0@) is None,
        },
{
    let ghost ops = c@.operations;
    let mut i: usize = 0;
    while i < c.operations.len()
        invariant
            ops == c@.operations,
            i <= ops.len(),
            forall|j: int| 0 <= j < i ==> (#[trigger] ops[j]).0 != ep.0@,
        decreases ops.len() - i,
    {
        if crate::bytes::same_bytes(&c.operations[i].0.0, &ep.0) {
            assert(first_position(ops, ep.0@, i as int));
            proof {
                let k = choose|k: int| first_position(ops, ep.0@, k);
                if k < i {
                    assert(ops[k].0 != ep.0@);
                } else if k > i {
                    assert(ops[i as int].0 != ep.0@);
                }
            }
            return Some(i);
        }
        i = i + 1;
    }
    assert(!exists|k: int| first_position(ops, ep.0@, k)) by {
        if exists|k: int| first_position(ops, ep.0@, k) {
            let k = choose|k: int| first_position(ops, ep.0@, k);
            assert(ops[k].0 != ep.0@);
        }
    }
    None
}

/// Applies one single update to `c`.
fn apply_single(c: &mut ContractState, u: &SingleUpdate) -> (r: Result<(), TransactionInvalid>)
    ensures
        match apply_update(old(c)@, u.deep_view()) {
            Ok(m) => r is Ok && final(c)@ == m,
            Err(f) => r matches Err(e) && reports(e, f),
        },
{
    match u {
        SingleUpdate::ReplaceAuthority(auth) => {
            let ghost before = c@;
            c.maintenance_authority = ContractMaintenanceAuthority {
                committee: copy_vec(&auth.committee),
                threshold: auth.threshold,
                counter: auth.counter,
            };
            assert(auth.committee.deep_view() =~= auth.committee@);
            assert(c@.operations =~= before.operations);
            Ok(())
        },
        SingleUpdate::VerifierKeyRemove(ep, ver) => {
            match find_operation(c, ep) {
                None => Err(TransactionInvalid::VerifierKeyNotFound(EntryPointBuf(copy_vec(&ep.0)), *ver)),
                Some(i) => {
                    let ghost before = c@;
                    let _ = c.operations.remove(i);
                    assert(c@.operations =~= before.operations.remove(i as int));
                    Ok(())
                },
            }
        },
        SingleUpdate::VerifierKeyInsert(ep, vk) => {
            let key = match vk {
                ContractOperationVersionedVerifierKey::V2(k) => k.duplicate(),
            };
            match find_operation(c, ep) {
                Some(i) => {
                    if c.operations[i].1.v2.is_some() {
                        return Err(
                            TransactionInvalid::VerifierKeyAlreadyPresent(
                                EntryPointBuf(copy_vec(&ep.0)),
                                ContractOperationVersion::V2,
                            ),
                        );
                    }
                    let ghost before = c@;
                    c.operations.set(i, (EntryPointBuf(copy_vec(&ep.0)), ContractOperation { v2: Some(key) }));
                    assert(c@.operations =~= before.operations.update(i as int, (ep.0@, Some(vk.deep_view()))));
                    Ok(())
                },
                None => {
                    let ghost before = c@;
                    c.operations.push((EntryPointBuf(copy_vec(&ep.0)), ContractOperation { v2: Some(key) }));
                    assert(c@.operations =~= before.operations.push((ep.0@, Some(vk.deep_view()))));
                    Ok(())
                },
            }
        },
    }
}

/// Once the updates of a prefix fail, all of them fail the same way.
proof fn lemma_apply_updates_err_prefix(c: ContractModel, us: Seq<UpdateModel>, j: int)
    requires
        0 <= j <= us.len(),
        apply_updates(c, us.take(j)) is Err,
    ensures
        apply_updates(c, us) == apply_updates(c, us.take(j)),
    decreases us.len(),
{
    if j == us.len() {
        assert(us.take(j) =~= us);
    } else {
        assert(us.drop_last().take(j) =~= us.take(j));
        lemma_apply_updates_err_prefix(c, us.drop_last(), j);
    }
}

impl LedgerState {
    /// Applies a maintenance update: the contract at its address must exist and
    /// carry the update's counter; the counter goes up by one (saturating), then
    /// the single updates apply in turn. On failure the ledger is unchanged.
    pub fn apply_maintenance_update(&self, upd: &MaintenanceUpdate) -> (r: Result<LedgerState, TransactionInvalid>)
        requires
            self.wf(),
        ensures
            match spec_apply_maintenance(self@, upd.address, upd.updates.deep_view(), upd.counter) {
                Ok(m) => r matches Ok(s) && s.wf() && s@ == m,
                Err(f) => r matches Err(e) && reports(e, f),
            },
    {
        let addr = upd.address;
        let mut cstate = match self.contract.get_ref(&addr) {
            Some(c) => c.duplicate(),
            None => {
                return Err(TransactionInvalid::ContractNotPresent(addr));
            },
        };
        if cstate.maintenance_authority.counter != upd.counter {
            return Err(TransactionInvalid::ReplayCounterMismatch(addr));
        }
        let ghost c0 = cstate@;
        assert(self@.contract.contains_key(addr) && self@.contract[addr] == c0);
        cstate.maintenance_authority.counter = cstate.maintenance_authority.counter.saturating_add(1);
        let ghost c1 = cstate@;
        assert(c1.operations =~= c0.operations);
        assert(c1 == ContractModel {
            maintenance_authority: (c0.maintenance_authority.0, c0.maintenance_authority.1, next_counter(c0.maintenance_authority.2)),
            ..c0
        });
        let ghost us = upd.updates.deep_view();
        let mut i: usize = 0;
        assert(us.take(0) =~= Seq::<UpdateModel>::empty());
        while i < upd.updates.len()
            invariant
                us == upd.updates.deep_view(),
                addr == upd.address,
                self@.contract.contains_key(addr),
                self@.contract[addr] == c0,
                c0.maintenance_authority.2 == upd.counter,
                c1 == (ContractModel {
                    maintenance_authority: (c0.maintenance_authority.0, c0.maintenance_authority.1, next_counter(c0.maintenance_authority.2)),
                    ..c0
                }),
                i <= us.len(),
                apply_updates(c1, us.take(i as int)) == Ok::<ContractModel, UpdateFailure>(cstate@),
            decreases us.len() - i,
        {
            proof {
                assert(us.take(i + 1).drop_last() =~= us.take(i as int));
                assert(us.take(i + 1).last() == us[i as int]);
            }
            let ghost mid = cstate@;
            match apply_single(&mut cstate, &upd.updates[i]) {
                Ok(()) => {},
                Err(e) => {
                    proof {
                        assert(apply_updates(c1, us.take(i + 1)) == apply_update(mid, us[i as int]));
                        lemma_apply_updates_err_prefix(c1, us, i + 1);
                    }
                    return Err(e);
                },
            }
            i = i + 1;
        }
        assert(us.take(us.len() as int) =~= us);
        let mut state = self.duplicate();
        let ghost before = state.contract@;
        let ghost c2 = cstate@;
        state.contract.insert(addr, cstate);
        proof {
            assert(state.contract@ == before.insert(addr, cstate));
            assert(state@.contract =~= self@.contract.insert(addr, c2));
        }
        Ok(state)
    }
}


impl LedgerState {
    /// Deploys `initial_state` at `address`, the address its deployment hashes
    /// to; refused when a contract is already deployed there.
    pub fn deploy_contract(&self, address: Address, initial_state: &ContractState) -> (r: Result<
        LedgerState,
        TransactionInvalid,
    >)
        requires
            self.wf(),
        ensures
            match r {
                Ok(s) => !self@.contract.contains_key(address) && s.wf() && s@ == (LedgerModel {
                    contract: self@.contract.insert(address, initial_state@),
                    ..self@
                }),
                Err(e) => self@.contract.contains_key(address) && e == TransactionInvalid::ContractAlreadyDeployed(
                    address,
                ),
            },
    {
        if self.contract.contains_key(&address) {
            return Err(TransactionInvalid::ContractAlreadyDeployed(address));
        }
        let mut state = self.duplicate();
        let ghost before = state.contract@;
        let c = initial_state.duplicate();
        state.contract.insert(address, c);
        proof {
            assert(state.contract@ == before.insert(address, c));
            assert(state@.contract =~= self@.contract.insert(address, initial_state@));
        }
        Ok(state)
    }
}

impl LedgerState {
    /// Records a call's run against the contract at `address`: the contract must
    /// be deployed, and the effects the run ended with (in `context`) must be the
    /// ones the transcript declared; then the contract's state becomes the one
    /// the run ended with.
    pub fn apply_call_result(&self, address: Address, context: QueryContext, declared: &Effects) -> (r: Result<
        LedgerState,
        TransactionInvalid,
    >)
        requires
            self.wf(),
            context.effects.wf(),
            declared.wf(),
        ensures
            match r {
                Ok(s) => self@.contract.contains_key(address) && same_effects(context.effects, *declared)
                    && context.effects.mints@ == declared.mints@ && context.effects.claimed_nullifiers@
                    == declared.claimed_nullifiers@ && context.effects.claimed_receives@ == declared.claimed_receives@
                    && context.effects.claimed_spends@ == declared.claimed_spends@
                    && context.effects.claimed_contract_calls@ == declared.claimed_contract_calls@ && s.wf()
                    && s@ == (LedgerModel {
                    contract: self@.contract.insert(
                        address,
                        ContractModel { data: context.state.model(), ..self@.contract[address] },
                    ),
                    ..self@
                }),
                Err(e) => if !self@.contract.contains_key(address) {
                    e == TransactionInvalid::ContractNotPresent(address)
                } else {
                    &&& !same_effects(context.effects, *declared)
                    &&& e matches TransactionInvalid::EffectsMismatch { declared: d, actual: a }
                    &&& same_effects(*d, *declared) && same_effects(*a, context.effects)
                },
            },
    {
        if !self.contract.contains_key(&address) {
            return Err(TransactionInvalid::ContractNotPresent(address));
        }
        if !context.effects.same_as(declared) {
            return Err(
                TransactionInvalid::EffectsMismatch {
                    declared: Box::new(declared.duplicate()),
                    actual: Box::new(context.effects),
                },
            );
        }
        Ok(self.update_index(address, context))
    }
}

/// The treasury after a section's imbalances, in turn: each positive imbalance
/// is added to the holding of its token (saturating); the others are ignored.
pub open spec fn credit_imbalances(t: Map<TokenType, u128>, imbalances: Seq<(TokenType, i128)>) -> Map<
    TokenType,
    u128,
>
    decreases imbalances.len(),
{
    if imbalances.len() == 0 {
        t
    } else {
        let t2 = credit_imbalances(t, imbalances.drop_last());
        let (tt, val) = imbalances.last();
        if val > 0 {
            t2.insert(tt, saturating_sum(get_or_zero(t2, tt), val as u128))
        } else {
            t2
        }
    }
}

impl LedgerState {
    /// Adds a section's positive imbalances to the treasury; a negative or zero
    /// imbalance leaves it unchanged.
    pub fn credit_imbalances(&mut self, imbalances: &Vec<(TokenType, i128)>)
        requires
            old(self).wf(),
        ensures
            final(self).wf(),
            final(self)@ == (LedgerModel {
                treasury: credit_imbalances(old(self)@.treasury, imbalances@),
                ..old(self)@
            }),
    {
        let ghost t0 = self@.treasury;
        let ghost start = self@;
        let mut i: usize = 0;
        assert(imbalances@.take(0) =~= Seq::<(TokenType, i128)>::empty());
        while i < imbalances.len()
            invariant
                i <= imbalances@.len(),
                self.wf(),
                self@ == (LedgerModel { treasury: credit_imbalances(t0, imbalances@.take(i as int)), ..start }),
            decreases imbalances@.len() - i,
        {
            let (tt, val) = imbalances[i];
            proof {
                assert(imbalances@.take(i + 1).drop_last() =~= imbalances@.take(i as int));
                assert(imbalances@.take(i + 1).last() == (tt, val));
            }
            if val > 0 {
                let held = match self.treasury.get(&tt) {
                    Some(v) => v,
                    None => 0,
                };
                let ghost before = self@;
                self.treasury.insert(tt, held.saturating_add(val as u128));
                assert(self@ =~= LedgerModel {
                    treasury: credit_imbalances(t0, imbalances@.take(i + 1)),
                    ..start
                });
            }
            i = i + 1;
        }
        assert(imbalances@.take(imbalances@.len() as int) =~= imbalances@);
    }
}

/// Crediting imbalances never lowers what the treasury holds of any token.
pub proof fn law_imbalances_never_debit(t: Map<TokenType, u128>, imbalances: Seq<(TokenType, i128)>, tt: TokenType)
    ensures
        get_or_zero(credit_imbalances(t, imbalances), tt) >= get_or_zero(t, tt),
    decreases imbalances.len(),
{
    if imbalances.len() > 0 {
        law_imbalances_never_debit(t, imbalances.drop_last(), tt);
    }
}

/// Updates that replace the committee only with ones carrying counter `e`
/// leave a contract whose counter is `e` with counter `e`.
proof fn lemma_apply_updates_counter(c: ContractModel, us: Seq<UpdateModel>, e: u32)
    requires
        c.maintenance_authority.2 == e,
        apply_updates(c, us) is Ok,
        forall|i: int| 0 <= i < us.len() ==> !#[trigger] bad_replacement(us[i], e),
    ensures
        apply_updates(c, us)->Ok_0.maintenance_authority.2 == e,
    decreases us.len(),
{
    if us.len() > 0 {
        let init = us.drop_last();
        assert forall|i: int| 0 <= i < init.len() implies !#[trigger] bad_replacement(init[i], e) by {
            assert(init[i] == us[i]);
        }
        lemma_apply_updates_counter(c, init, e);
        assert(!bad_replacement(us[us.len() - 1], e));
    }
}

/// Replay protection: a maintenance update that is well-formed against a ledger
/// and applies to it is refused as a replay by the ledger it produced, as long
/// as its counter is below the largest one.
pub proof fn law_maintenance_not_replayable(
    s: LedgerModel,
    address: Address,
    updates: Seq<UpdateModel>,
    counter: u32,
    sigs: Seq<(u32, crate::signatures::Signature)>,
    verify: bool,
)
    requires
        counter < u32::MAX,
        spec_maintenance_well_formed(address, updates, counter, sigs, contract_at(s, address), verify) is Ok,
        spec_apply_maintenance(s, address, updates, counter) is Ok,
    ensures
        spec_apply_maintenance(spec_apply_maintenance(s, address, updates, counter)->Ok_0, address, updates, counter)
            == Err::<LedgerModel, UpdateFailure>(UpdateFailure::ReplayCounterMismatch(address)),
{
    let c = s.contract[address];
    let auth = c.maintenance_authority;
    let c1 = ContractModel { maintenance_authority: (auth.0, auth.1, next_counter(auth.2)), ..c };
    assert forall|i: int| 0 <= i < updates.len() implies !#[trigger] bad_replacement(updates[i], next_counter(counter)) by {}
    lemma_apply_updates_counter(c1, updates, next_counter(counter));
}

} // verus!
