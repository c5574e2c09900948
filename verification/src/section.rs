//! Applying a transaction to the ledger: each section's contract actions in
//! turn and its imbalances, a standard transaction's guaranteed and fallible
//! sections, and the claim of a minted coin. What the coin layer and the
//! virtual machine compute is handed in as their outcomes.
use vstd::prelude::*;
use crate::coin::{Info, PublicKey, TokenType};
use crate::context::{same_effects, BlockContext, Effects, QueryContext, TranscriptRejected};
use crate::contract::Address;
use crate::contract_state::{ContractModel, ContractState};
use crate::keymap::KeyMap;
use crate::ledger::{
    get_or_zero, native_token, saturating_sum, spec_native_token, ErasedTransactionResult, LedgerModel, LedgerState,
    ZswapModel, ZswapState,
};
use crate::maintenance::MaintenanceUpdate;
use crate::semantics::{
    credit_imbalances, reports, spec_apply_maintenance, TransactionInvalid, UpdateFailure,
};

verus! {

/// What a transaction is applied under: the block its transcripts run in, and
/// the contracts whose actions take effect (every contract when `None`).
pub struct TransactionContext {
    pub block_context: BlockContext,
    pub whitelist: Option<KeyMap<Address, ()>>,
}

/// The whitelist as a map, `None` when every contract may act.
pub open spec fn whitelist_model(w: Option<KeyMap<Address, ()>>) -> Option<Map<Address, ()>> {
    match w {
        Some(m) => Some(m@),
        None => None,
    }
}

/// The whitelist, where there is one, is a well-formed map.
pub open spec fn context_wf(ctx: TransactionContext) -> bool {
    ctx.whitelist matches Some(m) ==> m.wf()
}

/// Whether the contract at `addr` may act: there is no whitelist, or it holds `addr`.
pub open spec fn spec_whitelist_matches(wl: Option<Map<Address, ()>>, addr: Address) -> bool {
    match wl {
        Some(m) => m.contains_key(addr),
        None => true,
    }
}

/// Whether the contract at `addr` may act under `whitelist`.
pub fn whitelist_matches(whitelist: &Option<KeyMap<Address, ()>>, addr: &Address) -> (b: bool)
    requires
        whitelist matches Some(m) ==> m.wf(),
    ensures
        b == spec_whitelist_matches(whitelist_model(*whitelist), *addr),
{
    match whitelist {
        Some(wl) => wl.contains_key(addr),
        None => true,
    }
}

/// One contract action of a section, with what running it outside gave.
pub enum SectionAction {
    /// A call to the contract at `address`; `run` is, for this section's
    /// transcript, the context it ended in and the effects it declared, or why
    /// it was rejected; `None` when the call has no transcript for this section.
    Call { address: Address, run: Option<Result<(QueryContext, Effects), TranscriptRejected>> },
    /// A deployment of `initial_state` at `address`, the address it hashes to.
    Deploy { address: Address, initial_state: ContractState },
    /// A maintenance update.
    Maintain(MaintenanceUpdate),
}

/// What a section of a transaction brings: the coin layer's outcome (the coin
/// state after the section's offer, `None` without an offer, or its error
/// message), the contract actions, and the section's imbalances by token.
pub struct SectionInputs {
    pub zswap: Result<Option<ZswapState>, String>,
    pub actions: Vec<SectionAction>,
    pub imbalances: Vec<(TokenType, i128)>,
}

/// How a transaction went.
#[derive(Debug)]
pub enum TransactionResult {
    Success,
    PartialSuccess(TransactionInvalid),
    Failure(TransactionInvalid),
}

impl From<TransactionResult> for ErasedTransactionResult {
    fn from(r: TransactionResult) -> (e: ErasedTransactionResult) {
        match r {
            TransactionResult::Success => ErasedTransactionResult::Success,
            TransactionResult::PartialSuccess(_) => ErasedTransactionResult::PartialSuccess,
            TransactionResult::Failure(_) => ErasedTransactionResult::Failure,
        }
    }
}

impl vstd::std_specs::convert::FromSpecImpl<TransactionResult> for ErasedTransactionResult {
    open spec fn obeys_from_spec() -> bool {
        true
    }

    open spec fn from_spec(r: TransactionResult) -> ErasedTransactionResult {
        match r {
            TransactionResult::Success => ErasedTransactionResult::Success,
            TransactionResult::PartialSuccess(_) => ErasedTransactionResult::PartialSuccess,
            TransactionResult::Failure(_) => ErasedTransactionResult::Failure,
        }
    }
}

/// A transaction with the outcomes of its outside parts.
pub enum AppliedTransaction {
    /// A standard transaction: its guaranteed and fallible sections.
    Standard { guaranteed: SectionInputs, fallible: SectionInputs },
    /// The claim of `coin` minted for `recipient`, with the coin layer's outcome
    /// of adding it (the new coin state, or its error message).
    ClaimMint { recipient: PublicKey, coin: Info, zswap: Result<ZswapState, String> },
}

/// Why applying part of a transaction fails, with entry points and effects as values.
pub enum ActionFailure {
    ContractNotPresent(Address),
    ContractAlreadyDeployed(Address),
    EffectsMismatch(Effects, Effects),
    Transcript(TranscriptRejected),
    Update(UpdateFailure),
    Zswap(Seq<char>),
    InsufficientClaimable { requested: u128, token_type: TokenType, claimable: u128, claimant: PublicKey },
}

/// `e` is the error `f` describes.
pub open spec fn reports_action(e: TransactionInvalid, f: ActionFailure) -> bool {
    match f {
        ActionFailure::ContractNotPresent(a) => e == TransactionInvalid::ContractNotPresent(a),
        ActionFailure::ContractAlreadyDeployed(a) => e == TransactionInvalid::ContractAlreadyDeployed(a),
        ActionFailure::EffectsMismatch(d, a) => e matches TransactionInvalid::EffectsMismatch { declared: x, actual: y }
            && same_effects(*x, d) && same_effects(*y, a),
        ActionFailure::Transcript(t) => e == TransactionInvalid::Transcript(t),
        ActionFailure::Update(u) => reports(e, u),
        ActionFailure::Zswap(m) => e matches TransactionInvalid::Zswap(s) && s@ == m,
        ActionFailure::InsufficientClaimable { requested, token_type, claimable, claimant } => e
            == TransactionInvalid::InsufficientClaimable { requested, token_type, claimable, claimant },
    }
}

/// The ledger after one action of a section. Actions of contracts outside the
/// whitelist are skipped. A call needs its contract; a rejected run fails it;
/// with a run, the declared effects must be the ones the run ended with, and the
/// contract's state becomes the run's. Deployments and maintenance updates take
/// effect in the fallible section only.
pub open spec fn spec_apply_action(
    s: LedgerModel,
    a: SectionAction,
    guaranteed: bool,
    wl: Option<Map<Address, ()>>,
) -> Result<LedgerModel, ActionFailure> {
    match a {
        SectionAction::Call { address, run } => if !spec_whitelist_matches(wl, address) {
            Ok(s)
        } else if !s.contract.contains_key(address) {
            Err(ActionFailure::ContractNotPresent(address))
        } else {
            match run {
                None => Ok(s),
                Some(Err(t)) => Err(ActionFailure::Transcript(t)),
                Some(Ok((ctx, declared))) => if !same_effects(ctx.effects, declared) {
                    Err(ActionFailure::EffectsMismatch(declared, ctx.effects))
                } else {
                    Ok(
                        LedgerModel {
                            contract: s.contract.insert(
                                address,
                                ContractModel { data: ctx.state.model(), ..s.contract[address] },
                            ),
                            ..s
                        },
                    )
                },
            }
        },
        SectionAction::Deploy { address, initial_state } => if !spec_whitelist_matches(wl, address) || guaranteed {
            Ok(s)
        } else if s.contract.contains_key(address) {
            Err(ActionFailure::ContractAlreadyDeployed(address))
        } else {
            Ok(LedgerModel { contract: s.contract.insert(address, initial_state@), ..s })
        },
        SectionAction::Maintain(u) => if !spec_whitelist_matches(wl, u.address) || guaranteed {
            Ok(s)
        } else {
            match spec_apply_maintenance(s, u.address, u.updates.deep_view(), u.counter) {
                Ok(m) => Ok(m),
                Err(f) => Err(ActionFailure::Update(f)),
            }
        },
    }
}

/// The ledger after the actions in turn, or the first failure.
pub open spec fn spec_apply_actions(
    s: LedgerModel,
    acts: Seq<SectionAction>,
    guaranteed: bool,
    wl: Option<Map<Address, ()>>,
) -> Result<LedgerModel, ActionFailure>
    decreases acts.len(),
{
    if acts.len() == 0 {
        Ok(s)
    } else {
        match spec_apply_actions(s, acts.drop_last(), guaranteed, wl) {
            Err(f) => Err(f),
            Ok(s2) => spec_apply_action(s2, acts.last(), guaranteed, wl),
        }
    }
}

/// The coin layer's outcome, by models.
pub open spec fn zswap_outcome(z: Result<Option<ZswapState>, String>) -> Result<Option<ZswapModel>, Seq<char>> {
    match z {
        Ok(Some(st)) => Ok(Some(st@)),
        Ok(None) => Ok(None),
        Err(m) => Err(m@),
    }
}

/// The ledger after a section: the coin layer's outcome (its error fails the
/// section), then the actions in turn, then the positive imbalances credited to
/// the treasury.
pub open spec fn spec_apply_section(
    s: LedgerModel,
    zswap: Result<Option<ZswapModel>, Seq<char>>,
    acts: Seq<SectionAction>,
    imbalances: Seq<(TokenType, i128)>,
    guaranteed: bool,
    wl: Option<Map<Address, ()>>,
) -> Result<LedgerModel, ActionFailure> {
    match zswap {
        Err(m) => Err(ActionFailure::Zswap(m)),
        Ok(z) => {
            let s1 = match z {
                Some(zm) => LedgerModel { zswap: zm, ..s },
                None => s,
            };
            match spec_apply_actions(s1, acts, guaranteed, wl) {
                Err(f) => Err(f),
                Ok(s2) => Ok(LedgerModel { treasury: credit_imbalances(s2.treasury, imbalances), ..s2 }),
            }
        },
    }
}

/// The outside outcomes an action needs are well-formed.
pub open spec fn action_ready(a: SectionAction) -> bool {
    a matches SectionAction::Call { run: Some(Ok((ctx, declared))), .. } ==> ctx.effects.wf() && declared.wf()
}

/// The outside outcomes of a section are well-formed.
pub open spec fn section_ready(inputs: SectionInputs) -> bool {
    &&& (inputs.zswap matches Ok(Some(z)) ==> z.wf())
    &&& forall|i: int| 0 <= i < inputs.actions@.len() ==> action_ready(#[trigger] inputs.actions@[i])
}

/// How a transaction went, with failures as values.
pub enum ResultModel {
    Success,
    PartialSuccess(ActionFailure),
    Failure(ActionFailure),
}

/// `r` is the result `m` describes.
pub open spec fn reports_result(r: TransactionResult, m: ResultModel) -> bool {
    match m {
        ResultModel::Success => r is Success,
        ResultModel::PartialSuccess(f) => r matches TransactionResult::PartialSuccess(e) && reports_action(e, f),
        ResultModel::Failure(f) => r matches TransactionResult::Failure(e) && reports_action(e, f),
    }
}

/// A standard transaction: the guaranteed section, then the fallible one. When
/// the guaranteed section fails the ledger is unchanged; when the fallible one
/// fails the ledger is the one after the guaranteed section.
pub open spec fn spec_apply_standard(
    s: LedgerModel,
    g: SectionInputs,
    f: SectionInputs,
    wl: Option<Map<Address, ()>>,
) -> (LedgerModel, ResultModel) {
    match spec_apply_section(s, zswap_outcome(g.zswap), g.actions@, g.imbalances@, true, wl) {
        Err(e) => (s, ResultModel::Failure(e)),
        Ok(s1) => match spec_apply_section(s1, zswap_outcome(f.zswap), f.actions@, f.imbalances@, false, wl) {
            Err(e) => (s1, ResultModel::PartialSuccess(e)),
            Ok(s2) => (s2, ResultModel::Success),
        },
    }
}

/// What `recipient` may still claim of `tt`.
pub open spec fn claimable(s: LedgerModel, recipient: PublicKey, tt: TokenType) -> u128 {
    if s.unclaimed_mints.contains_key(recipient) {
        get_or_zero(s.unclaimed_mints[recipient], tt)
    } else {
        0
    }
}

/// The claims after `recipient` claims `value` of `tt`: an exhausted token
/// leaves the recipient's claims, and a recipient left with none leaves the map.
pub open spec fn claims_after(
    m: Map<PublicKey, Map<TokenType, u128>>,
    recipient: PublicKey,
    tt: TokenType,
    remaining: u128,
) -> Map<PublicKey, Map<TokenType, u128>> {
    let inner = if m.contains_key(recipient) {
        m[recipient]
    } else {
        Map::empty()
    };
    let inner2 = if remaining == 0 {
        inner.remove(tt)
    } else {
        inner.insert(tt, remaining)
    };
    if inner2.dom().len() == 0 {
        m.remove(recipient)
    } else {
        m.insert(recipient, inner2)
    }
}

/// Claiming a minted coin: refused when it is worth more than the recipient may
/// claim of its token, or when the coin layer refuses it; otherwise the claim
/// shrinks by the coin's value, the coin state is the coin layer's, and the
/// treasury gains the mint cost in native tokens (saturating).
pub open spec fn spec_claim_mint(
    s: LedgerModel,
    recipient: PublicKey,
    coin: Info,
    zswap: Result<ZswapModel, Seq<char>>,
) -> (LedgerModel, ResultModel) {
    let c = claimable(s, recipient, coin.type_);
    if coin.value > c {
        (
            s,
            ResultModel::Failure(
                ActionFailure::InsufficientClaimable {
                    requested: coin.value,
                    token_type: coin.type_,
                    claimable: c,
                    claimant: recipient,
                },
            ),
        )
    } else {
        match zswap {
            Err(m) => (s, ResultModel::Failure(ActionFailure::Zswap(m))),
            Ok(z) => (
                LedgerModel {
                    zswap: z,
                    unclaimed_mints: claims_after(s.unclaimed_mints, recipient, coin.type_, (c - coin.value) as u128),
                    treasury: s.treasury.insert(
                        spec_native_token(),
                        saturating_sum(
                            get_or_zero(s.treasury, spec_native_token()),
                            s.parameters.cost_model.mint_cost as u128,
                        ),
                    ),
                    ..s
                },
                ResultModel::Success,
            ),
        }
    }
}

/// The ledger and result after a transaction.
pub open spec fn spec_apply(s: LedgerModel, tx: AppliedTransaction, wl: Option<Map<Address, ()>>) -> (
    LedgerModel,
    ResultModel,
) {
    match tx {
        AppliedTransaction::Standard { guaranteed, fallible } => spec_apply_standard(s, guaranteed, fallible, wl),
        AppliedTransaction::ClaimMint { recipient, coin, zswap } => spec_claim_mint(
            s,
            recipient,
            coin,
            match zswap {
                Ok(z) => Ok(z@),
                Err(m) => Err(m@),
            },
        ),
    }
}

/// The outside outcomes of a transaction are well-formed.
pub open spec fn transaction_ready(tx: AppliedTransaction) -> bool {
    match tx {
        AppliedTransaction::Standard { guaranteed, fallible } => section_ready(guaranteed) && section_ready(fallible),
        AppliedTransaction::ClaimMint { zswap, .. } => zswap matches Ok(z) ==> z.wf(),
    }
}


/// How a batch applied until its first failure went: the ledger and results of
/// the transactions before it, and, at a failure, its reason and position.
pub enum BatchModel {
    Done(LedgerModel, Seq<ResultModel>),
    Stopped(LedgerModel, Seq<ResultModel>, ActionFailure, nat),
}

/// The transactions applied in turn, each to the ledger the one before left,
/// until one fails outright.
pub open spec fn spec_batch_until(s: LedgerModel, txs: Seq<AppliedTransaction>, wl: Option<Map<Address, ()>>) -> BatchModel
    decreases txs.len(),
{
    if txs.len() == 0 {
        BatchModel::Done(s, Seq::empty())
    } else {
        match spec_batch_until(s, txs.drop_last(), wl) {
            BatchModel::Stopped(s1, rs, f, i) => BatchModel::Stopped(s1, rs, f, i),
            BatchModel::Done(s1, rs) => {
                let (s2, r) = spec_apply(s1, txs.last(), wl);
                match r {
                    ResultModel::Failure(f) => BatchModel::Stopped(s1, rs, f, (txs.len() - 1) as nat),
                    _ => BatchModel::Done(s2, rs.push(r)),
                }
            },
        }
    }
}

/// Each result reports the outcome at the same position.
pub open spec fn reports_results(rs: Seq<TransactionResult>, ms: Seq<ResultModel>) -> bool {
    &&& rs.len() == ms.len()
    &&& forall|j: int| 0 <= j < rs.len() ==> reports_result(#[trigger] rs[j], ms[j])
}

/// The outside outcomes of every transaction are well-formed.
pub open spec fn batch_ready(txs: Seq<AppliedTransaction>) -> bool {
    forall|j: int| 0 <= j < txs.len() ==> transaction_ready(#[trigger] txs[j])
}

/// Once the actions of a prefix fail, all of them fail the same way.
proof fn lemma_actions_err_prefix(
    s: LedgerModel,
    acts: Seq<SectionAction>,
    j: int,
    g: bool,
    wl: Option<Map<Address, ()>>,
)
    requires
        0 <= j <= acts.len(),
        spec_apply_actions(s, acts.take(j), g, wl) is Err,
    ensures
        spec_apply_actions(s, acts, g, wl) == spec_apply_actions(s, acts.take(j), g, wl),
    decreases acts.len(),
{
    if j == acts.len() {
        assert(acts.take(j) =~= acts);
    } else {
        assert(acts.drop_last().take(j) =~= acts.take(j));
        lemma_actions_err_prefix(s, acts.drop_last(), j, g, wl);
    }
}

/// Once a prefix of a batch stops, the whole batch stops the same way.
proof fn lemma_batch_stopped_prefix(s: LedgerModel, txs: Seq<AppliedTransaction>, j: int, wl: Option<Map<Address, ()>>)
    requires
        0 <= j <= txs.len(),
        spec_batch_until(s, txs.take(j), wl) is Stopped,
    ensures
        spec_batch_until(s, txs, wl) == spec_batch_until(s, txs.take(j), wl),
    decreases txs.len(),
{
    if j == txs.len() {
        assert(txs.take(j) =~= txs);
    } else {
        assert(txs.drop_last().take(j) =~= txs.take(j));
        lemma_batch_stopped_prefix(s, txs.drop_last(), j, wl);
    }
}

impl LedgerState {
    /// Applies one contract action of a section.
    pub fn apply_action(&self, a: SectionAction, guaranteed: bool, ctx: &TransactionContext) -> (r: Result<
        LedgerState,
        TransactionInvalid,
    >)
        requires
            self.wf(),
            context_wf(*ctx),
            action_ready(a),
        ensures
            match spec_apply_action(self@, a, guaranteed, whitelist_model(ctx.whitelist)) {
                Ok(m) => r matches Ok(s) && s.wf() && s@ == m,
                Err(f) => r matches Err(e) && reports_action(e, f),
            },
    {
        match a {
            SectionAction::Call { address, run } => {
                if !whitelist_matches(&ctx.whitelist, &address) {
                    return Ok(self.duplicate());
                }
                if !self.contract.contains_key(&address) {
                    return Err(TransactionInvalid::ContractNotPresent(address));
                }
                match run {
                    None => Ok(self.duplicate()),
                    Some(Err(t)) => Err(TransactionInvalid::Transcript(t)),
                    Some(Ok((qc, declared))) => self.apply_call_result(address, qc, &declared),
                }
            },
            SectionAction::Deploy { address, initial_state } => {
                if !whitelist_matches(&ctx.whitelist, &address) || guaranteed {
                    Ok(self.duplicate())
                } else {
                    self.deploy_contract(address, &initial_state)
                }
            },
            SectionAction::Maintain(u) => {
                if !whitelist_matches(&ctx.whitelist, &u.address) || guaranteed {
                    Ok(self.duplicate())
                } else {
                    self.apply_maintenance_update(&u)
                }
            },
        }
    }

    /// Applies a section: the coin layer's outcome, then each contract action in
    /// turn, then the positive imbalances to the treasury.
    pub fn apply_section(&self, inputs: SectionInputs, guaranteed: bool, ctx: &TransactionContext) -> (r: Result<
        LedgerState,
        TransactionInvalid,
    >)
        requires
            self.wf(),
            context_wf(*ctx),
            section_ready(inputs),
        ensures
            match spec_apply_section(
                self@,
                zswap_outcome(inputs.zswap),
                inputs.actions@,
                inputs.imbalances@,
                guaranteed,
                whitelist_model(ctx.whitelist),
            ) {
                Ok(m) => r matches Ok(s) && s.wf() && s@ == m,
                Err(f) => r matches Err(e) && reports_action(e, f),
            },
    {
        let ghost target = spec_apply_section(
            self@,
            zswap_outcome(inputs.zswap),
            inputs.actions@,
            inputs.imbalances@,
            guaranteed,
            whitelist_model(ctx.whitelist),
        );
        let ghost wl = whitelist_model(ctx.whitelist);
        let SectionInputs { zswap, actions, imbalances } = inputs;
        let ghost acts = actions@;
        let ghost imb = imbalances@;
        let mut state = match zswap {
            Err(m) => {
                return Err(TransactionInvalid::Zswap(m));
            },
            Ok(None) => self.duplicate(),
            Ok(Some(z)) => {
                let mut st = self.duplicate();
                st.zswap = z;
                st
            },
        };
        let ghost s1 = state@;
        assert(target == match spec_apply_actions(s1, acts, guaranteed, wl) {
            Err(f) => Err(f),
            Ok(s2) => Ok(LedgerModel { treasury: credit_imbalances(s2.treasury, imb), ..s2 }),
        });
        let mut actions = actions;
        let n0 = actions.len();
        assert(acts.len() == n0);
        let mut i: usize = 0;
        assert(acts.take(0) =~= Seq::<SectionAction>::empty());
        assert(acts.skip(0) =~= acts);
        while actions.len() > 0
            invariant
                state.wf(),
                context_wf(*ctx),
                wl == whitelist_model(ctx.whitelist),
                i <= acts.len(),
                acts.len() <= usize::MAX,
                imb == imbalances@,
                target == spec_apply_section(
                    self@,
                    zswap_outcome(inputs.zswap),
                    inputs.actions@,
                    inputs.imbalances@,
                    guaranteed,
                    whitelist_model(ctx.whitelist),
                ),
                target == match spec_apply_actions(s1, acts, guaranteed, wl) {
                    Err(f) => Err(f),
                    Ok(s2) => Ok(LedgerModel { treasury: credit_imbalances(s2.treasury, imb), ..s2 }),
                },
                actions@ == acts.skip(i as int),
                spec_apply_actions(s1, acts.take(i as int), guaranteed, wl) == Ok::<LedgerModel, ActionFailure>(state@),
                forall|j: int| 0 <= j < acts.len() ==> action_ready(#[trigger] acts[j]),
            decreases actions@.len(),
        {
            let a = actions.remove(0);
            proof {
                assert(a == acts[i as int]);
                assert(acts.take(i + 1).drop_last() =~= acts.take(i as int));
                assert(acts.take(i + 1).last() == acts[i as int]);
                assert(actions@ =~= acts.skip(i + 1));
            }
            let ghost before = state@;
            assert(spec_apply_actions(s1, acts.take(i + 1), guaranteed, wl) == spec_apply_action(before, acts[i as int], guaranteed, wl));
            match state.apply_action(a, guaranteed, ctx) {
                Ok(s2) => {
                    state = s2;
                },
                Err(e) => {
                    proof {
                        lemma_actions_err_prefix(s1, acts, i + 1, guaranteed, wl);
                    }
                    return Err(e);
                },
            }
            i = i + 1;
        }
        assert(acts.take(acts.len() as int) =~= acts);
        state.credit_imbalances(&imbalances);
        Ok(state)
    }

    /// Applies each transaction to this same ledger, independently of the
    /// others, and gives their results.
    pub fn batch_apply_independant(&self, txs: Vec<AppliedTransaction>, ctx: &TransactionContext) -> (r: Vec<
        TransactionResult,
    >)
        requires
            self.wf(),
            context_wf(*ctx),
            batch_ready(txs@),
        ensures
            r@.len() == txs@.len(),
            forall|j: int|
                0 <= j < txs@.len() ==> reports_result(
                    #[trigger] r@[j],
                    spec_apply(self@, txs@[j], whitelist_model(ctx.whitelist)).1,
                ),
    {
        let ghost all = txs@;
        let mut txs = txs;
        let mut res: Vec<TransactionResult> = Vec::new();
        while txs.len() > 0
            invariant
                self.wf(),
                context_wf(*ctx),
                batch_ready(all),
                res@.len() + txs@.len() == all.len(),
                txs@ == all.skip(res@.len() as int),
                forall|j: int|
                    0 <= j < res@.len() ==> reports_result(
                        #[trigger] res@[j],
                        spec_apply(self@, all[j], whitelist_model(ctx.whitelist)).1,
                    ),
            decreases txs@.len(),
        {
            let ghost k = res@.len() as int;
            let tx = txs.remove(0);
            proof {
                assert(tx == all[k]);
                assert(txs@ =~= all.skip(k + 1));
            }
            let (_, result) = self.apply(tx, ctx);
            res.push(result);
        }
        res
    }

    /// Applies the transactions in turn, each to the ledger the one before
    /// left; refused with the first failure.
    pub fn batch_apply_all_or_nothing(&self, txs: Vec<AppliedTransaction>, ctx: &TransactionContext) -> (r: Result<
        (LedgerState, Vec<TransactionResult>),
        TransactionInvalid,
    >)
        requires
            self.wf(),
            context_wf(*ctx),
            batch_ready(txs@),
        ensures
            match spec_batch_until(self@, txs@, whitelist_model(ctx.whitelist)) {
                BatchModel::Done(m, ms) => r matches Ok((st, rs)) && st.wf() && st@ == m && reports_results(rs@, ms),
                BatchModel::Stopped(_, _, f, _) => r matches Err(e) && reports_action(e, f),
            },
    {
        match self.batch_apply_until_first_failure(txs, ctx) {
            Ok(done) => Ok(done),
            Err((_, _, e, _)) => Err(e),
        }
    }

    /// Applies the transactions in turn, each to the ledger the one before
    /// left, until one fails outright. At such a failure it gives the ledger
    /// before it, the results so far, the failure, and the failing
    /// transaction's position, from which on nothing was applied.
    pub fn batch_apply_until_first_failure(&self, txs: Vec<AppliedTransaction>, ctx: &TransactionContext) -> (r: Result<
        (LedgerState, Vec<TransactionResult>),
        (LedgerState, Vec<TransactionResult>, TransactionInvalid, usize),
    >)
        requires
            self.wf(),
            context_wf(*ctx),
            batch_ready(txs@),
        ensures
            match spec_batch_until(self@, txs@, whitelist_model(ctx.whitelist)) {
                BatchModel::Done(m, ms) => r matches Ok((st, rs)) && st.wf() && st@ == m && reports_results(rs@, ms),
                BatchModel::Stopped(m, ms, f, i) => r matches Err((st, rs, e, k)) && st.wf() && st@ == m
                    && reports_results(rs@, ms) && reports_action(e, f) && k == i,
            },
    {
        let ghost all = txs@;
        let ghost wl = whitelist_model(ctx.whitelist);
        let mut rest = txs;
        let mut state = self.duplicate();
        let mut res: Vec<TransactionResult> = Vec::new();
        let mut i: usize = 0;
        let n = rest.len();
        assert(all.len() == n);
        assert(all.take(0) =~= Seq::<AppliedTransaction>::empty());
        assert(all.skip(0) =~= all);
        while rest.len() > 0
            invariant
                state.wf(),
                context_wf(*ctx),
                wl == whitelist_model(ctx.whitelist),
                batch_ready(all),
                i <= all.len(),
                all.len() <= usize::MAX,
                all == txs@,
                rest@ == all.skip(i as int),
                spec_batch_until(self@, all.take(i as int), wl) matches BatchModel::Done(m, ms) && m == state@
                    && reports_results(res@, ms),
            decreases rest@.len(),
        {
            let tx = rest.remove(0);
            proof {
                assert(tx == all[i as int]);
                assert(rest@ =~= all.skip(i + 1));
                assert(all.take(i + 1).drop_last() =~= all.take(i as int));
                assert(all.take(i + 1).last() == all[i as int]);
            }
            let ghost before = state@;
            let ghost prev = res@;
            let (state2, result) = state.apply(tx, ctx);
            match result {
                TransactionResult::Failure(e) => {
                    proof {
                        let mr = spec_apply(before, all[i as int], wl).1;
                        assert(mr is Failure);
                        assert(all.take(i + 1).len() == i + 1);
                        let ms = spec_batch_until(self@, all.take(i as int), wl)->Done_1;
                        assert(spec_batch_until(self@, all.take(i + 1), wl) == BatchModel::Stopped(
                            before,
                            ms,
                            mr->Failure_0,
                            i as nat,
                        ));
                        lemma_batch_stopped_prefix(self@, all, i + 1, wl);
                    }
                    return Err((state, res, e, i));
                },
                _ => {
                    res.push(result);
                    proof {
                        let ms = spec_batch_until(self@, all.take(i as int), wl)->Done_1;
                        let mr = spec_apply(before, all[i as int], wl).1;
                        assert(res@ =~= prev.push(result));
                        assert forall|j: int| 0 <= j < res@.len() implies reports_result(
                            #[trigger] res@[j],
                            ms.push(mr)[j],
                        ) by {
                            if j < prev.len() {
                                assert(res@[j] == prev[j]);
                            }
                        }
                    }
                    state = state2;
                },
            }
            i = i + 1;
        }
        assert(all.take(i as int) =~= all);
        Ok((state, res))
    }

    /// Claims `coin`, minted for `recipient`, given the coin layer's outcome of adding it.
    fn claim_mint(&self, recipient: PublicKey, coin: Info, zswap: Result<ZswapState, String>) -> (r: (
        LedgerState,
        TransactionResult,
    ))
        requires
            self.wf(),
            zswap matches Ok(z) ==> z.wf(),
        ensures
            ({
                let (m, res) = spec_claim_mint(
                    self@,
                    recipient,
                    coin,
                    match zswap {
                        Ok(z) => Ok(z@),
                        Err(msg) => Err(msg@),
                    },
                );
                r.0.wf() && r.0@ == m && reports_result(r.1, res)
            }),
    {
        let c: u128 = match self.unclaimed_mints.get_ref(&recipient) {
            Some(inner) => match inner.get(&coin.type_) {
                Some(v) => v,
                None => 0,
            },
            None => 0,
        };
        if coin.value > c {
            return (
                self.duplicate(),
                TransactionResult::Failure(
                    TransactionInvalid::InsufficientClaimable {
                        requested: coin.value,
                        token_type: coin.type_,
                        claimable: c,
                        claimant: recipient,
                    },
                ),
            );
        }
        let z = match zswap {
            Err(msg) => {
                return (self.duplicate(), TransactionResult::Failure(TransactionInvalid::Zswap(msg)));
            },
            Ok(z) => z,
        };
        let mut s = self.duplicate();
        let ghost before = s.unclaimed_mints.nested_view();
        let remaining = c - coin.value;
        let mut inner = match s.unclaimed_mints.take(&recipient) {
            Some(m) => m,
            None => KeyMap::new(),
        };
        let ghost mid = s.unclaimed_mints;
        if remaining == 0 {
            inner.remove(&coin.type_);
        } else {
            inner.insert(coin.type_, remaining);
        }
        let ghost inner2 = inner@;
        if inner.size() != 0 {
            s.unclaimed_mints.insert(recipient, inner);
        }
        proof {
            assert forall|k: PublicKey| #[trigger] s.unclaimed_mints@.contains_key(k) implies s.unclaimed_mints@[k].wf() by {
                if k != recipient {
                    assert(mid@.contains_key(k));
                }
            }
            assert(s.unclaimed_mints.nested_view() =~= claims_after(before, recipient, coin.type_, remaining));
        }
        s.zswap = z;
        let native = native_token();
        let held: u128 = match s.treasury.get(&native) {
            Some(v) => v,
            None => 0,
        };
        s.treasury.insert(native, held.saturating_add(s.parameters.cost_model.mint_cost as u128));
        (s, TransactionResult::Success)
    }

    /// Applies a transaction. A standard transaction applies its guaranteed
    /// section, then its fallible one: a failure of the first is a failure and
    /// leaves the ledger unchanged; a failure of the second is a partial success
    /// and leaves the ledger as after the first. A mint claim is a success or a
    /// failure that leaves the ledger unchanged.
    pub fn apply(&self, tx: AppliedTransaction, ctx: &TransactionContext) -> (r: (LedgerState, TransactionResult))
        requires
            self.wf(),
            context_wf(*ctx),
            transaction_ready(tx),
        ensures
            r.0.wf(),
            r.0@ == spec_apply(self@, tx, whitelist_model(ctx.whitelist)).0,
            reports_result(r.1, spec_apply(self@, tx, whitelist_model(ctx.whitelist)).1),
    {
        match tx {
            AppliedTransaction::Standard { guaranteed, fallible } => {
                match self.apply_section(guaranteed, true, ctx) {
                    Err(e) => (self.duplicate(), TransactionResult::Failure(e)),
                    Ok(s1) => match s1.apply_section(fallible, false, ctx) {
                        Err(e) => (s1, TransactionResult::PartialSuccess(e)),
                        Ok(s2) => (s2, TransactionResult::Success),
                    },
                }
            },
            AppliedTransaction::ClaimMint { recipient, coin, zswap } => self.claim_mint(recipient, coin, zswap),
        }
    }
}


/// A failed transaction leaves the ledger unchanged; a partly successful one
/// leaves it as its guaranteed section left it.
pub proof fn law_failure_leaves_ledger(s: LedgerModel, tx: AppliedTransaction, wl: Option<Map<Address, ()>>)
    ensures
        spec_apply(s, tx, wl).1 is Failure ==> spec_apply(s, tx, wl).0 == s,
        spec_apply(s, tx, wl).1 is PartialSuccess ==> (tx matches AppliedTransaction::Standard { guaranteed, .. }
            && spec_apply_section(
            s,
            zswap_outcome(guaranteed.zswap),
            guaranteed.actions@,
            guaranteed.imbalances@,
            true,
            wl,
        ) == Ok::<LedgerModel, ActionFailure>(spec_apply(s, tx, wl).0)),
{
}


/// The contract an action is about.
pub open spec fn action_address(a: SectionAction) -> Address {
    match a {
        SectionAction::Call { address, .. } => address,
        SectionAction::Deploy { address, .. } => address,
        SectionAction::Maintain(u) => u.address,
    }
}

/// An action of a contract outside the whitelist leaves the ledger as it was.
pub proof fn law_unlisted_action_skipped(s: LedgerModel, a: SectionAction, guaranteed: bool, wl: Option<Map<Address, ()>>)
    requires
        !spec_whitelist_matches(wl, action_address(a)),
    ensures
        spec_apply_action(s, a, guaranteed, wl) == Ok::<LedgerModel, ActionFailure>(s),
{
}

/// The effects of two runs agree in all five parts: claimed nullifiers,
/// received coins, spent coins, claimed calls and mints.
pub open spec fn effects_agree(a: Effects, b: Effects) -> bool {
    &&& a.claimed_nullifiers@ == b.claimed_nullifiers@
    &&& a.claimed_receives@ == b.claimed_receives@
    &&& a.claimed_spends@ == b.claimed_spends@
    &&& a.claimed_contract_calls@ == b.claimed_contract_calls@
    &&& a.mints@ == b.mints@
}

/// A call of a listed, deployed contract whose run completed is accepted
/// exactly when the effects it ended with agree with those its transcript
/// declared in every part, mints included; then the contract takes the
/// run's state and nothing else changes.
pub proof fn law_call_result_needs_declared_effects(
    s: LedgerModel,
    address: Address,
    ctx: QueryContext,
    declared: Effects,
    guaranteed: bool,
    wl: Option<Map<Address, ()>>,
)
    requires
        spec_whitelist_matches(wl, address),
        s.contract.contains_key(address),
    ensures
        (spec_apply_action(
            s,
            SectionAction::Call { address, run: Some(Ok((ctx, declared))) },
            guaranteed,
            wl,
        ) is Ok) <==> effects_agree(ctx.effects, declared),
        effects_agree(ctx.effects, declared) ==> spec_apply_action(
            s,
            SectionAction::Call { address, run: Some(Ok((ctx, declared))) },
            guaranteed,
            wl,
        ) == Ok::<LedgerModel, ActionFailure>(
            LedgerModel {
                contract: s.contract.insert(address, ContractModel { data: ctx.state.model(), ..s.contract[address] }),
                ..s
            },
        ),
{
}

} // verus!
