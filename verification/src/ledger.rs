//! Ledger parameters, system transactions and the part of the ledger state they change.
use vstd::prelude::*;
use crate::codec::{
    item_bytes, item_decodable, item_deserialize, lemma_item_roundtrip, lemma_item_size, Deserializable,
    RoundTrip, Serializable,
};
use crate::coin::{spec_commitment, Commitment, Info, Nonce, PublicKey, TokenType};
use crate::context::QueryContext;
use crate::contract::Address;
use crate::contract_state::{default_contract_model, ContractModel, ContractState};
use crate::hash::{blank_hash, hash_of_bytes, lemma_hash_of_bytes, HashOutput};
use crate::keymap::{Duplicate, KeyMap};
use crate::transfer::Recipient;
use crate::versioned::{CodecError, Version, Versioned, RECURSION_LIMIT};

verus! {

/// The most native-token atomic units that can ever be minted: 24 billion
/// tokens of a million atomic units each.
pub const MAX_SUPPLY: u128 = 24_000_000_000_000_000;

/// The token type of the native token: 32 zero bytes.
pub open spec fn spec_native_token() -> TokenType {
    TokenType(hash_of_bytes(Seq::new(32, |i: int| 0u8)))
}

/// The token type of the native token.
pub fn native_token() -> (t: TokenType)
    ensures
        t == spec_native_token(),
{
    let h = blank_hash();
    proof {
        lemma_hash_of_bytes(h);
    }
    TokenType(h)
}

/// The gas charged by the on-chain virtual machine for each of its operations.
#[derive(Clone, Copy, Debug, PartialEq, Eq)]
pub struct CostModel {
    pub noop_constant: u64,
    pub noop_linear: u64,
    pub branch: u64,
    pub jmp: u64,
    pub ckpt: u64,
    pub lt: u64,
    pub eq: u64,
    pub type_: u64,
    pub size: u64,
    pub new: u64,
    pub and: u64,
    pub or: u64,
    pub neg: u64,
    pub log: u64,
    pub root: u64,
    pub pop: u64,
    pub popeqc_constant: u64,
    pub popeq_constant: u64,
    pub popeqc_linear: u64,
    pub popeq_linear: u64,
    pub addi: u64,
    pub subi: u64,
    pub pushs_constant: u64,
    pub pushs_linear: u64,
    pub push_constant: u64,
    pub push_linear: u64,
    pub add: u64,
    pub sub: u64,
    pub concatc_constant: u64,
    pub concatc_linear: u64,
    pub concat_constant: u64,
    pub concat_linear: u64,
    pub member_constant: u64,
    pub member_linear: u64,
    pub member_logarithmic: u64,
    pub remc_constant: u64,
    pub remc_linear: u64,
    pub remc_logarithmic: u64,
    pub rem_constant: u64,
    pub rem_linear: u64,
    pub rem_logarithmic: u64,
    pub dup: u64,
    pub swap: u64,
    pub idxpc_constant: u64,
    pub idxc_constant: u64,
    pub idxp_constant: u64,
    pub idx_constant: u64,
    pub idxpc_linear: u64,
    pub idxpc_logarithmic: u64,
    pub idxc_linear: u64,
    pub idxc_logarithmic: u64,
    pub idxp_linear: u64,
    pub idxp_logarithmic: u64,
    pub idx_linear: u64,
    pub idx_logarithmic: u64,
    pub insc_constant: u64,
    pub ins_constant: u64,
    pub insc_linear: u64,
    pub insc_logarithmic: u64,
    pub ins_linear: u64,
    pub ins_logarithmic: u64,
}

/// What a transaction costs: the virtual machine's gas table and the per-transaction charges.
#[derive(Clone, Copy, Debug, PartialEq, Eq)]
pub struct TransactionCostModel {
    pub runtime_cost_model: CostModel,
    pub transaction_cost_per_byte: u64,
    pub verify_cost_constant: u64,
    pub verify_cost_linear: u64,
    pub deploy_cost_per_byte: u64,
    pub mint_cost: u64,
}

/// Bounds on the size of a transaction and the cost of its guaranteed section.
#[derive(Clone, Copy, Debug, PartialEq, Eq)]
pub struct TransactionLimits {
    pub transaction_byte_limit: u64,
    pub guaranteed_cost_limit_per_byte: u64,
}

/// The limits used where no others are given: 1 MiB per transaction and 25 per byte.
pub fn dummy_limits() -> (l: TransactionLimits)
    ensures
        l.transaction_byte_limit == 1048576,
        l.guaranteed_cost_limit_per_byte == 25,
{
    TransactionLimits { transaction_byte_limit: 1048576, guaranteed_cost_limit_per_byte: 25 }
}

/// The parameters of the ledger that privileged transactions can replace.
#[derive(Clone, Copy, Debug, PartialEq, Eq)]
pub struct LedgerParameters {
    pub cost_model: TransactionCostModel,
    pub limits: TransactionLimits,
    pub ticket_cost_multiplier: u64,
    pub ticket_cost_divisor: u64,
}

/// An amount paid out to a user's public key.
#[derive(Clone, Copy, Debug, PartialEq, Eq)]
pub struct OutputInstruction {
    pub amount: u128,
    pub target_key: PublicKey,
}

/// A privileged transaction.
#[derive(Clone, Debug)]
pub enum SystemTransaction {
    OverwriteParameters(LedgerParameters),
    Mint(Vec<OutputInstruction>),
    MintToTreasury { amount: u128 },
    PayFromTreasury { outputs: Vec<OutputInstruction>, nonce: HashOutput, token_type: TokenType },
}

/// Why a privileged transaction was refused.
#[derive(Clone, Copy, Debug, PartialEq, Eq)]
pub enum SystemTransactionError {
    /// More was to be minted than the unminted supply; `None` when the total exceeds 2^128 - 1.
    IllegalMint { amount: Option<u128>, supply: u128 },
    /// More was to be paid out than the treasury holds of the token; `None` as above.
    InsufficientTreasuryFunds { requested: Option<u128>, actual: u128, token_type: TokenType },
    /// A payout would create a coin whose commitment is already in the tree.
    CommitmentAlreadyPresent(Commitment),
}


/// What the ledger's coin tracking holds: the commitment tree's leaves by
/// index, the set of commitments in it, and the first free index.
#[verifier::ext_equal]
pub struct ZswapModel {
    pub coin_coms: Map<u64, Commitment>,
    pub coin_coms_set: Set<Commitment>,
    pub first_free: u64,
}

/// The ledger's coin tracking, as far as privileged transactions touch it.
#[derive(Debug)]
pub struct ZswapState {
    pub coin_coms: KeyMap<u64, Commitment>,
    pub coin_coms_set: KeyMap<Commitment, ()>,
    pub first_free: u64,
}

impl View for ZswapState {
    type V = ZswapModel;

    open spec fn view(&self) -> ZswapModel {
        ZswapModel {
            coin_coms: self.coin_coms@,
            coin_coms_set: self.coin_coms_set@.dom(),
            first_free: self.first_free,
        }
    }
}

/// Every leaf lies below the first free index, and the set holds exactly the leaves.
pub open spec fn zswap_model_wf(z: ZswapModel) -> bool {
    &&& forall|i: u64| #[trigger] z.coin_coms.contains_key(i) ==> i < z.first_free
    &&& forall|c: Commitment|
        #[trigger] z.coin_coms_set.contains(c) <==> exists|i: u64| #[trigger] z.coin_coms.contains_key(i) && z.coin_coms[i] == c
}

impl ZswapState {
    /// The maps hold distinct keys and the model is consistent.
    pub open spec fn wf(&self) -> bool {
        &&& self.coin_coms.wf()
        &&& self.coin_coms_set.wf()
        &&& zswap_model_wf(self@)
    }

    /// No coins yet.
    pub fn new() -> (z: Self)
        ensures
            z.wf(),
            z@.coin_coms == Map::<u64, Commitment>::empty(),
            z@.coin_coms_set == Set::<Commitment>::empty(),
            z@.first_free == 0,
    {
        let z = ZswapState { coin_coms: KeyMap::new(), coin_coms_set: KeyMap::new(), first_free: 0 };
        assert(z@.coin_coms_set =~= Set::<Commitment>::empty());
        z
    }

    /// A copy, map for map.
    pub fn duplicate(&self) -> (z: Self)
        requires
            self.wf(),
        ensures
            z.wf(),
            z@ == self@,
    {
        ZswapState {
            coin_coms: self.coin_coms.duplicate(),
            coin_coms_set: self.coin_coms_set.duplicate(),
            first_free: self.first_free,
        }
    }
}

/// The value of `k` in `m`, or zero.
pub open spec fn get_or_zero(m: Map<TokenType, u128>, k: TokenType) -> u128 {
    if m.contains_key(k) {
        m[k]
    } else {
        0
    }
}

/// `a + b`, or the largest `u128` where that overflows.
pub open spec fn saturating_sum(a: u128, b: u128) -> u128 {
    if a + b > u128::MAX {
        u128::MAX
    } else {
        (a + b) as u128
    }
}

/// The holdings of each public key: `amount` more of `token_type` for `key`.
pub open spec fn credit(
    m: Map<PublicKey, Map<TokenType, u128>>,
    key: PublicKey,
    token_type: TokenType,
    amount: u128,
) -> Map<PublicKey, Map<TokenType, u128>> {
    let inner = if m.contains_key(key) {
        m[key]
    } else {
        Map::empty()
    };
    m.insert(key, inner.insert(token_type, saturating_sum(get_or_zero(inner, token_type), amount)))
}

/// Each output credited in turn with native tokens.
pub open spec fn credit_all(m: Map<PublicKey, Map<TokenType, u128>>, outs: Seq<OutputInstruction>) -> Map<
    PublicKey,
    Map<TokenType, u128>,
>
    decreases outs.len(),
{
    if outs.len() == 0 {
        m
    } else {
        credit(credit_all(m, outs.drop_last()), outs.last().target_key, spec_native_token(), outs.last().amount)
    }
}

/// The sum of the amounts of `outs`, as an integer.
pub open spec fn total_amount(outs: Seq<OutputInstruction>) -> int
    decreases outs.len(),
{
    if outs.len() == 0 {
        0
    } else {
        total_amount(outs.drop_last()) + outs.last().amount
    }
}

/// The total of a prefix is at most the total.
pub proof fn lemma_total_prefix(outs: Seq<OutputInstruction>, j: int)
    requires
        0 <= j <= outs.len(),
    ensures
        0 <= total_amount(outs.take(j)) <= total_amount(outs),
    decreases outs.len(),
{
    if outs.len() > 0 {
        if j == outs.len() {
            assert(outs.take(j) =~= outs);
            lemma_total_prefix(outs.drop_last(), j - 1);
            assert(outs.drop_last().take(j - 1) =~= outs.drop_last());
        } else {
            lemma_total_prefix(outs.drop_last(), j);
            assert(outs.drop_last().take(j) =~= outs.take(j));
        }
    }
}

/// The commitment of the coin a payout of `o` in `token_type` with `nonce` creates.
pub open spec fn payout_commitment(o: OutputInstruction, token_type: TokenType, nonce: HashOutput) -> Commitment {
    spec_commitment(Info { nonce: Nonce(nonce), type_: token_type, value: o.amount }, Recipient::User(o.target_key))
}

/// Adds `cm` at the first free index, unless it is already present.
pub open spec fn issue_coin(z: ZswapModel, cm: Commitment) -> Result<ZswapModel, SystemTransactionError> {
    if z.coin_coms_set.contains(cm) {
        Err(SystemTransactionError::CommitmentAlreadyPresent(cm))
    } else {
        Ok(
            ZswapModel {
                coin_coms: z.coin_coms.insert(z.first_free, cm),
                coin_coms_set: z.coin_coms_set.insert(cm),
                first_free: (z.first_free + 1) as u64,
            },
        )
    }
}

/// The coins of `outs` issued in turn; the first refusal stops it.
pub open spec fn issue_all(
    z: ZswapModel,
    outs: Seq<OutputInstruction>,
    token_type: TokenType,
    nonce: HashOutput,
) -> Result<ZswapModel, SystemTransactionError>
    decreases outs.len(),
{
    if outs.len() == 0 {
        Ok(z)
    } else {
        match issue_all(z, outs.drop_last(), token_type, nonce) {
            Err(e) => Err(e),
            Ok(z1) => issue_coin(z1, payout_commitment(outs.last(), token_type, nonce)),
        }
    }
}


/// What the ledger state holds, as far as privileged transactions touch it.
#[verifier::ext_equal]
pub struct LedgerModel {
    pub parameters: LedgerParameters,
    pub unminted_native_token_supply: u128,
    pub unclaimed_mints: Map<PublicKey, Map<TokenType, u128>>,
    pub treasury: Map<TokenType, u128>,
    pub zswap: ZswapModel,
    pub contract: Map<Address, ContractModel>,
}

/// The ledger state: parameters, the native supply not yet minted, the mints
/// each key may claim, the treasury, the coin tracking and the deployed contracts.
#[derive(Debug)]
pub struct LedgerState {
    pub parameters: LedgerParameters,
    pub unminted_native_token_supply: u128,
    pub unclaimed_mints: KeyMap<PublicKey, KeyMap<TokenType, u128>>,
    pub treasury: KeyMap<TokenType, u128>,
    pub zswap: ZswapState,
    pub contract: KeyMap<Address, ContractState>,
}

impl View for LedgerState {
    type V = LedgerModel;

    open spec fn view(&self) -> LedgerModel {
        LedgerModel {
            parameters: self.parameters,
            unminted_native_token_supply: self.unminted_native_token_supply,
            unclaimed_mints: self.unclaimed_mints.nested_view(),
            treasury: self.treasury@,
            zswap: self.zswap@,
            contract: self.contract.values_view(),
        }
    }
}

/// The ledger model after applying `tx`, or why `tx` is refused.
pub open spec fn spec_apply_system_tx(s: LedgerModel, tx: SystemTransaction) -> Result<
    LedgerModel,
    SystemTransactionError,
> {
    match tx {
        SystemTransaction::OverwriteParameters(p) => Ok(LedgerModel { parameters: p, ..s }),
        SystemTransaction::Mint(outputs) => {
            let total = total_amount(outputs@);
            let supply = s.unminted_native_token_supply;
            if total > u128::MAX {
                Err(SystemTransactionError::IllegalMint { amount: None, supply })
            } else if total > supply {
                Err(SystemTransactionError::IllegalMint { amount: Some(total as u128), supply })
            } else {
                Ok(
                    LedgerModel {
                        unminted_native_token_supply: (supply - total) as u128,
                        unclaimed_mints: credit_all(s.unclaimed_mints, outputs@),
                        ..s
                    },
                )
            }
        },
        SystemTransaction::MintToTreasury { amount } => {
            let supply = s.unminted_native_token_supply;
            if amount > supply {
                Err(SystemTransactionError::IllegalMint { amount: Some(amount), supply })
            } else {
                let native = spec_native_token();
                Ok(
                    LedgerModel {
                        unminted_native_token_supply: (supply - amount) as u128,
                        treasury: s.treasury.insert(
                            native,
                            saturating_sum(get_or_zero(s.treasury, native), amount),
                        ),
                        ..s
                    },
                )
            }
        },
        SystemTransaction::PayFromTreasury { outputs, nonce, token_type } => {
            let actual = get_or_zero(s.treasury, token_type);
            let total = total_amount(outputs@);
            if total > u128::MAX {
                Err(SystemTransactionError::InsufficientTreasuryFunds { requested: None, actual, token_type })
            } else if total > actual {
                Err(
                    SystemTransactionError::InsufficientTreasuryFunds {
                        requested: Some(total as u128),
                        actual,
                        token_type,
                    },
                )
            } else {
                match issue_all(s.zswap, outputs@, token_type, nonce) {
                    Err(e) => Err(e),
                    Ok(z) => Ok(
                        LedgerModel {
                            treasury: s.treasury.insert(token_type, (actual - total) as u128),
                            zswap: z,
                            ..s
                        },
                    ),
                }
            }
        },
    }
}

/// The sum of the amounts of `outs`, unless it overflows.
fn checked_total(outs: &Vec<OutputInstruction>) -> (r: Option<u128>)
    ensures
        match r {
            Some(t) => t == total_amount(outs@),
            None => total_amount(outs@) > u128::MAX,
        },
{
    let mut acc: u128 = 0;
    let mut i: usize = 0;
    while i < outs.len()
        invariant
            i <= outs@.len(),
            acc == total_amount(outs@.take(i as int)),
        decreases outs@.len() - i,
    {
        proof {
            assert(outs@.take(i + 1).drop_last() =~= outs@.take(i as int));
        }
        match acc.checked_add(outs[i].amount) {
            Some(a) => {
                acc = a;
            },
            None => {
                proof {
                    lemma_total_prefix(outs@, i + 1);
                }
                return None;
            },
        }
        i = i + 1;
    }
    assert(outs@.take(outs@.len() as int) =~= outs@);
    Some(acc)
}

/// The value of `k` in `m`, or zero.
fn value_or_zero(m: &KeyMap<TokenType, u128>, k: &TokenType) -> (v: u128)
    requires
        m.wf(),
    ensures
        v == get_or_zero(m@, *k),
{
    match m.get(k) {
        Some(v) => v,
        None => 0,
    }
}

impl LedgerState {
    /// The maps hold distinct keys and the coin tracking is consistent.
    pub open spec fn wf(&self) -> bool {
        &&& self.unclaimed_mints.nested_wf()
        &&& self.treasury.wf()
        &&& self.zswap.wf()
        &&& self.contract.wf()
    }

    /// A fresh ledger with `parameters`: nothing minted, no claims, an empty treasury, no coins.
    pub fn new(parameters: LedgerParameters) -> (s: Self)
        ensures
            s.wf(),
            s@.parameters == parameters,
            s@.unminted_native_token_supply == MAX_SUPPLY,
            s@.unclaimed_mints == Map::<PublicKey, Map<TokenType, u128>>::empty(),
            s@.treasury == Map::<TokenType, u128>::empty(),
            s@.zswap.coin_coms == Map::<u64, Commitment>::empty(),
            s@.zswap.coin_coms_set == Set::<Commitment>::empty(),
            s@.zswap.first_free == 0,
            s@.contract == Map::<Address, ContractModel>::empty(),
    {
        let s = LedgerState {
            parameters,
            unminted_native_token_supply: MAX_SUPPLY,
            unclaimed_mints: KeyMap::new(),
            treasury: KeyMap::new(),
            zswap: ZswapState::new(),
            contract: KeyMap::new(),
        };
        assert(s@.unclaimed_mints =~= Map::<PublicKey, Map<TokenType, u128>>::empty());
        assert(s@.contract =~= Map::<Address, ContractModel>::empty());
        s
    }

    /// A copy, map for map.
    pub fn duplicate(&self) -> (s: Self)
        requires
            self.wf(),
        ensures
            s.wf(),
            s@ == self@,
    {
        LedgerState {
            parameters: self.parameters,
            unminted_native_token_supply: self.unminted_native_token_supply,
            unclaimed_mints: self.unclaimed_mints.duplicate_nested(),
            treasury: self.treasury.duplicate(),
            zswap: self.zswap.duplicate(),
            contract: self.contract.duplicate_values(),
        }
    }
}


impl LedgerState {
    /// The state of the contract at `address`, if one is deployed there.
    pub fn index(&self, address: Address) -> (r: Option<ContractState>)
        requires
            self.wf(),
        ensures
            match r {
                Some(c) => self@.contract.contains_key(address) && c@ == self@.contract[address],
                None => !self@.contract.contains_key(address),
            },
    {
        match self.contract.get_ref(&address) {
            Some(c) => Some(c.duplicate()),
            None => None,
        }
    }

    /// The ledger with the state value of the contract at `address` replaced by
    /// the one `context` holds; a contract not yet present starts from the default.
    pub fn update_index(&self, address: Address, context: QueryContext) -> (s: LedgerState)
        requires
            self.wf(),
        ensures
            s.wf(),
            s@ == (LedgerModel {
                contract: self@.contract.insert(
                    address,
                    ContractModel {
                        data: context.state.model(),
                        ..(if self@.contract.contains_key(address) {
                            self@.contract[address]
                        } else {
                            default_contract_model()
                        })
                    },
                ),
                ..self@
            }),
    {
        let mut contract = match self.contract.get_ref(&address) {
            Some(c) => c.duplicate(),
            None => ContractState::default(),
        };
        contract.data = context.state;
        let mut s = self.duplicate();
        let ghost before = s.contract@;
        s.contract.insert(address, contract);
        proof {
            assert(s.contract@ == before.insert(address, contract));
            assert(s@.contract =~= self@.contract.insert(address, contract@));
        }
        s
    }
}

/// Once issuing a prefix of the outputs fails, issuing all of them fails the same way.
pub proof fn lemma_issue_all_err_prefix(
    z: ZswapModel,
    outs: Seq<OutputInstruction>,
    j: int,
    token_type: TokenType,
    nonce: HashOutput,
)
    requires
        0 <= j <= outs.len(),
        issue_all(z, outs.take(j), token_type, nonce) is Err,
    ensures
        issue_all(z, outs, token_type, nonce) == issue_all(z, outs.take(j), token_type, nonce),
    decreases outs.len(),
{
    if j == outs.len() {
        assert(outs.take(j) =~= outs);
    } else {
        assert(outs.drop_last().take(j) =~= outs.take(j));
        lemma_issue_all_err_prefix(z, outs.drop_last(), j, token_type, nonce);
    }
}

/// Credits `amount` of `token_type` to `key` in a map of holdings.
fn credit_key(
    m: &mut KeyMap<PublicKey, KeyMap<TokenType, u128>>,
    key: PublicKey,
    token_type: TokenType,
    amount: u128,
)
    requires
        old(m).nested_wf(),
    ensures
        final(m).nested_wf(),
        final(m).nested_view() == credit(old(m).nested_view(), key, token_type, amount),
{
    let ghost before = m.nested_view();
    let mut inner = match m.take(&key) {
        Some(v) => v,
        None => KeyMap::new(),
    };
    let ghost mid = *m;
    let ghost old_inner = if before.contains_key(key) {
        before[key]
    } else {
        Map::<TokenType, u128>::empty()
    };
    assert(inner@ == old_inner);
    let curr = value_or_zero(&inner, &token_type);
    inner.insert(token_type, curr.saturating_add(amount));
    let ghost new_inner = inner;
    m.insert(key, inner);
    proof {
        assert forall|k: PublicKey| #[trigger] m@.contains_key(k) implies m@[k].wf() by {
            if k != key {
                assert(mid@.contains_key(k));
            }
        }
        assert(m.nested_view() =~= credit(before, key, token_type, amount));
    }
}

impl ZswapState {
    /// Adds `cm` as a new leaf at the first free index, unless it is already present.
    fn issue(&mut self, cm: Commitment) -> (r: Result<(), SystemTransactionError>)
        requires
            old(self).wf(),
            old(self).first_free < u64::MAX,
        ensures
            final(self).wf(),
            match issue_coin(old(self)@, cm) {
                Ok(z) => r is Ok && final(self)@ == z,
                Err(e) => r == Err::<(), SystemTransactionError>(e) && final(self)@ == old(self)@,
            },
    {
        if self.coin_coms_set.contains_key(&cm) {
            return Err(SystemTransactionError::CommitmentAlreadyPresent(cm));
        }
        let ghost before = self@;
        let index = self.first_free;
        assert(!before.coin_coms.contains_key(index));
        self.coin_coms.insert(index, cm);
        self.coin_coms_set.insert(cm, ());
        self.first_free = index + 1;
        proof {
            let after = self@;
            assert(after.coin_coms_set =~= before.coin_coms_set.insert(cm));
            assert forall|i: u64| #[trigger] after.coin_coms.contains_key(i) implies i < after.first_free by {
                if i != index {
                    assert(before.coin_coms.contains_key(i));
                }
            }
            assert forall|c: Commitment| #[trigger] after.coin_coms_set.contains(c) implies exists|i: u64|
                #[trigger] after.coin_coms.contains_key(i) && after.coin_coms[i] == c by {
                if c == cm {
                    assert(after.coin_coms.contains_key(index) && after.coin_coms[index] == c);
                } else {
                    assert(before.coin_coms_set.contains(c));
                    let i = choose|i: u64| #[trigger] before.coin_coms.contains_key(i) && before.coin_coms[i] == c;
                    assert(after.coin_coms.contains_key(i) && after.coin_coms[i] == c);
                }
            }
            assert forall|c: Commitment| (exists|i: u64|
                #[trigger] after.coin_coms.contains_key(i) && after.coin_coms[i] == c) implies #[trigger] after.coin_coms_set.contains(c) by {
                let i = choose|i: u64| #[trigger] after.coin_coms.contains_key(i) && after.coin_coms[i] == c;
                if i != index {
                    assert(before.coin_coms.contains_key(i) && before.coin_coms[i] == c);
                }
            }
            assert(after =~= issue_coin(before, cm)->Ok_0);
        }
        Ok(())
    }
}


impl LedgerState {
    /// Issues a coin of `value` of `token_type` with `nonce` to `target`, without
    /// taking the value from anywhere.
    fn native_issue_unbalanced(
        &mut self,
        target: PublicKey,
        token_type: TokenType,
        nonce: HashOutput,
        value: u128,
    ) -> (r: Result<(), SystemTransactionError>)
        requires
            old(self).wf(),
            old(self).zswap.first_free < u64::MAX,
        ensures
            final(self).wf(),
            final(self)@.parameters == old(self)@.parameters,
            final(self)@.unminted_native_token_supply == old(self)@.unminted_native_token_supply,
            final(self)@.unclaimed_mints == old(self)@.unclaimed_mints,
            final(self)@.treasury == old(self)@.treasury,
            final(self)@.contract == old(self)@.contract,
            match issue_coin(
                old(self)@.zswap,
                payout_commitment(OutputInstruction { amount: value, target_key: target }, token_type, nonce),
            ) {
                Ok(z) => r is Ok && final(self)@.zswap == z,
                Err(e) => r == Err::<(), SystemTransactionError>(e),
            },
    {
        let info = Info { value, nonce: Nonce(nonce), type_: token_type };
        let cm = info.commitment(&Recipient::User(target));
        self.zswap.issue(cm)
    }

    /// Applies a privileged transaction: replaces the parameters, mints native
    /// tokens to be claimed or into the treasury, or pays out of the treasury as
    /// new coins. Refused when the unminted supply or the treasury falls short, or
    /// when a payout's coin already exists.
    pub fn apply_system_tx(&self, tx: &SystemTransaction) -> (r: Result<LedgerState, SystemTransactionError>)
        requires
            self.wf(),
            tx matches SystemTransaction::PayFromTreasury { outputs, .. } ==> self@.zswap.first_free
                + outputs@.len() <= u64::MAX,
        ensures
            match r {
                Ok(s) => s.wf() && (spec_apply_system_tx(self@, *tx) matches Ok(m) && s@ =~= m),
                Err(e) => spec_apply_system_tx(self@, *tx) == Err::<LedgerModel, SystemTransactionError>(e),
            },
    {
        match tx {
            SystemTransaction::OverwriteParameters(new_params) => {
                let mut state = self.duplicate();
                state.parameters = *new_params;
                Ok(state)
            },
            SystemTransaction::Mint(outputs) => {
                let supply = self.unminted_native_token_supply;
                let total = match checked_total(outputs) {
                    Some(v) => {
                        if v <= supply {
                            v
                        } else {
                            return Err(SystemTransactionError::IllegalMint { amount: Some(v), supply });
                        }
                    },
                    None => {
                        return Err(SystemTransactionError::IllegalMint { amount: None, supply });
                    },
                };
                let mut state = self.duplicate();
                state.unminted_native_token_supply = supply - total;
                let native = native_token();
                let ghost start = self@.unclaimed_mints;
                let mut i: usize = 0;
                while i < outputs.len()
                    invariant
                        i <= outputs@.len(),
                        state.wf(),
                        state.unclaimed_mints.nested_view() == credit_all(start, outputs@.take(i as int)),
                        state@.parameters == self@.parameters,
                        state@.treasury == self@.treasury,
                        state@.zswap == self@.zswap,
                        state@.contract == self@.contract,
                        state@.unminted_native_token_supply == supply - total,
                        native == spec_native_token(),
                    decreases outputs@.len() - i,
                {
                    let o = outputs[i];
                    proof {
                        assert(outputs@.take(i + 1).drop_last() =~= outputs@.take(i as int));
                    }
                    credit_key(&mut state.unclaimed_mints, o.target_key, native, o.amount);
                    i = i + 1;
                }
                assert(outputs@.take(outputs@.len() as int) =~= outputs@);
                Ok(state)
            },
            SystemTransaction::MintToTreasury { amount } => {
                let supply = self.unminted_native_token_supply;
                if *amount > supply {
                    return Err(SystemTransactionError::IllegalMint { amount: Some(*amount), supply });
                }
                let mut state = self.duplicate();
                let native = native_token();
                let held = value_or_zero(&state.treasury, &native);
                state.treasury.insert(native, held.saturating_add(*amount));
                state.unminted_native_token_supply = supply - *amount;
                Ok(state)
            },
            SystemTransaction::PayFromTreasury { outputs, token_type, nonce } => {
                let actual = value_or_zero(&self.treasury, token_type);
                let req_total = match checked_total(outputs) {
                    Some(v) => {
                        if v <= actual {
                            v
                        } else {
                            return Err(
                                SystemTransactionError::InsufficientTreasuryFunds {
                                    requested: Some(v),
                                    actual,
                                    token_type: *token_type,
                                },
                            );
                        }
                    },
                    None => {
                        return Err(
                            SystemTransactionError::InsufficientTreasuryFunds {
                                requested: None,
                                actual,
                                token_type: *token_type,
                            },
                        );
                    },
                };
                let mut state = self.duplicate();
                state.treasury.insert(*token_type, actual - req_total);
                let ghost z0 = self@.zswap;
                let ghost treasury_after = state@.treasury;
                let mut i: usize = 0;
                assert(outputs@.take(0) =~= Seq::<OutputInstruction>::empty());
                while i < outputs.len()
                    invariant
                        i <= outputs@.len(),
                        z0.first_free + outputs@.len() <= u64::MAX,
                        z0 == self@.zswap,
                        actual == get_or_zero(self@.treasury, *token_type),
                        req_total == total_amount(outputs@),
                        req_total <= actual,
                        *tx == (SystemTransaction::PayFromTreasury {
                            outputs: *outputs,
                            nonce: *nonce,
                            token_type: *token_type,
                        }),
                        state.wf(),
                        issue_all(z0, outputs@.take(i as int), *token_type, *nonce) == Ok::<
                            ZswapModel,
                            SystemTransactionError,
                        >(state@.zswap),
                        state@.zswap.first_free == z0.first_free + i,
                        state@.parameters == self@.parameters,
                        state@.unminted_native_token_supply == self@.unminted_native_token_supply,
                        state@.unclaimed_mints == self@.unclaimed_mints,
                        state@.treasury == treasury_after,
                        state@.contract == self@.contract,
                    decreases outputs@.len() - i,
                {
                    let o = outputs[i];
                    proof {
                        assert(outputs@.take(i + 1).drop_last() =~= outputs@.take(i as int));
                        assert(o == outputs@.take(i + 1).last());
                    }
                    match state.native_issue_unbalanced(o.target_key, *token_type, *nonce, o.amount) {
                        Ok(()) => {},
                        Err(e) => {
                            proof {
                                assert(issue_all(z0, outputs@.take(i + 1), *token_type, *nonce) == Err::<
                                    ZswapModel,
                                    SystemTransactionError,
                                >(e));
                                lemma_issue_all_err_prefix(z0, outputs@, i + 1, *token_type, *nonce);
                            }
                            return Err(e);
                        },
                    }
                    i = i + 1;
                }
                assert(outputs@.take(outputs@.len() as int) =~= outputs@);
                Ok(state)
            },
        }
    }
}


/// What a privileged transaction takes out of the unminted native supply.
pub open spec fn minted_by(tx: SystemTransaction) -> int {
    match tx {
        SystemTransaction::Mint(outputs) => total_amount(outputs@),
        SystemTransaction::MintToTreasury { amount } => amount as int,
        _ => 0,
    }
}

/// Issuing coins in turn keeps every earlier commitment, adds one leaf per
/// output, and leaves each output's commitment in the set.
pub proof fn lemma_issue_all_ok(z: ZswapModel, outs: Seq<OutputInstruction>, token_type: TokenType, nonce: HashOutput)
    requires
        z.first_free + outs.len() <= u64::MAX,
        issue_all(z, outs, token_type, nonce) is Ok,
    ensures
        ({
            let z2 = issue_all(z, outs, token_type, nonce)->Ok_0;
            &&& z2.first_free == z.first_free + outs.len()
            &&& z.coin_coms_set.subset_of(z2.coin_coms_set)
            &&& forall|j: int| 0 <= j < outs.len() ==> z2.coin_coms_set.contains(
                #[trigger] payout_commitment(outs[j], token_type, nonce),
            )
        }),
    decreases outs.len(),
{
    if outs.len() > 0 {
        let init = outs.drop_last();
        lemma_issue_all_ok(z, init, token_type, nonce);
        let z1 = issue_all(z, init, token_type, nonce)->Ok_0;
        let z2 = issue_all(z, outs, token_type, nonce)->Ok_0;
        assert forall|j: int| 0 <= j < outs.len() implies z2.coin_coms_set.contains(
            #[trigger] payout_commitment(outs[j], token_type, nonce),
        ) by {
            if j < outs.len() - 1 {
                assert(init[j] == outs[j]);
                assert(z1.coin_coms_set.contains(payout_commitment(init[j], token_type, nonce)));
            }
        }
    }
}

/// A privileged transaction takes from the unminted native supply exactly what
/// it mints, and never adds to it.
pub proof fn law_minting_draws_on_supply(s: LedgerModel, tx: SystemTransaction)
    requires
        spec_apply_system_tx(s, tx) is Ok,
    ensures
        spec_apply_system_tx(s, tx)->Ok_0.unminted_native_token_supply + minted_by(tx)
            == s.unminted_native_token_supply,
        spec_apply_system_tx(s, tx)->Ok_0.unminted_native_token_supply <= s.unminted_native_token_supply,
{
    if let SystemTransaction::Mint(outputs) = tx {
        lemma_total_prefix(outputs@, 0);
    }
}

/// Minting more than the unminted supply is refused, and nothing else refuses a mint.
pub proof fn law_mint_refused_iff_over_supply(s: LedgerModel, tx: SystemTransaction)
    requires
        tx is Mint || tx is MintToTreasury,
    ensures
        spec_apply_system_tx(s, tx) is Err <==> minted_by(tx) > s.unminted_native_token_supply,
{
}

/// A payout from the treasury takes exactly the total paid out from the
/// treasury's holding of that token, and issues one new coin per output.
pub proof fn law_payout_debits_treasury(s: LedgerModel, tx: SystemTransaction)
    requires
        tx is PayFromTreasury,
        s.zswap.first_free + tx->PayFromTreasury_outputs@.len() <= u64::MAX,
        spec_apply_system_tx(s, tx) is Ok,
    ensures
        ({
            let m = spec_apply_system_tx(s, tx)->Ok_0;
            let outs = tx->PayFromTreasury_outputs@;
            let tt = tx->PayFromTreasury_token_type;
            &&& get_or_zero(m.treasury, tt) + total_amount(outs) == get_or_zero(s.treasury, tt)
            &&& m.zswap.first_free == s.zswap.first_free + outs.len()
            &&& forall|j: int| 0 <= j < outs.len() ==> m.zswap.coin_coms_set.contains(
                #[trigger] payout_commitment(outs[j], tt, tx->PayFromTreasury_nonce),
            )
        }),
{
    let outs = tx->PayFromTreasury_outputs@;
    lemma_total_prefix(outs, 0);
    lemma_issue_all_ok(s.zswap, outs, tx->PayFromTreasury_token_type, tx->PayFromTreasury_nonce);
}

/// No privileged transaction removes a coin commitment.
pub proof fn law_commitments_persist(s: LedgerModel, tx: SystemTransaction)
    requires
        tx is PayFromTreasury ==> s.zswap.first_free + tx->PayFromTreasury_outputs@.len() <= u64::MAX,
        spec_apply_system_tx(s, tx) is Ok,
    ensures
        s.zswap.coin_coms_set.subset_of(spec_apply_system_tx(s, tx)->Ok_0.zswap.coin_coms_set),
{
    if tx is PayFromTreasury {
        lemma_issue_all_ok(
            s.zswap,
            tx->PayFromTreasury_outputs@,
            tx->PayFromTreasury_token_type,
            tx->PayFromTreasury_nonce,
        );
    }
}


impl DeepView for OutputInstruction {
    type V = OutputInstruction;

    open spec fn deep_view(&self) -> OutputInstruction {
        *self
    }
}

impl Versioned for OutputInstruction {
    open spec fn obeys_codec_spec() -> bool {
        true
    }

    open spec fn spec_version() -> Option<Version> {
        None
    }

    open spec fn spec_network_specific() -> bool {
        false
    }

    open spec fn spec_limit_recursion() -> bool {
        false
    }

    fn version() -> (r: Option<Version>) {
        None
    }

    fn network_specific() -> (r: bool) {
        false
    }

    fn limit_recursion() -> (r: bool) {
        false
    }
}

impl Serializable for OutputInstruction {
    open spec fn spec_serializable(v: OutputInstruction) -> bool {
        true
    }

    /// The amount, then the target key.
    open spec fn spec_unversioned(v: OutputInstruction) -> Seq<u8> {
        item_bytes::<u128>(v.amount) + item_bytes::<PublicKey>(v.target_key)
    }

    open spec fn spec_unversioned_size(v: OutputInstruction) -> nat {
        48
    }

    fn unversioned_serialize(value: &OutputInstruction, out: &mut Vec<u8>) -> (r: Result<(), CodecError>) {
        let ghost start = out@;
        <u128 as Serializable>::serialize(&value.amount, out)?;
        <PublicKey as Serializable>::serialize(&value.target_key, out)?;
        assert(out@ =~= start + Self::spec_unversioned(*value));
        Ok(())
    }

    fn unversioned_serialized_size(value: &OutputInstruction) -> (n: usize) {
        <u128 as Serializable>::serialized_size(&value.amount) + <PublicKey as Serializable>::serialized_size(
            &value.target_key,
        )
    }
}

impl Deserializable for OutputInstruction {
    /// The amount, then the target key.
    open spec fn spec_versioned_deserialize(data: Seq<u8>, version: Option<Version>, depth: u32) -> Option<
        (OutputInstruction, nat),
    > {
        match item_deserialize::<u128>(data, depth) {
            None => None,
            Some((amount, a)) => match item_deserialize::<PublicKey>(data.skip(a as int), depth) {
                None => None,
                Some((target_key, b)) => Some((OutputInstruction { amount, target_key }, a + b)),
            },
        }
    }

    open spec fn spec_decodable(v: OutputInstruction, depth: u32) -> bool {
        depth <= RECURSION_LIMIT
    }

    fn versioned_deserialize(
        data: &[u8],
        pos: &mut usize,
        version: Option<Version>,
        depth: u32,
    ) -> (r: Result<OutputInstruction, CodecError>) {
        let ghost start = *pos;
        let amount = <u128 as Deserializable>::deserialize(data, pos, depth)?;
        let ghost p1 = *pos;
        assert(data@.skip(p1 as int) =~= data@.skip(start as int).skip(p1 - start));
        let target_key = <PublicKey as Deserializable>::deserialize(data, pos, depth)?;
        Ok(OutputInstruction { amount, target_key })
    }
}

impl RoundTrip for OutputInstruction {
    proof fn lemma_unversioned_roundtrip(v: OutputInstruction, rest: Seq<u8>, depth: u32) {
        let a = item_bytes::<u128>(v.amount);
        let b = item_bytes::<PublicKey>(v.target_key);
        lemma_item_roundtrip::<u128>(v.amount, b + rest, depth);
        lemma_item_roundtrip::<PublicKey>(v.target_key, rest, depth);
        let data = a + b + rest;
        assert(data =~= a + (b + rest));
        assert(data.skip(a.len() as int) =~= b + rest);
    }

    proof fn lemma_unversioned_size(v: OutputInstruction) {
        lemma_item_size::<u128>(v.amount);
        lemma_item_size::<PublicKey>(v.target_key);
    }
}

impl DeepView for TransactionLimits {
    type V = TransactionLimits;

    open spec fn deep_view(&self) -> TransactionLimits {
        *self
    }
}

impl Versioned for TransactionLimits {
    open spec fn obeys_codec_spec() -> bool {
        true
    }

    open spec fn spec_version() -> Option<Version> {
        Some(Version { major: 1, minor: 0 })
    }

    open spec fn spec_network_specific() -> bool {
        true
    }

    open spec fn spec_limit_recursion() -> bool {
        false
    }

    fn version() -> (r: Option<Version>) {
        Some(Version { major: 1, minor: 0 })
    }

    fn network_specific() -> (r: bool) {
        true
    }

    fn limit_recursion() -> (r: bool) {
        false
    }
}

impl Serializable for TransactionLimits {
    open spec fn spec_serializable(v: TransactionLimits) -> bool {
        true
    }

    /// The byte limit, then the guaranteed cost limit per byte.
    open spec fn spec_unversioned(v: TransactionLimits) -> Seq<u8> {
        item_bytes::<u64>(v.transaction_byte_limit) + item_bytes::<u64>(v.guaranteed_cost_limit_per_byte)
    }

    open spec fn spec_unversioned_size(v: TransactionLimits) -> nat {
        16
    }

    fn unversioned_serialize(value: &TransactionLimits, out: &mut Vec<u8>) -> (r: Result<(), CodecError>) {
        let ghost start = out@;
        <u64 as Serializable>::serialize(&value.transaction_byte_limit, out)?;
        <u64 as Serializable>::serialize(&value.guaranteed_cost_limit_per_byte, out)?;
        assert(out@ =~= start + Self::spec_unversioned(*value));
        Ok(())
    }

    fn unversioned_serialized_size(value: &TransactionLimits) -> (n: usize) {
        <u64 as Serializable>::serialized_size(&value.transaction_byte_limit)
            + <u64 as Serializable>::serialized_size(&value.guaranteed_cost_limit_per_byte)
    }
}

impl Deserializable for TransactionLimits {
    /// Version 1.0 only: the byte limit, then the guaranteed cost limit per byte.
    open spec fn spec_versioned_deserialize(data: Seq<u8>, version: Option<Version>, depth: u32) -> Option<
        (TransactionLimits, nat),
    > {
        if version != Some(Version { major: 1, minor: 0 }) {
            None
        } else {
            match item_deserialize::<u64>(data, depth) {
                None => None,
                Some((transaction_byte_limit, a)) => match item_deserialize::<u64>(data.skip(a as int), depth) {
                    None => None,
                    Some((guaranteed_cost_limit_per_byte, b)) => Some(
                        (TransactionLimits { transaction_byte_limit, guaranteed_cost_limit_per_byte }, a + b),
                    ),
                },
            }
        }
    }

    open spec fn spec_decodable(v: TransactionLimits, depth: u32) -> bool {
        depth <= RECURSION_LIMIT
    }

    fn versioned_deserialize(
        data: &[u8],
        pos: &mut usize,
        version: Option<Version>,
        depth: u32,
    ) -> (r: Result<TransactionLimits, CodecError>) {
        match version {
            Some(Version { major: 1, minor: 0 }) => {
                let ghost start = *pos;
                let transaction_byte_limit = <u64 as Deserializable>::deserialize(data, pos, depth)?;
                let ghost p1 = *pos;
                assert(data@.skip(p1 as int) =~= data@.skip(start as int).skip(p1 - start));
                let guaranteed_cost_limit_per_byte = <u64 as Deserializable>::deserialize(data, pos, depth)?;
                Ok(TransactionLimits { transaction_byte_limit, guaranteed_cost_limit_per_byte })
            },
            _ => Err(CodecError::UnsupportedVersion),
        }
    }
}

impl RoundTrip for TransactionLimits {
    proof fn lemma_unversioned_roundtrip(v: TransactionLimits, rest: Seq<u8>, depth: u32) {
        let a = item_bytes::<u64>(v.transaction_byte_limit);
        let b = item_bytes::<u64>(v.guaranteed_cost_limit_per_byte);
        lemma_item_roundtrip::<u64>(v.transaction_byte_limit, b + rest, depth);
        lemma_item_roundtrip::<u64>(v.guaranteed_cost_limit_per_byte, rest, depth);
        let data = a + b + rest;
        assert(data =~= a + (b + rest));
        assert(data.skip(a.len() as int) =~= b + rest);
    }

    proof fn lemma_unversioned_size(v: TransactionLimits) {
        lemma_item_size::<u64>(v.transaction_byte_limit);
        lemma_item_size::<u64>(v.guaranteed_cost_limit_per_byte);
    }
}


/// How a transaction went, without the reason it failed.
#[derive(Clone, Copy, Debug, PartialEq, Eq, Structural, PartialOrd, Ord, Hash)]
pub enum ErasedTransactionResult {
    Success,
    PartialSuccess,
    Failure,
}

/// The guaranteed section of a transaction cost more than its bound allows.
#[derive(Clone, Copy, Debug, PartialEq, Eq)]
pub struct GuaranteedSectionLimitExceeded {
    pub real_cost: u128,
    pub without_size_cost: u128,
    pub bound: u128,
}

/// The hash that identifies a transaction.
#[derive(Clone, Copy, Debug, PartialEq, Eq, PartialOrd, Ord, Hash)]
pub struct TransactionHash(pub HashOutput);

/// Which checks of well-formedness to enforce.
#[derive(Clone, Copy, Debug, PartialEq, Eq, Structural)]
pub struct WellFormedStrictness {
    pub enforce_balancing: bool,
    pub verify_native_proofs: bool,
    pub verify_contract_proofs: bool,
    pub verify_signatures: bool,
    pub enforce_limits: bool,
}

impl Default for WellFormedStrictness {
    /// Every check enforced.
    fn default() -> (s: WellFormedStrictness)
        ensures
            s.enforce_balancing && s.verify_native_proofs && s.verify_contract_proofs && s.verify_signatures
                && s.enforce_limits,
    {
        WellFormedStrictness {
            enforce_balancing: true,
            verify_native_proofs: true,
            verify_contract_proofs: true,
            verify_signatures: true,
            enforce_limits: true,
        }
    }
}

/// How much the ledger logs.
#[derive(Clone, Copy, Debug, PartialEq, Eq, Structural)]
pub enum LogLevel {
    Off,
    Trace,
    Debug,
    Info,
    Warn,
    Error,
}

/// The marker for a transaction whose proofs are present.
#[derive(Clone, Copy, Debug, PartialEq, Eq, Structural, PartialOrd, Ord)]
pub struct Proof;

/// The marker for a transaction whose proofs are yet to be made.
#[derive(Clone, Copy, Debug, PartialEq, Eq, Structural, PartialOrd, Ord)]
pub struct ProofPreimage;

impl DeepView for Proof {
    type V = Proof;

    open spec fn deep_view(&self) -> Proof {
        *self
    }
}

impl Versioned for Proof {
    open spec fn obeys_codec_spec() -> bool {
        true
    }

    open spec fn spec_version() -> Option<Version> {
        None
    }

    open spec fn spec_network_specific() -> bool {
        false
    }

    open spec fn spec_limit_recursion() -> bool {
        false
    }

    fn version() -> (r: Option<Version>) {
        None
    }

    fn network_specific() -> (r: bool) {
        false
    }

    fn limit_recursion() -> (r: bool) {
        false
    }
}

impl Serializable for Proof {
    open spec fn spec_serializable(v: Proof) -> bool {
        true
    }

    /// No bytes at all.
    open spec fn spec_unversioned(v: Proof) -> Seq<u8> {
        Seq::empty()
    }

    open spec fn spec_unversioned_size(v: Proof) -> nat {
        0
    }

    fn unversioned_serialize(value: &Proof, out: &mut Vec<u8>) -> (r: Result<(), CodecError>) {
        assert(out@ =~= out@ + Seq::<u8>::empty());
        Ok(())
    }

    fn unversioned_serialized_size(value: &Proof) -> (n: usize) {
        0
    }
}

impl Deserializable for Proof {
    /// Reads nothing.
    open spec fn spec_versioned_deserialize(data: Seq<u8>, version: Option<Version>, depth: u32) -> Option<
        (Proof, nat),
    > {
        Some((Proof, 0))
    }

    open spec fn spec_decodable(v: Proof, depth: u32) -> bool {
        true
    }

    fn versioned_deserialize(data: &[u8], pos: &mut usize, version: Option<Version>, depth: u32) -> (r: Result<
        Proof,
        CodecError,
    >) {
        Ok(Proof)
    }
}

impl RoundTrip for Proof {
    proof fn lemma_unversioned_roundtrip(v: Proof, rest: Seq<u8>, depth: u32) {
    }

    proof fn lemma_unversioned_size(v: Proof) {
    }
}

impl DeepView for ProofPreimage {
    type V = ProofPreimage;

    open spec fn deep_view(&self) -> ProofPreimage {
        *self
    }
}

impl Versioned for ProofPreimage {
    open spec fn obeys_codec_spec() -> bool {
        true
    }

    open spec fn spec_version() -> Option<Version> {
        None
    }

    open spec fn spec_network_specific() -> bool {
        false
    }

    open spec fn spec_limit_recursion() -> bool {
        false
    }

    fn version() -> (r: Option<Version>) {
        None
    }

    fn network_specific() -> (r: bool) {
        false
    }

    fn limit_recursion() -> (r: bool) {
        false
    }
}

impl Serializable for ProofPreimage {
    open spec fn spec_serializable(v: ProofPreimage) -> bool {
        true
    }

    /// No bytes at all.
    open spec fn spec_unversioned(v: ProofPreimage) -> Seq<u8> {
        Seq::empty()
    }

    open spec fn spec_unversioned_size(v: ProofPreimage) -> nat {
        0
    }

    fn unversioned_serialize(value: &ProofPreimage, out: &mut Vec<u8>) -> (r: Result<(), CodecError>) {
        assert(out@ =~= out@ + Seq::<u8>::empty());
        Ok(())
    }

    fn unversioned_serialized_size(value: &ProofPreimage) -> (n: usize) {
        0
    }
}

impl Deserializable for ProofPreimage {
    /// Reads nothing.
    open spec fn spec_versioned_deserialize(data: Seq<u8>, version: Option<Version>, depth: u32) -> Option<
        (ProofPreimage, nat),
    > {
        Some((ProofPreimage, 0))
    }

    open spec fn spec_decodable(v: ProofPreimage, depth: u32) -> bool {
        true
    }

    fn versioned_deserialize(data: &[u8], pos: &mut usize, version: Option<Version>, depth: u32) -> (r: Result<
        ProofPreimage,
        CodecError,
    >) {
        Ok(ProofPreimage)
    }
}

impl RoundTrip for ProofPreimage {
    proof fn lemma_unversioned_roundtrip(v: ProofPreimage, rest: Seq<u8>, depth: u32) {
    }

    proof fn lemma_unversioned_size(v: ProofPreimage) {
    }
}

/// Writes `data` when the encoding of `value` is already at hand, and encodes `value` otherwise.
pub fn serialize_or_data<T: Serializable>(value: &T, data: Option<&[u8]>, out: &mut Vec<u8>) -> (r: Result<
    (),
    CodecError,
>)
    requires
        T::obeys_codec_spec(),
    ensures
        match data {
            Some(d) => r is Ok && final(out)@ == old(out)@ + d@,
            None => (r is Ok) == T::spec_serializable(value.deep_view()) && (r is Ok ==> final(out)@ == old(out)@
                + item_bytes::<T>(value.deep_view())),
        },
{
    match data {
        Some(d) => {
            let ghost start = out@;
            let mut i: usize = 0;
            while i < d.len()
                invariant
                    i <= d@.len(),
                    out@ == start + d@.take(i as int),
                decreases d@.len() - i,
            {
                out.push(d[i]);
                assert(d@.take(i + 1) =~= d@.take(i as int).push(d@[i as int]));
                i = i + 1;
            }
            assert(d@.take(d@.len() as int) =~= d@);
            Ok(())
        },
        None => T::serialize(value, out),
    }
}

/// Reads a `T` at `*pos` and hands back the bytes it was read from as well.
pub fn deserialize_and_capture<T: Deserializable>(data: &[u8], pos: &mut usize, depth: u32) -> (r: Result<
    (T, Vec<u8>),
    CodecError,
>)
    requires
        T::obeys_codec_spec(),
        *old(pos) <= data@.len(),
    ensures
        *final(pos) <= data@.len(),
        match item_deserialize::<T>(data@.skip(*old(pos) as int), depth) {
            Some((v, n)) => r matches Ok((x, bytes)) && x.deep_view() == v && *final(pos) == *old(pos) + n
                && bytes@ == data@.subrange(*old(pos) as int, *final(pos) as int),
            None => r is Err,
        },
{
    let start = *pos;
    let value = T::deserialize(data, pos, depth)?;
    let end = *pos;
    let mut bytes: Vec<u8> = Vec::new();
    let mut i: usize = start;
    while i < end
        invariant
            start <= i <= end <= data@.len(),
            bytes@ == data@.subrange(start as int, i as int),
        decreases end - i,
    {
        bytes.push(data[i]);
        assert(data@.subrange(start as int, i + 1) =~= data@.subrange(start as int, i as int).push(data@[i as int]));
        i = i + 1;
    }
    Ok((value, bytes))
}


/// Values that can be handed to serde where serde is in use; here, every type.
pub trait MaybeSerdeSerialize {
}

impl<T> MaybeSerdeSerialize for T {
}

} // verus!
