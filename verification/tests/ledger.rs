use midnight_ledger::coin::{Info, Nonce, Nullifier, PublicKey, TokenType};
use midnight_ledger::hash::HashOutput;
use midnight_ledger::ledger::{
    dummy_limits, native_token, CostModel, LedgerParameters, LedgerState, OutputInstruction,
    SystemTransaction, SystemTransactionError, TransactionCostModel, TransactionLimits, MAX_SUPPLY,
};
use midnight_ledger::transfer::Recipient;
use midnight_ledger::codec::{Deserializable, Serializable};
use midnight_ledger::context::{BlockContext, Effects, QueryContext, TranscriptRejected};
use midnight_ledger::contract::Address;
use midnight_ledger::contract_state::ContractState;
use midnight_ledger::ledger::{ErasedTransactionResult, WellFormedStrictness, ZswapState};
use midnight_ledger::maintenance::{ContractMaintenanceAuthority, MaintenanceUpdate, SingleUpdate};
use midnight_ledger::malformed::MalformedTransaction;
use midnight_ledger::keymap::KeyMap;
use midnight_ledger::section::{
    whitelist_matches, AppliedTransaction, SectionAction, SectionInputs, TransactionContext, TransactionResult,
};
use midnight_ledger::semantics::TransactionInvalid;
use midnight_ledger::signatures::{Signature, SigningKey, VerifyingKey};
use midnight_ledger::state::{
    AlignedValue, ContractOperation, ContractOperationVersion, ContractOperationVersionedVerifierKey, EntryPointBuf,
    StateValue, VerifierKey,
};

fn runtime_costs() -> CostModel {
    CostModel {
        noop_constant: 1,
        noop_linear: 1,
        branch: 1,
        jmp: 1,
        ckpt: 1,
        lt: 1,
        eq: 1,
        type_: 1,
        size: 1,
        new: 1,
        and: 1,
        or: 1,
        neg: 1,
        log: 1,
        root: 1,
        pop: 1,
        popeqc_constant: 1,
        popeq_constant: 1,
        popeqc_linear: 1,
        popeq_linear: 1,
        addi: 1,
        subi: 1,
        pushs_constant: 1,
        pushs_linear: 1,
        push_constant: 1,
        push_linear: 1,
        add: 1,
        sub: 1,
        concatc_constant: 1,
        concatc_linear: 1,
        concat_constant: 1,
        concat_linear: 1,
        member_constant: 1,
        member_linear: 1,
        member_logarithmic: 1,
        remc_constant: 1,
        remc_linear: 1,
        remc_logarithmic: 1,
        rem_constant: 1,
        rem_linear: 1,
        rem_logarithmic: 1,
        dup: 1,
        swap: 1,
        idxpc_constant: 1,
        idxc_constant: 1,
        idxp_constant: 1,
        idx_constant: 1,
        idxpc_linear: 1,
        idxpc_logarithmic: 1,
        idxc_linear: 1,
        idxc_logarithmic: 1,
        idxp_linear: 1,
        idxp_logarithmic: 1,
        idx_linear: 1,
        idx_logarithmic: 1,
        insc_constant: 1,
        ins_constant: 1,
        insc_linear: 1,
        insc_logarithmic: 1,
        ins_linear: 1,
        ins_logarithmic: 1,
    }
}

fn parameters() -> LedgerParameters {
    LedgerParameters {
        cost_model: TransactionCostModel {
            runtime_cost_model: runtime_costs(),
            transaction_cost_per_byte: 1,
            verify_cost_constant: 5_000,
            verify_cost_linear: 50,
            deploy_cost_per_byte: 100,
            mint_cost: 10_000,
        },
        limits: dummy_limits(),
        ticket_cost_multiplier: 1_000,
        ticket_cost_divisor: 1_000,
    }
}

fn key(b: u8) -> PublicKey {
    PublicKey(HashOutput([b; 32]))
}

fn native_claim(state: &LedgerState, k: PublicKey) -> Option<u128> {
    state.unclaimed_mints.get(&k).and_then(|m| m.get(&native_token()))
}

#[test]
fn system_tx() {
    let mut ledger_state = LedgerState::new(parameters());
    let target = key(7);
    let sys_tx = SystemTransaction::Mint(vec![OutputInstruction { amount: 500_000, target_key: target }]);
    ledger_state = ledger_state.apply_system_tx(&sys_tx).unwrap();
    assert_eq!(ledger_state.unminted_native_token_supply, MAX_SUPPLY - 500_000);
    assert_eq!(native_claim(&ledger_state, target), Some(500_000));

    let mint_cost = ledger_state.parameters.cost_model.mint_cost as u128;
    let sys_tx = SystemTransaction::MintToTreasury { amount: mint_cost };
    ledger_state = ledger_state.apply_system_tx(&sys_tx).unwrap();
    assert_eq!(ledger_state.treasury.get(&native_token()), Some(mint_cost));

    let sys_tx = SystemTransaction::PayFromTreasury {
        outputs: vec![OutputInstruction { amount: mint_cost, target_key: target }],
        nonce: HashOutput([3u8; 32]),
        token_type: native_token(),
    };
    ledger_state = ledger_state.apply_system_tx(&sys_tx).unwrap();
    assert_eq!(ledger_state.treasury.get(&native_token()).unwrap_or(0), 0);
    assert_eq!(ledger_state.zswap.first_free, 1);
    let coin = Info { nonce: Nonce(HashOutput([3u8; 32])), type_: native_token(), value: mint_cost };
    let cm = coin.commitment(&Recipient::User(target));
    assert!(ledger_state.zswap.coin_coms_set.contains_key(&cm));
    assert_eq!(ledger_state.zswap.coin_coms.get(&0), Some(cm));
    assert_eq!(
        ledger_state.unminted_native_token_supply,
        MAX_SUPPLY - 500_000 - mint_cost
    );
}

#[test]
fn mint_accumulates_per_key() {
    let state = LedgerState::new(parameters());
    let a = key(1);
    let b = key(2);
    let tx = SystemTransaction::Mint(vec![
        OutputInstruction { amount: 10, target_key: a },
        OutputInstruction { amount: 20, target_key: b },
        OutputInstruction { amount: 5, target_key: a },
    ]);
    let state = state.apply_system_tx(&tx).unwrap();
    assert_eq!(native_claim(&state, a), Some(15));
    assert_eq!(native_claim(&state, b), Some(20));
    assert_eq!(state.unminted_native_token_supply, MAX_SUPPLY - 35);
}

#[test]
fn mint_beyond_supply_is_refused() {
    let state = LedgerState::new(parameters());
    let tx = SystemTransaction::Mint(vec![OutputInstruction { amount: MAX_SUPPLY + 1, target_key: key(1) }]);
    assert_eq!(
        state.apply_system_tx(&tx).unwrap_err(),
        SystemTransactionError::IllegalMint { amount: Some(MAX_SUPPLY + 1), supply: MAX_SUPPLY }
    );
    let tx = SystemTransaction::Mint(vec![
        OutputInstruction { amount: u128::MAX, target_key: key(1) },
        OutputInstruction { amount: 1, target_key: key(2) },
    ]);
    assert_eq!(
        state.apply_system_tx(&tx).unwrap_err(),
        SystemTransactionError::IllegalMint { amount: None, supply: MAX_SUPPLY }
    );
    let tx = SystemTransaction::MintToTreasury { amount: MAX_SUPPLY + 1 };
    assert_eq!(
        state.apply_system_tx(&tx).unwrap_err(),
        SystemTransactionError::IllegalMint { amount: Some(MAX_SUPPLY + 1), supply: MAX_SUPPLY }
    );
}

#[test]
fn payout_beyond_treasury_is_refused() {
    let state = LedgerState::new(parameters());
    let state = state.apply_system_tx(&SystemTransaction::MintToTreasury { amount: 100 }).unwrap();
    let tx = SystemTransaction::PayFromTreasury {
        outputs: vec![OutputInstruction { amount: 101, target_key: key(1) }],
        nonce: HashOutput([0u8; 32]),
        token_type: native_token(),
    };
    assert_eq!(
        state.apply_system_tx(&tx).unwrap_err(),
        SystemTransactionError::InsufficientTreasuryFunds {
            requested: Some(101),
            actual: 100,
            token_type: native_token(),
        }
    );
    let other = TokenType(HashOutput([9u8; 32]));
    let tx = SystemTransaction::PayFromTreasury {
        outputs: vec![
            OutputInstruction { amount: u128::MAX, target_key: key(1) },
            OutputInstruction { amount: 2, target_key: key(1) },
        ],
        nonce: HashOutput([0u8; 32]),
        token_type: other,
    };
    assert_eq!(
        state.apply_system_tx(&tx).unwrap_err(),
        SystemTransactionError::InsufficientTreasuryFunds { requested: None, actual: 0, token_type: other }
    );
}

#[test]
fn duplicate_payout_coin_is_refused() {
    let state = LedgerState::new(parameters());
    let state = state.apply_system_tx(&SystemTransaction::MintToTreasury { amount: 100 }).unwrap();
    let out = OutputInstruction { amount: 10, target_key: key(4) };
    let nonce = HashOutput([5u8; 32]);
    let tx = SystemTransaction::PayFromTreasury { outputs: vec![out, out], nonce, token_type: native_token() };
    let coin = Info { nonce: Nonce(nonce), type_: native_token(), value: 10 };
    let cm = coin.commitment(&Recipient::User(key(4)));
    assert_eq!(state.apply_system_tx(&tx).unwrap_err(), SystemTransactionError::CommitmentAlreadyPresent(cm));
}

#[test]
fn overwrite_parameters_changes_only_parameters() {
    let state = LedgerState::new(parameters());
    let mut p = parameters();
    p.ticket_cost_multiplier = 7;
    let state = state.apply_system_tx(&SystemTransaction::OverwriteParameters(p)).unwrap();
    assert_eq!(state.parameters.ticket_cost_multiplier, 7);
    assert_eq!(state.unminted_native_token_supply, MAX_SUPPLY);
    assert_eq!(state.treasury.size(), 0);
}

#[test]
fn output_instruction_codec() {
    let out = OutputInstruction { amount: 0x0102, target_key: key(0xaa) };
    let mut bytes = Vec::new();
    <OutputInstruction as Serializable>::serialize(&out, &mut bytes).unwrap();
    assert_eq!(bytes.len(), 48);
    assert_eq!(&bytes[0..2], &[0x02, 0x01]);
    assert_eq!(&bytes[16..48], &[0xaa; 32]);
    let mut pos = 0usize;
    let back = <OutputInstruction as Deserializable>::deserialize(&bytes, &mut pos, 0).unwrap();
    assert_eq!(back, out);
    assert_eq!(pos, 48);
}

#[test]
fn transaction_limits_codec() {
    let limits = TransactionLimits { transaction_byte_limit: 1 << 20, guaranteed_cost_limit_per_byte: 25 };
    let mut bytes = Vec::new();
    <TransactionLimits as Serializable>::serialize(&limits, &mut bytes).unwrap();
    assert_eq!(&bytes[0..2], &[1, 0]);
    assert_eq!(bytes.len(), 18);
    let mut pos = 0usize;
    let back = <TransactionLimits as Deserializable>::deserialize(&bytes, &mut pos, 0).unwrap();
    assert_eq!(back, limits);
    assert_eq!(back, dummy_limits());
    bytes[1] = 1;
    let mut pos = 0usize;
    assert!(<TransactionLimits as Deserializable>::deserialize(&bytes, &mut pos, 0).is_err());
}

fn committee_setup() -> (Vec<SigningKey>, LedgerState, Address, ContractMaintenanceAuthority) {
    let sks: Vec<SigningKey> = (0..4).map(|_| SigningKey::sample()).collect();
    let pks: Vec<VerifyingKey> = sks.iter().map(|sk| sk.verifying_key()).collect();
    let authority = ContractMaintenanceAuthority { committee: pks, threshold: 2, counter: 0 };
    let state = ContractState {
        data: StateValue::Null,
        operations: vec![(
            EntryPointBuf(b"foo".to_vec()),
            ContractOperation::new(Some(fake_vk())),
        )],
        maintenance_authority: authority.clone(),
    };
    let addr = Address(HashOutput([9u8; 32]));
    let ledger = LedgerState::new(parameters()).deploy_contract(addr, &state).unwrap();
    assert!(matches!(
        ledger.deploy_contract(addr, &state),
        Err(TransactionInvalid::ContractAlreadyDeployed(a)) if a == addr
    ));
    (sks, ledger, addr, authority)
}

fn fake_vk() -> VerifierKey {
    VerifierKey(vec![4, 0, 0, 0, 0, 0, 0])
}

fn strictness() -> WellFormedStrictness {
    let mut s = WellFormedStrictness::default();
    s.enforce_balancing = false;
    s
}

fn signed_by(update: MaintenanceUpdate, sks: &[SigningKey], ids: &[u32], data: &[u8]) -> MaintenanceUpdate {
    let mut update = update;
    for (k, id) in ids.iter().enumerate() {
        update = update.add_signature(*id, sks[k].sign(data));
    }
    update
}

fn copy_update(u: &MaintenanceUpdate) -> MaintenanceUpdate {
    MaintenanceUpdate {
        address: u.address,
        updates: u.updates.clone(),
        counter: u.counter,
        signatures: u.signatures.clone(),
    }
}

#[test]
fn maintenance_update_checks() {
    let (sks, ledger, addr, authority) = committee_setup();
    let next_authority = ContractMaintenanceAuthority {
        committee: authority.committee.clone(),
        threshold: 3,
        counter: 1,
    };
    let update = MaintenanceUpdate::new(addr, vec![SingleUpdate::ReplaceAuthority(next_authority.clone())], 0);
    let data = update.data_to_sign();

    // Insufficient signatures, then sufficient ones.
    let one = copy_update(&update).add_signature(1, sks[1].sign(&data));
    assert!(matches!(
        one.well_formed(&ledger, strictness()),
        Err(MalformedTransaction::ThresholdMissed { signatures: 1, threshold: 2, .. })
    ));
    let three = one
        .add_signature(3, sks[3].sign(&data))
        .add_signature(2, sks[2].sign(&data));
    assert_eq!(three.signatures.iter().map(|s| s.0).collect::<Vec<_>>(), vec![1, 2, 3]);
    assert!(three.well_formed(&ledger, strictness()).is_ok());

    // Targeting the wrong contract address.
    let mut wrong = copy_update(&update);
    wrong.address = Address(HashOutput([1u8; 32]));
    let wrong_data = wrong.data_to_sign();
    let wrong = signed_by(wrong, &sks, &[0, 1], &wrong_data);
    assert!(matches!(
        wrong.well_formed(&ledger, strictness()),
        Err(MalformedTransaction::ContractNotPresent(a)) if a == Address(HashOutput([1u8; 32]))
    ));

    // Signing the wrong data.
    let mut bad_data = data.clone();
    bad_data[0] = 0;
    let u = signed_by(copy_update(&update), &sks, &[0, 1], &bad_data);
    assert!(matches!(
        u.well_formed(&ledger, strictness()),
        Err(MalformedTransaction::InvalidCommitteeSignature { key_id: 0, .. })
    ));
    // Not checked when signatures are not verified.
    let mut lax = strictness();
    lax.verify_signatures = false;
    assert!(u.well_formed(&ledger, lax).is_ok());

    // Signing with keys outside the committee.
    let strangers: Vec<SigningKey> = (0..2).map(|_| SigningKey::sample()).collect();
    let u = signed_by(copy_update(&update), &strangers, &[0, 1], &data);
    assert!(matches!(
        u.well_formed(&ledger, strictness()),
        Err(MalformedTransaction::InvalidCommitteeSignature { .. })
    ));

    // Key id not in the committee.
    let u = signed_by(copy_update(&update), &sks, &[10, 11], &data);
    assert!(matches!(
        u.well_formed(&ledger, strictness()),
        Err(MalformedTransaction::KeyNotInCommittee { key_id: 10, .. })
    ));

    // A committee key signing for the wrong id.
    let swapped = vec![sks[3], sks[2]];
    let u = signed_by(copy_update(&update), &swapped, &[0, 1], &data);
    assert!(matches!(
        u.well_formed(&ledger, strictness()),
        Err(MalformedTransaction::InvalidCommitteeSignature { key_id: 0, .. })
    ));

    // One member signing twice.
    let u = copy_update(&update)
        .add_signature(0, sks[0].sign(&data))
        .add_signature(0, sks[0].sign(&data));
    assert!(matches!(u.well_formed(&ledger, strictness()), Err(MalformedTransaction::NotNormalized)));

    // A replacement committee whose counter does not follow the update's.
    let mut u = copy_update(&update);
    u.counter = 1;
    let d = u.data_to_sign();
    let u = signed_by(u, &sks, &[0, 1], &d);
    assert!(matches!(u.well_formed(&ledger, strictness()), Err(MalformedTransaction::NotNormalized)));
}

#[test]
fn maintenance_update_applies() {
    let (sks, ledger, addr, authority) = committee_setup();
    let next_authority = ContractMaintenanceAuthority {
        committee: authority.committee.clone(),
        threshold: 3,
        counter: 1,
    };
    let update = MaintenanceUpdate::new(addr, vec![SingleUpdate::ReplaceAuthority(next_authority.clone())], 0);
    let data = update.data_to_sign();
    let signed = signed_by(copy_update(&update), &sks, &[0, 1], &data);
    assert!(signed.well_formed(&ledger, strictness()).is_ok());
    let state2 = ledger.apply_maintenance_update(&signed).unwrap();
    assert_eq!(state2.index(addr).unwrap().maintenance_authority, next_authority);
    // The same update cannot be replayed.
    assert!(matches!(
        state2.apply_maintenance_update(&signed),
        Err(TransactionInvalid::ReplayCounterMismatch(a)) if a == addr
    ));

    // Remove, insert, insert, remove.
    let mut u = copy_update(&update);
    u.updates = vec![
        SingleUpdate::VerifierKeyRemove(EntryPointBuf(b"foo".to_vec()), ContractOperationVersion::V2),
        SingleUpdate::VerifierKeyInsert(
            EntryPointBuf(b"bar".to_vec()),
            ContractOperationVersionedVerifierKey::V2(fake_vk()),
        ),
        SingleUpdate::VerifierKeyInsert(
            EntryPointBuf(b"baz".to_vec()),
            ContractOperationVersionedVerifierKey::V2(fake_vk()),
        ),
        SingleUpdate::VerifierKeyRemove(EntryPointBuf(b"baz".to_vec()), ContractOperationVersion::V2),
    ];
    let d = u.data_to_sign();
    let u = signed_by(u, &sks, &[0, 1], &d);
    assert!(u.well_formed(&ledger, strictness()).is_ok());
    let state2 = ledger.apply_maintenance_update(&u).unwrap();
    let cstate = state2.index(addr).unwrap();
    assert_eq!(cstate.maintenance_authority.threshold, authority.threshold);
    assert_eq!(cstate.maintenance_authority.committee, authority.committee);
    assert_eq!(cstate.maintenance_authority.counter, authority.counter + 1);
    let names: Vec<Vec<u8>> = cstate.operations.iter().map(|(ep, _)| ep.0.clone()).collect();
    assert_eq!(names, vec![b"bar".to_vec()]);
    assert_eq!(cstate.operations[0].1.latest().unwrap().0, fake_vk().0);
    // The ledger it was applied to is unchanged.
    assert_eq!(ledger.index(addr).unwrap().maintenance_authority.counter, 0);

    // Removing a key that is not present.
    let mut u = copy_update(&update);
    u.updates = vec![SingleUpdate::VerifierKeyRemove(EntryPointBuf(b"bar".to_vec()), ContractOperationVersion::V2)];
    assert!(matches!(
        ledger.apply_maintenance_update(&u),
        Err(TransactionInvalid::VerifierKeyNotFound(ep, ContractOperationVersion::V2)) if ep.0 == b"bar".to_vec()
    ));

    // Inserting a key that is already present.
    let mut u = copy_update(&update);
    u.updates = vec![SingleUpdate::VerifierKeyInsert(
        EntryPointBuf(b"foo".to_vec()),
        ContractOperationVersionedVerifierKey::V2(fake_vk()),
    )];
    assert!(matches!(
        ledger.apply_maintenance_update(&u),
        Err(TransactionInvalid::VerifierKeyAlreadyPresent(ep, ContractOperationVersion::V2)) if ep.0 == b"foo".to_vec()
    ));

    // A contract that is not there.
    let mut u = copy_update(&update);
    u.address = Address(HashOutput([2u8; 32]));
    assert!(matches!(
        ledger.apply_maintenance_update(&u),
        Err(TransactionInvalid::ContractNotPresent(_))
    ));
}

#[test]
fn maintenance_data_to_sign_bytes() {
    let auth = ContractMaintenanceAuthority { committee: vec![], threshold: 3, counter: 1 };
    let update = MaintenanceUpdate::new(Address(HashOutput([5u8; 32])), vec![SingleUpdate::ReplaceAuthority(auth)], 7);
    let mut expected = b"midnight:contract-update:".to_vec();
    expected.extend_from_slice(&[2, 0]);
    expected.extend_from_slice(&[5u8; 32]);
    expected.extend_from_slice(&[1, 0, 0, 0]);
    expected.push(0);
    expected.extend_from_slice(&[1, 0, 0, 0, 0, 0, 3, 0, 0, 0, 1, 0, 0, 0]);
    expected.extend_from_slice(&[7, 0, 0, 0]);
    assert_eq!(update.data_to_sign(), expected);
}

#[test]
fn single_update_bytes() {
    let mut out = Vec::new();
    let rm = SingleUpdate::VerifierKeyRemove(EntryPointBuf(b"ab".to_vec()), ContractOperationVersion::V2);
    SingleUpdate::serialize(&rm, &mut out).unwrap();
    assert_eq!(out, vec![1, 2, 0, 0, 0, b'a', b'b', 1]);
    assert_eq!(SingleUpdate::serialized_size(&rm), out.len());
    let mut out = Vec::new();
    let ins = SingleUpdate::VerifierKeyInsert(
        EntryPointBuf(b"c".to_vec()),
        ContractOperationVersionedVerifierKey::V2(VerifierKey(vec![9, 8])),
    );
    SingleUpdate::serialize(&ins, &mut out).unwrap();
    assert_eq!(out, vec![2, 1, 0, 0, 0, b'c', 1, 9, 8]);
    assert_eq!(SingleUpdate::serialized_size(&ins), out.len());
}

#[test]
fn signatures_added_in_any_order() {
    let addr = Address(HashOutput([5u8; 32]));
    let sk = SigningKey::sample();
    let a = (2u32, sk.sign(b"a"));
    let b = (2u32, sk.sign(b"b"));
    let c = (1u32, sk.sign(b"c"));
    let x = MaintenanceUpdate::new(addr, vec![], 0)
        .add_signature(a.0, a.1)
        .add_signature(b.0, b.1)
        .add_signature(c.0, c.1);
    let y = MaintenanceUpdate::new(addr, vec![], 0)
        .add_signature(c.0, c.1)
        .add_signature(a.0, a.1)
        .add_signature(b.0, b.1);
    let (lo, hi) = if a.1.as_bytes() < b.1.as_bytes() { (a, b) } else { (b, a) };
    assert_eq!(x.signatures, vec![c, lo, hi]);
    assert_eq!(x.signatures, y.signatures);
    assert!(Signature::from_bytes([0xffu8; 64]).is_none());
    assert_eq!(Signature::from_bytes(*a.1.as_bytes()), Some(a.1));
}

#[test]
fn contract_state_well_formed() {
    let addr = Address(HashOutput([4u8; 32]));
    let mut state = ContractState::default();
    assert!(state.well_formed(addr).is_ok());
    state.operations.push((EntryPointBuf(b"a".to_vec()), ContractOperation::new(Some(fake_vk()))));
    state.operations.push((EntryPointBuf(b"b".to_vec()), ContractOperation::new(None)));
    state.operations.push((EntryPointBuf(b"c".to_vec()), ContractOperation::new(None)));
    assert!(matches!(
        state.well_formed(addr),
        Err(MalformedTransaction::VerifierKeyNotSet { address, operation })
            if address == addr && operation.0 == b"b".to_vec()
    ));
    let mut state = ContractState::default();
    state.maintenance_authority.counter = 1;
    assert!(matches!(state.well_formed(addr), Err(MalformedTransaction::NotNormalized)));
    let op = ContractOperation::new(None);
    assert!(op.well_formed(addr, &EntryPointBuf(b"x".to_vec())).is_err());
}

#[test]
fn ledger_update_index() {
    let mut ledger = LedgerState::new(parameters());
    let addr = Address(HashOutput([6u8; 32]));
    assert!(ledger.index(addr).is_none());
    let ctx = QueryContext::new(StateValue::Null, addr);
    ledger = ledger.update_index(addr, ctx);
    let c = ledger.index(addr).unwrap();
    assert!(matches!(c.data, StateValue::Null));
    assert_eq!(c.maintenance_authority.threshold, 1);
    assert!(c.operations.is_empty());
}

#[test]
fn maintenance_update_bytes() {
    let sig = SigningKey::sample().sign(b"update");
    let update = MaintenanceUpdate::new(Address(HashOutput([5u8; 32])), vec![], 3).add_signature(1, sig);
    let mut out = Vec::new();
    MaintenanceUpdate::serialize(&update, &mut out).unwrap();
    let mut expected = vec![1u8, 0, 2, 0];
    expected.extend_from_slice(&[5u8; 32]);
    expected.extend_from_slice(&[0, 0, 0, 0]);
    expected.extend_from_slice(&[3, 0, 0, 0]);
    expected.extend_from_slice(&[1, 0, 0, 0]);
    expected.extend_from_slice(&[1, 0, 0, 0]);
    expected.extend_from_slice(&[1, 0]);
    expected.extend_from_slice(sig.as_bytes());
    assert_eq!(out, expected);
    assert_eq!(MaintenanceUpdate::serialized_size(&update), out.len());
}

#[test]
fn imbalances_credit_treasury() {
    let mut ledger = LedgerState::new(parameters());
    let a = TokenType(HashOutput([1u8; 32]));
    let b = TokenType(HashOutput([2u8; 32]));
    ledger.credit_imbalances(&vec![(a, 10), (b, -5), (a, 7), (b, 0)]);
    assert_eq!(ledger.treasury.get(&a), Some(17));
    assert_eq!(ledger.treasury.get(&b), None);
    ledger.credit_imbalances(&vec![(a, i128::MAX), (a, i128::MAX), (a, i128::MAX)]);
    assert_eq!(ledger.treasury.get(&a), Some(u128::MAX));
}

#[test]
fn call_results_recorded() {
    let (_sks, ledger, addr, _authority) = committee_setup();
    let cell = StateValue::Cell(AlignedValue(vec![1, 2, 3]));
    let ctx = QueryContext::new(cell, addr);
    let declared = Effects::default();
    let after = ledger.apply_call_result(addr, ctx, &declared).unwrap();
    let c = after.index(addr).unwrap();
    assert!(matches!(&c.data, StateValue::Cell(v) if v.0 == vec![1, 2, 3]));
    assert_eq!(c.operations.len(), 1);

    let mut claimed = Effects::default();
    claimed.claimed_nullifiers.insert(Nullifier(HashOutput([1u8; 32])), ());
    let ctx = QueryContext::new(StateValue::Null, addr);
    assert!(matches!(
        ledger.apply_call_result(addr, ctx, &claimed),
        Err(TransactionInvalid::EffectsMismatch { .. })
    ));

    let ctx = QueryContext::new(StateValue::Null, Address(HashOutput([3u8; 32])));
    assert!(matches!(
        ledger.apply_call_result(Address(HashOutput([3u8; 32])), ctx, &declared),
        Err(TransactionInvalid::ContractNotPresent(_))
    ));
}

fn open_context() -> TransactionContext {
    TransactionContext { block_context: BlockContext::default(), whitelist: None }
}

fn section(
    zswap: Result<Option<ZswapState>, String>,
    actions: Vec<SectionAction>,
    imbalances: Vec<(TokenType, i128)>,
) -> SectionInputs {
    SectionInputs { zswap, actions, imbalances }
}

#[test]
fn standard_transaction_sections() {
    let (_sks, ledger, addr, _authority) = committee_setup();
    let fresh = Address(HashOutput([7u8; 32]));
    let tt = TokenType(HashOutput([1u8; 32]));
    let call = SectionAction::Call {
        address: addr,
        run: Some(Ok((QueryContext::new(StateValue::Cell(AlignedValue(vec![5])), addr), Effects::default()))),
    };
    let deploy_in_guaranteed = SectionAction::Deploy { address: fresh, initial_state: ContractState::default() };
    let tx = AppliedTransaction::Standard {
        guaranteed: section(Ok(None), vec![call, deploy_in_guaranteed], vec![(tt, 4)]),
        fallible: section(
            Ok(None),
            vec![SectionAction::Deploy { address: fresh, initial_state: ContractState::default() }],
            vec![(tt, 6)],
        ),
    };
    let (after, res) = ledger.apply(tx, &open_context());
    assert!(matches!(res, TransactionResult::Success));
    assert!(matches!(ErasedTransactionResult::from(res), ErasedTransactionResult::Success));
    assert!(matches!(after.index(addr).unwrap().data, StateValue::Cell(ref v) if v.0 == vec![5]));
    assert!(after.index(fresh).is_some());
    assert_eq!(after.treasury.get(&tt), Some(10));

    // The guaranteed section fails: nothing changes.
    let missing = Address(HashOutput([8u8; 32]));
    let tx = AppliedTransaction::Standard {
        guaranteed: section(Ok(None), vec![SectionAction::Call { address: missing, run: None }], vec![(tt, 4)]),
        fallible: section(Ok(None), vec![], vec![]),
    };
    let (after, res) = ledger.apply(tx, &open_context());
    assert!(matches!(res, TransactionResult::Failure(TransactionInvalid::ContractNotPresent(a)) if a == missing));
    assert_eq!(after.treasury.get(&tt), None);

    // The fallible section fails: the guaranteed section stands.
    let stale = MaintenanceUpdate::new(addr, vec![], 5);
    let tx = AppliedTransaction::Standard {
        guaranteed: section(Ok(None), vec![], vec![(tt, 4)]),
        fallible: section(Ok(None), vec![SectionAction::Maintain(stale)], vec![(tt, 6)]),
    };
    let (after, res) = ledger.apply(tx, &open_context());
    assert!(matches!(
        res,
        TransactionResult::PartialSuccess(TransactionInvalid::ReplayCounterMismatch(a)) if a == addr
    ));
    assert!(matches!(ErasedTransactionResult::from(res), ErasedTransactionResult::PartialSuccess));
    assert_eq!(after.treasury.get(&tt), Some(4));

    // The coin layer refuses the guaranteed offer.
    let tx = AppliedTransaction::Standard {
        guaranteed: section(Err("bad offer".to_string()), vec![], vec![]),
        fallible: section(Ok(Some(ZswapState::new())), vec![], vec![]),
    };
    let (_after, res) = ledger.apply(tx, &open_context());
    assert!(matches!(res, TransactionResult::Failure(TransactionInvalid::Zswap(ref m)) if m == "bad offer"));
}

#[test]
fn claim_mint_transaction() {
    let mut ledger = LedgerState::new(parameters());
    let target = key(3);
    ledger = ledger
        .apply_system_tx(&SystemTransaction::Mint(vec![OutputInstruction { amount: 100, target_key: target }]))
        .unwrap();
    let coin = |value: u128| Info { nonce: Nonce(HashOutput([4u8; 32])), type_: native_token(), value };

    let (after, res) = ledger.apply(
        AppliedTransaction::ClaimMint { recipient: target, coin: coin(101), zswap: Ok(ZswapState::new()) },
        &open_context(),
    );
    assert!(matches!(
        res,
        TransactionResult::Failure(TransactionInvalid::InsufficientClaimable { requested: 101, claimable: 100, .. })
    ));
    assert_eq!(native_claim(&after, target), Some(100));

    let (after, res) =
        ledger.apply(AppliedTransaction::ClaimMint { recipient: target, coin: coin(40), zswap: Err("no".to_string()) }, &open_context());
    assert!(matches!(res, TransactionResult::Failure(TransactionInvalid::Zswap(_))));
    assert_eq!(native_claim(&after, target), Some(100));

    let (after, res) =
        ledger.apply(AppliedTransaction::ClaimMint { recipient: target, coin: coin(40), zswap: Ok(ZswapState::new()) }, &open_context());
    assert!(matches!(res, TransactionResult::Success));
    assert_eq!(native_claim(&after, target), Some(60));
    assert_eq!(after.treasury.get(&native_token()), Some(10_000));

    let (after, res) =
        after.apply(AppliedTransaction::ClaimMint { recipient: target, coin: coin(60), zswap: Ok(ZswapState::new()) }, &open_context());
    assert!(matches!(res, TransactionResult::Success));
    assert!(after.unclaimed_mints.get_ref(&target).is_none());
    assert_eq!(after.treasury.get(&native_token()), Some(20_000));
}

#[test]
fn whitelist_skips_other_contracts() {
    let (_sks, ledger, addr, _authority) = committee_setup();
    let other = Address(HashOutput([11u8; 32]));
    let mut listed = KeyMap::new();
    listed.insert(other, ());
    let ctx = TransactionContext { block_context: BlockContext::default(), whitelist: Some(listed) };
    assert!(whitelist_matches(&ctx.whitelist, &other));
    assert!(!whitelist_matches(&ctx.whitelist, &addr));
    assert!(whitelist_matches(&None, &addr));

    // A call and a stale maintenance update of a contract outside the whitelist are skipped.
    let call = SectionAction::Call {
        address: addr,
        run: Some(Ok((QueryContext::new(StateValue::Cell(AlignedValue(vec![5])), addr), Effects::default()))),
    };
    let stale = MaintenanceUpdate::new(addr, vec![], 5);
    let tx = AppliedTransaction::Standard {
        guaranteed: section(Ok(None), vec![call], vec![]),
        fallible: section(Ok(None), vec![SectionAction::Maintain(stale)], vec![]),
    };
    let (after, res) = ledger.apply(tx, &ctx);
    assert!(matches!(res, TransactionResult::Success));
    assert!(matches!(after.index(addr).unwrap().data, StateValue::Null));

    // A deployment outside the whitelist is skipped too; one inside it takes effect.
    let fresh = Address(HashOutput([7u8; 32]));
    let tx = AppliedTransaction::Standard {
        guaranteed: section(Ok(None), vec![], vec![]),
        fallible: section(
            Ok(None),
            vec![
                SectionAction::Deploy { address: fresh, initial_state: ContractState::default() },
                SectionAction::Deploy { address: other, initial_state: ContractState::default() },
            ],
            vec![],
        ),
    };
    let (after, res) = ledger.apply(tx, &ctx);
    assert!(matches!(res, TransactionResult::Success));
    assert!(after.index(fresh).is_none());
    assert!(after.index(other).is_some());
}

#[test]
fn rejected_transcript_fails_section() {
    let (_sks, ledger, addr, _authority) = committee_setup();
    let tt = TokenType(HashOutput([1u8; 32]));
    let call = SectionAction::Call { address: addr, run: Some(Err(TranscriptRejected::FinalStackWrongLength)) };
    let tx = AppliedTransaction::Standard {
        guaranteed: section(Ok(None), vec![call], vec![(tt, 4)]),
        fallible: section(Ok(None), vec![], vec![]),
    };
    let (after, res) = ledger.apply(tx, &open_context());
    assert!(matches!(
        res,
        TransactionResult::Failure(TransactionInvalid::Transcript(TranscriptRejected::FinalStackWrongLength))
    ));
    assert_eq!(after.treasury.get(&tt), None);

    // In the fallible section it is a partial success.
    let call = SectionAction::Call { address: addr, run: Some(Err(TranscriptRejected::WeakStateReturned)) };
    let tx = AppliedTransaction::Standard {
        guaranteed: section(Ok(None), vec![], vec![(tt, 4)]),
        fallible: section(Ok(None), vec![call], vec![(tt, 6)]),
    };
    let (after, res) = ledger.apply(tx, &open_context());
    assert!(matches!(
        res,
        TransactionResult::PartialSuccess(TransactionInvalid::Transcript(TranscriptRejected::WeakStateReturned))
    ));
    assert_eq!(after.treasury.get(&tt), Some(4));
}

fn credit(tt: TokenType, amount: i128) -> AppliedTransaction {
    AppliedTransaction::Standard { guaranteed: section(Ok(None), vec![], vec![(tt, amount)]), fallible: section(Ok(None), vec![], vec![]) }
}

fn failing() -> AppliedTransaction {
    AppliedTransaction::Standard {
        guaranteed: section(Err("bad offer".to_string()), vec![], vec![]),
        fallible: section(Ok(None), vec![], vec![]),
    }
}

#[test]
fn batch_application() {
    let ledger = LedgerState::new(parameters());
    let tt = TokenType(HashOutput([1u8; 32]));

    let results = ledger.batch_apply_independant(vec![credit(tt, 3), failing(), credit(tt, 5)], &open_context());
    assert_eq!(results.len(), 3);
    assert!(matches!(results[0], TransactionResult::Success));
    assert!(matches!(results[1], TransactionResult::Failure(TransactionInvalid::Zswap(_))));
    assert!(matches!(results[2], TransactionResult::Success));

    let (after, results) =
        ledger.batch_apply_all_or_nothing(vec![credit(tt, 3), credit(tt, 5)], &open_context()).unwrap();
    assert_eq!(results.len(), 2);
    assert_eq!(after.treasury.get(&tt), Some(8));

    assert!(matches!(
        ledger.batch_apply_all_or_nothing(vec![credit(tt, 3), failing(), credit(tt, 5)], &open_context()),
        Err(TransactionInvalid::Zswap(_))
    ));

    match ledger.batch_apply_until_first_failure(vec![credit(tt, 3), credit(tt, 4), failing(), credit(tt, 5)], &open_context()) {
        Err((before, results, err, at)) => {
            assert_eq!(before.treasury.get(&tt), Some(7));
            assert_eq!(results.len(), 2);
            assert!(matches!(err, TransactionInvalid::Zswap(ref m) if m == "bad offer"));
            assert_eq!(at, 2);
        },
        Ok(_) => panic!("the third transaction fails"),
    }
    let done = ledger.batch_apply_until_first_failure(vec![credit(tt, 1)], &open_context());
    assert!(matches!(done, Ok((ref s, ref r)) if s.treasury.get(&tt) == Some(1) && r.len() == 1));
}
