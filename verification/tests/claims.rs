use midnight_ledger::claims::{insert_call, well_formed_segment, CallClaims, CallKey, ContractLifetime, OfferParts};
use midnight_ledger::coin::{Commitment, Nullifier, TokenType};
use midnight_ledger::context::{ClaimedContractCall, Effects, Fr};
use midnight_ledger::contract::Address;
use midnight_ledger::hash::HashOutput;
use midnight_ledger::ledger::WellFormedStrictness;
use midnight_ledger::malformed::MalformedTransaction;

fn h(b: u8) -> HashOutput {
    HashOutput([b; 32])
}

fn strict() -> WellFormedStrictness {
    WellFormedStrictness::default()
}

fn call(address: Address, ep: u8, comm: u8, guaranteed: Option<Effects>, fallible: Option<Effects>) -> CallClaims {
    CallClaims { address, entry_point: h(ep), communication_commitment: Fr([comm; 32]), guaranteed, fallible }
}

fn offer(
    inputs: Vec<(Nullifier, Option<Address>)>,
    outputs: Vec<(Commitment, Option<Address>)>,
) -> Option<OfferParts> {
    Some(OfferParts { inputs, outputs, transients: vec![] })
}

#[test]
fn empty_segment_is_well_formed() {
    assert!(well_formed_segment(&None, Ok(()), &vec![], &vec![], strict(), true).is_ok());
    assert!(well_formed_segment(&offer(vec![], vec![]), Ok(()), &vec![], &vec![], strict(), false).is_ok());
}

#[test]
fn contract_nullifiers_must_be_claimed() {
    let a = Address(h(1));
    let n = Nullifier(h(2));
    let o = offer(vec![(n, Some(a)), (Nullifier(h(3)), None)], vec![]);
    let mut e = Effects::default();
    e.claimed_nullifiers.insert(n, ());
    let calls = vec![call(a, 9, 9, Some(e), None)];
    assert!(well_formed_segment(&o, Ok(()), &calls, &vec![], strict(), true).is_ok());

    // Nobody claims it.
    let calls = vec![call(a, 9, 9, Some(Effects::default()), None)];
    assert!(matches!(
        well_formed_segment(&o, Ok(()), &calls, &vec![], strict(), true),
        Err(MalformedTransaction::UnclaimedNullifier(x)) if x == n
    ));

    // Another contract claims it.
    let mut e = Effects::default();
    e.claimed_nullifiers.insert(n, ());
    let calls = vec![call(Address(h(7)), 9, 9, Some(e), None)];
    assert!(matches!(
        well_formed_segment(&o, Ok(()), &calls, &vec![], strict(), true),
        Err(MalformedTransaction::ClaimNullifierFailed(x)) if x == n
    ));
}

#[test]
fn received_and_spent_coins() {
    let a = Address(h(1));
    let c1 = Commitment(h(5));
    let c2 = Commitment(h(4));
    let o = offer(vec![], vec![(c1, Some(a)), (c2, Some(a))]);

    // Neither is received: the least is reported.
    let calls = vec![call(a, 9, 9, Some(Effects::default()), None)];
    assert!(matches!(
        well_formed_segment(&o, Ok(()), &calls, &vec![], strict(), true),
        Err(MalformedTransaction::UnclaimedCoinCom(x)) if x == c2
    ));

    let mut e = Effects::default();
    e.claimed_receives.insert(c1, ());
    e.claimed_receives.insert(c2, ());
    e.claimed_spends.insert(c1, ());
    let calls = vec![call(a, 9, 9, Some(e), None)];
    assert!(well_formed_segment(&o, Ok(()), &calls, &vec![], strict(), true).is_ok());

    // Spending a coin the offer does not create fails.
    let mut e = Effects::default();
    e.claimed_receives.insert(c1, ());
    e.claimed_receives.insert(c2, ());
    e.claimed_spends.insert(Commitment(h(6)), ());
    let calls = vec![call(a, 9, 9, Some(e), None)];
    assert!(matches!(
        well_formed_segment(&o, Ok(()), &calls, &vec![], strict(), true),
        Err(MalformedTransaction::ClaimSpendFailed(x)) if x == Commitment(h(6))
    ));

    // A receive claimed twice over two calls fails the second time.
    let mut e = Effects::default();
    e.claimed_receives.insert(c1, ());
    e.claimed_receives.insert(c2, ());
    let mut again = Effects::default();
    again.claimed_receives.insert(c1, ());
    let calls = vec![call(a, 9, 9, Some(e), None), call(a, 8, 8, Some(again), None)];
    assert!(matches!(
        well_formed_segment(&o, Ok(()), &calls, &vec![], strict(), true),
        Err(MalformedTransaction::ClaimReceiveFailed(x)) if x == c1
    ));
}

#[test]
fn contract_call_claims() {
    let a = Address(h(1));
    let b = Address(h(2));
    let claim = ClaimedContractCall(0, b, h(20), Fr([30; 32]));
    let mut caller = Effects::default();
    caller.claimed_contract_calls.insert(claim, ());

    // The callee comes after the caller and lives in the guaranteed section.
    let calls = vec![call(a, 9, 9, Some(caller.duplicate()), None), call(b, 20, 30, None, None)];
    assert_eq!(calls[1].lifetime(), ContractLifetime::Guaranteed);
    assert!(well_formed_segment(&None, Ok(()), &calls, &vec![], strict(), true).is_ok());

    // A callee before its caller cannot be claimed.
    let calls = vec![call(b, 20, 30, None, None), call(a, 9, 9, Some(caller.duplicate()), None)];
    assert!(matches!(
        well_formed_segment(&None, Ok(()), &calls, &vec![], strict(), true),
        Err(MalformedTransaction::ClaimCallFailed { address, .. }) if address == b
    ));

    // A callee with transcripts in both sections cannot be claimed.
    let calls = vec![
        call(a, 9, 9, Some(caller.duplicate()), None),
        call(b, 20, 30, Some(Effects::default()), Some(Effects::default())),
    ];
    assert_eq!(calls[1].lifetime(), ContractLifetime::Both);
    assert!(matches!(
        well_formed_segment(&None, Ok(()), &calls, &vec![], strict(), true),
        Err(MalformedTransaction::ClaimCallFailed { .. })
    ));

    // A fallible section claims only fallible callees.
    let calls = vec![call(a, 9, 9, None, Some(caller.duplicate())), call(b, 20, 30, None, Some(Effects::default()))];
    assert!(well_formed_segment(&None, Ok(()), &calls, &vec![], strict(), false).is_ok());
    assert!(well_formed_segment(&None, Ok(()), &calls, &vec![], strict(), true).is_ok());

    // Claims of one call are taken by sequence number, and each callee once.
    let mut twice = Effects::default();
    twice.claimed_contract_calls.insert(ClaimedContractCall(1, b, h(20), Fr([30; 32])), ());
    twice.claimed_contract_calls.insert(ClaimedContractCall(0, b, h(20), Fr([30; 32])), ());
    let calls = vec![call(a, 9, 9, Some(twice), None), call(b, 20, 30, None, None)];
    assert!(matches!(
        well_formed_segment(&None, Ok(()), &calls, &vec![], strict(), true),
        Err(MalformedTransaction::ClaimCallFailed { address, .. }) if address == b
    ));
}

#[test]
fn segment_limits_and_balance() {
    let many = Some(OfferParts {
        inputs: vec![(Nullifier(h(1)), None); 0x10000],
        outputs: vec![],
        transients: vec![],
    });
    assert!(matches!(
        well_formed_segment(&many, Ok(()), &vec![], &vec![], strict(), true),
        Err(MalformedTransaction::TooManyZswapEntries)
    ));

    assert!(matches!(
        well_formed_segment(&offer(vec![], vec![]), Err(MalformedTransaction::NotNormalized), &vec![], &vec![], strict(), true),
        Err(MalformedTransaction::NotNormalized)
    ));
    // Without an offer, its check is not consulted.
    assert!(well_formed_segment(&None, Err(MalformedTransaction::NotNormalized), &vec![], &vec![], strict(), true).is_ok());

    let t1 = TokenType(h(1));
    let t2 = TokenType(h(2));
    let imbalances = vec![(t1, 5), (t2, -3), (t1, -1)];
    assert!(matches!(
        well_formed_segment(&None, Ok(()), &vec![], &imbalances, strict(), true),
        Err(MalformedTransaction::Unbalanced(t, -3)) if t == t2
    ));
    let mut lax = strict();
    lax.enforce_balancing = false;
    assert!(well_formed_segment(&None, Ok(()), &vec![], &imbalances, lax, true).is_ok());
}

#[test]
fn calls_go_before_their_callees() {
    let b = Address(h(2));
    let c = Address(h(3));
    let keys = vec![Some(CallKey(c, h(30), Fr([3; 32]))), None, Some(CallKey(b, h(20), Fr([2; 32])))];
    let actions = vec!["call c", "deploy", "call b"];

    // The new call claims b: it goes just before b.
    let claims = vec![ClaimedContractCall(0, b, h(20), Fr([2; 32]))];
    assert_eq!(insert_call(actions.clone(), &keys, "new", &claims), vec!["call c", "deploy", "new", "call b"]);

    // It claims both: it goes before the first of them.
    let claims = vec![ClaimedContractCall(0, b, h(20), Fr([2; 32])), ClaimedContractCall(1, c, h(30), Fr([3; 32]))];
    assert_eq!(insert_call(actions.clone(), &keys, "new", &claims), vec!["new", "call c", "deploy", "call b"]);

    // A claim must match the callee, its entry point and its commitment.
    let claims = vec![ClaimedContractCall(0, b, h(21), Fr([2; 32]))];
    assert_eq!(insert_call(actions.clone(), &keys, "new", &claims), vec!["call c", "deploy", "call b", "new"]);
    assert_eq!(insert_call(actions, &keys, "new", &vec![]), vec!["call c", "deploy", "call b", "new"]);
}
