//! The claims a section's contract calls make on the section's coins and on
//! one another, checked against the section's coin offer, and the section's
//! balance.
use vstd::prelude::*;
use vstd::relations::{sorted_by, total_ordering};
use crate::bytes::{bytes_le, lemma_lex_antisymmetric, lemma_lex_reflexive, lemma_lex_total, lemma_lex_transitive, lex_le};
use crate::coin::{Commitment, Nullifier, TokenType};
use crate::context::{ClaimedContractCall, Effects, Fr};
use crate::contract::Address;
use crate::hash::HashOutput;
use crate::keymap::{ExactEq, KeyMap};
use crate::ledger::WellFormedStrictness;
use crate::malformed::MalformedTransaction;

verus! {

broadcast use vstd::array::group_array_axioms;

/// In which sections a contract call has a transcript.
#[derive(Clone, Copy, Debug, PartialEq, Eq, Structural)]
pub enum ContractLifetime {
    Guaranteed,
    Fallible,
    Both,
}

/// What the check reads of a contract call: the contract it calls, the hash of
/// its entry point, its communication commitment, and the effects of its
/// transcript for each section, where it has one.
pub struct CallClaims {
    pub address: Address,
    pub entry_point: HashOutput,
    pub communication_commitment: Fr,
    pub guaranteed: Option<Effects>,
    pub fallible: Option<Effects>,
}

/// A call without a fallible transcript lives in the guaranteed section.
pub open spec fn spec_lifetime(c: CallClaims) -> ContractLifetime {
    match (c.guaranteed is Some, c.fallible is Some) {
        (false, true) => ContractLifetime::Fallible,
        (true, true) => ContractLifetime::Both,
        _ => ContractLifetime::Guaranteed,
    }
}

impl CallClaims {
    /// In which sections the call has a transcript.
    pub fn lifetime(&self) -> (l: ContractLifetime)
        ensures
            l == spec_lifetime(*self),
    {
        match (self.guaranteed.is_some(), self.fallible.is_some()) {
            (false, true) => ContractLifetime::Fallible,
            (true, true) => ContractLifetime::Both,
            _ => ContractLifetime::Guaranteed,
        }
    }
}

/// What the check reads of a section's coin offer: each input's nullifier,
/// each output's commitment and each transient's nullifier and commitment,
/// with the contract each belongs to, if any.
pub struct OfferParts {
    pub inputs: Vec<(Nullifier, Option<Address>)>,
    pub outputs: Vec<(Commitment, Option<Address>)>,
    pub transients: Vec<(Nullifier, Commitment, Option<Address>)>,
}

/// An item that belongs to the contract at the given address.
#[derive(Clone, Copy, Debug, PartialEq, Eq)]
pub struct Owned<T>(pub T, pub Address);

impl<T: ExactEq> ExactEq for Owned<T> {
    fn exact_eq(&self, other: &Self) -> (b: bool) {
        self.0.exact_eq(&other.0) && self.1.exact_eq(&other.1)
    }
}

/// The pairs of `s` that belong to a contract.
pub open spec fn owned_pairs<T>(s: Seq<(T, Option<Address>)>) -> Set<Owned<T>> {
    Set::new(|p: Owned<T>| s.contains((p.0, Some(p.1))))
}

/// The nullifiers of an offer that belong to a contract, with that contract.
pub open spec fn contract_nullifiers(o: OfferParts) -> Set<Owned<Nullifier>> {
    owned_pairs(o.inputs@).union(owned_pairs(o.transients@.map_values(|t: (Nullifier, Commitment, Option<Address>)| (t.0, t.2))))
}

/// The commitments of an offer that belong to a contract, with that contract.
pub open spec fn contract_commitments(o: OfferParts) -> Set<Owned<Commitment>> {
    owned_pairs(o.outputs@).union(owned_pairs(o.transients@.map_values(|t: (Nullifier, Commitment, Option<Address>)| (t.1, t.2))))
}

/// All commitments an offer creates.
pub open spec fn offer_commitments(o: OfferParts) -> Set<Commitment> {
    o.outputs@.map_values(|p: (Commitment, Option<Address>)| p.0).to_set().union(
        o.transients@.map_values(|t: (Nullifier, Commitment, Option<Address>)| t.1).to_set(),
    )
}

/// What is left to claim: contract nullifiers, contract commitments, and
/// created commitments not yet spent.
pub struct ClaimState {
    pub nullifiers: Set<Owned<Nullifier>>,
    pub receives: Set<Owned<Commitment>>,
    pub outputs: Set<Commitment>,
}

/// Before any claim, everything the offer holds is left to claim.
pub open spec fn initial_claims(offer: Option<OfferParts>) -> ClaimState {
    match offer {
        Some(o) => ClaimState {
            nullifiers: contract_nullifiers(o),
            receives: contract_commitments(o),
            outputs: offer_commitments(o),
        },
        None => ClaimState { nullifiers: Set::empty(), receives: Set::empty(), outputs: Set::empty() },
    }
}

/// Claims each of `ks` for `addr` in turn; each claim takes its pair out, and
/// the first whose pair is not left fails.
pub open spec fn claim_pairs<T>(s: Set<Owned<T>>, ks: Seq<T>, addr: Address) -> Result<Set<Owned<T>>, T>
    decreases ks.len(),
{
    if ks.len() == 0 {
        Ok(s)
    } else {
        match claim_pairs(s, ks.drop_last(), addr) {
            Err(k) => Err(k),
            Ok(s1) => if s1.contains(Owned(ks.last(), addr)) {
                Ok(s1.remove(Owned(ks.last(), addr)))
            } else {
                Err(ks.last())
            },
        }
    }
}

/// Claims each of `ks` in turn; each claim takes its item out, and the first
/// that is not left fails.
pub open spec fn claim_items<T>(s: Set<T>, ks: Seq<T>) -> Result<Set<T>, T>
    decreases ks.len(),
{
    if ks.len() == 0 {
        Ok(s)
    } else {
        match claim_items(s, ks.drop_last()) {
            Err(k) => Err(k),
            Ok(s1) => if s1.contains(ks.last()) {
                Ok(s1.remove(ks.last()))
            } else {
                Err(ks.last())
            },
        }
    }
}

/// A callee as a claim names it: address, entry point hash, communication commitment.
#[derive(Clone, Copy, Debug, PartialEq, Eq)]
pub struct CallKey(pub Address, pub HashOutput, pub Fr);

impl ExactEq for CallKey {
    fn exact_eq(&self, other: &Self) -> (b: bool) {
        self.0.exact_eq(&other.0) && self.1.exact_eq(&other.1) && self.2.exact_eq(&other.2)
    }
}

/// The callee a call is named by.
pub open spec fn call_key(c: CallClaims) -> CallKey {
    CallKey(c.address, c.entry_point, c.communication_commitment)
}

/// The calls that may still be claimed, by callee: the position and lifetime
/// of the last call with that name.
pub open spec fn unclaimed_calls(calls: Seq<CallClaims>) -> Map<CallKey, (usize, ContractLifetime)>
    decreases calls.len(),
{
    if calls.len() == 0 {
        Map::empty()
    } else {
        unclaimed_calls(calls.drop_last()).insert(
            call_key(calls.last()),
            ((calls.len() - 1) as usize, spec_lifetime(calls.last())),
        )
    }
}

/// A guaranteed section can claim calls that live in it alone, and likewise
/// a fallible one; a call with both transcripts cannot be claimed.
pub open spec fn claimable_in(l: ContractLifetime, guaranteed: bool) -> bool {
    (l == ContractLifetime::Guaranteed && guaranteed) || (l == ContractLifetime::Fallible && !guaranteed)
}

/// Claims the calls `cs` in turn: each must name a call still unclaimed that
/// the section can claim, at a position after the last one claimed.
pub open spec fn claim_calls(
    m: Map<CallKey, (usize, ContractLifetime)>,
    last: int,
    cs: Seq<ClaimedContractCall>,
    guaranteed: bool,
) -> Result<(Map<CallKey, (usize, ContractLifetime)>, int), ClaimedContractCall>
    decreases cs.len(),
{
    if cs.len() == 0 {
        Ok((m, last))
    } else {
        match claim_calls(m, last, cs.drop_last(), guaranteed) {
            Err(c) => Err(c),
            Ok((m1, l1)) => {
                let c = cs.last();
                let k = CallKey(c.1, c.2, c.3);
                if m1.contains_key(k) && claimable_in(m1[k].1, guaranteed) && m1[k].0 > l1 {
                    Ok((m1.remove(k), m1[k].0 as int))
                } else {
                    Err(c)
                }
            },
        }
    }
}

/// The order claimed calls are taken in: by sequence number, then callee
/// address, entry point hash and commitment, each by its bytes.
pub open spec fn claim_le(x: ClaimedContractCall, y: ClaimedContractCall) -> bool {
    if x.0 != y.0 {
        x.0 < y.0
    } else if x.1 != y.1 {
        lex_le(x.1.0.0@, y.1.0.0@)
    } else if x.2 != y.2 {
        lex_le(x.2.0@, y.2.0@)
    } else {
        lex_le(x.3.0@, y.3.0@)
    }
}

/// The order of claimed calls, as a relation.
pub open spec fn claim_order() -> spec_fn(ClaimedContractCall, ClaimedContractCall) -> bool {
    |x: ClaimedContractCall, y: ClaimedContractCall| claim_le(x, y)
}

/// 32-byte arrays with the same bytes are equal.
proof fn lemma_bytes32_eq(a: [u8; 32], b: [u8; 32])
    requires
        a@ == b@,
    ensures
        a == b,
{
}

/// 32-byte arrays that come no later than each other are equal.
proof fn lemma_bytes32_antisymmetric(a: [u8; 32], b: [u8; 32])
    requires
        lex_le(a@, b@),
        lex_le(b@, a@),
    ensures
        a == b,
{
    lemma_lex_antisymmetric(a@, b@);
    lemma_bytes32_eq(a, b);
}

/// The order of claimed calls is a total order.
pub proof fn lemma_claim_order_total()
    ensures
        total_ordering(claim_order()),
{
    let r = claim_order();
    assert forall|x: ClaimedContractCall| #[trigger] r(x, x) by {
        lemma_lex_reflexive(x.3.0@);
    }
    assert forall|x: ClaimedContractCall, y: ClaimedContractCall| #[trigger] r(x, y) && #[trigger] r(y, x) implies x
        == y by {
        if x.0 == y.0 {
            if x.1 != y.1 {
                lemma_bytes32_antisymmetric(x.1.0.0, y.1.0.0);
            } else if x.2 != y.2 {
                lemma_bytes32_antisymmetric(x.2.0, y.2.0);
            } else {
                lemma_bytes32_antisymmetric(x.3.0, y.3.0);
            }
        }
    }
    assert forall|x: ClaimedContractCall, y: ClaimedContractCall, z: ClaimedContractCall| #[trigger] r(x, y)
        && #[trigger] r(y, z) implies r(x, z) by {
        if x.0 == y.0 && y.0 == z.0 {
            if x.1 != y.1 || y.1 != z.1 {
                lemma_lex_reflexive(x.1.0.0@);
                lemma_lex_reflexive(y.1.0.0@);
                lemma_lex_transitive(x.1.0.0@, y.1.0.0@, z.1.0.0@);
                if x.1 == z.1 {
                    lemma_bytes32_antisymmetric(x.1.0.0, y.1.0.0);
                }
            } else if x.2 != y.2 || y.2 != z.2 {
                lemma_lex_reflexive(x.2.0@);
                lemma_lex_reflexive(y.2.0@);
                lemma_lex_transitive(x.2.0@, y.2.0@, z.2.0@);
                if x.2 == z.2 {
                    lemma_bytes32_antisymmetric(x.2.0, y.2.0);
                }
            } else {
                lemma_lex_transitive(x.3.0@, y.3.0@, z.3.0@);
            }
        }
    }
    assert forall|x: ClaimedContractCall, y: ClaimedContractCall| #[trigger] r(x, y) || #[trigger] r(y, x) by {
        lemma_lex_total(x.1.0.0@, y.1.0.0@);
        lemma_lex_total(x.2.0@, y.2.0@);
        lemma_lex_total(x.3.0@, y.3.0@);
    }
}

/// The effects a call's transcript for the section has, if it has one.
pub open spec fn section_effects(c: CallClaims, guaranteed: bool) -> Option<Effects> {
    if guaranteed {
        c.guaranteed
    } else {
        c.fallible
    }
}

/// The claims of the effects `e` of the call at position `idx`, to the
/// contract at `addr`: its nullifiers, then its received coins, then its spent
/// coins, then its calls in claim order, each claim failing as it names.
pub open spec fn claim_effects(
    st: ClaimState,
    m: Map<CallKey, (usize, ContractLifetime)>,
    idx: int,
    addr: Address,
    e: Effects,
    guaranteed: bool,
) -> Result<(ClaimState, Map<CallKey, (usize, ContractLifetime)>), MalformedTransaction> {
    match claim_pairs(st.nullifiers, e.claimed_nullifiers.key_seq(), addr) {
        Err(n) => Err(MalformedTransaction::ClaimNullifierFailed(n)),
        Ok(nuls) => match claim_pairs(st.receives, e.claimed_receives.key_seq(), addr) {
            Err(c) => Err(MalformedTransaction::ClaimReceiveFailed(c)),
            Ok(recs) => match claim_items(st.outputs, e.claimed_spends.key_seq()) {
                Err(c) => Err(MalformedTransaction::ClaimSpendFailed(c)),
                Ok(outs) => match claim_calls(
                    m,
                    idx,
                    e.claimed_contract_calls.key_seq().sort_by(claim_order()),
                    guaranteed,
                ) {
                    Err(c) => Err(MalformedTransaction::ClaimCallFailed { address: c.1, entry_point: c.2, comm: c.3 }),
                    Ok((m2, _)) => Ok((ClaimState { nullifiers: nuls, receives: recs, outputs: outs }, m2)),
                },
            },
        },
    }
}

/// The claims of the first `n` calls in turn, each with its transcript for
/// the section; calls without one claim nothing.
pub open spec fn claim_all(
    st: ClaimState,
    m: Map<CallKey, (usize, ContractLifetime)>,
    calls: Seq<CallClaims>,
    n: nat,
    guaranteed: bool,
) -> Result<(ClaimState, Map<CallKey, (usize, ContractLifetime)>), MalformedTransaction>
    decreases n,
{
    if n == 0 {
        Ok((st, m))
    } else {
        match claim_all(st, m, calls, (n - 1) as nat, guaranteed) {
            Err(e) => Err(e),
            Ok((st1, m1)) => match section_effects(calls[n - 1], guaranteed) {
                None => Ok((st1, m1)),
                Some(e) => claim_effects(st1, m1, n - 1, calls[n - 1].address, e, guaranteed),
            },
        }
    }
}

/// `c` is the least commitment, by its bytes, among those left in `s`.
pub open spec fn is_least_commitment(c: Commitment, s: Set<Owned<Commitment>>) -> bool {
    &&& exists|a: Address| #[trigger] s.contains(Owned(c, a))
    &&& forall|p: Owned<Commitment>| #[trigger] s.contains(p) ==> lex_le(c.0.0@, p.0.0.0@)
}

/// `n` is the least nullifier, by its bytes, among those left in `s`.
pub open spec fn is_least_nullifier(n: Nullifier, s: Set<Owned<Nullifier>>) -> bool {
    &&& exists|a: Address| #[trigger] s.contains(Owned(n, a))
    &&& forall|p: Owned<Nullifier>| #[trigger] s.contains(p) ==> lex_le(n.0.0@, p.0.0.0@)
}

/// The least commitment left in `s`.
pub open spec fn least_commitment(s: Set<Owned<Commitment>>) -> Commitment {
    choose|c: Commitment| is_least_commitment(c, s)
}

/// The least nullifier left in `s`.
pub open spec fn least_nullifier(s: Set<Owned<Nullifier>>) -> Nullifier {
    choose|n: Nullifier| is_least_nullifier(n, s)
}

/// The first token, in the order given, whose imbalance is negative.
pub open spec fn first_negative(s: Seq<(TokenType, i128)>) -> Option<(TokenType, i128)>
    decreases s.len(),
{
    if s.len() == 0 {
        None
    } else {
        match first_negative(s.drop_last()) {
            Some(x) => Some(x),
            None => if s.last().1 < 0 {
                Some(s.last())
            } else {
                None
            },
        }
    }
}

/// The number of inputs, outputs and transients of the offer, if any.
pub open spec fn offer_size(offer: Option<OfferParts>) -> nat {
    match offer {
        Some(o) => o.inputs@.len() + o.outputs@.len() + o.transients@.len(),
        None => 0,
    }
}

/// A section of a standard transaction is well-formed: its offer has fewer
/// than 2^16 parts and passes its own check; when balancing is enforced, no
/// token is short; every claim of its calls' transcripts is met; and every
/// coin received by a contract, and every coin a contract spends, is claimed.
pub open spec fn spec_well_formed_segment(
    offer: Option<OfferParts>,
    offer_check: Result<(), MalformedTransaction>,
    calls: Seq<CallClaims>,
    imbalances: Seq<(TokenType, i128)>,
    enforce_balancing: bool,
    guaranteed: bool,
) -> Result<(), MalformedTransaction> {
    if offer_size(offer) >= 0x10000 {
        Err(MalformedTransaction::TooManyZswapEntries)
    } else if offer is Some && offer_check is Err {
        offer_check
    } else if enforce_balancing && first_negative(imbalances) is Some {
        match first_negative(imbalances) {
            Some((tt, v)) => Err(MalformedTransaction::Unbalanced(tt, v)),
            None => Ok(()),
        }
    } else {
        claims_outcome(offer, calls, guaranteed)
    }
}

/// The claims of every call in turn, then what is left unclaimed: a
/// contract's received coin first, then a contract's spent coin, each the
/// least left by its bytes.
pub open spec fn claims_outcome(offer: Option<OfferParts>, calls: Seq<CallClaims>, guaranteed: bool) -> Result<
    (),
    MalformedTransaction,
> {
    match claim_all(initial_claims(offer), unclaimed_calls(calls), calls, calls.len(), guaranteed) {
        Err(e) => Err(e),
        Ok((st, _)) => if !st.receives.is_empty() {
            Err(MalformedTransaction::UnclaimedCoinCom(least_commitment(st.receives)))
        } else if !st.nullifiers.is_empty() {
            Err(MalformedTransaction::UnclaimedNullifier(least_nullifier(st.nullifiers)))
        } else {
            Ok(())
        },
    }
}

/// Whether `x` comes no later than `y` among claimed calls.
fn claim_le_exec(x: &ClaimedContractCall, y: &ClaimedContractCall) -> (b: bool)
    ensures
        b == claim_le(*x, *y),
{
    if x.0 != y.0 {
        x.0 < y.0
    } else if !x.1.exact_eq(&y.1) {
        bytes_le(x.1.0.0.as_slice(), y.1.0.0.as_slice())
    } else if !x.2.exact_eq(&y.2) {
        bytes_le(x.2.0.as_slice(), y.2.0.as_slice())
    } else {
        bytes_le(x.3.0.as_slice(), y.3.0.as_slice())
    }
}

/// The claimed calls of `v` in claim order.
pub fn sort_claims(v: Vec<ClaimedContractCall>) -> (r: Vec<ClaimedContractCall>)
    ensures
        r@ == v@.sort_by(claim_order()),
{
    let ghost ord = claim_order();
    proof {
        lemma_claim_order_total();
    }
    let mut out: Vec<ClaimedContractCall> = Vec::new();
    let mut i: usize = 0;
    assert(v@.take(0) =~= Seq::<ClaimedContractCall>::empty());
    while i < v.len()
        invariant
            i <= v@.len(),
            ord == claim_order(),
            total_ordering(ord),
            sorted_by(out@, ord),
            out@.to_multiset() == v@.take(i as int).to_multiset(),
        decreases v@.len() - i,
    {
        let x = v[i];
        let mut p: usize = 0;
        while p < out.len() && claim_le_exec(&out[p], &x)
            invariant
                p <= out@.len(),
                forall|q: int| 0 <= q < p ==> claim_le(#[trigger] out@[q], x),
            decreases out@.len() - p,
        {
            p = p + 1;
        }
        let ghost old_out = out@;
        out.insert(p, x);
        proof {
            let s = out@;
            assert(s == old_out.insert(p as int, x));
            assert forall|a: int, b: int| 0 <= a < b < s.len() implies #[trigger] ord(s[a], s[b]) by {
                if b < p {
                    assert(ord(old_out[a], old_out[b]));
                } else if b == p {
                    assert(claim_le(old_out[a], x));
                } else if a < p {
                    assert(ord(old_out[a], old_out[b - 1]));
                } else if a == p {
                    assert(p < old_out.len());
                    assert(!claim_le(old_out[p as int], x));
                    assert(ord(old_out[p as int], x) || ord(x, old_out[p as int]));
                    assert(ord(x, old_out[p as int]));
                    if b - 1 > p {
                        assert(ord(old_out[p as int], old_out[b - 1]));
                    }
                } else {
                    assert(ord(old_out[a - 1], old_out[b - 1]));
                }
            }
            assert(v@.take(i + 1) =~= v@.take(i as int).push(x));
            vstd::seq_lib::to_multiset_insert(old_out, p as int, x);
            vstd::seq_lib::to_multiset_build(v@.take(i as int), x);
        }
        i = i + 1;
    }
    proof {
        assert(v@.take(v@.len() as int) =~= v@);
        v@.lemma_sort_by_ensures(ord);
        vstd::seq_lib::lemma_sorted_unique(out@, v@.sort_by(ord), ord);
    }
    out
}

/// Adds to `m` the pairs of `s` that belong to a contract.
fn add_owned<T: ExactEq>(m: &mut KeyMap<Owned<T>, ()>, s: &Vec<(T, Option<Address>)>)
    requires
        old(m).wf(),
    ensures
        final(m).wf(),
        final(m)@.dom() == old(m)@.dom().union(owned_pairs(s@)),
{
    let ghost start = m@.dom();
    let mut i: usize = 0;
    while i < s.len()
        invariant
            m.wf(),
            i <= s@.len(),
            m@.dom() == start.union(owned_pairs(s@.take(i as int))),
        decreases s@.len() - i,
    {
        let (t, owner) = s[i];
        let ghost before = m@.dom();
        match owner {
            Some(a) => {
                m.insert(Owned(t, a), ());
            },
            None => {},
        }
        proof {
            let t1 = s@.take(i + 1);
            assert(t1 =~= s@.take(i as int).push(s@[i as int]));
            assert forall|p: Owned<T>| #[trigger] m@.dom().contains(p) <==> start.union(owned_pairs(t1)).contains(p) by {
                if t1.contains((p.0, Some(p.1))) {
                    let j = choose|j: int| 0 <= j < t1.len() && t1[j] == (p.0, Some(p.1));
                    if j < i {
                        assert(s@.take(i as int)[j] == (p.0, Some(p.1)));
                    }
                }
                if s@.take(i as int).contains((p.0, Some(p.1))) {
                    let j = choose|j: int| 0 <= j < i && s@.take(i as int)[j] == (p.0, Some(p.1));
                    assert(t1[j] == (p.0, Some(p.1)));
                }
                if owner == Some(p.1) && t == p.0 {
                    assert(t1[i as int] == (p.0, Some(p.1)));
                }
            }
            assert(m@.dom() =~= start.union(owned_pairs(t1)));
        }
        i = i + 1;
    }
    assert(s@.take(s@.len() as int) =~= s@);
}

/// Adds to `m` the items of `s`.
fn add_items<T: ExactEq>(m: &mut KeyMap<T, ()>, s: &Vec<T>)
    requires
        old(m).wf(),
    ensures
        final(m).wf(),
        final(m)@.dom() == old(m)@.dom().union(s@.to_set()),
{
    let ghost start = m@.dom();
    let mut i: usize = 0;
    while i < s.len()
        invariant
            m.wf(),
            i <= s@.len(),
            m@.dom() == start.union(s@.take(i as int).to_set()),
        decreases s@.len() - i,
    {
        m.insert(s[i], ());
        proof {
            let t1 = s@.take(i + 1);
            assert(t1 =~= s@.take(i as int).push(s@[i as int]));
            s@.take(i as int).lemma_push_to_set_commute(s@[i as int]);
            assert(m@.dom() =~= start.union(t1.to_set()));
        }
        i = i + 1;
    }
    assert(s@.take(s@.len() as int) =~= s@);
}

/// The sets of an offer, as maps to unit values.
fn initial_claim_maps(offer: &Option<OfferParts>) -> (r: (
    KeyMap<Owned<Nullifier>, ()>,
    KeyMap<Owned<Commitment>, ()>,
    KeyMap<Commitment, ()>,
))
    ensures
        r.0.wf(),
        r.1.wf(),
        r.2.wf(),
        r.0@.dom() == initial_claims(*offer).nullifiers,
        r.1@.dom() == initial_claims(*offer).receives,
        r.2@.dom() == initial_claims(*offer).outputs,
{
    let mut nuls: KeyMap<Owned<Nullifier>, ()> = KeyMap::new();
    let mut comms: KeyMap<Owned<Commitment>, ()> = KeyMap::new();
    let mut outs: KeyMap<Commitment, ()> = KeyMap::new();
    match offer {
        None => {
            assert(nuls@.dom() =~= Set::<Owned<Nullifier>>::empty());
            assert(comms@.dom() =~= Set::<Owned<Commitment>>::empty());
            assert(outs@.dom() =~= Set::<Commitment>::empty());
        },
        Some(o) => {
            let mut tn: Vec<(Nullifier, Option<Address>)> = Vec::new();
            let mut tc: Vec<(Commitment, Option<Address>)> = Vec::new();
            let mut oc: Vec<Commitment> = Vec::new();
            let mut tr: Vec<Commitment> = Vec::new();
            let mut i: usize = 0;
            while i < o.transients.len()
                invariant
                    i <= o.transients@.len(),
                    tn@ == o.transients@.take(i as int).map_values(|t: (Nullifier, Commitment, Option<Address>)| (t.0, t.2)),
                    tc@ == o.transients@.take(i as int).map_values(|t: (Nullifier, Commitment, Option<Address>)| (t.1, t.2)),
                    tr@ == o.transients@.take(i as int).map_values(|t: (Nullifier, Commitment, Option<Address>)| t.1),
                decreases o.transients@.len() - i,
            {
                let (n, c, a) = o.transients[i];
                tn.push((n, a));
                tc.push((c, a));
                tr.push(c);
                proof {
                    let t1 = o.transients@.take(i + 1);
                    assert(t1 =~= o.transients@.take(i as int).push(o.transients@[i as int]));
                    assert(tn@ =~= t1.map_values(|t: (Nullifier, Commitment, Option<Address>)| (t.0, t.2)));
                    assert(tc@ =~= t1.map_values(|t: (Nullifier, Commitment, Option<Address>)| (t.1, t.2)));
                    assert(tr@ =~= t1.map_values(|t: (Nullifier, Commitment, Option<Address>)| t.1));
                }
                i = i + 1;
            }
            assert(o.transients@.take(o.transients@.len() as int) =~= o.transients@);
            let mut j: usize = 0;
            while j < o.outputs.len()
                invariant
                    j <= o.outputs@.len(),
                    oc@ == o.outputs@.take(j as int).map_values(|p: (Commitment, Option<Address>)| p.0),
                decreases o.outputs@.len() - j,
            {
                oc.push(o.outputs[j].0);
                proof {
                    let t1 = o.outputs@.take(j + 1);
                    assert(t1 =~= o.outputs@.take(j as int).push(o.outputs@[j as int]));
                    assert(oc@ =~= t1.map_values(|p: (Commitment, Option<Address>)| p.0));
                }
                j = j + 1;
            }
            assert(o.outputs@.take(o.outputs@.len() as int) =~= o.outputs@);
            add_owned(&mut nuls, &o.inputs);
            add_owned(&mut nuls, &tn);
            add_owned(&mut comms, &o.outputs);
            add_owned(&mut comms, &tc);
            add_items(&mut outs, &oc);
            add_items(&mut outs, &tr);
            assert(nuls@.dom() =~= initial_claims(*offer).nullifiers);
            assert(comms@.dom() =~= initial_claims(*offer).receives);
            assert(outs@.dom() =~= initial_claims(*offer).outputs);
        },
    }
    (nuls, comms, outs)
}

/// Claims each key of `ks` for `addr` from `m`, as `claim_pairs` does.
fn claim_pairs_exec<T: ExactEq>(m: &mut KeyMap<Owned<T>, ()>, ks: &Vec<T>, addr: Address) -> (r: Result<(), T>)
    requires
        old(m).wf(),
    ensures
        final(m).wf(),
        match claim_pairs(old(m)@.dom(), ks@, addr) {
            Ok(s) => r is Ok && final(m)@.dom() == s,
            Err(k) => r == Err::<(), T>(k),
        },
{
    let ghost start = m@.dom();
    let mut i: usize = 0;
    while i < ks.len()
        invariant
            m.wf(),
            i <= ks@.len(),
            start == old(m)@.dom(),
            claim_pairs(start, ks@.take(i as int), addr) == Ok::<Set<Owned<T>>, T>(m@.dom()),
        decreases ks@.len() - i,
    {
        let k = ks[i];
        proof {
            let t1 = ks@.take(i + 1);
            assert(t1.drop_last() =~= ks@.take(i as int));
            assert(t1.last() == k);
        }
        match m.take(&Owned(k, addr)) {
            Some(_) => {},
            None => {
                proof {
                    lemma_claim_pairs_err_prefix(start, ks@, i + 1, addr);
                }
                return Err(k);
            },
        }
        i = i + 1;
    }
    assert(ks@.take(ks@.len() as int) =~= ks@);
    Ok(())
}

/// Claims each item of `ks` from `m`, as `claim_items` does.
fn claim_items_exec<T: ExactEq>(m: &mut KeyMap<T, ()>, ks: &Vec<T>) -> (r: Result<(), T>)
    requires
        old(m).wf(),
    ensures
        final(m).wf(),
        match claim_items(old(m)@.dom(), ks@) {
            Ok(s) => r is Ok && final(m)@.dom() == s,
            Err(k) => r == Err::<(), T>(k),
        },
{
    let ghost start = m@.dom();
    let mut i: usize = 0;
    while i < ks.len()
        invariant
            m.wf(),
            i <= ks@.len(),
            start == old(m)@.dom(),
            claim_items(start, ks@.take(i as int)) == Ok::<Set<T>, T>(m@.dom()),
        decreases ks@.len() - i,
    {
        let k = ks[i];
        proof {
            let t1 = ks@.take(i + 1);
            assert(t1.drop_last() =~= ks@.take(i as int));
            assert(t1.last() == k);
        }
        match m.take(&k) {
            Some(_) => {},
            None => {
                proof {
                    lemma_claim_items_err_prefix(start, ks@, i + 1);
                }
                return Err(k);
            },
        }
        i = i + 1;
    }
    assert(ks@.take(ks@.len() as int) =~= ks@);
    Ok(())
}

/// Once a prefix of the claims fails, all of them fail the same way.
proof fn lemma_claim_items_err_prefix<T>(s: Set<T>, ks: Seq<T>, j: int)
    requires
        0 <= j <= ks.len(),
        claim_items(s, ks.take(j)) is Err,
    ensures
        claim_items(s, ks) == claim_items(s, ks.take(j)),
    decreases ks.len(),
{
    if j == ks.len() {
        assert(ks.take(j) =~= ks);
    } else {
        assert(ks.drop_last().take(j) =~= ks.take(j));
        lemma_claim_items_err_prefix(s, ks.drop_last(), j);
    }
}

/// Once a prefix of the claimed calls fails, all of them fail the same way.
proof fn lemma_claim_calls_err_prefix(
    m: Map<CallKey, (usize, ContractLifetime)>,
    last: int,
    cs: Seq<ClaimedContractCall>,
    j: int,
    g: bool,
)
    requires
        0 <= j <= cs.len(),
        claim_calls(m, last, cs.take(j), g) is Err,
    ensures
        claim_calls(m, last, cs, g) == claim_calls(m, last, cs.take(j), g),
    decreases cs.len(),
{
    if j == cs.len() {
        assert(cs.take(j) =~= cs);
    } else {
        assert(cs.drop_last().take(j) =~= cs.take(j));
        lemma_claim_calls_err_prefix(m, last, cs.drop_last(), j, g);
    }
}

/// The calls still unclaimed before any claim.
fn build_unclaimed(calls: &Vec<CallClaims>) -> (m: KeyMap<CallKey, (usize, ContractLifetime)>)
    ensures
        m.wf(),
        m@ == unclaimed_calls(calls@),
{
    let mut m: KeyMap<CallKey, (usize, ContractLifetime)> = KeyMap::new();
    let mut i: usize = 0;
    assert(calls@.take(0) =~= Seq::<CallClaims>::empty());
    while i < calls.len()
        invariant
            m.wf(),
            i <= calls@.len(),
            m@ == unclaimed_calls(calls@.take(i as int)),
        decreases calls@.len() - i,
    {
        let c = &calls[i];
        let l = c.lifetime();
        m.insert(CallKey(c.address, c.entry_point, c.communication_commitment), (i, l));
        proof {
            let t1 = calls@.take(i + 1);
            assert(t1.drop_last() =~= calls@.take(i as int));
            assert(t1.last() == calls@[i as int]);
        }
        i = i + 1;
    }
    assert(calls@.take(calls@.len() as int) =~= calls@);
    m
}

/// Claims the calls `cs` in turn from `m`, as `claim_calls` does from `last`.
fn claim_calls_exec(
    m: &mut KeyMap<CallKey, (usize, ContractLifetime)>,
    last: usize,
    cs: &Vec<ClaimedContractCall>,
    guaranteed: bool,
) -> (r: Result<(), ClaimedContractCall>)
    requires
        old(m).wf(),
    ensures
        final(m).wf(),
        match claim_calls(old(m)@, last as int, cs@, guaranteed) {
            Ok((m2, _)) => r is Ok && final(m)@ == m2,
            Err(c) => r == Err::<(), ClaimedContractCall>(c),
        },
{
    let ghost start = m@;
    let mut l: usize = last;
    let mut i: usize = 0;
    while i < cs.len()
        invariant
            m.wf(),
            i <= cs@.len(),
            start == old(m)@,
            claim_calls(start, last as int, cs@.take(i as int), guaranteed) == Ok::<
                (Map<CallKey, (usize, ContractLifetime)>, int),
                ClaimedContractCall,
            >((m@, l as int)),
        decreases cs@.len() - i,
    {
        let c = cs[i];
        proof {
            let t1 = cs@.take(i + 1);
            assert(t1.drop_last() =~= cs@.take(i as int));
            assert(t1.last() == c);
        }
        let k = CallKey(c.1, c.2, c.3);
        match m.take(&k) {
            Some((idx, lt)) => {
                let ok = match lt {
                    ContractLifetime::Guaranteed => guaranteed,
                    ContractLifetime::Fallible => !guaranteed,
                    ContractLifetime::Both => false,
                };
                if !ok || idx <= l {
                    proof {
                        lemma_claim_calls_err_prefix(start, last as int, cs@, i + 1, guaranteed);
                    }
                    return Err(c);
                }
                l = idx;
            },
            None => {
                proof {
                    lemma_claim_calls_err_prefix(start, last as int, cs@, i + 1, guaranteed);
                }
                return Err(c);
            },
        }
        i = i + 1;
    }
    assert(cs@.take(cs@.len() as int) =~= cs@);
    Ok(())
}

/// The maps of what is left to claim, with the sets they stand for.
pub open spec fn claim_maps_view(
    nuls: KeyMap<Owned<Nullifier>, ()>,
    comms: KeyMap<Owned<Commitment>, ()>,
    outs: KeyMap<Commitment, ()>,
) -> ClaimState {
    ClaimState { nullifiers: nuls@.dom(), receives: comms@.dom(), outputs: outs@.dom() }
}

/// Makes the claims of the effects `e` of the call at position `idx`, to the
/// contract at `addr`, as `claim_effects` does.
fn claim_effects_exec(
    nuls: &mut KeyMap<Owned<Nullifier>, ()>,
    comms: &mut KeyMap<Owned<Commitment>, ()>,
    outs: &mut KeyMap<Commitment, ()>,
    m: &mut KeyMap<CallKey, (usize, ContractLifetime)>,
    idx: usize,
    addr: Address,
    e: &Effects,
    guaranteed: bool,
) -> (r: Result<(), MalformedTransaction>)
    requires
        old(nuls).wf(),
        old(comms).wf(),
        old(outs).wf(),
        old(m).wf(),
        e.wf(),
    ensures
        final(nuls).wf(),
        final(comms).wf(),
        final(outs).wf(),
        final(m).wf(),
        match claim_effects(claim_maps_view(*old(nuls), *old(comms), *old(outs)), old(m)@, idx as int, addr, *e, guaranteed) {
            Ok((st, m2)) => r is Ok && claim_maps_view(*final(nuls), *final(comms), *final(outs)) == st && final(m)@ == m2,
            Err(f) => r == Err::<(), MalformedTransaction>(f),
        },
{
    let ks = e.claimed_nullifiers.keys();
    match claim_pairs_exec(nuls, &ks, addr) {
        Err(n) => {
            return Err(MalformedTransaction::ClaimNullifierFailed(n));
        },
        Ok(()) => {},
    }
    let ks = e.claimed_receives.keys();
    match claim_pairs_exec(comms, &ks, addr) {
        Err(c) => {
            return Err(MalformedTransaction::ClaimReceiveFailed(c));
        },
        Ok(()) => {},
    }
    let ks = e.claimed_spends.keys();
    match claim_items_exec(outs, &ks) {
        Err(c) => {
            return Err(MalformedTransaction::ClaimSpendFailed(c));
        },
        Ok(()) => {},
    }
    let cs = sort_claims(e.claimed_contract_calls.keys());
    match claim_calls_exec(m, idx, &cs, guaranteed) {
        Err(c) => {
            return Err(MalformedTransaction::ClaimCallFailed { address: c.1, entry_point: c.2, comm: c.3 });
        },
        Ok(()) => {},
    }
    Ok(())
}

/// The least of `hs` by bytes.
fn least_hash(hs: &Vec<HashOutput>) -> (r: HashOutput)
    requires
        hs@.len() > 0,
    ensures
        hs@.contains(r),
        forall|i: int| 0 <= i < hs@.len() ==> lex_le(r.0@, #[trigger] hs@[i].0@),
{
    let mut best = hs[0];
    proof {
        lemma_lex_reflexive(best.0@);
    }
    let mut j: usize = 1;
    while j < hs.len()
        invariant
            1 <= j <= hs@.len(),
            hs@.contains(best),
            forall|i: int| 0 <= i < j ==> lex_le(best.0@, #[trigger] hs@[i].0@),
        decreases hs@.len() - j,
    {
        let h = hs[j];
        if !bytes_le(best.0.as_slice(), h.0.as_slice()) {
            proof {
                lemma_lex_total(best.0@, h.0@);
                lemma_lex_reflexive(h.0@);
                assert forall|i: int| 0 <= i < j + 1 implies lex_le(h.0@, #[trigger] hs@[i].0@) by {
                    if i < j {
                        lemma_lex_transitive(h.0@, best.0@, hs@[i].0@);
                    }
                }
            }
            best = h;
        } else {
            proof {
                assert(lex_le(best.0@, hs@[j as int].0@));
            }
        }
        j = j + 1;
    }
    best
}

/// The least commitment left in `m`.
fn least_commitment_exec(m: &KeyMap<Owned<Commitment>, ()>) -> (r: Commitment)
    requires
        m.wf(),
        !m@.dom().is_empty(),
    ensures
        r == least_commitment(m@.dom()),
{
    let ks = m.keys();
    let mut hs: Vec<HashOutput> = Vec::new();
    let mut i: usize = 0;
    while i < ks.len()
        invariant
            i <= ks@.len(),
            hs@.len() == i,
            forall|q: int| 0 <= q < i ==> #[trigger] hs@[q] == ks@[q].0.0,
        decreases ks@.len() - i,
    {
        hs.push(ks[i].0.0);
        i = i + 1;
    }
    let ghost s = m@.dom();
    proof {
        let p = s.choose();
        assert(s.contains(p));
        assert(m@.contains_key(p));
        assert(ks@.contains(p));
    }
    let h = least_hash(&hs);
    let r = Commitment(h);
    proof {
        let q = choose|q: int| 0 <= q < hs@.len() && hs@[q] == h;
        assert(m@.contains_key(ks@[q]));
        assert(s.contains(Owned(r, ks@[q].1)));
        assert forall|p: Owned<Commitment>| #[trigger] s.contains(p) implies lex_le(r.0.0@, p.0.0.0@) by {
            assert(m@.contains_key(p));
            assert(ks@.contains(p));
            let q2 = choose|q2: int| 0 <= q2 < ks@.len() && ks@[q2] == p;
            assert(hs@[q2] == p.0.0);
        }
        assert(is_least_commitment(r, s));
        let c = least_commitment(s);
        assert(is_least_commitment(c, s));
        let a = choose|a: Address| #[trigger] s.contains(Owned(c, a));
        assert(s.contains(Owned(c, a)));
        assert(lex_le(r.0.0@, c.0.0@));
        assert(lex_le(c.0.0@, r.0.0@));
        lemma_bytes32_antisymmetric(r.0.0, c.0.0);
    }
    r
}

/// The least nullifier left in `m`.
fn least_nullifier_exec(m: &KeyMap<Owned<Nullifier>, ()>) -> (r: Nullifier)
    requires
        m.wf(),
        !m@.dom().is_empty(),
    ensures
        r == least_nullifier(m@.dom()),
{
    let ks = m.keys();
    let mut hs: Vec<HashOutput> = Vec::new();
    let mut i: usize = 0;
    while i < ks.len()
        invariant
            i <= ks@.len(),
            hs@.len() == i,
            forall|q: int| 0 <= q < i ==> #[trigger] hs@[q] == ks@[q].0.0,
        decreases ks@.len() - i,
    {
        hs.push(ks[i].0.0);
        i = i + 1;
    }
    let ghost s = m@.dom();
    proof {
        let p = s.choose();
        assert(s.contains(p));
        assert(m@.contains_key(p));
        assert(ks@.contains(p));
    }
    let h = least_hash(&hs);
    let r = Nullifier(h);
    proof {
        let q = choose|q: int| 0 <= q < hs@.len() && hs@[q] == h;
        assert(m@.contains_key(ks@[q]));
        assert(s.contains(Owned(r, ks@[q].1)));
        assert forall|p: Owned<Nullifier>| #[trigger] s.contains(p) implies lex_le(r.0.0@, p.0.0.0@) by {
            assert(m@.contains_key(p));
            assert(ks@.contains(p));
            let q2 = choose|q2: int| 0 <= q2 < ks@.len() && ks@[q2] == p;
            assert(hs@[q2] == p.0.0);
        }
        assert(is_least_nullifier(r, s));
        let c = least_nullifier(s);
        assert(is_least_nullifier(c, s));
        let a = choose|a: Address| #[trigger] s.contains(Owned(c, a));
        assert(s.contains(Owned(c, a)));
        assert(lex_le(r.0.0@, c.0.0@));
        assert(lex_le(c.0.0@, r.0.0@));
        lemma_bytes32_antisymmetric(r.0.0, c.0.0);
    }
    r
}

/// The transcripts' effects of every call hold distinct keys.
pub open spec fn calls_ready(calls: Seq<CallClaims>) -> bool {
    forall|i: int|
        0 <= i < calls.len() ==> {
            &&& (#[trigger] calls[i]).guaranteed matches Some(e) ==> e.wf()
            &&& calls[i].fallible matches Some(e) ==> e.wf()
        }
}

/// The first token, in the order given, whose imbalance is negative.
fn first_negative_exec(imbalances: &Vec<(TokenType, i128)>) -> (r: Option<(TokenType, i128)>)
    ensures
        r == first_negative(imbalances@),
{
    let mut i: usize = 0;
    assert(imbalances@.take(0) =~= Seq::<(TokenType, i128)>::empty());
    while i < imbalances.len()
        invariant
            i <= imbalances@.len(),
            first_negative(imbalances@.take(i as int)) is None,
        decreases imbalances@.len() - i,
    {
        let (tt, v) = imbalances[i];
        proof {
            let t1 = imbalances@.take(i + 1);
            assert(t1.drop_last() =~= imbalances@.take(i as int));
        }
        if v < 0 {
            proof {
                lemma_first_negative_prefix(imbalances@, i + 1);
            }
            return Some((tt, v));
        }
        i = i + 1;
    }
    assert(imbalances@.take(imbalances@.len() as int) =~= imbalances@);
    None
}

/// Once a prefix has a negative imbalance, its first is the first of the whole.
proof fn lemma_first_negative_prefix(s: Seq<(TokenType, i128)>, j: int)
    requires
        0 <= j <= s.len(),
        first_negative(s.take(j)) is Some,
    ensures
        first_negative(s) == first_negative(s.take(j)),
    decreases s.len(),
{
    if j == s.len() {
        assert(s.take(j) =~= s);
    } else {
        assert(s.drop_last().take(j) =~= s.take(j));
        lemma_first_negative_prefix(s.drop_last(), j);
    }
}

/// Once the claims of a prefix of the calls fail, those of all fail the same way.
proof fn lemma_claim_all_err_prefix(
    st: ClaimState,
    m: Map<CallKey, (usize, ContractLifetime)>,
    calls: Seq<CallClaims>,
    j: nat,
    n: nat,
    g: bool,
)
    requires
        j <= n,
        claim_all(st, m, calls, j, g) is Err,
    ensures
        claim_all(st, m, calls, n, g) == claim_all(st, m, calls, j, g),
    decreases n,
{
    if j < n {
        lemma_claim_all_err_prefix(st, m, calls, j, (n - 1) as nat, g);
    }
}

/// Checks a section of a standard transaction, as `spec_well_formed_segment`
/// says, given the outcome of the offer's own check.
pub fn well_formed_segment(
    offer: &Option<OfferParts>,
    offer_check: Result<(), MalformedTransaction>,
    calls: &Vec<CallClaims>,
    imbalances: &Vec<(TokenType, i128)>,
    strictness: WellFormedStrictness,
    guaranteed: bool,
) -> (r: Result<(), MalformedTransaction>)
    requires
        calls_ready(calls@),
    ensures
        r == spec_well_formed_segment(
            *offer,
            offer_check,
            calls@,
            imbalances@,
            strictness.enforce_balancing,
            guaranteed,
        ),
{
    let n_parts: u128 = match offer {
        Some(o) => o.inputs.len() as u128 + o.outputs.len() as u128 + o.transients.len() as u128,
        None => 0,
    };
    if n_parts >= 0x10000 {
        return Err(MalformedTransaction::TooManyZswapEntries);
    }
    if offer.is_some() {
        match offer_check {
            Err(e) => {
                return Err(e);
            },
            Ok(()) => {},
        }
    }
    if strictness.enforce_balancing {
        match first_negative_exec(imbalances) {
            Some((tt, v)) => {
                return Err(MalformedTransaction::Unbalanced(tt, v));
            },
            None => {},
        }
    }
    let (mut nuls, mut comms, mut outs) = initial_claim_maps(offer);
    let mut m = build_unclaimed(calls);
    let ghost st0 = initial_claims(*offer);
    let ghost m0 = unclaimed_calls(calls@);
    assert(claim_maps_view(nuls, comms, outs) == st0);
    let ghost target = claims_outcome(*offer, calls@, guaranteed);
    assert(spec_well_formed_segment(*offer, offer_check, calls@, imbalances@, strictness.enforce_balancing, guaranteed)
        == target);
    let mut i: usize = 0;
    while i < calls.len()
        invariant
            nuls.wf(),
            comms.wf(),
            outs.wf(),
            m.wf(),
            i <= calls@.len(),
            calls_ready(calls@),
            st0 == initial_claims(*offer),
            m0 == unclaimed_calls(calls@),
            target == claims_outcome(*offer, calls@, guaranteed),
            spec_well_formed_segment(*offer, offer_check, calls@, imbalances@, strictness.enforce_balancing, guaranteed)
                == target,
            claim_all(st0, m0, calls@, i as nat, guaranteed) == Ok::<
                (ClaimState, Map<CallKey, (usize, ContractLifetime)>),
                MalformedTransaction,
            >((claim_maps_view(nuls, comms, outs), m@)),
        decreases calls@.len() - i,
    {
        let c = &calls[i];
        let eff = if guaranteed {
            &c.guaranteed
        } else {
            &c.fallible
        };
        match eff {
            None => {},
            Some(e) => {
                match claim_effects_exec(&mut nuls, &mut comms, &mut outs, &mut m, i, c.address, e, guaranteed) {
                    Err(f) => {
                        proof {
                            lemma_claim_all_err_prefix(st0, m0, calls@, (i + 1) as nat, calls@.len(), guaranteed);
                        }
                        return Err(f);
                    },
                    Ok(()) => {},
                }
            },
        }
        i = i + 1;
    }
    let nc = comms.size();
    let nn = nuls.size();
    if nc != 0 {
        proof {
            assert(!comms@.dom().is_empty()) by {
                if comms@.dom().is_empty() {
                    assert(comms@.dom() =~= Set::<Owned<Commitment>>::empty());
                }
            }
        }
        return Err(MalformedTransaction::UnclaimedCoinCom(least_commitment_exec(&comms)));
    }
    proof {
        comms@.dom().lemma_len0_is_empty();
        assert(comms@.dom().is_empty());
    }
    if nn != 0 {
        proof {
            assert(!nuls@.dom().is_empty()) by {
                if nuls@.dom().is_empty() {
                    assert(nuls@.dom() =~= Set::<Owned<Nullifier>>::empty());
                }
            }
        }
        return Err(MalformedTransaction::UnclaimedNullifier(least_nullifier_exec(&nuls)));
    }
    proof {
        nuls@.dom().lemma_len0_is_empty();
    }
    Ok(())
}

/// Once a prefix of the claims fails, all of them fail the same way.
proof fn lemma_claim_pairs_err_prefix<T>(s: Set<Owned<T>>, ks: Seq<T>, j: int, addr: Address)
    requires
        0 <= j <= ks.len(),
        claim_pairs(s, ks.take(j), addr) is Err,
    ensures
        claim_pairs(s, ks, addr) == claim_pairs(s, ks.take(j), addr),
    decreases ks.len(),
{
    if j == ks.len() {
        assert(ks.take(j) =~= ks);
    } else {
        assert(ks.drop_last().take(j) =~= ks.take(j));
        lemma_claim_pairs_err_prefix(s, ks.drop_last(), j, addr);
    }
}

/// One of `claims` names the callee `k`.
pub open spec fn claims_key(claims: Seq<ClaimedContractCall>, k: CallKey) -> bool {
    exists|j: int| 0 <= j < claims.len() && (#[trigger] claims[j]).1 == k.0 && claims[j].2 == k.1 && claims[j].3 == k.2
}

/// Where a new call goes among actions named by `keys` (calls by their
/// callee, other actions by nothing): just before the first call it claims,
/// or at the end.
pub open spec fn insert_position(claims: Seq<ClaimedContractCall>, keys: Seq<Option<CallKey>>) -> nat
    decreases keys.len(),
{
    if keys.len() == 0 {
        0
    } else {
        let p = insert_position(claims, keys.drop_last());
        if p < keys.len() - 1 {
            p
        } else if keys.last() matches Some(k) && claims_key(claims, k) {
            (keys.len() - 1) as nat
        } else {
            keys.len() as nat
        }
    }
}

/// Whether one of `claims` names the callee `k`.
fn claims_key_exec(claims: &Vec<ClaimedContractCall>, k: &CallKey) -> (b: bool)
    ensures
        b == claims_key(claims@, *k),
{
    let mut j: usize = 0;
    while j < claims.len()
        invariant
            j <= claims@.len(),
            forall|t: int| 0 <= t < j ==> !((#[trigger] claims@[t]).1 == k.0 && claims@[t].2 == k.1 && claims@[t].3 == k.2),
        decreases claims@.len() - j,
    {
        let c = claims[j];
        if c.1.exact_eq(&k.0) && c.2.exact_eq(&k.1) && c.3.exact_eq(&k.2) {
            return true;
        }
        j = j + 1;
    }
    false
}

/// Adds `call`, whose transcripts claim `claims`, to `actions`, named by
/// `keys`: just before the first call it claims, or at the end.
pub fn insert_call<T>(actions: Vec<T>, keys: &Vec<Option<CallKey>>, call: T, claims: &Vec<ClaimedContractCall>) -> (r:
    Vec<T>)
    requires
        keys@.len() == actions@.len(),
    ensures
        insert_position(claims@, keys@) <= actions@.len(),
        r@ == actions@.insert(insert_position(claims@, keys@) as int, call),
{
    let mut i: usize = 0;
    while i < keys.len()
        invariant
            i <= keys@.len(),
            keys@.len() == actions@.len(),
            insert_position(claims@, keys@.take(i as int)) == i,
        decreases keys@.len() - i,
    {
        proof {
            let t1 = keys@.take(i + 1);
            assert(t1.drop_last() =~= keys@.take(i as int));
        }
        match &keys[i] {
            Some(k) => {
                if claims_key_exec(claims, k) {
                    proof {
                        lemma_insert_position_prefix(claims@, keys@, i + 1);
                    }
                    let mut out = actions;
                    out.insert(i, call);
                    return out;
                }
            },
            None => {},
        }
        i = i + 1;
    }
    assert(keys@.take(keys@.len() as int) =~= keys@);
    let mut out = actions;
    out.push(call);
    assert(out@ =~= actions@.insert(actions@.len() as int, call));
    out
}

/// Once a prefix has a place for the new call, the whole has the same.
proof fn lemma_insert_position_prefix(claims: Seq<ClaimedContractCall>, keys: Seq<Option<CallKey>>, j: int)
    requires
        0 <= j <= keys.len(),
        insert_position(claims, keys.take(j)) < j,
    ensures
        insert_position(claims, keys) == insert_position(claims, keys.take(j)),
        insert_position(claims, keys) < j,
    decreases keys.len(),
{
    if j == keys.len() {
        assert(keys.take(j) =~= keys);
    } else {
        assert(keys.drop_last().take(j) =~= keys.take(j));
        lemma_insert_position_prefix(claims, keys.drop_last(), j);
    }
}

/// The callee a claimed call names.
pub open spec fn claimed_key(c: ClaimedContractCall) -> CallKey {
    CallKey(c.1, c.2, c.3)
}

/// What claiming `cs` in turn takes out of `m`, and the position it ends at.
proof fn lemma_claim_calls_shape(
    m: Map<CallKey, (usize, ContractLifetime)>,
    last: int,
    cs: Seq<ClaimedContractCall>,
    g: bool,
)
    requires
        claim_calls(m, last, cs, g) is Ok,
    ensures
        ({
            let (m2, l) = claim_calls(m, last, cs, g)->Ok_0;
            &&& forall|k: CallKey| #[trigger] m2.contains_key(k) ==> m.contains_key(k) && m2[k] == m[k]
            &&& forall|i: int| 0 <= i < cs.len() ==> !m2.contains_key(claimed_key(#[trigger] cs[i]))
            &&& forall|i: int| 0 <= i < cs.len() ==> {
                &&& m.contains_key(claimed_key(#[trigger] cs[i]))
                &&& claimable_in(m[claimed_key(cs[i])].1, g)
                &&& last < m[claimed_key(cs[i])].0 <= l
            }
            &&& forall|i: int, j: int| 0 <= i < j < cs.len() ==> m[claimed_key(#[trigger] cs[i])].0 < m[claimed_key(
                #[trigger] cs[j],
            )].0
            &&& last <= l
        }),
    decreases cs.len(),
{
    if cs.len() > 0 {
        let p = cs.drop_last();
        lemma_claim_calls_shape(m, last, p, g);
        let (m1, l1) = claim_calls(m, last, p, g)->Ok_0;
        let c = cs.last();
        let k = CallKey(c.1, c.2, c.3);
        assert(m1.contains_key(k));
        let (m2, l) = claim_calls(m, last, cs, g)->Ok_0;
        assert(m2 == m1.remove(k));
        assert(l == m1[k].0);
        assert forall|i: int| 0 <= i < cs.len() - 1 implies #[trigger] cs[i] == p[i] by {}
        assert forall|i: int, j: int| 0 <= i < j < cs.len() implies m[claimed_key(#[trigger] cs[i])].0 < m[claimed_key(
            #[trigger] cs[j],
        )].0 by {
            assert(cs[i] == p[i]);
            if j < cs.len() - 1 {
                assert(cs[j] == p[j]);
            } else {
                assert(m[claimed_key(p[i])].0 <= l1);
            }
        }
        assert forall|i: int| 0 <= i < cs.len() implies !m2.contains_key(claimed_key(#[trigger] cs[i])) by {
            if i < cs.len() - 1 {
                assert(cs[i] == p[i]);
            }
        }
        assert forall|i: int| 0 <= i < cs.len() implies {
            &&& m.contains_key(claimed_key(#[trigger] cs[i]))
            &&& claimable_in(m[claimed_key(cs[i])].1, g)
            &&& last < m[claimed_key(cs[i])].0 <= l
        } by {
            if i < cs.len() - 1 {
                assert(cs[i] == p[i]);
            }
        }
    }
}

/// The calls one call claims, taken in turn, must each name a call not yet
/// claimed that the section may claim, placed after the claiming call, and
/// each after the one claimed before it: their positions strictly increase.
pub proof fn law_claimed_callees_in_order(
    m: Map<CallKey, (usize, ContractLifetime)>,
    last: int,
    cs: Seq<ClaimedContractCall>,
    g: bool,
)
    requires
        claim_calls(m, last, cs, g) is Ok,
    ensures
        forall|i: int|
            0 <= i < cs.len() ==> m.contains_key(claimed_key(#[trigger] cs[i])) && claimable_in(
                m[claimed_key(cs[i])].1,
                g,
            ) && last < m[claimed_key(cs[i])].0,
        forall|i: int, j: int|
            0 <= i < j < cs.len() ==> m[claimed_key(#[trigger] cs[i])].0 < m[claimed_key(#[trigger] cs[j])].0,
{
    lemma_claim_calls_shape(m, last, cs, g);
}

/// Only calls with a transcript in exactly one section can be claimed, and
/// only from that section.
pub proof fn law_claimable_lifetimes(l: ContractLifetime, g: bool)
    ensures
        claimable_in(l, g) <==> (l != ContractLifetime::Both && (l == ContractLifetime::Guaranteed) == g),
{
}

/// The first negative imbalance is negative, is one of the imbalances, and
/// every imbalance before it is not negative; with none negative there is none.
pub proof fn law_first_negative(s: Seq<(TokenType, i128)>)
    ensures
        first_negative(s) matches Some((t, v)) ==> v < 0 && exists|i: int|
            0 <= i < s.len() && #[trigger] s[i] == (t, v) && forall|j: int| 0 <= j < i ==> (#[trigger] s[j]).1 >= 0,
        (forall|i: int| 0 <= i < s.len() ==> (#[trigger] s[i]).1 >= 0) <==> first_negative(s) is None,
    decreases s.len(),
{
    if s.len() > 0 {
        let p = s.drop_last();
        law_first_negative(p);
        assert forall|i: int| 0 <= i < p.len() implies #[trigger] p[i] == s[i] by {}
        match first_negative(p) {
            Some((t, v)) => {
                let i = choose|i: int|
                    0 <= i < p.len() && #[trigger] p[i] == (t, v) && forall|j: int| 0 <= j < i ==> (#[trigger] p[j]).1 >= 0;
                assert(s[i] == (t, v));
                assert forall|j: int| 0 <= j < i implies (#[trigger] s[j]).1 >= 0 by {
                    assert(s[j] == p[j]);
                }
            },
            None => {
                if (forall|i: int| 0 <= i < s.len() ==> (#[trigger] s[i]).1 >= 0) {
                    assert(s[s.len() - 1].1 >= 0);
                }
                if s.last().1 < 0 {
                    let i = s.len() - 1;
                    assert(s[i] == s.last());
                    assert forall|j: int| 0 <= j < i implies (#[trigger] s[j]).1 >= 0 by {
                        assert(s[j] == p[j]);
                    }
                } else {
                    assert forall|j: int| 0 <= j < s.len() implies (#[trigger] s[j]).1 >= 0 by {
                        if j < s.len() - 1 {
                            assert(s[j] == p[j]);
                        }
                    }
                }
            },
        }
    }
}

/// With no token short, enforcing balance changes nothing: a section whose
/// imbalances are all at least zero is judged as if balance were not checked.
pub proof fn law_balanced_segment_not_refused(
    offer: Option<OfferParts>,
    offer_check: Result<(), MalformedTransaction>,
    calls: Seq<CallClaims>,
    imbalances: Seq<(TokenType, i128)>,
    guaranteed: bool,
)
    requires
        forall|i: int| 0 <= i < imbalances.len() ==> (#[trigger] imbalances[i]).1 >= 0,
    ensures
        spec_well_formed_segment(offer, offer_check, calls, imbalances, true, guaranteed) == spec_well_formed_segment(
            offer,
            offer_check,
            calls,
            imbalances,
            false,
            guaranteed,
        ),
{
    law_first_negative(imbalances);
}

/// Claiming keys for `addr` takes each out once: every key was left for
/// `addr`, no key is claimed twice, and what is left afterwards is what was
/// left before without the claimed pairs.
pub proof fn law_claim_pairs_consume<T>(s: Set<Owned<T>>, ks: Seq<T>, addr: Address)
    requires
        claim_pairs(s, ks, addr) is Ok,
    ensures
        forall|i: int| 0 <= i < ks.len() ==> s.contains(Owned(#[trigger] ks[i], addr)),
        ks.no_duplicates(),
        claim_pairs(s, ks, addr)->Ok_0 == s.difference(Set::new(|p: Owned<T>| p.1 == addr && ks.contains(p.0))),
    decreases ks.len(),
{
    if ks.len() > 0 {
        let p = ks.drop_last();
        law_claim_pairs_consume(s, p, addr);
        let s1 = claim_pairs(s, p, addr)->Ok_0;
        let k = ks.last();
        assert forall|i: int| 0 <= i < ks.len() implies s.contains(Owned(#[trigger] ks[i], addr)) by {
            if i < ks.len() - 1 {
                assert(ks[i] == p[i]);
            }
        }
        assert forall|i: int, j: int| 0 <= i < ks.len() && 0 <= j < ks.len() && i != j implies ks[i] != ks[j] by {
            if i < ks.len() - 1 && j < ks.len() - 1 {
                assert(ks[i] == p[i] && ks[j] == p[j]);
            } else if i == ks.len() - 1 {
                assert(ks[j] == p[j]);
                assert(p.contains(ks[j]));
            } else {
                assert(ks[i] == p[i]);
                assert(p.contains(ks[i]));
            }
        }
        assert forall|q: T| #[trigger] ks.contains(q) <==> (p.contains(q) || q == k) by {
            if ks.contains(q) {
                let i = choose|i: int| 0 <= i < ks.len() && ks[i] == q;
                if i < ks.len() - 1 {
                    assert(p[i] == q);
                }
            }
            if p.contains(q) {
                let i = choose|i: int| 0 <= i < p.len() && p[i] == q;
                assert(ks[i] == q);
            }
            if q == k {
                assert(ks[ks.len() - 1] == q);
            }
        }
        assert(claim_pairs(s, ks, addr)->Ok_0 =~= s.difference(
            Set::new(|x: Owned<T>| x.1 == addr && ks.contains(x.0)),
        ));
    }
}

/// Claiming items takes each out once: every item was left, no item is
/// claimed twice, and what is left afterwards is the rest.
pub proof fn law_claim_items_consume<T>(s: Set<T>, ks: Seq<T>)
    requires
        claim_items(s, ks) is Ok,
    ensures
        forall|i: int| 0 <= i < ks.len() ==> s.contains(#[trigger] ks[i]),
        ks.no_duplicates(),
        claim_items(s, ks)->Ok_0 == s.difference(ks.to_set()),
    decreases ks.len(),
{
    if ks.len() > 0 {
        let p = ks.drop_last();
        law_claim_items_consume(s, p);
        let k = ks.last();
        assert forall|i: int| 0 <= i < ks.len() implies s.contains(#[trigger] ks[i]) by {
            if i < ks.len() - 1 {
                assert(ks[i] == p[i]);
            }
        }
        assert forall|i: int, j: int| 0 <= i < ks.len() && 0 <= j < ks.len() && i != j implies ks[i] != ks[j] by {
            if i < ks.len() - 1 && j < ks.len() - 1 {
                assert(ks[i] == p[i] && ks[j] == p[j]);
            } else if i == ks.len() - 1 {
                assert(ks[j] == p[j]);
                assert(p.contains(ks[j]));
            } else {
                assert(ks[i] == p[i]);
                assert(p.contains(ks[i]));
            }
        }
        assert(ks =~= p.push(k));
        p.lemma_push_to_set_commute(k);
        assert(claim_items(s, ks)->Ok_0 =~= s.difference(ks.to_set()));
    }
}

/// A new call goes just before the first action that is a call it claims:
/// none before that place is, and the action at it, if any, is.
pub proof fn law_insert_position(claims: Seq<ClaimedContractCall>, keys: Seq<Option<CallKey>>)
    ensures
        insert_position(claims, keys) <= keys.len(),
        forall|i: int|
            0 <= i < insert_position(claims, keys) ==> !(#[trigger] keys[i] matches Some(k) && claims_key(claims, k)),
        insert_position(claims, keys) < keys.len() ==> (keys[insert_position(claims, keys) as int] matches Some(k)
            && claims_key(claims, k)),
    decreases keys.len(),
{
    if keys.len() > 0 {
        let p = keys.drop_last();
        law_insert_position(claims, p);
        assert forall|i: int| 0 <= i < p.len() implies #[trigger] keys[i] == p[i] by {}
    }
}

/// A call lives in both sections when it has both transcripts, in the
/// fallible one when it has only a fallible transcript, and in the guaranteed
/// one otherwise.
pub proof fn law_lifetime(c: CallClaims)
    ensures
        (spec_lifetime(c) == ContractLifetime::Both) <==> (c.guaranteed is Some && c.fallible is Some),
        (spec_lifetime(c) == ContractLifetime::Fallible) <==> (c.guaranteed is None && c.fallible is Some),
        (spec_lifetime(c) == ContractLifetime::Guaranteed) <==> c.fallible is None,
{
}

} // verus!
