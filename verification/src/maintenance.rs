//! Who may change a contract's operations: its maintenance committee, and the
//! changes a maintenance update can make.
use vstd::prelude::*;
use crate::codec::{
    item_bytes, item_decodable, item_deserialize, lemma_item_roundtrip, lemma_item_size, Deserializable,
    RoundTrip, Serializable,
};
use vstd::relations::{sorted_by, total_ordering};
use crate::bytes::{bytes_le, lemma_lex_antisymmetric, lemma_lex_reflexive, lemma_lex_total, lemma_lex_transitive, lex_le};
use crate::contract::Address;
use crate::signatures::{Signature, VerifyingKey};
use crate::state::{ContractOperationVersion, ContractOperationVersionedVerifierKey, EntryPointBuf};
use crate::versioned::{CodecError, Version, Versioned, RECURSION_LIMIT};

verus! {

/// The committee that may change a contract's operations: its members' keys,
/// how many of them must sign, and how many times the committee was replaced.
#[derive(Clone, Debug, PartialEq, Eq, PartialOrd, Ord, Hash)]
pub struct ContractMaintenanceAuthority {
    pub committee: Vec<VerifyingKey>,
    pub threshold: u32,
    pub counter: u32,
}

impl ContractMaintenanceAuthority {
    /// No committee, a threshold of one, counter zero.
    pub fn new() -> (a: Self)
        ensures
            a.committee@ == Seq::<VerifyingKey>::empty(),
            a.threshold == 1,
            a.counter == 0,
    {
        ContractMaintenanceAuthority { committee: Vec::new(), threshold: 1, counter: 0 }
    }
}

impl Default for ContractMaintenanceAuthority {
    /// The same as `new`.
    fn default() -> (a: Self)
        ensures
            a.committee@ == Seq::<VerifyingKey>::empty(),
            a.threshold == 1,
            a.counter == 0,
    {
        Self::new()
    }
}

/// One change a maintenance update makes.
#[derive(Clone, Debug)]
pub enum SingleUpdate {
    /// Replaces the authority for this contract; later updates in the same
    /// sequence are still carried out.
    ReplaceAuthority(ContractMaintenanceAuthority),
    /// Removes the verifier key of a version of an entry point.
    VerifierKeyRemove(EntryPointBuf, ContractOperationVersion),
    /// Inserts a verifier key for a version of an entry point; an existing key
    /// is not replaced, and must be removed first.
    VerifierKeyInsert(EntryPointBuf, ContractOperationVersionedVerifierKey),
}

impl DeepView for ContractMaintenanceAuthority {
    type V = (Seq<VerifyingKey>, u32, u32);

    open spec fn deep_view(&self) -> (Seq<VerifyingKey>, u32, u32) {
        (self.committee.deep_view(), self.threshold, self.counter)
    }
}

impl Versioned for ContractMaintenanceAuthority {
    open spec fn obeys_codec_spec() -> bool {
        true
    }

    open spec fn spec_version() -> Option<Version> {
        Some(Version { major: 1, minor: 0 })
    }

    open spec fn spec_network_specific() -> bool {
        true
    }

    open spec fn spec_limit_recursion() -> bool {
        false
    }

    fn version() -> (r: Option<Version>) {
        Some(Version { major: 1, minor: 0 })
    }

    fn network_specific() -> (r: bool) {
        true
    }

    fn limit_recursion() -> (r: bool) {
        false
    }
}

impl Serializable for ContractMaintenanceAuthority {
    open spec fn spec_serializable(v: (Seq<VerifyingKey>, u32, u32)) -> bool {
        true
    }

    /// The committee, the threshold, then the counter.
    open spec fn spec_unversioned(v: (Seq<VerifyingKey>, u32, u32)) -> Seq<u8> {
        item_bytes::<Vec<VerifyingKey>>(v.0) + item_bytes::<u32>(v.1) + item_bytes::<u32>(v.2)
    }

    open spec fn spec_unversioned_size(v: (Seq<VerifyingKey>, u32, u32)) -> nat {
        4 + 34 * v.0.len() + 8
    }

    fn unversioned_serialize(value: &ContractMaintenanceAuthority, out: &mut Vec<u8>) -> (r: Result<
        (),
        CodecError,
    >) {
        let ghost start = out@;
        <Vec<VerifyingKey> as Serializable>::serialize(&value.committee, out)?;
        <u32 as Serializable>::serialize(&value.threshold, out)?;
        <u32 as Serializable>::serialize(&value.counter, out)?;
        assert(out@ =~= start + Self::spec_unversioned(value.deep_view()));
        Ok(())
    }

    fn unversioned_serialized_size(value: &ContractMaintenanceAuthority) -> (n: usize) {
        proof {
            lemma_committee_size(value.committee.deep_view());
        }
        <Vec<VerifyingKey> as Serializable>::serialized_size(&value.committee) + <u32 as Serializable>::serialized_size(
            &value.threshold,
        ) + <u32 as Serializable>::serialized_size(&value.counter)
    }
}

/// A committee of `n` keys is reported to take 4 bytes plus 34 per key.
pub proof fn lemma_committee_size(s: Seq<VerifyingKey>)
    ensures
        crate::containers::seq_size::<VerifyingKey>(s) == 34 * s.len(),
    decreases s.len(),
{
    if s.len() > 0 {
        lemma_committee_size(s.drop_last());
    }
}

impl Deserializable for ContractMaintenanceAuthority {
    /// Version 1.0 only: the committee, the threshold, then the counter.
    open spec fn spec_versioned_deserialize(data: Seq<u8>, version: Option<Version>, depth: u32) -> Option<
        ((Seq<VerifyingKey>, u32, u32), nat),
    > {
        if version != Some(Version { major: 1, minor: 0 }) {
            None
        } else {
            match item_deserialize::<Vec<VerifyingKey>>(data, depth) {
                None => None,
                Some((committee, a)) => match item_deserialize::<u32>(data.skip(a as int), depth) {
                    None => None,
                    Some((threshold, b)) => match item_deserialize::<u32>(data.skip((a + b) as int), depth) {
                        None => None,
                        Some((counter, c)) => Some(((committee, threshold, counter), a + b + c)),
                    },
                },
            }
        }
    }

    open spec fn spec_decodable(v: (Seq<VerifyingKey>, u32, u32), depth: u32) -> bool {
        &&& depth <= RECURSION_LIMIT
        &&& item_decodable::<Vec<VerifyingKey>>(v.0, depth)
    }

    fn versioned_deserialize(data: &[u8], pos: &mut usize, version: Option<Version>, depth: u32) -> (r: Result<
        ContractMaintenanceAuthority,
        CodecError,
    >) {
        match version {
            Some(Version { major: 1, minor: 0 }) => {
                let ghost start = *pos;
                let committee = <Vec<VerifyingKey> as Deserializable>::deserialize(data, pos, depth)?;
                let ghost p1 = *pos;
                assert(data@.skip(p1 as int) =~= data@.skip(start as int).skip(p1 - start));
                let threshold = <u32 as Deserializable>::deserialize(data, pos, depth)?;
                let ghost p2 = *pos;
                assert(data@.skip(p2 as int) =~= data@.skip(start as int).skip(p2 - start));
                let counter = <u32 as Deserializable>::deserialize(data, pos, depth)?;
                Ok(ContractMaintenanceAuthority { committee, threshold, counter })
            },
            _ => Err(CodecError::UnsupportedVersion),
        }
    }
}

impl RoundTrip for ContractMaintenanceAuthority {
    proof fn lemma_unversioned_roundtrip(v: (Seq<VerifyingKey>, u32, u32), rest: Seq<u8>, depth: u32) {
        let a = item_bytes::<Vec<VerifyingKey>>(v.0);
        let b = item_bytes::<u32>(v.1);
        let c = item_bytes::<u32>(v.2);
        lemma_item_roundtrip::<Vec<VerifyingKey>>(v.0, b + c + rest, depth);
        lemma_item_roundtrip::<u32>(v.1, c + rest, depth);
        lemma_item_roundtrip::<u32>(v.2, rest, depth);
        let data = a + b + c + rest;
        assert(data =~= a + (b + c + rest));
        assert(data.skip(a.len() as int) =~= b + (c + rest));
        assert(data.skip((a.len() + b.len()) as int) =~= c + rest);
    }

    proof fn lemma_unversioned_size(v: (Seq<VerifyingKey>, u32, u32)) {
        lemma_item_size::<Vec<VerifyingKey>>(v.0);
        lemma_item_size::<u32>(v.1);
        lemma_item_size::<u32>(v.2);
        lemma_committee_size(v.0);
    }
}


/// What a single update holds, with every vector taken by its contents.
pub enum UpdateModel {
    ReplaceAuthority((Seq<VerifyingKey>, u32, u32)),
    VerifierKeyRemove(Seq<u8>, ContractOperationVersion),
    VerifierKeyInsert(Seq<u8>, Seq<u8>),
}

impl DeepView for SingleUpdate {
    type V = UpdateModel;

    open spec fn deep_view(&self) -> UpdateModel {
        match self {
            SingleUpdate::ReplaceAuthority(a) => UpdateModel::ReplaceAuthority(a.deep_view()),
            SingleUpdate::VerifierKeyRemove(ep, ver) => UpdateModel::VerifierKeyRemove(ep.0@, *ver),
            SingleUpdate::VerifierKeyInsert(ep, vk) => UpdateModel::VerifierKeyInsert(ep.0@, vk.deep_view()),
        }
    }
}

impl Versioned for SingleUpdate {
    open spec fn obeys_codec_spec() -> bool {
        true
    }

    open spec fn spec_version() -> Option<Version> {
        None
    }

    open spec fn spec_network_specific() -> bool {
        false
    }

    open spec fn spec_limit_recursion() -> bool {
        false
    }

    fn version() -> (r: Option<Version>) {
        None
    }

    fn network_specific() -> (r: bool) {
        false
    }

    fn limit_recursion() -> (r: bool) {
        false
    }
}

impl Serializable for SingleUpdate {
    open spec fn spec_serializable(v: UpdateModel) -> bool {
        true
    }

    /// A discriminant byte (0 replace, 1 remove, 2 insert), then the fields in order.
    open spec fn spec_unversioned(v: UpdateModel) -> Seq<u8> {
        match v {
            UpdateModel::ReplaceAuthority(a) => item_bytes::<u8>(0u8) + item_bytes::<ContractMaintenanceAuthority>(a),
            UpdateModel::VerifierKeyRemove(ep, ver) => item_bytes::<u8>(1u8) + item_bytes::<EntryPointBuf>(ep)
                + item_bytes::<ContractOperationVersion>(ver),
            UpdateModel::VerifierKeyInsert(ep, vk) => item_bytes::<u8>(2u8) + item_bytes::<EntryPointBuf>(ep)
                + item_bytes::<ContractOperationVersionedVerifierKey>(vk),
        }
    }

    open spec fn spec_unversioned_size(v: UpdateModel) -> nat {
        match v {
            UpdateModel::ReplaceAuthority(a) => 1 + (2 + 4 + 34 * a.0.len() + 8),
            UpdateModel::VerifierKeyRemove(ep, ver) => 1 + (4 + ep.len()) + 1,
            UpdateModel::VerifierKeyInsert(ep, vk) => 1 + (4 + ep.len()) + (1 + vk.len()),
        }
    }

    fn unversioned_serialize(value: &SingleUpdate, out: &mut Vec<u8>) -> (r: Result<(), CodecError>) {
        let ghost start = out@;
        match value {
            SingleUpdate::ReplaceAuthority(a) => {
                <u8 as Serializable>::serialize(&0u8, out)?;
                <ContractMaintenanceAuthority as Serializable>::serialize(a, out)?;
            },
            SingleUpdate::VerifierKeyRemove(ep, ver) => {
                <u8 as Serializable>::serialize(&1u8, out)?;
                <EntryPointBuf as Serializable>::serialize(ep, out)?;
                <ContractOperationVersion as Serializable>::serialize(ver, out)?;
            },
            SingleUpdate::VerifierKeyInsert(ep, vk) => {
                <u8 as Serializable>::serialize(&2u8, out)?;
                <EntryPointBuf as Serializable>::serialize(ep, out)?;
                <ContractOperationVersionedVerifierKey as Serializable>::serialize(vk, out)?;
            },
        }
        assert(out@ =~= start + Self::spec_unversioned(value.deep_view()));
        Ok(())
    }

    fn unversioned_serialized_size(value: &SingleUpdate) -> (n: usize) {
        match value {
            SingleUpdate::ReplaceAuthority(a) => 1 + <ContractMaintenanceAuthority as Serializable>::serialized_size(a),
            SingleUpdate::VerifierKeyRemove(ep, ver) => 1 + <EntryPointBuf as Serializable>::serialized_size(ep)
                + <ContractOperationVersion as Serializable>::serialized_size(ver),
            SingleUpdate::VerifierKeyInsert(ep, vk) => 1 + <EntryPointBuf as Serializable>::serialized_size(ep)
                + <ContractOperationVersionedVerifierKey as Serializable>::serialized_size(vk),
        }
    }
}

/// A signed sequence of changes to a contract's operations or committee. The
/// signatures are by committee members, each with the member's index.
#[derive(Debug)]
pub struct MaintenanceUpdate {
    pub address: Address,
    pub updates: Vec<SingleUpdate>,
    pub counter: u32,
    pub signatures: Vec<(u32, Signature)>,
}

/// The domain separator the committee signs an update under: "midnight:contract-update:".
pub open spec fn update_domain() -> Seq<u8> {
    seq![
        109u8, 105, 100, 110, 105, 103, 104, 116, 58, 99, 111, 110, 116, 114, 97, 99, 116, 45, 117, 112, 100,
        97, 116, 101, 58,
    ]
}

/// The message the committee signs for an update: the domain separator, then the
/// address, the updates and the counter as written by the binary format.
pub open spec fn spec_data_to_sign(address: Address, updates: Seq<UpdateModel>, counter: u32) -> Seq<u8> {
    update_domain() + item_bytes::<Address>(address) + item_bytes::<Vec<SingleUpdate>>(updates)
        + item_bytes::<u32>(counter)
}

impl MaintenanceUpdate {
    /// An unsigned update of the contract at `address`.
    pub fn new(address: Address, updates: Vec<SingleUpdate>, counter: u32) -> (u: Self)
        ensures
            u.address == address,
            u.updates == updates,
            u.counter == counter,
            u.signatures@ == Seq::<(u32, Signature)>::empty(),
    {
        MaintenanceUpdate { address, updates, counter, signatures: Vec::new() }
    }

    /// The message the committee signs.
    pub fn data_to_sign(&self) -> (data: Vec<u8>)
        ensures
            data@ == spec_data_to_sign(self.address, self.updates.deep_view(), self.counter),
    {
        let domain: [u8; 25] = [
            109u8, 105, 100, 110, 105, 103, 104, 116, 58, 99, 111, 110, 116, 114, 97, 99, 116, 45, 117, 112, 100,
            97, 116, 101, 58,
        ];
        let mut data: Vec<u8> = Vec::new();
        let mut i: usize = 0;
        while i < 25
            invariant
                i <= 25,
                data@ == domain@.take(i as int),
            decreases 25 - i,
        {
            data.push(domain[i]);
            assert(domain@.take(i + 1) =~= domain@.take(i as int).push(domain@[i as int]));
            i = i + 1;
        }
        assert(data@ =~= update_domain());
        let ghost d0 = data@;
        let r1 = <Address as Serializable>::serialize(&self.address, &mut data);
        let r2 = <Vec<SingleUpdate> as Serializable>::serialize(&self.updates, &mut data);
        let r3 = <u32 as Serializable>::serialize(&self.counter, &mut data);
        assert(data@ =~= spec_data_to_sign(self.address, self.updates.deep_view(), self.counter));
        data
    }
}


/// The order of signed entries: by member index, then by the signature's bytes.
pub open spec fn signed_le(x: (u32, Signature), y: (u32, Signature)) -> bool {
    x.0 < y.0 || (x.0 == y.0 && lex_le(x.1@, y.1@))
}

/// The order of signed entries, as a relation.
pub open spec fn signature_order() -> spec_fn((u32, Signature), (u32, Signature)) -> bool {
    |x: (u32, Signature), y: (u32, Signature)| signed_le(x, y)
}

/// The order of signed entries is a total order.
pub proof fn lemma_signature_order_total()
    ensures
        total_ordering(signature_order()),
{
    broadcast use vstd::array::group_array_axioms;

    let r = signature_order();
    assert forall|x: (u32, Signature)| #[trigger] r(x, x) by {
        lemma_lex_reflexive(x.1@);
    }
    assert forall|x: (u32, Signature), y: (u32, Signature)| #[trigger] r(x, y) && #[trigger] r(y, x) implies x
        == y by {
        crate::signatures::lemma_signature_len(x.1);
        crate::signatures::lemma_signature_len(y.1);
        lemma_lex_antisymmetric(x.1@, y.1@);
        crate::signatures::lemma_signature_view_injective(x.1, y.1);
    }
    assert forall|x: (u32, Signature), y: (u32, Signature), z: (u32, Signature)| #[trigger] r(x, y) && #[trigger] r(
        y,
        z,
    ) implies r(x, z) by {
        if x.0 == y.0 && y.0 == z.0 {
            crate::signatures::lemma_signature_len(x.1);
            crate::signatures::lemma_signature_len(y.1);
            crate::signatures::lemma_signature_len(z.1);
            lemma_lex_transitive(x.1@, y.1@, z.1@);
        }
    }
    assert forall|x: (u32, Signature), y: (u32, Signature)| #[trigger] r(x, y) || #[trigger] r(y, x) by {
        crate::signatures::lemma_signature_len(x.1);
        crate::signatures::lemma_signature_len(y.1);
        lemma_lex_total(x.1@, y.1@);
    }
}

/// Whether `x` comes no later than `y` among signed entries.
fn signed_le_exec(x: &(u32, Signature), y: &(u32, Signature)) -> (b: bool)
    ensures
        b == signed_le(*x, *y),
{
    if x.0 != y.0 {
        x.0 < y.0
    } else {
        bytes_le(x.1.as_bytes(), y.1.as_bytes())
    }
}

/// The entries of `v` in signed-entry order.
fn sort_signatures(v: Vec<(u32, Signature)>) -> (r: Vec<(u32, Signature)>)
    ensures
        r@ == v@.sort_by(signature_order()),
{
    let ghost ord = signature_order();
    proof {
        lemma_signature_order_total();
    }
    let mut out: Vec<(u32, Signature)> = Vec::new();
    let mut i: usize = 0;
    assert(v@.take(0) =~= Seq::<(u32, Signature)>::empty());
    while i < v.len()
        invariant
            i <= v@.len(),
            ord == signature_order(),
            total_ordering(ord),
            sorted_by(out@, ord),
            out@.to_multiset() == v@.take(i as int).to_multiset(),
        decreases v@.len() - i,
    {
        let x = v[i];
        let mut p: usize = 0;
        while p < out.len() && signed_le_exec(&out[p], &x)
            invariant
                p <= out@.len(),
                forall|q: int| 0 <= q < p ==> signed_le(#[trigger] out@[q], x),
            decreases out@.len() - p,
        {
            p = p + 1;
        }
        let ghost old_out = out@;
        out.insert(p, x);
        proof {
            let s = out@;
            assert(s == old_out.insert(p as int, x));
            assert forall|a: int, b: int| 0 <= a < b < s.len() implies #[trigger] ord(s[a], s[b]) by {
                if b < p {
                    assert(ord(old_out[a], old_out[b]));
                } else if b == p {
                    assert(signed_le(old_out[a], x));
                } else if a < p {
                    assert(ord(old_out[a], old_out[b - 1]));
                } else if a == p {
                    assert(p < old_out.len());
                    assert(!signed_le(old_out[p as int], x));
                    assert(ord(old_out[p as int], x) || ord(x, old_out[p as int]));
                    assert(ord(x, old_out[p as int]));
                    if b - 1 > p {
                        assert(ord(old_out[p as int], old_out[b - 1]));
                    }
                } else {
                    assert(ord(old_out[a - 1], old_out[b - 1]));
                }
            }
            assert(v@.take(i + 1) =~= v@.take(i as int).push(x));
            vstd::seq_lib::to_multiset_insert(old_out, p as int, x);
            vstd::seq_lib::to_multiset_build(v@.take(i as int), x);
        }
        i = i + 1;
    }
    proof {
        assert(v@.take(v@.len() as int) =~= v@);
        v@.lemma_sort_by_ensures(ord);
        vstd::seq_lib::lemma_sorted_unique(out@, v@.sort_by(ord), ord);
    }
    out
}

impl MaintenanceUpdate {
    /// Adds the signature of committee member `idx`, keeping the signatures in
    /// signed-entry order.
    pub fn add_signature(self, idx: u32, signature: Signature) -> (u: Self)
        ensures
            u.address == self.address,
            u.updates == self.updates,
            u.counter == self.counter,
            u.signatures@ == self.signatures@.push((idx, signature)).sort_by(signature_order()),
    {
        let MaintenanceUpdate { address, updates, counter, signatures } = self;
        let mut signatures = signatures;
        signatures.push((idx, signature));
        let signatures = sort_signatures(signatures);
        MaintenanceUpdate { address, updates, counter, signatures }
    }
}


/// Signatures may be added in any order: adding two in either order gives the
/// same signatures.
pub proof fn law_signature_order_irrelevant(sigs: Seq<(u32, Signature)>, x: (u32, Signature), y: (u32, Signature))
    ensures
        sigs.push(x).sort_by(signature_order()).push(y).sort_by(signature_order())
            == sigs.push(y).sort_by(signature_order()).push(x).sort_by(signature_order()),
{
    broadcast use vstd::seq_lib::to_multiset_build;

    let o = signature_order();
    lemma_signature_order_total();
    let a1 = sigs.push(x).sort_by(o);
    let a2 = a1.push(y).sort_by(o);
    let b1 = sigs.push(y).sort_by(o);
    let b2 = b1.push(x).sort_by(o);
    sigs.push(x).lemma_sort_by_ensures(o);
    a1.push(y).lemma_sort_by_ensures(o);
    sigs.push(y).lemma_sort_by_ensures(o);
    b1.push(x).lemma_sort_by_ensures(o);
    assert(a2.to_multiset() =~= sigs.to_multiset().insert(x).insert(y));
    assert(b2.to_multiset() =~= sigs.to_multiset().insert(y).insert(x));
    assert(sigs.to_multiset().insert(x).insert(y) =~= sigs.to_multiset().insert(y).insert(x));
    vstd::seq_lib::lemma_sorted_unique(a2, b2, o);
}


/// What a maintenance update holds, with every vector taken by its contents.
pub struct MaintenanceModel {
    pub address: Address,
    pub updates: Seq<UpdateModel>,
    pub counter: u32,
    pub signatures: Seq<(u32, Signature)>,
}

impl DeepView for MaintenanceUpdate {
    type V = MaintenanceModel;

    open spec fn deep_view(&self) -> MaintenanceModel {
        MaintenanceModel {
            address: self.address,
            updates: self.updates.deep_view(),
            counter: self.counter,
            signatures: self.signatures.deep_view(),
        }
    }
}

impl Versioned for MaintenanceUpdate {
    open spec fn obeys_codec_spec() -> bool {
        true
    }

    open spec fn spec_version() -> Option<Version> {
        Some(Version { major: 1, minor: 0 })
    }

    open spec fn spec_network_specific() -> bool {
        true
    }

    open spec fn spec_limit_recursion() -> bool {
        false
    }

    fn version() -> (r: Option<Version>) {
        Some(Version { major: 1, minor: 0 })
    }

    fn network_specific() -> (r: bool) {
        true
    }

    fn limit_recursion() -> (r: bool) {
        false
    }
}

impl Serializable for MaintenanceUpdate {
    open spec fn spec_serializable(v: MaintenanceModel) -> bool {
        true
    }

    /// The address, the updates, the counter, then the signatures.
    open spec fn spec_unversioned(v: MaintenanceModel) -> Seq<u8> {
        item_bytes::<Address>(v.address) + item_bytes::<Vec<SingleUpdate>>(v.updates) + item_bytes::<u32>(v.counter)
            + item_bytes::<Vec<(u32, Signature)>>(v.signatures)
    }

    open spec fn spec_unversioned_size(v: MaintenanceModel) -> nat {
        crate::codec::item_size::<Address>(v.address) + crate::codec::item_size::<Vec<SingleUpdate>>(v.updates)
            + crate::codec::item_size::<u32>(v.counter) + crate::codec::item_size::<Vec<(u32, Signature)>>(
            v.signatures,
        )
    }

    fn unversioned_serialize(value: &MaintenanceUpdate, out: &mut Vec<u8>) -> (r: Result<(), CodecError>) {
        let ghost start = out@;
        <Address as Serializable>::serialize(&value.address, out)?;
        <Vec<SingleUpdate> as Serializable>::serialize(&value.updates, out)?;
        <u32 as Serializable>::serialize(&value.counter, out)?;
        <Vec<(u32, Signature)> as Serializable>::serialize(&value.signatures, out)?;
        assert(out@ =~= start + Self::spec_unversioned(value.deep_view()));
        Ok(())
    }

    fn unversioned_serialized_size(value: &MaintenanceUpdate) -> (n: usize) {
        <Address as Serializable>::serialized_size(&value.address) + <Vec<SingleUpdate> as Serializable>::serialized_size(
            &value.updates,
        ) + <u32 as Serializable>::serialized_size(&value.counter) + <Vec<(u32, Signature)> as Serializable>::serialized_size(
            &value.signatures,
        )
    }
}

} // verus!
