//! Contract state values, entry points and the verifier keys of contract operations.
use vstd::prelude::*;
use vstd::arithmetic::power2::pow2;
use crate::bytes::copy_vec;
use crate::codec::{
    item_bytes, item_decodable, item_deserialize, lemma_item_roundtrip, lemma_item_size, Deserializable,
    RoundTrip, Serializable,
};
use crate::compact::{
    compact_bytes, int_size, law_int_roundtrip, law_int_size, read_int, read_int_error, spec_int_size, spec_read_int,
    write_int,
    MAX_COMPACT_INT,
};
use crate::hash::{
    commit_preimage, hash_of_bytes, lemma_hash_of_bytes, persistent_commit, sha256, BinaryHashRepr, HashOutput,
};
use crate::versioned::{CodecError, Version, Versioned};

verus! {

/// A field-aligned value, held as the bytes of its encoding.
#[derive(Clone, Debug)]
pub struct AlignedValue(pub Vec<u8>);

/// A Merkle tree of bounded height, held as its height and its non-empty
/// leaves (index and hash), by increasing index.
#[derive(Clone, Debug)]
pub struct BoundedMerkleTree {
    pub height: u8,
    pub leaves: Vec<(u64, HashOutput)>,
}

/// The bytes of Merkle tree leaves: for each, its compact index, then its 32 hash bytes.
pub open spec fn leaves_bytes(s: Seq<(u64, HashOutput)>) -> Seq<u8>
    decreases s.len(),
{
    if s.len() == 0 {
        Seq::empty()
    } else {
        leaves_bytes(s.drop_last()) + compact_bytes(s.last().0) + s.last().1.0@
    }
}

/// The size the leaves are reported to take: for each, the size of its compact index plus 32.
pub open spec fn leaves_size(s: Seq<(u64, HashOutput)>) -> nat
    decreases s.len(),
{
    if s.len() == 0 {
        0
    } else {
        leaves_size(s.drop_last()) + spec_int_size(s.last().0) + 32
    }
}

/// Each leaf is reported to take at most 36 bytes.
pub proof fn lemma_leaves_size_bound(s: Seq<(u64, HashOutput)>)
    ensures
        leaves_size(s) <= 36 * s.len(),
    decreases s.len(),
{
    if s.len() > 0 {
        lemma_leaves_size_bound(s.drop_last());
    }
}

/// The reported size of leaves with encodable indices is the length of their bytes.
pub proof fn lemma_leaves_size(s: Seq<(u64, HashOutput)>)
    requires
        forall|i: int| 0 <= i < s.len() ==> s[i].0 <= MAX_COMPACT_INT,
    ensures
        leaves_size(s) == leaves_bytes(s).len(),
    decreases s.len(),
{
    if s.len() > 0 {
        lemma_leaves_size(s.drop_last());
        law_int_size(s.last().0);
    }
}

/// The tag byte of a Merkle tree of height `h` in `1..=32`: `0b110` then `h - 1`.
pub open spec fn tree_tag(h: u8) -> u8 {
    (0xC0 + h - 1) as u8
}

/// Reading `k` leaves from the front of `data`, each index at most `max`:
/// the leaves and the bytes used.
pub open spec fn read_leaves(data: Seq<u8>, k: nat, max: int) -> Option<(Seq<(u64, HashOutput)>, nat)>
    decreases k,
{
    if k == 0 {
        Some((Seq::empty(), 0))
    } else {
        match read_leaves(data, (k - 1) as nat, max) {
            None => None,
            Some((s, used)) => match spec_read_int(data.skip(used as int)) {
                None => None,
                Some((i, a)) => if i > max || data.len() < used + a + 32 {
                    None
                } else {
                    Some(
                        (
                            s.push((i, hash_of_bytes(data.subrange((used + a) as int, (used + a + 32) as int)))),
                            used + a + 32,
                        ),
                    )
                },
            },
        }
    }
}

/// Leaves whose indices strictly increase.
pub open spec fn increasing_leaves(s: Seq<(u64, HashOutput)>) -> bool {
    forall|i: int, j: int| 0 <= i < j < s.len() ==> s[i].0 < s[j].0
}

/// What reading a tagged Merkle tree from the front of `data` gives: its
/// height, its leaves and the bytes used. The tag gives the height; then come
/// the leaf count and the leaves, whose indices must fit the height and
/// strictly increase.
pub open spec fn read_tree(data: Seq<u8>) -> Option<(u8, Seq<(u64, HashOutput)>, nat)> {
    if data.len() < 1 || data[0] < 0xC0 || data[0] > 0xDF {
        None
    } else {
        let h = (data[0] - 0xC0 + 1) as u8;
        match spec_read_int(data.skip(1)) {
            None => None,
            Some((n, a)) => match read_leaves(data.skip(1 + a as int), n as nat, pow2(h as nat) - 1) {
                None => None,
                Some((s, b)) => if increasing_leaves(s) {
                    Some((h, s, 1 + a + b))
                } else {
                    None
                },
            },
        }
    }
}

/// Why reading one leaf from the front of `rest` fails: the index's own error,
/// an index past `max` (invalid data), or too few hash bytes.
pub open spec fn leaf_error(rest: Seq<u8>, max: int) -> CodecError {
    match spec_read_int(rest) {
        None => read_int_error(rest),
        Some((i, a)) => if i > max {
            CodecError::InvalidData
        } else {
            CodecError::UnexpectedEndOfInput
        },
    }
}

/// Why reading `k` leaves from the front of `data` fails: the error of the
/// first leaf that cannot be read.
pub open spec fn leaves_error(data: Seq<u8>, k: nat, max: int) -> CodecError
    decreases k,
{
    if k == 0 {
        CodecError::UnexpectedEndOfInput
    } else {
        match read_leaves(data, (k - 1) as nat, max) {
            None => leaves_error(data, (k - 1) as nat, max),
            Some((s, used)) => leaf_error(data.skip(used as int), max),
        }
    }
}

/// Why reading a tagged Merkle tree from the front of `data` fails: no byte at
/// all; a tag that is not a tree's (invalid data); the leaf count's or a leaf's
/// error; or indices that do not strictly increase (invalid data).
pub open spec fn tree_error(data: Seq<u8>) -> CodecError {
    if data.len() < 1 {
        CodecError::UnexpectedEndOfInput
    } else if data[0] < 0xC0 || data[0] > 0xDF {
        CodecError::InvalidData
    } else {
        let h = (data[0] - 0xC0 + 1) as u8;
        match spec_read_int(data.skip(1)) {
            None => read_int_error(data.skip(1)),
            Some((n, a)) => match read_leaves(data.skip(1 + a as int), n as nat, pow2(h as nat) - 1) {
                None => leaves_error(data.skip(1 + a as int), n as nat, pow2(h as nat) - 1),
                Some(_) => CodecError::InvalidData,
            },
        }
    }
}

/// The state of a contract: nothing, a cell, a map, an array or a bounded Merkle tree.
#[derive(Debug)]
pub enum StateValue {
    Null,
    Cell(AlignedValue),
    Mapping(Vec<(AlignedValue, StateValue)>),
    Array(Vec<StateValue>),
    BoundedMerkleTree(BoundedMerkleTree),
}

/// What a state value holds, with every vector taken by its contents.
pub enum StateModel {
    Null,
    Cell(Seq<u8>),
    Mapping(Seq<(Seq<u8>, StateModel)>),
    Array(Seq<StateModel>),
    BoundedMerkleTree(u8, Seq<(u64, HashOutput)>),
}

/// A state model whose maps hold each key once, all the way down.
pub open spec fn state_model_wf(m: StateModel) -> bool
    decreases m,
{
    match m {
        StateModel::Mapping(es) => {
            &&& forall|i: int, j: int| 0 <= i < j < es.len() ==> #[trigger] es[i].0 != #[trigger] es[j].0
            &&& forall|i: int| 0 <= i < es.len() ==> state_model_wf(#[trigger] es[i].1)
        },
        StateModel::Array(xs) => forall|i: int| 0 <= i < xs.len() ==> state_model_wf(#[trigger] xs[i]),
        _ => true,
    }
}

impl StateValue {
    /// The contents of the value.
    pub open spec fn model(&self) -> StateModel
        decreases self,
    {
        match self {
            StateValue::Null => StateModel::Null,
            StateValue::Cell(c) => StateModel::Cell(c.0@),
            StateValue::Mapping(m) => StateModel::Mapping(
                Seq::new(
                    m@.len(),
                    |i: int|
                        if 0 <= i < m@.len() {
                            (m@[i].0.0@, m@[i].1.model())
                        } else {
                            (Seq::empty(), StateModel::Null)
                        },
                ),
            ),
            StateValue::Array(a) => StateModel::Array(
                Seq::new(
                    a@.len(),
                    |i: int|
                        if 0 <= i < a@.len() {
                            a@[i].model()
                        } else {
                            StateModel::Null
                        },
                ),
            ),
            StateValue::BoundedMerkleTree(t) => StateModel::BoundedMerkleTree(t.height, t.leaves@),
        }
    }
}

impl StateValue {
    /// Each map holds each key once, all the way down.
    pub open spec fn wf(&self) -> bool {
        state_model_wf(self.model())
    }
}

impl AlignedValue {
    /// A copy, byte for byte.
    pub fn duplicate(&self) -> (r: Self)
        ensures
            r.0@ == self.0@,
    {
        AlignedValue(copy_vec(&self.0))
    }
}

impl StateValue {
    /// A copy, all the way down.
    pub fn duplicate(&self) -> (r: Self)
        ensures
            r.model() == self.model(),
        decreases self,
    {
        match self {
            StateValue::Null => StateValue::Null,
            StateValue::Cell(c) => StateValue::Cell(c.duplicate()),
            StateValue::Mapping(m) => {
                let mut out: Vec<(AlignedValue, StateValue)> = Vec::new();
                let mut i: usize = 0;
                while i < m.len()
                    invariant
                        *self == StateValue::Mapping(*m),
                        i <= m@.len(),
                        out@.len() == i,
                        forall|j: int|
                            0 <= j < i ==> (#[trigger] out@[j]).0.0@ == m@[j].0.0@ && out@[j].1.model()
                                == m@[j].1.model(),
                    decreases m@.len() - i,
                {
                    proof {
                        vstd::std_specs::vec::axiom_vec_index_decreases(*m, i as int);
                        assert(decreases_to!(*self => self->Mapping_0));
                        assert(decreases_to!(m@[i as int] => m@[i as int].1));
                        assert(decreases_to!(*self => m@[i as int].1));
                    }
                    let k = m[i].0.duplicate();
                    let v = m[i].1.duplicate();
                    out.push((k, v));
                    i = i + 1;
                }
                let r = StateValue::Mapping(out);
                proof {
                    let x = r.model()->Mapping_0;
                    let y = self.model()->Mapping_0;
                    assert(x =~= y);
                }
                r
            },
            StateValue::Array(a) => {
                let mut out: Vec<StateValue> = Vec::new();
                let mut i: usize = 0;
                while i < a.len()
                    invariant
                        *self == StateValue::Array(*a),
                        i <= a@.len(),
                        out@.len() == i,
                        forall|j: int| 0 <= j < i ==> (#[trigger] out@[j]).model() == a@[j].model(),
                    decreases a@.len() - i,
                {
                    proof {
                        vstd::std_specs::vec::axiom_vec_index_decreases(*a, i as int);
                        assert(decreases_to!(*self => self->Array_0));
                        assert(decreases_to!(*self => a@[i as int]));
                    }
                    let v = a[i].duplicate();
                    out.push(v);
                    i = i + 1;
                }
                let r = StateValue::Array(out);
                proof {
                    let x = r.model()->Array_0;
                    let y = self.model()->Array_0;
                    assert(x =~= y);
                }
                r
            },
            StateValue::BoundedMerkleTree(t) => StateValue::BoundedMerkleTree(
                BoundedMerkleTree { height: t.height, leaves: copy_vec(&t.leaves) },
            ),
        }
    }
}

impl From<AlignedValue> for StateValue {
    /// A cell holding the value.
    fn from(val: AlignedValue) -> (r: StateValue) {
        StateValue::Cell(val)
    }
}

impl vstd::std_specs::convert::FromSpecImpl<AlignedValue> for StateValue {
    open spec fn obeys_from_spec() -> bool {
        true
    }

    open spec fn from_spec(val: AlignedValue) -> StateValue {
        StateValue::Cell(val)
    }
}

impl BoundedMerkleTree {
    /// Leaves by strictly increasing index, each below `2^height`.
    pub open spec fn wf(&self) -> bool {
        &&& increasing_leaves(self.leaves@)
        &&& forall|i: int| 0 <= i < self.leaves@.len() ==> self.leaves@[i].0 < pow2(self.height as nat)
    }

    /// Whether the tree can be written: a height in `1..=32`, and a leaf count
    /// and leaf indices the compact encoding holds.
    pub open spec fn spec_encodable(&self) -> bool {
        &&& 1 <= self.height <= 32
        &&& self.leaves@.len() <= MAX_COMPACT_INT
        &&& forall|i: int| 0 <= i < self.leaves@.len() ==> self.leaves@[i].0 <= MAX_COMPACT_INT
    }

    /// The bytes the tree is written as: its tag, its leaf count, its leaves.
    pub open spec fn spec_bytes(&self) -> Seq<u8> {
        seq![tree_tag(self.height)] + compact_bytes(self.leaves@.len() as u64) + leaves_bytes(self.leaves@)
    }

    /// Appends the tagged tree to `out`; refused when it cannot be written,
    /// in which case nothing is appended.
    pub fn write_tagged(&self, out: &mut Vec<u8>) -> (r: Result<(), CodecError>)
        ensures
            (r is Ok) == self.spec_encodable(),
            r is Ok ==> final(out)@ == old(out)@ + self.spec_bytes(),
            r is Err ==> r == Err::<(), CodecError>(CodecError::InvalidData) && final(out)@ == old(out)@,
    {
        let h = self.height;
        if h == 0 || h > 32 {
            return Err(CodecError::InvalidData);
        }
        let n = self.leaves.len();
        if n > 0x1FFFFF {
            return Err(CodecError::InvalidData);
        }
        let mut c: usize = 0;
        while c < n
            invariant
                n == self.leaves@.len(),
                c <= n,
                forall|i: int| 0 <= i < c ==> self.leaves@[i].0 <= MAX_COMPACT_INT,
            decreases n - c,
        {
            if self.leaves[c].0 > 0x1FFFFF {
                return Err(CodecError::InvalidData);
            }
            c = c + 1;
        }
        let ghost start = out@;
        out.push(0xC0u8 + (h - 1));
        let _ = write_int(out, n as u64);
        let mut j: usize = 0;
        while j < n
            invariant
                n == self.leaves@.len(),
                j <= n,
                1 <= h <= 32,
                h == self.height,
                n <= MAX_COMPACT_INT,
                forall|i: int| 0 <= i < n ==> self.leaves@[i].0 <= MAX_COMPACT_INT,
                out@ == start + seq![tree_tag(h)] + compact_bytes(n as u64) + leaves_bytes(
                    self.leaves@.take(j as int),
                ),
            decreases n - j,
        {
            let (i, leaf) = self.leaves[j];
            let _ = write_int(out, i);
            leaf.write_bytes(out);
            proof {
                let t = self.leaves@.take(j + 1);
                assert(t.drop_last() =~= self.leaves@.take(j as int));
                assert(out@ =~= start + seq![tree_tag(h)] + compact_bytes(n as u64) + leaves_bytes(t));
            }
            j = j + 1;
        }
        assert(self.leaves@.take(n as int) =~= self.leaves@);
        assert(out@ =~= old(out)@ + self.spec_bytes());
        Ok(())
    }

    /// The number of bytes the tagged tree is reported to take: the tag, the
    /// count's compact size, and each leaf's index size plus 32.
    pub fn tagged_size(&self) -> (n: usize)
        requires
            36 * self.leaves@.len() + 5 <= usize::MAX,
        ensures
            n == 1 + spec_int_size(self.leaves@.len() as u64) + leaves_size(self.leaves@),
    {
        let len = self.leaves.len();
        let mut total: usize = 1 + int_size(len as u64);
        let mut j: usize = 0;
        while j < len
            invariant
                len == self.leaves@.len(),
                36 * len + 5 <= usize::MAX,
                j <= len,
                total == 1 + spec_int_size(len as u64) + leaves_size(self.leaves@.take(j as int)),
            decreases len - j,
        {
            proof {
                let t = self.leaves@.take(j + 1);
                assert(t.drop_last() =~= self.leaves@.take(j as int));
                lemma_leaves_size_bound(t);
            }
            total = total + int_size(self.leaves[j].0) + 32;
            j = j + 1;
        }
        assert(self.leaves@.take(len as int) =~= self.leaves@);
        total
    }

    /// Reads a tagged tree at `*pos`, which moves past it.
    pub fn read_tagged(data: &[u8], pos: &mut usize) -> (r: Result<BoundedMerkleTree, CodecError>)
        requires
            *old(pos) <= data@.len(),
        ensures
            *final(pos) <= data@.len(),
            match read_tree(data@.skip(*old(pos) as int)) {
                Some((h, s, n)) => r matches Ok(t) && t.height == h && t.leaves@ == s && *final(pos) == *old(
                    pos,
                ) + n,
                None => r == Err::<BoundedMerkleTree, CodecError>(tree_error(data@.skip(*old(pos) as int))),
            },
    {
        let p0 = *pos;
        let ghost d = data@.skip(p0 as int);
        if data.len() - *pos < 1 {
            return Err(CodecError::UnexpectedEndOfInput);
        }
        let tag = data[*pos];
        if tag < 0xC0 || tag > 0xDF {
            return Err(CodecError::InvalidData);
        }
        let h: u8 = tag - 0xC0 + 1;
        let mut max_idx: u64 = 1;
        let mut k: u8 = 0;
        proof {
            vstd::arithmetic::power2::lemma2_to64();
        }
        while k < h
            invariant
                k <= h <= 32,
                max_idx == pow2(k as nat),
                max_idx >= 1,
            decreases h - k,
        {
            proof {
                vstd::arithmetic::power2::lemma_pow2_unfold((k + 1) as nat);
                vstd::arithmetic::power2::lemma2_to64();
                if k + 1 < 32 {
                    vstd::arithmetic::power2::lemma_pow2_strictly_increases((k + 1) as nat, 32);
                }
            }
            max_idx = max_idx * 2;
            k = k + 1;
        }
        max_idx = max_idx - 1;
        *pos = *pos + 1;
        let ghost p1 = *pos;
        assert(data@.skip(p1 as int) =~= d.skip(1));
        let n = read_int(data, pos)?;
        let ghost p2 = *pos;
        let ghost a = (p2 - p1) as nat;
        let ghost body = d.skip(1 + a as int);
        assert(data@.skip(p2 as int) =~= body);
        proof {
            lemma_read_tree_parts(d, n, a, max_idx as int);
        }
        let leaves = read_leaves_at(data, pos, n, max_idx)?;
        if !strictly_increasing(&leaves) {
            return Err(CodecError::InvalidData);
        }
        Ok(BoundedMerkleTree { height: h, leaves })
    }
}

/// Reads `n` leaves at `*pos`, each index at most `max`.
fn read_leaves_at(data: &[u8], pos: &mut usize, n: u64, max: u64) -> (r: Result<Vec<(u64, HashOutput)>, CodecError>)
    requires
        *old(pos) <= data@.len(),
    ensures
        *final(pos) <= data@.len(),
        match read_leaves(data@.skip(*old(pos) as int), n as nat, max as int) {
            Some((s, b)) => r matches Ok(v) && v@ == s && *final(pos) == *old(pos) + b,
            None => r == Err::<Vec<(u64, HashOutput)>, CodecError>(
                leaves_error(data@.skip(*old(pos) as int), n as nat, max as int),
            ),
        },
{
    let p2 = *pos;
    let ghost body = data@.skip(p2 as int);
    let mut leaves: Vec<(u64, HashOutput)> = Vec::new();
    let mut j: u64 = 0;
    while j < n
        invariant
            j <= n,
            p2 == *old(pos),
            p2 <= *pos <= data@.len(),
            body == data@.skip(p2 as int),
            read_leaves(body, j as nat, max as int) == Some((leaves@, (*pos - p2) as nat)),
        decreases n - j,
    {
        let ghost used = (*pos - p2) as nat;
        assert(data@.skip(*pos as int) =~= body.skip(used as int));
        match read_leaf(data, pos, max) {
            Ok(leaf) => {
                leaves.push(leaf);
                proof {
                    lemma_read_leaves_step(body, j as nat, max as int, body.skip(used as int));
                }
            },
            Err(e) => {
                proof {
                    lemma_read_leaves_step(body, j as nat, max as int, body.skip(used as int));
                    lemma_read_leaves_none(body, (j + 1) as nat, n as nat, max as int);
                    lemma_leaves_error_first(body, (j + 1) as nat, n as nat, max as int);
                }
                return Err(e);
            },
        }
        j = j + 1;
    }
    Ok(leaves)
}

/// Reads one leaf at `*pos`: a compact index of at most `max`, then 32 hash bytes.
fn read_leaf(data: &[u8], pos: &mut usize, max: u64) -> (r: Result<(u64, HashOutput), CodecError>)
    requires
        *old(pos) <= data@.len(),
    ensures
        *final(pos) <= data@.len(),
        ({
            let rest = data@.skip(*old(pos) as int);
            match spec_read_int(rest) {
                Some((i, a)) => if i > max || rest.len() < a + 32 {
                    r == Err::<(u64, HashOutput), CodecError>(leaf_error(rest, max as int))
                } else {
                    r == Ok::<(u64, HashOutput), CodecError>((i, hash_of_bytes(rest.subrange(a as int, (a + 32) as int))))
                        && *final(pos) == *old(pos) + a + 32
                },
                None => r == Err::<(u64, HashOutput), CodecError>(leaf_error(rest, max as int)),
            }
        }),
{
    let ghost start = *pos;
    let i = read_int(data, pos)?;
    if i > max {
        return Err(CodecError::InvalidData);
    }
    if data.len() - *pos < 32 {
        return Err(CodecError::UnexpectedEndOfInput);
    }
    let leaf = HashOutput::read_bytes(data, *pos);
    proof {
        let a = *pos - start;
        assert(data@.subrange(*pos as int, *pos + 32) =~= data@.skip(start as int).subrange(a as int, a + 32));
    }
    *pos = *pos + 32;
    Ok((i, leaf))
}

/// Whether the leaves' indices strictly increase.
fn strictly_increasing(leaves: &Vec<(u64, HashOutput)>) -> (b: bool)
    ensures
        b == increasing_leaves(leaves@),
{
    let mut w: usize = 1;
    while w < leaves.len()
        invariant
            1 <= w,
            forall|x: int, y: int| 0 <= x < y < w && y < leaves@.len() ==> leaves@[x].0 < leaves@[y].0,
        decreases leaves@.len() - w,
    {
        if leaves[w - 1].0 >= leaves[w].0 {
            return false;
        }
        proof {
            assert forall|x: int, y: int| 0 <= x < y < w + 1 && y < leaves@.len() implies leaves@[x].0
                < leaves@[y].0 by {
                if y == w && x < w - 1 {
                    assert(leaves@[x].0 < leaves@[w - 1].0);
                }
            }
        }
        w = w + 1;
    }
    true
}

/// One more leaf read: what `read_leaves` gives for `k + 1` from what it gives for `k`.
pub proof fn lemma_read_leaves_step(data: Seq<u8>, k: nat, max: int, rest: Seq<u8>)
    requires
        read_leaves(data, k, max) is Some,
        rest == data.skip(read_leaves(data, k, max)->Some_0.1 as int),
    ensures
        ({
            let (s, used) = read_leaves(data, k, max)->Some_0;
            read_leaves(data, k + 1, max) == match spec_read_int(rest) {
                None => None,
                Some((i, a)) => if i > max || rest.len() < a + 32 {
                    None
                } else {
                    Some((s.push((i, hash_of_bytes(rest.subrange(a as int, (a + 32) as int)))), used + a + 32))
                },
            }
        }),
{
    let (s, used) = read_leaves(data, k, max)->Some_0;
    match spec_read_int(rest) {
        None => {},
        Some((i, a)) => {
            if !(i > max || rest.len() < a + 32) {
                assert(rest.subrange(a as int, (a + 32) as int) =~= data.subrange((used + a) as int, (used + a + 32) as int));
            }
        },
    }
}

/// Reading back the bytes of leaves whose indices fit gives the leaves, whatever follows.
pub proof fn lemma_read_leaves_bytes(s: Seq<(u64, HashOutput)>, rest: Seq<u8>, max: int)
    requires
        forall|i: int| 0 <= i < s.len() ==> s[i].0 <= max && s[i].0 <= MAX_COMPACT_INT,
    ensures
        read_leaves(leaves_bytes(s) + rest, s.len(), max) == Some((s, leaves_bytes(s).len())),
    decreases s.len(),
{
    if s.len() > 0 {
        let t = s.drop_last();
        let last = s.last();
        let rest2 = compact_bytes(last.0) + last.1.0@ + rest;
        lemma_read_leaves_bytes(t, rest2, max);
        let data = leaves_bytes(s) + rest;
        assert(data =~= leaves_bytes(t) + rest2);
        let used = leaves_bytes(t).len();
        assert(data.skip(used as int) =~= compact_bytes(last.0) + (last.1.0@ + rest));
        law_int_roundtrip(last.0, last.1.0@ + rest);
        let a = compact_bytes(last.0).len();
        assert(data.subrange((used + a) as int, (used + a + 32) as int) =~= last.1.0@);
        lemma_hash_of_bytes(last.1);
        assert(t.push(last) =~= s);
    }
}

/// Reading back a written tree gives the tree and uses exactly its bytes,
/// whatever follows.
pub proof fn law_tree_roundtrip(t: BoundedMerkleTree, rest: Seq<u8>)
    requires
        t.wf(),
        t.spec_encodable(),
    ensures
        read_tree(t.spec_bytes() + rest) == Some((t.height, t.leaves@, t.spec_bytes().len())),
{
    let n = t.leaves@.len() as u64;
    let lb = leaves_bytes(t.leaves@);
    let data = t.spec_bytes() + rest;
    let max = pow2(t.height as nat) - 1;
    assert(data[0] == tree_tag(t.height));
    assert(data.skip(1) =~= compact_bytes(n) + (lb + rest));
    law_int_roundtrip(n, lb + rest);
    let a = compact_bytes(n).len();
    assert(data.skip(1 + a as int) =~= lb + rest);
    lemma_read_leaves_bytes(t.leaves@, rest, max);
}

/// The reported size of a writable tree is the number of bytes written.
pub proof fn law_tree_size(t: BoundedMerkleTree)
    requires
        t.spec_encodable(),
    ensures
        1 + spec_int_size(t.leaves@.len() as u64) + leaves_size(t.leaves@) == t.spec_bytes().len(),
{
    law_int_size(t.leaves@.len() as u64);
    lemma_leaves_size(t.leaves@);
}

/// A tree of height `h` from its leaves, read after a `a`-byte count, when they strictly increase.
pub open spec fn finish_tree(h: u8, a: nat, leaves: Option<(Seq<(u64, HashOutput)>, nat)>) -> Option<
    (u8, Seq<(u64, HashOutput)>, nat),
> {
    match leaves {
        None => None,
        Some((s, b)) => if increasing_leaves(s) {
            Some((h, s, 1 + a + b))
        } else {
            None
        },
    }
}

/// Reading a tree is reading its tag and count, then finishing it from its leaves.
pub proof fn lemma_read_tree_parts(d: Seq<u8>, n: u64, a: nat, max: int)
    requires
        d.len() >= 1,
        0xC0 <= d[0] <= 0xDF,
        spec_read_int(d.skip(1)) == Some((n, a)),
        max == pow2(((d[0] - 0xC0 + 1) as u8) as nat) - 1,
    ensures
        read_tree(d) == finish_tree((d[0] - 0xC0 + 1) as u8, a, read_leaves(d.skip(1 + a as int), n as nat, max)),
{
}

/// Once reading `k` leaves fails, reading more fails with the same error.
pub proof fn lemma_leaves_error_first(data: Seq<u8>, k: nat, m: nat, max: int)
    requires
        k <= m,
        read_leaves(data, k, max) is None,
    ensures
        leaves_error(data, m, max) == leaves_error(data, k, max),
    decreases m,
{
    if m > k {
        lemma_read_leaves_none(data, k, (m - 1) as nat, max);
        lemma_leaves_error_first(data, k, (m - 1) as nat, max);
    }
}

/// Once reading `k` leaves fails, reading more fails too.
pub proof fn lemma_read_leaves_none(data: Seq<u8>, k: nat, m: nat, max: int)
    requires
        k <= m,
        read_leaves(data, k, max) is None,
    ensures
        read_leaves(data, m, max) is None,
    decreases m,
{
    if m > k {
        lemma_read_leaves_none(data, k, (m - 1) as nat, max);
    }
}

/// The least `k` with `2^k >= n`.
pub open spec fn is_ceil_log2(k: nat, n: nat) -> bool {
    &&& pow2(k) >= n
    &&& (k == 0 || pow2((k - 1) as nat) < n)
}

/// The least `k` with `2^k >= n`, for `n` below `2^64`.
fn ceil_log2(n: u64) -> (k: usize)
    ensures
        is_ceil_log2(k as nat, n as nat),
        k <= 64,
{
    let mut k: usize = 0;
    let mut p: u128 = 1;
    proof {
        vstd::arithmetic::power2::lemma2_to64();
    }
    while p < n as u128
        invariant
            p == pow2(k as nat),
            k <= 64,
            k == 0 || pow2((k - 1) as nat) < n,
            p <= 0x1_0000_0000_0000_0000,
        decreases 64 - k,
    {
        proof {
            vstd::arithmetic::power2::lemma2_to64();
            if k >= 64 {
                if k > 64 {
                    vstd::arithmetic::power2::lemma_pow2_strictly_increases(64, k as nat);
                }
            }
            vstd::arithmetic::power2::lemma_pow2_unfold((k + 1) as nat);
            if k + 1 < 64 {
                vstd::arithmetic::power2::lemma_pow2_strictly_increases((k + 1) as nat, 64);
            }
        }
        p = p * 2;
        k = k + 1;
    }
    k
}

impl StateValue {
    /// The base-2 logarithm of the value's size: 0 for nothing, 1 for a cell
    /// or an array, the rounded-up logarithm of the entry count for a map, and
    /// the height for a Merkle tree.
    pub fn log_size(&self) -> (r: usize)
        ensures
            match self {
                StateValue::Null => r == 0,
                StateValue::Cell(_) => r == 1,
                StateValue::Mapping(m) => is_ceil_log2(r as nat, m@.len()),
                StateValue::Array(_) => r == 1,
                StateValue::BoundedMerkleTree(t) => r == t.height,
            },
    {
        match self {
            StateValue::Null => 0,
            StateValue::Cell(_) => 1,
            StateValue::Mapping(m) => ceil_log2(m.len() as u64),
            StateValue::Array(_) => 1,
            StateValue::BoundedMerkleTree(t) => t.height as usize,
        }
    }
}


/// The name of a contract's entry point, as bytes.
#[derive(Clone, Debug)]
pub struct EntryPointBuf(pub Vec<u8>);

/// The 32 bytes an entry point's hash is opened with: "midnight:entry-point", zero-padded.
pub open spec fn entry_point_opening() -> Seq<u8> {
    seq![109u8, 105, 100, 110, 105, 103, 104, 116, 58, 101, 110, 116, 114, 121, 45, 112, 111, 105, 110, 116]
        + Seq::new(12, |i: int| 0u8)
}

impl EntryPointBuf {
    /// The hash of the entry point's name: a commitment to its bytes with a fixed opening.
    pub fn ep_hash(&self) -> (h: HashOutput)
        ensures
            h.0@ == sha256(entry_point_opening() + self.0@),
    {
        let opening = HashOutput(
            [
                109u8, 105, 100, 110, 105, 103, 104, 116, 58, 101, 110, 116, 114, 121, 45, 112, 111, 105, 110,
                116, 0, 0, 0, 0, 0, 0, 0, 0, 0, 0, 0, 0,
            ],
        );
        assert(opening.0@ =~= entry_point_opening());
        persistent_commit(&self.0, opening)
    }
}

/// A byte an entry point's name may hold to be shown as text: an ASCII letter
/// or digit, or one of `'+-_":/\?#$^*&.`.
pub open spec fn name_byte(c: u8) -> bool {
    ||| 48 <= c <= 57
    ||| 65 <= c <= 90
    ||| 97 <= c <= 122
    ||| c == 39 || c == 43 || c == 45 || c == 95 || c == 34 || c == 58 || c == 47 || c == 92
    ||| c == 63 || c == 35 || c == 36 || c == 94 || c == 42 || c == 38 || c == 46
}

impl EntryPointBuf {
    /// Whether the name is shown as text rather than as hex: every byte is a
    /// name byte.
    pub fn shows_as_text(&self) -> (b: bool)
        ensures
            b == forall|i: int| 0 <= i < self.0@.len() ==> name_byte(#[trigger] self.0@[i]),
    {
        let mut i: usize = 0;
        while i < self.0.len()
            invariant
                i <= self.0@.len(),
                forall|j: int| 0 <= j < i ==> name_byte(#[trigger] self.0@[j]),
            decreases self.0@.len() - i,
        {
            let c = self.0[i];
            let ok = (48 <= c && c <= 57) || (65 <= c && c <= 90) || (97 <= c && c <= 122) || c == 39 || c == 43
                || c == 45 || c == 95 || c == 34 || c == 58 || c == 47 || c == 92 || c == 63 || c == 35 || c == 36
                || c == 94 || c == 42 || c == 38 || c == 46;
            if !ok {
                assert(!name_byte(self.0@[i as int]));
                return false;
            }
            i = i + 1;
        }
        true
    }
}

/// The key a proof of a contract operation is checked against, held as its encoding.
#[derive(Clone, Debug)]
pub struct VerifierKey(pub Vec<u8>);

impl View for VerifierKey {
    type V = Seq<u8>;

    open spec fn view(&self) -> Seq<u8> {
        self.0@
    }
}

impl VerifierKey {
    /// A copy, byte for byte.
    pub fn duplicate(&self) -> (k: Self)
        ensures
            k@ == self@,
    {
        VerifierKey(copy_vec(&self.0))
    }
}

/// A contract operation: the verifier key of its current version, if set.
#[derive(Clone, Debug)]
pub struct ContractOperation {
    pub v2: Option<VerifierKey>,
}

impl ContractOperation {
    /// An operation whose current verifier key is `vk`.
    pub fn new(vk: Option<VerifierKey>) -> (op: Self)
        ensures
            op.v2 == vk,
    {
        ContractOperation { v2: vk }
    }

    /// The verifier key of the latest version, if set.
    pub fn latest(&self) -> (r: Option<&VerifierKey>)
        ensures
            match self.v2 {
                Some(k) => r == Some(&k),
                None => r is None,
            },
    {
        self.v2.as_ref()
    }

    /// The slot of the latest version's verifier key, to be changed in place.
    pub fn latest_mut(&mut self) -> (r: &mut Option<VerifierKey>)
        ensures
            *r == old(self).v2,
            final(self).v2 == *final(r),
    {
        &mut self.v2
    }
}

/// A version of contract operations.
#[derive(Clone, Copy, Debug, PartialEq, Eq)]
pub enum ContractOperationVersion {
    V2,
}

impl ContractOperationVersion {
    /// Whether `co` has a verifier key of this version.
    pub fn has(&self, co: &ContractOperation) -> (b: bool)
        ensures
            b == (co.v2 is Some),
    {
        match self {
            ContractOperationVersion::V2 => co.v2.is_some(),
        }
    }

    /// Removes the verifier key of this version from `co`.
    pub fn rm_from(&self, co: &mut ContractOperation)
        ensures
            final(co).v2 is None,
    {
        match self {
            ContractOperationVersion::V2 => {
                co.v2 = None;
            },
        }
    }
}

/// A verifier key together with the version of operations it belongs to.
#[derive(Clone, Debug)]
pub enum ContractOperationVersionedVerifierKey {
    V2(VerifierKey),
}

impl ContractOperationVersionedVerifierKey {
    /// The version the key belongs to.
    pub fn as_version(&self) -> (v: ContractOperationVersion)
        ensures
            v == ContractOperationVersion::V2,
    {
        match self {
            ContractOperationVersionedVerifierKey::V2(_) => ContractOperationVersion::V2,
        }
    }

    /// Sets the key of its version in `co`.
    pub fn insert_into(&self, co: &mut ContractOperation)
        ensures
            match self {
                ContractOperationVersionedVerifierKey::V2(vk) => final(co).v2 matches Some(k) && k@ == vk@,
            },
    {
        match self {
            ContractOperationVersionedVerifierKey::V2(vk) => {
                co.v2 = Some(vk.duplicate());
            },
        }
    }
}


impl DeepView for ContractOperationVersion {
    type V = ContractOperationVersion;

    open spec fn deep_view(&self) -> ContractOperationVersion {
        *self
    }
}

impl Versioned for ContractOperationVersion {
    open spec fn obeys_codec_spec() -> bool {
        true
    }

    open spec fn spec_version() -> Option<Version> {
        None
    }

    open spec fn spec_network_specific() -> bool {
        false
    }

    open spec fn spec_limit_recursion() -> bool {
        false
    }

    fn version() -> (r: Option<Version>) {
        None
    }

    fn network_specific() -> (r: bool) {
        false
    }

    fn limit_recursion() -> (r: bool) {
        false
    }
}

impl Serializable for ContractOperationVersion {
    open spec fn spec_serializable(v: ContractOperationVersion) -> bool {
        true
    }

    /// The discriminant byte: 1 for the second version (0 belonged to a retired one).
    open spec fn spec_unversioned(v: ContractOperationVersion) -> Seq<u8> {
        seq![1u8]
    }

    open spec fn spec_unversioned_size(v: ContractOperationVersion) -> nat {
        1
    }

    fn unversioned_serialize(value: &ContractOperationVersion, out: &mut Vec<u8>) -> (r: Result<(), CodecError>) {
        match value {
            ContractOperationVersion::V2 => out.push(1u8),
        }
        Ok(())
    }

    fn unversioned_serialized_size(value: &ContractOperationVersion) -> (n: usize) {
        1
    }
}

impl Deserializable for ContractOperationVersion {
    /// The byte 1; the retired discriminant 0 and any other byte are invalid.
    open spec fn spec_versioned_deserialize(data: Seq<u8>, version: Option<Version>, depth: u32) -> Option<
        (ContractOperationVersion, nat),
    > {
        if data.len() >= 1 && data[0] == 1 {
            Some((ContractOperationVersion::V2, 1))
        } else {
            None
        }
    }

    open spec fn spec_decodable(v: ContractOperationVersion, depth: u32) -> bool {
        true
    }

    fn versioned_deserialize(
        data: &[u8],
        pos: &mut usize,
        version: Option<Version>,
        depth: u32,
    ) -> (r: Result<ContractOperationVersion, CodecError>) {
        if data.len() - *pos < 1 {
            return Err(CodecError::UnexpectedEndOfInput);
        }
        if data[*pos] == 1 {
            *pos = *pos + 1;
            Ok(ContractOperationVersion::V2)
        } else {
            Err(CodecError::InvalidData)
        }
    }
}

impl RoundTrip for ContractOperationVersion {
    proof fn lemma_unversioned_roundtrip(v: ContractOperationVersion, rest: Seq<u8>, depth: u32) {
    }

    proof fn lemma_unversioned_size(v: ContractOperationVersion) {
    }
}


impl DeepView for EntryPointBuf {
    type V = Seq<u8>;

    open spec fn deep_view(&self) -> Seq<u8> {
        self.0@
    }
}

impl Versioned for EntryPointBuf {
    open spec fn obeys_codec_spec() -> bool {
        true
    }

    open spec fn spec_version() -> Option<Version> {
        None
    }

    open spec fn spec_network_specific() -> bool {
        false
    }

    open spec fn spec_limit_recursion() -> bool {
        false
    }

    fn version() -> (r: Option<Version>) {
        None
    }

    fn network_specific() -> (r: bool) {
        false
    }

    fn limit_recursion() -> (r: bool) {
        false
    }
}

impl Serializable for EntryPointBuf {
    open spec fn spec_serializable(v: Seq<u8>) -> bool {
        true
    }

    /// The name as a vector of bytes.
    open spec fn spec_unversioned(v: Seq<u8>) -> Seq<u8> {
        item_bytes::<Vec<u8>>(v)
    }

    open spec fn spec_unversioned_size(v: Seq<u8>) -> nat {
        4 + v.len()
    }

    fn unversioned_serialize(value: &EntryPointBuf, out: &mut Vec<u8>) -> (r: Result<(), CodecError>) {
        proof {
            assert(value.0.deep_view() =~= value.0@);
        }
        <Vec<u8> as Serializable>::serialize(&value.0, out)
    }

    fn unversioned_serialized_size(value: &EntryPointBuf) -> (n: usize) {
        proof {
            assert(value.0.deep_view() =~= value.0@);
            lemma_byte_seq_size(value.0@);
        }
        <Vec<u8> as Serializable>::serialized_size(&value.0)
    }
}

/// A run of bytes is reported to take one byte per byte.
pub proof fn lemma_byte_seq_size(s: Seq<u8>)
    ensures
        crate::containers::seq_size::<u8>(s) == s.len(),
    decreases s.len(),
{
    if s.len() > 0 {
        lemma_byte_seq_size(s.drop_last());
    }
}

impl Deserializable for EntryPointBuf {
    /// A vector of bytes.
    open spec fn spec_versioned_deserialize(data: Seq<u8>, version: Option<Version>, depth: u32) -> Option<
        (Seq<u8>, nat),
    > {
        item_deserialize::<Vec<u8>>(data, depth)
    }

    open spec fn spec_decodable(v: Seq<u8>, depth: u32) -> bool {
        item_decodable::<Vec<u8>>(v, depth)
    }

    fn versioned_deserialize(data: &[u8], pos: &mut usize, version: Option<Version>, depth: u32) -> (r: Result<
        EntryPointBuf,
        CodecError,
    >) {
        let bytes = <Vec<u8> as Deserializable>::deserialize(data, pos, depth)?;
        proof {
            assert(bytes.deep_view() =~= bytes@);
        }
        Ok(EntryPointBuf(bytes))
    }
}

impl RoundTrip for EntryPointBuf {
    proof fn lemma_unversioned_roundtrip(v: Seq<u8>, rest: Seq<u8>, depth: u32) {
        lemma_item_roundtrip::<Vec<u8>>(v, rest, depth);
    }

    proof fn lemma_unversioned_size(v: Seq<u8>) {
        lemma_item_size::<Vec<u8>>(v);
        lemma_byte_seq_size(v);
    }
}


impl DeepView for VerifierKey {
    type V = Seq<u8>;

    open spec fn deep_view(&self) -> Seq<u8> {
        self.0@
    }
}

impl Versioned for VerifierKey {
    open spec fn obeys_codec_spec() -> bool {
        true
    }

    open spec fn spec_version() -> Option<Version> {
        None
    }

    open spec fn spec_network_specific() -> bool {
        false
    }

    open spec fn spec_limit_recursion() -> bool {
        false
    }

    fn version() -> (r: Option<Version>) {
        None
    }

    fn network_specific() -> (r: bool) {
        false
    }

    fn limit_recursion() -> (r: bool) {
        false
    }
}

impl Serializable for VerifierKey {
    open spec fn spec_serializable(v: Seq<u8>) -> bool {
        true
    }

    /// The key is held as its encoding, and written as it is held.
    open spec fn spec_unversioned(v: Seq<u8>) -> Seq<u8> {
        v
    }

    open spec fn spec_unversioned_size(v: Seq<u8>) -> nat {
        v.len()
    }

    fn unversioned_serialize(value: &VerifierKey, out: &mut Vec<u8>) -> (r: Result<(), CodecError>) {
        let ghost start = out@;
        let mut i: usize = 0;
        while i < value.0.len()
            invariant
                i <= value.0@.len(),
                out@ == start + value.0@.take(i as int),
            decreases value.0@.len() - i,
        {
            out.push(value.0[i]);
            assert(value.0@.take(i + 1) =~= value.0@.take(i as int).push(value.0@[i as int]));
            i = i + 1;
        }
        assert(value.0@.take(value.0@.len() as int) =~= value.0@);
        Ok(())
    }

    fn unversioned_serialized_size(value: &VerifierKey) -> (n: usize) {
        value.0.len()
    }
}

impl DeepView for ContractOperationVersionedVerifierKey {
    type V = Seq<u8>;

    /// The key's bytes (there is one version).
    open spec fn deep_view(&self) -> Seq<u8> {
        match self {
            ContractOperationVersionedVerifierKey::V2(vk) => vk@,
        }
    }
}

impl Versioned for ContractOperationVersionedVerifierKey {
    open spec fn obeys_codec_spec() -> bool {
        true
    }

    open spec fn spec_version() -> Option<Version> {
        None
    }

    open spec fn spec_network_specific() -> bool {
        false
    }

    open spec fn spec_limit_recursion() -> bool {
        false
    }

    fn version() -> (r: Option<Version>) {
        None
    }

    fn network_specific() -> (r: bool) {
        false
    }

    fn limit_recursion() -> (r: bool) {
        false
    }
}

impl Serializable for ContractOperationVersionedVerifierKey {
    open spec fn spec_serializable(v: Seq<u8>) -> bool {
        true
    }

    /// The discriminant byte 1 (0 belonged to a retired version), then the key.
    open spec fn spec_unversioned(v: Seq<u8>) -> Seq<u8> {
        item_bytes::<u8>(1u8) + item_bytes::<VerifierKey>(v)
    }

    open spec fn spec_unversioned_size(v: Seq<u8>) -> nat {
        1 + v.len()
    }

    fn unversioned_serialize(value: &ContractOperationVersionedVerifierKey, out: &mut Vec<u8>) -> (r: Result<
        (),
        CodecError,
    >) {
        let ghost start = out@;
        match value {
            ContractOperationVersionedVerifierKey::V2(vk) => {
                <u8 as Serializable>::serialize(&1u8, out)?;
                <VerifierKey as Serializable>::serialize(vk, out)?;
            },
        }
        assert(out@ =~= start + Self::spec_unversioned(value.deep_view()));
        Ok(())
    }

    fn unversioned_serialized_size(value: &ContractOperationVersionedVerifierKey) -> (n: usize) {
        match value {
            ContractOperationVersionedVerifierKey::V2(vk) => 1 + vk.0.len(),
        }
    }
}

} // verus!
