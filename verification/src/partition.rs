//! The call graph of a transaction's contract calls, the check that it is a
//! forest (every call has at most one caller and no call is its own ancestor),
//! and the split of each call's sections between the guaranteed and the
//! fallible part of a transaction by the budget of each tree of calls.
use vstd::prelude::*;
use crate::context::{Fr, TranscriptRejected};
use crate::keymap::ExactEq;
use crate::ledger::LedgerParameters;

verus! {

/// Why calls could not be split into guaranteed and fallible parts.
#[derive(Debug)]
pub enum PartitionFailure {
    Transcript(TranscriptRejected),
    NonForest,
}

impl From<TranscriptRejected> for PartitionFailure {
    fn from(err: TranscriptRejected) -> (r: PartitionFailure) {
        PartitionFailure::Transcript(err)
    }
}

impl vstd::std_specs::convert::FromSpecImpl<TranscriptRejected> for PartitionFailure {
    open spec fn obeys_from_spec() -> bool {
        true
    }

    open spec fn from_spec(err: TranscriptRejected) -> PartitionFailure {
        PartitionFailure::Transcript(err)
    }
}

/// Call `i` claims call `j`: `j` has a communication commitment that `i`'s run claimed.
pub open spec fn claims_call(claimed: Seq<Vec<Fr>>, comms: Seq<Option<Fr>>, i: int, j: int) -> bool {
    comms[j] matches Some(c) && claimed[i]@.contains(c)
}

/// `l` lists, in increasing order, the calls below `n` that call `i` claims.
pub open spec fn is_callee_list(claimed: Seq<Vec<Fr>>, comms: Seq<Option<Fr>>, i: int, n: int, l: Seq<usize>) -> bool {
    &&& forall|k: int| 0 <= k < l.len() ==> (#[trigger] l[k]) < n && claims_call(claimed, comms, i, l[k] as int)
    &&& forall|a: int, b: int| 0 <= a < b < l.len() ==> #[trigger] l[a] < #[trigger] l[b]
    &&& forall|j: int| 0 <= j < n && claims_call(claimed, comms, i, j) ==> l.contains(j as usize)
}

/// Whether `v` contains `x`.
fn contains_fr(v: &Vec<Fr>, x: Fr) -> (b: bool)
    ensures
        b == v@.contains(x),
{
    let mut k: usize = 0;
    while k < v.len()
        invariant
            k <= v@.len(),
            forall|t: int| 0 <= t < k ==> v@[t] != x,
        decreases v@.len() - k,
    {
        if v[k].exact_eq(&x) {
            assert(v@[k as int] == x);
            return true;
        }
        k = k + 1;
    }
    false
}

/// The call graph: for each call, the calls it claims, in increasing order.
/// `claimed[i]` holds the communication commitments call `i`'s run claimed and
/// `comms[j]` is call `j`'s own, if it has one.
pub fn call_graph(claimed: &Vec<Vec<Fr>>, comms: &Vec<Option<Fr>>) -> (g: Vec<Vec<usize>>)
    requires
        claimed@.len() == comms@.len(),
    ensures
        g@.len() == comms@.len(),
        forall|i: int|
            0 <= i < g@.len() ==> is_callee_list(claimed@, comms@, i, comms@.len() as int, #[trigger] g@[i]@),
{
    let n = comms.len();
    let ghost cl = claimed@;
    let mut g: Vec<Vec<usize>> = Vec::new();
    let mut i: usize = 0;
    while i < n
        invariant
            n == comms@.len(),
            n == claimed@.len(),
            cl == claimed@,
            i <= n,
            g@.len() == i,
            forall|t: int| 0 <= t < i ==> is_callee_list(cl, comms@, t, n as int, #[trigger] g@[t]@),
        decreases n - i,
    {
        let mut row: Vec<usize> = Vec::new();
        let mut j: usize = 0;
        while j < n
            invariant
                n == comms@.len(),
                n == claimed@.len(),
                cl == claimed@,
                i < n,
                j <= n,
                forall|k: int| 0 <= k < row@.len() ==> (#[trigger] row@[k]) < j && claims_call(cl, comms@, i as int, row@[k] as int),
                forall|a: int, b: int| 0 <= a < b < row@.len() ==> #[trigger] row@[a] < #[trigger] row@[b],
                forall|t: int| 0 <= t < j && claims_call(cl, comms@, i as int, t) ==> row@.contains(t as usize),
            decreases n - j,
        {
            let hit = match comms[j] {
                Some(c) => contains_fr(&claimed[i], c),
                None => false,
            };
            if hit {
                let ghost before = row@;
                row.push(j);
                proof {
                    assert(row@[row@.len() - 1] == j);
                    assert forall|t: int| 0 <= t < j + 1 && claims_call(cl, comms@, i as int, t) implies row@.contains(t as usize) by {
                        if t < j {
                            let k = choose|k: int| 0 <= k < before.len() && before[k] == t as usize;
                            assert(row@[k] == t as usize);
                        } else {
                            assert(row@[row@.len() - 1] == t as usize);
                        }
                    }
                }
            } else {
                proof {
                    assert forall|t: int| 0 <= t < j + 1 && claims_call(cl, comms@, i as int, t) implies row@.contains(t as usize) by {
                        if t == j {
                            assert(false);
                        }
                    }
                }
            }
            j = j + 1;
        }
        g.push(row);
        i = i + 1;
    }
    g
}


/// The number of calls below `m` that claim call `i`.
pub open spec fn caller_count(g: Seq<Vec<usize>>, i: usize, m: int) -> nat
    decreases m,
{
    if m <= 0 {
        0
    } else {
        caller_count(g, i, m - 1) + if g[m - 1]@.contains(i) {
            1nat
        } else {
            0nat
        }
    }
}

/// The call that claims call `i`, if any (the only one, in a forest).
pub open spec fn caller(g: Seq<Vec<usize>>, i: usize) -> Option<usize> {
    if exists|j: int| 0 <= j < g.len() && #[trigger] g[j]@.contains(i) {
        Some((choose|j: int| 0 <= j < g.len() && #[trigger] g[j]@.contains(i)) as usize)
    } else {
        None
    }
}

/// The caller of the caller ... of call `i`, `k` times over.
pub open spec fn ancestor(g: Seq<Vec<usize>>, i: usize, k: nat) -> Option<usize>
    decreases k,
{
    if k == 0 {
        Some(i)
    } else {
        match ancestor(g, i, (k - 1) as nat) {
            None => None,
            Some(a) => caller(g, a),
        }
    }
}

/// Call `i` is its own ancestor within as many steps as there are calls.
pub open spec fn on_cycle(g: Seq<Vec<usize>>, i: usize) -> bool {
    exists|k: nat| 1 <= k <= g.len() && #[trigger] ancestor(g, i, k) == Some(i)
}

/// The call graph is a forest: no call has two callers and none is its own ancestor.
pub open spec fn is_forest(g: Seq<Vec<usize>>) -> bool {
    &&& forall|i: int| 0 <= i < g.len() ==> #[trigger] caller_count(g, i as usize, g.len() as int) <= 1
    &&& forall|i: int| 0 <= i < g.len() ==> !#[trigger] on_cycle(g, i as usize)
}

/// A call graph over `n` calls: each row lists calls below `n`, increasing.
pub open spec fn graph_wf(g: Seq<Vec<usize>>) -> bool {
    &&& forall|j: int, k: int| 0 <= j < g.len() && 0 <= k < g[j]@.len() ==> #[trigger] g[j]@[k] < g.len()
    &&& forall|j: int, a: int, b: int| 0 <= j < g.len() && 0 <= a < b < g[j]@.len() ==> #[trigger] g[j]@[a]
        < #[trigger] g[j]@[b]
}

proof fn lemma_count_mono(g: Seq<Vec<usize>>, i: usize, m1: int, m2: int)
    requires
        m1 <= m2,
    ensures
        caller_count(g, i, m1) <= caller_count(g, i, m2),
    decreases m2 - m1,
{
    if m1 < m2 {
        lemma_count_mono(g, i, m1, m2 - 1);
    }
}

proof fn lemma_count_zero(g: Seq<Vec<usize>>, i: usize, m: int, j: int)
    requires
        caller_count(g, i, m) == 0,
        0 <= j < m,
    ensures
        !g[j]@.contains(i),
    decreases m,
{
    lemma_count_mono(g, i, j, m - 1);
    if j < m - 1 {
        lemma_count_zero(g, i, m - 1, j);
    }
}

proof fn lemma_count_two(g: Seq<Vec<usize>>, i: usize, m: int, j1: int, j2: int)
    requires
        0 <= j1 < j2 < m,
        g[j1]@.contains(i),
        g[j2]@.contains(i),
    ensures
        caller_count(g, i, m) >= 2,
    decreases m,
{
    if j2 < m - 1 {
        lemma_count_two(g, i, m - 1, j1, j2);
    } else {
        lemma_count_mono(g, i, j1 + 1, m - 1);
        assert(caller_count(g, i, j1 + 1) >= 1);
    }
}

/// Once an ancestor is missing, every further one is.
proof fn lemma_ancestor_none(g: Seq<Vec<usize>>, i: usize, k: nat, m: nat)
    requires
        k <= m,
        ancestor(g, i, k) is None,
    ensures
        ancestor(g, i, m) is None,
    decreases m,
{
    if m > k {
        lemma_ancestor_none(g, i, k, (m - 1) as nat);
    }
}

/// Whether `row` holds `x`.
fn contains_index(row: &Vec<usize>, x: usize) -> (b: bool)
    ensures
        b == row@.contains(x),
{
    let mut k: usize = 0;
    while k < row.len()
        invariant
            k <= row@.len(),
            forall|t: int| 0 <= t < k ==> row@[t] != x,
        decreases row@.len() - k,
    {
        if row[k] == x {
            assert(row@[k as int] == x);
            return true;
        }
        k = k + 1;
    }
    false
}

/// The caller of call `i`, or `None` when two calls claim it.
fn single_caller(g: &Vec<Vec<usize>>, i: usize) -> (r: Option<Option<usize>>)
    ensures
        match r {
            Some(p) => caller_count(g@, i, g@.len() as int) <= 1 && p == caller(g@, i),
            None => caller_count(g@, i, g@.len() as int) > 1,
        },
{
    let n = g.len();
    let mut count: usize = 0;
    let mut who: Option<usize> = None;
    let mut j: usize = 0;
    while j < n
        invariant
            n == g@.len(),
            j <= n,
            count == caller_count(g@, i, j as int),
            count <= 1,
            count == 0 ==> who is None,
            count == 1 ==> (who matches Some(w) && w < j && g@[w as int]@.contains(i)),
        decreases n - j,
    {
        if contains_index(&g[j], i) {
            if count == 1 {
                proof {
                    let w = who->Some_0;
                    lemma_count_two(g@, i, j + 1, w as int, j as int);
                    lemma_count_mono(g@, i, j + 1, n as int);
                }
                return None;
            }
            count = count + 1;
            who = Some(j);
        }
        j = j + 1;
    }
    proof {
        if count == 0 {
            assert forall|t: int| 0 <= t < n implies !(#[trigger] g@[t]@.contains(i)) by {
                lemma_count_zero(g@, i, n as int, t);
            }
        } else {
            let w = who->Some_0;
            assert forall|t: int| 0 <= t < n && #[trigger] g@[t]@.contains(i) implies t == w by {
                if t < w {
                    lemma_count_two(g@, i, n as int, t, w as int);
                } else if t > w {
                    lemma_count_two(g@, i, n as int, w as int, t);
                }
            }
            assert(g@[w as int]@.contains(i));
        }
    }
    Some(who)
}

/// Whether call `i` is its own ancestor, given each call's caller.
fn reaches_itself(g: &Vec<Vec<usize>>, parent: &Vec<Option<usize>>, i: usize) -> (b: bool)
    requires
        i < g@.len(),
        parent@.len() == g@.len(),
        forall|a: int| 0 <= a < g@.len() ==> #[trigger] parent@[a] == caller(g@, a as usize),
        forall|a: int| 0 <= a < g@.len() ==> (#[trigger] parent@[a] matches Some(p) ==> p < g@.len()),
    ensures
        b == on_cycle(g@, i),
{
    let n = g.len();
    let mut x: Option<usize> = parent[i];
    let mut steps: usize = 0;
    assert(ancestor(g@, i, 0) == Some(i));
    assert(ancestor(g@, i, 1) == caller(g@, i));
    while steps < n
        invariant
            n == g@.len(),
            i < n,
            steps <= n,
            parent@.len() == n,
            forall|a: int| 0 <= a < n ==> #[trigger] parent@[a] == caller(g@, a as usize),
            forall|a: int| 0 <= a < n ==> (#[trigger] parent@[a] matches Some(p) ==> p < n),
            x == ancestor(g@, i, (steps + 1) as nat),
            x matches Some(p) ==> p < n,
            forall|t: nat| 1 <= t <= steps ==> #[trigger] ancestor(g@, i, t) != Some(i),
        decreases n - steps,
    {
        match x {
            None => {
                proof {
                    assert forall|t: nat| 1 <= t <= n implies #[trigger] ancestor(g@, i, t) != Some(i) by {
                        if t > steps {
                            lemma_ancestor_none(g@, i, (steps + 1) as nat, t);
                        }
                    }
                }
                return false;
            },
            Some(a) => {
                if a == i {
                    assert(ancestor(g@, i, (steps + 1) as nat) == Some(i));
                    return true;
                }
                x = parent[a];
                assert(ancestor(g@, i, (steps + 2) as nat) == caller(g@, a));
            },
        }
        steps = steps + 1;
    }
    false
}

/// Checks that the call graph is a forest and gives its roots, the calls no
/// call claims, in increasing order.
pub fn check_forest(g: &Vec<Vec<usize>>) -> (r: Result<Vec<usize>, PartitionFailure>)
    requires
        graph_wf(g@),
    ensures
        match r {
            Ok(roots) => {
                &&& is_forest(g@)
                &&& forall|k: int| 0 <= k < roots@.len() ==> (#[trigger] roots@[k]) < g@.len() && caller(g@, roots@[k]) is None
                &&& forall|a: int, b: int| 0 <= a < b < roots@.len() ==> #[trigger] roots@[a] < #[trigger] roots@[b]
                &&& forall|i: int| 0 <= i < g@.len() && #[trigger] caller(g@, i as usize) is None ==> roots@.contains(i as usize)
            },
            Err(e) => !is_forest(g@) && e is NonForest,
        },
{
    let n = g.len();
    let mut parent: Vec<Option<usize>> = Vec::new();
    let mut i: usize = 0;
    while i < n
        invariant
            n == g@.len(),
            graph_wf(g@),
            i <= n,
            parent@.len() == i,
            forall|a: int| 0 <= a < i ==> #[trigger] parent@[a] == caller(g@, a as usize),
            forall|a: int| 0 <= a < i ==> #[trigger] caller_count(g@, a as usize, n as int) <= 1,
            forall|a: int| 0 <= a < i ==> (#[trigger] parent@[a] matches Some(p) ==> p < n),
        decreases n - i,
    {
        match single_caller(g, i) {
            None => {
                assert(!is_forest(g@)) by {
                    assert(!(caller_count(g@, (i as int) as usize, g@.len() as int) <= 1));
                }
                return Err(PartitionFailure::NonForest);
            },
            Some(p) => {
                parent.push(p);
            },
        }
        i = i + 1;
    }
    let mut c: usize = 0;
    while c < n
        invariant
            n == g@.len(),
            c <= n,
            parent@.len() == n,
            forall|a: int| 0 <= a < n ==> #[trigger] parent@[a] == caller(g@, a as usize),
            forall|a: int| 0 <= a < n ==> (#[trigger] parent@[a] matches Some(p) ==> p < n),
            forall|a: int| 0 <= a < c ==> !#[trigger] on_cycle(g@, a as usize),
        decreases n - c,
    {
        if reaches_itself(g, &parent, c) {
            assert(!is_forest(g@)) by {
                assert(on_cycle(g@, c));
            }
            return Err(PartitionFailure::NonForest);
        }
        c = c + 1;
    }
    let mut roots: Vec<usize> = Vec::new();
    let mut k: usize = 0;
    while k < n
        invariant
            n == g@.len(),
            k <= n,
            parent@.len() == n,
            forall|a: int| 0 <= a < n ==> #[trigger] parent@[a] == caller(g@, a as usize),
            forall|t: int| 0 <= t < roots@.len() ==> (#[trigger] roots@[t]) < k && caller(g@, roots@[t]) is None,
            forall|a: int, b: int| 0 <= a < b < roots@.len() ==> #[trigger] roots@[a] < #[trigger] roots@[b],
            forall|t: int| 0 <= t < k && #[trigger] caller(g@, t as usize) is None ==> roots@.contains(t as usize),
        decreases n - k,
    {
        if parent[k].is_none() {
            let ghost before = roots@;
            roots.push(k);
            proof {
                assert(roots@[roots@.len() - 1] == k);
                assert forall|t: int| 0 <= t < k + 1 && #[trigger] caller(g@, t as usize) is None implies roots@.contains(t as usize) by {
                    if t < k {
                        let q = choose|q: int| 0 <= q < before.len() && before[q] == t as usize;
                        assert(roots@[q] == t as usize);
                    } else {
                        assert(roots@[roots@.len() - 1] == t as usize);
                    }
                }
            }
        } else {
            proof {
                assert forall|t: int| 0 <= t < k + 1 && #[trigger] caller(g@, t as usize) is None implies roots@.contains(t as usize) by {
                    if t == k {
                        assert(parent@[k as int] == caller(g@, k));
                    }
                }
            }
        }
        k = k + 1;
    }
    Ok(roots)
}


/// Call `i` lies in the tree below call `r`: `r` is `i` or one of its
/// ancestors, fewer steps up than there are calls.
pub open spec fn in_subtree(g: Seq<Vec<usize>>, r: usize, i: usize) -> bool {
    exists|k: nat| k < g.len() && #[trigger] ancestor(g, i, k) == Some(r)
}

/// The total of `w` over the calls below `m` that lie in the tree below `r`.
pub open spec fn subtree_sum(g: Seq<Vec<usize>>, r: usize, w: Seq<u128>, m: int) -> int
    decreases m,
{
    if m <= 0 {
        0
    } else {
        subtree_sum(g, r, w, m - 1) + if in_subtree(g, r, (m - 1) as usize) {
            w[m - 1] as int
        } else {
            0
        }
    }
}

proof fn lemma_subtree_sum_mono(g: Seq<Vec<usize>>, r: usize, w: Seq<u128>, m1: int, m2: int)
    requires
        m1 <= m2,
    ensures
        subtree_sum(g, r, w, m1) <= subtree_sum(g, r, w, m2),
        0 <= subtree_sum(g, r, w, m1),
    decreases m2 - m1,
{
    lemma_subtree_sum_nonneg(g, r, w, m1);
    if m1 < m2 {
        lemma_subtree_sum_mono(g, r, w, m1, m2 - 1);
    }
}

proof fn lemma_subtree_sum_nonneg(g: Seq<Vec<usize>>, r: usize, w: Seq<u128>, m: int)
    ensures
        0 <= subtree_sum(g, r, w, m),
    decreases m,
{
    if m > 0 {
        lemma_subtree_sum_nonneg(g, r, w, m - 1);
    }
}

/// Each call's caller, in a forest.
fn callers(g: &Vec<Vec<usize>>) -> (parent: Vec<Option<usize>>)
    requires
        graph_wf(g@),
        is_forest(g@),
    ensures
        parent@.len() == g@.len(),
        forall|a: int| 0 <= a < g@.len() ==> #[trigger] parent@[a] == caller(g@, a as usize),
        forall|a: int| 0 <= a < g@.len() ==> (#[trigger] parent@[a] matches Some(p) ==> p < g@.len()),
{
    let n = g.len();
    let mut parent: Vec<Option<usize>> = Vec::new();
    let mut i: usize = 0;
    while i < n
        invariant
            n == g@.len(),
            graph_wf(g@),
            is_forest(g@),
            i <= n,
            parent@.len() == i,
            forall|a: int| 0 <= a < i ==> #[trigger] parent@[a] == caller(g@, a as usize),
            forall|a: int| 0 <= a < i ==> (#[trigger] parent@[a] matches Some(p) ==> p < n),
        decreases n - i,
    {
        assert(caller_count(g@, (i as int) as usize, g@.len() as int) <= 1);
        match single_caller(g, i) {
            None => {
                parent.push(None);
                assert(false);
            },
            Some(p) => {
                parent.push(p);
            },
        }
        i = i + 1;
    }
    parent
}

/// Whether call `i` lies in the tree below call `r`.
fn is_in_subtree(g: &Vec<Vec<usize>>, parent: &Vec<Option<usize>>, r: usize, i: usize) -> (b: bool)
    requires
        i < g@.len(),
        parent@.len() == g@.len(),
        forall|a: int| 0 <= a < g@.len() ==> #[trigger] parent@[a] == caller(g@, a as usize),
        forall|a: int| 0 <= a < g@.len() ==> (#[trigger] parent@[a] matches Some(p) ==> p < g@.len()),
    ensures
        b == in_subtree(g@, r, i),
{
    let n = g.len();
    let mut x: Option<usize> = Some(i);
    let mut steps: usize = 0;
    assert(ancestor(g@, i, 0) == Some(i));
    while steps < n
        invariant
            n == g@.len(),
            i < n,
            steps <= n,
            parent@.len() == n,
            forall|a: int| 0 <= a < n ==> #[trigger] parent@[a] == caller(g@, a as usize),
            forall|a: int| 0 <= a < n ==> (#[trigger] parent@[a] matches Some(p) ==> p < n),
            x == ancestor(g@, i, steps as nat),
            x matches Some(p) ==> p < n,
            forall|t: nat| t < steps ==> #[trigger] ancestor(g@, i, t) != Some(r),
        decreases n - steps,
    {
        match x {
            None => {
                proof {
                    assert forall|t: nat| t < n implies #[trigger] ancestor(g@, i, t) != Some(r) by {
                        if t >= steps {
                            lemma_ancestor_none(g@, i, steps as nat, t);
                        }
                    }
                }
                return false;
            },
            Some(a) => {
                if a == r {
                    assert(ancestor(g@, i, steps as nat) == Some(r));
                    return true;
                }
                x = parent[a];
                assert(ancestor(g@, i, (steps + 1) as nat) == caller(g@, a));
            },
        }
        steps = steps + 1;
    }
    false
}

/// The total of `w` over the tree below `r`.
fn subtree_total(g: &Vec<Vec<usize>>, parent: &Vec<Option<usize>>, r: usize, w: &Vec<u128>) -> (t: u128)
    requires
        w@.len() == g@.len(),
        parent@.len() == g@.len(),
        forall|a: int| 0 <= a < g@.len() ==> #[trigger] parent@[a] == caller(g@, a as usize),
        forall|a: int| 0 <= a < g@.len() ==> (#[trigger] parent@[a] matches Some(p) ==> p < g@.len()),
        subtree_sum(g@, r, w@, g@.len() as int) <= u128::MAX,
    ensures
        t == subtree_sum(g@, r, w@, g@.len() as int),
{
    let n = g.len();
    let mut total: u128 = 0;
    let mut i: usize = 0;
    while i < n
        invariant
            n == g@.len(),
            w@.len() == n,
            parent@.len() == n,
            forall|a: int| 0 <= a < n ==> #[trigger] parent@[a] == caller(g@, a as usize),
            forall|a: int| 0 <= a < n ==> (#[trigger] parent@[a] matches Some(p) ==> p < n),
            subtree_sum(g@, r, w@, n as int) <= u128::MAX,
            i <= n,
            total == subtree_sum(g@, r, w@, i as int),
        decreases n - i,
    {
        proof {
            lemma_subtree_sum_mono(g@, r, w@, i + 1, n as int);
        }
        if is_in_subtree(g, parent, r, i) {
            total = total + w[i];
        }
        i = i + 1;
    }
    total
}


/// The gas a run is expected to need: what it used, plus a fifth.
pub open spec fn spec_gas_heuristic(gas: u64) -> int {
    gas + gas / 5
}

/// The cost a run is expected to have: its expected gas, priced by the ticket cost.
pub open spec fn spec_cost_heuristic(gas: u64, p: LedgerParameters) -> int {
    (spec_gas_heuristic(gas) * p.ticket_cost_multiplier) / (p.ticket_cost_divisor as int)
}

/// The expected cost of a run that used `gas`.
pub fn cost_heuristic(gas: u64, params: &LedgerParameters) -> (c: u128)
    requires
        spec_gas_heuristic(gas) <= u64::MAX,
        params.ticket_cost_divisor != 0,
    ensures
        c == spec_cost_heuristic(gas, *params),
{
    let g: u64 = gas + gas / 5;
    let a = g as u128;
    let b = params.ticket_cost_multiplier as u128;
    assert(a * b <= u64::MAX * u64::MAX) by (nonlinear_arith)
        requires
            a <= u64::MAX,
            b <= u64::MAX,
    ;
    let m = a * b;
    m / params.ticket_cost_divisor as u128
}

/// The calls below `m`, in increasing order, whose communication commitment is in `claimed`.
pub open spec fn claimed_list(claimed: Seq<Fr>, comms: Seq<Option<Fr>>, m: int) -> Seq<usize>
    decreases m,
{
    if m <= 0 {
        Seq::empty()
    } else {
        let l = claimed_list(claimed, comms, m - 1);
        if comms[m - 1] matches Some(c) && claimed.contains(c) {
            l.push((m - 1) as usize)
        } else {
            l
        }
    }
}

/// The total of `w` over the trees below each call of `l`.
pub open spec fn claimed_total(g: Seq<Vec<usize>>, l: Seq<usize>, w: Seq<u128>) -> int
    decreases l.len(),
{
    if l.len() == 0 {
        0
    } else {
        claimed_total(g, l.drop_last(), w) + subtree_sum(g, l.last(), w, g.len() as int)
    }
}

proof fn lemma_claimed_total_prefix(g: Seq<Vec<usize>>, l: Seq<usize>, w: Seq<u128>, j: int)
    requires
        0 <= j <= l.len(),
    ensures
        0 <= claimed_total(g, l.take(j), w) <= claimed_total(g, l, w),
        j < l.len() ==> claimed_total(g, l.take(j), w) + subtree_sum(g, l[j], w, g.len() as int)
            <= claimed_total(g, l, w),
    decreases l.len(),
{
    if l.len() > 0 {
        lemma_subtree_sum_nonneg(g, l.last(), w, g.len() as int);
        if j == l.len() {
            assert(l.take(j) =~= l);
            lemma_claimed_total_prefix(g, l.drop_last(), w, j - 1);
            assert(l.drop_last().take(j - 1) =~= l.drop_last());
        } else {
            assert(l.drop_last().take(j) =~= l.take(j));
            lemma_claimed_total_prefix(g, l.drop_last(), w, j);
            if j == l.len() - 1 {
                assert(l.take(j) =~= l.drop_last());
            }
        }
    }
}

/// The guaranteed budget of a call whose transcript is estimated at `size` bytes.
pub open spec fn call_budget(size: usize, p: LedgerParameters) -> u128 {
    (size * p.limits.guaranteed_cost_limit_per_byte) as u128
}

/// How many of a root's sections go into the guaranteed part, and which calls
/// it claims there: trying `n` sections from the most down, the first whose
/// run's cost, with the full costs of the trees below the calls it claims,
/// fits the budget; none when no `n` fits. A rejected run fails.
pub open spec fn choose_sections(
    g: Seq<Vec<usize>>,
    comms: Seq<Option<Fr>>,
    full: Seq<u128>,
    budget: int,
    runs: Seq<Result<(u64, Vec<Fr>), TranscriptRejected>>,
    p: LedgerParameters,
    n: nat,
) -> Result<(usize, Seq<usize>), TranscriptRejected>
    decreases n,
{
    if n == 0 {
        Ok((0, Seq::empty()))
    } else {
        match runs[n - 1] {
            Err(e) => Err(e),
            Ok((gas, claimed)) => {
                let l = claimed_list(claimed@, comms, g.len() as int);
                if spec_cost_heuristic(gas, p) + claimed_total(g, l, full) <= budget {
                    Ok((n as usize, l))
                } else {
                    choose_sections(g, comms, full, budget, runs, p, (n - 1) as nat)
                }
            },
        }
    }
}

/// Each call's guaranteed budget.
pub open spec fn budget_seq(sizes: Seq<usize>, p: LedgerParameters) -> Seq<u128> {
    sizes.map_values(|x: usize| call_budget(x, p))
}

/// Each call's expected cost, from the gas its full run used.
pub open spec fn cost_seq(gas: Seq<u64>, p: LedgerParameters) -> Seq<u128> {
    gas.map_values(|x: u64| spec_cost_heuristic(x, p) as u128)
}

/// The choices for the first `k` roots in turn, or the first rejected run.
pub open spec fn plan_choices(
    g: Seq<Vec<usize>>,
    comms: Seq<Option<Fr>>,
    budgets: Seq<u128>,
    full: Seq<u128>,
    roots: Seq<usize>,
    runs: Seq<Vec<Result<(u64, Vec<Fr>), TranscriptRejected>>>,
    p: LedgerParameters,
    k: nat,
) -> Result<Seq<(usize, Seq<usize>)>, TranscriptRejected>
    decreases k,
{
    if k == 0 {
        Ok(Seq::empty())
    } else {
        match plan_choices(g, comms, budgets, full, roots, runs, p, (k - 1) as nat) {
            Err(e) => Err(e),
            Ok(cs) => match choose_sections(
                g,
                comms,
                full,
                subtree_sum(g, roots[k - 1], budgets, g.len() as int),
                runs[k - 1]@,
                p,
                runs[k - 1]@.len(),
            ) {
                Err(e) => Err(e),
                Ok(c) => Ok(cs.push(c)),
            },
        }
    }
}

/// Call `i` lies in the tree below one of the calls of `l`.
pub open spec fn in_claimed_trees(g: Seq<Vec<usize>>, l: Seq<usize>, i: usize) -> bool {
    exists|q: int| 0 <= q < l.len() && in_subtree(g, #[trigger] l[q], i)
}

/// The sections after a root's choice: the root takes its count, and every
/// call in the trees below the calls it claims goes wholly into the guaranteed part.
pub open spec fn apply_choice(
    g: Seq<Vec<usize>>,
    no_ckpts: Seq<usize>,
    s: Seq<usize>,
    root: usize,
    c: (usize, Seq<usize>),
) -> Seq<usize> {
    let s1 = s.update(root as int, c.0);
    Seq::new(
        s.len(),
        |i: int|
            if in_claimed_trees(g, c.1, i as usize) {
                (no_ckpts[i] + 1) as usize
            } else {
                s1[i]
            },
    )
}

/// The sections after the choices of the first `k` roots in turn.
pub open spec fn sections_after(
    g: Seq<Vec<usize>>,
    no_ckpts: Seq<usize>,
    roots: Seq<usize>,
    cs: Seq<(usize, Seq<usize>)>,
    k: nat,
) -> Seq<usize>
    decreases k,
{
    if k == 0 {
        Seq::new(g.len(), |i: int| 0usize)
    } else {
        apply_choice(g, no_ckpts, sections_after(g, no_ckpts, roots, cs, (k - 1) as nat), roots[k - 1], cs[k - 1])
    }
}

/// How many sections of each call go into the guaranteed part: each root's
/// choice, then the calls it claims there, wholly.
pub open spec fn spec_guaranteed_sections(
    g: Seq<Vec<usize>>,
    roots: Seq<usize>,
    comms: Seq<Option<Fr>>,
    no_ckpts: Seq<usize>,
    sizes: Seq<usize>,
    full_gas: Seq<u64>,
    runs: Seq<Vec<Result<(u64, Vec<Fr>), TranscriptRejected>>>,
    p: LedgerParameters,
) -> Result<Seq<usize>, TranscriptRejected> {
    match plan_choices(g, comms, budget_seq(sizes, p), cost_seq(full_gas, p), roots, runs, p, roots.len()) {
        Err(e) => Err(e),
        Ok(cs) => Ok(sections_after(g, no_ckpts, roots, cs, roots.len())),
    }
}

/// The calls, in increasing order, whose communication commitment is in `claimed`.
fn claimed_indices(claimed: &Vec<Fr>, comms: &Vec<Option<Fr>>) -> (l: Vec<usize>)
    ensures
        l@ == claimed_list(claimed@, comms@, comms@.len() as int),
{
    let mut l: Vec<usize> = Vec::new();
    let mut j: usize = 0;
    while j < comms.len()
        invariant
            j <= comms@.len(),
            l@ == claimed_list(claimed@, comms@, j as int),
        decreases comms@.len() - j,
    {
        match comms[j] {
            Some(c) => {
                if contains_fr(claimed, c) {
                    l.push(j);
                }
            },
            None => {},
        }
        j = j + 1;
    }
    l
}

/// The total of `w` over the trees below each call of `l`.
fn claimed_sum(g: &Vec<Vec<usize>>, parent: &Vec<Option<usize>>, l: &Vec<usize>, w: &Vec<u128>) -> (t: u128)
    requires
        w@.len() == g@.len(),
        parent@.len() == g@.len(),
        forall|a: int| 0 <= a < g@.len() ==> #[trigger] parent@[a] == caller(g@, a as usize),
        forall|a: int| 0 <= a < g@.len() ==> (#[trigger] parent@[a] matches Some(p) ==> p < g@.len()),
        claimed_total(g@, l@, w@) <= u128::MAX,
    ensures
        t == claimed_total(g@, l@, w@),
{
    let mut total: u128 = 0;
    let mut q: usize = 0;
    assert(l@.take(0) =~= Seq::<usize>::empty());
    while q < l.len()
        invariant
            w@.len() == g@.len(),
            parent@.len() == g@.len(),
            forall|a: int| 0 <= a < g@.len() ==> #[trigger] parent@[a] == caller(g@, a as usize),
            forall|a: int| 0 <= a < g@.len() ==> (#[trigger] parent@[a] matches Some(p) ==> p < g@.len()),
            claimed_total(g@, l@, w@) <= u128::MAX,
            q <= l@.len(),
            total == claimed_total(g@, l@.take(q as int), w@),
        decreases l@.len() - q,
    {
        proof {
            lemma_claimed_total_prefix(g@, l@, w@, q as int);
            let t1 = l@.take(q + 1);
            assert(t1.drop_last() =~= l@.take(q as int));
            assert(t1.last() == l@[q as int]);
        }
        let part = subtree_total(g, parent, l[q], w);
        total = total + part;
        q = q + 1;
    }
    assert(l@.take(l@.len() as int) =~= l@);
    total
}

/// The runs' costs with the trees below their claims fit in `u128`, and their gas in `u64`.
pub open spec fn runs_bounded(
    g: Seq<Vec<usize>>,
    comms: Seq<Option<Fr>>,
    full: Seq<u128>,
    runs: Seq<Result<(u64, Vec<Fr>), TranscriptRejected>>,
    p: LedgerParameters,
) -> bool {
    forall|j: int|
        0 <= j < runs.len() ==> (#[trigger] runs[j] matches Ok((gas, claimed)) ==> {
            &&& spec_gas_heuristic(gas) <= u64::MAX
            &&& spec_cost_heuristic(gas, p) + claimed_total(g, claimed_list(claimed@, comms, g.len() as int), full)
                <= u128::MAX
        })
}

/// A root's choice, as `choose_sections` makes it from the runs to each of
/// its checkpoints, the last first.
fn choose_sections_exec(
    g: &Vec<Vec<usize>>,
    parent: &Vec<Option<usize>>,
    comms: &Vec<Option<Fr>>,
    full: &Vec<u128>,
    budget: u128,
    runs: Vec<Result<(u64, Vec<Fr>), TranscriptRejected>>,
    params: &LedgerParameters,
) -> (r: Result<(usize, Vec<usize>), TranscriptRejected>)
    requires
        full@.len() == g@.len(),
        comms@.len() == g@.len(),
        parent@.len() == g@.len(),
        forall|a: int| 0 <= a < g@.len() ==> #[trigger] parent@[a] == caller(g@, a as usize),
        forall|a: int| 0 <= a < g@.len() ==> (#[trigger] parent@[a] matches Some(p) ==> p < g@.len()),
        params.ticket_cost_divisor != 0,
        runs_bounded(g@, comms@, full@, runs@, *params),
    ensures
        match choose_sections(g@, comms@, full@, budget as int, runs@, *params, runs@.len()) {
            Ok((n, l)) => r matches Ok((n2, l2)) && n2 == n && l2@ == l,
            Err(e) => r == Err::<(usize, Vec<usize>), TranscriptRejected>(e),
        },
{
    let ghost all = runs@;
    let mut rs = runs;
    while rs.len() > 0
        invariant
            full@.len() == g@.len(),
            comms@.len() == g@.len(),
            parent@.len() == g@.len(),
            forall|a: int| 0 <= a < g@.len() ==> #[trigger] parent@[a] == caller(g@, a as usize),
            forall|a: int| 0 <= a < g@.len() ==> (#[trigger] parent@[a] matches Some(p) ==> p < g@.len()),
            params.ticket_cost_divisor != 0,
            all == runs@,
            runs_bounded(g@, comms@, full@, all, *params),
            rs@.len() <= all.len(),
            rs@ == all.take(rs@.len() as int),
            choose_sections(g@, comms@, full@, budget as int, all, *params, all.len()) == choose_sections(
                g@,
                comms@,
                full@,
                budget as int,
                all,
                *params,
                rs@.len(),
            ),
        decreases rs@.len(),
    {
        let k = rs.len();
        let run = rs.pop().unwrap();
        proof {
            assert(run == all[k - 1]);
            assert(rs@ =~= all.take(k - 1));
        }
        match run {
            Err(e) => {
                return Err(e);
            },
            Ok((gas, claimed)) => {
                let l = claimed_indices(&claimed, comms);
                let cost = cost_heuristic(gas, params);
                let extra = claimed_sum(g, parent, &l, full);
                if cost + extra <= budget {
                    return Ok((k, l));
                }
            },
        }
    }
    Ok((0, Vec::new()))
}

/// Whether call `i` lies in the tree below one of the calls of `l`.
fn in_claimed_trees_exec(g: &Vec<Vec<usize>>, parent: &Vec<Option<usize>>, l: &Vec<usize>, i: usize) -> (b: bool)
    requires
        i < g@.len(),
        parent@.len() == g@.len(),
        forall|a: int| 0 <= a < g@.len() ==> #[trigger] parent@[a] == caller(g@, a as usize),
        forall|a: int| 0 <= a < g@.len() ==> (#[trigger] parent@[a] matches Some(p) ==> p < g@.len()),
    ensures
        b == in_claimed_trees(g@, l@, i),
{
    let mut q: usize = 0;
    while q < l.len()
        invariant
            i < g@.len(),
            parent@.len() == g@.len(),
            forall|a: int| 0 <= a < g@.len() ==> #[trigger] parent@[a] == caller(g@, a as usize),
            forall|a: int| 0 <= a < g@.len() ==> (#[trigger] parent@[a] matches Some(p) ==> p < g@.len()),
            q <= l@.len(),
            forall|t: int| 0 <= t < q ==> !in_subtree(g@, #[trigger] l@[t], i),
        decreases l@.len() - q,
    {
        if is_in_subtree(g, parent, l[q], i) {
            return true;
        }
        q = q + 1;
    }
    false
}

/// Applies a root's choice to the sections, as `apply_choice` does.
fn apply_choice_exec(
    sections: &mut Vec<usize>,
    g: &Vec<Vec<usize>>,
    parent: &Vec<Option<usize>>,
    no_ckpts: &Vec<usize>,
    root: usize,
    count: usize,
    claimed: &Vec<usize>,
)
    requires
        old(sections)@.len() == g@.len(),
        no_ckpts@.len() == g@.len(),
        root < g@.len(),
        forall|a: int| 0 <= a < g@.len() ==> #[trigger] no_ckpts@[a] < usize::MAX,
        parent@.len() == g@.len(),
        forall|a: int| 0 <= a < g@.len() ==> #[trigger] parent@[a] == caller(g@, a as usize),
        forall|a: int| 0 <= a < g@.len() ==> (#[trigger] parent@[a] matches Some(p) ==> p < g@.len()),
    ensures
        final(sections)@ == apply_choice(g@, no_ckpts@, old(sections)@, root, (count, claimed@)),
{
    let ghost s1 = old(sections)@.update(root as int, count);
    sections.set(root, count);
    let n = g.len();
    let mut i: usize = 0;
    while i < n
        invariant
            n == g@.len(),
            sections@.len() == n,
            no_ckpts@.len() == n,
            forall|a: int| 0 <= a < n ==> #[trigger] no_ckpts@[a] < usize::MAX,
            parent@.len() == n,
            forall|a: int| 0 <= a < n ==> #[trigger] parent@[a] == caller(g@, a as usize),
            forall|a: int| 0 <= a < n ==> (#[trigger] parent@[a] matches Some(p) ==> p < n),
            s1.len() == n,
            i <= n,
            forall|a: int| 0 <= a < i ==> #[trigger] sections@[a] == (if in_claimed_trees(g@, claimed@, a as usize) {
                (no_ckpts@[a] + 1) as usize
            } else {
                s1[a]
            }),
            forall|a: int| i <= a < n ==> #[trigger] sections@[a] == s1[a],
        decreases n - i,
    {
        if in_claimed_trees_exec(g, parent, claimed, i) {
            sections.set(i, no_ckpts[i] + 1);
        }
        i = i + 1;
    }
    assert(sections@ =~= apply_choice(g@, no_ckpts@, old(sections)@, root, (count, claimed@)));
}

/// Once the choices of a prefix of the roots fail, those of all fail the same way.
proof fn lemma_plan_err_prefix(
    g: Seq<Vec<usize>>,
    comms: Seq<Option<Fr>>,
    budgets: Seq<u128>,
    full: Seq<u128>,
    roots: Seq<usize>,
    runs: Seq<Vec<Result<(u64, Vec<Fr>), TranscriptRejected>>>,
    p: LedgerParameters,
    j: nat,
    k: nat,
)
    requires
        j <= k,
        plan_choices(g, comms, budgets, full, roots, runs, p, j) is Err,
    ensures
        plan_choices(g, comms, budgets, full, roots, runs, p, k) == plan_choices(g, comms, budgets, full, roots, runs, p, j),
    decreases k,
{
    if j < k {
        lemma_plan_err_prefix(g, comms, budgets, full, roots, runs, p, j, (k - 1) as nat);
    }
}

/// The inputs of the section split: a forest of calls with its roots, and
/// per-call data of one length, with the bounds under which the arithmetic fits.
pub open spec fn split_ready(
    g: Seq<Vec<usize>>,
    roots: Seq<usize>,
    comms: Seq<Option<Fr>>,
    no_ckpts: Seq<usize>,
    sizes: Seq<usize>,
    full_gas: Seq<u64>,
    runs: Seq<Vec<Result<(u64, Vec<Fr>), TranscriptRejected>>>,
    p: LedgerParameters,
) -> bool {
    &&& graph_wf(g)
    &&& is_forest(g)
    &&& comms.len() == g.len()
    &&& no_ckpts.len() == g.len()
    &&& sizes.len() == g.len()
    &&& full_gas.len() == g.len()
    &&& runs.len() == roots.len()
    &&& p.ticket_cost_divisor != 0
    &&& forall|k: int| 0 <= k < roots.len() ==> #[trigger] roots[k] < g.len()
    &&& forall|k: int| 0 <= k < roots.len() ==> (#[trigger] runs[k])@.len() == no_ckpts[roots[k] as int] + 1
    &&& forall|a: int| 0 <= a < g.len() ==> #[trigger] no_ckpts[a] < usize::MAX
    &&& forall|a: int| 0 <= a < g.len() ==> spec_gas_heuristic(#[trigger] full_gas[a]) <= u64::MAX
    &&& forall|k: int| 0 <= k < roots.len() ==> subtree_sum(g, #[trigger] roots[k], budget_seq(sizes, p), g.len() as int)
        <= u128::MAX
    &&& forall|k: int| 0 <= k < runs.len() ==> runs_bounded(g, comms, cost_seq(full_gas, p), #[trigger] runs[k]@, p)
}

/// How many sections of each call go into the guaranteed part of a
/// transaction. `g` is the call graph and `roots` its roots; per call,
/// `comms` is its communication commitment, `no_ckpts` its number of
/// checkpoints, `sizes` the estimated size of its transcript and `full_gas`
/// the gas its full run used; `runs[k][n]` is how the run of the `k`-th root
/// to its checkpoint `n` went: the gas used and the commitments it claimed.
pub fn guaranteed_sections(
    g: &Vec<Vec<usize>>,
    roots: &Vec<usize>,
    comms: &Vec<Option<Fr>>,
    no_ckpts: &Vec<usize>,
    sizes: &Vec<usize>,
    full_gas: &Vec<u64>,
    runs: Vec<Vec<Result<(u64, Vec<Fr>), TranscriptRejected>>>,
    params: &LedgerParameters,
) -> (r: Result<Vec<usize>, TranscriptRejected>)
    requires
        split_ready(g@, roots@, comms@, no_ckpts@, sizes@, full_gas@, runs@, *params),
    ensures
        match spec_guaranteed_sections(g@, roots@, comms@, no_ckpts@, sizes@, full_gas@, runs@, *params) {
            Ok(s) => r matches Ok(v) && v@ == s,
            Err(e) => r == Err::<Vec<usize>, TranscriptRejected>(e),
        },
{
    let n = g.len();
    let parent = callers(g);
    let mut budgets: Vec<u128> = Vec::new();
    let mut full: Vec<u128> = Vec::new();
    let mut i: usize = 0;
    while i < n
        invariant
            n == g@.len(),
            sizes@.len() == n,
            full_gas@.len() == n,
            params.ticket_cost_divisor != 0,
            forall|a: int| 0 <= a < n ==> spec_gas_heuristic(#[trigger] full_gas@[a]) <= u64::MAX,
            i <= n,
            budgets@ == budget_seq(sizes@, *params).take(i as int),
            full@ == cost_seq(full_gas@, *params).take(i as int),
        decreases n - i,
    {
        let x = sizes[i] as u128;
        let y = params.limits.guaranteed_cost_limit_per_byte as u128;
        assert(x * y <= u64::MAX * u64::MAX) by (nonlinear_arith)
            requires
                x <= u64::MAX,
                y <= u64::MAX,
        ;
        let b = x * y;
        budgets.push(b);
        let c = cost_heuristic(full_gas[i], params);
        full.push(c);
        proof {
            assert(budgets@ =~= budget_seq(sizes@, *params).take(i + 1));
            assert(full@ =~= cost_seq(full_gas@, *params).take(i + 1));
        }
        i = i + 1;
    }
    assert(budgets@ =~= budget_seq(sizes@, *params));
    assert(full@ =~= cost_seq(full_gas@, *params));
    let ghost all = runs@;
    let ghost bs = budget_seq(sizes@, *params);
    let ghost fs = cost_seq(full_gas@, *params);
    let mut rest = runs;
    let mut choices: Vec<(usize, Vec<usize>)> = Vec::new();
    let ghost mut cs: Seq<(usize, Seq<usize>)> = Seq::empty();
    let mut k: usize = 0;
    while k < roots.len()
        invariant
            n == g@.len(),
            split_ready(g@, roots@, comms@, no_ckpts@, sizes@, full_gas@, all, *params),
            all == runs@,
            budgets@ == bs,
            full@ == fs,
            bs == budget_seq(sizes@, *params),
            fs == cost_seq(full_gas@, *params),
            parent@.len() == n,
            forall|a: int| 0 <= a < n ==> #[trigger] parent@[a] == caller(g@, a as usize),
            forall|a: int| 0 <= a < n ==> (#[trigger] parent@[a] matches Some(p) ==> p < n),
            k <= roots@.len(),
            rest@ == all.skip(k as int),
            plan_choices(g@, comms@, bs, fs, roots@, all, *params, k as nat) == Ok::<
                Seq<(usize, Seq<usize>)>,
                TranscriptRejected,
            >(cs),
            choices@.len() == k,
            cs.len() == k,
            forall|q: int| 0 <= q < k ==> (#[trigger] choices@[q]).0 == cs[q].0 && choices@[q].1@ == cs[q].1,
        decreases roots@.len() - k,
    {
        let rs = rest.remove(0);
        proof {
            assert(rs == all[k as int]);
            assert(rest@ =~= all.skip(k + 1));
        }
        let root = roots[k];
        let budget = subtree_total(g, &parent, root, &budgets);
        match choose_sections_exec(g, &parent, comms, &full, budget, rs, params) {
            Err(e) => {
                proof {
                    lemma_plan_err_prefix(g@, comms@, bs, fs, roots@, all, *params, (k + 1) as nat, roots@.len());
                }
                return Err(e);
            },
            Ok((count, l)) => {
                let ghost c = (count, l@);
                choices.push((count, l));
                proof {
                    cs = cs.push(c);
                }
            },
        }
        k = k + 1;
    }
    let mut sections: Vec<usize> = Vec::new();
    let mut z: usize = 0;
    while z < n
        invariant
            z <= n,
            sections@ == Seq::new(z as nat, |a: int| 0usize),
        decreases n - z,
    {
        sections.push(0);
        proof {
            assert(sections@ =~= Seq::new((z + 1) as nat, |a: int| 0usize));
        }
        z = z + 1;
    }
    assert(sections@ == sections_after(g@, no_ckpts@, roots@, cs, 0));
    let mut j: usize = 0;
    while j < roots.len()
        invariant
            n == g@.len(),
            split_ready(g@, roots@, comms@, no_ckpts@, sizes@, full_gas@, all, *params),
            parent@.len() == n,
            forall|a: int| 0 <= a < n ==> #[trigger] parent@[a] == caller(g@, a as usize),
            forall|a: int| 0 <= a < n ==> (#[trigger] parent@[a] matches Some(p) ==> p < n),
            j <= roots@.len(),
            choices@.len() == roots@.len(),
            cs.len() == roots@.len(),
            forall|q: int| 0 <= q < roots@.len() ==> (#[trigger] choices@[q]).0 == cs[q].0 && choices@[q].1@ == cs[q].1,
            sections@ == sections_after(g@, no_ckpts@, roots@, cs, j as nat),
            sections@.len() == n,
        decreases roots@.len() - j,
    {
        let ghost before = sections@;
        apply_choice_exec(&mut sections, g, &parent, no_ckpts, roots[j], choices[j].0, &choices[j].1);
        proof {
            assert(choices@[j as int].0 == cs[j as int].0);
            assert(choices@[j as int].1@ == cs[j as int].1);
        }
        j = j + 1;
    }
    Ok(sections)
}

} // verus!
