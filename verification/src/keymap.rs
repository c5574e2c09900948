//! A finite map kept as a vector of distinct keys with their values.
use vstd::prelude::*;

verus! {

/// Keys whose equality can be decided in executable code.
pub trait ExactEq: Sized + Copy {
    fn exact_eq(&self, other: &Self) -> (b: bool)
        ensures
            b == (*self == *other),
    ;
}

/// The map a sequence of entries stands for: later entries override earlier ones.
pub open spec fn entries_map<K, V>(s: Seq<(K, V)>) -> Map<K, V>
    decreases s.len(),
{
    if s.len() == 0 {
        Map::empty()
    } else {
        entries_map(s.drop_last()).insert(s.last().0, s.last().1)
    }
}

/// No key occurs twice.
pub open spec fn distinct_keys<K, V>(s: Seq<(K, V)>) -> bool {
    forall|i: int, j: int| 0 <= i < j < s.len() ==> #[trigger] s[i].0 != #[trigger] s[j].0
}

/// A key is in the map exactly when some entry has it.
pub proof fn lemma_entries_dom<K, V>(s: Seq<(K, V)>, k: K)
    ensures
        entries_map(s).contains_key(k) <==> exists|i: int| 0 <= i < s.len() && #[trigger] s[i].0 == k,
    decreases s.len(),
{
    if s.len() > 0 {
        lemma_entries_dom(s.drop_last(), k);
        if entries_map(s).contains_key(k) {
            if s.last().0 == k {
                assert(s[s.len() - 1].0 == k);
            } else {
                let i = choose|i: int| 0 <= i < s.drop_last().len() && #[trigger] s.drop_last()[i].0 == k;
                assert(s[i].0 == k);
            }
        }
        if exists|i: int| 0 <= i < s.len() && #[trigger] s[i].0 == k {
            let i = choose|i: int| 0 <= i < s.len() && #[trigger] s[i].0 == k;
            if i < s.len() - 1 {
                assert(s.drop_last()[i].0 == k);
            }
        }
    }
}

/// With distinct keys, the value of a key is that of its entry.
pub proof fn lemma_entries_value<K, V>(s: Seq<(K, V)>, i: int)
    requires
        distinct_keys(s),
        0 <= i < s.len(),
    ensures
        entries_map(s).contains_key(s[i].0),
        entries_map(s)[s[i].0] == s[i].1,
    decreases s.len(),
{
    if i < s.len() - 1 {
        let t = s.drop_last();
        assert(distinct_keys(t)) by {
            assert forall|a: int, b: int| 0 <= a < b < t.len() implies #[trigger] t[a].0 != #[trigger] t[b].0 by {
                assert(s[a].0 != s[b].0);
            }
        }
        assert(t[i] == s[i]);
        lemma_entries_value(t, i);
        assert(s[i].0 != s[s.len() - 1].0);
    }
}

/// With distinct keys, the map has as many keys as there are entries.
pub proof fn lemma_entries_len<K, V>(s: Seq<(K, V)>)
    requires
        distinct_keys(s),
    ensures
        entries_map(s).dom().finite(),
        entries_map(s).dom().len() == s.len(),
    decreases s.len(),
{
    if s.len() > 0 {
        let t = s.drop_last();
        assert(distinct_keys(t)) by {
            assert forall|a: int, b: int| 0 <= a < b < t.len() implies #[trigger] t[a].0 != #[trigger] t[b].0 by {
                assert(s[a].0 != s[b].0);
            }
        }
        lemma_entries_len(t);
        lemma_entries_dom(t, s.last().0);
        if entries_map(t).contains_key(s.last().0) {
            let i = choose|i: int| 0 <= i < t.len() && #[trigger] t[i].0 == s.last().0;
            assert(s[i].0 != s[s.len() - 1].0);
        }
    }
}

/// A finite map of keys to values, kept as distinct entries.
#[derive(Clone, Debug)]
pub struct KeyMap<K, V> {
    entries: Vec<(K, V)>,
}

impl<K, V> View for KeyMap<K, V> {
    type V = Map<K, V>;

    closed spec fn view(&self) -> Map<K, V> {
        entries_map(self.entries@)
    }
}

impl<K: ExactEq, V> KeyMap<K, V> {
    /// The entries hold distinct keys.
    pub closed spec fn wf(&self) -> bool {
        distinct_keys(self.entries@)
    }

    /// The number of entries.
    pub closed spec fn spec_len(&self) -> nat {
        self.entries@.len()
    }

    /// The empty map.
    pub fn new() -> (m: Self)
        ensures
            m.wf(),
            m@ == Map::<K, V>::empty(),
            m.spec_len() == 0,
    {
        KeyMap { entries: Vec::new() }
    }

    /// The position of the entry for `k`, if any.
    fn find(&self, k: &K) -> (r: Option<usize>)
        requires
            self.wf(),
        ensures
            match r {
                Some(i) => i < self.entries@.len() && self.entries@[i as int].0 == *k,
                None => !self@.contains_key(*k),
            },
    {
        let mut i: usize = 0;
        while i < self.entries.len()
            invariant
                i <= self.entries@.len(),
                forall|j: int| 0 <= j < i ==> #[trigger] self.entries@[j].0 != *k,
            decreases self.entries@.len() - i,
        {
            if self.entries[i].0.exact_eq(k) {
                return Some(i);
            }
            i = i + 1;
        }
        proof {
            lemma_entries_dom(self.entries@, *k);
        }
        None
    }

    /// The number of keys.
    pub fn size(&self) -> (n: usize)
        requires
            self.wf(),
        ensures
            n == self@.dom().len(),
            n == self.spec_len(),
            self@.dom().finite(),
    {
        proof {
            lemma_entries_len(self.entries@);
        }
        self.entries.len()
    }

    /// Whether `k` has a value.
    pub fn contains_key(&self, k: &K) -> (b: bool)
        requires
            self.wf(),
        ensures
            b == self@.contains_key(*k),
    {
        match self.find(k) {
            Some(i) => {
                proof {
                    lemma_entries_value(self.entries@, i as int);
                }
                true
            },
            None => false,
        }
    }

    /// The keys in the order the map holds them.
    pub closed spec fn key_seq(&self) -> Seq<K> {
        self.entries@.map_values(|e: (K, V)| e.0)
    }

    /// The keys, each once, in the order the map holds them.
    pub fn keys(&self) -> (r: Vec<K>)
        requires
            self.wf(),
        ensures
            r@ == self.key_seq(),
            r@.no_duplicates(),
            forall|k: K| #[trigger] self@.contains_key(k) <==> r@.contains(k),
    {
        let mut out: Vec<K> = Vec::new();
        let mut i: usize = 0;
        while i < self.entries.len()
            invariant
                i <= self.entries@.len(),
                out@ == self.entries@.take(i as int).map_values(|e: (K, V)| e.0),
            decreases self.entries@.len() - i,
        {
            out.push(self.entries[i].0);
            assert(self.entries@.take(i + 1) =~= self.entries@.take(i as int).push(self.entries@[i as int]));
            assert(out@ =~= self.entries@.take(i + 1).map_values(|e: (K, V)| e.0));
            i = i + 1;
        }
        assert(self.entries@.take(self.entries@.len() as int) =~= self.entries@);
        proof {
            assert forall|a: int, b: int| 0 <= a < out@.len() && 0 <= b < out@.len() && a != b implies out@[a]
                != out@[b] by {
                if a < b {
                    assert(self.entries@[a].0 != self.entries@[b].0);
                } else {
                    assert(self.entries@[b].0 != self.entries@[a].0);
                }
            }
            assert forall|k: K| #[trigger] self@.contains_key(k) <==> out@.contains(k) by {
                lemma_entries_dom(self.entries@, k);
                if out@.contains(k) {
                    let i = choose|i: int| 0 <= i < out@.len() && out@[i] == k;
                    assert(self.entries@[i].0 == k);
                }
                if self@.contains_key(k) {
                    let i = choose|i: int| 0 <= i < self.entries@.len() && #[trigger] self.entries@[i].0 == k;
                    assert(out@[i] == k);
                }
            }
        }
        out
    }

    /// The value of `k`, by reference, if it has one.
    pub fn get_ref(&self, k: &K) -> (r: Option<&V>)
        requires
            self.wf(),
        ensures
            match r {
                Some(v) => self@.contains_key(*k) && *v == self@[*k],
                None => !self@.contains_key(*k),
            },
    {
        match self.find(k) {
            Some(i) => {
                proof {
                    lemma_entries_value(self.entries@, i as int);
                }
                Some(&self.entries[i].1)
            },
            None => None,
        }
    }

    /// Sets the value of `k` to `v`.
    pub fn insert(&mut self, k: K, v: V)
        requires
            old(self).wf(),
        ensures
            final(self).wf(),
            final(self)@ == old(self)@.insert(k, v),
            final(self).spec_len() == old(self).spec_len() + if old(self)@.contains_key(k) { 0nat } else { 1 },
    {
        let ghost s = self.entries@;
        match self.find(&k) {
            Some(i) => {
                self.entries.set(i, (k, v));
                proof {
                    let t = self.entries@;
                    assert(t == s.update(i as int, (k, v)));
                    assert(distinct_keys(t)) by {
                        assert forall|a: int, b: int| 0 <= a < b < t.len() implies #[trigger] t[a].0 != #[trigger] t[b].0 by {
                            assert(s[a].0 != s[b].0);
                        }
                    }
                    lemma_entries_value(s, i as int);
                    assert forall|key: K| #[trigger] entries_map(t).contains_key(key) == entries_map(s).insert(k, v).contains_key(key) by {
                        lemma_entries_dom(t, key);
                        lemma_entries_dom(s, key);
                        if exists|j: int| 0 <= j < s.len() && #[trigger] s[j].0 == key {
                            let j = choose|j: int| 0 <= j < s.len() && #[trigger] s[j].0 == key;
                            assert(t[j].0 == key);
                        }
                        if exists|j: int| 0 <= j < t.len() && #[trigger] t[j].0 == key {
                            let j = choose|j: int| 0 <= j < t.len() && #[trigger] t[j].0 == key;
                            assert(s[j].0 == key);
                        }
                    }
                    assert forall|key: K| #[trigger] entries_map(t).contains_key(key) implies entries_map(t)[key] == entries_map(s).insert(k, v)[key] by {
                        lemma_entries_dom(t, key);
                        let j = choose|j: int| 0 <= j < t.len() && #[trigger] t[j].0 == key;
                        lemma_entries_value(t, j);
                        if j != i {
                            assert(s[j] == t[j]);
                            lemma_entries_value(s, j);
                        }
                    }
                    assert(entries_map(t) =~= entries_map(s).insert(k, v));
                }
            },
            None => {
                self.entries.push((k, v));
                proof {
                    let t = self.entries@;
                    assert(t.drop_last() =~= s);
                    lemma_entries_dom(s, k);
                    assert(distinct_keys(t)) by {
                        assert forall|a: int, b: int| 0 <= a < b < t.len() implies #[trigger] t[a].0 != #[trigger] t[b].0 by {
                            if b == t.len() - 1 {
                                assert(s[a].0 == t[a].0);
                            } else {
                                assert(s[a].0 != s[b].0);
                            }
                        }
                    }
                }
            },
        }
    }

    /// Removes the entry of `k`, if any, and hands back its value.
    pub fn take(&mut self, k: &K) -> (r: Option<V>)
        requires
            old(self).wf(),
        ensures
            final(self).wf(),
            final(self)@ == old(self)@.remove(*k),
            final(self).spec_len() == old(self).spec_len() - if old(self)@.contains_key(*k) { 1int } else { 0 },
            match r {
                Some(v) => old(self)@.contains_key(*k) && v == old(self)@[*k],
                None => !old(self)@.contains_key(*k),
            },
    {
        let ghost s = self.entries@;
        match self.find(k) {
            Some(i) => {
                let (_, v) = self.entries.remove(i);
                proof {
                    lemma_entries_value(s, i as int);
                    let t = self.entries@;
                    assert(t =~= s.remove(i as int));
                    assert(distinct_keys(t)) by {
                        assert forall|a: int, b: int| 0 <= a < b < t.len() implies #[trigger] t[a].0 != #[trigger] t[b].0 by {
                            if b < i {
                                assert(s[a].0 != s[b].0);
                            } else if a < i {
                                assert(s[a].0 != s[b + 1].0);
                            } else {
                                assert(s[a + 1].0 != s[b + 1].0);
                            }
                        }
                    }
                    assert forall|key: K| #[trigger] entries_map(t).contains_key(key) == entries_map(s).remove(*k).contains_key(key) by {
                        lemma_entries_dom(t, key);
                        lemma_entries_dom(s, key);
                        if exists|j: int| 0 <= j < s.len() && #[trigger] s[j].0 == key {
                            let j = choose|j: int| 0 <= j < s.len() && #[trigger] s[j].0 == key;
                            if key != *k {
                                if j < i {
                                    assert(t[j].0 == key);
                                } else {
                                    assert(j != i);
                                    assert(t[j - 1].0 == key);
                                }
                            }
                        }
                        if exists|j: int| 0 <= j < t.len() && #[trigger] t[j].0 == key {
                            let j = choose|j: int| 0 <= j < t.len() && #[trigger] t[j].0 == key;
                            if j < i {
                                assert(s[j].0 == key);
                                assert(s[j].0 != s[i as int].0);
                            } else {
                                assert(s[j + 1].0 == key);
                                assert(s[j + 1].0 != s[i as int].0);
                            }
                        }
                    }
                    assert forall|key: K| #[trigger] entries_map(t).contains_key(key) implies entries_map(t)[key] == entries_map(s).remove(*k)[key] by {
                        lemma_entries_dom(t, key);
                        let j = choose|j: int| 0 <= j < t.len() && #[trigger] t[j].0 == key;
                        lemma_entries_value(t, j);
                        if j < i {
                            assert(s[j] == t[j]);
                            lemma_entries_value(s, j);
                            assert(s[j].0 != s[i as int].0);
                        } else {
                            assert(s[j + 1] == t[j]);
                            lemma_entries_value(s, j + 1);
                            assert(s[j + 1].0 != s[i as int].0);
                        }
                    }
                    assert(entries_map(t) =~= entries_map(s).remove(*k));
                }
                Some(v)
            },
            None => {
                assert(entries_map(s) =~= entries_map(s).remove(*k));
                None
            },
        }
    }

    /// Removes the value of `k`, if any.
    pub fn remove(&mut self, k: &K)
        requires
            old(self).wf(),
        ensures
            final(self).wf(),
            final(self)@ == old(self)@.remove(*k),
    {
        let _ = self.take(k);
    }
}

impl<K: ExactEq, V: Clone> KeyMap<K, V> {
    /// The value of `k`, if it has one.
    pub fn get(&self, k: &K) -> (r: Option<V>)
        requires
            self.wf(),
        ensures
            match r {
                Some(v) => self@.contains_key(*k) && cloned::<V>(self@[*k], v),
                None => !self@.contains_key(*k),
            },
    {
        match self.find(k) {
            Some(i) => {
                proof {
                    lemma_entries_value(self.entries@, i as int);
                }
                Some(self.entries[i].1.clone())
            },
            None => None,
        }
    }
}

impl<K: ExactEq, V: Copy> KeyMap<K, V> {
    /// A copy of the map, entry for entry.
    pub fn duplicate(&self) -> (m: Self)
        ensures
            m@ == self@,
            m.wf() == self.wf(),
            m.spec_len() == self.spec_len(),
    {
        let mut entries: Vec<(K, V)> = Vec::new();
        let mut i: usize = 0;
        while i < self.entries.len()
            invariant
                i <= self.entries@.len(),
                entries@ == self.entries@.take(i as int),
            decreases self.entries@.len() - i,
        {
            let e = self.entries[i];
            entries.push(e);
            assert(self.entries@.take(i + 1) =~= self.entries@.take(i as int).push(self.entries@[i as int]));
            i = i + 1;
        }
        assert(self.entries@.take(self.entries@.len() as int) =~= self.entries@);
        KeyMap { entries }
    }
}


impl<K: ExactEq, V: ExactEq> KeyMap<K, V> {
    /// Every key of this map has the same value in `other`.
    fn included_in(&self, other: &Self) -> (b: bool)
        requires
            self.wf(),
            other.wf(),
        ensures
            b == forall|k: K| #[trigger] self@.contains_key(k) ==> other@.contains_key(k) && other@[k] == self@[k],
    {
        let ghost s = self.entries@;
        let mut i: usize = 0;
        while i < self.entries.len()
            invariant
                s == self.entries@,
                self.wf(),
                other.wf(),
                i <= s.len(),
                forall|j: int| 0 <= j < i ==> other@.contains_key(#[trigger] s[j].0) && other@[s[j].0] == s[j].1,
            decreases s.len() - i,
        {
            proof {
                lemma_entries_value(s, i as int);
            }
            match other.find(&self.entries[i].0) {
                None => {
                    assert(self@.contains_key(s[i as int].0) && !other@.contains_key(s[i as int].0));
                    return false;
                },
                Some(j) => {
                    proof {
                        lemma_entries_value(other.entries@, j as int);
                    }
                    if !other.entries[j].1.exact_eq(&self.entries[i].1) {
                        assert(self@.contains_key(s[i as int].0) && other@[s[i as int].0] != self@[s[i as int].0]);
                        return false;
                    }
                },
            }
            i = i + 1;
        }
        proof {
            assert forall|k: K| #[trigger] self@.contains_key(k) implies other@.contains_key(k) && other@[k]
                == self@[k] by {
                lemma_entries_dom(s, k);
                let j = choose|j: int| 0 <= j < s.len() && #[trigger] s[j].0 == k;
                lemma_entries_value(s, j);
            }
        }
        true
    }

    /// Whether the two maps have the same keys with the same values.
    pub fn same_as(&self, other: &Self) -> (b: bool)
        requires
            self.wf(),
            other.wf(),
        ensures
            b == (self@ == other@),
    {
        let r = self.included_in(other) && other.included_in(self);
        proof {
            if r {
                assert(self@ =~= other@);
            }
        }
        r
    }
}

impl<K: ExactEq> KeyMap<K, ()> {
    /// Every key of this map is a key of `other`.
    fn keys_in(&self, other: &Self) -> (b: bool)
        requires
            self.wf(),
            other.wf(),
        ensures
            b == forall|k: K| #[trigger] self@.contains_key(k) ==> other@.contains_key(k),
    {
        let ghost s = self.entries@;
        let mut i: usize = 0;
        while i < self.entries.len()
            invariant
                s == self.entries@,
                self.wf(),
                other.wf(),
                i <= s.len(),
                forall|j: int| 0 <= j < i ==> other@.contains_key(#[trigger] s[j].0),
            decreases s.len() - i,
        {
            proof {
                lemma_entries_value(s, i as int);
            }
            if !other.contains_key(&self.entries[i].0) {
                assert(self@.contains_key(s[i as int].0));
                return false;
            }
            i = i + 1;
        }
        proof {
            assert forall|k: K| #[trigger] self@.contains_key(k) implies other@.contains_key(k) by {
                lemma_entries_dom(s, k);
                let j = choose|j: int| 0 <= j < s.len() && #[trigger] s[j].0 == k;
            }
        }
        true
    }

    /// Whether the two sets of keys are equal.
    pub fn same_keys(&self, other: &Self) -> (b: bool)
        requires
            self.wf(),
            other.wf(),
        ensures
            b == (self@ == other@),
    {
        let r = self.keys_in(other) && other.keys_in(self);
        proof {
            if r {
                assert(self@ =~= other@);
            }
        }
        r
    }
}

impl ExactEq for u64 {
    fn exact_eq(&self, other: &Self) -> (b: bool) {
        *self == *other
    }
}

impl<K: ExactEq, K2: ExactEq, V2: Copy> KeyMap<K, KeyMap<K2, V2>> {
    /// The map of maps, each inner map taken by its contents.
    pub open spec fn nested_view(&self) -> Map<K, Map<K2, V2>> {
        self@.map_values(|m: KeyMap<K2, V2>| m@)
    }

    /// The outer map and every inner map hold distinct keys.
    pub open spec fn nested_wf(&self) -> bool {
        &&& self.wf()
        &&& forall|k: K| #[trigger] self@.contains_key(k) ==> self@[k].wf()
    }

    /// A copy of the map of maps, inner maps copied entry for entry.
    pub fn duplicate_nested(&self) -> (m: Self)
        requires
            self.nested_wf(),
        ensures
            m.nested_wf(),
            m.nested_view() == self.nested_view(),
    {
        let ghost s = self.entries@;
        let mut entries: Vec<(K, KeyMap<K2, V2>)> = Vec::new();
        let mut i: usize = 0;
        while i < self.entries.len()
            invariant
                s == self.entries@,
                self.nested_wf(),
                i <= s.len(),
                entries@.len() == i,
                forall|j: int| 0 <= j < i ==> (#[trigger] entries@[j]).0 == s[j].0 && entries@[j].1@ == s[j].1@
                    && entries@[j].1.wf(),
            decreases s.len() - i,
        {
            proof {
                lemma_entries_value(s, i as int);
                assert(self@.contains_key(s[i as int].0));
                assert(s[i as int].1.wf());
            }
            let k = self.entries[i].0;
            let inner = self.entries[i].1.duplicate();
            entries.push((k, inner));
            i = i + 1;
        }
        let ghost t = entries@;
        assert(distinct_keys(t)) by {
            assert forall|a: int, b: int| 0 <= a < b < t.len() implies #[trigger] t[a].0 != #[trigger] t[b].0 by {
                assert(t[a].0 == s[a].0);
                assert(t[b].0 == s[b].0);
            }
        }
        let m = KeyMap { entries };
        proof {
            assert forall|key: K| #[trigger] entries_map(t).contains_key(key) == entries_map(s).contains_key(key) by {
                lemma_entries_dom(t, key);
                lemma_entries_dom(s, key);
                if exists|j: int| 0 <= j < s.len() && #[trigger] s[j].0 == key {
                    let j = choose|j: int| 0 <= j < s.len() && #[trigger] s[j].0 == key;
                    assert(t[j].0 == key);
                }
                if exists|j: int| 0 <= j < t.len() && #[trigger] t[j].0 == key {
                    let j = choose|j: int| 0 <= j < t.len() && #[trigger] t[j].0 == key;
                    assert(s[j].0 == key);
                }
            }
            assert forall|key: K| #[trigger] entries_map(t).contains_key(key) implies entries_map(t)[key]@
                == entries_map(s)[key]@ && entries_map(t)[key].wf() by {
                lemma_entries_dom(t, key);
                let j = choose|j: int| 0 <= j < t.len() && #[trigger] t[j].0 == key;
                lemma_entries_value(t, j);
                lemma_entries_value(s, j);
            }
            assert(m@.dom() =~= self@.dom());
            assert(m.nested_view() =~= self.nested_view());
        }
        m
    }
}


/// Values that can be copied, the copy having the same view.
pub trait Duplicate: View + Sized {
    fn duplicate(&self) -> (r: Self)
        ensures
            r@ == self@,
    ;
}

impl<K: ExactEq, V: Duplicate> KeyMap<K, V> {
    /// The map, each value taken by its view.
    pub open spec fn values_view(&self) -> Map<K, V::V> {
        self@.map_values(|v: V| v@)
    }

    /// A copy of the map, each value copied.
    pub fn duplicate_values(&self) -> (m: Self)
        requires
            self.wf(),
        ensures
            m.wf(),
            m.values_view() == self.values_view(),
    {
        let ghost s = self.entries@;
        let mut entries: Vec<(K, V)> = Vec::new();
        let mut i: usize = 0;
        while i < self.entries.len()
            invariant
                s == self.entries@,
                i <= s.len(),
                entries@.len() == i,
                forall|j: int| 0 <= j < i ==> (#[trigger] entries@[j]).0 == s[j].0 && entries@[j].1@ == s[j].1@,
            decreases s.len() - i,
        {
            let k = self.entries[i].0;
            let v = self.entries[i].1.duplicate();
            entries.push((k, v));
            i = i + 1;
        }
        let ghost t = entries@;
        assert(distinct_keys(t)) by {
            assert forall|a: int, b: int| 0 <= a < b < t.len() implies #[trigger] t[a].0 != #[trigger] t[b].0 by {
                assert(t[a].0 == s[a].0);
                assert(t[b].0 == s[b].0);
            }
        }
        let m = KeyMap { entries };
        proof {
            assert forall|key: K| #[trigger] entries_map(t).contains_key(key) == entries_map(s).contains_key(key) by {
                lemma_entries_dom(t, key);
                lemma_entries_dom(s, key);
                if exists|j: int| 0 <= j < s.len() && #[trigger] s[j].0 == key {
                    let j = choose|j: int| 0 <= j < s.len() && #[trigger] s[j].0 == key;
                    assert(t[j].0 == key);
                }
                if exists|j: int| 0 <= j < t.len() && #[trigger] t[j].0 == key {
                    let j = choose|j: int| 0 <= j < t.len() && #[trigger] t[j].0 == key;
                    assert(s[j].0 == key);
                }
            }
            assert forall|key: K| #[trigger] entries_map(t).contains_key(key) implies entries_map(t)[key]@
                == entries_map(s)[key]@ by {
                lemma_entries_dom(t, key);
                let j = choose|j: int| 0 <= j < t.len() && #[trigger] t[j].0 == key;
                lemma_entries_value(t, j);
                lemma_entries_value(s, j);
            }
            assert(m@.dom() =~= self@.dom());
            assert(m.values_view() =~= self.values_view());
        }
        m
    }
}

} // verus!
