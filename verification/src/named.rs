//! Small keyed collections: a map and a set whose keys are strings.
//!
//! Both keep their entries in a `Vec` with no key repeated (the type
//! invariant) and present themselves to specifications as a `Map` or `Set`
//! over the keys' character sequences.

use vstd::prelude::*;
use crate::text::str_eq;

verus! {

/// Values that can be copied exactly.
pub trait Duplicate: Sized {
    fn duplicate(&self) -> (r: Self)
        ensures
            r == *self,
    ;
}

impl Duplicate for String {
    fn duplicate(&self) -> (r: String) {
        self.clone()
    }
}

/// An exact copy of an optional string.
pub fn dup_opt(o: &Option<String>) -> (r: Option<String>)
    ensures
        r == *o,
{
    match o {
        Some(s) => Some(s.clone()),
        None => None,
    }
}

/// The keys of `e` are pairwise distinct.
pub open spec fn keys_unique<V>(e: Seq<(String, V)>) -> bool {
    forall|i: int, j: int|
        0 <= i < e.len() && 0 <= j < e.len() && i != j ==> (#[trigger] e[i]).0@ != (
        #[trigger] e[j]).0@
}

/// `k` is the key of some entry.
pub open spec fn has_key<V>(e: Seq<(String, V)>, k: Seq<char>) -> bool {
    exists|i: int| 0 <= i < e.len() && (#[trigger] e[i]).0@ == k
}

/// The map an entry list stands for.
pub open spec fn entries_map<V>(e: Seq<(String, V)>) -> Map<Seq<char>, V> {
    Map::new(
        |k: Seq<char>| has_key(e, k),
        |k: Seq<char>| e[choose|i: int| 0 <= i < e.len() && (#[trigger] e[i]).0@ == k].1,
    )
}

/// A map from strings to values, with no key repeated.
pub struct NamedMap<V> {
    entries: Vec<(String, V)>,
}

impl<V> View for NamedMap<V> {
    type V = Map<Seq<char>, V>;

    closed spec fn view(&self) -> Map<Seq<char>, V> {
        entries_map(self.entries@)
    }
}

proof fn lemma_entries_map_push<V>(t: Seq<(String, V)>, e: (String, V))
    requires
        keys_unique(t.push(e)),
    ensures
        keys_unique(t),
        entries_map(t.push(e)) == entries_map(t).insert(e.0@, e.1),
{
    let s = t.push(e);
    assert forall|i: int, j: int|
        0 <= i < t.len() && 0 <= j < t.len() && i != j implies (#[trigger] t[i]).0@ != (
        #[trigger] t[j]).0@ by {
        assert(s[i] == t[i] && s[j] == t[j]);
    }
    assert forall|x: Seq<char>| #[trigger] has_key(s, x) == (has_key(t, x) || x == e.0@) by {
        if has_key(t, x) {
            let j = choose|j: int| 0 <= j < t.len() && (#[trigger] t[j]).0@ == x;
            assert(s[j] == t[j]);
        }
        if x == e.0@ {
            assert(s[t.len() as int] == e);
        }
        if has_key(s, x) && x != e.0@ {
            let j = choose|j: int| 0 <= j < s.len() && (#[trigger] s[j]).0@ == x;
            assert(j < t.len());
            assert(t[j] == s[j]);
        }
    }
    assert forall|x: Seq<char>| #[trigger] entries_map(s).dom().contains(x) implies entries_map(s)[x]
        == entries_map(t).insert(e.0@, e.1)[x] by {
        if x == e.0@ {
            lemma_entries_map_at(s, t.len() as int);
        } else {
            let j = choose|j: int| 0 <= j < t.len() && (#[trigger] t[j]).0@ == x;
            assert(s[j] == t[j]);
            lemma_entries_map_at(s, j);
            lemma_entries_map_at(t, j);
        }
    }
    assert(entries_map(s) =~= entries_map(t).insert(e.0@, e.1));
}

proof fn lemma_entries_map_at<V>(e: Seq<(String, V)>, i: int)
    requires
        keys_unique(e),
        0 <= i < e.len(),
    ensures
        entries_map(e).dom().contains(e[i].0@),
        entries_map(e)[e[i].0@] == e[i].1,
{
    let k = e[i].0@;
    assert(has_key(e, k));
    let j = choose|j: int| 0 <= j < e.len() && (#[trigger] e[j]).0@ == k;
    assert(j == i);
}

impl<V> NamedMap<V> {
    #[verifier::type_invariant]
    closed spec fn unique(self) -> bool {
        keys_unique(self.entries@)
    }

    /// The entries in storage order, as a sequence of (key, value).
    pub closed spec fn entries_view(&self) -> Seq<(String, V)> {
        self.entries@
    }

    /// The entries in storage order.
    pub fn entries(&self) -> (r: &Vec<(String, V)>)
        ensures
            r@ == self.entries_view(),
            keys_unique(r@),
            forall|i: int|
                0 <= i < r@.len() ==> self@.dom().contains((#[trigger] r@[i]).0@) && self@[r@[i].0@]
                    == r@[i].1,
            forall|k: Seq<char>| self@.dom().contains(k) ==> has_key(r@, k),
            r@.len() == self@.dom().len(),
    {
        proof {
            use_type_invariant(self);
            assert forall|i: int| 0 <= i < self.entries@.len() implies self@.dom().contains(
                (#[trigger] self.entries@[i]).0@,
            ) && self@[self.entries@[i].0@] == self.entries@[i].1 by {
                lemma_entries_map_at(self.entries@, i);
            }
            lemma_dom_len(self.entries@);
        }
        &self.entries
    }

    /// An empty map.
    pub fn new() -> (m: Self)
        ensures
            m@ == Map::<Seq<char>, V>::empty(),
    {
        let m = NamedMap { entries: Vec::new() };
        assert(m@ =~= Map::<Seq<char>, V>::empty());
        m
    }

    /// Number of keys.
    pub fn len(&self) -> (n: usize)
        ensures
            n == self@.dom().len(),
            self@.dom().finite(),
    {
        proof {
            use_type_invariant(self);
            lemma_dom_len(self.entries@);
        }
        self.entries.len()
    }

    /// Position of `key` in storage, if present.
    fn find(&self, key: &str) -> (r: Option<usize>)
        ensures
            r matches Some(i) ==> i < self.entries@.len() && self.entries@[i as int].0@ == key@,
            r is None ==> !has_key(self.entries@, key@),
    {
        let mut i: usize = 0;
        while i < self.entries.len()
            invariant
                i <= self.entries@.len(),
                forall|j: int| 0 <= j < i ==> (#[trigger] self.entries@[j]).0@ != key@,
            decreases self.entries.len() - i,
        {
            if str_eq(self.entries[i].0.as_str(), key) {
                return Some(i);
            }
            i = i + 1;
        }
        None
    }

    /// Does the map hold `key`?
    pub fn contains_key(&self, key: &str) -> (b: bool)
        ensures
            b == self@.dom().contains(key@),
    {
        self.find(key).is_some()
    }

    /// The value stored under `key`.
    pub fn get(&self, key: &str) -> (r: Option<&V>)
        ensures
            r matches Some(v) ==> self@.dom().contains(key@) && self@[key@] == *v,
            r is None ==> !self@.dom().contains(key@),
    {
        proof {
            use_type_invariant(self);
        }
        match self.find(key) {
            Some(i) => {
                proof {
                    lemma_entries_map_at(self.entries@, i as int);
                }
                Some(&self.entries[i].1)
            },
            None => None,
        }
    }

    /// Moves every entry of `other` in, replacing values under keys both
    /// hold.
    pub fn absorb(&mut self, other: NamedMap<V>)
        ensures
            final(self)@ == old(self)@.union_prefer_right(other@),
    {
        proof {
            use_type_invariant(&other);
        }
        let ghost target = self@.union_prefer_right(other@);
        let mut es = other.entries;
        while es.len() > 0
            invariant
                keys_unique(es@),
                self@.union_prefer_right(entries_map(es@)) == target,
            decreases es.len(),
        {
            let ghost before = es@;
            let e = es.pop().unwrap();
            proof {
                assert(before == es@.push(e));
                lemma_entries_map_push(es@, e);
            }
            let ghost m = self@;
            self.insert(e.0, e.1);
            proof {
                assert(self@.union_prefer_right(entries_map(es@)) =~= m.union_prefer_right(
                    entries_map(before),
                ));
            }
        }
        proof {
            assert(entries_map(es@) =~= Map::<Seq<char>, V>::empty());
            assert(self@.union_prefer_right(entries_map(es@)) =~= self@);
        }
    }

    /// Stores `value` under `key`, replacing any earlier value.
    pub fn insert(&mut self, key: String, value: V)
        ensures
            final(self)@ == old(self)@.insert(key@, value),
    {
        proof {
            use_type_invariant(&*self);
        }
        let ghost e0 = self.entries@;
        match self.find(key.as_str()) {
            Some(i) => {
                let ghost k = key@;
                let mut entries: Vec<(String, V)> = Vec::new();
                std::mem::swap(&mut entries, &mut self.entries);
                entries.set(i, (key, value));
                proof {
                    let e1 = entries@;
                    assert(keys_unique(e1));
                    assert(entries_map(e1) =~= entries_map(e0).insert(k, value)) by {
                        assert forall|x: Seq<char>| #[trigger] has_key(e1, x) == (has_key(e0, x)
                            || x == k) by {
                            if has_key(e0, x) {
                                let j = choose|j: int| 0 <= j < e0.len() && (#[trigger] e0[j]).0@
                                    == x;
                                assert(e1[j].0@ == x);
                            }
                            if has_key(e1, x) {
                                let j = choose|j: int| 0 <= j < e1.len() && (#[trigger] e1[j]).0@
                                    == x;
                                assert(e0[j].0@ == x);
                            }
                            assert(e1[i as int].0@ == k);
                        }
                        assert forall|x: Seq<char>| #[trigger] has_key(e1, x) implies entries_map(
                            e1,
                        )[x] == entries_map(e0).insert(k, value)[x] by {
                            let j = choose|j: int| 0 <= j < e1.len() && (#[trigger] e1[j]).0@ == x;
                            lemma_entries_map_at(e1, j);
                            if j != i {
                                lemma_entries_map_at(e0, j);
                            }
                        }
                    }
                }
                self.entries = entries;
            },
            None => {
                let ghost k = key@;
                let mut entries: Vec<(String, V)> = Vec::new();
                std::mem::swap(&mut entries, &mut self.entries);
                entries.push((key, value));
                proof {
                    let e1 = entries@;
                    assert(keys_unique(e1));
                    assert(entries_map(e1) =~= entries_map(e0).insert(k, value)) by {
                        assert forall|x: Seq<char>| #[trigger] has_key(e1, x) == (has_key(e0, x)
                            || x == k) by {
                            if has_key(e0, x) {
                                let j = choose|j: int| 0 <= j < e0.len() && (#[trigger] e0[j]).0@
                                    == x;
                                assert(e1[j].0@ == x);
                            }
                            if has_key(e1, x) {
                                let j = choose|j: int| 0 <= j < e1.len() && (#[trigger] e1[j]).0@
                                    == x;
                                if j < e0.len() {
                                    assert(e0[j].0@ == x);
                                }
                            }
                            assert(e1[e0.len() as int].0@ == k);
                        }
                        assert forall|x: Seq<char>| #[trigger] has_key(e1, x) implies entries_map(
                            e1,
                        )[x] == entries_map(e0).insert(k, value)[x] by {
                            let j = choose|j: int| 0 <= j < e1.len() && (#[trigger] e1[j]).0@ == x;
                            lemma_entries_map_at(e1, j);
                            if j < e0.len() {
                                lemma_entries_map_at(e0, j);
                            }
                        }
                    }
                }
                self.entries = entries;
            },
        }
    }

    /// Removes `key`; reports whether it was present.
    pub fn remove(&mut self, key: &str) -> (b: bool)
        ensures
            b == old(self)@.dom().contains(key@),
            final(self)@ == old(self)@.remove(key@),
    {
        proof {
            use_type_invariant(&*self);
        }
        let ghost e0 = self.entries@;
        match self.find(key) {
            Some(i) => {
                let mut entries: Vec<(String, V)> = Vec::new();
                std::mem::swap(&mut entries, &mut self.entries);
                let _ = entries.remove(i);
                proof {
                    let e1 = entries@;
                    assert(e1 =~= e0.remove(i as int));
                    assert(keys_unique(e1)) by {
                        assert forall|a: int, b: int|
                            0 <= a < e1.len() && 0 <= b < e1.len() && a != b implies (
                        #[trigger] e1[a]).0@ != (#[trigger] e1[b]).0@ by {
                            let a0 = if a < i { a } else { a + 1 };
                            let b0 = if b < i { b } else { b + 1 };
                            assert(e1[a] == e0[a0] && e1[b] == e0[b0]);
                        }
                    }
                    assert(entries_map(e1) =~= entries_map(e0).remove(key@)) by {
                        assert forall|x: Seq<char>| #[trigger] has_key(e1, x) == (has_key(e0, x)
                            && x != key@) by {
                            if has_key(e0, x) && x != key@ {
                                let j = choose|j: int| 0 <= j < e0.len() && (#[trigger] e0[j]).0@
                                    == x;
                                assert(j != i);
                                let j1 = if j < i { j } else { j - 1 };
                                assert(e1[j1] == e0[j]);
                            }
                            if has_key(e1, x) {
                                let j = choose|j: int| 0 <= j < e1.len() && (#[trigger] e1[j]).0@
                                    == x;
                                let j0 = if j < i { j } else { j + 1 };
                                assert(e1[j] == e0[j0]);
                                assert(j0 != i);
                            }
                        }
                        assert forall|x: Seq<char>| #[trigger] has_key(e1, x) implies entries_map(
                            e1,
                        )[x] == entries_map(e0).remove(key@)[x] by {
                            let j = choose|j: int| 0 <= j < e1.len() && (#[trigger] e1[j]).0@ == x;
                            let j0 = if j < i { j } else { j + 1 };
                            assert(e1[j] == e0[j0]);
                            lemma_entries_map_at(e1, j);
                            lemma_entries_map_at(e0, j0);
                        }
                    }
                }
                self.entries = entries;
                true
            },
            None => {
                assert(entries_map(e0) =~= entries_map(e0).remove(key@));
                false
            },
        }
    }
}

proof fn lemma_dom_len<V>(e: Seq<(String, V)>)
    requires
        keys_unique(e),
    ensures
        entries_map(e).dom().finite(),
        entries_map(e).dom().len() == e.len(),
    decreases e.len(),
{
    if e.len() == 0 {
        assert(entries_map(e).dom() =~= Set::<Seq<char>>::empty());
    } else {
        let e0 = e.drop_last();
        assert(keys_unique(e0)) by {
            assert forall|a: int, b: int|
                0 <= a < e0.len() && 0 <= b < e0.len() && a != b implies (#[trigger] e0[a]).0@ != (
            #[trigger] e0[b]).0@ by {
                assert(e0[a] == e[a] && e0[b] == e[b]);
            }
        }
        lemma_dom_len(e0);
        let k = e.last().0@;
        assert(entries_map(e).dom() =~= entries_map(e0).dom().insert(k)) by {
            assert forall|x: Seq<char>| #[trigger] has_key(e, x) == (has_key(e0, x) || x == k) by {
                if has_key(e0, x) {
                    let j = choose|j: int| 0 <= j < e0.len() && (#[trigger] e0[j]).0@ == x;
                    assert(e[j].0@ == x);
                }
                if has_key(e, x) && x != k {
                    let j = choose|j: int| 0 <= j < e.len() && (#[trigger] e[j]).0@ == x;
                    assert(j != e.len() - 1);
                    assert(e0[j].0@ == x);
                }
                assert(e[e.len() - 1].0@ == k);
            }
        }
        assert(!entries_map(e0).dom().contains(k)) by {
            if has_key(e0, k) {
                let j = choose|j: int| 0 <= j < e0.len() && (#[trigger] e0[j]).0@ == k;
                assert(e[j].0@ == e[e.len() - 1].0@);
            }
        }
    }
}

impl<V: Duplicate> NamedMap<V> {

    /// Adds the entries of `other` whose keys this map lacks; values already
    /// here win.
    pub fn fill_missing_from(&mut self, other: &NamedMap<V>)
        ensures
            final(self)@ == other@.union_prefer_right(old(self)@),
    {
        let ghost m0 = self@;
        let es = other.entries();
        let mut i: usize = 0;
        while i < es.len()
            invariant
                i <= es@.len(),
                keys_unique(es@),
                forall|j: int|
                    0 <= j < es@.len() ==> other@.dom().contains((#[trigger] es@[j]).0@)
                        && other@[es@[j].0@] == es@[j].1,
                forall|k: Seq<char>| other@.dom().contains(k) ==> has_key(es@, k),
                forall|k: Seq<char>|
                    #[trigger] self@.dom().contains(k) <==> (m0.dom().contains(k) || has_key(
                        es@.take(i as int),
                        k,
                    )),
                forall|k: Seq<char>|
                    has_key(es@.take(i as int), k) && !m0.dom().contains(k) ==> #[trigger] self@[k]
                        == other@[k],
                forall|k: Seq<char>| m0.dom().contains(k) ==> #[trigger] self@[k] == m0[k],
            decreases es@.len() - i,
        {
            if !self.contains_key(es[i].0.as_str()) {
                let k = es[i].0.clone();
                let v = es[i].1.duplicate();
                self.insert(k, v);
            }
            proof {
                let t0 = es@.take(i as int);
                let t1 = es@.take(i as int + 1);
                assert forall|x: Seq<char>| has_key(t1, x) <==> (has_key(t0, x) || x == es@[i as int].0@) by {
                    if has_key(t1, x) {
                        let j = choose|j: int| 0 <= j < t1.len() && (#[trigger] t1[j]).0@ == x;
                        if j < i {
                            assert(t0[j] == t1[j]);
                        }
                    }
                    if has_key(t0, x) {
                        let j = choose|j: int| 0 <= j < t0.len() && (#[trigger] t0[j]).0@ == x;
                        assert(t1[j] == t0[j]);
                    }
                    if x == es@[i as int].0@ {
                        assert(t1[i as int] == es@[i as int]);
                    }
                }
            }
            i = i + 1;
        }
        proof {
            assert(es@.take(i as int) =~= es@);
            assert forall|k: Seq<char>| has_key(es@, k) implies other@.dom().contains(k) by {
                let j = choose|j: int| 0 <= j < es@.len() && (#[trigger] es@[j]).0@ == k;
            }
            assert(self@ =~= other@.union_prefer_right(m0));
        }
    }

    /// Stores every entry of `other`, replacing values under keys both hold.
    pub fn extend_from(&mut self, other: &NamedMap<V>)
        ensures
            final(self)@ == old(self)@.union_prefer_right(other@),
    {
        let ghost m0 = self@;
        let es = other.entries();
        let mut i: usize = 0;
        while i < es.len()
            invariant
                i <= es@.len(),
                keys_unique(es@),
                forall|j: int|
                    0 <= j < es@.len() ==> other@.dom().contains((#[trigger] es@[j]).0@)
                        && other@[es@[j].0@] == es@[j].1,
                forall|k: Seq<char>| other@.dom().contains(k) ==> has_key(es@, k),
                forall|k: Seq<char>|
                    #[trigger] self@.dom().contains(k) <==> (m0.dom().contains(k) || has_key(
                        es@.take(i as int),
                        k,
                    )),
                forall|k: Seq<char>|
                    has_key(es@.take(i as int), k) ==> #[trigger] self@[k] == other@[k],
                forall|k: Seq<char>|
                    !has_key(es@.take(i as int), k) && m0.dom().contains(k) ==> #[trigger] self@[k]
                        == m0[k],
            decreases es@.len() - i,
        {
            let k = es[i].0.clone();
            let v = es[i].1.duplicate();
            self.insert(k, v);
            proof {
                let t0 = es@.take(i as int);
                let t1 = es@.take(i as int + 1);
                assert forall|x: Seq<char>| has_key(t1, x) <==> (has_key(t0, x) || x == es@[i as int].0@) by {
                    if has_key(t1, x) {
                        let j = choose|j: int| 0 <= j < t1.len() && (#[trigger] t1[j]).0@ == x;
                        if j < i {
                            assert(t0[j] == t1[j]);
                        }
                    }
                    if has_key(t0, x) {
                        let j = choose|j: int| 0 <= j < t0.len() && (#[trigger] t0[j]).0@ == x;
                        assert(t1[j] == t0[j]);
                    }
                    if x == es@[i as int].0@ {
                        assert(t1[i as int] == es@[i as int]);
                    }
                }
            }
            i = i + 1;
        }
        proof {
            assert(es@.take(i as int) =~= es@);
            assert forall|k: Seq<char>| has_key(es@, k) implies other@.dom().contains(k) by {
                let j = choose|j: int| 0 <= j < es@.len() && (#[trigger] es@[j]).0@ == k;
            }
            assert(self@ =~= m0.union_prefer_right(other@));
        }
    }
    /// An exact copy.
    pub fn duplicate_map(&self) -> (r: Self)
        ensures
            r@ == self@,
    {
        proof {
            use_type_invariant(self);
        }
        let mut entries: Vec<(String, V)> = Vec::new();
        let mut i: usize = 0;
        while i < self.entries.len()
            invariant
                i <= self.entries@.len(),
                entries@ == self.entries@.take(i as int),
            decreases self.entries.len() - i,
        {
            let k = self.entries[i].0.clone();
            let v = self.entries[i].1.duplicate();
            entries.push((k, v));
            i = i + 1;
            assert(entries@ =~= self.entries@.take(i as int));
        }
        assert(entries@ =~= self.entries@);
        NamedMap { entries }
    }
}

impl Duplicate for () {
    fn duplicate(&self) -> (r: ()) {
        ()
    }
}

/// A set of strings, with no member repeated.
pub struct NamedSet {
    members: NamedMap<()>,
}

impl View for NamedSet {
    type V = Set<Seq<char>>;

    closed spec fn view(&self) -> Set<Seq<char>> {
        self.members@.dom()
    }
}

impl NamedSet {
    /// An empty set.
    pub fn new() -> (s: Self)
        ensures
            s@ == Set::<Seq<char>>::empty(),
    {
        let s = NamedSet { members: NamedMap::new() };
        assert(s@ =~= Set::<Seq<char>>::empty());
        s
    }

    /// Number of members.
    pub fn len(&self) -> (n: usize)
        ensures
            n == self@.len(),
    {
        self.members.len()
    }

    /// Is the set empty?
    pub fn is_empty(&self) -> (b: bool)
        ensures
            b == (self@ == Set::<Seq<char>>::empty()),
    {
        let n = self.members.len();
        proof {
            let e = self.members.entries_view();
            let m = self.members@;
            if n == 0 {
                assert(m.dom().finite());
                m.dom().lemma_len0_is_empty();
            } else {
                assert(m.dom().len() > 0);
                if m.dom() == Set::<Seq<char>>::empty() {
                    assert(m.dom().len() == 0);
                }
            }
        }
        n == 0
    }

    /// Is `name` a member?
    pub fn contains(&self, name: &str) -> (b: bool)
        ensures
            b == self@.contains(name@),
    {
        self.members.contains_key(name)
    }

    /// Adds `name`.
    pub fn insert(&mut self, name: String)
        ensures
            final(self)@ == old(self)@.insert(name@),
    {
        let ghost before = self.members@;
        self.members.insert(name, ());
        assert(self.members@.dom() =~= before.dom().insert(name@));
    }

    /// Removes `name`; reports whether it was a member.
    pub fn remove(&mut self, name: &str) -> (b: bool)
        ensures
            b == old(self)@.contains(name@),
            final(self)@ == old(self)@.remove(name@),
    {
        let ghost before = self.members@;
        let b = self.members.remove(name);
        assert(self.members@.dom() =~= before.dom().remove(name@));
        b
    }

    /// The members, in storage order.
    pub fn members(&self) -> (r: Vec<String>)
        ensures
            r@.len() == self@.len(),
            forall|i: int| 0 <= i < r@.len() ==> self@.contains((#[trigger] r@[i])@),
            forall|k: Seq<char>| self@.contains(k) ==> exists|i: int| 0 <= i < r@.len() && (#[trigger] r@[i])@ == k,
    {
        let e = self.members.entries();
        let mut r: Vec<String> = Vec::new();
        let mut i: usize = 0;
        while i < e.len()
            invariant
                i <= e@.len(),
                r@.len() == i,
                forall|j: int| 0 <= j < i ==> (#[trigger] r@[j])@ == e@[j].0@,
            decreases e.len() - i,
        {
            r.push(e[i].0.clone());
            i = i + 1;
        }
        proof {
            assert forall|k: Seq<char>| self@.contains(k) implies exists|i: int| 0 <= i < r@.len() && (#[trigger] r@[i])@ == k by {
                assert(has_key(e@, k));
                let j = choose|j: int| 0 <= j < e@.len() && (#[trigger] e@[j]).0@ == k;
                assert(r@[j]@ == k);
            }
            assert forall|i: int| 0 <= i < r@.len() implies self@.contains((#[trigger] r@[i])@) by {
                assert(self.members@.dom().contains(e@[i].0@));
            }
        }
        r
    }
}

} // verus!
