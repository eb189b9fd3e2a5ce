//! Lists of pairs under string keys, kept in the order of insertion, and the
//! maps they stand for.

use vstd::prelude::*;

verus! {

/// `k` is a key of the list of pairs `s`.
pub open spec fn has_key<W>(s: Seq<(Seq<char>, W)>, k: Seq<char>) -> bool {
    exists|i: int| 0 <= i < s.len() && #[trigger] s[i].0 == k
}

/// No key occurs twice.
pub open spec fn keys_unique<W>(s: Seq<(Seq<char>, W)>) -> bool {
    forall|i: int, j: int|
        0 <= i < s.len() && 0 <= j < s.len() && i != j ==> #[trigger] s[i].0 != #[trigger] s[j].0
}

/// The position at which `k` stands (meaningful when `has_key(s, k)`).
pub open spec fn key_pos<W>(s: Seq<(Seq<char>, W)>, k: Seq<char>) -> int {
    choose|i: int| 0 <= i < s.len() && #[trigger] s[i].0 == k
}

/// The map that a list of `(key, value)` pairs stands for.
pub open spec fn as_map<W>(s: Seq<(Seq<char>, W)>) -> Map<Seq<char>, W> {
    Map::new(|k: Seq<char>| has_key(s, k), |k: Seq<char>| s[key_pos(s, k)].1)
}

/// The pair at position `i` is what the map holds under its key.
pub proof fn lemma_key_pos<W>(s: Seq<(Seq<char>, W)>, i: int)
    requires
        keys_unique(s),
        0 <= i < s.len(),
    ensures
        has_key(s, s[i].0),
        key_pos(s, s[i].0) == i,
        as_map(s).contains_key(s[i].0),
        as_map(s)[s[i].0] == s[i].1,
{
    assert(has_key(s, s[i].0));
    let j = key_pos(s, s[i].0);
    assert(s[j].0 == s[i].0);
}

/// Appending a pair under a new key adds that key to the map.
pub proof fn lemma_push<W>(s: Seq<(Seq<char>, W)>, k: Seq<char>, v: W)
    requires
        keys_unique(s),
        !has_key(s, k),
    ensures
        keys_unique(s.push((k, v))),
        as_map(s.push((k, v))) == as_map(s).insert(k, v),
{
    let t = s.push((k, v));
    assert(keys_unique(t)) by {
        assert forall|i: int, j: int| 0 <= i < t.len() && 0 <= j < t.len() && i != j implies #[trigger] t[i].0 != #[trigger] t[j].0 by {
            if i < s.len() && j < s.len() {
                assert(s[i].0 != s[j].0);
            } else if i < s.len() {
                assert(s[i].0 != k);
            } else {
                assert(s[j].0 != k);
            }
        }
    }
    assert forall|x: Seq<char>| #[trigger] has_key(t, x) == (has_key(s, x) || x == k) by {
        if has_key(s, x) {
            let i = key_pos(s, x);
            assert(t[i].0 == x);
        }
        if has_key(t, x) && x != k {
            let i = key_pos(t, x);
            assert(s[i].0 == x);
        }
        if x == k {
            assert(t[s.len() as int].0 == k);
        }
    }
    assert forall|x: Seq<char>| has_key(t, x) implies #[trigger] as_map(t)[x] == as_map(s).insert(k, v)[x] by {
        let i = key_pos(t, x);
        lemma_key_pos(t, i);
        if x != k {
            assert(i < s.len());
            lemma_key_pos(s, i);
        }
    }
    assert(as_map(t) =~= as_map(s).insert(k, v));
}

/// Removing the pair at position `i` removes its key from the map.
pub proof fn lemma_remove<W>(s: Seq<(Seq<char>, W)>, i: int)
    requires
        keys_unique(s),
        0 <= i < s.len(),
    ensures
        keys_unique(s.remove(i)),
        as_map(s.remove(i)) == as_map(s).remove(s[i].0),
{
    let t = s.remove(i);
    let k = s[i].0;
    assert forall|a: int| 0 <= a < t.len() implies #[trigger] t[a] == if a < i { s[a] } else { s[a + 1] } by {}
    assert(keys_unique(t)) by {
        assert forall|a: int, b: int| 0 <= a < t.len() && 0 <= b < t.len() && a != b implies #[trigger] t[a].0 != #[trigger] t[b].0 by {
            let a2 = if a < i { a } else { a + 1 };
            let b2 = if b < i { b } else { b + 1 };
            assert(s[a2].0 != s[b2].0);
        }
    }
    assert forall|x: Seq<char>| #[trigger] has_key(t, x) == (has_key(s, x) && x != k) by {
        if has_key(t, x) {
            let a = key_pos(t, x);
            let a2 = if a < i { a } else { a + 1 };
            assert(s[a2].0 == x);
            assert(a2 != i);
        }
        if has_key(s, x) && x != k {
            let a = key_pos(s, x);
            assert(a != i);
            let a1 = if a < i { a } else { a - 1 };
            assert(t[a1].0 == x);
        }
    }
    assert forall|x: Seq<char>| has_key(t, x) implies #[trigger] as_map(t)[x] == as_map(s)[x] by {
        let a = key_pos(t, x);
        lemma_key_pos(t, a);
        let a2 = if a < i { a } else { a + 1 };
        lemma_key_pos(s, a2);
    }
    assert(as_map(t) =~= as_map(s).remove(k));
}

/// Replacing the value at position `i` sets its key to that value in the map.
pub proof fn lemma_update<W>(s: Seq<(Seq<char>, W)>, i: int, v: W)
    requires
        keys_unique(s),
        0 <= i < s.len(),
    ensures
        keys_unique(s.update(i, (s[i].0, v))),
        as_map(s.update(i, (s[i].0, v))) == as_map(s).insert(s[i].0, v),
{
    let t = s.update(i, (s[i].0, v));
    let k = s[i].0;
    assert(keys_unique(t)) by {
        assert forall|a: int, b: int| 0 <= a < t.len() && 0 <= b < t.len() && a != b implies #[trigger] t[a].0 != #[trigger] t[b].0 by {
            assert(t[a].0 == s[a].0 && t[b].0 == s[b].0);
        }
    }
    assert forall|x: Seq<char>| #[trigger] has_key(t, x) == has_key(s, x) by {
        if has_key(t, x) {
            let a = key_pos(t, x);
            assert(s[a].0 == x);
        }
        if has_key(s, x) {
            let a = key_pos(s, x);
            assert(t[a].0 == x);
        }
    }
    assert forall|x: Seq<char>| has_key(t, x) implies #[trigger] as_map(t)[x] == as_map(s).insert(k, v)[x] by {
        let a = key_pos(t, x);
        lemma_key_pos(t, a);
        lemma_key_pos(s, a);
    }
    assert(as_map(t) =~= as_map(s).insert(k, v));
}

/// `s` with `k` set to `v`: in place where `k` is a key, appended otherwise.
pub open spec fn upsert<W>(s: Seq<(Seq<char>, W)>, k: Seq<char>, v: W) -> Seq<(Seq<char>, W)> {
    if has_key(s, k) {
        s.update(key_pos(s, k), (k, v))
    } else {
        s.push((k, v))
    }
}

/// `s` without the pair under `k`.
pub open spec fn remove_key<W>(s: Seq<(Seq<char>, W)>, k: Seq<char>) -> Seq<(Seq<char>, W)> {
    if has_key(s, k) {
        s.remove(key_pos(s, k))
    } else {
        s
    }
}

/// `upsert` sets the key in the map.
pub proof fn lemma_upsert<W>(s: Seq<(Seq<char>, W)>, k: Seq<char>, v: W)
    requires
        keys_unique(s),
    ensures
        keys_unique(upsert(s, k, v)),
        as_map(upsert(s, k, v)) == as_map(s).insert(k, v),
{
    if has_key(s, k) {
        let i = key_pos(s, k);
        lemma_key_pos(s, i);
        lemma_update(s, i, v);
    } else {
        lemma_push(s, k, v);
    }
}

/// `remove_key` removes the key from the map.
pub proof fn lemma_remove_key<W>(s: Seq<(Seq<char>, W)>, k: Seq<char>)
    requires
        keys_unique(s),
    ensures
        keys_unique(remove_key(s, k)),
        as_map(remove_key(s, k)) == as_map(s).remove(k),
{
    if has_key(s, k) {
        let i = key_pos(s, k);
        lemma_key_pos(s, i);
        lemma_remove(s, i);
    } else {
        assert(as_map(s).remove(k) =~= as_map(s));
    }
}

/// Pairs under string keys, each key at most once, kept in the order of insertion.
pub struct KeyedVec<V> {
    entries: Vec<(String, V)>,
}

impl<V: DeepView> View for KeyedVec<V> {
    type V = Seq<(Seq<char>, V::V)>;

    closed spec fn view(&self) -> Seq<(Seq<char>, V::V)> {
        self.entries@.map_values(|e: (String, V)| (e.0@, e.1.deep_view()))
    }
}

impl<V: DeepView> DeepView for KeyedVec<V> {
    type V = Seq<(Seq<char>, V::V)>;

    open spec fn deep_view(&self) -> Seq<(Seq<char>, V::V)> {
        self@
    }
}

impl<V> KeyedVec<V> {
    #[verifier::type_invariant]
    spec fn unique(self) -> bool {
        forall|i: int, j: int|
            0 <= i < self.entries@.len() && 0 <= j < self.entries@.len() && i != j
                ==> #[trigger] self.entries@[i].0@ != #[trigger] self.entries@[j].0@
    }
}

/// The type invariant, read through the view.
proof fn lemma_view_unique<V: DeepView>(k: KeyedVec<V>)
    requires
        k.unique(),
    ensures
        keys_unique(k@),
{
    assert forall|i: int, j: int| 0 <= i < k@.len() && 0 <= j < k@.len() && i != j implies #[trigger] k@[i].0 != #[trigger] k@[j].0 by {
        assert(k@[i].0 == k.entries@[i].0@);
        assert(k@[j].0 == k.entries@[j].0@);
    }
}

impl<V: DeepView> KeyedVec<V> {
    pub fn new() -> (r: Self)
        ensures
            r@ == Seq::<(Seq<char>, V::V)>::empty(),
    {
        let r = KeyedVec { entries: Vec::new() };
        assert(r@ =~= Seq::<(Seq<char>, V::V)>::empty());
        r
    }

    pub fn len(&self) -> (r: usize)
        ensures
            r == self@.len(),
            keys_unique(self@),
    {
        proof {
            use_type_invariant(self);
            lemma_view_unique(*self);
        }
        self.entries.len()
    }

    pub fn is_empty(&self) -> (r: bool)
        ensures
            r == (self@.len() == 0),
    {
        self.entries.len() == 0
    }

    /// The position of `k`, if it is a key.
    pub fn find(&self, k: &String) -> (r: Option<usize>)
        ensures
            match r {
                Some(i) => i < self@.len() && self@[i as int].0 == k@ && key_pos(self@, k@) == i,
                None => !has_key(self@, k@),
            },
            r is Some == as_map(self@).contains_key(k@),
            keys_unique(self@),
    {
        proof {
            use_type_invariant(&*self);
            lemma_view_unique(*self);
        }
        let mut i: usize = 0;
        while i < self.entries.len()
            invariant
                i <= self.entries@.len(),
                self@.len() == self.entries@.len(),
                keys_unique(self@),
                forall|j: int| 0 <= j < i ==> #[trigger] self@[j].0 != k@,
            decreases self.entries@.len() - i,
        {
            let key: &String = &self.entries[i].0;
            if *key == *k {
                proof {
                    lemma_key_pos(self@, i as int);
                }
                return Some(i);
            }
            i = i + 1;
        }
        None
    }

    pub fn key_at(&self, i: usize) -> (r: &String)
        requires
            i < self@.len(),
        ensures
            r@ == self@[i as int].0,
    {
        &self.entries[i].0
    }

    pub fn value_at(&self, i: usize) -> (r: &V)
        requires
            i < self@.len(),
        ensures
            r.deep_view() == self@[i as int].1,
    {
        &self.entries[i].1
    }

    /// The value under `k`, if it is a key.
    pub fn get(&self, k: &String) -> (r: Option<&V>)
        ensures
            r is Some == as_map(self@).contains_key(k@),
            r matches Some(v) ==> v.deep_view() == as_map(self@)[k@],
    {
        match self.find(k) {
            Some(i) => {
                proof {
                    use_type_invariant(self);
                    lemma_view_unique(*self);
                    lemma_key_pos(self@, i as int);
                }
                Some(&self.entries[i].1)
            },
            None => None,
        }
    }

    /// Appends a pair whose key is new.
    pub fn push(&mut self, k: String, v: V)
        requires
            !has_key(old(self)@, k@),
        ensures
            final(self)@ == old(self)@.push((k@, v.deep_view())),
            as_map(final(self)@) == as_map(old(self)@).insert(k@, v.deep_view()),
            keys_unique(final(self)@),
    {
        proof {
            use_type_invariant(&*self);
            lemma_view_unique(*self);
            lemma_push(self@, k@, v.deep_view());
        }
        let ghost kv = k@;
        assert forall|i: int| 0 <= i < self.entries@.len() implies #[trigger] self.entries@[i].0@ != kv by {
            assert(self@[i].0 == self.entries@[i].0@);
        }
        let mut e: Vec<(String, V)> = Vec::new();
        std::mem::swap(&mut self.entries, &mut e);
        e.push((k, v));
        self.entries = e;
        assert(self@ =~= old(self)@.push((kv, v.deep_view())));
    }

    /// Takes out the pair at position `i`.
    pub fn take(&mut self, i: usize) -> (r: (String, V))
        requires
            i < old(self)@.len(),
        ensures
            final(self)@ == old(self)@.remove(i as int),
            r.0@ == old(self)@[i as int].0,
            r.1.deep_view() == old(self)@[i as int].1,
            as_map(final(self)@) == as_map(old(self)@).remove(r.0@),
            keys_unique(old(self)@),
            keys_unique(final(self)@),
    {
        proof {
            use_type_invariant(&*self);
            lemma_view_unique(*self);
            lemma_remove(self@, i as int);
        }
        let mut e: Vec<(String, V)> = Vec::new();
        std::mem::swap(&mut self.entries, &mut e);
        let r = e.remove(i);
        self.entries = e;
        assert(self@ =~= old(self)@.remove(i as int));
        r
    }

    /// Puts back at position `i` a pair whose key is not in the list.
    pub fn put(&mut self, i: usize, k: String, v: V)
        requires
            i <= old(self)@.len(),
            !has_key(old(self)@, k@),
        ensures
            final(self)@ == old(self)@.insert(i as int, (k@, v.deep_view())),
            keys_unique(final(self)@),
    {
        let ghost kv = k@;
        assert forall|j: int| 0 <= j < self.entries@.len() implies #[trigger] self.entries@[j].0@ != kv by {
            assert(self@[j].0 == self.entries@[j].0@);
        }
        proof {
            use_type_invariant(&*self);
        }
        assert forall|a: int, b: int|
            0 <= a < self.entries@.len() + 1 && 0 <= b < self.entries@.len() + 1 && a != b
                implies #[trigger] self.entries@.insert(i as int, (k, v))[a].0@ != #[trigger] self.entries@.insert(i as int, (k, v))[b].0@ by {
            let a2 = if a < i { a } else if a == i { -1 } else { a - 1 };
            let b2 = if b < i { b } else if b == i { -1 } else { b - 1 };
            if a2 >= 0 && b2 >= 0 {
                assert(self.entries@[a2].0@ != self.entries@[b2].0@);
            }
        }
        let mut e: Vec<(String, V)> = Vec::new();
        std::mem::swap(&mut self.entries, &mut e);
        e.insert(i, (k, v));
        self.entries = e;
        assert(self@ =~= old(self)@.insert(i as int, (kv, v.deep_view())));
        proof {
            use_type_invariant(&*self);
            lemma_view_unique(*self);
        }
    }
}

} // verus!
