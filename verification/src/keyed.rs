//! An insertion-ordered association list with unique keys.
//!
//! `VecMap` is the keyed store used throughout the kernel model in place of
//! hash maps: it keeps entries in a `Vec`, never holds two entries whose keys
//! have the same view, and is viewed as a finite `Map` from key views to
//! values. Iteration follows insertion order; overwriting a key keeps its
//! position.
use vstd::prelude::*;

verus! {

/// Keys that can be compared and copied in executable code, in agreement
/// with their views.
pub trait KeyEq: View + Sized {
    fn key_eq(&self, other: &Self) -> (r: bool)
        ensures
            r == (self@ == other@),
    ;

    fn key_clone(&self) -> (r: Self)
        ensures
            r@ == self@,
    ;
}

impl KeyEq for u32 {
    fn key_eq(&self, other: &Self) -> (r: bool) {
        *self == *other
    }

    fn key_clone(&self) -> (r: Self) {
        *self
    }
}

impl KeyEq for u64 {
    fn key_eq(&self, other: &Self) -> (r: bool) {
        *self == *other
    }

    fn key_clone(&self) -> (r: Self) {
        *self
    }
}

impl KeyEq for i32 {
    fn key_eq(&self, other: &Self) -> (r: bool) {
        *self == *other
    }

    fn key_clone(&self) -> (r: Self) {
        *self
    }
}

impl KeyEq for String {
    fn key_eq(&self, other: &Self) -> (r: bool) {
        *self == *other
    }

    fn key_clone(&self) -> (r: Self) {
        self.clone()
    }
}

impl KeyEq for (u32, u32) {
    fn key_eq(&self, other: &Self) -> (r: bool) {
        self.0 == other.0 && self.1 == other.1
    }

    fn key_clone(&self) -> (r: Self) {
        (self.0, self.1)
    }
}

/// Equality of two string slices, by their characters.
pub fn str_eq(a: &str, b: &str) -> (r: bool)
    ensures
        r == (a@ == b@),
{
    let x = a.to_owned();
    let y = b.to_owned();
    x == y
}

/// The key views of a sequence of entries, in order.
pub open spec fn keys_of<K: View, V>(s: Seq<(K, V)>) -> Seq<K::V> {
    Seq::new(s.len(), |i: int| s[i].0@)
}

/// The map that a sequence of entries with distinct keys stands for.
pub open spec fn map_of<K: View, V>(s: Seq<(K, V)>) -> Map<K::V, V> {
    Map::new(
        |k: K::V| keys_of(s).contains(k),
        |k: K::V| s[keys_of(s).index_of(k)].1,
    )
}

#[derive(Debug, Clone)]
pub struct VecMap<K, V> {
    pub entries: Vec<(K, V)>,
}

impl<K: View, V> View for VecMap<K, V> {
    type V = Map<K::V, V>;

    open spec fn view(&self) -> Map<K::V, V> {
        map_of(self.entries@)
    }
}

/// Looking up the key of entry `i` finds entry `i`'s value.
pub proof fn lemma_map_of_index<K: View, V>(s: Seq<(K, V)>, i: int)
    requires
        keys_of(s).no_duplicates(),
        0 <= i < s.len(),
    ensures
        map_of(s).contains_key(s[i].0@),
        map_of(s)[s[i].0@] == s[i].1,
{
    let ks = keys_of(s);
    assert(ks[i] == s[i].0@);
    assert(ks.contains(s[i].0@));
    let j = ks.index_of(s[i].0@);
    assert(ks[j] == s[i].0@);
}

/// A key view is in the map exactly when some entry carries it.
pub proof fn lemma_map_of_contains<K: View, V>(s: Seq<(K, V)>, k: K::V)
    ensures
        map_of(s).contains_key(k) <==> exists|i: int| 0 <= i < s.len() && s[i].0@ == k,
{
    let ks = keys_of(s);
    if map_of(s).contains_key(k) {
        let j = ks.index_of(k);
        assert(0 <= j < s.len() && s[j].0@ == k);
    }
    if exists|i: int| 0 <= i < s.len() && s[i].0@ == k {
        let i = choose|i: int| 0 <= i < s.len() && s[i].0@ == k;
        assert(ks[i] == k);
    }
}

/// The map has as many keys as there are entries.
pub proof fn lemma_map_of_len<K: View, V>(s: Seq<(K, V)>)
    requires
        keys_of(s).no_duplicates(),
    ensures
        map_of(s).dom().finite(),
        map_of(s).len() == s.len(),
{
    let ks = keys_of(s);
    assert(map_of(s).dom() =~= ks.to_set());
    ks.unique_seq_to_set();
}

/// Appending an entry with a fresh key inserts it into the map.
pub proof fn lemma_map_of_push<K: View, V>(s: Seq<(K, V)>, k: K, v: V)
    requires
        keys_of(s).no_duplicates(),
        !map_of(s).contains_key(k@),
    ensures
        keys_of(s.push((k, v))).no_duplicates(),
        map_of(s.push((k, v))) == map_of(s).insert(k@, v),
{
    let t = s.push((k, v));
    lemma_map_of_contains(s, k@);
    assert(keys_of(t) =~= keys_of(s).push(k@));
    assert forall|a: K::V| #[trigger] map_of(t).contains_key(a) <==> map_of(s).insert(k@, v).contains_key(a) by {
        lemma_map_of_contains(s, a);
        lemma_map_of_contains(t, a);
        assert(t[s.len() as int] == (k, v));
        if map_of(s).contains_key(a) {
            let i = choose|i: int| 0 <= i < s.len() && s[i].0@ == a;
            assert(t[i] == s[i]);
        }
        if map_of(t).contains_key(a) {
            let i = choose|i: int| 0 <= i < t.len() && t[i].0@ == a;
            if i < s.len() {
                assert(t[i] == s[i]);
            }
        }
    }
    assert forall|a: K::V| #[trigger] map_of(t).contains_key(a) implies map_of(t)[a] == map_of(s).insert(k@, v)[a] by {
        lemma_map_of_contains(t, a);
        let i = choose|i: int| 0 <= i < t.len() && t[i].0@ == a;
        lemma_map_of_index(t, i);
        if i < s.len() {
            assert(t[i] == s[i]);
            lemma_map_of_index(s, i);
        }
    }
    assert(map_of(t) =~= map_of(s).insert(k@, v));
}

/// Replacing the value of entry `i` (keeping its key) updates the map at that key.
pub proof fn lemma_map_of_update<K: View, V>(s: Seq<(K, V)>, i: int, e: (K, V))
    requires
        keys_of(s).no_duplicates(),
        0 <= i < s.len(),
        e.0@ == s[i].0@,
    ensures
        keys_of(s.update(i, e)).no_duplicates(),
        map_of(s.update(i, e)) == map_of(s).insert(s[i].0@, e.1),
{
    let t = s.update(i, e);
    assert(keys_of(t) =~= keys_of(s));
    lemma_map_of_index(s, i);
    assert forall|a: K::V| #[trigger] map_of(t).contains_key(a) <==> map_of(s).insert(s[i].0@, e.1).contains_key(a) by {
        lemma_map_of_contains(s, a);
        lemma_map_of_contains(t, a);
        if map_of(s).contains_key(a) {
            let j = choose|j: int| 0 <= j < s.len() && s[j].0@ == a;
            assert(t[j].0@ == a);
        }
        if map_of(t).contains_key(a) {
            let j = choose|j: int| 0 <= j < t.len() && t[j].0@ == a;
            assert(s[j].0@ == a);
        }
    }
    assert forall|a: K::V| #[trigger] map_of(t).contains_key(a) implies map_of(t)[a] == map_of(s).insert(s[i].0@, e.1)[a] by {
        lemma_map_of_contains(t, a);
        let j = choose|j: int| 0 <= j < t.len() && t[j].0@ == a;
        lemma_map_of_index(t, j);
        if j != i {
            lemma_map_of_index(s, j);
            assert(keys_of(s)[j] != keys_of(s)[i]);
        }
    }
    assert(map_of(t) =~= map_of(s).insert(s[i].0@, e.1));
}

/// Removing entry `i` removes its key from the map.
pub proof fn lemma_map_of_remove<K: View, V>(s: Seq<(K, V)>, i: int)
    requires
        keys_of(s).no_duplicates(),
        0 <= i < s.len(),
    ensures
        keys_of(s.remove(i)).no_duplicates(),
        map_of(s.remove(i)) == map_of(s).remove(s[i].0@),
{
    let t = s.remove(i);
    let ks = keys_of(s);
    assert(keys_of(t) =~= ks.remove(i));
    assert forall|x: int, y: int| 0 <= x < y < keys_of(t).len() implies keys_of(t)[x] != keys_of(t)[y] by {
        let xs = if x < i { x } else { x + 1 };
        let ys = if y < i { y } else { y + 1 };
        assert(keys_of(t)[x] == ks[xs]);
        assert(keys_of(t)[y] == ks[ys]);
    }
    assert forall|a: K::V| #[trigger] map_of(t).contains_key(a) <==> map_of(s).remove(s[i].0@).contains_key(a) by {
        lemma_map_of_contains(s, a);
        lemma_map_of_contains(t, a);
        if map_of(t).contains_key(a) {
            let j = choose|j: int| 0 <= j < t.len() && t[j].0@ == a;
            let js = if j < i { j } else { j + 1 };
            assert(t[j] == s[js]);
            assert(ks[js] != ks[i]);
        }
        if map_of(s).contains_key(a) && a != s[i].0@ {
            let j = choose|j: int| 0 <= j < s.len() && s[j].0@ == a;
            if j < i {
                assert(t[j] == s[j]);
            } else {
                assert(j != i);
                assert(t[j - 1] == s[j]);
            }
        }
    }
    assert forall|a: K::V| #[trigger] map_of(t).contains_key(a) implies map_of(t)[a] == map_of(s).remove(s[i].0@)[a] by {
        lemma_map_of_contains(t, a);
        let j = choose|j: int| 0 <= j < t.len() && t[j].0@ == a;
        let js = if j < i { j } else { j + 1 };
        assert(t[j] == s[js]);
        lemma_map_of_index(t, j);
        lemma_map_of_index(s, js);
    }
    assert(map_of(t) =~= map_of(s).remove(s[i].0@));
}

impl<K: KeyEq, V> VecMap<K, V> {
    /// No two entries carry keys with the same view.
    pub open spec fn wf(&self) -> bool {
        keys_of(self.entries@).no_duplicates()
    }

    pub fn new() -> (m: Self)
        ensures
            m.wf(),
            m@ == Map::<K::V, V>::empty(),
            m.entries@.len() == 0,
    {
        let m = VecMap { entries: Vec::new() };
        assert(m@ =~= Map::<K::V, V>::empty());
        m
    }

    pub fn len(&self) -> (n: usize)
        requires
            self.wf(),
        ensures
            n == self@.len(),
            n == self.entries@.len(),
            self@.dom().finite(),
    {
        proof {
            lemma_map_of_len(self.entries@);
        }
        self.entries.len()
    }

    /// Position of the entry whose key has the view of `k`.
    pub fn index_of(&self, k: &K) -> (r: Option<usize>)
        requires
            self.wf(),
        ensures
            match r {
                Some(i) => i < self.entries@.len() && self.entries@[i as int].0@ == k@
                    && self@.contains_key(k@) && self@[k@] == self.entries@[i as int].1,
                None => !self@.contains_key(k@),
            },
    {
        let mut i: usize = 0;
        while i < self.entries.len()
            invariant
                self.wf(),
                i <= self.entries@.len(),
                forall|j: int| 0 <= j < i ==> self.entries@[j].0@ != k@,
            decreases self.entries@.len() - i,
        {
            if self.entries[i].0.key_eq(k) {
                proof {
                    lemma_map_of_index(self.entries@, i as int);
                }
                return Some(i);
            }
            i = i + 1;
        }
        proof {
            lemma_map_of_contains(self.entries@, k@);
        }
        None
    }

    pub fn contains_key(&self, k: &K) -> (b: bool)
        requires
            self.wf(),
        ensures
            b == self@.contains_key(k@),
    {
        self.index_of(k).is_some()
    }

    pub fn get(&self, k: &K) -> (r: Option<&V>)
        requires
            self.wf(),
        ensures
            match r {
                Some(v) => self@.contains_key(k@) && *v == self@[k@],
                None => !self@.contains_key(k@),
            },
    {
        match self.index_of(k) {
            Some(i) => Some(&self.entries[i].1),
            None => None,
        }
    }

    /// Insert or overwrite. An existing key keeps its position; a new key goes last.
    pub fn insert(&mut self, k: K, v: V)
        requires
            old(self).wf(),
        ensures
            final(self).wf(),
            final(self)@ == old(self)@.insert(k@, v),
            old(self)@.contains_key(k@) ==> final(self).entries@.len() == old(self).entries@.len(),
            !old(self)@.contains_key(k@) ==> final(self).entries@ == old(self).entries@.push((k, v)),
    {
        match self.index_of(&k) {
            Some(i) => {
                proof {
                    lemma_map_of_update(self.entries@, i as int, (k, v));
                }
                self.entries.set(i, (k, v));
            },
            None => {
                proof {
                    lemma_map_of_push(self.entries@, k, v);
                }
                self.entries.push((k, v));
            },
        }
    }

    /// The value stored under `k`, to be changed in place.
    pub fn get_mut(&mut self, k: &K) -> (r: Option<&mut V>)
        requires
            old(self).wf(),
        ensures
            match r {
                Some(v) => {
                    &&& old(self)@.contains_key(k@)
                    &&& *v == old(self)@[k@]
                    &&& final(self).wf()
                    &&& final(self)@ == old(self)@.insert(k@, *final(v))
                },
                None => !old(self)@.contains_key(k@) && *final(self) == *old(self),
            },
    {
        match self.index_of(k) {
            Some(i) => {
                let ghost s0 = self.entries@;
                proof {
                    lemma_map_of_index(s0, i as int);
                }
                let r = &mut self.entries[i].1;
                proof {
                    lemma_map_of_update(s0, i as int, (s0[i as int].0, *final(r)));
                }
                Some(r)
            },
            None => None,
        }
    }

    /// Replace the value of entry `i`, keeping its key and position.
    pub fn set_value(&mut self, i: usize, v: V)
        requires
            old(self).wf(),
            i < old(self).entries@.len(),
        ensures
            final(self).wf(),
            final(self)@ == old(self)@.insert(old(self).entries@[i as int].0@, v),
            final(self).entries@ == old(self).entries@.update(i as int, (old(self).entries@[i as int].0, v)),
    {
        let ghost s0 = self.entries@;
        proof {
            lemma_map_of_update(s0, i as int, (s0[i as int].0, v));
        }
        self.entries[i].1 = v;
        assert(self.entries@ == s0.update(i as int, (s0[i as int].0, v)));
    }

    /// Put `v` in place of the value of entry `i` and hand back the value
    /// that was there.
    pub fn replace_value(&mut self, i: usize, v: V) -> (prev: V)
        requires
            old(self).wf(),
            i < old(self).entries@.len(),
        ensures
            final(self).wf(),
            prev == old(self).entries@[i as int].1,
            final(self)@ == old(self)@.insert(old(self).entries@[i as int].0@, v),
            final(self).entries@ == old(self).entries@.update(i as int, (old(self).entries@[i as int].0, v)),
    {
        let ghost s0 = self.entries@;
        proof {
            lemma_map_of_update(s0, i as int, (s0[i as int].0, v));
        }
        let mut prev = v;
        std::mem::swap(&mut prev, &mut self.entries[i].1);
        assert(self.entries@ == s0.update(i as int, (s0[i as int].0, v)));
        prev
    }

    /// Remove the entry for `k`, returning its value if there was one.
    pub fn remove(&mut self, k: &K) -> (r: Option<V>)
        requires
            old(self).wf(),
        ensures
            final(self).wf(),
            final(self)@ == old(self)@.remove(k@),
            match r {
                Some(v) => old(self)@.contains_key(k@) && v == old(self)@[k@],
                None => !old(self)@.contains_key(k@),
            },
    {
        match self.index_of(k) {
            Some(i) => {
                proof {
                    lemma_map_of_remove(self.entries@, i as int);
                }
                let e = self.entries.remove(i);
                Some(e.1)
            },
            None => {
                assert(old(self)@.remove(k@) =~= old(self)@);
                None
            },
        }
    }

    pub fn clear(&mut self)
        ensures
            final(self).wf(),
            final(self)@ == Map::<K::V, V>::empty(),
            final(self).entries@.len() == 0,
    {
        self.entries.clear();
        assert(final(self)@ =~= Map::<K::V, V>::empty());
    }
}

} // verus!
