//! An insertion-ordered table of values keyed by unique strings.
use vstd::prelude::*;

verus! {

/// Some entry of `s` has key `k`.
pub open spec fn has_key<X>(s: Seq<(Seq<char>, X)>, k: Seq<char>) -> bool {
    exists|i: int| 0 <= i < s.len() && (#[trigger] s[i]).0 == k
}

/// The position of the entry with key `k`, where there is one.
pub open spec fn key_pos<X>(s: Seq<(Seq<char>, X)>, k: Seq<char>) -> int {
    choose|i: int| 0 <= i < s.len() && (#[trigger] s[i]).0 == k
}

/// No two entries share a key.
pub open spec fn unique_keys<X>(s: Seq<(Seq<char>, X)>) -> bool {
    forall|i: int, j: int|
        0 <= i < s.len() && 0 <= j < s.len() && i != j ==> (#[trigger] s[i]).0 != (#[trigger] s[j]).0
}

/// The value stored under `k`.
pub open spec fn lookup<X>(s: Seq<(Seq<char>, X)>, k: Seq<char>) -> Option<X> {
    if has_key(s, k) {
        Some(s[key_pos(s, k)].1)
    } else {
        None
    }
}

/// `s` with `x` stored under `k`: in place where `k` is present, else appended.
pub open spec fn put<X>(s: Seq<(Seq<char>, X)>, k: Seq<char>, x: X) -> Seq<(Seq<char>, X)> {
    if has_key(s, k) {
        s.update(key_pos(s, k), (k, x))
    } else {
        s.push((k, x))
    }
}

/// `s` without the entry under `k`; the others keep their order.
pub open spec fn erase<X>(s: Seq<(Seq<char>, X)>, k: Seq<char>) -> Seq<(Seq<char>, X)> {
    if has_key(s, k) {
        s.remove(key_pos(s, k))
    } else {
        s
    }
}

/// The stored values, in order.
pub open spec fn values_of<X>(s: Seq<(Seq<char>, X)>) -> Seq<X> {
    s.map_values(|e: (Seq<char>, X)| e.1)
}

pub proof fn lemma_lookup_at<X>(s: Seq<(Seq<char>, X)>, i: int)
    requires
        unique_keys(s),
        0 <= i < s.len(),
    ensures
        has_key(s, s[i].0),
        key_pos(s, s[i].0) == i,
        lookup(s, s[i].0) == Some(s[i].1),
{
    assert(has_key(s, s[i].0));
}

pub proof fn lemma_put<X>(s: Seq<(Seq<char>, X)>, k: Seq<char>, x: X)
    requires
        unique_keys(s),
    ensures
        unique_keys(put(s, k, x)),
        forall|k2: Seq<char>|
            #[trigger] lookup(put(s, k, x), k2) == if k2 == k {
                Some(x)
            } else {
                lookup(s, k2)
            },
{
    let t = put(s, k, x);
    if has_key(s, k) {
        let p = key_pos(s, k);
        assert(unique_keys(t));
    } else {
        assert(unique_keys(t));
    }
    assert forall|k2: Seq<char>| #[trigger]
        lookup(t, k2) == if k2 == k {
            Some(x)
        } else {
            lookup(s, k2)
        } by {
        if k2 == k {
            lemma_lookup_at(t, if has_key(s, k) { key_pos(s, k) } else { s.len() as int });
        } else if has_key(s, k2) {
            let j = key_pos(s, k2);
            assert(t[j] == s[j]);
            lemma_lookup_at(t, j);
        } else {
            assert(!has_key(t, k2)) by {
                if has_key(t, k2) {
                    let j = key_pos(t, k2);
                    assert(s[j].0 == k2);
                }
            }
        }
    }
}

pub proof fn lemma_erase<X>(s: Seq<(Seq<char>, X)>, k: Seq<char>)
    requires
        unique_keys(s),
    ensures
        unique_keys(erase(s, k)),
        forall|k2: Seq<char>|
            #[trigger] lookup(erase(s, k), k2) == if k2 == k {
                None
            } else {
                lookup(s, k2)
            },
{
    let t = erase(s, k);
    if has_key(s, k) {
        let p = key_pos(s, k);
        assert forall|i: int, j: int|
            0 <= i < t.len() && 0 <= j < t.len() && i != j implies (#[trigger] t[i]).0 != (
            #[trigger] t[j]).0 by {
            let si = if i < p { i } else { i + 1 };
            let sj = if j < p { j } else { j + 1 };
            assert(t[i] == s[si]);
            assert(t[j] == s[sj]);
        }
        assert forall|k2: Seq<char>| #[trigger]
            lookup(t, k2) == if k2 == k {
                None
            } else {
                lookup(s, k2)
            } by {
            if has_key(t, k2) {
                let j = key_pos(t, k2);
                let sj = if j < p { j } else { j + 1 };
                assert(t[j] == s[sj]);
                lemma_lookup_at(s, sj);
                lemma_lookup_at(t, j);
            } else if k2 != k && has_key(s, k2) {
                let j = key_pos(s, k2);
                let tj = if j < p { j } else { j - 1 };
                assert(t[tj] == s[j]);
            }
        }
    }
}

/// Storing the same value twice under one key is storing it once.
pub proof fn lemma_put_twice<X>(s: Seq<(Seq<char>, X)>, k: Seq<char>, x: X)
    requires
        unique_keys(s),
    ensures
        put(put(s, k, x), k, x) == put(s, k, x),
{
    let t = put(s, k, x);
    lemma_put(s, k, x);
    assert(lookup(t, k) == Some(x));
    let p = key_pos(t, k);
    assert(t[p] == (k, x));
    assert(t.update(p, (k, x)) =~= t);
}

/// Values of type `V` under unique string keys, in the order the keys first came.
pub struct Table<V> {
    entries: Vec<(String, V)>,
}

impl<V: DeepView> View for Table<V> {
    type V = Seq<(Seq<char>, V::V)>;

    closed spec fn view(&self) -> Seq<(Seq<char>, V::V)> {
        self.entries@.map_values(|e: (String, V)| (e.0@, e.1.deep_view()))
    }
}

impl<V: DeepView> Table<V> {
    pub open spec fn wf(&self) -> bool {
        unique_keys(self@)
    }

    pub fn new() -> (r: Self)
        ensures
            r@ == Seq::<(Seq<char>, V::V)>::empty(),
            r.wf(),
    {
        let r = Table { entries: Vec::new() };
        assert(r@ =~= Seq::<(Seq<char>, V::V)>::empty());
        r
    }

    pub fn len(&self) -> (r: usize)
        ensures
            r == self@.len(),
    {
        self.entries.len()
    }

    pub fn value_at(&self, i: usize) -> (r: &V)
        requires
            i < self@.len(),
        ensures
            r.deep_view() == self@[i as int].1,
    {
        &self.entries[i].1
    }

    /// Where the entry under `k` stands.
    pub fn find(&self, k: &String) -> (r: Option<usize>)
        requires
            self.wf(),
        ensures
            match r {
                Some(i) => i < self@.len() && self@[i as int].0 == k@ && has_key(self@, k@)
                    && key_pos(self@, k@) == i,
                None => !has_key(self@, k@),
            },
    {
        let mut i: usize = 0;
        while i < self.entries.len()
            invariant
                i <= self.entries.len(),
                self.wf(),
                forall|j: int| 0 <= j < i ==> (#[trigger] self@[j]).0 != k@,
            decreases self.entries.len() - i,
        {
            if self.entries[i].0 == *k {
                proof {
                    lemma_lookup_at(self@, i as int);
                }
                return Some(i);
            }
            i = i + 1;
        }
        None
    }

    pub fn get(&self, k: &String) -> (r: Option<&V>)
        requires
            self.wf(),
        ensures
            match r {
                Some(v) => lookup(self@, k@) == Some(v.deep_view()),
                None => lookup(self@, k@) == None::<V::V>,
            },
    {
        match self.find(k) {
            Some(i) => Some(&self.entries[i].1),
            None => None,
        }
    }

    pub fn contains_key(&self, k: &String) -> (r: bool)
        requires
            self.wf(),
        ensures
            r == has_key(self@, k@),
    {
        self.find(k).is_some()
    }

    /// Stores `v` under `k`, in place of any value there.
    pub fn insert(&mut self, k: String, v: V)
        requires
            old(self).wf(),
        ensures
            final(self)@ == put(old(self)@, k@, v.deep_view()),
            final(self).wf(),
            forall|k2: Seq<char>|
                #[trigger] lookup(final(self)@, k2) == if k2 == k@ {
                    Some(v.deep_view())
                } else {
                    lookup(old(self)@, k2)
                },
    {
        proof {
            lemma_put(self@, k@, v.deep_view());
        }
        let ghost kv = (k@, v.deep_view());
        match self.find(&k) {
            Some(i) => {
                self.entries.set(i, (k, v));
                assert(self@ =~= old(self)@.update(i as int, kv));
            },
            None => {
                self.entries.push((k, v));
                assert(self@ =~= old(self)@.push(kv));
            },
        }
    }

    /// Replaces the value of the entry at `i`, keeping its key.
    pub fn set_value_at(&mut self, i: usize, v: V)
        requires
            old(self).wf(),
            i < old(self)@.len(),
        ensures
            final(self)@ == old(self)@.update(i as int, (old(self)@[i as int].0, v.deep_view())),
            final(self).wf(),
    {
        let k = self.entries[i].0.clone();
        let ghost kv = (k@, v.deep_view());
        self.entries.set(i, (k, v));
        assert(self@ =~= old(self)@.update(i as int, kv));
        assert(unique_keys(self@)) by {
            assert forall|a: int, b: int|
                0 <= a < self@.len() && 0 <= b < self@.len() && a != b implies (
                #[trigger] self@[a]).0 != (#[trigger] self@[b]).0 by {
                assert(self@[a].0 == old(self)@[a].0);
                assert(self@[b].0 == old(self)@[b].0);
            }
        }
    }

    /// Removes the entry under `k`, handing back its value.
    pub fn remove(&mut self, k: &String) -> (r: Option<V>)
        requires
            old(self).wf(),
        ensures
            final(self)@ == erase(old(self)@, k@),
            final(self).wf(),
            forall|k2: Seq<char>|
                #[trigger] lookup(final(self)@, k2) == if k2 == k@ {
                    None
                } else {
                    lookup(old(self)@, k2)
                },
            match r {
                Some(v) => lookup(old(self)@, k@) == Some(v.deep_view()),
                None => lookup(old(self)@, k@) == None::<V::V>,
            },
    {
        proof {
            lemma_erase(self@, k@);
        }
        match self.find(k) {
            Some(i) => {
                let e = self.entries.remove(i);
                assert(self@ =~= old(self)@.remove(i as int));
                Some(e.1)
            },
            None => None,
        }
    }

    /// Builds a table from entries whose keys are all distinct.
    pub fn from_entries(entries: Vec<(String, V)>) -> (r: Option<Self>)
        ensures
            r is Some <==> unique_keys(entries.deep_view()),
            match r {
                Some(t) => t@ == entries.deep_view() && t.wf(),
                None => true,
            },
    {
        let ghost s = entries.deep_view();
        let mut i: usize = 0;
        while i < entries.len()
            invariant
                i <= entries.len(),
                s == entries.deep_view(),
                forall|a: int, b: int| 0 <= a < i && 0 <= b < s.len() && a != b ==> (#[trigger] s[a]).0 != (#[trigger] s[b]).0,
            decreases entries.len() - i,
        {
            let mut j: usize = 0;
            while j < entries.len()
                invariant
                    i < entries.len(),
                    j <= entries.len(),
                    s == entries.deep_view(),
                    forall|a: int, b: int| 0 <= a < i && 0 <= b < s.len() && a != b ==> (#[trigger] s[a]).0 != (#[trigger] s[b]).0,
                    forall|b: int| 0 <= b < j && b != i ==> s[i as int].0 != (#[trigger] s[b]).0,
                decreases entries.len() - j,
            {
                if j != i && entries[i].0 == entries[j].0 {
                    assert(s[i as int].0 == s[j as int].0);
                    return None;
                }
                j = j + 1;
            }
            i = i + 1;
        }
        let t = Table { entries };
        assert(t@ =~= s);
        Some(t)
    }

    /// Hands back the entries in order.
    pub fn into_entries(self) -> (r: Vec<(String, V)>)
        ensures
            r.deep_view() == self@,
    {
        let r = self.entries;
        assert(r.deep_view() =~= self@);
        r
    }
}

} // verus!
