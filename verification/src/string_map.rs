//! A small map from strings to values, kept as a list of entries in insertion order.
use vstd::prelude::*;

verus! {

/// Entries keyed by string, each key at most once, in the order in which keys were first inserted.
pub struct StrMap<V> {
    pub entries: Vec<(String, V)>,
}

/// No key occurs twice in `s`.
pub open spec fn keys_unique<V>(s: Seq<(String, V)>) -> bool {
    forall|i: int, j: int|
        0 <= i < s.len() && 0 <= j < s.len() && i != j ==> #[trigger] s[i].0@ != #[trigger] s[j].0@
}

/// Some entry of `s` has key `k`.
pub open spec fn has_key<V>(s: Seq<(String, V)>, k: Seq<char>) -> bool {
    exists|i: int| 0 <= i < s.len() && #[trigger] s[i].0@ == k
}

/// The value stored under `k`, if any.
pub open spec fn lookup<V>(s: Seq<(String, V)>, k: Seq<char>) -> Option<V> {
    if has_key(s, k) {
        Some(s[choose|i: int| 0 <= i < s.len() && #[trigger] s[i].0@ == k].1)
    } else {
        None
    }
}

/// What inserting `k` with value `v` does to the entries: the value of an existing
/// key is replaced in place, a new key is appended.
pub open spec fn spec_insert<V>(s: Seq<(String, V)>, k: String, v: V) -> Seq<(String, V)> {
    if has_key(s, k@) {
        s.update(choose|i: int| 0 <= i < s.len() && #[trigger] s[i].0@ == k@, (k, v))
    } else {
        s.push((k, v))
    }
}

pub proof fn lemma_lookup_at<V>(s: Seq<(String, V)>, i: int)
    requires
        keys_unique(s),
        0 <= i < s.len(),
    ensures
        lookup(s, s[i].0@) == Some(s[i].1),
{
    assert(has_key(s, s[i].0@));
}

pub proof fn lemma_insert<V>(s: Seq<(String, V)>, k: String, v: V)
    requires
        keys_unique(s),
    ensures
        keys_unique(spec_insert(s, k, v)),
        lookup(spec_insert(s, k, v), k@) == Some(v),
        forall|k2: Seq<char>| k2 != k@ ==> lookup(spec_insert(s, k, v), k2) == lookup(s, k2),
        has_key(s, k@) ==> spec_insert(s, k, v).len() == s.len(),
        !has_key(s, k@) ==> spec_insert(s, k, v).len() == s.len() + 1,
{
    let t = spec_insert(s, k, v);
    if has_key(s, k@) {
        let i = choose|i: int| 0 <= i < s.len() && #[trigger] s[i].0@ == k@;
        assert(t[i] == (k, v));
        lemma_lookup_at(t, i);
        assert forall|k2: Seq<char>| k2 != k@ implies lookup(t, k2) == lookup(s, k2) by {
            if has_key(s, k2) {
                let j = choose|j: int| 0 <= j < s.len() && #[trigger] s[j].0@ == k2;
                assert(t[j] == s[j]);
                lemma_lookup_at(s, j);
                lemma_lookup_at(t, j);
            } else {
                assert forall|j: int| 0 <= j < t.len() implies #[trigger] t[j].0@ != k2 by {
                    if j != i {
                        assert(t[j] == s[j]);
                    }
                }
            }
        }
    } else {
        let n = s.len() as int;
        assert(t[n] == (k, v));
        lemma_lookup_at(t, n);
        assert forall|k2: Seq<char>| k2 != k@ implies lookup(t, k2) == lookup(s, k2) by {
            if has_key(s, k2) {
                let j = choose|j: int| 0 <= j < s.len() && #[trigger] s[j].0@ == k2;
                assert(t[j] == s[j]);
                lemma_lookup_at(s, j);
                lemma_lookup_at(t, j);
            } else {
                assert forall|j: int| 0 <= j < t.len() implies #[trigger] t[j].0@ != k2 by {
                    if j < n {
                        assert(t[j] == s[j]);
                    }
                }
            }
        }
    }
}

/// The map from key views to values that the entries stand for.
pub open spec fn map_of<V>(s: Seq<(String, V)>) -> Map<Seq<char>, V> {
    Map::new(|k: Seq<char>| has_key(s, k), |k: Seq<char>| lookup(s, k)->0)
}

pub proof fn lemma_map_of_insert<V>(s: Seq<(String, V)>, k: String, v: V)
    requires
        keys_unique(s),
    ensures
        map_of(spec_insert(s, k, v)) == map_of(s).insert(k@, v),
        map_of(s).contains_key(k@) == has_key(s, k@),
{
    lemma_insert(s, k, v);
    let t = spec_insert(s, k, v);
    assert forall|k2: Seq<char>| k2 != k@ implies has_key(t, k2) == has_key(s, k2) by {
        assert(lookup(t, k2) == lookup(s, k2));
    }
    assert(has_key(t, k@)) by {
        assert(lookup(t, k@) == Some(v));
    }
    assert(map_of(t) =~= map_of(s).insert(k@, v));
}

/// Entries whose keys and values are given by their views.
pub open spec fn entries_view<V: View>(s: Seq<(String, V)>) -> Seq<(Seq<char>, V::V)> {
    s.map_values(|e: (String, V)| (e.0@, e.1@))
}

pub open spec fn vhas_key<V>(s: Seq<(Seq<char>, V)>, k: Seq<char>) -> bool {
    exists|i: int| 0 <= i < s.len() && #[trigger] s[i].0 == k
}

/// A key is in the entries exactly when it is in their views.
pub proof fn lemma_has_key_view<V: View>(s: Seq<(String, V)>, k: Seq<char>)
    ensures
        has_key(s, k) == vhas_key(entries_view(s), k),
{
    let sv = entries_view(s);
    if has_key(s, k) {
        let i = choose|i: int| 0 <= i < s.len() && #[trigger] s[i].0@ == k;
        assert(sv[i].0 == k);
    }
    if vhas_key(sv, k) {
        let i = choose|i: int| 0 <= i < sv.len() && #[trigger] sv[i].0 == k;
        assert(s[i].0@ == k);
    }
}

/// Inserting into entries given by their views.
pub open spec fn vinsert<V>(s: Seq<(Seq<char>, V)>, k: Seq<char>, v: V) -> Seq<(Seq<char>, V)> {
    if vhas_key(s, k) {
        s.update(choose|i: int| 0 <= i < s.len() && #[trigger] s[i].0 == k, (k, v))
    } else {
        s.push((k, v))
    }
}

pub proof fn lemma_insert_view<V: View>(s: Seq<(String, V)>, k: String, v: V)
    requires
        keys_unique(s),
    ensures
        entries_view(spec_insert(s, k, v)) == vinsert(entries_view(s), k@, v@),
        has_key(s, k@) == vhas_key(entries_view(s), k@),
{
    let sv = entries_view(s);
    if has_key(s, k@) {
        let i = choose|i: int| 0 <= i < s.len() && #[trigger] s[i].0@ == k@;
        assert(sv[i].0 == k@);
        let j = choose|j: int| 0 <= j < sv.len() && #[trigger] sv[j].0 == k@;
        assert(s[j].0@ == k@);
        assert(i == j);
        assert(entries_view(spec_insert(s, k, v)) =~= vinsert(sv, k@, v@));
    } else {
        assert forall|j: int| 0 <= j < sv.len() implies #[trigger] sv[j].0 != k@ by {
            assert(sv[j].0 == s[j].0@);
        }
        assert(entries_view(spec_insert(s, k, v)) =~= vinsert(sv, k@, v@));
    }
}

impl<T> View for StrMap<T> {
    type V = Map<Seq<char>, T>;

    open spec fn view(&self) -> Map<Seq<char>, T> {
        map_of(self.entries@)
    }
}

impl<V> StrMap<V> {
    pub open spec fn wf(&self) -> bool {
        keys_unique(self.entries@)
    }

    pub open spec fn get_spec(&self, k: Seq<char>) -> Option<V> {
        lookup(self.entries@, k)
    }

    pub fn new() -> (m: Self)
        ensures
            m.wf(),
            m.entries@.len() == 0,
            m@ == Map::<Seq<char>, V>::empty(),
    {
        proof {
            assert(map_of(Seq::<(String, V)>::empty()) =~= Map::<Seq<char>, V>::empty());
        }
        StrMap { entries: Vec::new() }
    }

    /// Index of the entry with key `k`, if there is one.
    pub fn find(&self, k: &String) -> (r: Option<usize>)
        ensures
            match r {
                Some(i) => i < self.entries@.len() && self.entries@[i as int].0@ == k@,
                None => !has_key(self.entries@, k@),
            },
    {
        let mut i: usize = 0;
        while i < self.entries.len()
            invariant
                i <= self.entries@.len(),
                forall|j: int| 0 <= j < i ==> #[trigger] self.entries@[j].0@ != k@,
            decreases self.entries@.len() - i,
        {
            if self.entries[i].0 == *k {
                return Some(i);
            }
            i = i + 1;
        }
        None
    }

    pub fn contains_key(&self, k: &String) -> (r: bool)
        ensures
            r == has_key(self.entries@, k@),
    {
        self.find(k).is_some()
    }

    pub fn get(&self, k: &String) -> (r: Option<&V>)
        requires
            self.wf(),
        ensures
            match r {
                Some(v) => self.get_spec(k@) == Some(*v),
                None => self.get_spec(k@) is None,
            },
            match r {
                Some(v) => self@.contains_key(k@) && self@[k@] == *v,
                None => !self@.contains_key(k@),
            },
    {
        match self.find(k) {
            Some(i) => {
                proof {
                    lemma_lookup_at(self.entries@, i as int);
                }
                Some(&self.entries[i].1)
            },
            None => None,
        }
    }

    /// Inserts `v` under `k`, replacing and returning an earlier value.
    pub fn insert(&mut self, k: String, v: V) -> (r: Option<V>)
        requires
            old(self).wf(),
        ensures
            final(self).wf(),
            final(self).entries@ == spec_insert(old(self).entries@, k, v),
            final(self)@ == old(self)@.insert(k@, v),
            r is Some <==> has_key(old(self).entries@, k@),
            r is Some <==> old(self)@.contains_key(k@),
    {
        proof {
            lemma_insert(old(self).entries@, k, v);
            lemma_map_of_insert(old(self).entries@, k, v);
        }
        match self.find(&k) {
            Some(i) => {
                let ghost s = self.entries@;
                proof {
                    let c = choose|c: int| 0 <= c < s.len() && #[trigger] s[c].0@ == k@;
                    assert(s[c].0@ == s[i as int].0@);
                    assert(c == i);
                }
                let mut entry = (k, v);
                std::mem::swap(&mut self.entries[i], &mut entry);
                Some(entry.1)
            },
            None => {
                self.entries.push((k, v));
                None
            },
        }
    }
}

} // verus!
