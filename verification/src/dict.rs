//! An association map from string keys to values, kept as an ordered list of
//! entries with pairwise-distinct keys.  Entry order is insertion order, which
//! the dispatcher relies on when it walks matched commands.

use vstd::prelude::*;
use crate::text::str_eq;

verus! {

/// Whether some entry of `s` carries the key `k`.
pub open spec fn assoc_has<V>(s: Seq<(Seq<char>, V)>, k: Seq<char>) -> bool {
    exists|i: int| 0 <= i < s.len() && s[i].0 == k
}

/// The value at the first entry of `s` carrying the key `k`, if any.
pub open spec fn assoc_get<V>(s: Seq<(Seq<char>, V)>, k: Seq<char>) -> Option<V>
    decreases s.len(),
{
    if s.len() == 0 {
        None
    } else if s[0].0 == k {
        Some(s[0].1)
    } else {
        assoc_get(s.drop_first(), k)
    }
}

/// `s` with the first entry carrying `k` replaced by `(k, v)`, or with
/// `(k, v)` appended when no entry carries `k`.
pub open spec fn assoc_set<V>(s: Seq<(Seq<char>, V)>, k: Seq<char>, v: V) -> Seq<(Seq<char>, V)>
    decreases s.len(),
{
    if s.len() == 0 {
        seq![(k, v)]
    } else if s[0].0 == k {
        seq![(k, v)] + s.drop_first()
    } else {
        seq![s[0]] + assoc_set(s.drop_first(), k, v)
    }
}

/// `s` without its first entry carrying `k`.
pub open spec fn assoc_remove<V>(s: Seq<(Seq<char>, V)>, k: Seq<char>) -> Seq<(Seq<char>, V)>
    decreases s.len(),
{
    if s.len() == 0 {
        s
    } else if s[0].0 == k {
        s.drop_first()
    } else {
        seq![s[0]] + assoc_remove(s.drop_first(), k)
    }
}

/// Pairwise-distinct keys.
pub open spec fn assoc_wf<V>(s: Seq<(Seq<char>, V)>) -> bool {
    forall|i: int, j: int| 0 <= i < j < s.len() ==> s[i].0 != s[j].0
}

/// A key is present exactly when a lookup yields a value.
pub proof fn lemma_assoc_get_has<V>(s: Seq<(Seq<char>, V)>, k: Seq<char>)
    ensures
        assoc_has(s, k) <==> assoc_get(s, k) is Some,
    decreases s.len(),
{
    if s.len() == 0 {
    } else if s[0].0 == k {
    } else {
        lemma_assoc_get_has(s.drop_first(), k);
        assert(assoc_has(s, k) ==> assoc_has(s.drop_first(), k)) by {
            if assoc_has(s, k) {
                let i = choose|i: int| 0 <= i < s.len() && s[i].0 == k;
                assert(s.drop_first()[i - 1].0 == k);
            }
        }
        assert(assoc_has(s.drop_first(), k) ==> assoc_has(s, k)) by {
            if assoc_has(s.drop_first(), k) {
                let i = choose|i: int| 0 <= i < s.drop_first().len() && s.drop_first()[i].0 == k;
                assert(s[i + 1].0 == k);
            }
        }
    }
}

/// What the three association operations yield when `i` is the first
/// position of `k` in `s`.
pub proof fn lemma_assoc_at<V>(s: Seq<(Seq<char>, V)>, k: Seq<char>, v: V, i: int)
    requires
        0 <= i < s.len(),
        s[i].0 == k,
        forall|j: int| 0 <= j < i ==> s[j].0 != k,
    ensures
        assoc_get(s, k) == Some(s[i].1),
        assoc_set(s, k, v) == s.update(i, (k, v)),
        assoc_remove(s, k) == s.remove(i),
    decreases i,
{
    if i == 0 {
        assert(assoc_set(s, k, v) =~= s.update(0, (k, v)));
        assert(assoc_remove(s, k) =~= s.remove(0));
    } else {
        assert(forall|j: int| 0 <= j < i - 1 ==> s.drop_first()[j].0 != k);
        lemma_assoc_at(s.drop_first(), k, v, i - 1);
        assert(assoc_set(s, k, v) =~= s.update(i, (k, v)));
        assert(assoc_remove(s, k) =~= s.remove(i));
    }
}

/// What the three association operations yield when no entry of `s`
/// carries `k`.
pub proof fn lemma_assoc_absent<V>(s: Seq<(Seq<char>, V)>, k: Seq<char>, v: V)
    requires
        forall|j: int| 0 <= j < s.len() ==> s[j].0 != k,
    ensures
        assoc_get(s, k) is None,
        assoc_set(s, k, v) == s.push((k, v)),
        assoc_remove(s, k) == s,
    decreases s.len(),
{
    if s.len() == 0 {
        assert(assoc_set(s, k, v) =~= s.push((k, v)));
        assert(assoc_remove(s, k) =~= s);
    } else {
        assert(forall|j: int| 0 <= j < s.drop_first().len() ==> s.drop_first()[j].0 != k);
        lemma_assoc_absent(s.drop_first(), k, v);
        assert(assoc_set(s, k, v) =~= s.push((k, v)));
        assert(assoc_remove(s, k) =~= s);
    }
}

/// Removal leaves no entry with the removed key behind, as long as keys
/// were pairwise distinct.
pub proof fn lemma_assoc_remove_clears<V>(s: Seq<(Seq<char>, V)>, k: Seq<char>)
    requires
        assoc_wf(s),
    ensures
        !assoc_has(assoc_remove(s, k), k),
    decreases s.len(),
{
    if s.len() == 0 {
    } else if s[0].0 == k {
        assert forall|i: int| 0 <= i < s.drop_first().len() implies s.drop_first()[i].0 != k by {
            assert(s.drop_first()[i] == s[i + 1]);
        }
    } else {
        assert(assoc_wf(s.drop_first()));
        lemma_assoc_remove_clears(s.drop_first(), k);
        let r = assoc_remove(s, k);
        assert forall|i: int| 0 <= i < r.len() implies r[i].0 != k by {
            if i > 0 {
                assert(r[i] == assoc_remove(s.drop_first(), k)[i - 1]);
            }
        }
    }
}

/// Setting a key keeps keys pairwise distinct.
pub proof fn lemma_assoc_set_wf<V>(s: Seq<(Seq<char>, V)>, k: Seq<char>, v: V)
    requires
        assoc_wf(s),
    ensures
        assoc_wf(assoc_set(s, k, v)),
{
    if assoc_has(s, k) {
        let i = lemma_first_position(s, k);
        lemma_assoc_at(s, k, v, i);
        let r = assoc_set(s, k, v);
        assert forall|a: int, b: int| 0 <= a < b < r.len() implies r[a].0 != r[b].0 by {
            assert(r[a].0 == s[a].0 || (a == i && r[a].0 == k));
            assert(r[b].0 == s[b].0 || (b == i && r[b].0 == k));
        }
    } else {
        assert(forall|j: int| 0 <= j < s.len() ==> s[j].0 != k);
        lemma_assoc_absent(s, k, v);
        let r = assoc_set(s, k, v);
        assert forall|a: int, b: int| 0 <= a < b < r.len() implies r[a].0 != r[b].0 by {
            if b < s.len() {
            } else {
                assert(r[b].0 == k);
                assert(r[a].0 == s[a].0);
            }
        }
    }
}

/// The first position of `k` in `s` exists whenever `k` is present.
pub proof fn lemma_first_position<V>(s: Seq<(Seq<char>, V)>, k: Seq<char>) -> (i: int)
    requires
        assoc_has(s, k),
    ensures
        0 <= i < s.len(),
        s[i].0 == k,
        forall|j: int| 0 <= j < i ==> s[j].0 != k,
    decreases s.len(),
{
    if s[0].0 == k {
        0
    } else {
        assert(assoc_has(s.drop_first(), k)) by {
            let i = choose|i: int| 0 <= i < s.len() && s[i].0 == k;
            assert(s.drop_first()[i - 1].0 == k);
        }
        let i = lemma_first_position(s.drop_first(), k);
        assert(s[i + 1].0 == k);
        assert(forall|j: int| 1 <= j < i + 1 ==> s[j].0 == s.drop_first()[j - 1].0);
        i + 1
    }
}

/// The entries of `s` with each value replaced by its deep view.
pub open spec fn deep_entries<V: DeepView>(s: Seq<(Seq<char>, V)>) -> Seq<(Seq<char>, V::V)> {
    Seq::new(s.len(), |i: int| (s[i].0, s[i].1.deep_view()))
}

/// Binding a key commutes with taking deep views of the values.
pub proof fn lemma_deep_entries_set<V: DeepView>(s: Seq<(Seq<char>, V)>, k: Seq<char>, v: V)
    ensures
        deep_entries(assoc_set(s, k, v)) == assoc_set(deep_entries(s), k, v.deep_view()),
    decreases s.len(),
{
    if s.len() == 0 {
        assert(deep_entries(assoc_set(s, k, v)) =~= assoc_set(deep_entries(s), k, v.deep_view()));
    } else if s[0].0 == k {
        assert(deep_entries(s)[0].0 == k);
        assert(deep_entries(assoc_set(s, k, v)) =~= assoc_set(deep_entries(s), k, v.deep_view()));
    } else {
        lemma_deep_entries_set(s.drop_first(), k, v);
        assert(deep_entries(s).drop_first() =~= deep_entries(s.drop_first()));
        assert(deep_entries(assoc_set(s, k, v)) =~= assoc_set(deep_entries(s), k, v.deep_view()));
    }
}

/// The association map: string keys, values of any one type, first-match
/// lookup, insertion order kept.
pub struct Dict<V> {
    entries: Vec<(String, V)>,
}

impl<V> View for Dict<V> {
    type V = Seq<(Seq<char>, V)>;

    closed spec fn view(&self) -> Seq<(Seq<char>, V)> {
        Seq::new(self.entries@.len(), |i: int| (self.entries@[i].0@, self.entries@[i].1))
    }
}

impl<V: DeepView> DeepView for Dict<V> {
    type V = Seq<(Seq<char>, V::V)>;

    closed spec fn deep_view(&self) -> Seq<(Seq<char>, V::V)> {
        Seq::new(self.entries@.len(), |i: int| (self.entries@[i].0@, self.entries@[i].1.deep_view()))
    }
}

impl<V> Dict<V> {
    /// Keys pairwise distinct.
    pub open spec fn wf(&self) -> bool {
        assoc_wf(self@)
    }

    /// The empty map.
    pub fn new() -> (d: Dict<V>)
        ensures
            d@ == Seq::<(Seq<char>, V)>::empty(),
            d.wf(),
    {
        let d = Dict { entries: Vec::new() };
        proof {
            assert(d@ =~= Seq::<(Seq<char>, V)>::empty());
        }
        d
    }

    /// How many entries the map holds.
    pub fn len(&self) -> (n: usize)
        ensures
            n == self@.len(),
    {
        self.entries.len()
    }

    /// Whether the map holds no entry.
    pub fn is_empty(&self) -> (r: bool)
        ensures
            r == (self@.len() == 0),
    {
        self.entries.len() == 0
    }

    /// The first position carrying `k`, if any.
    fn position(&self, k: &str) -> (r: Option<usize>)
        ensures
            match r {
                Some(i) => i < self@.len() && self@[i as int].0 == k@ && (forall|j: int|
                    0 <= j < i ==> self@[j].0 != k@),
                None => !assoc_has(self@, k@),
            },
    {
        let mut i: usize = 0;
        while i < self.entries.len()
            invariant
                0 <= i <= self.entries.len(),
                self@.len() == self.entries@.len(),
                forall|j: int| 0 <= j < i ==> self@[j].0 != k@,
            decreases self.entries.len() - i,
        {
            if str_eq(self.entries[i].0.as_str(), k) {
                return Some(i);
            }
            i += 1;
        }
        None
    }

    /// Whether some entry carries the key `k`.
    pub fn contains_key(&self, k: &str) -> (r: bool)
        ensures
            r == assoc_has(self@, k@),
    {
        match self.position(k) {
            Some(_) => true,
            None => false,
        }
    }

    /// The value bound to `k`, if any.
    pub fn get(&self, k: &str) -> (r: Option<&V>)
        ensures
            match r {
                Some(v) => assoc_get(self@, k@) == Some(*v) && assoc_has(self@, k@),
                None => assoc_get(self@, k@) is None && !assoc_has(self@, k@),
            },
    {
        match self.position(k) {
            Some(i) => {
                proof {
                    lemma_assoc_at(self@, k@, self@[i as int].1, i as int);
                }
                Some(&self.entries[i].1)
            },
            None => {
                proof {
                    lemma_assoc_get_has(self@, k@);
                }
                None
            },
        }
    }

    /// Binds `k` to `v`: replaces the value in place when `k` is present,
    /// appends the entry otherwise.
    pub fn insert(&mut self, k: String, v: V)
        requires
            old(self).wf(),
        ensures
            final(self).wf(),
            final(self)@ == assoc_set(old(self)@, k@, v),
    {
        proof {
            lemma_assoc_set_wf(old(self)@, k@, v);
        }
        match self.position(k.as_str()) {
            Some(i) => {
                proof {
                    lemma_assoc_at(old(self)@, k@, v, i as int);
                }
                self.entries.remove(i);
                self.entries.insert(i, (k, v));
                proof {
                    assert(self@ =~= assoc_set(old(self)@, k@, v));
                }
            },
            None => {
                proof {
                    lemma_assoc_absent(old(self)@, k@, v);
                }
                self.entries.push((k, v));
                proof {
                    assert(self@ =~= assoc_set(old(self)@, k@, v));
                }
            },
        }
    }

    /// Unbinds `k` and yields the value it was bound to, if any.
    pub fn remove(&mut self, k: &str) -> (r: Option<V>)
        requires
            old(self).wf(),
        ensures
            final(self).wf(),
            final(self)@ == assoc_remove(old(self)@, k@),
            r == assoc_get(old(self)@, k@),
            !assoc_has(final(self)@, k@),
    {
        proof {
            lemma_assoc_remove_clears(old(self)@, k@);
        }
        match self.position(k) {
            Some(i) => {
                proof {
                    lemma_assoc_at(old(self)@, k@, old(self)@[i as int].1, i as int);
                }
                let (_, v) = self.entries.remove(i);
                proof {
                    assert(self@ =~= assoc_remove(old(self)@, k@));
                    assert(assoc_wf(self@)) by {
                        assert(forall|a: int, b: int|
                            0 <= a < b < self@.len() ==> self@[a].0 != self@[b].0);
                    }
                }
                Some(v)
            },
            None => {
                proof {
                    lemma_assoc_get_has(old(self)@, k@);
                    lemma_assoc_absent(old(self)@, k@, old(self)@[0].1);
                    assert(forall|j: int| 0 <= j < old(self)@.len() ==> old(self)@[j].0 != k@);
                    assert(self@ =~= assoc_remove(old(self)@, k@));
                }
                None
            },
        }
    }

    /// Detaches and yields the first entry.
    pub fn pop_first(&mut self) -> (r: Option<(String, V)>)
        requires
            old(self).wf(),
        ensures
            final(self).wf(),
            match r {
                Some(kv) => old(self)@.len() > 0 && (kv.0@, kv.1) == old(self)@[0]
                    && final(self)@ == old(self)@.drop_first(),
                None => old(self)@.len() == 0 && final(self)@ == old(self)@,
            },
    {
        if self.entries.len() == 0 {
            return None;
        }
        let (k, v) = self.entries.remove(0);
        proof {
            assert(self@ =~= old(self)@.drop_first());
        }
        Some((k, v))
    }

    /// The key of the entry at position `i`.
    pub fn key_at(&self, i: usize) -> (r: &String)
        requires
            i < self@.len(),
        ensures
            r@ == self@[i as int].0,
    {
        &self.entries[i].0
    }

    /// The value of the entry at position `i`.
    pub fn value_at(&self, i: usize) -> (r: &V)
        requires
            i < self@.len(),
        ensures
            *r == self@[i as int].1,
    {
        &self.entries[i].1
    }
}

impl<V: DeepView> Dict<V> {
    /// The deep view lists the same keys, with each value's deep view.
    pub proof fn lemma_deep_view(&self)
        ensures
            self.deep_view() == deep_entries(self@),
    {
        assert(self.deep_view() =~= deep_entries(self@));
    }
}

} // verus!
