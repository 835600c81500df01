//! A map from address strings to values, kept as a list of entries in which
//! the first entry for an address is the one that counts.

use vstd::prelude::*;

verus! {

/// The map that a list of entries stands for: each address maps to the
/// value of its first entry.
pub open spec fn entries_view<V>(s: Seq<(String, V)>) -> Map<Seq<char>, V>
    decreases s.len(),
{
    if s.len() == 0 {
        Map::empty()
    } else {
        let m = entries_view(s.drop_last());
        let k = s.last().0@;
        if m.dom().contains(k) {
            m
        } else {
            m.insert(k, s.last().1)
        }
    }
}

/// The sum of `f` over the values of the map that a list of entries stands
/// for (each address counted once, with the value of its first entry).
pub open spec fn entries_total<V>(s: Seq<(String, V)>, f: spec_fn(V) -> int) -> int
    decreases s.len(),
{
    if s.len() == 0 {
        0
    } else {
        entries_total(s.drop_last(), f) + if entries_view(s.drop_last()).dom().contains(s.last().0@) {
            0
        } else {
            f(s.last().1)
        }
    }
}

/// Replacing the value of the first entry of an address changes the total
/// by the difference of the two values.
proof fn lemma_total_update<V>(s: Seq<(String, V)>, i: int, key: String, v: V, f: spec_fn(V) -> int)
    requires
        0 <= i < s.len(),
        key@ == s[i].0@,
        forall|j: int| 0 <= j < i ==> #[trigger] s[j].0@ != s[i].0@,
    ensures
        entries_total(s.update(i, (key, v)), f) == entries_total(s, f) - f(s[i].1) + f(v),
    decreases s.len(),
{
    let t = s.update(i, (key, v));
    let p = s.drop_last();
    if i == s.len() - 1 {
        assert(t.drop_last() =~= p);
        lemma_dom(p, key@);
        assert forall|j: int| 0 <= j < p.len() implies #[trigger] p[j].0@ != key@ by {
            assert(p[j] == s[j]);
        }
    } else {
        let q = p.update(i, (key, v));
        assert(t.drop_last() =~= q);
        assert forall|j: int| 0 <= j < i implies #[trigger] p[j].0@ != p[i].0@ by {
            assert(p[j] == s[j]);
        }
        lemma_total_update(p, i, key, v, f);
        let k = s.last().0@;
        lemma_dom(p, k);
        lemma_dom(q, k);
        if exists|j: int| 0 <= j < p.len() && #[trigger] p[j].0@ == k {
            let j = choose|j: int| 0 <= j < p.len() && #[trigger] p[j].0@ == k;
            assert(q[j].0@ == k);
        }
        if exists|j: int| 0 <= j < q.len() && #[trigger] q[j].0@ == k {
            let j = choose|j: int| 0 <= j < q.len() && #[trigger] q[j].0@ == k;
            assert(p[j].0@ == k);
        }
    }
}

/// An address is mapped exactly when some entry names it.
proof fn lemma_dom<V>(s: Seq<(String, V)>, k: Seq<char>)
    ensures
        entries_view(s).dom().contains(k) <==> exists|j: int| 0 <= j < s.len() && #[trigger] s[j].0@ == k,
    decreases s.len(),
{
    if s.len() > 0 {
        lemma_dom(s.drop_last(), k);
        if exists|j: int| 0 <= j < s.len() && #[trigger] s[j].0@ == k {
            let j = choose|j: int| 0 <= j < s.len() && #[trigger] s[j].0@ == k;
            if j < s.len() - 1 {
                assert(s.drop_last()[j].0@ == k);
            }
        }
        if exists|j: int| 0 <= j < s.len() - 1 && #[trigger] s.drop_last()[j].0@ == k {
            let j = choose|j: int| 0 <= j < s.len() - 1 && #[trigger] s.drop_last()[j].0@ == k;
            assert(s[j].0@ == k);
        }
    }
}

/// The value of an address is that of its first entry.
proof fn lemma_first<V>(s: Seq<(String, V)>, i: int)
    requires
        0 <= i < s.len(),
        forall|j: int| 0 <= j < i ==> #[trigger] s[j].0@ != s[i].0@,
    ensures
        entries_view(s).dom().contains(s[i].0@),
        entries_view(s)[s[i].0@] == s[i].1,
    decreases s.len(),
{
    let k = s[i].0@;
    let p = s.drop_last();
    if i == s.len() - 1 {
        lemma_dom(p, k);
        assert forall|j: int| 0 <= j < p.len() implies #[trigger] p[j].0@ != k by {
            assert(p[j] == s[j]);
        }
    } else {
        assert forall|j: int| 0 <= j < i implies #[trigger] p[j].0@ != p[i].0@ by {
            assert(p[j] == s[j]);
        }
        lemma_first(p, i);
        assert(p[i] == s[i]);
    }
}

/// Replacing the value of the first entry of an address updates the map.
proof fn lemma_update<V>(s: Seq<(String, V)>, i: int, key: String, v: V)
    requires
        0 <= i < s.len(),
        key@ == s[i].0@,
        forall|j: int| 0 <= j < i ==> #[trigger] s[j].0@ != s[i].0@,
    ensures
        entries_view(s.update(i, (key, v))) =~= entries_view(s).insert(key@, v),
    decreases s.len(),
{
    let t = s.update(i, (key, v));
    let p = s.drop_last();
    if i == s.len() - 1 {
        assert(t.drop_last() =~= p);
        lemma_dom(p, key@);
        assert forall|j: int| 0 <= j < p.len() implies #[trigger] p[j].0@ != key@ by {
            assert(p[j] == s[j]);
        }
    } else {
        assert(t.drop_last() =~= p.update(i, (key, v)));
        assert forall|j: int| 0 <= j < i implies #[trigger] p[j].0@ != p[i].0@ by {
            assert(p[j] == s[j]);
        }
        lemma_update(p, i, key, v);
        lemma_first(p, i);
        lemma_dom(p, s.last().0@);
        lemma_dom(p.update(i, (key, v)), s.last().0@);
        if exists|j: int| 0 <= j < p.len() && #[trigger] p[j].0@ == s.last().0@ {
            let j = choose|j: int| 0 <= j < p.len() && #[trigger] p[j].0@ == s.last().0@;
            assert(p.update(i, (key, v))[j].0@ == s.last().0@);
        }
        if exists|j: int| 0 <= j < p.len() && #[trigger] p.update(i, (key, v))[j].0@ == s.last().0@ {
            let j = choose|j: int| 0 <= j < p.len() && #[trigger] p.update(i, (key, v))[j].0@ == s.last().0@;
            assert(p[j].0@ == s.last().0@);
        }
    }
}

/// A map from addresses to values.
pub struct AddressMap<V> {
    entries: Vec<(String, V)>,
}

impl<V> View for AddressMap<V> {
    type V = Map<Seq<char>, V>;

    closed spec fn view(&self) -> Map<Seq<char>, V> {
        entries_view(self.entries@)
    }
}

impl<V> AddressMap<V> {
    /// The sum of `f` over the values of the map.
    pub closed spec fn total(&self, f: spec_fn(V) -> int) -> int {
        entries_total(self.entries@, f)
    }

    /// An empty map.
    pub fn new() -> (m: Self)
        ensures
            m@ == Map::<Seq<char>, V>::empty(),
            forall|f: spec_fn(V) -> int| #[trigger] m.total(f) == 0,
    {
        AddressMap { entries: Vec::new() }
    }

    /// The index of the first entry for `key`, if any.
    fn position(&self, key: &String) -> (r: Option<usize>)
        ensures
            r matches Some(i) ==> i < self.entries@.len() && self.entries@[i as int].0@ == key@
                && forall|j: int| 0 <= j < i ==> #[trigger] self.entries@[j].0@ != key@,
            r is None ==> forall|j: int|
                0 <= j < self.entries@.len() ==> #[trigger] self.entries@[j].0@ != key@,
    {
        let n: usize = self.entries.len();
        let mut i: usize = 0;
        while i < n
            invariant
                n == self.entries@.len(),
                i <= n,
                forall|j: int| 0 <= j < i ==> #[trigger] self.entries@[j].0@ != key@,
            decreases n - i,
        {
            if self.entries[i].0 == *key {
                return Some(i);
            }
            i = i + 1;
        }
        None
    }

    /// The value for `key`, if it has one.
    pub fn get(&self, key: &str) -> (r: Option<&V>)
        ensures
            r == if self@.dom().contains(key@) {
                Some(&self@[key@])
            } else {
                None
            },
    {
        let owned = key.to_string();
        match self.position(&owned) {
            Some(i) => {
                proof {
                    lemma_first(self.entries@, i as int);
                }
                Some(&self.entries[i].1)
            },
            None => {
                proof {
                    lemma_dom(self.entries@, key@);
                }
                None
            },
        }
    }

    /// Sets the value for `key`, replacing any earlier one.
    pub fn insert(&mut self, key: String, value: V)
        ensures
            final(self)@ == old(self)@.insert(key@, value),
            forall|f: spec_fn(V) -> int|
                #[trigger] final(self).total(f) == old(self).total(f) - (if old(self)@.dom().contains(key@) {
                    f(old(self)@[key@])
                } else {
                    0
                }) + f(value),
    {
        match self.position(&key) {
            Some(i) => {
                proof {
                    lemma_update(self.entries@, i as int, key, value);
                    lemma_first(self.entries@, i as int);
                    assert forall|f: spec_fn(V) -> int|
                        #[trigger] entries_total(self.entries@.update(i as int, (key, value)), f)
                            == entries_total(self.entries@, f) - f(self.entries@[i as int].1) + f(value) by {
                        lemma_total_update(self.entries@, i as int, key, value, f);
                    }
                }
                self.entries.set(i, (key, value));
            },
            None => {
                proof {
                    lemma_dom(self.entries@, key@);
                    assert(self.entries@.push((key, value)).drop_last() =~= self.entries@);
                }
                self.entries.push((key, value));
            },
        }
    }
}

} // verus!
