//! A map from names to small values, kept as a list of entries.
use vstd::prelude::*;

verus! {

/// The map that a list of entries stands for: a later entry for a name
/// overrides an earlier one.
pub open spec fn entries_map<V>(s: Seq<(Seq<char>, V)>) -> Map<Seq<char>, V>
    decreases s.len(),
{
    if s.len() == 0 {
        Map::empty()
    } else {
        entries_map(s.drop_last()).insert(s.last().0, s.last().1)
    }
}

/// The entries with their names and values by their views.
pub open spec fn entries_view<V: View>(s: Seq<(String, V)>) -> Seq<(Seq<char>, V::V)> {
    s.map_values(|e: (String, V)| (e.0@, e.1@))
}

/// A finite map from names to values.
pub struct NameMap<V> {
    entries: Vec<(String, V)>,
}

impl<V: View> View for NameMap<V> {
    type V = Map<Seq<char>, V::V>;

    closed spec fn view(&self) -> Map<Seq<char>, V::V> {
        entries_map(entries_view(self.entries@))
    }
}

/// Entries after position `i` do not name `k`: the map of the whole list
/// agrees on `k` with the map of the first `i` entries.
proof fn lemma_absent_suffix<V>(s: Seq<(Seq<char>, V)>, i: int, k: Seq<char>)
    requires
        0 <= i <= s.len(),
        forall|j: int| i <= j < s.len() ==> s[j].0 != k,
    ensures
        entries_map(s).contains_key(k) == entries_map(s.take(i)).contains_key(k),
        entries_map(s).contains_key(k) ==> entries_map(s)[k] == entries_map(s.take(i))[k],
    decreases s.len(),
{
    if s.len() > i {
        lemma_absent_suffix(s.drop_last(), i, k);
        assert(s.drop_last().take(i) =~= s.take(i));
    } else {
        assert(s.take(i) =~= s);
    }
}

/// Overwriting the last entry for `k` is inserting into the map.
proof fn lemma_update_last<V>(s: Seq<(Seq<char>, V)>, i: int, k: Seq<char>, v: V)
    requires
        0 <= i < s.len(),
        s[i].0 == k,
        forall|j: int| i < j < s.len() ==> s[j].0 != k,
    ensures
        entries_map(s.update(i, (k, v))) == entries_map(s).insert(k, v),
    decreases s.len(),
{
    let t = s.update(i, (k, v));
    if i == s.len() - 1 {
        assert(t.drop_last() =~= s.drop_last());
        assert(entries_map(t) =~= entries_map(s).insert(k, v));
    } else {
        lemma_update_last(s.drop_last(), i, k, v);
        assert(t.drop_last() =~= s.drop_last().update(i, (k, v)));
        assert(entries_map(t) =~= entries_map(s).insert(k, v));
    }
}

impl<V: View> NameMap<V> {
    /// The empty map.
    pub fn new() -> (m: Self)
        ensures
            m@ == Map::<Seq<char>, V::V>::empty(),
    {
        let m = NameMap { entries: Vec::new() };
        assert(entries_view(m.entries@) =~= Seq::<(Seq<char>, V::V)>::empty());
        m
    }

    /// Whether `k` has a value.
    pub fn contains(&self, k: &String) -> (r: bool)
        ensures
            r == self@.contains_key(k@),
    {
        self.get(k).is_some()
    }

    /// The index of the last entry for `k`, if any.
    fn find(&self, k: &String) -> (r: Option<usize>)
        ensures
            match r {
                Some(i) => i < self.entries@.len() && self.entries@[i as int].0@ == k@ && forall|j: int|
                    i < j < self.entries@.len() ==> self.entries@[j].0@ != k@,
                None => forall|j: int| 0 <= j < self.entries@.len() ==> self.entries@[j].0@ != k@,
            },
    {
        let mut i = self.entries.len();
        while i > 0
            invariant
                i <= self.entries@.len(),
                forall|j: int| i <= j < self.entries@.len() ==> self.entries@[j].0@ != k@,
            decreases i,
        {
            i = i - 1;
            if self.entries[i].0 == *k {
                return Some(i);
            }
        }
        None
    }

    /// The value stored for `k`.
    pub fn get(&self, k: &String) -> (r: Option<&V>)
        ensures
            r is Some == self@.contains_key(k@),
            r matches Some(v) ==> v@ == self@[k@],
    {
        let ghost s = entries_view(self.entries@);
        match self.find(k) {
            Some(i) => {
                proof {
                    lemma_absent_suffix(s, i + 1, k@);
                    assert(s.take(i + 1).drop_last() =~= s.take(i as int));
                    assert(s.take(i + 1).last() == s[i as int]);
                }
                Some(&self.entries[i].1)
            },
            None => {
                proof {
                    lemma_absent_suffix(s, 0, k@);
                    assert(s.take(0) =~= Seq::<(Seq<char>, V::V)>::empty());
                }
                None
            },
        }
    }

    /// Stores `v` under `k`.
    pub fn set(&mut self, k: String, v: V)
        ensures
            final(self)@ == old(self)@.insert(k@, v@),
    {
        let ghost s = entries_view(self.entries@);
        match self.find(&k) {
            Some(i) => {
                let ghost kv = k@;
                let ghost vv = v@;
                self.entries.set(i, (k, v));
                proof {
                    lemma_update_last(s, i as int, kv, vv);
                    assert(entries_view(self.entries@) =~= s.update(i as int, (kv, vv)));
                }
            },
            None => {
                let ghost kv = k@;
                self.entries.push((k, v));
                proof {
                    assert(entries_view(self.entries@).drop_last() =~= s);
                }
            },
        }
    }
}

} // verus!
