//! A map from names (relationship ids, package paths) to values, kept as a
//! list of entries; a later entry under the same name shadows an earlier one.
use vstd::prelude::*;

verus! {

/// The map that a list of entries describes: each name maps to the value of
/// its last entry.
pub open spec fn map_of<W>(s: Seq<(Seq<char>, W)>) -> Map<Seq<char>, W>
    decreases s.len(),
{
    if s.len() == 0 {
        Map::empty()
    } else {
        map_of(s.drop_last()).insert(s.last().0, s.last().1)
    }
}

/// Names mapped to values.
#[derive(Debug, Clone)]
pub struct NameMap<V> {
    pub entries: Vec<(String, V)>,
}

/// The views of a list of entries.
pub open spec fn entries_view<V: View>(v: Seq<(String, V)>) -> Seq<(Seq<char>, V::V)> {
    v.map_values(|e: (String, V)| (e.0@, e.1@))
}

impl<V: View> View for NameMap<V> {
    type V = Map<Seq<char>, V::V>;

    open spec fn view(&self) -> Map<Seq<char>, V::V> {
        map_of(entries_view(self.entries@))
    }
}

impl<V: View> NameMap<V> {
    /// The empty map.
    pub fn new() -> (m: Self)
        ensures
            m@ == Map::<Seq<char>, V::V>::empty(),
    {
        let m = NameMap { entries: Vec::new() };
        assert(entries_view(m.entries@) =~= Seq::<(Seq<char>, V::V)>::empty());
        m
    }

    /// Maps `k` to `v`, replacing any earlier value of `k`.
    pub fn insert(&mut self, k: String, v: V)
        ensures
            final(self)@ == old(self)@.insert(k@, v@),
    {
        let ghost before = entries_view(self.entries@);
        self.entries.push((k, v));
        assert(entries_view(self.entries@).drop_last() =~= before);
    }

    /// The value of `k`, if it has one.
    pub fn get(&self, k: &str) -> (r: Option<&V>)
        ensures
            match self@.get(k@) {
                Some(w) => r matches Some(x) && x@ == w,
                None => r is None,
            },
    {
        let ghost ev = entries_view(self.entries@);
        let mut n = self.entries.len();
        assert(ev.take(n as int) =~= ev);
        while n > 0
            invariant
                n <= self.entries@.len(),
                ev == entries_view(self.entries@),
                self@.get(k@) == map_of(ev.take(n as int)).get(k@),
            decreases n,
        {
            let e = &self.entries[n - 1];
            assert(ev.take(n as int).last() == (e.0@, e.1@));
            assert(ev.take(n as int).drop_last() =~= ev.take(n - 1));
            if crate::strings::str_eq(e.0.as_str(), k) {
                return Some(&e.1);
            }
            n = n - 1;
        }
        assert(ev.take(0) =~= Seq::<(Seq<char>, V::V)>::empty());
        None
    }
}

} // verus!
