//! A table from session ids to values that keeps the order of arrival.

use std::collections::hash_map::Entry;
use std::collections::HashMap;
use vstd::prelude::*;
use crate::table::{
    distinct_keys, lemma_lookup, lemma_lookup_at, lemma_put, lemma_remove_is_without, lemma_without,
    lemma_without_absent, lookup, put, without,
};

verus! {

/// A table from session ids to values: a hash map, and the ids in the order of their
/// arrival. Its view lists the entries in that order, with the views of their values.
#[derive(Debug)]
pub struct SessionMap<V> {
    values: HashMap<u32, V>,
    order: Vec<u32>,
}

/// The entry of an id.
spec fn entry_of<V: View>(values: Map<u32, V>) -> spec_fn(u32) -> (u32, V::V) {
    |id: u32| (id, values[id]@)
}

impl<V: View> View for SessionMap<V> {
    type V = Seq<(u32, V::V)>;

    closed spec fn view(&self) -> Seq<(u32, V::V)> {
        self.order@.map_values(entry_of(self.values@))
    }
}

impl<V: View> SessionMap<V> {
    /// The ids that are listed are those of the map.
    pub closed spec fn backed(&self) -> bool {
        &&& forall|i: int|
            0 <= i < self.order@.len() ==> self.values@.contains_key(#[trigger] self.order@[i])
        &&& forall|id: u32| #[trigger] self.values@.contains_key(id) ==> self.order@.contains(id)
    }

    /// No id stands twice, and the ids that are listed are those of the map.
    pub open spec fn wf(&self) -> bool {
        distinct_keys(self@) && self.backed()
    }

    /// The empty table.
    pub fn new() -> (m: Self)
        ensures
            m@ == Seq::<(u32, V::V)>::empty(),
            m.wf(),
    {
        broadcast use vstd::std_specs::hash::group_hash_axioms;

        let m = SessionMap { values: HashMap::new(), order: Vec::new() };
        proof {
            assert(m@ =~= Seq::<(u32, V::V)>::empty());
        }
        m
    }

    /// How many entries there are.
    pub fn len(&self) -> (n: usize)
        ensures
            n == self@.len(),
    {
        self.order.len()
    }

    /// The value of the entry at `i`.
    pub fn value_at(&self, i: usize) -> (v: &V)
        requires
            self.wf(),
            i < self@.len(),
        ensures
            v@ == self@[i as int].1,
    {
        broadcast use vstd::std_specs::hash::group_hash_axioms;

        let id: u32 = self.order[i];
        self.values.get(&id).unwrap()
    }

    /// What the map holds for an id is what is listed for it.
    proof fn lemma_get(&self, id: u32)
        requires
            self.wf(),
        ensures
            self.values@.contains_key(id) ==> lookup(self@, id) == Some(self.values@[id]@),
            !self.values@.contains_key(id) ==> lookup(self@, id) is None,
    {
        if self.values@.contains_key(id) {
            let i = choose|i: int| 0 <= i < self.order@.len() && self.order@[i] == id;
            assert(self@[i] == (id, self.values@[id]@));
            lemma_lookup_at(self@, i);
        } else {
            lemma_lookup(self@, id);
            if lookup(self@, id) is Some {
                let i = choose|i: int|
                    0 <= i < self@.len() && (#[trigger] self@[i]).0 == id && lookup(self@, id)
                        == Some(self@[i].1);
                assert(self.order@[i] == id);
            }
        }
    }

    /// The value for `id`.
    pub fn get(&self, id: u32) -> (r: Option<&V>)
        requires
            self.wf(),
        ensures
            match r {
                Some(v) => lookup(self@, id) == Some(v@),
                None => lookup(self@, id) is None,
            },
    {
        broadcast use vstd::std_specs::hash::group_hash_axioms;

        proof {
            self.lemma_get(id);
        }
        self.values.get(&id)
    }

    /// A value that is set in the map is set in its place.
    proof fn lemma_set(order: Seq<u32>, values: Map<u32, V>, id: u32, v: V)
        requires
            distinct_keys(order.map_values(entry_of(values))),
            order.contains(id),
        ensures
            order.map_values(entry_of(values.insert(id, v))) == put(
                order.map_values(entry_of(values)),
                id,
                v@,
            ),
            distinct_keys(put(order.map_values(entry_of(values)), id, v@)),
    {
        let s = order.map_values(entry_of(values));
        let t = order.map_values(entry_of(values.insert(id, v)));
        lemma_put(s, id, v@);
        let i = choose|i: int| 0 <= i < order.len() && order[i] == id;
        assert(s[i].0 == id);
        lemma_lookup_at(s, i);
        assert(t =~= put(s, id, v@));
    }

    /// Sets the value for `id`: in its old place, or at the end.
    pub fn insert(&mut self, id: u32, v: V)
        requires
            old(self).wf(),
        ensures
            final(self)@ == put(old(self)@, id, v@),
            final(self).wf(),
    {
        broadcast use vstd::std_specs::hash::group_hash_axioms;

        proof {
            self.lemma_get(id);
            lemma_put(self@, id, v@);
        }
        let ghost order = self.order@;
        let ghost values = self.values@;
        if self.values.contains_key(&id) {
            self.values.insert(id, v);
            proof {
                Self::lemma_set(order, values, id, v);
                assert(self@ == put(old(self)@, id, v@));
            }
        } else {
            self.values.insert(id, v);
            self.order.push(id);
            proof {
                assert forall|i: int| 0 <= i < order.len() implies #[trigger] order[i] != id by {}
                assert(self@ =~= put(old(self)@, id, v@));
                assert forall|k: u32| #[trigger] self.values@.contains_key(k) implies
                    self.order@.contains(k) by {
                    if k == id {
                        assert(self.order@[order.len() as int] == id);
                    } else {
                        let i = choose|i: int| 0 <= i < order.len() && order[i] == k;
                        assert(self.order@[i] == k);
                    }
                }
            }
        }
    }

    /// The value for `id`, to be changed in place.
    pub fn get_mut(&mut self, id: u32) -> (r: Option<&mut V>)
        requires
            old(self).wf(),
        ensures
            match r {
                Some(v) => lookup(old(self)@, id) == Some((*v)@) && final(self)@ == put(
                    old(self)@,
                    id,
                    (*final(v))@,
                ),
                None => lookup(old(self)@, id) is None && final(self)@ == old(self)@,
            },
            final(self).wf(),
    {
        broadcast use vstd::std_specs::hash::group_hash_axioms;

        proof {
            self.lemma_get(id);
            if self.values@.contains_key(id) {
                assert forall|v: V| #[trigger]
                    self.order@.map_values(entry_of(self.values@.insert(id, v))) == put(
                        self@,
                        id,
                        v@,
                    ) && distinct_keys(put(self@, id, v@)) by {
                    Self::lemma_set(self.order@, self.values@, id, v);
                }
            }
        }
        if !self.values.contains_key(&id) {
            return None;
        }
        match self.values.entry(id) {
            Entry::Occupied(entry) => Some(entry.into_mut()),
            Entry::Vacant(_) => None,
        }
    }

    /// The index of an id that is listed.
    fn position(&self, id: u32) -> (i: usize)
        requires
            self.order@.contains(id),
        ensures
            i < self.order@.len(),
            self.order@[i as int] == id,
    {
        let mut i: usize = 0;
        while self.order[i] != id
            invariant
                i < self.order.len(),
                self.order@.contains(id),
                forall|j: int| 0 <= j < i ==> #[trigger] self.order@[j] != id,
            decreases self.order.len() - i,
        {
            proof {
                let k = choose|k: int| 0 <= k < self.order@.len() && self.order@[k] == id;
                assert(self.order@[k] == id);
                assert(k > i);
            }
            i = i + 1;
        }
        i
    }

    /// Takes the entry for `id` out.
    pub fn remove(&mut self, id: u32) -> (r: Option<V>)
        requires
            old(self).wf(),
        ensures
            final(self)@ == without(old(self)@, id),
            match r {
                Some(v) => lookup(old(self)@, id) == Some(v@),
                None => lookup(old(self)@, id) is None,
            },
            final(self).wf(),
    {
        broadcast use vstd::std_specs::hash::group_hash_axioms;

        proof {
            self.lemma_get(id);
            lemma_without(self@, id);
        }
        if !self.values.contains_key(&id) {
            proof {
                lemma_lookup(self@, id);
                lemma_without_absent(self@, id);
            }
            return None;
        }
        let ghost s = self@;
        let ghost order = self.order@;
        let ghost values = self.values@;
        let i: usize = self.position(id);
        self.order.remove(i);
        let v = self.values.remove(&id);
        proof {
            assert(s[i as int].0 == id);
            lemma_remove_is_without(s, id, i as int);
            self.lemma_removed(order, values, id, i as int, s);
        }
        v
    }

    /// An id that is taken out of both is gone.
    proof fn lemma_removed(
        &self,
        order: Seq<u32>,
        values: Map<u32, V>,
        id: u32,
        i: int,
        s: Seq<(u32, V::V)>,
    )
        requires
            s == order.map_values(entry_of(values)),
            distinct_keys(s),
            0 <= i < order.len(),
            order[i] == id,
            forall|j: int| 0 <= j < order.len() ==> values.contains_key(#[trigger] order[j]),
            forall|k: u32| #[trigger] values.contains_key(k) ==> order.contains(k),
            self.order@ == order.remove(i),
            self.values@ == values.remove(id),
        ensures
            self@ == s.remove(i),
            self.backed(),
    {
        let left = self.order@;
        assert forall|j: int| 0 <= j < left.len() implies #[trigger] left[j] != id by {
            let k = if j < i {
                j
            } else {
                j + 1
            };
            assert(left[j] == order[k]);
            assert(s[k].0 == order[k] && s[i].0 == id);
            if k < i {
                assert(s[k].0 != s[i].0);
            } else {
                assert(s[i].0 != s[k].0);
            }
        }
        assert forall|j: int| 0 <= j < left.len() implies self.values@.contains_key(
            #[trigger] left[j],
        ) by {
            let k = if j < i {
                j
            } else {
                j + 1
            };
            assert(left[j] == order[k]);
        }
        assert forall|k: u32| #[trigger] self.values@.contains_key(k) implies left.contains(k) by {
            assert(values.contains_key(k));
            let x = choose|x: int| 0 <= x < order.len() && order[x] == k;
            if x < i {
                assert(left[x] == k);
            } else {
                assert(left[x - 1] == k);
            }
        }
        assert(self@ =~= s.remove(i));
    }

    /// Takes the first entry out.
    pub fn pop_first(&mut self) -> (r: Option<(u32, V)>)
        requires
            old(self).wf(),
        ensures
            match r {
                Some((id, v)) => old(self)@.len() > 0 && old(self)@[0] == (id, v@) && final(self)@
                    == old(self)@.drop_first(),
                None => old(self)@.len() == 0 && final(self)@ == old(self)@,
            },
            final(self).wf(),
    {
        broadcast use vstd::std_specs::hash::group_hash_axioms;

        if self.order.len() == 0 {
            return None;
        }
        let ghost s = self@;
        let ghost order = self.order@;
        let ghost values = self.values@;
        let id: u32 = self.order.remove(0);
        let v = self.values.remove(&id);
        proof {
            assert(values.contains_key(order[0]));
            self.lemma_removed(order, values, id, 0, s);
            assert(s.remove(0) =~= s.drop_first());
            assert forall|i: int, j: int| 0 <= i < j < self@.len() implies (#[trigger] self@[i]).0
                != (#[trigger] self@[j]).0 by {
                assert(self@[i] == s[i + 1] && self@[j] == s[j + 1]);
            }
        }
        Some((id, v.unwrap()))
    }
}

} // verus!
