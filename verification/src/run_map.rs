//! A table from runs to values that keeps the order of arrival.

use vstd::prelude::*;
use crate::runs::{Run, RunKey};
use crate::table::{
    distinct_keys, lemma_lookup, lemma_put, lemma_remove_is_without, lemma_without,
    lemma_without_absent, lookup, put, without,
};

verus! {

/// A table from runs to values. Its view lists the entries with the views of their
/// values; no run stands twice.
#[derive(Debug)]
pub struct RunMap<V> {
    entries: Vec<(RunKey, V)>,
}

impl<V: View> View for RunMap<V> {
    type V = Seq<(Run, V::V)>;

    closed spec fn view(&self) -> Seq<(Run, V::V)> {
        self.entries@.map_values(|e: (RunKey, V)| (e.0@, e.1@))
    }
}

impl<V: View> RunMap<V> {
    /// No run stands twice.
    pub open spec fn wf(&self) -> bool {
        distinct_keys(self@)
    }

    /// The empty table.
    pub fn new() -> (m: Self)
        ensures
            m@ == Seq::<(Run, V::V)>::empty(),
            m.wf(),
    {
        let m = RunMap { entries: Vec::new() };
        proof {
            assert(m@ =~= Seq::<(Run, V::V)>::empty());
        }
        m
    }

    /// How many entries there are.
    pub fn len(&self) -> (n: usize)
        ensures
            n == self@.len(),
    {
        self.entries.len()
    }

    /// The run of the entry at `i`.
    pub fn key_at(&self, i: usize) -> (key: &RunKey)
        requires
            i < self@.len(),
        ensures
            key@ == self@[i as int].0,
    {
        &self.entries[i].0
    }

    /// The value of the entry at `i`.
    pub fn value_at(&self, i: usize) -> (v: &V)
        requires
            i < self@.len(),
        ensures
            v@ == self@[i as int].1,
    {
        &self.entries[i].1
    }

    /// The index of the entry for a run.
    fn position(&self, project: &str, epic: &str) -> (r: Option<usize>)
        ensures
            match r {
                Some(i) => i < self@.len() && self@[i as int].0 == (project@, epic@) && lookup(
                    self@,
                    (project@, epic@),
                ) == Some(self@[i as int].1) && forall|j: int|
                    0 <= j < i ==> (#[trigger] self@[j]).0 != (project@, epic@),
                None => lookup(self@, (project@, epic@)) is None,
            },
    {
        let ghost key: Run = (project@, epic@);
        let mut i: usize = 0;
        proof {
            assert(self@.skip(0) =~= self@);
        }
        while i < self.entries.len()
            invariant
                i <= self.entries.len(),
                self@.len() == self.entries.len(),
                key == (project@, epic@),
                lookup(self@.skip(i as int), key) == lookup(self@, key),
                forall|j: int| 0 <= j < i ==> (#[trigger] self@[j]).0 != key,
            decreases self.entries.len() - i,
        {
            proof {
                assert(self@.skip(i as int).drop_first() =~= self@.skip(i + 1));
                assert(self@[i as int].0 == self.entries@[i as int].0@);
            }
            if self.entries[i].0.is(project, epic) {
                return Some(i);
            }
            i = i + 1;
        }
        None
    }

    /// Whether there is an entry for a run.
    pub fn contains(&self, project: &str, epic: &str) -> (r: bool)
        ensures
            r == lookup(self@, (project@, epic@)) is Some,
    {
        match self.position(project, epic) {
            Some(_) => true,
            None => false,
        }
    }

    /// The value for a run.
    pub fn get(&self, project: &str, epic: &str) -> (r: Option<&V>)
        ensures
            match r {
                Some(v) => lookup(self@, (project@, epic@)) == Some(v@),
                None => lookup(self@, (project@, epic@)) is None,
            },
    {
        match self.position(project, epic) {
            Some(i) => Some(&self.entries[i].1),
            None => None,
        }
    }

    /// Sets the value for a run: in its old place, or at the end.
    pub fn insert(&mut self, key: RunKey, v: V)
        requires
            old(self).wf(),
        ensures
            final(self)@ == put(old(self)@, key@, v@),
            final(self).wf(),
    {
        let ghost k = key@;
        proof {
            lemma_put(self@, k, v@);
        }
        match self.position(key.project.as_str(), key.epic.as_str()) {
            Some(i) => {
                proof {
                    let s = self@;
                    assert(put(s, k, v@) =~= s.update(i as int, (k, v@))) by {
                        assert forall|j: int| 0 <= j < s.len() implies put(s, k, v@)[j]
                            == #[trigger] s.update(i as int, (k, v@))[j] by {
                            if j < i {
                                assert(s[j].0 != k);
                            } else if j > i {
                                assert(s[i as int].0 != s[j].0);
                            }
                        }
                    }
                }
                self.entries.set(i, (key, v));
                proof {
                    assert(self@ =~= put(old(self)@, k, v@));
                }
            },
            None => {
                self.entries.push((key, v));
                proof {
                    assert(self@ =~= put(old(self)@, k, v@));
                }
            },
        }
    }

    /// Takes the entry for a run out.
    pub fn remove(&mut self, project: &str, epic: &str) -> (r: Option<V>)
        requires
            old(self).wf(),
        ensures
            final(self)@ == without(old(self)@, (project@, epic@)),
            match r {
                Some(v) => lookup(old(self)@, (project@, epic@)) == Some(v@),
                None => lookup(old(self)@, (project@, epic@)) is None,
            },
            final(self).wf(),
    {
        let ghost k: Run = (project@, epic@);
        proof {
            lemma_without(self@, k);
        }
        match self.position(project, epic) {
            Some(i) => {
                let ghost s = self@;
                let e = self.entries.remove(i);
                proof {
                    assert(self@ =~= s.remove(i as int));
                    lemma_remove_is_without(s, k, i as int);
                }
                Some(e.1)
            },
            None => {
                proof {
                    lemma_lookup(self@, k);
                    lemma_without_absent(self@, k);
                }
                None
            },
        }
    }
}

} // verus!
