//! Runs by project and name, and their order.

use vstd::prelude::*;
use crate::text::{same, to_chars};

verus! {

/// A run: its project and its name.
pub type Run = (Seq<char>, Seq<char>);

/// A run: its project and its name.
#[derive(Debug)]
pub struct RunKey {
    /// The project.
    pub project: String,
    /// The name of the run.
    pub epic: String,
}

impl View for RunKey {
    type V = Run;

    open spec fn view(&self) -> Run {
        (self.project@, self.epic@)
    }
}

impl RunKey {
    /// The key of a run.
    pub fn new(project: &str, epic: &str) -> (key: Self)
        ensures
            key@ == (project@, epic@),
    {
        RunKey { project: String::from_str(project), epic: String::from_str(epic) }
    }

    /// Whether the key is that of `epic` in `project`.
    pub fn is(&self, project: &str, epic: &str) -> (r: bool)
        ensures
            r == (self@ == (project@, epic@)),
    {
        same(self.project.as_str(), project) && same(self.epic.as_str(), epic)
    }

    /// A copy.
    pub fn copy(&self) -> (key: Self)
        ensures
            key@ == self@,
    {
        RunKey { project: self.project.clone(), epic: self.epic.clone() }
    }
}

/// The views of a list of runs.
pub open spec fn run_views(keys: Seq<RunKey>) -> Seq<Run> {
    keys.map_values(|k: RunKey| k@)
}

/// `a` comes before `b` in the order of strings.
pub open spec fn text_less(a: Seq<char>, b: Seq<char>) -> bool
    decreases a.len(),
{
    if b.len() == 0 {
        false
    } else if a.len() == 0 {
        true
    } else if a[0] != b[0] {
        a[0] < b[0]
    } else {
        text_less(a.drop_first(), b.drop_first())
    }
}

/// `a` comes before `b`: by project, then by name.
pub open spec fn run_less(a: Run, b: Run) -> bool {
    text_less(a.0, b.0) || (a.0 == b.0 && text_less(a.1, b.1))
}

/// The order of strings is strict and total.
proof fn lemma_text_order(a: Seq<char>, b: Seq<char>)
    ensures
        !text_less(a, a),
        text_less(a, b) ==> !text_less(b, a),
        a != b ==> text_less(a, b) || text_less(b, a),
    decreases a.len(),
{
    if a.len() > 0 {
        lemma_text_order(a.drop_first(), a.drop_first());
    }
    if a.len() > 0 && b.len() > 0 && a[0] == b[0] {
        lemma_text_order(a.drop_first(), b.drop_first());
        if a.drop_first() == b.drop_first() {
            assert(a =~= seq![a[0]] + a.drop_first());
            assert(b =~= seq![b[0]] + b.drop_first());
        }
    }
    if a.len() == 0 && b.len() == 0 {
        assert(a =~= b);
    }
}

proof fn lemma_text_trans(a: Seq<char>, b: Seq<char>, c: Seq<char>)
    requires
        text_less(a, b),
        text_less(b, c),
    ensures
        text_less(a, c),
    decreases a.len(),
{
    if a.len() > 0 && b.len() > 0 && c.len() > 0 && a[0] == b[0] && b[0] == c[0] {
        lemma_text_trans(a.drop_first(), b.drop_first(), c.drop_first());
    }
}

/// The order of runs is strict and total.
pub proof fn lemma_run_order(a: Run, b: Run)
    ensures
        !run_less(a, a),
        run_less(a, b) ==> !run_less(b, a),
        a != b ==> run_less(a, b) || run_less(b, a),
{
    lemma_text_order(a.0, b.0);
    lemma_text_order(b.0, a.0);
    lemma_text_order(a.1, b.1);
    lemma_text_order(b.1, a.1);
}

/// The order of runs is transitive.
pub proof fn lemma_run_trans(a: Run, b: Run, c: Run)
    requires
        run_less(a, b),
        run_less(b, c),
    ensures
        run_less(a, c),
{
    if text_less(a.0, b.0) && text_less(b.0, c.0) {
        lemma_text_trans(a.0, b.0, c.0);
    }
    if a.0 == b.0 && b.0 == c.0 {
        lemma_text_order(a.0, a.0);
        lemma_text_trans(a.1, b.1, c.1);
    }
}

/// Each run comes before the next.
pub open spec fn ascending(runs: Seq<Run>) -> bool {
    forall|i: int, j: int|
        0 <= i < j < runs.len() ==> run_less(#[trigger] runs[i], #[trigger] runs[j])
}

/// `sorted` lists the runs of `runs`, each once, in order.
pub open spec fn is_sorted_set(sorted: Seq<Run>, runs: Seq<Run>) -> bool {
    &&& ascending(sorted)
    &&& forall|r: Run| #[trigger] sorted.contains(r) <==> runs.contains(r)
}

/// Two ascending lists of the same runs are the same list.
pub proof fn lemma_sorted_set_unique(a: Seq<Run>, b: Seq<Run>)
    requires
        ascending(a),
        ascending(b),
        forall|r: Run| #[trigger] a.contains(r) <==> b.contains(r),
    ensures
        a == b,
    decreases a.len(),
{
    if a.len() == 0 {
        if b.len() > 0 {
            assert(b.contains(b[0]));
            assert(a.contains(b[0]));
        }
        assert(a =~= b);
    } else {
        assert(a.contains(a.last()));
        assert(b.contains(a.last()));
        let m = a.len() - 1;
        let n = b.len() - 1;
        assert(b.contains(b.last()));
        assert(a.contains(b.last()));
        let i = choose|i: int| 0 <= i < a.len() && a[i] == b.last();
        let j = choose|j: int| 0 <= j < b.len() && b[j] == a.last();
        assert(a.last() == b.last()) by {
            if i < m && j < n {
                assert(run_less(a[i], a[m]));
                assert(run_less(b[j], b[n]));
                lemma_run_order(a.last(), b.last());
            }
        }
        let c = a.drop_last();
        let d = b.drop_last();
        assert(ascending(c)) by {
            assert forall|x: int, y: int| 0 <= x < y < c.len() implies run_less(
                #[trigger] c[x],
                #[trigger] c[y],
            ) by {
                assert(c[x] == a[x] && c[y] == a[y]);
            }
        }
        assert(ascending(d)) by {
            assert forall|x: int, y: int| 0 <= x < y < d.len() implies run_less(
                #[trigger] d[x],
                #[trigger] d[y],
            ) by {
                assert(d[x] == b[x] && d[y] == b[y]);
            }
        }
        assert forall|r: Run| #[trigger] c.contains(r) <==> d.contains(r) by {
            if c.contains(r) {
                let x = choose|x: int| 0 <= x < c.len() && c[x] == r;
                assert(a[x] == r);
                assert(a.contains(r));
                assert(b.contains(r));
                let y = choose|y: int| 0 <= y < b.len() && b[y] == r;
                assert(run_less(a[x], a[m]));
                lemma_run_order(a[m], a[m]);
                if y < n {
                    assert(d[y] == r);
                }
            }
            if d.contains(r) {
                let y = choose|y: int| 0 <= y < d.len() && d[y] == r;
                assert(b[y] == r);
                assert(b.contains(r));
                assert(a.contains(r));
                let x = choose|x: int| 0 <= x < a.len() && a[x] == r;
                assert(run_less(b[y], b[n]));
                lemma_run_order(b[n], b[n]);
                if x < m {
                    assert(c[x] == r);
                }
            }
        }
        lemma_sorted_set_unique(c, d);
        assert(a =~= c.push(a.last()));
        assert(b =~= d.push(b.last()));
    }
}

/// Whether `a` comes before `b` in the order of strings.
fn text_before(a: &str, b: &str) -> (r: bool)
    ensures
        r == text_less(a@, b@),
{
    let x = to_chars(a);
    let y = to_chars(b);
    let mut i: usize = 0;
    proof {
        assert(x@.skip(0) =~= x@);
        assert(y@.skip(0) =~= y@);
    }
    loop
        invariant
            i <= x.len(),
            i <= y.len(),
            text_less(x@.skip(i as int), y@.skip(i as int)) == text_less(a@, b@),
        decreases x.len() - i,
    {
        if i == y.len() {
            return false;
        }
        if i == x.len() {
            return true;
        }
        if x[i] != y[i] {
            return x[i] < y[i];
        }
        proof {
            assert(x@.skip(i as int).drop_first() =~= x@.skip(i + 1));
            assert(y@.skip(i as int).drop_first() =~= y@.skip(i + 1));
        }
        i = i + 1;
    }
}

/// Whether `a` comes before `b`.
fn run_before(a: &RunKey, b: &RunKey) -> (r: bool)
    ensures
        r == run_less(a@, b@),
{
    text_before(a.project.as_str(), b.project.as_str()) || (same(
        a.project.as_str(),
        b.project.as_str(),
    ) && text_before(a.epic.as_str(), b.epic.as_str()))
}

/// The runs of `keys`, each once, in order.
pub fn sort_runs(keys: &Vec<RunKey>) -> (sorted: Vec<RunKey>)
    ensures
        is_sorted_set(run_views(sorted@), run_views(keys@)),
{
    let mut sorted: Vec<RunKey> = Vec::new();
    let mut k: usize = 0;
    let ghost all = run_views(keys@);
    while k < keys.len()
        invariant
            k <= keys.len(),
            all == run_views(keys@),
            is_sorted_set(run_views(sorted@), all.take(k as int)),
        decreases keys.len() - k,
    {
        let ghost before = run_views(sorted@);
        let key = &keys[k];
        let mut i: usize = 0;
        while i < sorted.len() && run_before(&sorted[i], key)
            invariant
                i <= sorted.len(),
                before == run_views(sorted@),
                forall|j: int| 0 <= j < i ==> run_less(#[trigger] before[j], key@),
            ensures
                i < sorted.len() ==> !run_less(before[i as int], key@),
            decreases sorted.len() - i,
        {
            i = i + 1;
        }
        let known: bool = i < sorted.len() && sorted[i].is(
            key.project.as_str(),
            key.epic.as_str(),
        );
        proof {
            let upto = all.take(k + 1);
            assert(upto =~= all.take(k as int).push(key@));
            lemma_insert_sorted(before, all.take(k as int), key@, i as int);
        }
        if !known {
            let copy = key.copy();
            sorted.insert(i, copy);
            proof {
                assert(run_views(sorted@) =~= before.insert(i as int, key@));
            }
        }
        k = k + 1;
    }
    proof {
        assert(all.take(k as int) =~= all);
    }
    sorted
}

/// A run takes its place in an ascending list, or has it already.
proof fn lemma_insert_sorted(sorted: Seq<Run>, runs: Seq<Run>, key: Run, i: int)
    requires
        is_sorted_set(sorted, runs),
        0 <= i <= sorted.len(),
        forall|j: int| 0 <= j < i ==> run_less(#[trigger] sorted[j], key),
        i < sorted.len() ==> !run_less(sorted[i], key),
    ensures
        i < sorted.len() && sorted[i] == key ==> is_sorted_set(sorted, runs.push(key)),
        !(i < sorted.len() && sorted[i] == key) ==> is_sorted_set(
            sorted.insert(i, key),
            runs.push(key),
        ),
{
    let wider = runs.push(key);
    assert forall|r: Run| wider.contains(r) <==> runs.contains(r) || r == key by {
        if runs.contains(r) {
            let x = choose|x: int| 0 <= x < runs.len() && runs[x] == r;
            assert(wider[x] == r);
        }
        if r == key {
            assert(wider[runs.len() as int] == key);
        }
        if wider.contains(r) {
            let x = choose|x: int| 0 <= x < wider.len() && wider[x] == r;
            if x < runs.len() {
                assert(runs[x] == r);
            }
        }
    }
    if i < sorted.len() && sorted[i] == key {
        assert(sorted.contains(key));
    } else {
        let more = sorted.insert(i, key);
        if i < sorted.len() {
            lemma_run_order(sorted[i], key);
        }
        assert forall|x: int, y: int| 0 <= x < y < more.len() implies run_less(
            #[trigger] more[x],
            #[trigger] more[y],
        ) by {
            if x < i && y == i {
                assert(more[x] == sorted[x]);
            } else if y < i {
                assert(more[x] == sorted[x] && more[y] == sorted[y]);
            } else if x < i {
                assert(more[x] == sorted[x] && more[y] == sorted[y - 1]);
            } else if x == i {
                assert(more[y] == sorted[y - 1]);
                if y - 1 > i {
                    assert(run_less(sorted[i], sorted[y - 1]));
                    lemma_run_trans(key, sorted[i], sorted[y - 1]);
                }
            } else {
                assert(more[x] == sorted[x - 1] && more[y] == sorted[y - 1]);
            }
        }
        assert forall|r: Run| #[trigger] more.contains(r) <==> wider.contains(r) by {
            if more.contains(r) {
                let x = choose|x: int| 0 <= x < more.len() && more[x] == r;
                if x < i {
                    assert(sorted[x] == r);
                    assert(sorted.contains(r));
                } else if x > i {
                    assert(sorted[x - 1] == r);
                    assert(sorted.contains(r));
                }
            }
            if wider.contains(r) {
                if r == key {
                    assert(more[i] == key);
                } else {
                    assert(sorted.contains(r));
                    let x = choose|x: int| 0 <= x < sorted.len() && sorted[x] == r;
                    if x < i {
                        assert(more[x] == r);
                    } else {
                        assert(more[x + 1] == r);
                    }
                }
            }
        }
    }
}

/// `first` holds one run for each project of `runs`, in the order of the projects: the
/// first of the project's runs.
pub open spec fn are_first_of_projects(first: Seq<Run>, runs: Seq<Run>) -> bool {
    &&& forall|i: int, j: int|
        0 <= i < j < first.len() ==> text_less((#[trigger] first[i]).0, (#[trigger] first[j]).0)
    &&& forall|i: int| 0 <= i < first.len() ==> #[trigger] runs.contains(first[i])
    &&& forall|i: int, k: int|
        0 <= i < first.len() && 0 <= k < runs.len() && (#[trigger] first[i]).0 == (
        #[trigger] runs[k]).0 ==> first[i] == runs[k] || run_less(first[i], runs[k])
    &&& forall|k: int| 0 <= k < runs.len() ==> has_project(first, (#[trigger] runs[k]).0)
}

/// One of the runs is in the project.
pub open spec fn has_project(runs: Seq<Run>, project: Seq<char>) -> bool {
    exists|i: int| 0 <= i < runs.len() && (#[trigger] runs[i]).0 == project
}

/// One run for each project of `keys`, in the order of the projects: the first of the
/// project's runs.
pub fn first_of_projects(keys: &Vec<RunKey>) -> (first: Vec<RunKey>)
    ensures
        are_first_of_projects(run_views(first@), run_views(keys@)),
{
    let sorted = sort_runs(keys);
    let ghost all = run_views(sorted@);
    let mut first: Vec<RunKey> = Vec::new();
    let ghost mut at: Seq<int> = Seq::empty();
    let mut k: usize = 0;
    while k < sorted.len()
        invariant
            k <= sorted.len(),
            all == run_views(sorted@),
            ascending(all),
            at.len() == first.len(),
            forall|i: int|
                0 <= i < first.len() ==> 0 <= #[trigger] at[i] < k && first@[i]@ == all[at[i]],
            forall|i: int, q: int|
                0 <= i < first.len() && 0 <= q < at[i] ==> (#[trigger] all[q]).0 != (
                #[trigger] first@[i])@.0,
            forall|i: int, j: int|
                0 <= i < j < first.len() ==> text_less(
                    (#[trigger] first@[i])@.0,
                    (#[trigger] first@[j])@.0,
                ),
            forall|q: int| 0 <= q < k ==> has_project(run_views(first@), (#[trigger] all[q]).0),
            k > 0 ==> first.len() > 0 && first@[first.len() - 1]@.0 == all[k - 1].0,
        decreases sorted.len() - k,
    {
        let ghost before = first@;
        let fresh: bool = first.len() == 0 || !same(
            first[first.len() - 1].project.as_str(),
            sorted[k].project.as_str(),
        );
        if fresh {
            proof {
                assert(all[k as int] == sorted@[k as int]@);
                if k > 0 {
                    assert(run_less(all[k - 1], all[k as int]));
                }
                assert forall|q: int| 0 <= q < k implies (#[trigger] all[q]).0
                    != all[k as int].0 by {
                    if q < k - 1 {
                        assert(run_less(all[q], all[k - 1]));
                        lemma_text_order(all[k - 1].0, all[k as int].0);
                    }
                }
                assert forall|i: int| 0 <= i < first.len() implies text_less(
                    (#[trigger] first@[i])@.0,
                    all[k as int].0,
                ) by {
                    assert(0 <= at[i] < k);
                    assert(run_less(all[at[i]], all[k as int]));
                }
            }
            let copy = sorted[k].copy();
            first.push(copy);
            proof {
                at = at.push(k as int);
                assert(first@[before.len() as int]@ == all[k as int]);
            }
        }
        proof {
            let f = run_views(first@);
            assert forall|q: int| 0 <= q < k + 1 implies has_project(f, (#[trigger] all[q]).0) by {
                if q < k {
                    let b = run_views(before);
                    let i = choose|i: int| 0 <= i < b.len() && (#[trigger] b[i]).0 == all[q].0;
                    assert(f[i] == b[i]);
                } else {
                    assert(f[first.len() - 1].0 == all[k as int].0);
                }
            }
        }
        k = k + 1;
    }
    proof {
        let runs = run_views(keys@);
        let f = run_views(first@);
        assert forall|i: int, j: int| 0 <= i < j < f.len() implies text_less(
            (#[trigger] f[i]).0,
            (#[trigger] f[j]).0,
        ) by {
            assert(first@[i]@ == f[i] && first@[j]@ == f[j]);
        }
        assert forall|i: int| 0 <= i < f.len() implies #[trigger] runs.contains(f[i]) by {
            assert(all[at[i]] == f[i]);
            assert(all.contains(f[i]));
        }
        assert forall|i: int, q: int|
            0 <= i < f.len() && 0 <= q < runs.len() && (#[trigger] f[i]).0 == (#[trigger] runs[q]).0
            implies f[i] == runs[q] || run_less(f[i], runs[q]) by {
            assert(runs.contains(runs[q]));
            assert(all.contains(runs[q]));
            let x = choose|x: int| 0 <= x < all.len() && all[x] == runs[q];
            assert(first@[i]@ == f[i]);
            assert(all[at[i]] == f[i]);
            if x > at[i] {
                assert(run_less(all[at[i]], all[x]));
            }
        }
        assert forall|q: int| 0 <= q < runs.len() implies has_project(
            f,
            (#[trigger] runs[q]).0,
        ) by {
            assert(runs.contains(runs[q]));
            assert(all.contains(runs[q]));
            let x = choose|x: int| 0 <= x < all.len() && all[x] == runs[q];
            assert(has_project(f, all[x].0));
        }
    }
    first
}

} // verus!
