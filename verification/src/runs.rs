//! Cancellation of in-flight model runs: a shared cancel flag per run, and a
//! registry of runs keyed by a stable string ("chat:42", "tutor:7", …) so a
//! Stop button can reach the run by key. Registering a key again cancels the
//! run that held it (the newest request wins). Each registered run has its own
//! id; the registry records which runs it cancelled, so a run can ask it
//! whether it was stopped, and a run that finishes after it was replaced does
//! not take its successor's entry with it.

use std::sync::Arc;
use std::sync::atomic::{AtomicBool, Ordering};
use vstd::prelude::*;
use crate::text::{chars_of, string_of};

verus! {

/// A cancel flag shared by every clone of the token, and the id of the run
/// it belongs to (0 for a token made outside the registry).
#[derive(Clone)]
pub struct CancelToken {
    flag: Arc<AtomicBool>,
    id: u64,
}

impl CancelToken {
    /// The id of the run the token belongs to.
    pub closed spec fn run_id(&self) -> u64 {
        self.id
    }

    /// A fresh token that belongs to no registered run (its id is 0). Its flag
    /// starts unset; the flag is a std atomic, whose value is not modelled, so
    /// that is not stated.
    pub fn new() -> (t: CancelToken)
        ensures
            t.run_id() == 0,
    {
        CancelToken { flag: Arc::new(AtomicBool::new(false)), id: 0 }
    }

    fn for_run(id: u64) -> (t: CancelToken)
        ensures
            t.run_id() == id,
    {
        CancelToken { flag: Arc::new(AtomicBool::new(false)), id }
    }

    /// The id of the run the token belongs to.
    pub fn id(&self) -> (r: u64)
        ensures
            r == self.run_id(),
    {
        self.id
    }

    /// Ask the run holding this token (or any clone of it) to stop.
    pub fn cancel(&self) {
        self.flag.store(true, Ordering::SeqCst);
    }

    /// Whether `cancel` was called on this token or a clone of it. The flag is
    /// shared with other threads, so nothing is promised about the value read;
    /// `Registry::is_cancelled` answers for a registered run.
    pub fn is_cancelled(&self) -> bool {
        self.flag.load(Ordering::SeqCst)
    }
}

/// What a registry holds: the live runs (key and run id, oldest first), the
/// ids of the runs it cancelled, and the id the next run gets.
#[verifier::ext_equal]
pub struct RegistryView {
    pub runs: Seq<(Seq<char>, u64)>,
    pub cancelled: Set<u64>,
    pub next: u64,
}

pub open spec fn keys_unique(runs: Seq<(Seq<char>, u64)>) -> bool {
    forall|i: int, j: int| 0 <= i < j < runs.len() ==> #[trigger] runs[i].0 != #[trigger] runs[j].0
}

pub open spec fn has_key(runs: Seq<(Seq<char>, u64)>, key: Seq<char>) -> bool {
    exists|i: int| 0 <= i < runs.len() && #[trigger] runs[i].0 == key
}

/// Where `key` is registered (meaningful when it is).
pub open spec fn key_index(runs: Seq<(Seq<char>, u64)>, key: Seq<char>) -> int {
    choose|i: int| 0 <= i < runs.len() && #[trigger] runs[i].0 == key
}

/// The run registered under `key`.
pub open spec fn run_of(runs: Seq<(Seq<char>, u64)>, key: Seq<char>) -> Option<u64> {
    if has_key(runs, key) {
        Some(runs[key_index(runs, key)].1)
    } else {
        None
    }
}

/// The runs without the one under `key`.
pub open spec fn without(runs: Seq<(Seq<char>, u64)>, key: Seq<char>) -> Seq<(Seq<char>, u64)> {
    if has_key(runs, key) {
        runs.remove(key_index(runs, key))
    } else {
        runs
    }
}

/// Keys unique, and every recorded id already handed out.
pub open spec fn registry_wf(v: RegistryView) -> bool {
    &&& keys_unique(v.runs)
    &&& forall|i: int| 0 <= i < v.runs.len() ==> #[trigger] v.runs[i].1 < v.next
    &&& forall|id: u64| #[trigger] v.cancelled.contains(id) ==> id < v.next
}

/// After `register(key)`: the run under `key` (if any) is cancelled and
/// replaced by a new run with the next id, registered last.
pub open spec fn registered(v: RegistryView, key: Seq<char>) -> RegistryView {
    RegistryView {
        runs: without(v.runs, key).push((key, v.next)),
        cancelled: match run_of(v.runs, key) {
            Some(id) => v.cancelled.insert(id),
            None => v.cancelled,
        },
        next: (v.next + 1) as u64,
    }
}

/// After run `id` finishes under `key`: its entry goes only if it still holds
/// the key, and the record of its cancellation is dropped.
pub open spec fn finished(v: RegistryView, key: Seq<char>, id: u64) -> RegistryView {
    RegistryView {
        runs: if run_of(v.runs, key) == Some(id) {
            without(v.runs, key)
        } else {
            v.runs
        },
        cancelled: v.cancelled.remove(id),
        next: v.next,
    }
}

/// After `stop(key)`: the run under `key` (if any) is cancelled and stays
/// registered.
pub open spec fn stopped(v: RegistryView, key: Seq<char>) -> RegistryView {
    RegistryView {
        runs: v.runs,
        cancelled: match run_of(v.runs, key) {
            Some(id) => v.cancelled.insert(id),
            None => v.cancelled,
        },
        next: v.next,
    }
}

/// The in-flight runs, by key. Keys are unique.
pub struct Registry {
    entries: Vec<(String, u64, CancelToken)>,
    cancelled: Vec<u64>,
    next: u64,
}

impl View for Registry {
    type V = RegistryView;

    closed spec fn view(&self) -> RegistryView {
        RegistryView {
            runs: Seq::new(self.entries@.len(), |k: int| (self.entries@[k].0@, self.entries@[k].1)),
            cancelled: self.cancelled@.to_set(),
            next: self.next,
        }
    }
}

fn str_eq(a: &String, b: &str) -> (r: bool)
    ensures
        r == (a@ == b@),
{
    let x = chars_of(a.as_str());
    let y = chars_of(b);
    if x.len() != y.len() {
        return false;
    }
    let mut i: usize = 0;
    while i < x.len()
        invariant
            x@ == a@,
            y@ == b@,
            x.len() == y.len(),
            i <= x.len(),
            forall|k: int| 0 <= k < i ==> x@[k] == y@[k],
        decreases x.len() - i,
    {
        if x[i] != y[i] {
            return false;
        }
        i = i + 1;
    }
    assert(x@ =~= y@);
    true
}

proof fn lemma_index_of_key(runs: Seq<(Seq<char>, u64)>, key: Seq<char>, i: int)
    requires
        keys_unique(runs),
        0 <= i < runs.len(),
        runs[i].0 == key,
    ensures
        has_key(runs, key),
        key_index(runs, key) == i,
        run_of(runs, key) == Some(runs[i].1),
        without(runs, key) == runs.remove(i),
{
    assert(has_key(runs, key));
    let j = key_index(runs, key);
    assert(runs[j].0 == key);
    if j != i {
        if j < i {
            assert(runs[j].0 != runs[i].0);
        } else {
            assert(runs[i].0 != runs[j].0);
        }
    }
}

proof fn lemma_remove_keeps_wf(v: RegistryView, i: int)
    requires
        registry_wf(v),
        0 <= i < v.runs.len(),
    ensures
        keys_unique(v.runs.remove(i)),
        forall|k: int| 0 <= k < v.runs.remove(i).len() ==> #[trigger] v.runs.remove(i)[k].1 < v.next,
{
    let r = v.runs.remove(i);
    assert forall|a: int, b: int| 0 <= a < b < r.len() implies #[trigger] r[a].0 != #[trigger] r[b].0 by {
        let a0 = if a < i { a } else { a + 1 };
        let b0 = if b < i { b } else { b + 1 };
        assert(r[a] == v.runs[a0]);
        assert(r[b] == v.runs[b0]);
    }
    assert forall|k: int| 0 <= k < r.len() implies #[trigger] r[k].1 < v.next by {
        let k0 = if k < i { k } else { k + 1 };
        assert(r[k] == v.runs[k0]);
    }
}

impl Registry {
    pub open spec fn wf(&self) -> bool {
        registry_wf(self@)
    }

    /// An empty registry; run ids start at 1.
    pub fn new() -> (r: Registry)
        ensures
            r@.runs == Seq::<(Seq<char>, u64)>::empty(),
            r@.cancelled == Set::<u64>::empty(),
            r@.next == 1,
            r.wf(),
    {
        let r = Registry { entries: Vec::new(), cancelled: Vec::new(), next: 1 };
        assert(r@.runs =~= Seq::<(Seq<char>, u64)>::empty());
        assert(r@.cancelled =~= Set::<u64>::empty());
        r
    }

    fn position(&self, key: &str) -> (r: Option<usize>)
        requires
            self.wf(),
        ensures
            match r {
                Some(i) => i < self@.runs.len() && self@.runs[i as int].0 == key@ && run_of(self@.runs, key@)
                    == Some(self@.runs[i as int].1) && without(self@.runs, key@) == self@.runs.remove(i as int),
                None => !has_key(self@.runs, key@) && run_of(self@.runs, key@) is None && without(
                    self@.runs,
                    key@,
                ) == self@.runs,
            },
    {
        let mut i: usize = 0;
        while i < self.entries.len()
            invariant
                self.wf(),
                i <= self.entries@.len(),
                forall|k: int| 0 <= k < i ==> #[trigger] self@.runs[k].0 != key@,
            decreases self.entries@.len() - i,
        {
            if str_eq(&self.entries[i].0, key) {
                proof {
                    lemma_index_of_key(self@.runs, key@, i as int);
                }
                return Some(i);
            }
            i = i + 1;
        }
        None
    }

    /// Record run `id` as cancelled.
    fn mark_cancelled(&mut self, id: u64)
        ensures
            final(self)@.runs == old(self)@.runs,
            final(self)@.next == old(self)@.next,
            final(self)@.cancelled == old(self)@.cancelled.insert(id),
    {
        let ghost before = self@;
        let ghost c0 = self.cancelled@;
        self.cancelled.push(id);
        proof {
            c0.lemma_push_to_set_commute(id);
        }
        assert(self@.runs =~= before.runs);
        assert(self@.cancelled =~= before.cancelled.insert(id));
    }

    /// Register a run under `key`, returning its token (with a new run id).
    /// A run already under the same key is cancelled and replaced.
    pub fn register(&mut self, key: &str) -> (t: CancelToken)
        requires
            old(self).wf(),
            old(self)@.next < u64::MAX,
        ensures
            final(self).wf(),
            final(self)@ == registered(old(self)@, key@),
            t.run_id() == old(self)@.next,
    {
        let id = self.next;
        let token = CancelToken::for_run(id);
        let ghost v0 = self@;
        match self.position(key) {
            Some(i) => {
                let old_id = self.entries[i].1;
                self.entries[i].2.cancel();
                self.mark_cancelled(old_id);
                let ghost before = self@;
                let _ = self.entries.remove(i);
                assert(self@.runs =~= before.runs.remove(i as int));
                proof {
                    lemma_remove_keeps_wf(before, i as int);
                }
            },
            None => {},
        }
        let ghost mid = self@;
        assert(mid.runs == without(v0.runs, key@));
        self.entries.push((string_of(&chars_of(key)), id, token.clone()));
        self.next = id + 1;
        assert(self@.runs =~= mid.runs.push((key@, id)));
        proof {
            let r = self@.runs;
            assert(!has_key(mid.runs, key@)) by {
                if has_key(mid.runs, key@) {
                    let j = choose|j: int| 0 <= j < mid.runs.len() && #[trigger] mid.runs[j].0 == key@;
                    if has_key(v0.runs, key@) {
                        let i = key_index(v0.runs, key@);
                        let j0 = if j < i { j } else { j + 1 };
                        assert(mid.runs[j] == v0.runs[j0]);
                    } else {
                        assert(mid.runs[j] == v0.runs[j]);
                    }
                }
            }
            assert forall|a: int, b: int| 0 <= a < b < r.len() implies #[trigger] r[a].0 != #[trigger] r[b].0 by {
                if b == r.len() - 1 {
                    assert(r[a] == mid.runs[a]);
                    assert(r[b].0 == key@);
                } else {
                    assert(r[a] == mid.runs[a]);
                    assert(r[b] == mid.runs[b]);
                }
            }
            assert forall|k: int| 0 <= k < r.len() implies #[trigger] r[k].1 < self@.next by {
                if k < r.len() - 1 {
                    assert(r[k] == mid.runs[k]);
                }
            }
        }
        assert(self@ =~= registered(v0, key@));
        token
    }

    /// Drop a finished run's entry, only if the run still holds `key` (it is
    /// a no-op for a run that was already replaced), and forget that the run
    /// was cancelled.
    pub fn finish(&mut self, key: &str, token: &CancelToken)
        requires
            old(self).wf(),
        ensures
            final(self).wf(),
            final(self)@ == finished(old(self)@, key@, token.run_id()),
    {
        let ghost v0 = self@;
        let id = token.id();
        match self.position(key) {
            Some(i) => {
                if self.entries[i].1 == id {
                    let _ = self.entries.remove(i);
                    assert(self@.runs =~= v0.runs.remove(i as int));
                    proof {
                        lemma_remove_keeps_wf(v0, i as int);
                    }
                }
            },
            None => {},
        }
        let ghost mid = self@;
        let mut kept: Vec<u64> = Vec::new();
        let mut j: usize = 0;
        while j < self.cancelled.len()
            invariant
                j <= self.cancelled@.len(),
                forall|x: u64| #[trigger] kept@.contains(x) <==> (x != id && self.cancelled@.subrange(0, j as int).contains(x)),
            decreases self.cancelled@.len() - j,
        {
            let c = self.cancelled[j];
            let ghost pre = kept@;
            if c != id {
                kept.push(c);
            }
            proof {
                let s = self.cancelled@.subrange(0, j + 1);
                assert(s =~= self.cancelled@.subrange(0, j as int).push(c));
                assert forall|x: u64| #[trigger] kept@.contains(x) <==> (x != id && s.contains(x)) by {
                    if kept@.contains(x) {
                        let k = choose|k: int| 0 <= k < kept@.len() && kept@[k] == x;
                        if k < pre.len() {
                            assert(pre[k] == x);
                            assert(pre.contains(x));
                            let m = choose|m: int| 0 <= m < j && self.cancelled@.subrange(0, j as int)[m] == x;
                            assert(s[m] == x);
                        } else {
                            assert(s[j as int] == x);
                        }
                    }
                    if x != id && s.contains(x) {
                        let m = choose|m: int| 0 <= m < s.len() && s[m] == x;
                        if m < j {
                            assert(self.cancelled@.subrange(0, j as int)[m] == x);
                            assert(pre.contains(x));
                            let k = choose|k: int| 0 <= k < pre.len() && pre[k] == x;
                            assert(kept@[k] == x);
                        } else {
                            assert(kept@[kept@.len() - 1] == x);
                        }
                    }
                }
            }
            j = j + 1;
        }
        assert(self.cancelled@.subrange(0, self.cancelled@.len() as int) =~= self.cancelled@);
        self.cancelled = kept;
        assert(self@.cancelled =~= v0.cancelled.remove(id));
        assert(self@.runs == finished(v0, key@, id).runs);
        assert(self@ =~= finished(v0, key@, id));
    }

    /// Cancel the run under `key`. Returns whether one was registered; the
    /// run stays registered until it finishes.
    pub fn stop(&mut self, key: &str) -> (found: bool)
        requires
            old(self).wf(),
        ensures
            final(self).wf(),
            found == run_of(old(self)@.runs, key@) is Some,
            final(self)@ == stopped(old(self)@, key@),
    {
        let ghost v0 = self@;
        match self.position(key) {
            Some(i) => {
                let id = self.entries[i].1;
                self.entries[i].2.cancel();
                self.mark_cancelled(id);
                assert(self@ =~= stopped(v0, key@));
                true
            },
            None => {
                assert(self@ =~= stopped(v0, key@));
                false
            },
        }
    }

    /// Whether the registry cancelled run `id` (by a stop, or by registering
    /// its key again) and the run has not finished since.
    pub fn is_cancelled(&self, id: u64) -> (b: bool)
        ensures
            b == self@.cancelled.contains(id),
    {
        let mut j: usize = 0;
        while j < self.cancelled.len()
            invariant
                j <= self.cancelled@.len(),
                forall|k: int| 0 <= k < j ==> self.cancelled@[k] != id,
            decreases self.cancelled@.len() - j,
        {
            if self.cancelled[j] == id {
                return true;
            }
            j = j + 1;
        }
        false
    }

    /// The id the next registered run gets.
    pub fn next_id(&self) -> (r: u64)
        ensures
            r == self@.next,
    {
        self.next
    }

    /// The registered keys, oldest first.
    pub fn keys(&self) -> (r: Vec<String>)
        ensures
            r@.len() == self@.runs.len(),
            forall|k: int| 0 <= k < r@.len() ==> #[trigger] r@[k]@ == self@.runs[k].0,
    {
        let mut r: Vec<String> = Vec::new();
        let mut i: usize = 0;
        while i < self.entries.len()
            invariant
                i <= self.entries@.len(),
                r@.len() == i,
                forall|k: int| 0 <= k < i ==> #[trigger] r@[k]@ == self@.runs[k].0,
            decreases self.entries@.len() - i,
        {
            r.push(self.entries[i].0.clone());
            i = i + 1;
        }
        r
    }
}

proof fn lemma_last_is_key(runs: Seq<(Seq<char>, u64)>, key: Seq<char>, id: u64)
    requires
        keys_unique(runs.push((key, id))),
    ensures
        run_of(runs.push((key, id)), key) == Some(id),
{
    let r = runs.push((key, id));
    lemma_index_of_key(r, key, r.len() - 1);
}

/// Law: a newly registered run can be stopped under its key, and it starts
/// out not cancelled; once stopped, it is cancelled.
pub proof fn law_registered_runs_can_be_stopped(v: RegistryView, key: Seq<char>)
    requires
        registry_wf(v),
        v.next < u64::MAX,
        registry_wf(registered(v, key)),
    ensures
        run_of(registered(v, key).runs, key) == Some(v.next),
        !registered(v, key).cancelled.contains(v.next),
        stopped(registered(v, key), key).cancelled.contains(v.next),
{
    lemma_last_is_key(without(v.runs, key), key, v.next);
}

/// Law: registering a key again cancels the run that held it (the newest
/// request wins).
pub proof fn law_reregistering_cancels_the_previous_run(v: RegistryView, key: Seq<char>, id: u64)
    requires
        run_of(v.runs, key) == Some(id),
    ensures
        registered(v, key).cancelled.contains(id),
{
}

/// Law: after a run finishes, its key finds nothing, and every other key is
/// as it was.
pub proof fn law_finished_runs_cannot_be_stopped(v: RegistryView, key: Seq<char>, id: u64, other: Seq<char>)
    requires
        registry_wf(v),
        run_of(v.runs, key) == Some(id),
        other != key,
    ensures
        run_of(finished(v, key, id).runs, key) is None,
        run_of(finished(v, key, id).runs, other) == run_of(v.runs, other),
{
    let i = key_index(v.runs, key);
    lemma_index_of_key(v.runs, key, i);
    let r = v.runs.remove(i);
    lemma_remove_keeps_wf(v, i);
    if has_key(r, key) {
        let j = choose|j: int| 0 <= j < r.len() && #[trigger] r[j].0 == key;
        let j0 = if j < i { j } else { j + 1 };
        assert(r[j] == v.runs[j0]);
    }
    if has_key(v.runs, other) {
        let j = key_index(v.runs, other);
        assert(j != i);
        let j1 = if j < i { j } else { j - 1 };
        assert(r[j1] == v.runs[j]);
        lemma_index_of_key(r, other, j1);
    } else if has_key(r, other) {
        let j = choose|j: int| 0 <= j < r.len() && #[trigger] r[j].0 == other;
        let j0 = if j < i { j } else { j + 1 };
        assert(r[j] == v.runs[j0]);
    }
}

/// Law: a run that finishes after its key was registered again leaves the
/// newer run in place, so a later stop still finds and cancels it.
pub proof fn law_finishing_a_replaced_run_keeps_the_newer(v: RegistryView, key: Seq<char>, id: u64)
    requires
        registry_wf(v),
        v.next < u64::MAX,
        registry_wf(registered(v, key)),
        run_of(v.runs, key) == Some(id),
    ensures
        run_of(finished(registered(v, key), key, id).runs, key) == Some(v.next),
        stopped(finished(registered(v, key), key, id), key).cancelled.contains(v.next),
{
    let i = key_index(v.runs, key);
    assert(v.runs[i].1 < v.next);
    lemma_last_is_key(without(v.runs, key), key, v.next);
}

} // verus!
