//! Carrying progress from one plan version to the next.
//!
//! When a plan is regenerated, each new phase inherits the status (and
//! linked issue) of a phase of the previous version: the first unconsumed
//! prior phase with the same marker, else the first unconsumed prior phase
//! at the same position. Within a matched phase, tasks inherit by exact title
//! first, then by position. A prior phase that nothing inherited and that had
//! been started is reported, so a merge never drops progress silently.

use vstd::prelude::*;
use crate::text::{chars_of, push_all, push_str, same_chars, same_text, string_of};

verus! {

/// A phase of the previous plan version, as stored.
#[derive(Debug)]
pub struct PriorPhase {
    pub id: i64,
    pub idx: i64,
    pub marker: String,
    pub title: String,
    pub status: String,
    pub issue: Option<i64>,
}

/// A phase of the freshly saved version.
#[derive(Debug)]
pub struct NewPhase {
    pub id: i64,
    pub idx: i64,
    pub marker: String,
}

/// A task of a matched prior phase.
#[derive(Debug)]
pub struct PriorTask {
    pub idx: i64,
    pub title: String,
    pub status: String,
}

/// A task of the new phase it is carried into.
#[derive(Debug)]
pub struct NewTask {
    pub id: i64,
    pub idx: i64,
    pub title: String,
}

/// What a new phase inherits from the prior phase it matched.
#[derive(Debug)]
pub struct PhaseUpdate {
    pub new_id: i64,
    pub prior_id: i64,
    pub status: String,
    pub issue: Option<i64>,
}

/// A status to write onto a new task.
#[derive(Debug)]
pub struct TaskUpdate {
    pub id: i64,
    pub status: String,
}

/// The outcome of carrying a plan forward.
#[derive(Debug)]
pub struct PhaseCarry {
    pub updates: Vec<Option<PhaseUpdate>>,
    pub warnings: Vec<String>,
}

// ---------------------------------------------------------------------------
// The first index satisfying a predicate
// ---------------------------------------------------------------------------

/// The smallest `k < n` with `p(k)`, if any.
pub open spec fn first_where(n: nat, p: spec_fn(int) -> bool) -> Option<int>
    decreases n,
{
    if n == 0 {
        None
    } else {
        match first_where((n - 1) as nat, p) {
            Some(k) => Some(k),
            None => if p(n - 1) {
                Some(n - 1)
            } else {
                None
            },
        }
    }
}

pub proof fn lemma_first_where(n: nat, p: spec_fn(int) -> bool)
    ensures
        match first_where(n, p) {
            Some(k) => 0 <= k < n && p(k) && forall|i: int| 0 <= i < k ==> !#[trigger] p(i),
            None => forall|i: int| 0 <= i < n ==> !#[trigger] p(i),
        },
    decreases n,
{
    if n > 0 {
        lemma_first_where((n - 1) as nat, p);
    }
}

// ---------------------------------------------------------------------------
// Phase matching
// ---------------------------------------------------------------------------

/// Unconsumed prior phases carrying a given marker.
pub open spec fn by_marker(prior: Seq<PriorPhase>, marker: Seq<char>, used: Seq<i64>) -> spec_fn(int) -> bool {
    |k: int| prior[k].marker@ == marker && !used.contains(prior[k].id)
}

/// Unconsumed prior phases at a given position.
pub open spec fn by_position(prior: Seq<PriorPhase>, idx: i64, used: Seq<i64>) -> spec_fn(int) -> bool {
    |k: int| prior[k].idx == idx && !used.contains(prior[k].id)
}

/// The prior phase a new phase inherits from, given the ids already consumed.
pub open spec fn pick_phase(prior: Seq<PriorPhase>, np: NewPhase, used: Seq<i64>) -> Option<int> {
    match first_where(prior.len(), by_marker(prior, np.marker@, used)) {
        Some(k) => Some(k),
        None => first_where(prior.len(), by_position(prior, np.idx, used)),
    }
}

/// The matches of the first `n` new phases, and the prior ids they consumed.
pub open spec fn phase_fold(prior: Seq<PriorPhase>, news: Seq<NewPhase>, n: nat) -> (Seq<Option<int>>, Seq<i64>)
    decreases n,
{
    if n == 0 {
        (Seq::empty(), Seq::empty())
    } else {
        let (ms, used) = phase_fold(prior, news, (n - 1) as nat);
        match pick_phase(prior, news[n - 1], used) {
            Some(k) => (ms.push(Some(k)), used.push(prior[k].id)),
            None => (ms.push(None), used),
        }
    }
}

/// For each new phase, the position of the prior phase it inherits from.
pub open spec fn phase_matches(prior: Seq<PriorPhase>, news: Seq<NewPhase>) -> Seq<Option<int>> {
    phase_fold(prior, news, news.len()).0
}

/// The prior ids consumed by the whole match.
pub open spec fn phase_used(prior: Seq<PriorPhase>, news: Seq<NewPhase>) -> Seq<i64> {
    phase_fold(prior, news, news.len()).1
}

pub open spec fn not_started(status: Seq<char>) -> bool {
    status == "not_started"@
}

/// The heads-up for a started phase that the new plan dropped.
pub open spec fn warning_text(title: Seq<char>, status: Seq<char>) -> Seq<char> {
    "Phase “"@ + title + "” was "@ + status
        + " but the updated plan dropped it — its progress was not carried."@
}

/// Warnings for the first `n` prior phases.
pub open spec fn warnings_upto(prior: Seq<PriorPhase>, used: Seq<i64>, n: nat) -> Seq<Seq<char>>
    decreases n,
{
    if n == 0 {
        Seq::empty()
    } else {
        let w = warnings_upto(prior, used, (n - 1) as nat);
        let p = prior[n - 1];
        if !used.contains(p.id) && !not_started(p.status@) {
            w.push(warning_text(p.title@, p.status@))
        } else {
            w
        }
    }
}

/// Every started prior phase that nothing inherited, in prior order.
pub open spec fn phase_warnings(prior: Seq<PriorPhase>, news: Seq<NewPhase>) -> Seq<Seq<char>> {
    warnings_upto(prior, phase_used(prior, news), prior.len())
}

pub open spec fn opt_int(o: Option<usize>) -> Option<int> {
    match o {
        Some(k) => Some(k as int),
        None => None,
    }
}

fn contains_id(used: &Vec<i64>, id: i64) -> (r: bool)
    ensures
        r == used@.contains(id),
{
    let mut i: usize = 0;
    while i < used.len()
        invariant
            i <= used.len(),
            forall|j: int| 0 <= j < i ==> used@[j] != id,
        decreases used.len() - i,
    {
        if used[i] == id {
            assert(used@[i as int] == id);
            return true;
        }
        i = i + 1;
    }
    false
}

fn pick_phase_exec(prior: &Vec<PriorPhase>, np: &NewPhase, used: &Vec<i64>) -> (r: Option<usize>)
    ensures
        opt_int(r) == pick_phase(prior@, *np, used@),
        r matches Some(k) ==> k < prior@.len(),
{
    proof {
        lemma_first_where(prior@.len(), by_marker(prior@, np.marker@, used@));
        lemma_first_where(prior@.len(), by_position(prior@, np.idx, used@));
    }
    let mc = chars_of(np.marker.as_str());
    let mut k: usize = 0;
    while k < prior.len()
        invariant
            k <= prior.len(),
            mc@ == np.marker@,
            forall|i: int| 0 <= i < k ==> !(#[trigger] prior@[i].marker@ == np.marker@ && !used@.contains(prior@[i].id)),
        decreases prior.len() - k,
    {
        let pc = chars_of(prior[k].marker.as_str());
        if same_chars(&pc, &mc) && !contains_id(used, prior[k].id) {
            proof {
                lemma_first_where(prior@.len(), by_marker(prior@, np.marker@, used@));
                assert(by_marker(prior@, np.marker@, used@)(k as int));
            }
            return Some(k);
        }
        k = k + 1;
    }
    let mut k: usize = 0;
    while k < prior.len()
        invariant
            k <= prior.len(),
            forall|i: int| 0 <= i < prior@.len() ==> !(#[trigger] prior@[i].marker@ == np.marker@ && !used@.contains(prior@[i].id)),
            forall|i: int| 0 <= i < k ==> !(#[trigger] prior@[i].idx == np.idx && !used@.contains(prior@[i].id)),
        decreases prior.len() - k,
    {
        if prior[k].idx == np.idx && !contains_id(used, prior[k].id) {
            proof {
                lemma_first_where(prior@.len(), by_marker(prior@, np.marker@, used@));
                lemma_first_where(prior@.len(), by_position(prior@, np.idx, used@));
                assert(by_position(prior@, np.idx, used@)(k as int));
            }
            return Some(k);
        }
        k = k + 1;
    }
    None
}

/// Match every new phase to the prior phase it inherits from.
pub fn match_phases(prior: &Vec<PriorPhase>, news: &Vec<NewPhase>) -> (r: (Vec<Option<usize>>, Vec<i64>))
    ensures
        r.0@.len() == news@.len(),
        forall|i: int| 0 <= i < news@.len() ==> opt_int(#[trigger] r.0@[i]) == phase_matches(prior@, news@)[i],
        r.1@ == phase_used(prior@, news@),
        forall|i: int| 0 <= i < news@.len() ==> (#[trigger] r.0@[i] matches Some(k) ==> k < prior@.len()),
{
    let mut ms: Vec<Option<usize>> = Vec::new();
    let mut used: Vec<i64> = Vec::new();
    let mut i: usize = 0;
    while i < news.len()
        invariant
            i <= news.len(),
            ms@.len() == i,
            forall|j: int| 0 <= j < i ==> opt_int(#[trigger] ms@[j]) == phase_fold(prior@, news@, i as nat).0[j],
            forall|j: int| 0 <= j < i ==> (#[trigger] ms@[j] matches Some(k) ==> k < prior@.len()),
            phase_fold(prior@, news@, i as nat).0.len() == i,
            used@ == phase_fold(prior@, news@, i as nat).1,
        decreases news.len() - i,
    {
        let pick = pick_phase_exec(prior, &news[i], &used);
        match pick {
            Some(k) => {
                used.push(prior[k].id);
            },
            None => {},
        }
        ms.push(pick);
        i = i + 1;
    }
    (ms, used)
}

fn warning_for(title: &String, status: &String) -> (w: String)
    ensures
        w@ == warning_text(title@, status@),
{
    let mut out: Vec<char> = Vec::new();
    push_str(&mut out, "Phase “");
    push_str(&mut out, title.as_str());
    push_str(&mut out, "” was ");
    push_str(&mut out, status.as_str());
    push_str(&mut out, " but the updated plan dropped it — its progress was not carried.");
    string_of(&out)
}

/// Carry phase progress into the new version: one update per matched new
/// phase (in new-phase order), and a warning for each started prior phase
/// that nothing inherited.
pub fn carry_phases(prior: &Vec<PriorPhase>, news: &Vec<NewPhase>) -> (r: PhaseCarry)
    ensures
        r.updates@.len() == news@.len(),
        forall|i: int| 0 <= i < news@.len() ==> #[trigger] update_ok(r.updates@[i], prior@, news@, i),
        r.warnings@.len() == phase_warnings(prior@, news@).len(),
        forall|i: int| 0 <= i < r.warnings@.len() ==> #[trigger] r.warnings@[i]@ == phase_warnings(prior@, news@)[i],
{
    let (ms, used) = match_phases(prior, news);
    proof {
        lemma_fold_len(prior@, news@, news@.len() as nat);
    }
    let mut updates: Vec<Option<PhaseUpdate>> = Vec::new();
    let mut i: usize = 0;
    while i < news.len()
        invariant
            i <= news.len(),
            ms@.len() == news@.len(),
            phase_matches(prior@, news@).len() == news@.len(),
            forall|j: int| 0 <= j < news@.len() ==> opt_int(#[trigger] ms@[j]) == phase_matches(prior@, news@)[j],
            forall|j: int| 0 <= j < news@.len() ==> (#[trigger] ms@[j] matches Some(k) ==> k < prior@.len()),
            updates@.len() == i,
            forall|j: int| 0 <= j < i ==> #[trigger] update_ok(updates@[j], prior@, news@, j),
        decreases news.len() - i,
    {
        match ms[i] {
            Some(k) => {
                let p = &prior[k];
                updates.push(Some(PhaseUpdate {
                    new_id: news[i].id,
                    prior_id: p.id,
                    status: p.status.clone(),
                    issue: p.issue,
                }));
            },
            None => {
                updates.push(None);
            },
        }
        i = i + 1;
    }
    let mut warnings: Vec<String> = Vec::new();
    let mut k: usize = 0;
    while k < prior.len()
        invariant
            k <= prior.len(),
            used@ == phase_used(prior@, news@),
            warnings@.len() == warnings_upto(prior@, used@, k as nat).len(),
            forall|j: int| 0 <= j < warnings@.len() ==> #[trigger] warnings@[j]@ == warnings_upto(prior@, used@, k as nat)[j],
        decreases prior.len() - k,
    {
        let p = &prior[k];
        let st = chars_of(p.status.as_str());
        if !contains_id(&used, p.id) && !same_text(&st, "not_started") {
            warnings.push(warning_for(&p.title, &p.status));
        }
        k = k + 1;
    }
    PhaseCarry { updates, warnings }
}

/// The update for the `i`-th new phase: what its matched prior phase had,
/// or nothing when it matched none.
pub open spec fn update_ok(u: Option<PhaseUpdate>, prior: Seq<PriorPhase>, news: Seq<NewPhase>, i: int) -> bool {
    match phase_matches(prior, news)[i] {
        Some(k) => match u {
            Some(u) => {
                &&& u.new_id == news[i].id
                &&& u.prior_id == prior[k].id
                &&& u.status@ == prior[k].status@
                &&& u.issue == prior[k].issue
            },
            None => false,
        },
        None => u is None,
    }
}

proof fn lemma_fold_len(prior: Seq<PriorPhase>, news: Seq<NewPhase>, n: nat)
    ensures
        phase_fold(prior, news, n).0.len() == n,
    decreases n,
{
    if n > 0 {
        lemma_fold_len(prior, news, (n - 1) as nat);
    }
}


// ---------------------------------------------------------------------------
// Task matching
// ---------------------------------------------------------------------------

/// Unconsumed prior tasks with a given title (consumption is by prior position).
pub open spec fn by_title(prior: Seq<PriorTask>, title: Seq<char>, used: Seq<i64>) -> spec_fn(int) -> bool {
    |k: int| prior[k].title@ == title && !used.contains(prior[k].idx)
}

/// Unconsumed prior tasks at a given position.
pub open spec fn by_task_position(prior: Seq<PriorTask>, idx: i64, used: Seq<i64>) -> spec_fn(int) -> bool {
    |k: int| prior[k].idx == idx && !used.contains(prior[k].idx)
}

/// The prior task a new task inherits from: same title first, else same position.
pub open spec fn pick_task(prior: Seq<PriorTask>, nt: NewTask, used: Seq<i64>) -> Option<int> {
    match first_where(prior.len(), by_title(prior, nt.title@, used)) {
        Some(k) => Some(k),
        None => first_where(prior.len(), by_task_position(prior, nt.idx, used)),
    }
}

pub open spec fn task_fold(prior: Seq<PriorTask>, news: Seq<NewTask>, n: nat) -> (Seq<Option<int>>, Seq<i64>)
    decreases n,
{
    if n == 0 {
        (Seq::empty(), Seq::empty())
    } else {
        let (ms, used) = task_fold(prior, news, (n - 1) as nat);
        match pick_task(prior, news[n - 1], used) {
            Some(k) => (ms.push(Some(k)), used.push(prior[k].idx)),
            None => (ms.push(None), used),
        }
    }
}

/// For each new task, the position of the prior task it inherits from.
pub open spec fn task_matches(prior: Seq<PriorTask>, news: Seq<NewTask>) -> Seq<Option<int>> {
    task_fold(prior, news, news.len()).0
}

/// The status write for the `i`-th new task: the matched prior task's status,
/// unless that task had not been started (nothing to write then).
pub open spec fn task_update_ok(u: Option<TaskUpdate>, prior: Seq<PriorTask>, news: Seq<NewTask>, i: int) -> bool {
    match task_matches(prior, news)[i] {
        Some(k) => if not_started(prior[k].status@) {
            u is None
        } else {
            match u {
                Some(u) => u.id == news[i].id && u.status@ == prior[k].status@,
                None => false,
            }
        },
        None => u is None,
    }
}

fn pick_task_exec(prior: &Vec<PriorTask>, nt: &NewTask, used: &Vec<i64>) -> (r: Option<usize>)
    ensures
        opt_int(r) == pick_task(prior@, *nt, used@),
        r matches Some(k) ==> k < prior@.len(),
{
    proof {
        lemma_first_where(prior@.len(), by_title(prior@, nt.title@, used@));
        lemma_first_where(prior@.len(), by_task_position(prior@, nt.idx, used@));
    }
    let tc = chars_of(nt.title.as_str());
    let mut k: usize = 0;
    while k < prior.len()
        invariant
            k <= prior.len(),
            tc@ == nt.title@,
            forall|i: int| 0 <= i < k ==> !(#[trigger] prior@[i].title@ == nt.title@ && !used@.contains(prior@[i].idx)),
        decreases prior.len() - k,
    {
        let pc = chars_of(prior[k].title.as_str());
        if same_chars(&pc, &tc) && !contains_id(used, prior[k].idx) {
            proof {
                lemma_first_where(prior@.len(), by_title(prior@, nt.title@, used@));
                assert(by_title(prior@, nt.title@, used@)(k as int));
            }
            return Some(k);
        }
        k = k + 1;
    }
    let mut k: usize = 0;
    while k < prior.len()
        invariant
            k <= prior.len(),
            forall|i: int| 0 <= i < prior@.len() ==> !(#[trigger] prior@[i].title@ == nt.title@ && !used@.contains(prior@[i].idx)),
            forall|i: int| 0 <= i < k ==> !(#[trigger] prior@[i].idx == nt.idx && !used@.contains(prior@[i].idx)),
        decreases prior.len() - k,
    {
        if prior[k].idx == nt.idx && !contains_id(used, prior[k].idx) {
            proof {
                lemma_first_where(prior@.len(), by_title(prior@, nt.title@, used@));
                lemma_first_where(prior@.len(), by_task_position(prior@, nt.idx, used@));
                assert(by_task_position(prior@, nt.idx, used@)(k as int));
            }
            return Some(k);
        }
        k = k + 1;
    }
    None
}

/// Carry task progress within a matched phase: one entry per new task, with
/// the status to write where its matched prior task had been started.
pub fn carry_tasks(prior: &Vec<PriorTask>, news: &Vec<NewTask>) -> (r: Vec<Option<TaskUpdate>>)
    ensures
        r@.len() == news@.len(),
        forall|i: int| 0 <= i < news@.len() ==> #[trigger] task_update_ok(r@[i], prior@, news@, i),
{
    let mut out: Vec<Option<TaskUpdate>> = Vec::new();
    let mut used: Vec<i64> = Vec::new();
    let mut i: usize = 0;
    proof {
        lemma_task_fold_prefix(prior@, news@, news@.len() as nat);
    }
    while i < news.len()
        invariant
            i <= news.len(),
            out@.len() == i,
            used@ == task_fold(prior@, news@, i as nat).1,
            forall|m: nat| m <= news@.len() ==> #[trigger] task_fold(prior@, news@, m).0.len() == m,
            forall|m: nat, j: int| 0 <= j < m <= news@.len() ==> #[trigger] task_fold(prior@, news@, m).0[j] == task_matches(prior@, news@)[j],
            forall|j: int| 0 <= j < i ==> #[trigger] task_update_ok(out@[j], prior@, news@, j),
        decreases news.len() - i,
    {
        let pick = pick_task_exec(prior, &news[i], &used);
        assert(task_fold(prior@, news@, (i + 1) as nat).0[i as int] == task_matches(prior@, news@)[i as int]);
        match pick {
            Some(k) => {
                used.push(prior[k].idx);
                let st = chars_of(prior[k].status.as_str());
                if same_text(&st, "not_started") {
                    out.push(None);
                } else {
                    out.push(Some(TaskUpdate { id: news[i].id, status: prior[k].status.clone() }));
                }
            },
            None => {
                out.push(None);
            },
        }
        i = i + 1;
    }
    out
}

proof fn lemma_task_fold_prefix(prior: Seq<PriorTask>, news: Seq<NewTask>, n: nat)
    ensures
        forall|m: nat| m <= n ==> #[trigger] task_fold(prior, news, m).0.len() == m,
        forall|m: nat, j: int| 0 <= j < m <= n ==> #[trigger] task_fold(prior, news, m).0[j] == task_fold(prior, news, n).0[j],
    decreases n,
{
    if n > 0 {
        lemma_task_fold_prefix(prior, news, (n - 1) as nat);
        let prev = task_fold(prior, news, (n - 1) as nat);
        assert(prev.0.len() == n - 1);
        assert(task_fold(prior, news, n).0.len() == n);
        assert forall|m: nat, j: int| 0 <= j < m <= n implies #[trigger] task_fold(prior, news, m).0[j] == task_fold(prior, news, n).0[j] by {
            if m < n {
                assert(task_fold(prior, news, m).0[j] == prev.0[j]);
            }
        }
    }
}


// ---------------------------------------------------------------------------
// Laws
// ---------------------------------------------------------------------------

proof fn lemma_pick_phase(prior: Seq<PriorPhase>, np: NewPhase, used: Seq<i64>)
    ensures
        pick_phase(prior, np, used) matches Some(k) ==> 0 <= k < prior.len() && !used.contains(prior[k].id),
{
    lemma_first_where(prior.len(), by_marker(prior, np.marker@, used));
    lemma_first_where(prior.len(), by_position(prior, np.idx, used));
}

proof fn lemma_phase_fold_facts(prior: Seq<PriorPhase>, news: Seq<NewPhase>, n: nat)
    requires
        n <= news.len(),
    ensures
        phase_fold(prior, news, n).0.len() == n,
        forall|i: int| 0 <= i < n ==> (#[trigger] phase_fold(prior, news, n).0[i] matches Some(k) ==> 0 <= k
            < prior.len() && phase_fold(prior, news, n).1.contains(prior[k].id)),
        forall|i: int, j: int|
            0 <= i < j < n && phase_fold(prior, news, n).0[i] is Some && phase_fold(prior, news, n).0[j] is Some
            ==> prior[#[trigger] phase_fold(prior, news, n).0[i]->0].id != prior[#[trigger] phase_fold(prior, news, n).0[j]->0].id,
    decreases n,
{
    if n > 0 {
        lemma_phase_fold_facts(prior, news, (n - 1) as nat);
        let (ms, used) = phase_fold(prior, news, (n - 1) as nat);
        lemma_pick_phase(prior, news[n - 1], used);
        let cur = phase_fold(prior, news, n);
        assert forall|i: int| 0 <= i < n - 1 implies #[trigger] cur.0[i] == ms[i] by {}
        match pick_phase(prior, news[n - 1], used) {
            Some(k) => {
                assert(cur.1 == used.push(prior[k].id));
                assert forall|i: int| 0 <= i < n implies (#[trigger] cur.0[i] matches Some(a) ==> 0 <= a < prior.len()
                    && cur.1.contains(prior[a].id)) by {
                    if i < n - 1 {
                        if let Some(a) = ms[i] {
                            let w = choose|w: int| 0 <= w < used.len() && used[w] == prior[a].id;
                            assert(cur.1[w] == prior[a].id);
                        }
                    } else {
                        assert(cur.1[used.len() as int] == prior[k].id);
                    }
                }
                assert forall|i: int, j: int|
                    0 <= i < j < n && cur.0[i] is Some && cur.0[j] is Some
                    implies prior[#[trigger] cur.0[i]->0].id != prior[#[trigger] cur.0[j]->0].id by {
                    if j == n - 1 {
                        assert(used.contains(prior[ms[i]->0].id));
                    }
                }
            },
            None => {
                assert(cur.1 == used);
            },
        }
    }
}

/// Law: no prior phase's progress is carried into two new phases — the
/// matched prior phases are pairwise distinct (by id).
pub proof fn law_phase_carry_is_injective(prior: Seq<PriorPhase>, news: Seq<NewPhase>, i: int, j: int)
    requires
        0 <= i < j < news.len(),
        phase_matches(prior, news)[i] is Some,
        phase_matches(prior, news)[j] is Some,
    ensures
        prior[phase_matches(prior, news)[i]->0].id != prior[phase_matches(prior, news)[j]->0].id,
{
    lemma_phase_fold_facts(prior, news, news.len());
}

/// Distinct ids (as the database gives them).
pub open spec fn ids_distinct(prior: Seq<PriorPhase>) -> bool {
    forall|a: int, b: int| 0 <= a < b < prior.len() ==> prior[a].id != prior[b].id
}

proof fn lemma_identical_fold(prior: Seq<PriorPhase>, news: Seq<NewPhase>, n: nat)
    requires
        n <= news.len() == prior.len(),
        forall|i: int| 0 <= i < news.len() ==> (#[trigger] news[i]).marker@ == prior[i].marker@,
        ids_distinct(prior),
    ensures
        phase_fold(prior, news, n).0.len() == n,
        phase_fold(prior, news, n).1.len() == n,
        forall|i: int| 0 <= i < n ==> #[trigger] phase_fold(prior, news, n).0[i] == Some(i),
        forall|i: int| 0 <= i < n ==> #[trigger] phase_fold(prior, news, n).1[i] == prior[i].id,
    decreases n,
{
    if n > 0 {
        lemma_identical_fold(prior, news, (n - 1) as nat);
        let (ms, used) = phase_fold(prior, news, (n - 1) as nat);
        let p = by_marker(prior, news[n - 1].marker@, used);
        lemma_first_where(prior.len(), p);
        assert(p(n - 1)) by {
            if used.contains(prior[n - 1].id) {
                let w = choose|w: int| 0 <= w < used.len() && used[w] == prior[n - 1].id;
                assert(used[w] == prior[w].id);
            }
        }
        assert forall|k: int| 0 <= k < n - 1 implies !#[trigger] p(k) by {
            assert(used[k] == prior[k].id);
            assert(used.contains(prior[k].id));
        }
        assert(first_where(prior.len(), p) == Some(n - 1));
    }
}

proof fn lemma_no_warnings(prior: Seq<PriorPhase>, used: Seq<i64>, m: nat)
    requires
        m <= prior.len(),
        forall|k: int| 0 <= k < m ==> used.contains(#[trigger] prior[k].id),
    ensures
        warnings_upto(prior, used, m).len() == 0,
    decreases m,
{
    if m > 0 {
        lemma_no_warnings(prior, used, (m - 1) as nat);
        assert(used.contains(prior[m - 1].id));
    }
}

/// Law: regenerating a plan whose phases carry the same markers in the same
/// order carries every phase onto its counterpart, and warns of nothing.
pub proof fn law_identical_plan_carries_everything(prior: Seq<PriorPhase>, news: Seq<NewPhase>)
    requires
        news.len() == prior.len(),
        forall|i: int| 0 <= i < news.len() ==> (#[trigger] news[i]).marker@ == prior[i].marker@,
        ids_distinct(prior),
    ensures
        forall|i: int| 0 <= i < news.len() ==> #[trigger] phase_matches(prior, news)[i] == Some(i),
        phase_warnings(prior, news).len() == 0,
{
    lemma_identical_fold(prior, news, news.len());
    let used = phase_used(prior, news);
    assert forall|k: int| 0 <= k < prior.len() implies used.contains(#[trigger] prior[k].id) by {
        assert(used[k] == prior[k].id);
    }
    lemma_no_warnings(prior, used, prior.len());
}

proof fn lemma_pick_task(prior: Seq<PriorTask>, nt: NewTask, used: Seq<i64>)
    ensures
        pick_task(prior, nt, used) matches Some(k) ==> 0 <= k < prior.len() && !used.contains(prior[k].idx),
{
    lemma_first_where(prior.len(), by_title(prior, nt.title@, used));
    lemma_first_where(prior.len(), by_task_position(prior, nt.idx, used));
}

proof fn lemma_task_fold_facts(prior: Seq<PriorTask>, news: Seq<NewTask>, n: nat)
    requires
        n <= news.len(),
    ensures
        task_fold(prior, news, n).0.len() == n,
        forall|i: int| 0 <= i < n ==> (#[trigger] task_fold(prior, news, n).0[i] matches Some(k) ==> 0 <= k
            < prior.len() && task_fold(prior, news, n).1.contains(prior[k].idx)),
        forall|i: int, j: int|
            0 <= i < j < n && task_fold(prior, news, n).0[i] is Some && task_fold(prior, news, n).0[j] is Some
            ==> prior[#[trigger] task_fold(prior, news, n).0[i]->0].idx != prior[#[trigger] task_fold(prior, news, n).0[j]->0].idx,
    decreases n,
{
    if n > 0 {
        lemma_task_fold_facts(prior, news, (n - 1) as nat);
        let (ms, used) = task_fold(prior, news, (n - 1) as nat);
        lemma_pick_task(prior, news[n - 1], used);
        let cur = task_fold(prior, news, n);
        assert forall|i: int| 0 <= i < n - 1 implies #[trigger] cur.0[i] == ms[i] by {}
        match pick_task(prior, news[n - 1], used) {
            Some(k) => {
                assert(cur.1 == used.push(prior[k].idx));
                assert forall|i: int| 0 <= i < n implies (#[trigger] cur.0[i] matches Some(a) ==> 0 <= a < prior.len()
                    && cur.1.contains(prior[a].idx)) by {
                    if i < n - 1 {
                        if let Some(a) = ms[i] {
                            let w = choose|w: int| 0 <= w < used.len() && used[w] == prior[a].idx;
                            assert(cur.1[w] == prior[a].idx);
                        }
                    } else {
                        assert(cur.1[used.len() as int] == prior[k].idx);
                    }
                }
                assert forall|i: int, j: int|
                    0 <= i < j < n && cur.0[i] is Some && cur.0[j] is Some
                    implies prior[#[trigger] cur.0[i]->0].idx != prior[#[trigger] cur.0[j]->0].idx by {
                    if j == n - 1 {
                        assert(used.contains(prior[ms[i]->0].idx));
                    }
                }
            },
            None => {
                assert(cur.1 == used);
            },
        }
    }
}

/// Law: no prior task's progress is carried into two new tasks.
pub proof fn law_task_carry_is_injective(prior: Seq<PriorTask>, news: Seq<NewTask>, i: int, j: int)
    requires
        0 <= i < j < news.len(),
        task_matches(prior, news)[i] is Some,
        task_matches(prior, news)[j] is Some,
    ensures
        prior[task_matches(prior, news)[i]->0].idx != prior[task_matches(prior, news)[j]->0].idx,
{
    lemma_task_fold_facts(prior, news, news.len());
}

/// Distinct positions (as a saved phase gives its tasks).
pub open spec fn task_positions_distinct(prior: Seq<PriorTask>) -> bool {
    forall|a: int, b: int| 0 <= a < b < prior.len() ==> prior[a].idx != prior[b].idx
}

proof fn lemma_identical_task_fold(prior: Seq<PriorTask>, news: Seq<NewTask>, n: nat)
    requires
        n <= news.len() == prior.len(),
        forall|i: int| 0 <= i < news.len() ==> (#[trigger] news[i]).title@ == prior[i].title@,
        task_positions_distinct(prior),
    ensures
        task_fold(prior, news, n).0.len() == n,
        task_fold(prior, news, n).1.len() == n,
        forall|i: int| 0 <= i < n ==> #[trigger] task_fold(prior, news, n).0[i] == Some(i),
        forall|i: int| 0 <= i < n ==> #[trigger] task_fold(prior, news, n).1[i] == prior[i].idx,
    decreases n,
{
    if n > 0 {
        lemma_identical_task_fold(prior, news, (n - 1) as nat);
        let (ms, used) = task_fold(prior, news, (n - 1) as nat);
        let p = by_title(prior, news[n - 1].title@, used);
        lemma_first_where(prior.len(), p);
        assert(p(n - 1)) by {
            if used.contains(prior[n - 1].idx) {
                let w = choose|w: int| 0 <= w < used.len() && used[w] == prior[n - 1].idx;
                assert(used[w] == prior[w].idx);
            }
        }
        assert forall|k: int| 0 <= k < n - 1 implies !#[trigger] p(k) by {
            assert(used[k] == prior[k].idx);
            assert(used.contains(prior[k].idx));
        }
        assert(first_where(prior.len(), p) == Some(n - 1));
    }
}

/// Law: tasks that keep their titles and order are each carried onto their
/// counterpart.
pub proof fn law_identical_tasks_carry_everything(prior: Seq<PriorTask>, news: Seq<NewTask>)
    requires
        news.len() == prior.len(),
        forall|i: int| 0 <= i < news.len() ==> (#[trigger] news[i]).title@ == prior[i].title@,
        task_positions_distinct(prior),
    ensures
        forall|i: int| 0 <= i < news.len() ==> #[trigger] task_matches(prior, news)[i] == Some(i),
{
    lemma_identical_task_fold(prior, news, news.len());
}


/// Law: a new task inherits from the first unconsumed prior task with the
/// same title; when there is none, from the first unconsumed prior task at
/// the same position; when there is neither, from nothing.
pub proof fn law_task_match_title_then_position(prior: Seq<PriorTask>, nt: NewTask, used: Seq<i64>)
    ensures
        match pick_task(prior, nt, used) {
            Some(k) => 0 <= k < prior.len() && !used.contains(prior[k].idx) && (
                (prior[k].title@ == nt.title@
                    && forall|j: int| 0 <= j < k ==> !(#[trigger] prior[j].title@ == nt.title@ && !used.contains(prior[j].idx)))
                || ((forall|j: int| 0 <= j < prior.len() ==> !(#[trigger] prior[j].title@ == nt.title@ && !used.contains(prior[j].idx)))
                    && prior[k].idx == nt.idx
                    && forall|j: int| 0 <= j < k ==> !(#[trigger] prior[j].idx == nt.idx && !used.contains(prior[j].idx)))),
            None => forall|j: int| 0 <= j < prior.len() ==> !(#[trigger] prior[j].title@ == nt.title@ && !used.contains(prior[j].idx))
                && !(prior[j].idx == nt.idx && !used.contains(prior[j].idx)),
        },
{
    lemma_first_where(prior.len(), by_title(prior, nt.title@, used));
    lemma_first_where(prior.len(), by_task_position(prior, nt.idx, used));
    let t = by_title(prior, nt.title@, used);
    let q = by_task_position(prior, nt.idx, used);
    assert forall|j: int| 0 <= j < prior.len() implies (#[trigger] prior[j].title@ == nt.title@ && !used.contains(prior[j].idx)) == t(j) by {}
    assert forall|j: int| 0 <= j < prior.len() implies (#[trigger] prior[j].idx == nt.idx && !used.contains(prior[j].idx)) == q(j) by {}
}

/// Law: the first task of a carried phase inherits from the first prior task
/// with its title, else from the first prior task at its position, else
/// from nothing (nothing is consumed before it).
pub proof fn law_first_task_inherits_by_title_then_position(prior: Seq<PriorTask>, news: Seq<NewTask>)
    requires
        news.len() > 0,
    ensures
        match task_matches(prior, news)[0] {
            Some(k) => 0 <= k < prior.len() && (
                (prior[k].title@ == news[0].title@ && forall|j: int| 0 <= j < k ==> #[trigger] prior[j].title@ != news[0].title@)
                || ((forall|j: int| 0 <= j < prior.len() ==> #[trigger] prior[j].title@ != news[0].title@)
                    && prior[k].idx == news[0].idx && forall|j: int| 0 <= j < k ==> #[trigger] prior[j].idx != news[0].idx)),
            None => forall|j: int| 0 <= j < prior.len() ==> #[trigger] prior[j].title@ != news[0].title@ && prior[j].idx != news[0].idx,
        },
{
    lemma_task_fold_prefix(prior, news, news.len());
    assert(task_fold(prior, news, 1).0[0] == task_matches(prior, news)[0]);
    let e = Seq::<i64>::empty();
    assert(task_fold(prior, news, 0).1 =~= e);
    assert(forall|x: i64| !e.contains(x));
    assert(task_fold(prior, news, 1).0[0] == pick_task(prior, news[0], e));
    law_task_match_title_then_position(prior, news[0], e);
}

/// Law: a new phase inherits from the first unconsumed prior phase with the
/// same marker; when there is none, from the first unconsumed prior phase at
/// the same position; when there is neither, from nothing.
pub proof fn law_phase_match_marker_then_position(prior: Seq<PriorPhase>, np: NewPhase, used: Seq<i64>)
    ensures
        match pick_phase(prior, np, used) {
            Some(k) => 0 <= k < prior.len() && !used.contains(prior[k].id) && (
                (prior[k].marker@ == np.marker@
                    && forall|j: int| 0 <= j < k ==> !(#[trigger] prior[j].marker@ == np.marker@ && !used.contains(prior[j].id)))
                || ((forall|j: int| 0 <= j < prior.len() ==> !(#[trigger] prior[j].marker@ == np.marker@ && !used.contains(prior[j].id)))
                    && prior[k].idx == np.idx
                    && forall|j: int| 0 <= j < k ==> !(#[trigger] prior[j].idx == np.idx && !used.contains(prior[j].id)))),
            None => forall|j: int| 0 <= j < prior.len() ==> !(#[trigger] prior[j].marker@ == np.marker@ && !used.contains(prior[j].id))
                && !(prior[j].idx == np.idx && !used.contains(prior[j].id)),
        },
{
    lemma_first_where(prior.len(), by_marker(prior, np.marker@, used));
    lemma_first_where(prior.len(), by_position(prior, np.idx, used));
    let t = by_marker(prior, np.marker@, used);
    let q = by_position(prior, np.idx, used);
    assert forall|j: int| 0 <= j < prior.len() implies (#[trigger] prior[j].marker@ == np.marker@ && !used.contains(prior[j].id)) == t(j) by {}
    assert forall|j: int| 0 <= j < prior.len() implies (#[trigger] prior[j].idx == np.idx && !used.contains(prior[j].id)) == q(j) by {}
}

/// Law: the first new phase inherits from the first prior phase with its
/// marker, else from the first prior phase at its position, else from
/// nothing (nothing is consumed before it).
pub proof fn law_first_phase_inherits_by_marker_then_position(prior: Seq<PriorPhase>, news: Seq<NewPhase>)
    requires
        news.len() > 0,
    ensures
        match phase_matches(prior, news)[0] {
            Some(k) => 0 <= k < prior.len() && (
                (prior[k].marker@ == news[0].marker@ && forall|j: int| 0 <= j < k ==> #[trigger] prior[j].marker@ != news[0].marker@)
                || ((forall|j: int| 0 <= j < prior.len() ==> #[trigger] prior[j].marker@ != news[0].marker@)
                    && prior[k].idx == news[0].idx && forall|j: int| 0 <= j < k ==> #[trigger] prior[j].idx != news[0].idx)),
            None => forall|j: int| 0 <= j < prior.len() ==> #[trigger] prior[j].marker@ != news[0].marker@ && prior[j].idx != news[0].idx,
        },
{
    lemma_phase_fold_first(prior, news, news.len());
    let e = Seq::<i64>::empty();
    assert(phase_fold(prior, news, 0).1 =~= e);
    assert(forall|x: i64| !e.contains(x));
    assert(phase_fold(prior, news, 1).0[0] == pick_phase(prior, news[0], e));
    law_phase_match_marker_then_position(prior, news[0], e);
}

proof fn lemma_phase_fold_first(prior: Seq<PriorPhase>, news: Seq<NewPhase>, n: nat)
    requires
        n >= 1,
    ensures
        phase_fold(prior, news, n).0[0] == phase_fold(prior, news, 1).0[0],
    decreases n,
{
    lemma_fold_len(prior, news, n);
    if n > 1 {
        lemma_phase_fold_first(prior, news, (n - 1) as nat);
        lemma_fold_len(prior, news, (n - 1) as nat);
    }
}

} // verus!
