use review_helper::carry::{carry_phases, carry_tasks, NewPhase, NewTask, PriorPhase, PriorTask};
use review_helper::plan::{phase_marker, phase_rows, GenPhase, GenStack, GenTask, GeneratedPlan};

fn prior(id: i64, idx: i64, title: &str, status: &str) -> PriorPhase {
    PriorPhase {
        id,
        idx,
        marker: phase_marker(title),
        title: title.to_string(),
        status: status.to_string(),
        issue: None,
    }
}

fn fresh(id: i64, idx: i64, title: &str) -> NewPhase {
    NewPhase { id, idx, marker: phase_marker(title) }
}

/// The status each new phase ends up with after a carry.
fn statuses(prior: Vec<PriorPhase>, news: Vec<NewPhase>) -> (Vec<String>, Vec<String>) {
    let carry = carry_phases(&prior, &news);
    let st = carry
        .updates
        .iter()
        .map(|u| u.as_ref().map(|u| u.status.clone()).unwrap_or_else(|| "not_started".to_string()))
        .collect();
    (st, carry.warnings)
}

#[test]
fn carry_status_preserves_completion_across_a_merge() {
    let plan = GeneratedPlan {
        current_state: "s".into(),
        body_md: "b".into(),
        confidence: "high".into(),
        notes: "".into(),
        phases: vec![GenPhase {
            title: "Setup".into(),
            goal: "g".into(),
            tasks: vec![GenTask { title: "Init".into(), body: "".into(), verification: "".into() }],
        }],
        decisions: vec![],
        stack: GenStack { frontend: None, backend: None, database: None, deployment: None, pipes: None },
    };
    let rows = phase_rows(&plan);
    assert_eq!(rows[0].status, "not_started", "fresh v2 starts not_started");
    assert_eq!(rows[0].tasks[0].status, "not_started");
    assert_eq!(rows[0].marker, phase_marker("Setup"));
    let (st, warnings) = statuses(vec![prior(1, 0, "Setup", "done")], vec![fresh(10, 0, "Setup")]);
    assert!(warnings.is_empty(), "nothing lost on an identical merge");
    assert_eq!(st, vec!["done"], "phase completion carried over by marker");

    let tasks = carry_tasks(
        &vec![PriorTask { idx: 0, title: "Init".into(), status: "done".into() }],
        &vec![NewTask { id: 100, idx: 0, title: "Init".into() }],
    );
    let u = tasks[0].as_ref().unwrap();
    assert_eq!((u.id, u.status.as_str()), (100, "done"), "task completion carried over by title");
}

#[test]
fn carry_status_survives_phase_reorder_and_rename() {
    let v1 = vec![prior(1, 0, "Setup", "not_started"), prior(2, 1, "Build", "done")];
    // Reordered: Build moves first; the marker finds it.
    let (st, w2) = statuses(v1, vec![fresh(10, 0, "Build"), fresh(11, 1, "Setup")]);
    assert!(w2.is_empty(), "reorder loses nothing: {w2:?}");
    assert_eq!(st[0], "done", "reordered done phase preserved");

    // Renamed at the same position: the position finds it.
    let v2 = vec![prior(10, 0, "Build", "done"), prior(11, 1, "Setup", "not_started")];
    let (st, w3) = statuses(v2, vec![fresh(20, 0, "Build it"), fresh(21, 1, "Setup")]);
    assert!(w3.is_empty(), "rename at same position loses nothing: {w3:?}");
    assert_eq!(st[0], "done", "renamed done phase carried by position");
}

#[test]
fn carry_status_warns_when_a_completed_phase_is_dropped() {
    let v1 = vec![prior(1, 0, "Keep", "not_started"), prior(2, 1, "Done thing", "done")];
    let (_, warnings) = statuses(v1, vec![fresh(10, 0, "Keep")]);
    assert_eq!(warnings.len(), 1, "the dropped completed phase is surfaced");
    assert!(warnings[0].contains("Done thing"));
    assert_eq!(
        warnings[0],
        "Phase “Done thing” was done but the updated plan dropped it — its progress was not carried."
    );
}

#[test]
fn a_phase_is_inherited_at_most_once() {
    let v1 = vec![prior(1, 0, "Setup", "in_progress")];
    let carry = carry_phases(&v1, &vec![fresh(10, 0, "Setup"), fresh(11, 1, "Setup")]);
    assert_eq!(carry.updates[0].as_ref().map(|u| u.prior_id), Some(1));
    assert!(carry.updates[1].is_none());
    assert!(carry.warnings.is_empty());
}

#[test]
fn unstarted_tasks_write_nothing_and_titles_beat_positions() {
    let prior = vec![
        PriorTask { idx: 0, title: "A".into(), status: "not_started".into() },
        PriorTask { idx: 1, title: "B".into(), status: "done".into() },
    ];
    let news = vec![NewTask { id: 1, idx: 0, title: "B".into() }, NewTask { id: 2, idx: 1, title: "C".into() }];
    let out = carry_tasks(&prior, &news);
    assert_eq!(out[0].as_ref().map(|u| (u.id, u.status.clone())), Some((1, "done".to_string())));
    // "C" falls back to position 1, whose task ("B") is already taken, so nothing.
    assert!(out[1].is_none());
}
