use review_helper::runs::{CancelToken, Registry};

#[test]
fn stop_cancels_a_registered_run() {
    let mut reg = Registry::new();
    let token = reg.register("test:stop");
    assert!(!token.is_cancelled());
    assert!(!reg.is_cancelled(token.id()));
    assert!(reg.stop("test:stop"));
    assert!(token.is_cancelled());
    assert!(reg.is_cancelled(token.id()));
    reg.finish("test:stop", &token);
    assert!(!reg.is_cancelled(token.id()));
}

#[test]
fn stop_of_unknown_key_reports_false() {
    let mut reg = Registry::new();
    assert!(!reg.stop("test:nothing-here"));
}

#[test]
fn re_register_cancels_the_previous_run() {
    let mut reg = Registry::new();
    let first = reg.register("test:dup");
    let second = reg.register("test:dup");
    assert!(first.is_cancelled(), "old run must be cancelled by the new one");
    assert!(reg.is_cancelled(first.id()));
    assert!(!second.is_cancelled());
    assert!(!reg.is_cancelled(second.id()));
    assert!(reg.stop("test:dup"));
    assert!(second.is_cancelled());
    reg.finish("test:dup", &second);
}

#[test]
fn finish_removes_the_key() {
    let mut reg = Registry::new();
    let t = reg.register("test:fin");
    reg.finish("test:fin", &t);
    assert!(!reg.stop("test:fin"));
}

#[test]
fn finishing_a_replaced_run_keeps_the_newer_one() {
    let mut reg = Registry::new();
    let t1 = reg.register("k");
    let t2 = reg.register("k");
    reg.finish("k", &t1);
    assert_eq!(reg.keys(), vec!["k".to_string()]);
    assert!(reg.stop("k"));
    assert!(t2.is_cancelled());
    assert!(reg.is_cancelled(t2.id()));
}

#[test]
fn run_ids_are_fresh() {
    let mut reg = Registry::new();
    assert_eq!(CancelToken::new().id(), 0);
    assert_eq!(reg.next_id(), 1);
    let a = reg.register("a");
    let b = reg.register("b");
    assert_eq!(a.id(), 1);
    assert_eq!(b.id(), 2);
    assert_eq!(reg.next_id(), 3);
}

#[test]
fn keys_lists_each_live_run_once() {
    let mut reg = Registry::new();
    let _a = reg.register("a");
    let _b = reg.register("b");
    let _a2 = reg.register("a");
    let mut keys = reg.keys();
    keys.sort();
    assert_eq!(keys, vec!["a".to_string(), "b".to_string()]);
}

#[test]
fn a_token_cancels_once_and_stays_cancelled() {
    let t = CancelToken::new();
    let c = t.clone();
    assert!(!c.is_cancelled());
    t.cancel();
    assert!(c.is_cancelled());
    t.cancel();
    assert!(c.is_cancelled());
}
