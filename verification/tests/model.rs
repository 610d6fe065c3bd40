use review_helper::model::{
    local_status, outcome, probe_status, SpawnOutcome,
    classify_stderr, provider_for, ClaudeCodeProvider, FakeProvider, LocalStubProvider, ModelConfig,
    ModelEvent, ModelProvider, ModelRequest, ProviderChoice, ProviderKind, Tool, UnavailableReason,
};
use review_helper::runs::CancelToken;

fn collect<P: ModelProvider>(mut provider: P, req: &ModelRequest) -> Vec<ModelEvent> {
    provider.run(req, &CancelToken::new())
}

#[test]
fn streams_ordered_events_ending_in_one_terminal() {
    let provider = FakeProvider::echo();
    let events = collect(provider, &ModelRequest::planning("hello"));
    assert!(matches!(events.first().unwrap(), ModelEvent::Started { .. }));
    assert!(events.last().unwrap().is_terminal());
    // exactly one terminal event, and it is last
    assert_eq!(events.iter().filter(|e| e.is_terminal()).count(), 1);
    // assistant text arrives in order and reassembles the full answer
    let text: String = events
        .iter()
        .filter_map(|e| match e {
            ModelEvent::AssistantText { text } => Some(text.as_str()),
            _ => None,
        })
        .collect();
    assert_eq!(text, "Thinking… done.");
}

#[test]
fn planning_request_uses_the_read_only_allow_list() {
    let req = ModelRequest::planning("x");
    assert_eq!(
        req.allowed_tools,
        vec![Tool::Read, Tool::Grep, Tool::Glob, Tool::WebSearch, Tool::WebFetch]
    );
}

#[test]
fn a_scripted_unavailable_is_terminal() {
    let provider = FakeProvider::new(vec![ModelEvent::Unavailable {
        reason: UnavailableReason::NotInstalled,
        detail: "model cli not found".into(),
    }]);
    let events = collect(provider, &ModelRequest::planning("x"));
    assert_eq!(events.len(), 1);
    assert!(events[0].is_terminal());
}

#[test]
fn stub_emits_one_terminal_notice() {
    let provider = LocalStubProvider;
    let events = collect(provider, &ModelRequest::planning("hi"));
    assert_eq!(events.len(), 1);
    assert!(matches!(events[0], ModelEvent::Unavailable { .. }));
    assert!(events[0].is_terminal());
}

#[test]
fn routes_local_config_to_the_stub() {
    let config = ModelConfig {
        provider: ProviderKind::Local,
        local_endpoint: None,
        api_credit_overflow: false,
    };
    let events = match provider_for(&config, "model-cli") {
        ProviderChoice::Local(p) => collect(p, &ModelRequest::planning("hi")),
        ProviderChoice::Claude(_) => panic!("a local configuration must route to the stub"),
    };
    assert_eq!(events.len(), 1);
    assert!(matches!(events[0], ModelEvent::Unavailable { .. }));
}

#[test]
fn classify_stderr_detects_reasons() {
    assert_eq!(classify_stderr("command not found"), UnavailableReason::NotInstalled);
    assert_eq!(
        classify_stderr("Authentication failed, please log in"),
        UnavailableReason::NotAuthenticated
    );
    assert_eq!(classify_stderr("you are rate limited"), UnavailableReason::CreditExhausted);
    assert_eq!(classify_stderr("weird thing"), UnavailableReason::Unknown);
}

#[test]
fn default_config_routes_to_the_cli() {
    let config = ModelConfig::default_config();
    match provider_for(&config, "model-cli") {
        ProviderChoice::Claude(c) => assert_eq!(c.binary, "model-cli"),
        ProviderChoice::Local(_) => panic!("the default configuration routes to the CLI"),
    }
}

#[test]
fn command_args_are_read_only_and_carry_the_system_prompt() {
    let p = ClaudeCodeProvider::with_binary("my-cli");
    assert_eq!(p.binary, "my-cli");
    let mut req = ModelRequest::planning("hello");
    req.system_append = Some("be brief".into());
    let args = p.command_args(&req);
    assert!(args.iter().any(|a| a == "Read,Grep,Glob,WebSearch,WebFetch"), "{args:?}");
    assert!(args.iter().any(|a| a == "be brief"), "{args:?}");
}

#[test]
fn tool_cli_names() {
    assert_eq!(Tool::Read.cli_name(), "Read");
    assert_eq!(Tool::WebFetch.cli_name(), "WebFetch");
}

#[test]
fn outcome_reports_completed_text_or_the_failure() {
    let ok = outcome(&vec![ModelEvent::Completed { session_id: None, text: "hi".into() }]);
    assert_eq!(ok, Ok("hi".to_string()));
    let failed = outcome(&vec![ModelEvent::Failed { detail: "boom".into() }]);
    assert_eq!(failed, Err("boom".to_string()));
    let none = outcome(&vec![]);
    assert_eq!(none, Err("The model produced no result.".to_string()));
    let stopped = outcome(&vec![ModelEvent::Stopped]);
    assert_eq!(stopped, Err("Stopped.".to_string()));
}

#[test]
fn not_installed_binary_yields_unavailable() {
    let provider = ClaudeCodeProvider::with_binary("definitely-not-a-real-binary-xyz");
    match provider.spawn_failure(true, "No such file or directory (os error 2)") {
        ModelEvent::Unavailable { reason, detail } => {
            assert_eq!(reason, UnavailableReason::NotInstalled);
            assert_eq!(detail, "`definitely-not-a-real-binary-xyz` was not found on PATH.");
        }
        other => panic!("unexpected {other:?}"),
    }
    match provider.spawn_failure(false, "permission denied") {
        ModelEvent::Unavailable { reason, detail } => {
            assert_eq!(reason, UnavailableReason::Unknown);
            assert_eq!(detail, "permission denied");
        }
        other => panic!("unexpected {other:?}"),
    }
}

#[test]
fn run_without_result_is_explained_by_stderr_or_status() {
    let provider = ClaudeCodeProvider::with_binary("cli");
    match provider.missing_result("  Please log in first.\n", Some(1)) {
        ModelEvent::Unavailable { reason, detail } => {
            assert_eq!(reason, UnavailableReason::NotAuthenticated);
            assert_eq!(detail, "Please log in first.");
        }
        other => panic!("unexpected {other:?}"),
    }
    match provider.missing_result("   ", Some(-3)) {
        ModelEvent::Unavailable { reason, detail } => {
            assert_eq!(reason, UnavailableReason::Unknown);
            assert_eq!(detail, "cli exited without a result (status Some(-3)).");
        }
        other => panic!("unexpected {other:?}"),
    }
    match provider.missing_result("", None) {
        ModelEvent::Unavailable { detail, .. } => {
            assert_eq!(detail, "cli exited without a result (status None).");
        }
        other => panic!("unexpected {other:?}"),
    }
}

#[test]
fn probe_of_missing_binary_is_unavailable() {
    let status = probe_status("definitely-not-a-real-binary-xyz", SpawnOutcome::NotFound);
    assert!(!status.available);
    assert_eq!(status.reason, Some(UnavailableReason::NotInstalled));
    assert!(status.version.is_none());
    assert!(status.command.contains("--version"));
    assert_eq!(status.stderr, "`definitely-not-a-real-binary-xyz` was not found on PATH.");
}

#[test]
fn probe_reports_version_or_classified_failure() {
    let ok = probe_status(
        "cli",
        SpawnOutcome::Exited { success: true, code: Some(0), stdout: " 2.1.0 (CLI)\n".into(), stderr: String::new() },
    );
    assert!(ok.available);
    assert_eq!(ok.version.as_deref(), Some("2.1.0 (CLI)"));
    assert_eq!(ok.reason, None);
    assert_eq!(ok.command, "cli --version");
    assert_eq!(ok.exit_code, Some(0));

    let bad = probe_status(
        "cli",
        SpawnOutcome::Exited { success: false, code: Some(2), stdout: String::new(), stderr: " Quota exceeded \n".into() },
    );
    assert!(!bad.available);
    assert!(bad.version.is_none());
    assert_eq!(bad.reason, Some(UnavailableReason::CreditExhausted));
    assert_eq!(bad.stderr, "Quota exceeded");
    assert_eq!(bad.exit_code, Some(2));

    let failed = probe_status("cli", SpawnOutcome::Failed { message: "permission denied".into() });
    assert_eq!(failed.reason, Some(UnavailableReason::Unknown));
    assert_eq!(failed.stderr, "permission denied");
    assert_eq!(failed.exit_code, None);
}

#[test]
fn local_stub_status_is_available() {
    let s = local_status();
    assert_eq!(s.provider, ProviderKind::Local);
    assert!(s.available);
    assert_eq!(s.command, "(local stub)");
    assert_eq!(s.exit_code, Some(0));
}
