use review_helper::github::{
    check_repo_name, create_failure, gh_token_from,
    classify_poll, git_failure, import_name, more_pages, parse_device_code, parse_repo_ref, refresh,
    repo_from_json, repos_page_url, split_owner_repo, status_clears_token, status_error, clone_args,
    PollOutcome,
};
use review_helper::json::Json;
use review_helper::model::SpawnOutcome;

fn obj(fields: Vec<(&str, Json)>) -> Json {
    Json::Obj(fields.into_iter().map(|(k, v)| (k.to_string(), v)).collect())
}

fn s(v: &str) -> Json {
    Json::Str(v.to_string())
}

#[test]
fn parses_repo_refs_in_several_forms() {
    let expected = Some(("hotredsam".to_string(), "Review-Helper".to_string()));
    assert_eq!(parse_repo_ref("hotredsam/Review-Helper"), expected);
    assert_eq!(parse_repo_ref("https://github.com/hotredsam/Review-Helper"), expected);
    assert_eq!(parse_repo_ref("https://github.com/hotredsam/Review-Helper.git"), expected);
    assert_eq!(parse_repo_ref("https://github.com/hotredsam/Review-Helper/"), expected);
    assert_eq!(parse_repo_ref("git@github.com:hotredsam/Review-Helper.git"), expected);
    assert_eq!(parse_repo_ref("github.com/hotredsam/Review-Helper"), expected);
}

#[test]
fn rejects_bad_refs() {
    assert_eq!(parse_repo_ref("not a url"), None);
    assert_eq!(parse_repo_ref("https://gitlab.com/a/b"), None);
    assert_eq!(parse_repo_ref("just-a-name"), None);
    assert_eq!(parse_repo_ref("a/b/c"), None);
}

#[test]
fn rejects_plaintext_http_github_urls() {
    // http:// is MITM-able; only https/ssh/bare forms are accepted.
    assert_eq!(parse_repo_ref("http://github.com/hotredsam/Review-Helper"), None);
    // The secure forms still parse.
    let expected = Some(("hotredsam".to_string(), "Review-Helper".to_string()));
    assert_eq!(parse_repo_ref("https://github.com/hotredsam/Review-Helper"), expected);
    assert_eq!(parse_repo_ref("hotredsam/Review-Helper"), expected);
}

#[test]
fn split_owner_repo_trims_and_ignores_extra_parts() {
    assert_eq!(split_owner_repo(" a / b /c"), Some(("a".to_string(), "b".to_string())));
    assert_eq!(split_owner_repo("a/"), None);
    assert_eq!(split_owner_repo("/b"), None);
    assert_eq!(split_owner_repo("ab"), None);
}

#[test]
fn parses_a_device_code_response() {
    let v = obj(vec![
        ("device_code", s("abc123")),
        ("user_code", s("WDJB-MJHT")),
        ("verification_uri", s("https://github.com/login/device")),
        ("expires_in", Json::Num("900".into())),
        ("interval", Json::Num("5".into())),
    ]);
    let code = parse_device_code(&v).unwrap();
    assert_eq!(code.user_code, "WDJB-MJHT");
    assert_eq!(code.interval, 5);
}

#[test]
fn missing_fields_error() {
    assert!(parse_device_code(&obj(vec![("user_code", s("X"))])).is_err());
}

#[test]
fn device_code_defaults_apply() {
    let code = parse_device_code(&obj(vec![("device_code", s("d")), ("user_code", s("u"))])).unwrap();
    assert_eq!(code.verification_uri, "https://github.com/login/device");
    assert_eq!(code.expires_in, 900);
    assert_eq!(code.interval, 5);
    assert_eq!(
        parse_device_code(&obj(vec![("device_code", s("d"))])).err().unwrap(),
        "device-code response missing `user_code`"
    );
}

#[test]
fn classifies_all_poll_outcomes() {
    assert!(matches!(
        classify_poll(&obj(vec![("access_token", s("gho_x")), ("token_type", s("bearer"))])),
        PollOutcome::Authorized(t) if t == "gho_x"
    ));
    assert!(matches!(classify_poll(&obj(vec![("error", s("authorization_pending"))])), PollOutcome::Pending));
    assert!(matches!(classify_poll(&obj(vec![("error", s("slow_down"))])), PollOutcome::SlowDown));
    assert!(matches!(classify_poll(&obj(vec![("error", s("access_denied"))])), PollOutcome::Denied));
    assert!(matches!(classify_poll(&obj(vec![("error", s("expired_token"))])), PollOutcome::Expired));
    assert!(matches!(
        classify_poll(&obj(vec![("error", s("device_flow_disabled"))])),
        PollOutcome::Error(_)
    ));
    assert!(matches!(classify_poll(&obj(vec![])), PollOutcome::Error(m) if m == "unexpected token response"));
}

#[test]
fn status_errors_are_friendly() {
    assert_eq!(status_error(401), "GitHub authorization failed (401). Please reconnect.");
    assert_eq!(status_error(429), "GitHub rate limit reached. Try again shortly.");
    assert_eq!(status_error(500), "GitHub API error (500).");
    assert!(status_clears_token(401));
    assert!(!status_clears_token(403));
}

#[test]
fn repo_pages_and_paging() {
    assert!(repos_page_url(3).ends_with("&page=3"));
    assert!(more_pages(1, 100));
    assert!(!more_pages(5, 100));
    assert!(!more_pages(2, 99));
}

#[test]
fn repo_json_defaults_the_branch() {
    let r = repo_from_json(&obj(vec![
        ("full_name", s("o/r")),
        ("name", s("r")),
        ("clone_url", s("https://github.com/o/r.git")),
        ("private", Json::Bool(true)),
        ("description", Json::Null),
    ]))
    .unwrap();
    assert_eq!(r.default_branch, "main");
    assert!(r.private);
    assert!(r.description.is_none());
    assert!(repo_from_json(&obj(vec![("name", s("r"))])).is_none());
}

#[test]
fn git_commands_and_failures() {
    let (fetch, reset) = refresh("dev");
    assert_eq!(fetch, vec!["fetch", "--depth", "1", "origin", "dev"]);
    assert_eq!(reset, vec!["reset", "--hard", "FETCH_HEAD"]);
    assert_eq!(clone_args("u", "d"), vec!["clone", "--depth", "1", "--single-branch", "u", "d"]);
    assert_eq!(git_failure("clone", "  fatal: nope \n"), "git clone failed: fatal: nope");
    assert_eq!(import_name("owner/repo"), "repo");
    assert_eq!(import_name("plain"), "plain");
}

#[test]
fn repo_names_are_trimmed_and_blank_ones_refused() {
    assert_eq!(check_repo_name("  my-app \n").unwrap(), "my-app");
    assert_eq!(check_repo_name(" \t ").unwrap_err(), "Repository name cannot be empty.");
    assert_eq!(check_repo_name("").unwrap_err(), "Repository name cannot be empty.");
}

#[test]
fn creation_failures_name_a_taken_repo() {
    assert_eq!(create_failure(422, "my-app"), "GitHub couldn't create 'my-app' — the name may already be taken.");
    assert_eq!(create_failure(401, "my-app"), "GitHub authorization failed (401). Please reconnect.");
    assert_eq!(create_failure(500, "my-app"), "GitHub API error (500).");
}

#[test]
fn gh_token_is_trimmed_or_explained() {
    let ok = SpawnOutcome::Exited { success: true, code: Some(0), stdout: " tok-abc\n".into(), stderr: String::new() };
    assert_eq!(gh_token_from(ok).unwrap(), "tok-abc");
    let empty = SpawnOutcome::Exited { success: true, code: Some(0), stdout: "\n".into(), stderr: String::new() };
    assert_eq!(gh_token_from(empty).unwrap_err(), "`gh` returned an empty token.");
    let out = SpawnOutcome::Exited { success: false, code: Some(1), stdout: String::new(), stderr: "no".into() };
    assert_eq!(gh_token_from(out).unwrap_err(), "`gh` is not signed in. Run `gh auth login` first.");
    assert_eq!(
        gh_token_from(SpawnOutcome::NotFound).unwrap_err(),
        "GitHub CLI (`gh`) not found. Install it (brew install gh), run `gh auth login`, then retry."
    );
    assert_eq!(gh_token_from(SpawnOutcome::Failed { message: "denied".into() }).unwrap_err(), "denied");
}
