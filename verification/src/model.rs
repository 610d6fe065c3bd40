//! The model-provider layer. All model use goes through `ModelProvider`.
//! Planning/analysis calls are read-only against source: a request carries
//! only read/search tools (never Bash/Edit/Write), so the model can never
//! mutate the user's repository.

use vstd::prelude::*;
use crate::runs::CancelToken;
use crate::text::{
    chars_of, contains_chars, contains_seq, decimal, i64_decimal, lowercase, lowercase_chars,
    push_all, push_str, string_of, trim, trimmed,
};

verus! {

/// Read/search tools a planning call may use.
#[derive(Debug, Clone, Copy, PartialEq, Eq, Structural)]
pub enum Tool {
    Read,
    Grep,
    Glob,
    WebSearch,
    WebFetch,
}

/// The exact tool name the model CLI expects in `--allowedTools`.
pub open spec fn tool_name(t: Tool) -> Seq<char> {
    match t {
        Tool::Read => "Read"@,
        Tool::Grep => "Grep"@,
        Tool::Glob => "Glob"@,
        Tool::WebSearch => "WebSearch"@,
        Tool::WebFetch => "WebFetch"@,
    }
}

impl Tool {
    /// The tool name the model CLI expects in `--allowedTools`.
    pub fn cli_name(self) -> (r: &'static str)
        ensures
            r@ == tool_name(self),
    {
        match self {
            Tool::Read => "Read",
            Tool::Grep => "Grep",
            Tool::Glob => "Glob",
            Tool::WebSearch => "WebSearch",
            Tool::WebFetch => "WebFetch",
        }
    }
}

/// The read-only allow-list every planning/analysis call uses.
pub open spec fn read_only_tools_spec() -> Seq<Tool> {
    seq![Tool::Read, Tool::Grep, Tool::Glob, Tool::WebSearch, Tool::WebFetch]
}

/// The allow-list for grounded (materials-only) calls: no web tools.
pub open spec fn grounded_tools_spec() -> Seq<Tool> {
    seq![Tool::Read, Tool::Grep, Tool::Glob]
}

/// The read-only allow-list every planning/analysis call uses.
pub fn read_only_tools() -> (v: Vec<Tool>)
    ensures
        v@ == read_only_tools_spec(),
{
    let mut v = Vec::new();
    v.push(Tool::Read);
    v.push(Tool::Grep);
    v.push(Tool::Glob);
    v.push(Tool::WebSearch);
    v.push(Tool::WebFetch);
    assert(v@ =~= read_only_tools_spec());
    v
}

/// One model invocation. `session_id` resumes a prior session; `cwd` is the
/// only directory the model may read.
#[derive(Debug, Clone)]
pub struct ModelRequest {
    pub prompt: String,
    pub system_append: Option<String>,
    pub allowed_tools: Vec<Tool>,
    pub session_id: Option<String>,
    pub cwd: Option<String>,
    /// Optional model alias (e.g. "haiku", "sonnet"). `None` = CLI default.
    pub model: Option<String>,
}

impl ModelRequest {
    /// A read-only planning request with the standard allow-list.
    pub fn planning(prompt: &str) -> (r: ModelRequest)
        ensures
            r.prompt@ == prompt@,
            r.system_append is None,
            r.allowed_tools@ == read_only_tools_spec(),
            r.session_id is None,
            r.cwd is None,
            r.model is None,
    {
        ModelRequest {
            prompt: string_of(&chars_of(prompt)),
            system_append: None,
            allowed_tools: read_only_tools(),
            session_id: None,
            cwd: None,
            model: None,
        }
    }

    /// A grounded request: read/search tools only, never the web ones.
    pub fn grounded(prompt: &str) -> (r: ModelRequest)
        ensures
            r.prompt@ == prompt@,
            r.system_append is None,
            r.allowed_tools@ == grounded_tools_spec(),
            r.session_id is None,
            r.cwd is None,
            r.model is None,
    {
        let mut tools = Vec::new();
        tools.push(Tool::Read);
        tools.push(Tool::Grep);
        tools.push(Tool::Glob);
        assert(tools@ =~= grounded_tools_spec());
        ModelRequest {
            prompt: string_of(&chars_of(prompt)),
            system_append: None,
            allowed_tools: tools,
            session_id: None,
            cwd: None,
            model: None,
        }
    }
}

/// Why the provider couldn't run.
#[derive(Debug, Clone, Copy, PartialEq, Eq, Structural)]
pub enum UnavailableReason {
    NotInstalled,
    NotAuthenticated,
    CreditExhausted,
    Unknown,
}

/// Streamed events from a model run, in order, ending in exactly one
/// terminal event (`Completed`, `Unavailable`, `Failed` or `Stopped`).
#[derive(Debug, Clone, PartialEq)]
pub enum ModelEvent {
    /// The run started; `session_id` can be used to resume it later.
    Started { session_id: Option<String>, model: Option<String> },
    /// A chunk of assistant text.
    AssistantText { text: String },
    /// The model invoked a (read-only) tool.
    ToolUse { name: String },
    /// Non-fatal information.
    Notice { message: String },
    /// Terminal: the run finished successfully; `text` is the full answer.
    Completed { session_id: Option<String>, text: String },
    /// Terminal: the provider couldn't run at all.
    Unavailable { reason: UnavailableReason, detail: String },
    /// Terminal: the run started but errored mid-stream.
    Failed { detail: String },
    /// Terminal: the run was cancelled by the user.
    Stopped,
}

pub open spec fn event_is_terminal(e: ModelEvent) -> bool {
    e is Completed || e is Unavailable || e is Failed || e is Stopped
}

impl ModelEvent {
    pub fn is_terminal(&self) -> (b: bool)
        ensures
            b == event_is_terminal(*self),
    {
        match self {
            ModelEvent::Completed { .. } => true,
            ModelEvent::Unavailable { .. } => true,
            ModelEvent::Failed { .. } => true,
            ModelEvent::Stopped => true,
            _ => false,
        }
    }
}

/// The single entry point for all model use. An implementation runs the
/// request and returns its events in order.
pub trait ModelProvider {
    /// Whether `evs` is a run of `req` this provider can produce; a provider
    /// that says nothing of its runs keeps this default.
    open spec fn answers(&self, req: ModelRequest, evs: Seq<ModelEvent>) -> bool {
        true
    }

    /// Whether the provider keeps a record of the requests it was run with
    /// (`calls`); one that keeps none keeps this default.
    open spec fn logs_calls() -> bool {
        false
    }

    /// The requests the provider was run with, oldest first.
    open spec fn calls(&self) -> Seq<ModelRequest> {
        Seq::empty()
    }

    fn run(&mut self, req: &ModelRequest, cancel: &CancelToken) -> (r: Vec<ModelEvent>)
        ensures
            old(self).answers(*req, r@),
            Self::logs_calls() ==> final(self).calls() == old(self).calls().push(*req),
    ;
}

/// One run of `req` took the provider from `before` to `after` and gave `evs`:
/// the provider can answer `req` with `evs`, and a provider that records its
/// requests recorded exactly this one.
pub open spec fn ran_once<P: ModelProvider>(before: P, after: P, req: ModelRequest, evs: Seq<ModelEvent>) -> bool {
    &&& before.answers(req, evs)
    &&& (P::logs_calls() ==> after.calls() == before.calls().push(req))
}

/// A scripted provider for tests and offline work: it returns a fixed
/// sequence of events, and records the requests it was run with.
pub struct FakeProvider {
    pub script: Vec<ModelEvent>,
    pub log: Ghost<Seq<ModelRequest>>,
}

impl FakeProvider {
    pub fn new(script: Vec<ModelEvent>) -> (r: FakeProvider)
        ensures
            r.script == script,
            r.calls() == Seq::<ModelRequest>::empty(),
    {
        FakeProvider { script, log: Ghost(Seq::empty()) }
    }

    /// A canned successful streaming reply.
    pub fn echo() -> (r: FakeProvider)
        ensures
            r.script@.len() == 4,
            r.script@[0] matches ModelEvent::Started { session_id: Some(s), model: Some(m) }
                && s@ == "fake-session"@ && m@ == "fake"@,
            r.script@[1] matches ModelEvent::AssistantText { text } && text@ == "Thinking… "@,
            r.script@[2] matches ModelEvent::AssistantText { text } && text@ == "done."@,
            r.script@[3] matches ModelEvent::Completed { session_id: Some(s), text } && s@
                == "fake-session"@ && text@ == "Thinking… done."@,
    {
        let mut v = Vec::new();
        v.push(
            ModelEvent::Started {
                session_id: Some(string_of(&chars_of("fake-session"))),
                model: Some(string_of(&chars_of("fake"))),
            },
        );
        v.push(ModelEvent::AssistantText { text: string_of(&chars_of("Thinking… ")) });
        v.push(ModelEvent::AssistantText { text: string_of(&chars_of("done.")) });
        v.push(
            ModelEvent::Completed {
                session_id: Some(string_of(&chars_of("fake-session"))),
                text: string_of(&chars_of("Thinking… done.")),
            },
        );
        FakeProvider { script: v, log: Ghost(Seq::empty()) }
    }
}

fn opt_string_copy(o: &Option<String>) -> (r: Option<String>)
    ensures
        r == *o,
{
    match o {
        Some(s) => Some(s.clone()),
        None => None,
    }
}

impl ModelEvent {
    /// An equal event.
    pub fn copied(&self) -> (r: ModelEvent)
        ensures
            r == *self,
    {
        match self {
            ModelEvent::Started { session_id, model } => ModelEvent::Started {
                session_id: opt_string_copy(session_id),
                model: opt_string_copy(model),
            },
            ModelEvent::AssistantText { text } => ModelEvent::AssistantText { text: text.clone() },
            ModelEvent::ToolUse { name } => ModelEvent::ToolUse { name: name.clone() },
            ModelEvent::Notice { message } => ModelEvent::Notice { message: message.clone() },
            ModelEvent::Completed { session_id, text } => ModelEvent::Completed {
                session_id: opt_string_copy(session_id),
                text: text.clone(),
            },
            ModelEvent::Unavailable { reason, detail } => ModelEvent::Unavailable {
                reason: *reason,
                detail: detail.clone(),
            },
            ModelEvent::Failed { detail } => ModelEvent::Failed { detail: detail.clone() },
            ModelEvent::Stopped => ModelEvent::Stopped,
        }
    }
}

impl ModelProvider for FakeProvider {
    /// The script, whatever the request.
    open spec fn answers(&self, req: ModelRequest, evs: Seq<ModelEvent>) -> bool {
        evs == self.script@
    }

    open spec fn logs_calls() -> bool {
        true
    }

    closed spec fn calls(&self) -> Seq<ModelRequest> {
        self.log@
    }

    fn run(&mut self, req: &ModelRequest, _cancel: &CancelToken) -> (r: Vec<ModelEvent>)
        ensures
            r@ == old(self).script@,
            final(self).script == old(self).script,
    {
        let mut out: Vec<ModelEvent> = Vec::new();
        let mut i: usize = 0;
        while i < self.script.len()
            invariant
                i <= self.script@.len(),
                out@ == self.script@.subrange(0, i as int),
            decreases self.script@.len() - i,
        {
            out.push(self.script[i].copied());
            i = i + 1;
            assert(out@ =~= self.script@.subrange(0, i as int));
        }
        assert(self.script@.subrange(0, self.script@.len() as int) =~= self.script@);
        self.log = Ghost(self.log@.push(*req));
        out
    }
}

/// The off-by-default local-model slot: emits one terminal notice.
pub struct LocalStubProvider;

/// The notice the local stub answers every request with.
pub open spec fn local_stub_detail() -> Seq<char> {
    "The local model provider is a configure-me stub in v1. Switch to the CLI provider in Settings to run real calls."@
}

impl LocalStubProvider {
    /// The stub's events for any request.
    pub fn events(&self) -> (r: Vec<ModelEvent>)
        ensures
            r@.len() == 1,
            r@[0] matches ModelEvent::Unavailable { reason, detail } && reason
                == UnavailableReason::Unknown && detail@ == local_stub_detail(),
    {
        let mut v = Vec::new();
        v.push(
            ModelEvent::Unavailable {
                reason: UnavailableReason::Unknown,
                detail: string_of(
                    &chars_of(
                        "The local model provider is a configure-me stub in v1. Switch to the CLI provider in Settings to run real calls.",
                    ),
                ),
            },
        );
        v
    }
}

impl ModelProvider for LocalStubProvider {
    /// One terminal notice, whatever the request.
    open spec fn answers(&self, req: ModelRequest, evs: Seq<ModelEvent>) -> bool {
        &&& evs.len() == 1
        &&& evs[0] matches ModelEvent::Unavailable { reason, detail } && reason
            == UnavailableReason::Unknown && detail@ == local_stub_detail()
    }

    fn run(&mut self, _req: &ModelRequest, _cancel: &CancelToken) -> (r: Vec<ModelEvent>)
        ensures
            r@.len() == 1,
            r@[0] matches ModelEvent::Unavailable { reason, detail } && reason
                == UnavailableReason::Unknown && detail@ == local_stub_detail(),
    {
        self.events()
    }
}

/// Which provider model calls route to.
#[derive(Debug, Clone, Copy, PartialEq, Eq, Structural)]
pub enum ProviderKind {
    Claude,
    Local,
}

/// The persisted model-provider configuration. `local_endpoint` and
/// `api_credit_overflow` are stored and surfaced, with no behavior yet.
#[derive(Debug, Clone, PartialEq)]
pub struct ModelConfig {
    pub provider: ProviderKind,
    pub local_endpoint: Option<String>,
    pub api_credit_overflow: bool,
}

impl ModelConfig {
    /// The default configuration: route to the CLI provider.
    pub fn default_config() -> (r: ModelConfig)
        ensures
            r.provider == ProviderKind::Claude,
            r.local_endpoint is None,
            !r.api_credit_overflow,
    {
        ModelConfig { provider: ProviderKind::Claude, local_endpoint: None, api_credit_overflow: false }
    }
}

/// The model CLI adapter's configuration: the binary to spawn.
#[derive(Debug)]
pub struct ClaudeCodeProvider {
    pub binary: String,
}

/// Tools that must never be available to the model.
pub open spec fn disallowed_tools() -> Seq<char> {
    "Bash,Edit,Write,MultiEdit,NotebookEdit,Task"@
}

/// Comma-joined CLI names of the allowed tools.
pub open spec fn tool_list(ts: Seq<Tool>) -> Seq<char>
    decreases ts.len(),
{
    if ts.len() == 0 {
        Seq::empty()
    } else if ts.len() == 1 {
        tool_name(ts[0])
    } else {
        tool_list(ts.drop_last()) + ","@ + tool_name(ts.last())
    }
}

/// The command-line arguments (after the binary) for a request.
pub open spec fn claude_args(req: ModelRequest) -> Seq<Seq<char>> {
    let base = seq![
        "-p"@,
        "--output-format"@,
        "stream-json"@,
        "--verbose"@,
        "--include-partial-messages"@,
        "--disallowedTools"@,
        disallowed_tools(),
    ];
    let a1 = if req.allowed_tools@.len() > 0 {
        base + seq!["--allowedTools"@, tool_list(req.allowed_tools@)]
    } else {
        base
    };
    let a2 = match req.system_append {
        Some(s) => a1 + seq!["--append-system-prompt"@, s@],
        None => a1,
    };
    let a3 = match req.session_id {
        Some(s) => a2 + seq!["--resume"@, s@],
        None => a2,
    };
    let a4 = match req.model {
        Some(m) => a3 + seq!["--model"@, m@],
        None => a3,
    };
    match req.cwd {
        Some(d) => a4 + seq!["--add-dir"@, d@],
        None => a4,
    }
}

fn push_arg(args: &mut Vec<String>, s: &str)
    ensures
        final(args)@.len() == old(args)@.len() + 1,
        forall|k: int| 0 <= k < old(args)@.len() ==> #[trigger] final(args)@[k] == old(args)@[k],
        final(args)@.last()@ == s@,
{
    args.push(string_of(&chars_of(s)));
}

pub open spec fn args_view(a: Seq<String>) -> Seq<Seq<char>> {
    Seq::new(a.len(), |k: int| a[k]@)
}

fn tool_list_of(ts: &Vec<Tool>) -> (r: Vec<char>)
    ensures
        r@ == tool_list(ts@),
{
    let mut r: Vec<char> = Vec::new();
    let mut i: usize = 0;
    while i < ts.len()
        invariant
            i <= ts@.len(),
            r@ == tool_list(ts@.subrange(0, i as int)),
        decreases ts@.len() - i,
    {
        let ghost p = ts@.subrange(0, i + 1);
        assert(p.drop_last() =~= ts@.subrange(0, i as int));
        if i > 0 {
            push_str(&mut r, ",");
        }
        push_str(&mut r, ts[i].cli_name());
        proof {
            if i == 0 {
                assert(Seq::<char>::empty() + tool_name(ts@[0]) =~= tool_name(ts@[0]));
            }
        }
        i = i + 1;
    }
    assert(ts@.subrange(0, ts@.len() as int) =~= ts@);
    r
}

impl ClaudeCodeProvider {
    /// Override the binary path.
    pub fn with_binary(binary: &str) -> (r: ClaudeCodeProvider)
        ensures
            r.binary@ == binary@,
    {
        ClaudeCodeProvider { binary: string_of(&chars_of(binary)) }
    }

    /// The arguments to pass to the CLI for `req`: headless stream-json
    /// output, the disallow-list always, then the allow-list, system prompt,
    /// session, model and working directory when present.
    pub fn command_args(&self, req: &ModelRequest) -> (r: Vec<String>)
        ensures
            args_view(r@) == claude_args(*req),
    {
        let mut a: Vec<String> = Vec::new();
        push_arg(&mut a, "-p");
        push_arg(&mut a, "--output-format");
        push_arg(&mut a, "stream-json");
        push_arg(&mut a, "--verbose");
        push_arg(&mut a, "--include-partial-messages");
        push_arg(&mut a, "--disallowedTools");
        push_arg(&mut a, "Bash,Edit,Write,MultiEdit,NotebookEdit,Task");
        let ghost base = seq![
            "-p"@,
            "--output-format"@,
            "stream-json"@,
            "--verbose"@,
            "--include-partial-messages"@,
            "--disallowedTools"@,
            disallowed_tools(),
        ];
        assert(args_view(a@) =~= base);
        if req.allowed_tools.len() > 0 {
            push_arg(&mut a, "--allowedTools");
            let tl = tool_list_of(&req.allowed_tools);
            a.push(string_of(&tl));
        }
        let ghost a1 = if req.allowed_tools@.len() > 0 {
            base + seq!["--allowedTools"@, tool_list(req.allowed_tools@)]
        } else {
            base
        };
        assert(args_view(a@) =~= a1);
        if let Some(s) = &req.system_append {
            push_arg(&mut a, "--append-system-prompt");
            a.push(s.clone());
        }
        let ghost a2 = match &req.system_append {
            Some(s) => a1 + seq!["--append-system-prompt"@, s@],
            None => a1,
        };
        assert(args_view(a@) =~= a2);
        if let Some(s) = &req.session_id {
            push_arg(&mut a, "--resume");
            a.push(s.clone());
        }
        let ghost a3 = match &req.session_id {
            Some(s) => a2 + seq!["--resume"@, s@],
            None => a2,
        };
        assert(args_view(a@) =~= a3);
        if let Some(m) = &req.model {
            push_arg(&mut a, "--model");
            a.push(m.clone());
        }
        let ghost a4 = match &req.model {
            Some(m) => a3 + seq!["--model"@, m@],
            None => a3,
        };
        assert(args_view(a@) =~= a4);
        if let Some(d) = &req.cwd {
            push_arg(&mut a, "--add-dir");
            a.push(d.clone());
        }
        assert(args_view(a@) =~= claude_args(*req));
        a
    }
}

/// The provider a configuration routes to.
pub enum ProviderChoice {
    Claude(ClaudeCodeProvider),
    Local(LocalStubProvider),
}

/// The single place the active provider is chosen, from the configuration;
/// `cli` is the executable the CLI provider spawns.
pub fn provider_for(config: &ModelConfig, cli: &str) -> (r: ProviderChoice)
    ensures
        config.provider == ProviderKind::Claude ==> (r matches ProviderChoice::Claude(c) && c.binary@ == cli@),
        config.provider == ProviderKind::Local ==> r is Local,
{
    match config.provider {
        ProviderKind::Claude => ProviderChoice::Claude(ClaudeCodeProvider::with_binary(cli)),
        ProviderKind::Local => ProviderChoice::Local(LocalStubProvider),
    }
}

/// Classify a CLI error text into why the provider is unavailable.
pub open spec fn classify_stderr_spec(detail: Seq<char>) -> UnavailableReason {
    let d = lowercase(detail);
    if contains_seq(d, "not found"@) || contains_seq(d, "no such file"@) {
        UnavailableReason::NotInstalled
    } else if contains_seq(d, "auth"@) || contains_seq(d, "log in"@) || contains_seq(d, "login"@)
        || contains_seq(d, "unauthorized"@) {
        UnavailableReason::NotAuthenticated
    } else if contains_seq(d, "credit"@) || contains_seq(d, "quota"@) || contains_seq(
        d,
        "rate limit"@,
    ) {
        UnavailableReason::CreditExhausted
    } else {
        UnavailableReason::Unknown
    }
}

fn has(d: &Vec<char>, s: &str) -> (b: bool)
    ensures
        b == contains_seq(d@, s@),
{
    let n = chars_of(s);
    contains_chars(d, &n)
}

pub fn classify_stderr(detail: &str) -> (r: UnavailableReason)
    ensures
        r == classify_stderr_spec(detail@),
{
    let d = lowercase_chars(&chars_of(detail));
    if has(&d, "not found") || has(&d, "no such file") {
        UnavailableReason::NotInstalled
    } else if has(&d, "auth") || has(&d, "log in") || has(&d, "login") || has(&d, "unauthorized") {
        UnavailableReason::NotAuthenticated
    } else if has(&d, "credit") || has(&d, "quota") || has(&d, "rate limit") {
        UnavailableReason::CreditExhausted
    } else {
        UnavailableReason::Unknown
    }
}

/// What one run's events amount to: the last failure detail if any event
/// failed (a stop reads as "Stopped."), else the last completed text, else
/// the no-result error.
pub open spec fn outcome_state(evs: Seq<ModelEvent>) -> (Option<Seq<char>>, Option<Seq<char>>)
    decreases evs.len(),
{
    if evs.len() == 0 {
        (None, None)
    } else {
        let st = outcome_state(evs.drop_last());
        match evs.last() {
            ModelEvent::Completed { text, .. } => (Some(text@), st.1),
            ModelEvent::Unavailable { detail, .. } => (st.0, Some(detail@)),
            ModelEvent::Failed { detail } => (st.0, Some(detail@)),
            ModelEvent::Stopped => (st.0, Some("Stopped."@)),
            _ => st,
        }
    }
}

pub open spec fn outcome_spec(evs: Seq<ModelEvent>) -> Result<Seq<char>, Seq<char>> {
    let st = outcome_state(evs);
    match st.1 {
        Some(d) => Err(d),
        None => match st.0 {
            Some(t) => Ok(t),
            None => Err("The model produced no result."@),
        },
    }
}

pub open spec fn result_view(r: Result<String, String>) -> Result<Seq<char>, Seq<char>> {
    match r {
        Ok(s) => Ok(s@),
        Err(e) => Err(e@),
    }
}

/// The final text of a run, or a clear error on the offline / unavailable /
/// failed / stopped / empty paths.
pub fn outcome(evs: &Vec<ModelEvent>) -> (r: Result<String, String>)
    ensures
        result_view(r) == outcome_spec(evs@),
{
    let mut text: Option<Vec<char>> = None;
    let mut failure: Option<Vec<char>> = None;
    let mut i: usize = 0;
    while i < evs.len()
        invariant
            i <= evs@.len(),
            outcome_state(evs@.subrange(0, i as int)).0 == match text {
                Some(t) => Some(t@),
                None => None::<Seq<char>>,
            },
            outcome_state(evs@.subrange(0, i as int)).1 == match failure {
                Some(t) => Some(t@),
                None => None::<Seq<char>>,
            },
        decreases evs@.len() - i,
    {
        assert(evs@.subrange(0, i + 1).drop_last() =~= evs@.subrange(0, i as int));
        match &evs[i] {
            ModelEvent::Completed { text: t, .. } => {
                text = Some(chars_of(t.as_str()));
            },
            ModelEvent::Unavailable { detail, .. } => {
                failure = Some(chars_of(detail.as_str()));
            },
            ModelEvent::Failed { detail } => {
                failure = Some(chars_of(detail.as_str()));
            },
            ModelEvent::Stopped => {
                failure = Some(chars_of("Stopped."));
            },
            _ => {},
        }
        i = i + 1;
    }
    assert(evs@.subrange(0, evs@.len() as int) =~= evs@);
    match failure {
        Some(d) => Err(string_of(&d)),
        None => match text {
            Some(t) => Ok(string_of(&t)),
            None => Err(string_of(&chars_of("The model produced no result."))),
        },
    }
}

/// A read-only planning request for `prompt` with `system` appended.
pub open spec fn system_request(req: ModelRequest, prompt: Seq<char>, system: Seq<char>) -> bool {
    &&& req.prompt@ == prompt
    &&& (req.system_append matches Some(s) && s@ == system)
    &&& req.allowed_tools@ == read_only_tools_spec()
    &&& req.session_id is None
    &&& req.cwd is None
    &&& req.model is None
}

/// A planning request with a system prompt appended.
pub fn request_with_system(prompt: &str, system: &str) -> (r: ModelRequest)
    ensures
        system_request(r, prompt@, system@),
{
    let mut req = ModelRequest::planning(prompt);
    req.system_append = Some(string_of(&chars_of(system)));
    req
}

/// Run one model turn with read-only tools and a system prompt, and return
/// its final text (see `outcome`).
pub fn run_once<P: ModelProvider>(
    provider: &mut P,
    prompt: &str,
    system: &str,
    cancel: &CancelToken,
) -> (r: Result<String, String>)
    ensures
        exists|req: ModelRequest, evs: Seq<ModelEvent>|
            #![trigger ran_once(*old(provider), *final(provider), req, evs)]
            system_request(req, prompt@, system@) && ran_once(*old(provider), *final(provider), req, evs)
                && result_view(r) == outcome_spec(evs),
{
    let req = request_with_system(prompt, system);
    let evs = provider.run(&req, cancel);
    assert(ran_once(*old(provider), *provider, req, evs@));
    outcome(&evs)
}

/// Run a prepared request and return its final text (see `outcome`).
pub fn run_req<P: ModelProvider>(provider: &mut P, req: &ModelRequest, cancel: &CancelToken) -> (r:
    Result<String, String>)
    ensures
        exists|evs: Seq<ModelEvent>|
            #![trigger ran_once(*old(provider), *final(provider), *req, evs)]
            ran_once(*old(provider), *final(provider), *req, evs) && result_view(r) == outcome_spec(evs),
{
    let evs = provider.run(req, cancel);
    assert(ran_once(*old(provider), *provider, *req, evs@));
    outcome(&evs)
}

/// The tool a progress event names, if it is a tool use.
pub open spec fn tool_of(ev: ModelEvent) -> Option<Seq<char>> {
    match ev {
        ModelEvent::ToolUse { name } => Some(name@),
        _ => None,
    }
}

pub fn tool_used(ev: &ModelEvent) -> (r: Option<String>)
    ensures
        match r {
            Some(n) => tool_of(*ev) == Some(n@),
            None => tool_of(*ev) is None,
        },
{
    match ev {
        ModelEvent::ToolUse { name } => Some(name.clone()),
        _ => None,
    }
}

/// What a provider probe found.
#[derive(Debug)]
pub struct ModelStatus {
    pub provider: ProviderKind,
    pub available: bool,
    pub version: Option<String>,
    pub reason: Option<UnavailableReason>,
    pub command: String,
    pub exit_code: Option<i32>,
    pub stderr: String,
}

/// What running the CLI binary came to: it ran and exited, it was not
/// found, or it could not be started for another reason.
#[derive(Debug, Clone)]
pub enum SpawnOutcome {
    Exited { success: bool, code: Option<i32>, stdout: String, stderr: String },
    NotFound,
    Failed { message: String },
}

/// The text of a binary that was not found.
pub open spec fn not_found_detail(binary: Seq<char>) -> Seq<char> {
    "`"@ + binary + "` was not found on PATH."@
}

/// An exit code as `{:?}` renders an `Option<i32>`.
pub open spec fn status_text(code: Option<i32>) -> Seq<char> {
    match code {
        Some(n) => "Some("@ + decimal(n as int) + ")"@,
        None => "None"@,
    }
}

/// Why a run that produced no terminal event ended: its trimmed stderr, or,
/// when that is blank, a note with the exit status.
pub open spec fn missing_result_detail(binary: Seq<char>, stderr: Seq<char>, code: Option<i32>) -> Seq<char> {
    if trim(stderr).len() == 0 {
        binary + " exited without a result (status "@ + status_text(code) + ")."@
    } else {
        trim(stderr)
    }
}

fn status_chars(code: Option<i32>) -> (r: Vec<char>)
    ensures
        r@ == status_text(code),
{
    let mut r: Vec<char> = Vec::new();
    match code {
        Some(n) => {
            push_str(&mut r, "Some(");
            let d = i64_decimal(n as i64);
            push_all(&mut r, &d);
            push_str(&mut r, ")");
        },
        None => {
            push_str(&mut r, "None");
        },
    }
    assert(r@ =~= status_text(code));
    r
}

fn not_found_chars(binary: &str) -> (r: Vec<char>)
    ensures
        r@ == not_found_detail(binary@),
{
    let mut r: Vec<char> = Vec::new();
    push_str(&mut r, "`");
    push_str(&mut r, binary);
    push_str(&mut r, "` was not found on PATH.");
    assert(r@ =~= not_found_detail(binary@));
    r
}

impl ClaudeCodeProvider {
    /// The event for a binary that could not be started: not installed when
    /// it was not found, otherwise unknown with the error's text.
    pub fn spawn_failure(&self, not_found: bool, message: &str) -> (e: ModelEvent)
        ensures
            not_found ==> (e matches ModelEvent::Unavailable { reason, detail }
                && reason == UnavailableReason::NotInstalled && detail@ == not_found_detail(self.binary@)),
            !not_found ==> (e matches ModelEvent::Unavailable { reason, detail }
                && reason == UnavailableReason::Unknown && detail@ == message@),
    {
        if not_found {
            let d = not_found_chars(self.binary.as_str());
            ModelEvent::Unavailable { reason: UnavailableReason::NotInstalled, detail: string_of(&d) }
        } else {
            ModelEvent::Unavailable {
                reason: UnavailableReason::Unknown,
                detail: string_of(&chars_of(message)),
            }
        }
    }

    /// The event for a run whose output held no terminal event: unavailable,
    /// explained by its stderr (or its exit status), and classified by it.
    pub fn missing_result(&self, stderr: &str, code: Option<i32>) -> (e: ModelEvent)
        ensures
            e matches ModelEvent::Unavailable { reason, detail }
                && detail@ == missing_result_detail(self.binary@, stderr@, code)
                && reason == classify_stderr_spec(detail@),
    {
        let t = trimmed(&chars_of(stderr));
        let mut d: Vec<char> = Vec::new();
        if t.len() == 0 {
            push_str(&mut d, self.binary.as_str());
            push_str(&mut d, " exited without a result (status ");
            let st = status_chars(code);
            push_all(&mut d, &st);
            push_str(&mut d, ").");
        } else {
            push_all(&mut d, &t);
        }
        assert(d@ =~= missing_result_detail(self.binary@, stderr@, code));
        let detail = string_of(&d);
        let reason = classify_stderr(detail.as_str());
        ModelEvent::Unavailable { reason, detail }
    }
}

/// The status of the local stub: always available, nothing to probe.
pub fn local_status() -> (s: ModelStatus)
    ensures
        s.provider == ProviderKind::Local,
        s.available,
        s.version is None,
        s.reason is None,
        s.command@ == "(local stub)"@,
        s.exit_code == Some(0i32),
        s.stderr@.len() == 0,
{
    ModelStatus {
        provider: ProviderKind::Local,
        available: true,
        version: None,
        reason: None,
        command: string_of(&chars_of("(local stub)")),
        exit_code: Some(0),
        stderr: String::new(),
    }
}

/// The probe command for `binary`.
pub open spec fn probe_command(binary: Seq<char>) -> Seq<char> {
    binary + " --version"@
}

/// What probing the CLI `binary` with `--version` says of it.
pub fn probe_status(binary: &str, outcome: SpawnOutcome) -> (s: ModelStatus)
    ensures
        s.provider == ProviderKind::Claude,
        s.command@ == probe_command(binary@),
        match outcome {
            SpawnOutcome::Exited { success, code, stdout, stderr } => {
                &&& s.available == success
                &&& s.exit_code == code
                &&& s.stderr@ == trim(stderr@)
                &&& (success ==> (s.version matches Some(v) && v@ == trim(stdout@)))
                &&& (!success ==> s.version is None)
                &&& (success ==> s.reason is None)
                &&& (!success ==> s.reason == Some(classify_stderr_spec(trim(stderr@))))
            },
            SpawnOutcome::NotFound => {
                &&& !s.available
                &&& s.version is None
                &&& s.reason == Some(UnavailableReason::NotInstalled)
                &&& s.exit_code is None
                &&& s.stderr@ == not_found_detail(binary@)
            },
            SpawnOutcome::Failed { message } => {
                &&& !s.available
                &&& s.version is None
                &&& s.reason == Some(UnavailableReason::Unknown)
                &&& s.exit_code is None
                &&& s.stderr@ == message@
            },
        },
{
    let mut c: Vec<char> = chars_of(binary);
    push_str(&mut c, " --version");
    assert(c@ =~= probe_command(binary@));
    let command = string_of(&c);
    match outcome {
        SpawnOutcome::Exited { success, code, stdout, stderr } => {
            let err = string_of(&trimmed(&chars_of(stderr.as_str())));
            let version = if success {
                Some(string_of(&trimmed(&chars_of(stdout.as_str()))))
            } else {
                None
            };
            let reason = if success {
                None
            } else {
                Some(classify_stderr(err.as_str()))
            };
            ModelStatus {
                provider: ProviderKind::Claude,
                available: success,
                version,
                reason,
                command,
                exit_code: code,
                stderr: err,
            }
        },
        SpawnOutcome::NotFound => ModelStatus {
            provider: ProviderKind::Claude,
            available: false,
            version: None,
            reason: Some(UnavailableReason::NotInstalled),
            command,
            exit_code: None,
            stderr: string_of(&not_found_chars(binary)),
        },
        SpawnOutcome::Failed { message } => ModelStatus {
            provider: ProviderKind::Claude,
            available: false,
            version: None,
            reason: Some(UnavailableReason::Unknown),
            command,
            exit_code: None,
            stderr: message,
        },
    }
}

} // verus!
