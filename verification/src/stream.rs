//! Reading the model CLI's `stream-json` output: each line, once parsed
//! into a JSON tree, becomes at most one `ModelEvent`.

use vstd::prelude::*;
use crate::json::{bool_of, get, get_bool, get_field, get_i64, get_str, i64_of, str_field_is, str_of, Json};
use crate::model::{ClaudeCodeProvider, ModelEvent, UnavailableReason};
use crate::text::{chars_of, string_of};

verus! {

pub open spec fn opt_view(o: Option<String>) -> Option<Seq<char>> {
    match o {
        Some(s) => Some(s@),
        None => None,
    }
}

/// The string member `j[key]`.
pub open spec fn text_at(j: Json, key: Seq<char>) -> Option<Seq<char>> {
    str_of(get(j, key))
}

/// The member `j[key]` of an optional value.
pub open spec fn get_in(j: Option<Json>, key: Seq<char>) -> Option<Json> {
    match j {
        Some(v) => get(v, key),
        None => None,
    }
}

/// The event a `result` line stands for: a successful result completes the
/// run with its text; an error is a credit problem when the API status is
/// 402 or 429, a failure otherwise.
pub open spec fn result_event_is(v: Json, e: ModelEvent) -> bool {
    let sid = text_at(v, "session_id"@);
    let is_error = match bool_of(get(v, "is_error"@)) {
        Some(b) => b,
        None => false,
    };
    let success = text_at(v, "subtype"@) == Some("success"@);
    if success && !is_error {
        e matches ModelEvent::Completed { session_id, text } && opt_view(session_id) == sid && text@ == match text_at(
            v,
            "result"@,
        ) {
            Some(t) => t,
            None => Seq::empty(),
        }
    } else {
        let detail = match text_at(v, "result"@) {
            Some(t) => t,
            None => "the model returned an error"@,
        };
        let status = i64_of(get(v, "api_error_status"@));
        if status == Some(402i64) || status == Some(429i64) {
            e matches ModelEvent::Unavailable { reason, detail: d } && reason == UnavailableReason::CreditExhausted
                && d@ == detail
        } else {
            e matches ModelEvent::Failed { detail: d } && d@ == detail
        }
    }
}

fn opt_string(s: Option<&String>) -> (r: Option<String>)
    ensures
        opt_view(r) == match s {
            Some(t) => Some(t@),
            None => None,
        },
{
    match s {
        Some(t) => Some(t.clone()),
        None => None,
    }
}

/// The event of a parsed `result` line.
pub fn result_event(v: &Json) -> (e: ModelEvent)
    ensures
        result_event_is(*v, e),
{
    let session_id = opt_string(get_str(v, "session_id"));
    let is_error = match get_bool(v, "is_error") {
        Some(b) => b,
        None => false,
    };
    let success = str_field_is(v, "subtype", "success");
    if success && !is_error {
        let text = match get_str(v, "result") {
            Some(t) => t.clone(),
            None => String::new(),
        };
        return ModelEvent::Completed { session_id, text };
    }
    let detail = match get_str(v, "result") {
        Some(t) => t.clone(),
        None => string_of(&chars_of("the model returned an error")),
    };
    match get_i64(v, "api_error_status") {
        Some(s) => if s == 402 || s == 429 {
            ModelEvent::Unavailable { reason: UnavailableReason::CreditExhausted, detail }
        } else {
            ModelEvent::Failed { detail }
        },
        None => ModelEvent::Failed { detail },
    }
}

/// The name of the first `tool_use` block among `blocks`, if any (a block
/// without a name reads as "tool").
pub open spec fn first_tool_use(blocks: Seq<Json>) -> Option<Seq<char>>
    decreases blocks.len(),
{
    if blocks.len() == 0 {
        None
    } else if text_at(blocks[0], "type"@) == Some("tool_use"@) {
        Some(
            match text_at(blocks[0], "name"@) {
                Some(n) => n,
                None => "tool"@,
            },
        )
    } else {
        first_tool_use(blocks.drop_first())
    }
}

/// The text of a streamed `content_block_delta` event carrying a text delta.
pub open spec fn delta_text(event: Option<Json>) -> Option<Seq<char>> {
    if str_of(get_in(event, "type"@)) == Some("content_block_delta"@) {
        let delta = get_in(event, "delta"@);
        if str_of(get_in(delta, "type"@)) == Some("text_delta"@) {
            str_of(get_in(delta, "text"@))
        } else {
            None
        }
    } else {
        None
    }
}

/// The content blocks of an `assistant` line's message.
pub open spec fn message_blocks(v: Json) -> Option<Seq<Json>> {
    match get_in(get(v, "message"@), "content"@) {
        Some(Json::Arr(a)) => Some(a@),
        _ => None,
    }
}

/// The event a parsed line stands for, by its `type`: the `system` init line
/// starts the run, a streamed text delta is assistant text, an `assistant`
/// message reports its first tool use, a `result` ends the run; anything
/// else is skipped.
pub open spec fn line_event_is(v: Json, r: Option<ModelEvent>) -> bool {
    let ty = text_at(v, "type"@);
    if ty == Some("system"@) && text_at(v, "subtype"@) == Some("init"@) {
        r matches Some(ModelEvent::Started { session_id, model }) && opt_view(session_id) == text_at(v, "session_id"@)
            && opt_view(model) == text_at(v, "model"@)
    } else if ty == Some("stream_event"@) {
        match delta_text(get(v, "event"@)) {
            Some(t) => r matches Some(ModelEvent::AssistantText { text }) && text@ == t,
            None => r is None,
        }
    } else if ty == Some("assistant"@) {
        match message_blocks(v) {
            Some(blocks) => match first_tool_use(blocks) {
                Some(n) => r matches Some(ModelEvent::ToolUse { name }) && name@ == n,
                None => r is None,
            },
            None => r is None,
        }
    } else if ty == Some("result"@) {
        r matches Some(e) && result_event_is(v, e)
    } else {
        r is None
    }
}

fn delta_event(event: Option<&Json>) -> (r: Option<ModelEvent>)
    ensures
        match delta_text(
            match event {
                Some(e) => Some(*e),
                None => None,
            },
        ) {
            Some(t) => r matches Some(ModelEvent::AssistantText { text }) && text@ == t,
            None => r is None,
        },
{
    let ev = match event {
        Some(e) => e,
        None => {
            return None;
        },
    };
    if !str_field_is(ev, "type", "content_block_delta") {
        return None;
    }
    let delta = match get_field(ev, "delta") {
        Some(d) => d,
        None => {
            return None;
        },
    };
    if !str_field_is(delta, "type", "text_delta") {
        return None;
    }
    match get_str(delta, "text") {
        Some(t) => Some(ModelEvent::AssistantText { text: t.clone() }),
        None => None,
    }
}

fn tool_use_event(blocks: &Vec<Json>) -> (r: Option<ModelEvent>)
    ensures
        match first_tool_use(blocks@) {
            Some(n) => r matches Some(ModelEvent::ToolUse { name }) && name@ == n,
            None => r is None,
        },
{
    let mut i: usize = 0;
    assert(blocks@.subrange(0, blocks@.len() as int) =~= blocks@);
    while i < blocks.len()
        invariant
            i <= blocks@.len(),
            first_tool_use(blocks@) == first_tool_use(blocks@.subrange(i as int, blocks@.len() as int)),
        decreases blocks@.len() - i,
    {
        let ghost rest = blocks@.subrange(i as int, blocks@.len() as int);
        assert(rest.drop_first() =~= blocks@.subrange(i + 1, blocks@.len() as int));
        assert(rest[0] == blocks@[i as int]);
        if str_field_is(&blocks[i], "type", "tool_use") {
            let name = match get_str(&blocks[i], "name") {
                Some(n) => n.clone(),
                None => string_of(&chars_of("tool")),
            };
            return Some(ModelEvent::ToolUse { name });
        }
        i = i + 1;
    }
    assert(blocks@.subrange(i as int, blocks@.len() as int).len() == 0);
    None
}

/// The event of one parsed output line (see `line_event_is`).
pub fn line_event(v: &Json) -> (r: Option<ModelEvent>)
    ensures
        line_event_is(*v, r),
{
    if str_field_is(v, "type", "system") && str_field_is(v, "subtype", "init") {
        return Some(
            ModelEvent::Started {
                session_id: opt_string(get_str(v, "session_id")),
                model: opt_string(get_str(v, "model")),
            },
        );
    }
    if str_field_is(v, "type", "stream_event") {
        return delta_event(get_field(v, "event"));
    }
    if str_field_is(v, "type", "assistant") {
        let content = match get_field(v, "message") {
            Some(m) => get_field(m, "content"),
            None => None,
        };
        return match content {
            Some(Json::Arr(blocks)) => tool_use_event(blocks),
            _ => None,
        };
    }
    if str_field_is(v, "type", "result") {
        return Some(result_event(v));
    }
    None
}

/// Law: a `result` line always ends the run: whatever else it holds, the
/// event it stands for is terminal, and no other kind of line is.
pub proof fn law_result_lines_end_the_run(v: Json, r: Option<ModelEvent>)
    requires
        line_event_is(v, r),
    ensures
        r matches Some(e) ==> (crate::model::event_is_terminal(e) <==> text_at(v, "type"@) == Some("result"@)),
        text_at(v, "type"@) == Some("result"@) ==> r is Some,
{
    reveal_strlit("result");
    reveal_strlit("system");
    reveal_strlit("stream_event");
    reveal_strlit("assistant");
    assert("result"@ != "system"@) by {
        assert("result"@[0] != "system"@[0]);
    }
    assert("result"@ != "stream_event"@) by {
        assert("result"@.len() != "stream_event"@.len());
    }
    assert("result"@ != "assistant"@) by {
        assert("result"@.len() != "assistant"@.len());
    }
    if text_at(v, "type"@) == Some("result"@) {
        assert(r matches Some(e) && result_event_is(v, e));
    }
}

/// How many of the events are terminal.
pub open spec fn terminal_count(evs: Seq<ModelEvent>) -> nat
    decreases evs.len(),
{
    if evs.len() == 0 {
        0
    } else {
        terminal_count(evs.drop_last()) + if crate::model::event_is_terminal(evs.last()) {
            1nat
        } else {
            0nat
        }
    }
}

/// Adding one event to the end adds one to the count when it is terminal.
pub proof fn lemma_terminal_count_push(evs: Seq<ModelEvent>, e: ModelEvent)
    ensures
        terminal_count(evs.push(e)) == terminal_count(evs) + if crate::model::event_is_terminal(e) {
            1nat
        } else {
            0nat
        },
{
    assert(evs.push(e).drop_last() =~= evs);
}

/// Reading one run of the model CLI, line by line: the events handed on so
/// far, and whether one of them ended the run. A run hands on exactly one
/// terminal event, its last: whatever follows it is dropped.
pub struct StreamRun {
    pub saw_terminal: bool,
    pub emitted: Ghost<Seq<ModelEvent>>,
}

impl StreamRun {
    pub open spec fn wf(&self) -> bool {
        &&& !self.saw_terminal ==> terminal_count(self.emitted@) == 0
        &&& self.saw_terminal ==> terminal_count(self.emitted@) == 1 && self.emitted@.len() > 0
            && crate::model::event_is_terminal(self.emitted@.last())
    }

    /// A run with no output yet.
    pub fn new() -> (s: StreamRun)
        ensures
            s.wf(),
            !s.saw_terminal,
            s.emitted@ == Seq::<ModelEvent>::empty(),
    {
        StreamRun { saw_terminal: false, emitted: Ghost(Seq::empty()) }
    }

    /// One line of output, parsed (`None` for a blank or unreadable line):
    /// the event it stands for, if any, which is handed on. Once the run has
    /// ended, nothing more is handed on.
    pub fn on_line(&mut self, line: Option<&Json>) -> (r: Option<ModelEvent>)
        requires
            old(self).wf(),
        ensures
            final(self).wf(),
            old(self).saw_terminal ==> r is None && final(self).emitted@ == old(self).emitted@
                && final(self).saw_terminal,
            !old(self).saw_terminal ==> match line {
                Some(v) => line_event_is(*v, r),
                None => r is None,
            },
            final(self).emitted@ == match r {
                Some(e) => old(self).emitted@.push(e),
                None => old(self).emitted@,
            },
            final(self).saw_terminal <==> (old(self).saw_terminal || (r matches Some(e)
                && crate::model::event_is_terminal(e))),
    {
        if self.saw_terminal {
            return None;
        }
        let r = match line {
            Some(v) => line_event(v),
            None => None,
        };
        match &r {
            Some(e) => {
                let t = e.is_terminal();
                proof {
                    lemma_terminal_count_push(self.emitted@, *e);
                }
                self.saw_terminal = t;
                self.emitted = Ghost(self.emitted@.push(*e));
            },
            None => {},
        }
        r
    }

    /// The user stopped the run: unless it has ended already, it ends with
    /// `Stopped`.
    pub fn on_stop(&mut self) -> (r: Option<ModelEvent>)
        requires
            old(self).wf(),
        ensures
            final(self).wf(),
            final(self).saw_terminal,
            old(self).saw_terminal ==> r is None && final(self).emitted@ == old(self).emitted@,
            !old(self).saw_terminal ==> r == Some(ModelEvent::Stopped) && final(self).emitted@ == old(
                self,
            ).emitted@.push(ModelEvent::Stopped),
    {
        if self.saw_terminal {
            return None;
        }
        let e = ModelEvent::Stopped;
        proof {
            lemma_terminal_count_push(self.emitted@, e);
        }
        self.emitted = Ghost(self.emitted@.push(e));
        self.saw_terminal = true;
        Some(e)
    }

    /// The output ended. A run whose lines held no terminal event is closed
    /// with one (unavailable, explained by the stderr or the exit status), so
    /// that every run ends in exactly one terminal event.
    pub fn on_end(&mut self, provider: &ClaudeCodeProvider, stderr: &str, code: Option<i32>) -> (r: Option<
        ModelEvent,
    >)
        requires
            old(self).wf(),
        ensures
            final(self).wf(),
            final(self).saw_terminal,
            terminal_count(final(self).emitted@) == 1,
            crate::model::event_is_terminal(final(self).emitted@.last()),
            old(self).saw_terminal ==> r is None && final(self).emitted@ == old(self).emitted@,
            !old(self).saw_terminal ==> (r matches Some(e) && e is Unavailable && final(self).emitted@ == old(
                self,
            ).emitted@.push(e)),
            !old(self).saw_terminal ==> (r matches Some(ModelEvent::Unavailable { reason, detail })
                && detail@ == crate::model::missing_result_detail(provider.binary@, stderr@, code)
                && reason == crate::model::classify_stderr_spec(detail@)),
    {
        if self.saw_terminal {
            return None;
        }
        let e = provider.missing_result(stderr, code);
        proof {
            lemma_terminal_count_push(self.emitted@, e);
        }
        self.emitted = Ghost(self.emitted@.push(e));
        self.saw_terminal = true;
        Some(e)
    }
}

} // verus!
