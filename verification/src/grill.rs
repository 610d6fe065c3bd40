//! Grilling: turning the topic bank into repo-specific questions. Which
//! uncovered topics fill the depth target, the prompt that lists them, and
//! which of the model's generated questions are complete enough to keep.

use vstd::prelude::*;
use crate::json::{flexible_string, flexible_text, get, get_field, Json};
use crate::model::{read_only_tools_spec, ModelRequest};
use crate::text::{
    all_ws, chars_of, is_blank, push_all, push_str, same_chars, string_of, trim, trimmed, utf8_len,
};
use crate::sections::byte_len128;

verus! {

/// The question count a depth slider value (clamped to 1..=5) aims for.
pub open spec fn depth_target(depth: i64) -> int {
    if depth < 1 {
        5
    } else if depth > 5 {
        25
    } else {
        depth * 5
    }
}

pub fn target_for_depth(depth: i64) -> (r: i64)
    ensures
        r == depth_target(depth),
        5 <= r <= 25,
        r % 5 == 0,
{
    let d = if depth < 1 {
        1
    } else if depth > 5 {
        5
    } else {
        depth
    };
    d * 5
}

/// A topic of the bank: its dimension, the topic itself, and a focus hint.
#[derive(Debug)]
pub struct BankTopic {
    pub dimension: String,
    pub topic: String,
    pub hint: String,
}

pub open spec fn covered_by(covered: Seq<String>, topic: Seq<char>) -> bool {
    exists|i: int| 0 <= i < covered.len() && covered[i]@ == topic
}

/// How many more questions a project needs for the depth target.
pub open spec fn need_for(depth: i64, total: i64) -> int {
    if depth_target(depth) - total > 0 {
        depth_target(depth) - total
    } else {
        0
    }
}

/// The positions of the first `need` bank topics not yet covered, among the
/// first `n` of the bank.
pub open spec fn selected_upto(bank: Seq<BankTopic>, covered: Seq<String>, need: int, n: nat) -> Seq<int>
    decreases n,
{
    if n == 0 {
        Seq::empty()
    } else {
        let prev = selected_upto(bank, covered, need, (n - 1) as nat);
        if prev.len() < need && !covered_by(covered, bank[n - 1].topic@) {
            prev.push(n - 1)
        } else {
            prev
        }
    }
}

fn is_covered(covered: &Vec<String>, topic: &String) -> (r: bool)
    ensures
        r == covered_by(covered@, topic@),
{
    let t = chars_of(topic.as_str());
    let mut i: usize = 0;
    while i < covered.len()
        invariant
            i <= covered@.len(),
            t@ == topic@,
            forall|k: int| 0 <= k < i ==> covered@[k]@ != topic@,
        decreases covered@.len() - i,
    {
        let c = chars_of(covered[i].as_str());
        if same_chars(&c, &t) {
            return true;
        }
        i = i + 1;
    }
    false
}

/// Pick uncovered bank topics, in bank order, to fill up to the depth
/// target given the project's current (non-deleted) question count.
pub fn select_topics(bank: &Vec<BankTopic>, covered: &Vec<String>, total: i64, depth: i64) -> (r: Vec<usize>)
    ensures
        r@.map_values(|k: usize| k as int) == selected_upto(bank@, covered@, need_for(depth, total), bank@.len()),
{
    let target = target_for_depth(depth);
    let need: u64 = if total < target {
        (target as i128 - total as i128) as u64
    } else {
        0
    };
    assert(need == need_for(depth, total));
    let mut out: Vec<usize> = Vec::new();
    let mut i: usize = 0;
    while i < bank.len()
        invariant
            i <= bank@.len(),
            need == need_for(depth, total),
            out@.map_values(|k: usize| k as int) == selected_upto(bank@, covered@, need as int, i as nat),
            out@.len() <= need,
        decreases bank@.len() - i,
    {
        if (out.len() as u64) < need && !is_covered(covered, &bank[i].topic) {
            out.push(i);
        }
        assert(out@.map_values(|k: usize| k as int) =~= selected_upto(bank@, covered@, need as int, (i + 1) as nat));
        i = i + 1;
    }
    out
}

proof fn lemma_selected(bank: Seq<BankTopic>, covered: Seq<String>, need: int, n: nat)
    requires
        n <= bank.len(),
    ensures
        selected_upto(bank, covered, need, n).len() <= if need > 0 { need } else { 0 },
        forall|i: int| 0 <= i < selected_upto(bank, covered, need, n).len() ==> {
            let k = #[trigger] selected_upto(bank, covered, need, n)[i];
            0 <= k < n && !covered_by(covered, bank[k].topic@)
        },
        forall|i: int, j: int| 0 <= i < j < selected_upto(bank, covered, need, n).len()
            ==> #[trigger] selected_upto(bank, covered, need, n)[i] < #[trigger] selected_upto(bank, covered, need, n)[j],
    decreases n,
{
    if n > 0 {
        lemma_selected(bank, covered, need, (n - 1) as nat);
    }
}

/// Law: topic selection never exceeds what the depth target still needs,
/// never picks a covered topic, and keeps bank order (so no topic twice).
pub proof fn law_selection_fills_without_repeats(bank: Seq<BankTopic>, covered: Seq<String>, depth: i64, total: i64)
    ensures
        selected_upto(bank, covered, need_for(depth, total), bank.len()).len() <= need_for(depth, total),
        forall|i: int| 0 <= i < selected_upto(bank, covered, need_for(depth, total), bank.len()).len() ==> {
            let k = #[trigger] selected_upto(bank, covered, need_for(depth, total), bank.len())[i];
            0 <= k < bank.len() && !covered_by(covered, bank[k].topic@)
        },
        forall|i: int, j: int| 0 <= i < j < selected_upto(bank, covered, need_for(depth, total), bank.len()).len()
            ==> #[trigger] selected_upto(bank, covered, need_for(depth, total), bank.len())[i]
                < #[trigger] selected_upto(bank, covered, need_for(depth, total), bank.len())[j],
{
    lemma_selected(bank, covered, need_for(depth, total), bank.len());
}

/// How many of the first `n` bank topics are not covered yet.
pub open spec fn uncovered_count(bank: Seq<BankTopic>, covered: Seq<String>, n: nat) -> nat
    decreases n,
{
    if n == 0 {
        0
    } else {
        uncovered_count(bank, covered, (n - 1) as nat) + if covered_by(covered, bank[n - 1].topic@) {
            0nat
        } else {
            1nat
        }
    }
}

proof fn lemma_selected_count(bank: Seq<BankTopic>, covered: Seq<String>, need: int, n: nat)
    requires
        need >= 0,
    ensures
        selected_upto(bank, covered, need, n).len() == if need < uncovered_count(bank, covered, n) {
            need
        } else {
            uncovered_count(bank, covered, n) as int
        },
    decreases n,
{
    if n > 0 {
        lemma_selected_count(bank, covered, need, (n - 1) as nat);
    }
}

proof fn lemma_selected_members(bank: Seq<BankTopic>, covered: Seq<String>, need: int, n: nat)
    requires
        need >= 0,
        n <= bank.len(),
    ensures
        forall|k: int| 0 <= k < n ==> (selected_upto(bank, covered, need, n).contains(k) <==> (!covered_by(
            covered,
            #[trigger] bank[k].topic@,
        ) && uncovered_count(bank, covered, k as nat) < need)),
    decreases n,
{
    if n > 0 {
        let m = (n - 1) as nat;
        lemma_selected_members(bank, covered, need, m);
        lemma_selected_count(bank, covered, need, m);
        lemma_selected(bank, covered, need, m);
        let prev = selected_upto(bank, covered, need, m);
        let cur = selected_upto(bank, covered, need, n);
        assert(!prev.contains(m as int)) by {
            if prev.contains(m as int) {
                let x = choose|x: int| 0 <= x < prev.len() && prev[x] == m as int;
                assert(prev[x] < m);
            }
        }
        assert forall|k: int| 0 <= k < n implies (cur.contains(k) <==> (!covered_by(covered, #[trigger] bank[k].topic@)
            && uncovered_count(bank, covered, k as nat) < need)) by {
            if cur != prev {
                assert(cur == prev.push(m as int));
                if k < m {
                    if cur.contains(k) {
                        let x = choose|x: int| 0 <= x < cur.len() && cur[x] == k;
                        assert(x < prev.len());
                        assert(prev[x] == k);
                    }
                    if prev.contains(k) {
                        let x = choose|x: int| 0 <= x < prev.len() && prev[x] == k;
                        assert(cur[x] == k);
                    }
                } else {
                    assert(cur[prev.len() as int] == m as int);
                }
            }
        }
    }
}

/// Law: the topics selected are exactly the uncovered ones, in bank order,
/// that come before the target is met: an uncovered topic is picked when
/// fewer uncovered topics than are still needed precede it.
pub proof fn law_selection_takes_the_first_uncovered(
    bank: Seq<BankTopic>,
    covered: Seq<String>,
    depth: i64,
    total: i64,
    k: int,
)
    requires
        0 <= k < bank.len(),
    ensures
        selected_upto(bank, covered, need_for(depth, total), bank.len()).contains(k) <==> (!covered_by(
            covered,
            bank[k].topic@,
        ) && uncovered_count(bank, covered, k as nat) < need_for(depth, total)),
{
    lemma_selected_members(bank, covered, need_for(depth, total), bank.len());
    assert(!covered_by(covered, bank[k].topic@) || covered_by(covered, bank[k].topic@));
}

/// Law: a depth setting of 1 to 5 aims for five questions per step, so a
/// deeper setting always aims higher; below 1 counts as 1 and above 5 as 5.
pub proof fn law_depth_target_is_five_per_step(depth: i64, deeper: i64)
    ensures
        1 <= depth <= 5 ==> depth_target(depth) == depth * 5,
        depth < 1 ==> depth_target(depth) == 5,
        depth > 5 ==> depth_target(depth) == 25,
        1 <= depth < deeper <= 5 ==> depth_target(depth) < depth_target(deeper),
{
}

/// Law: for a depth of 1 to 5, the selection takes as many uncovered topics
/// as the target `depth × 5` still lacks after `total` questions — or all the
/// uncovered topics, when there are fewer.
pub proof fn law_selection_size(bank: Seq<BankTopic>, covered: Seq<String>, depth: i64, total: i64)
    requires
        1 <= depth <= 5,
    ensures
        selected_upto(bank, covered, need_for(depth, total), bank.len()).len() == ({
            let lack = if depth * 5 - total > 0 { depth * 5 - total } else { 0 };
            if lack < uncovered_count(bank, covered, bank.len()) {
                lack
            } else {
                uncovered_count(bank, covered, bank.len()) as int
            }
        }),
{
    lemma_selected_count(bank, covered, need_for(depth, total), bank.len());
}

pub open spec fn topic_line(t: BankTopic) -> Seq<char> {
    "- dimension: "@ + t.dimension@ + " | bank_topic: "@ + t.topic@ + " | focus: "@ + t.hint@ + "\n"@
}

pub open spec fn topic_lines(ts: Seq<BankTopic>) -> Seq<char>
    decreases ts.len(),
{
    if ts.len() == 0 {
        Seq::empty()
    } else {
        topic_lines(ts.drop_last()) + topic_line(ts.last())
    }
}

/// The user prompt listing the topics to write questions for.
pub open spec fn grill_prompt(ts: Seq<BankTopic>) -> Seq<char> {
    "Write one question + recommended answer for EACH of these topics, grounded in this specific project:\n\n"@
        + topic_lines(ts) + "\nExplore the repo read-only, then emit the questions JSON per your instructions."@
}

pub fn grill_user(topics: &Vec<BankTopic>) -> (r: String)
    ensures
        r@ == grill_prompt(topics@),
{
    let mut out: Vec<char> = Vec::new();
    push_str(
        &mut out,
        "Write one question + recommended answer for EACH of these topics, grounded in this specific project:\n\n",
    );
    let ghost head = out@;
    let mut i: usize = 0;
    while i < topics.len()
        invariant
            i <= topics@.len(),
            out@ == head + topic_lines(topics@.subrange(0, i as int)),
        decreases topics@.len() - i,
    {
        let t = &topics[i];
        let ghost before = out@;
        push_str(&mut out, "- dimension: ");
        push_str(&mut out, t.dimension.as_str());
        push_str(&mut out, " | bank_topic: ");
        push_str(&mut out, t.topic.as_str());
        push_str(&mut out, " | focus: ");
        push_str(&mut out, t.hint.as_str());
        push_str(&mut out, "\n");
        proof {
            let s = topics@.subrange(0, i + 1);
            assert(s.drop_last() =~= topics@.subrange(0, i as int));
            assert(s.last() == topics@[i as int]);
            assert(out@ =~= before + topic_line(topics@[i as int]));
        }
        i = i + 1;
    }
    assert(topics@.subrange(0, i as int) =~= topics@);
    push_str(&mut out, "\nExplore the repo read-only, then emit the questions JSON per your instructions.");
    string_of(&out)
}

pub open spec fn grill_system() -> Seq<char> {
    "You are Review Helper's interviewer. You ask the builder sharp, repo-specific questions that pin down what they're building — covering product AND build concerns. Explore the repository read-only in your working directory and use the PROJECT CONTEXT so every question is specific to THIS project (reference real files, the plan, the chosen stack). Never edit, write, or delete files, and never run shell commands.\n\nYou are given a list of TOPICS, each with a dimension and a focus hint. For EACH topic, write:\n- \"question\": ONE specific question about THIS project — concrete, answerable, grounded in what you actually see. Never generic (\"What is your architecture?\"); name the real thing.\n- \"recommended_answer\": your best-guess answer given the repo + plan + context — the answer you'd suggest if the builder is unsure. Honest and specific. Only say it's unknowable if it truly is.\n\nEcho the given dimension and bank_topic verbatim.\n\nOUTPUT: Emit ONLY this JSON object — nothing before or after, no ``` fences. First character {, last }:\n{\"questions\": [\n  {\"dimension\": \"...\", \"bank_topic\": \"...\", \"question\": \"...\", \"recommended_answer\": \"...\"}\n]}\nOne object per provided topic, same order. This is parsed deterministically; stray text breaks it."@
}

/// The question-generation request: the topics as the prompt, the
/// interviewer instructions and project context as the system prompt, run in
/// the clone when there is one.
pub fn grill_request(topics: &Vec<BankTopic>, context: &str, clone_path: Option<String>) -> (r: ModelRequest)
    ensures
        r.prompt@ == grill_prompt(topics@),
        r.system_append matches Some(s) && s@ == grill_system() + "\n\n"@ + context@,
        r.allowed_tools@ == read_only_tools_spec(),
        r.cwd == clone_path,
        r.session_id is None,
        r.model is None,
{
    let p = grill_user(topics);
    let mut sys: Vec<char> = Vec::new();
    push_str(
        &mut sys,
        "You are Review Helper's interviewer. You ask the builder sharp, repo-specific questions that pin down what they're building — covering product AND build concerns. Explore the repository read-only in your working directory and use the PROJECT CONTEXT so every question is specific to THIS project (reference real files, the plan, the chosen stack). Never edit, write, or delete files, and never run shell commands.\n\nYou are given a list of TOPICS, each with a dimension and a focus hint. For EACH topic, write:\n- \"question\": ONE specific question about THIS project — concrete, answerable, grounded in what you actually see. Never generic (\"What is your architecture?\"); name the real thing.\n- \"recommended_answer\": your best-guess answer given the repo + plan + context — the answer you'd suggest if the builder is unsure. Honest and specific. Only say it's unknowable if it truly is.\n\nEcho the given dimension and bank_topic verbatim.\n\nOUTPUT: Emit ONLY this JSON object — nothing before or after, no ``` fences. First character {, last }:\n{\"questions\": [\n  {\"dimension\": \"...\", \"bank_topic\": \"...\", \"question\": \"...\", \"recommended_answer\": \"...\"}\n]}\nOne object per provided topic, same order. This is parsed deterministically; stray text breaks it.",
    );
    push_str(&mut sys, "\n\n");
    push_str(&mut sys, context);
    let mut req = ModelRequest::planning(p.as_str());
    req.system_append = Some(string_of(&sys));
    req.cwd = clone_path;
    req
}

/// A generated question (every field read leniently as text).
#[derive(Debug)]
pub struct GenQuestion {
    pub dimension: String,
    pub bank_topic: String,
    pub question: String,
    pub recommended_answer: String,
}

/// Cap (bytes) on a generated question or recommended answer.
pub const MAX_QUESTION_FIELD: usize = 5000;

pub open spec fn question_fields_ok(j: Json) -> bool {
    &&& j is Obj
    &&& flexible_text(get(j, "dimension"@)) is Some
    &&& flexible_text(get(j, "bank_topic"@)) is Some
    &&& flexible_text(get(j, "question"@)) is Some
    &&& flexible_text(get(j, "recommended_answer"@)) is Some
}

/// A complete, bounded entry: nothing blank, question and answer within the cap.
pub open spec fn question_usable(j: Json) -> bool {
    &&& !all_ws(flexible_text(get(j, "dimension"@))->0)
    &&& !all_ws(flexible_text(get(j, "bank_topic"@))->0)
    &&& !all_ws(flexible_text(get(j, "question"@))->0)
    &&& !all_ws(flexible_text(get(j, "recommended_answer"@))->0)
    &&& utf8_len(flexible_text(get(j, "question"@))->0) <= MAX_QUESTION_FIELD
    &&& utf8_len(flexible_text(get(j, "recommended_answer"@))->0) <= MAX_QUESTION_FIELD
}

pub open spec fn question_is(j: Json, q: GenQuestion) -> bool {
    &&& flexible_text(get(j, "dimension"@)) == Some(q.dimension@)
    &&& flexible_text(get(j, "bank_topic"@)) == Some(q.bank_topic@)
    &&& flexible_text(get(j, "question"@)) == Some(q.question@)
    &&& flexible_text(get(j, "recommended_answer"@)) == Some(q.recommended_answer@)
}

pub open spec fn all_questions_ok(items: Seq<Json>) -> bool {
    forall|i: int| 0 <= i < items.len() ==> #[trigger] question_fields_ok(items[i])
}

/// The usable entries among the first `n`, in order.
pub open spec fn usable_upto(items: Seq<Json>, n: nat) -> Seq<Json>
    decreases n,
{
    if n == 0 {
        Seq::empty()
    } else if question_usable(items[n - 1]) {
        usable_upto(items, (n - 1) as nat).push(items[n - 1])
    } else {
        usable_upto(items, (n - 1) as nat)
    }
}

pub open spec fn batch_items(j: Json) -> Option<Seq<Json>> {
    match get(j, "questions"@) {
        Some(Json::Arr(v)) => Some(v@),
        _ => None,
    }
}

pub open spec fn questions_malformed() -> Seq<char> {
    "The question response was malformed. Please try again."@
}

fn decode_question(j: &Json) -> (r: Option<GenQuestion>)
    ensures
        r is Some <==> question_fields_ok(*j),
        r matches Some(q) ==> question_is(*j, q),
{
    match j {
        Json::Obj(_) => {},
        _ => {
            return None;
        },
    }
    let dimension = flexible_string(get_field(j, "dimension"));
    let bank_topic = flexible_string(get_field(j, "bank_topic"));
    let question = flexible_string(get_field(j, "question"));
    let recommended_answer = flexible_string(get_field(j, "recommended_answer"));
    match (dimension, bank_topic, question, recommended_answer) {
        (Some(dimension), Some(bank_topic), Some(question), Some(recommended_answer)) => Some(
            GenQuestion { dimension, bank_topic, question, recommended_answer },
        ),
        _ => None,
    }
}

fn usable(q: &GenQuestion) -> (r: bool)
    ensures
        r == {
            &&& !all_ws(q.dimension@)
            &&& !all_ws(q.bank_topic@)
            &&& !all_ws(q.question@)
            &&& !all_ws(q.recommended_answer@)
            &&& utf8_len(q.question@) <= MAX_QUESTION_FIELD
            &&& utf8_len(q.recommended_answer@) <= MAX_QUESTION_FIELD
        },
{
    let d = chars_of(q.dimension.as_str());
    let b = chars_of(q.bank_topic.as_str());
    let qq = chars_of(q.question.as_str());
    let a = chars_of(q.recommended_answer.as_str());
    !is_blank(&qq) && !is_blank(&a) && !is_blank(&d) && !is_blank(&b) && byte_len128(&qq)
        <= MAX_QUESTION_FIELD as u128 && byte_len128(&a) <= MAX_QUESTION_FIELD as u128
}

/// Keep the complete, bounded questions of a parsed batch (`None` when the
/// reply was not JSON). A malformed batch and a batch with nothing usable are
/// errors.
pub fn questions_from_json(j: Option<&Json>) -> (r: Result<Vec<GenQuestion>, String>)
    ensures
        match j {
            None => r matches Err(e) && e@ == questions_malformed(),
            Some(v) => match batch_items(*v) {
                Some(items) => if !all_questions_ok(items) {
                    r matches Err(e) && e@ == questions_malformed()
                } else if usable_upto(items, items.len()).len() == 0 {
                    r matches Err(e) && e@ == "The model returned no usable questions."@
                } else {
                    r matches Ok(qs) && qs@.len() == usable_upto(items, items.len()).len() && forall|i: int|
                        0 <= i < qs@.len() ==> #[trigger] question_is(usable_upto(items, items.len())[i], qs@[i])
                },
                None => r matches Err(e) && e@ == questions_malformed(),
            },
        },
{
    let v = match j {
        Some(v) => v,
        None => {
            return Err("The question response was malformed. Please try again.".to_owned());
        },
    };
    let found = get_field(v, "questions");
    let items = match found {
        Some(Json::Arr(items)) => items,
        _ => {
            assert(batch_items(*v) is None);
            return Err("The question response was malformed. Please try again.".to_owned());
        },
    };
    let mut out: Vec<GenQuestion> = Vec::new();
    let mut i: usize = 0;
    while i < items.len()
        invariant
            i <= items@.len(),
            j == Some(v),
            batch_items(*v) == Some(items@),
            forall|k: int| 0 <= k < i ==> #[trigger] question_fields_ok(items@[k]),
            out@.len() == usable_upto(items@, i as nat).len(),
            forall|k: int| 0 <= k < out@.len() ==> #[trigger] question_is(usable_upto(items@, i as nat)[k], out@[k]),
        decreases items@.len() - i,
    {
        match decode_question(&items[i]) {
            Some(q) => {
                if usable(&q) {
                    out.push(q);
                }
                assert(usable_upto(items@, (i + 1) as nat) == if question_usable(items@[i as int]) {
                    usable_upto(items@, i as nat).push(items@[i as int])
                } else {
                    usable_upto(items@, i as nat)
                });
            },
            None => {
                assert(!all_questions_ok(items@));
                return Err("The question response was malformed. Please try again.".to_owned());
            },
        }
        i = i + 1;
    }
    if out.len() == 0 {
        return Err("The model returned no usable questions.".to_owned());
    }
    Ok(out)
}

/// A typed answer, trimmed, or why it cannot be recorded.
pub fn check_answer(body: &str) -> (r: Result<String, String>)
    ensures
        match r {
            Ok(s) => !all_ws(body@) && utf8_len(trim(body@)) <= 10000 && s@ == trim(body@),
            Err(e) => if all_ws(body@) {
                e@ == "Write an answer first."@
            } else {
                utf8_len(trim(body@)) > 10000 && e@ == "Answer is too long (max 10000 characters)."@
            },
        },
{
    let c = chars_of(body);
    if is_blank(&c) {
        return Err("Write an answer first.".to_owned());
    }
    let t = trimmed(&c);
    if byte_len128(&t) > 10000 {
        return Err("Answer is too long (max 10000 characters).".to_owned());
    }
    Ok(string_of(&t))
}

/// The statuses a question can be set to directly.
pub open spec fn settable_status(s: Seq<char>) -> bool {
    s == "open"@ || s == "not_relevant"@ || s == "unknown"@ || s == "deleted"@
}

pub fn valid_question_status(status: &str) -> (r: bool)
    ensures
        r == settable_status(status@),
{
    let c = chars_of(status);
    crate::text::same_text(&c, "open") || crate::text::same_text(&c, "not_relevant")
        || crate::text::same_text(&c, "unknown") || crate::text::same_text(&c, "deleted")
}


/// Streamed question-generation progress.
#[derive(Debug)]
pub enum GrillEvent {
    Started { project_id: i64 },
    Tool { project_id: i64, name: String },
    Done { project_id: i64, added: usize },
    Failed { project_id: i64, detail: String },
}

pub fn grill_progress(project_id: i64, ev: &crate::model::ModelEvent) -> (r: Option<GrillEvent>)
    ensures
        match crate::model::tool_of(*ev) {
            Some(n) => r matches Some(GrillEvent::Tool { project_id: p, name }) && p == project_id && name@ == n,
            None => r is None,
        },
{
    match crate::model::tool_used(ev) {
        Some(name) => Some(GrillEvent::Tool { project_id, name }),
        None => None,
    }
}

} // verus!
