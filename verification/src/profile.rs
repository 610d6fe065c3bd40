//! The self-learning profile files: two Markdown documents with three
//! marked regions — Facts (regenerated from measurements), Observations
//! (model-written, validated fail-closed) and "Your notes" (never edited by
//! the app). This module holds what the files contain and every rewrite of
//! them; reading and writing the files is the app's.

use vstd::prelude::*;
use crate::model::ModelRequest;
use crate::text::{
    chars_of, contains_chars, contains_seq, decimal, find_from, i64_decimal, is_ws, occurs_at, push_all,
    push_str, same_text, slice_chars, string_of, take, take_chars, trim, trim_start, trimmed,
};

verus! {

// ---------------------------------------------------------------------------
// Markers
// ---------------------------------------------------------------------------

pub open spec fn facts_start() -> Seq<char> {
    "<!-- rh:facts:start (auto — regenerated from measurements; edits here are overwritten) -->"@
}

pub open spec fn facts_end() -> Seq<char> {
    "<!-- rh:facts:end -->"@
}

pub open spec fn obs_start() -> Seq<char> {
    "<!-- rh:observations:start (auto — model-written, evidence-cited; edit below in Your notes instead) -->"@
}

pub open spec fn obs_end() -> Seq<char> {
    "<!-- rh:observations:end -->"@
}

pub open spec fn notes_header() -> Seq<char> {
    "## Your notes (never auto-edited)"@
}

fn facts_start_str() -> (r: &'static str)
    ensures
        r@ == facts_start(),
{
    "<!-- rh:facts:start (auto — regenerated from measurements; edits here are overwritten) -->"
}

fn facts_end_str() -> (r: &'static str)
    ensures
        r@ == facts_end(),
{
    "<!-- rh:facts:end -->"
}

fn obs_start_str() -> (r: &'static str)
    ensures
        r@ == obs_start(),
{
    "<!-- rh:observations:start (auto — model-written, evidence-cited; edit below in Your notes instead) -->"
}

fn obs_end_str() -> (r: &'static str)
    ensures
        r@ == obs_end(),
{
    "<!-- rh:observations:end -->"
}

fn notes_header_str() -> (r: &'static str)
    ensures
        r@ == notes_header(),
{
    "## Your notes (never auto-edited)"
}

/// Cap (characters) on the model-owned Observations region.
pub const OBSERVATIONS_CAP: usize = 2000;

/// Cap (characters) on the excerpt injected into prompts.
pub const EXCERPT_CAP: usize = 2800;

/// Reflection runs only once this many new events have accumulated.
pub const REFLECT_MIN_EVENTS: i64 = 15;

// ---------------------------------------------------------------------------
// Finding and replacing regions
// ---------------------------------------------------------------------------

/// The first position of `needle` in `hay` at or after `i`.
pub open spec fn first_occ_from(hay: Seq<char>, needle: Seq<char>, i: int) -> Option<int>
    decreases hay.len() + 1 - i,
{
    if i < 0 || i > hay.len() {
        None
    } else if occurs_at(hay, needle, i) {
        Some(i)
    } else {
        first_occ_from(hay, needle, i + 1)
    }
}

/// The first position of `needle` in `hay` (`str::find`).
pub open spec fn first_occ(hay: Seq<char>, needle: Seq<char>) -> Option<int> {
    first_occ_from(hay, needle, 0)
}

proof fn lemma_first_occ_from(hay: Seq<char>, needle: Seq<char>, i: int, k: Option<int>)
    requires
        0 <= i <= hay.len() + 1,
        match k {
            Some(j) => i <= j && occurs_at(hay, needle, j) && forall|m: int| i <= m < j ==> !occurs_at(hay, needle, m),
            None => forall|m: int| i <= m ==> !occurs_at(hay, needle, m),
        },
    ensures
        first_occ_from(hay, needle, i) == k,
    decreases hay.len() + 1 - i,
{
    if i <= hay.len() {
        if !occurs_at(hay, needle, i) {
            lemma_first_occ_from(hay, needle, i + 1, k);
        }
    } else {
        if let Some(j) = k {
            assert(!occurs_at(hay, needle, j));
        }
    }
}

fn find(hay: &[char], needle: &[char]) -> (r: Option<usize>)
    ensures
        match r {
            Some(i) => first_occ(hay@, needle@) == Some(i as int) && i + needle@.len() <= hay@.len(),
            None => first_occ(hay@, needle@) is None,
        },
{
    let r = find_from(hay, needle, 0);
    proof {
        match r {
            Some(i) => lemma_first_occ_from(hay@, needle@, 0, Some(i as int)),
            None => lemma_first_occ_from(hay@, needle@, 0, None),
        }
    }
    r
}

/// `content` with the text between the first `start` marker and the first
/// `end` marker replaced by `inner` (trimmed) on lines of its own; nothing
/// when a marker is missing or they are out of order.
pub open spec fn replaced(content: Seq<char>, start: Seq<char>, end: Seq<char>, inner: Seq<char>) -> Option<Seq<char>> {
    match (first_occ(content, start), first_occ(content, end)) {
        (Some(a), Some(e)) => {
            let s = a + start.len();
            if e < s {
                None
            } else {
                Some(content.subrange(0, s) + "\n"@ + trim(inner) + "\n"@ + content.subrange(e, content.len() as int))
            }
        },
        _ => None,
    }
}

pub fn replace_between(content: &str, start: &str, end: &str, new_inner: &str) -> (r: Option<String>)
    ensures
        match r {
            Some(u) => replaced(content@, start@, end@, new_inner@) == Some(u@),
            None => replaced(content@, start@, end@, new_inner@) is None,
        },
{
    let c = chars_of(content);
    let st = chars_of(start);
    let en = chars_of(end);
    let fa = find(&c, &st);
    let a = match fa {
        Some(a) => a,
        None => {
            return None;
        },
    };
    assert(a + st.len() <= c.len());
    let s = a + st.len();
    let fe = find(&c, &en);
    let e = match fe {
        Some(e) => e,
        None => {
            return None;
        },
    };
    if e < s {
        return None;
    }
    let mut out = slice_chars(&c, 0, s);
    push_str(&mut out, "\n");
    push_all(&mut out, &trimmed(&chars_of(new_inner)));
    push_str(&mut out, "\n");
    push_all(&mut out, &slice_chars(&c, e, c.len()));
    Some(string_of(&out))
}

/// The trimmed text between the first `start` and the first `end` marker.
pub open spec fn between(content: Seq<char>, start: Seq<char>, end: Seq<char>) -> Option<Seq<char>> {
    match (first_occ(content, start), first_occ(content, end)) {
        (Some(a), Some(e)) => {
            let s = a + start.len();
            if e >= s {
                Some(trim(content.subrange(s, e)))
            } else {
                None
            }
        },
        _ => None,
    }
}

pub fn section(content: &str, start: &str, end: &str) -> (r: Option<String>)
    ensures
        match r {
            Some(t) => between(content@, start@, end@) == Some(t@),
            None => between(content@, start@, end@) is None,
        },
{
    let c = chars_of(content);
    let st = chars_of(start);
    let en = chars_of(end);
    let fa = find(&c, &st);
    let a = match fa {
        Some(a) => a,
        None => {
            return None;
        },
    };
    assert(a + st.len() <= c.len());
    let s = a + st.len();
    let fe = find(&c, &en);
    let e = match fe {
        Some(e) => e,
        None => {
            return None;
        },
    };
    if e >= s {
        Some(string_of(&trimmed(&slice_chars(&c, s, e))))
    } else {
        None
    }
}

// ---------------------------------------------------------------------------
// The files
// ---------------------------------------------------------------------------

/// A fresh profile file.
pub open spec fn skeleton_text(title: Seq<char>, intro: Seq<char>) -> Seq<char> {
    "# "@ + title + "\n\n"@ + intro + "\n\n## Facts (measured)\n"@ + facts_start()
        + "\n(no measurements yet)\n"@ + facts_end()
        + "\n\n## Observations (model-written, evidence-cited)\n"@ + obs_start()
        + "\n(nothing observed yet)\n"@ + obs_end() + "\n\n"@ + notes_header() + "\n\n"@
}

pub fn skeleton(title: &str, intro: &str) -> (r: String)
    ensures
        r@ == skeleton_text(title@, intro@),
{
    let mut out: Vec<char> = Vec::new();
    push_str(&mut out, "# ");
    push_str(&mut out, title);
    push_str(&mut out, "\n\n");
    push_str(&mut out, intro);
    push_str(&mut out, "\n\n## Facts (measured)\n");
    push_str(&mut out, facts_start_str());
    push_str(&mut out, "\n(no measurements yet)\n");
    push_str(&mut out, facts_end_str());
    push_str(&mut out, "\n\n## Observations (model-written, evidence-cited)\n");
    push_str(&mut out, obs_start_str());
    push_str(&mut out, "\n(nothing observed yet)\n");
    push_str(&mut out, obs_end_str());
    push_str(&mut out, "\n\n");
    push_str(&mut out, notes_header_str());
    push_str(&mut out, "\n\n");
    string_of(&out)
}

/// The file the profile keeps for the learner (the other is for reviews).
pub open spec fn is_learner_file(name: Seq<char>) -> bool {
    name == "learner-profile.md"@
}

/// The content a missing profile file is created with.
pub fn initial_content(name: &str) -> (r: String)
    ensures
        r@ == if is_learner_file(name@) {
            skeleton_text(
                "How you learn"@,
                "Review Helper maintains this file from measured study behavior. The Facts and Observations sections are automatic; everything under Your notes is yours and never touched."@,
            )
        } else {
            skeleton_text(
                "How you like reviews"@,
                "Review Helper maintains this file from how you actually use plan/grill/assess/chat. The Facts and Observations sections are automatic; everything under Your notes is yours and never touched."@,
            )
        },
{
    if same_text(&chars_of(name), "learner-profile.md") {
        skeleton(
            "How you learn",
            "Review Helper maintains this file from measured study behavior. The Facts and Observations sections are automatic; everything under Your notes is yours and never touched.",
        )
    } else {
        skeleton(
            "How you like reviews",
            "Review Helper maintains this file from how you actually use plan/grill/assess/chat. The Facts and Observations sections are automatic; everything under Your notes is yours and never touched.",
        )
    }
}

/// The Facts region rewritten with `md`.
pub fn facts_update(content: &str, md: &str) -> (r: Result<String, String>)
    ensures
        match r {
            Ok(u) => replaced(content@, facts_start(), facts_end(), md@) == Some(u@),
            Err(e) => replaced(content@, facts_start(), facts_end(), md@) is None
                && e@ == "Profile file is missing its Facts markers — fix it in Settings or reset the file."@,
        },
{
    match replace_between(content, facts_start_str(), facts_end_str(), md) {
        Some(u) => Ok(u),
        None => Err("Profile file is missing its Facts markers — fix it in Settings or reset the file.".to_owned()),
    }
}

/// Why a model-written Observations block is refused, if it is.
pub open spec fn observations_refusal(obs: Seq<char>) -> Option<Seq<char>> {
    if trim(obs).len() > OBSERVATIONS_CAP {
        Some("Observations over the 2000-char cap — keeping the previous version."@)
    } else if contains_seq(trim(obs), "<!-- rh:"@) || contains_seq(trim(obs), notes_header()) {
        Some("Observations tried to escape its region — keeping the previous version."@)
    } else {
        None
    }
}

/// The Observations region rewritten — the only region the model may write.
/// Fails closed: an over-cap or marker-touching block is refused, and so is
/// any rewrite that would change the user's notes.
pub open spec fn observations_result(content: Seq<char>, obs: Seq<char>) -> Result<Seq<char>, Seq<char>> {
    match observations_refusal(obs) {
        Some(e) => Err(e),
        None => match replaced(content, obs_start(), obs_end(), trim(obs)) {
            None => Err("Profile file is missing its Observations markers — reset the file in Settings."@),
            Some(u) => match first_occ(content, notes_header()) {
                Some(n) => if crate::text::ends_with(u, content.subrange(n, content.len() as int)) {
                    Ok(u)
                } else {
                    Err("Rewrite would have altered Your notes — rejected."@)
                },
                None => Ok(u),
            },
        },
    }
}

pub open spec fn result_view(r: Result<String, String>) -> Result<Seq<char>, Seq<char>> {
    match r {
        Ok(s) => Ok(s@),
        Err(e) => Err(e@),
    }
}

pub fn observations_update(content: &str, new_obs: &str) -> (r: Result<String, String>)
    ensures
        result_view(r) == observations_result(content@, new_obs@),
{
    let t = trimmed(&chars_of(new_obs));
    if t.len() > OBSERVATIONS_CAP {
        return Err("Observations over the 2000-char cap — keeping the previous version.".to_owned());
    }
    if contains_chars(&t, &chars_of("<!-- rh:")) || contains_chars(&t, &chars_of(notes_header_str())) {
        return Err("Observations tried to escape its region — keeping the previous version.".to_owned());
    }
    let ts = string_of(&t);
    let updated = match replace_between(content, obs_start_str(), obs_end_str(), ts.as_str()) {
        Some(u) => u,
        None => {
            return Err("Profile file is missing its Observations markers — reset the file in Settings.".to_owned());
        },
    };
    let c = chars_of(content);
    match find(&c, &chars_of(notes_header_str())) {
        Some(n) => {
            let user = slice_chars(&c, n, c.len());
            if crate::text::ends_with_chars(&chars_of(updated.as_str()), &user) {
                Ok(updated)
            } else {
                Err("Rewrite would have altered Your notes — rejected.".to_owned())
            }
        },
        None => Ok(updated),
    }
}

/// Both automatic regions back to their placeholders.
pub fn reset_auto(content: &str) -> (r: Result<String, String>)
    ensures
        match r {
            Ok(u) => exists|mid: Seq<char>| replaced(content@, facts_start(), facts_end(), "(no measurements yet)"@) == Some(mid)
                && replaced(mid, obs_start(), obs_end(), "(nothing observed yet)"@) == Some(u@),
            Err(e) => (replaced(content@, facts_start(), facts_end(), "(no measurements yet)"@) is None && e@ == "Missing Facts markers."@)
                || (e@ == "Missing Observations markers."@ && exists|mid: Seq<char>| replaced(content@, facts_start(), facts_end(), "(no measurements yet)"@) == Some(mid)
                    && replaced(mid, obs_start(), obs_end(), "(nothing observed yet)"@) is None),
        },
{
    let mid = match replace_between(content, facts_start_str(), facts_end_str(), "(no measurements yet)") {
        Some(m) => m,
        None => {
            return Err("Missing Facts markers.".to_owned());
        },
    };
    match replace_between(mid.as_str(), obs_start_str(), obs_end_str(), "(nothing observed yet)") {
        Some(u) => Ok(u),
        None => Err("Missing Observations markers.".to_owned()),
    }
}

/// The user's notes region replaced: everything up to the notes header kept,
/// then the header and the notes (trimmed).
pub fn notes_update(content: &str, notes: &str) -> (r: Result<String, String>)
    ensures
        match r {
            Ok(u) => first_occ(content@, notes_header()) matches Some(n) && u@ == content@.subrange(0, n) + notes_header()
                + "\n\n"@ + trim(notes@) + "\n"@,
            Err(e) => first_occ(content@, notes_header()) is None && e@ == "Missing the notes header."@,
        },
{
    let c = chars_of(content);
    let idx = match find(&c, &chars_of(notes_header_str())) {
        Some(i) => i,
        None => {
            return Err("Missing the notes header.".to_owned());
        },
    };
    let mut out = slice_chars(&c, 0, idx);
    push_str(&mut out, notes_header_str());
    push_str(&mut out, "\n\n");
    push_all(&mut out, &trimmed(&chars_of(notes)));
    push_str(&mut out, "\n");
    Ok(string_of(&out))
}

/// The bounded excerpt injected into prompts: Facts and Observations only,
/// nothing when neither holds evidence yet.
pub open spec fn excerpt_text(content: Seq<char>, learner: bool) -> Seq<char> {
    let facts = match between(content, facts_start(), facts_end()) {
        Some(f) => f,
        None => Seq::empty(),
    };
    let obs = match between(content, obs_start(), obs_end()) {
        Some(o) => o,
        None => Seq::empty(),
    };
    if contains_seq(facts, "no measurements yet"@) && contains_seq(obs, "nothing observed yet"@) {
        Seq::empty()
    } else {
        take(
            "\n\n## "@ + (if learner {
                "How this learner learns (measured)"@
            } else {
                "How this user likes reviews (measured)"@
            }) + "\n"@ + facts + "\n"@ + obs,
            EXCERPT_CAP as int,
        )
    }
}

pub fn excerpt_of(content: &str, learner: bool) -> (r: String)
    ensures
        r@ == excerpt_text(content@, learner),
        r@.len() <= EXCERPT_CAP,
{
    let facts = match section(content, facts_start_str(), facts_end_str()) {
        Some(f) => chars_of(f.as_str()),
        None => Vec::new(),
    };
    let obs = match section(content, obs_start_str(), obs_end_str()) {
        Some(o) => chars_of(o.as_str()),
        None => Vec::new(),
    };
    if contains_chars(&facts, &chars_of("no measurements yet")) && contains_chars(&obs, &chars_of("nothing observed yet")) {
        return String::new();
    }
    let mut out: Vec<char> = Vec::new();
    push_str(&mut out, "\n\n## ");
    if learner {
        push_str(&mut out, "How this learner learns (measured)");
    } else {
        push_str(&mut out, "How this user likes reviews (measured)");
    }
    push_str(&mut out, "\n");
    push_all(&mut out, &facts);
    push_str(&mut out, "\n");
    push_all(&mut out, &obs);
    string_of(&take_chars(&out, EXCERPT_CAP))
}

// ---------------------------------------------------------------------------
// Facts
// ---------------------------------------------------------------------------

/// The measured facts behind the profile files.
#[derive(Debug)]
pub struct Facts {
    pub quiz_attempts: i64,
    pub quiz_accuracy_pct: Option<i64>,
    pub quiz_fast_accuracy_pct: Option<i64>,
    pub flashcard_grades: i64,
    pub flashcard_lapse_pct: Option<i64>,
    pub tutor_turns: i64,
    pub explain_reasks: i64,
    pub suggestions_seen: i64,
    pub suggestion_approval_pct: Option<i64>,
    pub grill_answers: i64,
    pub grill_avg_answer_chars: Option<i64>,
    pub assess_runs: i64,
}

/// The raw counts the facts are computed from.
#[derive(Debug)]
pub struct FactCounts {
    pub quiz_attempts: i64,
    pub quiz_correct: i64,
    pub quiz_fast: i64,
    pub quiz_fast_correct: i64,
    pub grades: i64,
    pub lapses: i64,
    pub tutor_turns: i64,
    pub explain_reasks: i64,
    pub suggestions: i64,
    pub suggestions_approved: i64,
    pub grill_answers: i64,
    pub grill_chars: i64,
    pub assess_runs: i64,
}

/// Integer division rounding toward zero, as Rust divides.
pub open spec fn div_trunc(a: int, b: int) -> int {
    if a >= 0 {
        a / b
    } else {
        -((-a) / b)
    }
}

/// `num` as a percentage of `den`, when `den` is positive.
pub open spec fn pct_of(num: int, den: int) -> Option<int> {
    if den > 0 {
        Some(div_trunc(num * 100, den))
    } else {
        None
    }
}

/// A percentage numerator that the computation can scale without overflow.
pub open spec fn scalable(num: i64) -> bool {
    -92233720368547758 <= num <= 92233720368547758
}

pub open spec fn opt_int(o: Option<i64>) -> Option<int> {
    match o {
        Some(v) => Some(v as int),
        None => None,
    }
}

fn quot(a: i64, b: i64) -> (r: i64)
    requires
        b > 0,
        a > i64::MIN,
    ensures
        r == div_trunc(a as int, b as int),
{
    if a >= 0 {
        a / b
    } else {
        -((-a) / b)
    }
}

pub fn pct(num: i64, den: i64) -> (r: Option<i64>)
    requires
        scalable(num),
    ensures
        opt_int(r) == pct_of(num as int, den as int),
{
    if den > 0 {
        Some(quot(num * 100, den))
    } else {
        None
    }
}

/// The facts computed from the counts.
pub open spec fn facts_match(c: FactCounts, f: Facts) -> bool {
    &&& f.quiz_attempts == c.quiz_attempts
    &&& opt_int(f.quiz_accuracy_pct) == pct_of(c.quiz_correct as int, c.quiz_attempts as int)
    &&& opt_int(f.quiz_fast_accuracy_pct) == pct_of(c.quiz_fast_correct as int, c.quiz_fast as int)
    &&& f.flashcard_grades == c.grades
    &&& opt_int(f.flashcard_lapse_pct) == pct_of(c.lapses as int, c.grades as int)
    &&& f.tutor_turns == c.tutor_turns
    &&& f.explain_reasks == c.explain_reasks
    &&& f.suggestions_seen == c.suggestions
    &&& opt_int(f.suggestion_approval_pct) == pct_of(c.suggestions_approved as int, c.suggestions as int)
    &&& f.grill_answers == c.grill_answers
    &&& opt_int(f.grill_avg_answer_chars) == if c.grill_answers > 0 {
        Some(div_trunc(c.grill_chars as int, c.grill_answers as int))
    } else {
        None
    }
    &&& f.assess_runs == c.assess_runs
}

pub fn facts_of(c: &FactCounts) -> (f: Facts)
    requires
        scalable(c.quiz_correct),
        scalable(c.quiz_fast_correct),
        scalable(c.lapses),
        scalable(c.suggestions_approved),
        c.grill_chars > i64::MIN,
    ensures
        facts_match(*c, f),
{
    Facts {
        quiz_attempts: c.quiz_attempts,
        quiz_accuracy_pct: pct(c.quiz_correct, c.quiz_attempts),
        quiz_fast_accuracy_pct: pct(c.quiz_fast_correct, c.quiz_fast),
        flashcard_grades: c.grades,
        flashcard_lapse_pct: pct(c.lapses, c.grades),
        tutor_turns: c.tutor_turns,
        explain_reasks: c.explain_reasks,
        suggestions_seen: c.suggestions,
        suggestion_approval_pct: pct(c.suggestions_approved, c.suggestions),
        grill_answers: c.grill_answers,
        grill_avg_answer_chars: if c.grill_answers > 0 {
            Some(quot(c.grill_chars, c.grill_answers))
        } else {
            None
        },
        assess_runs: c.assess_runs,
    }
}

pub open spec fn dec(n: i64) -> Seq<char> {
    decimal(n as int)
}

/// The Facts block of the learner file.
pub open spec fn learner_facts_text(f: Facts) -> Seq<char> {
    "- Quiz answers recorded: "@ + dec(f.quiz_attempts) + match f.quiz_accuracy_pct {
        Some(a) => " ("@ + dec(a) + "% correct"@ + match f.quiz_fast_accuracy_pct {
            Some(fa) => "; "@ + dec(fa) + "% when answered under 10s"@,
            None => Seq::empty(),
        } + ")"@,
        None => Seq::empty(),
    } + "\n"@ + "- Flashcard grades: "@ + dec(f.flashcard_grades) + match f.flashcard_lapse_pct {
        Some(l) => " ("@ + dec(l) + "% lapses — Again/Hard)"@,
        None => Seq::empty(),
    } + "\n"@ + "- Tutor turns: "@ + dec(f.tutor_turns) + "; explanation re-asks: "@ + dec(f.explain_reasks)
        + "\n"@
}

pub fn learner_facts_md(f: &Facts) -> (r: String)
    ensures
        r@ == learner_facts_text(*f),
{
    let mut s: Vec<char> = Vec::new();
    push_str(&mut s, "- Quiz answers recorded: ");
    push_all(&mut s, &i64_decimal(f.quiz_attempts));
    if let Some(a) = f.quiz_accuracy_pct {
        push_str(&mut s, " (");
        push_all(&mut s, &i64_decimal(a));
        push_str(&mut s, "% correct");
        if let Some(fa) = f.quiz_fast_accuracy_pct {
            push_str(&mut s, "; ");
            push_all(&mut s, &i64_decimal(fa));
            push_str(&mut s, "% when answered under 10s");
        }
        push_str(&mut s, ")");
    }
    push_str(&mut s, "\n");
    push_str(&mut s, "- Flashcard grades: ");
    push_all(&mut s, &i64_decimal(f.flashcard_grades));
    if let Some(l) = f.flashcard_lapse_pct {
        push_str(&mut s, " (");
        push_all(&mut s, &i64_decimal(l));
        push_str(&mut s, "% lapses — Again/Hard)");
    }
    push_str(&mut s, "\n");
    push_str(&mut s, "- Tutor turns: ");
    push_all(&mut s, &i64_decimal(f.tutor_turns));
    push_str(&mut s, "; explanation re-asks: ");
    push_all(&mut s, &i64_decimal(f.explain_reasks));
    push_str(&mut s, "\n");
    assert(s@ =~= learner_facts_text(*f));
    string_of(&s)
}

/// How long grill answers run on average.
pub open spec fn answer_length_word(c: i64) -> Seq<char> {
    if c < 80 {
        "terse"@
    } else if c < 300 {
        "moderate"@
    } else {
        "detailed"@
    }
}

/// The Facts block of the reviews file.
pub open spec fn review_facts_text(f: Facts) -> Seq<char> {
    "- Suggestions reviewed: "@ + dec(f.suggestions_seen) + match f.suggestion_approval_pct {
        Some(a) => " ("@ + dec(a) + "% approved)"@,
        None => Seq::empty(),
    } + "\n"@ + "- Grill answers: "@ + dec(f.grill_answers) + match f.grill_avg_answer_chars {
        Some(c) => " (avg "@ + dec(c) + " chars — "@ + answer_length_word(c) + ")"@,
        None => Seq::empty(),
    } + "\n"@ + "- Assessments run: "@ + dec(f.assess_runs) + "\n"@
}

pub fn review_facts_md(f: &Facts) -> (r: String)
    ensures
        r@ == review_facts_text(*f),
{
    let mut s: Vec<char> = Vec::new();
    push_str(&mut s, "- Suggestions reviewed: ");
    push_all(&mut s, &i64_decimal(f.suggestions_seen));
    if let Some(a) = f.suggestion_approval_pct {
        push_str(&mut s, " (");
        push_all(&mut s, &i64_decimal(a));
        push_str(&mut s, "% approved)");
    }
    push_str(&mut s, "\n");
    push_str(&mut s, "- Grill answers: ");
    push_all(&mut s, &i64_decimal(f.grill_answers));
    if let Some(c) = f.grill_avg_answer_chars {
        push_str(&mut s, " (avg ");
        push_all(&mut s, &i64_decimal(c));
        push_str(&mut s, " chars — ");
        if c < 80 {
            push_str(&mut s, "terse");
        } else if c < 300 {
            push_str(&mut s, "moderate");
        } else {
            push_str(&mut s, "detailed");
        }
        push_str(&mut s, ")");
    }
    push_str(&mut s, "\n");
    push_str(&mut s, "- Assessments run: ");
    push_all(&mut s, &i64_decimal(f.assess_runs));
    push_str(&mut s, "\n");
    assert(s@ =~= review_facts_text(*f));
    string_of(&s)
}

/// Whether the end-of-session reflection runs: the profile is on and enough
/// new events have accumulated.
pub fn reflection_due(enabled: bool, fresh_events: i64) -> (r: bool)
    ensures
        r == (enabled && fresh_events >= REFLECT_MIN_EVENTS),
{
    enabled && fresh_events >= REFLECT_MIN_EVENTS
}

// ---------------------------------------------------------------------------
// The reflection request
// ---------------------------------------------------------------------------

/// The reflection's rules: reconcile both Observations sections from the
/// measured evidence and answer with one JSON object.
pub open spec fn reflect_system() -> Seq<char> {
    "You maintain two short \"how this user works\" profiles from MEASURED evidence. Rewrite both Observations sections (reconcile: keep what's still supported, update what changed, drop what the evidence no longer supports — do not append-only). Rules: every line is one bounded behavioral fact citing its evidence counts, e.g. \"- Prefers worked examples first (evidence: 9/11 re-asks followed definition-first explanations)\". NEVER personality-type the user (no \"visual learner\" labels). Each section under 1800 characters. Output ONLY this JSON:\n{\"learner_observations\":\"- ...\\n- ...\",\"review_observations\":\"- ...\\n- ...\"}"@
}

fn reflect_system_str() -> (r: &'static str)
    ensures
        r@ == reflect_system(),
{
    "You maintain two short \"how this user works\" profiles from MEASURED evidence. Rewrite both Observations sections (reconcile: keep what's still supported, update what changed, drop what the evidence no longer supports — do not append-only). Rules: every line is one bounded behavioral fact citing its evidence counts, e.g. \"- Prefers worked examples first (evidence: 9/11 re-asks followed definition-first explanations)\". NEVER personality-type the user (no \"visual learner\" labels). Each section under 1800 characters. Output ONLY this JSON:\n{\"learner_observations\":\"- ...\\n- ...\",\"review_observations\":\"- ...\\n- ...\"}"
}

/// The reflection prompt: the measured digest, the recent events and both
/// current Observations sections.
pub open spec fn reflection_prompt(
    facts_json: Seq<char>,
    evidence: Seq<char>,
    learner_now: Seq<char>,
    review_now: Seq<char>,
) -> Seq<char> {
    "Measured digest (deterministic):\n"@ + facts_json + "\n\nMost recent events (numbers/labels only):\n"@
        + evidence + "\n\nCurrent learner Observations:\n"@ + learner_now
        + "\n\nCurrent review Observations:\n"@ + review_now
}

/// The reflection request: no tools, the reflection's rules, the small model.
pub fn reflection_request(facts_json: &str, evidence: &str, learner_now: &str, review_now: &str) -> (r:
    ModelRequest)
    ensures
        r.prompt@ == reflection_prompt(facts_json@, evidence@, learner_now@, review_now@),
        r.allowed_tools@.len() == 0,
        r.system_append matches Some(s) && s@ == reflect_system(),
        r.model matches Some(m) && m@ == "haiku"@,
        r.session_id is None,
        r.cwd is None,
{
    let mut p: Vec<char> = Vec::new();
    push_str(&mut p, "Measured digest (deterministic):\n");
    push_str(&mut p, facts_json);
    push_str(&mut p, "\n\nMost recent events (numbers/labels only):\n");
    push_str(&mut p, evidence);
    push_str(&mut p, "\n\nCurrent learner Observations:\n");
    push_str(&mut p, learner_now);
    push_str(&mut p, "\n\nCurrent review Observations:\n");
    push_str(&mut p, review_now);
    assert(p@ =~= reflection_prompt(facts_json@, evidence@, learner_now@, review_now@));
    let prompt = string_of(&p);
    let mut req = ModelRequest::planning(prompt.as_str());
    req.allowed_tools = Vec::new();
    req.system_append = Some(string_of(&chars_of(reflect_system_str())));
    req.model = Some(string_of(&chars_of("haiku")));
    req
}

/// What a reflection that did not run reports: `disabled` while the profile
/// is off, `skipped (...)` below the event threshold; `None` when it is due.
pub open spec fn reflection_skip_spec(enabled: bool, fresh_events: i64) -> Option<Seq<char>> {
    if !enabled {
        Some("disabled"@)
    } else if fresh_events < REFLECT_MIN_EVENTS {
        Some("skipped ("@ + decimal(fresh_events as int) + " new events, need "@ + decimal(
            REFLECT_MIN_EVENTS as int,
        ) + ")"@)
    } else {
        None
    }
}

pub fn reflection_skip(enabled: bool, fresh_events: i64) -> (r: Option<String>)
    ensures
        match r {
            Some(s) => reflection_skip_spec(enabled, fresh_events) == Some(s@),
            None => reflection_skip_spec(enabled, fresh_events) is None,
        },
        r is None <==> (enabled && fresh_events >= REFLECT_MIN_EVENTS),
{
    if !enabled {
        return Some(string_of(&chars_of("disabled")));
    }
    if fresh_events < REFLECT_MIN_EVENTS {
        let mut s: Vec<char> = Vec::new();
        push_str(&mut s, "skipped (");
        push_all(&mut s, &i64_decimal(fresh_events));
        push_str(&mut s, " new events, need ");
        push_all(&mut s, &i64_decimal(REFLECT_MIN_EVENTS));
        push_str(&mut s, ")");
        return Some(string_of(&s));
    }
    None
}

/// What a reflection reports when the model could not answer: the facts were
/// still refreshed.
pub fn reflection_unavailable(failure: &str) -> (r: String)
    ensures
        r@ == "model unavailable — facts updated only ("@ + failure@ + ")"@,
{
    let mut s: Vec<char> = Vec::new();
    push_str(&mut s, "model unavailable — facts updated only (");
    push_str(&mut s, failure);
    push_str(&mut s, ")");
    string_of(&s)
}

// ---------------------------------------------------------------------------
// Laws
// ---------------------------------------------------------------------------

proof fn lemma_replaced_keeps_tail(content: Seq<char>, start: Seq<char>, end: Seq<char>, inner: Seq<char>, n: int)
    requires
        replaced(content, start, end, inner) is Some,
        first_occ(content, end) matches Some(e) && e <= n <= content.len(),
    ensures
        crate::text::ends_with(replaced(content, start, end, inner)->0, content.subrange(n, content.len() as int)),
{
    lemma_first_occ_bounds(content, start);
    lemma_first_occ_bounds(content, end);
    let u = replaced(content, start, end, inner)->0;
    let e = first_occ(content, end)->0;
    let a = first_occ(content, start)->0;
    let s = a + start.len();
    let pre = content.subrange(0, s) + "\n"@ + trim(inner) + "\n"@;
    let tail = content.subrange(e, content.len() as int);
    assert(u == pre + tail);
    let suf = content.subrange(n, content.len() as int);
    assert(tail.subrange(n - e, tail.len() as int) =~= suf);
    assert(u.subrange(u.len() - suf.len(), u.len() as int) =~= suf);
}

/// Where the notes header sits after the Observations end marker (as in
/// every file the app writes).
pub open spec fn notes_after_observations(content: Seq<char>) -> bool {
    match (first_occ(content, obs_end()), first_occ(content, notes_header())) {
        (Some(e), Some(n)) => e <= n,
        (Some(_), None) => true,
        _ => false,
    }
}

/// Law: rewriting the Observations of a well-formed file with an accepted
/// block always succeeds, and the user's notes come through unchanged.
pub proof fn law_observations_keep_notes(content: Seq<char>, obs: Seq<char>)
    requires
        replaced(content, obs_start(), obs_end(), trim(obs)) is Some,
        notes_after_observations(content),
        observations_refusal(obs) is None,
    ensures
        observations_result(content, obs) is Ok,
        first_occ(content, notes_header()) matches Some(n) ==> crate::text::ends_with(
            observations_result(content, obs)->Ok_0,
            content.subrange(n, content.len() as int),
        ),
{
    if let Some(n) = first_occ(content, notes_header()) {
        lemma_first_occ_bounds(content, notes_header());
        lemma_replaced_keeps_tail(content, obs_start(), obs_end(), trim(obs), n);
    }
}

/// Law: regenerating the Facts never touches the user's notes when they come
/// after the Facts region.
pub proof fn law_facts_keep_notes(content: Seq<char>, md: Seq<char>)
    requires
        replaced(content, facts_start(), facts_end(), md) is Some,
        first_occ(content, facts_end()) matches Some(e) && first_occ(content, notes_header()) matches Some(n) && e <= n,
    ensures
        crate::text::ends_with(
            replaced(content, facts_start(), facts_end(), md)->0,
            content.subrange(first_occ(content, notes_header())->0, content.len() as int),
        ),
{
    lemma_first_occ_bounds(content, notes_header());
    lemma_replaced_keeps_tail(content, facts_start(), facts_end(), md, first_occ(content, notes_header())->0);
}

proof fn lemma_first_occ_from_bounds(hay: Seq<char>, needle: Seq<char>, i: int)
    requires
        0 <= i,
    ensures
        first_occ_from(hay, needle, i) matches Some(k) ==> i <= k <= hay.len() && occurs_at(hay, needle, k),
    decreases hay.len() + 1 - i,
{
    if i <= hay.len() && !occurs_at(hay, needle, i) {
        lemma_first_occ_from_bounds(hay, needle, i + 1);
    }
}

pub proof fn lemma_first_occ_bounds(hay: Seq<char>, needle: Seq<char>)
    ensures
        first_occ(hay, needle) matches Some(k) ==> 0 <= k <= hay.len() && occurs_at(hay, needle, k),
{
    lemma_first_occ_from_bounds(hay, needle, 0);
}


/// A profile file and its content.
#[derive(Debug)]
pub struct ProfileFile {
    pub name: String,
    pub content: String,
}

/// The profile as the settings screen shows it.
#[derive(Debug)]
pub struct ProfileStatus {
    pub enabled: bool,
    pub unreflected_events: i64,
    pub files: Vec<ProfileFile>,
}

proof fn lemma_first_occ_from_min(hay: Seq<char>, needle: Seq<char>, i: int)
    ensures
        first_occ_from(hay, needle, i) matches Some(k) ==> forall|m: int| i <= m < k ==> !occurs_at(hay, needle, m),
    decreases hay.len() + 1 - i,
{
    if 0 <= i <= hay.len() && !occurs_at(hay, needle, i) {
        lemma_first_occ_from_min(hay, needle, i + 1);
    }
}

proof fn lemma_trim_framed(t: Seq<char>)
    requires
        t.len() == 0 || (!is_ws(t[0]) && !is_ws(t.last())),
    ensures
        trim(seq!['\n'] + t + seq!['\n']) == t,
{
    let x = seq!['\n'] + t + seq!['\n'];
    let y = t + seq!['\n'];
    assert(is_ws('\n'));
    assert(x[0] == '\n');
    assert(x.drop_first() =~= y);
    assert(trim_start(x) == trim_start(y));
    if t.len() == 0 {
        assert(y[0] == '\n');
        assert(y.drop_first() =~= Seq::<char>::empty());
        assert(trim_start(y) == trim_start(y.drop_first()));
        assert(trim_start(Seq::<char>::empty()) == Seq::<char>::empty());
        assert(crate::text::trim_end(Seq::<char>::empty()) == Seq::<char>::empty());
    } else {
        assert(y[0] == t[0]);
        assert(trim_start(y) == y);
        assert(y.last() == '\n');
        assert(y.drop_last() =~= t);
        assert(crate::text::trim_end(y) == crate::text::trim_end(t));
        assert(crate::text::trim_end(t) == t);
    }
}

/// Law: reading back the region just rewritten gives the new text, provided
/// the end marker is a non-empty single line that does not occur in it.
pub proof fn law_section_reads_back_replacement(content: Seq<char>, start: Seq<char>, end: Seq<char>, inner: Seq<char>)
    requires
        replaced(content, start, end, inner) is Some,
        end.len() > 0,
        forall|j: int| 0 <= j < end.len() ==> end[j] != '\n',
        !crate::text::contains_seq(trim(inner), end),
    ensures
        between(replaced(content, start, end, inner)->0, start, end) == Some(trim(inner)),
{
    assert(first_occ(content, start) is Some && first_occ(content, end) is Some);
    let a = first_occ(content, start)->0;
    let e = first_occ(content, end)->0;
    assert(e >= a + start.len());
    lemma_first_occ_bounds(content, start);
    lemma_first_occ_bounds(content, end);
    lemma_first_occ_from_min(content, start, 0);
    lemma_first_occ_from_min(content, end, 0);
    let s = a + start.len();
    let ti = trim(inner);
    let mid = seq!['\n'] + ti + seq!['\n'];
    let u = replaced(content, start, end, inner)->0;
    let pre = content.subrange(0, s);
    let post = content.subrange(e, content.len() as int);
    assert(u == pre + "\n"@ + ti + "\n"@ + post);
    reveal_strlit("\n");
    assert(u =~= pre + mid + post);
    let e2 = s + mid.len();
    // the start marker
    assert(u.subrange(a, s) =~= content.subrange(a, s));
    assert forall|m: int| 0 <= m < a implies !occurs_at(u, start, m) by {
        assert(!occurs_at(content, start, m));
        assert(u.subrange(m, m + start.len()) =~= content.subrange(m, m + start.len()));
    }
    lemma_first_occ_from(u, start, 0, Some(a));
    // the end marker
    assert(u.subrange(e2, e2 + end.len()) =~= content.subrange(e, e + end.len()));
    assert forall|m: int| 0 <= m < e2 implies !occurs_at(u, end, m) by {
        if occurs_at(u, end, m) {
            if m + end.len() <= s {
                assert(!occurs_at(content, end, m));
                assert(u.subrange(m, m + end.len()) =~= content.subrange(m, m + end.len()));
            } else if m < s {
                assert(u[s] == '\n');
                assert(u.subrange(m, m + end.len())[s - m] == u[s]);
            } else if m == s {
                assert(u.subrange(m, m + end.len())[0] == u[s]);
            } else if m + end.len() <= s + 1 + ti.len() {
                assert(u.subrange(m, m + end.len()) =~= ti.subrange(m - s - 1, m - s - 1 + end.len()));
                assert(occurs_at(ti, end, m - s - 1));
            } else {
                let q = s + 1 + ti.len();
                assert(u[q] == '\n');
                assert(u.subrange(m, m + end.len())[q - m] == u[q]);
            }
        }
    }
    lemma_first_occ_from(u, end, 0, Some(e2));
    assert(u.subrange(s, e2) =~= mid);
    crate::text::lemma_trim_ends(inner);
    lemma_trim_framed(ti);
}

} // verus!
