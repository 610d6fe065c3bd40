//! The Understand hub's cards: which known technologies a repository's
//! manifests mention (whole words only), normalizing a model-given domain,
//! validating generated card content, and the requests and clean-ups of the
//! term helper and the per-card chat.

use vstd::prelude::*;
use crate::runs::CancelToken;
use crate::json::{flexible_string, flexible_text, get, get_field, Json};
use crate::model::{
    outcome_spec, ran_once, request_with_system, result_view, run_req, system_request, ModelEvent,
    ModelProvider, ModelRequest, read_only_tools_spec,
};
use crate::text::{
    all_ws, chars_of, fence_safe, fence_safe_chars, is_ascii_alnum, is_ascii_alnum_char, is_blank,
    lowercase, lowercase_chars, matches_at, occurs_at, push_all, push_str, same_text, string_of,
    take, take_chars, trim, trimmed, utf8_len, utf8_bytes, utf8_char, lemma_utf8_char_shape,
    lemma_utf8_bytes_append, lemma_utf8_bytes_len, lemma_utf8_bytes_first, lemma_ascii_byte_is_a_char,
    lemma_utf8_prefix_decodes, lemma_utf8_len_bounds,
};

verus! {

/// A card of the Understand hub.
#[derive(Debug)]
pub struct Card {
    pub id: i64,
    pub term: String,
    pub domain: Option<String>,
    pub what_md: Option<String>,
    pub when_md: Option<String>,
    pub why_md: Option<String>,
    pub source: Option<String>,
}

/// A card has content when its "what" is present and not blank.
pub open spec fn card_has_content(c: Card) -> bool {
    c.what_md matches Some(w) && !all_ws(w@)
}

pub fn has_content(c: &Card) -> (r: bool)
    ensures
        r == card_has_content(*c),
{
    match &c.what_md {
        Some(w) => {
            let v = chars_of(w.as_str());
            !is_blank(&v)
        },
        None => false,
    }
}

// ---------------------------------------------------------------------------
// Whole-word mentions and tech detection
// ---------------------------------------------------------------------------

/// A character that continues a word (ASCII letter or digit).
pub fn is_word_char(c: char) -> (r: bool)
    ensures
        r == is_ascii_alnum(c),
{
    is_ascii_alnum_char(c)
}

/// `word` occurs at `i` with no word character right before or after it.
pub open spec fn word_at(hay: Seq<char>, word: Seq<char>, i: int) -> bool {
    &&& occurs_at(hay, word, i)
    &&& (i == 0 || !is_ascii_alnum(hay[i - 1]))
    &&& (i + word.len() >= hay.len() || !is_ascii_alnum(hay[i + word.len()]))
}

/// `hay` mentions `word` as a whole word (so "react" is not in "preact").
pub open spec fn mentions_word(hay: Seq<char>, word: Seq<char>) -> bool {
    exists|i: int| word_at(hay, word, i)
}

/// An ASCII letter or digit, as a byte.
pub open spec fn ascii_alnum_byte(b: u8) -> bool {
    (0x30 <= b <= 0x39) || (0x41 <= b <= 0x5A) || (0x61 <= b <= 0x7A)
}

/// The bytes `w` occur in `h` at byte `i` with no ASCII letter or digit byte
/// right before or after them.
pub open spec fn byte_word_at(h: Seq<u8>, w: Seq<u8>, i: int) -> bool {
    &&& 0 <= i && i + w.len() <= h.len() && h.subrange(i, i + w.len()) == w
    &&& (i == 0 || !ascii_alnum_byte(h[i - 1]))
    &&& (i + w.len() >= h.len() || !ascii_alnum_byte(h[i + w.len()]))
}

/// A character is an ASCII letter or digit exactly when the first (or the
/// last) byte of its encoding is; no other byte of it ever is.
proof fn lemma_alnum_bytes(c: char)
    ensures
        is_ascii_alnum(c) <==> ascii_alnum_byte(utf8_char(c)[0]),
        is_ascii_alnum(c) <==> ascii_alnum_byte(utf8_char(c).last()),
{
    lemma_utf8_char_shape(c);
    let u = c as u32;
    if u <= 0x7F {
        assert(((u as u8) as u32) == u) by (bit_vector)
            requires
                u <= 0x7F,
        ;
    } else {
        assert(utf8_char(c)[utf8_char(c).len() - 1] >= 0x80);
    }
}

/// A whole-word match over characters, read over the bytes.
proof fn lemma_word_at_bytes(hay: Seq<char>, word: Seq<char>, i: int)
    requires
        occurs_at(hay, word, i),
        word.len() > 0,
    ensures
        byte_word_at(utf8_bytes(hay), utf8_bytes(word), utf8_len(hay.subrange(0, i)) as int) == word_at(hay, word, i),
{
    let a = hay.subrange(0, i);
    let b = hay.subrange(i + word.len(), hay.len() as int);
    assert(hay =~= a + word + b);
    lemma_utf8_bytes_append(a + word, b);
    lemma_utf8_bytes_append(a, word);
    lemma_utf8_bytes_len(a);
    lemma_utf8_bytes_len(word);
    lemma_utf8_bytes_len(b);
    lemma_utf8_len_bounds(a);
    lemma_utf8_len_bounds(b);
    let h = utf8_bytes(hay);
    let ea = utf8_bytes(a);
    let ew = utf8_bytes(word);
    let eb = utf8_bytes(b);
    assert(h == ea + ew + eb);
    let bi = ea.len() as int;
    assert(h.subrange(bi, bi + ew.len()) =~= ew);
    if i > 0 {
        let l = utf8_char(a.last());
        assert(ea == utf8_bytes(a.drop_last()) + l);
        lemma_alnum_bytes(a.last());
        assert(h[bi - 1] == ea[bi - 1]);
        assert(ea[bi - 1] == l.last());
        assert(a.last() == hay[i - 1]);
    }
    if b.len() > 0 {
        lemma_utf8_bytes_first(b);
        lemma_alnum_bytes(b[0]);
        assert(h[bi + ew.len()] == eb[0]);
        assert(b[0] == hay[i + word.len()]);
    }
}

/// Law: for a word that starts with an ASCII character, whole-word presence
/// over characters agrees with the same test over the UTF-8 bytes: the
/// word's bytes occur with no ASCII letter or digit byte right before or
/// after them.
pub proof fn law_mentions_agrees_with_bytes(hay: Seq<char>, word: Seq<char>)
    requires
        word.len() > 0,
        (word[0] as u32) <= 0x7F,
    ensures
        mentions_word(hay, word) <==> exists|b: int| #[trigger] byte_word_at(utf8_bytes(hay), utf8_bytes(word), b),
{
    if mentions_word(hay, word) {
        let i = choose|i: int| word_at(hay, word, i);
        lemma_word_at_bytes(hay, word, i);
        assert(byte_word_at(utf8_bytes(hay), utf8_bytes(word), utf8_len(hay.subrange(0, i)) as int));
    }
    if exists|b: int| #[trigger] byte_word_at(utf8_bytes(hay), utf8_bytes(word), b) {
        let b = choose|b: int| #[trigger] byte_word_at(utf8_bytes(hay), utf8_bytes(word), b);
        let h = utf8_bytes(hay);
        let ew = utf8_bytes(word);
        lemma_utf8_bytes_first(word);
        lemma_utf8_char_shape(word[0]);
        assert(h[b] == ew[0]) by {
            assert(h.subrange(b, b + ew.len())[0] == h[b]);
        }
        lemma_ascii_byte_is_a_char(hay, b);
        let i = choose|i: int| 0 <= i < hay.len() && #[trigger] utf8_len(hay.subrange(0, i)) == b && (hay[i] as u32)
            <= 0x7F;
        let a = hay.subrange(0, i);
        let t = hay.subrange(i, hay.len() as int);
        assert(hay =~= a + t);
        lemma_utf8_bytes_append(a, t);
        lemma_utf8_bytes_len(a);
        let et = utf8_bytes(t);
        assert(et =~= h.subrange(b, h.len() as int));
        assert(et.subrange(0, ew.len() as int) =~= ew);
        lemma_utf8_prefix_decodes(t, word);
        assert(hay.subrange(i, i + word.len()) =~= t.subrange(0, word.len() as int));
        lemma_word_at_bytes(hay, word, i);
        assert(word_at(hay, word, i));
    }
}

fn word_at_exec(hay: &[char], word: &[char], i: usize) -> (r: bool)
    ensures
        r == word_at(hay@, word@, i as int),
{
    if !matches_at(hay, word, i) {
        return false;
    }
    let before_ok = i == 0 || !is_word_char(hay[i - 1]);
    let end = i + word.len();
    let after_ok = end >= hay.len() || !is_word_char(hay[end]);
    before_ok && after_ok
}

/// Whole-word presence of `word` in `haystack` (which should be lowercase).
pub fn mentions(haystack: &str, word: &str) -> (r: bool)
    ensures
        r == mentions_word(haystack@, word@),
{
    let hay = chars_of(haystack);
    let w = chars_of(word);
    let mut i: usize = 0;
    while i < hay.len()
        invariant
            i <= hay@.len(),
            hay@ == haystack@,
            w@ == word@,
            forall|j: int| 0 <= j < i ==> !#[trigger] word_at(hay@, w@, j),
        decreases hay@.len() - i,
    {
        if word_at_exec(&hay, &w, i) {
            return true;
        }
        i = i + 1;
    }
    if word_at_exec(&hay, &w, i) {
        return true;
    }
    assert forall|j: int| !#[trigger] word_at(hay@, w@, j) by {
        if j > hay@.len() {
            assert(!occurs_at(hay@, w@, j));
        }
    }
    false
}

/// The known technologies: (match key, display term, domain).
pub open spec fn tech_table() -> Seq<(Seq<char>, Seq<char>, Seq<char>)> {
    seq![
        ("react"@, "React"@, "frontend"@),
        ("vue"@, "Vue"@, "frontend"@),
        ("svelte"@, "Svelte"@, "frontend"@),
        ("angular"@, "Angular"@, "frontend"@),
        ("solid-js"@, "SolidJS"@, "frontend"@),
        ("next"@, "Next.js"@, "frontend"@),
        ("nuxt"@, "Nuxt"@, "frontend"@),
        ("vite"@, "Vite"@, "frontend"@),
        ("tailwindcss"@, "Tailwind CSS"@, "frontend"@),
        ("typescript"@, "TypeScript"@, "frontend"@),
        ("express"@, "Express"@, "backend"@),
        ("fastify"@, "Fastify"@, "backend"@),
        ("nestjs"@, "NestJS"@, "backend"@),
        ("django"@, "Django"@, "backend"@),
        ("flask"@, "Flask"@, "backend"@),
        ("fastapi"@, "FastAPI"@, "backend"@),
        ("rails"@, "Ruby on Rails"@, "backend"@),
        ("laravel"@, "Laravel"@, "backend"@),
        ("axum"@, "Axum"@, "backend"@),
        ("actix-web"@, "Actix Web"@, "backend"@),
        ("postgresql"@, "PostgreSQL"@, "backend"@),
        ("postgres"@, "PostgreSQL"@, "backend"@),
        ("mysql"@, "MySQL"@, "backend"@),
        ("sqlite"@, "SQLite"@, "backend"@),
        ("rusqlite"@, "SQLite"@, "backend"@),
        ("mongodb"@, "MongoDB"@, "backend"@),
        ("redis"@, "Redis"@, "backend"@),
        ("prisma"@, "Prisma"@, "backend"@),
        ("graphql"@, "GraphQL"@, "backend"@),
        ("tauri"@, "Tauri"@, "architecture"@),
        ("electron"@, "Electron"@, "architecture"@),
        ("docker"@, "Docker"@, "deployment"@),
        ("kubernetes"@, "Kubernetes"@, "deployment"@),
        ("terraform"@, "Terraform"@, "deployment"@),
        ("kafka"@, "Kafka"@, "pipes"@),
        ("celery"@, "Celery"@, "pipes"@),
        ("stripe"@, "Stripe"@, "pipes"@),
    ]
}

pub open spec fn triple_view(t: (&str, &str, &str)) -> (Seq<char>, Seq<char>, Seq<char>) {
    (t.0@, t.1@, t.2@)
}

pub fn known_tech() -> (v: Vec<(&'static str, &'static str, &'static str)>)
    ensures
        v@.map_values(|t: (&str, &str, &str)| triple_view(t)) == tech_table(),
{
    let mut v: Vec<(&'static str, &'static str, &'static str)> = Vec::new();
    v.push(("react", "React", "frontend"));
    v.push(("vue", "Vue", "frontend"));
    v.push(("svelte", "Svelte", "frontend"));
    v.push(("angular", "Angular", "frontend"));
    v.push(("solid-js", "SolidJS", "frontend"));
    v.push(("next", "Next.js", "frontend"));
    v.push(("nuxt", "Nuxt", "frontend"));
    v.push(("vite", "Vite", "frontend"));
    v.push(("tailwindcss", "Tailwind CSS", "frontend"));
    v.push(("typescript", "TypeScript", "frontend"));
    v.push(("express", "Express", "backend"));
    v.push(("fastify", "Fastify", "backend"));
    v.push(("nestjs", "NestJS", "backend"));
    v.push(("django", "Django", "backend"));
    v.push(("flask", "Flask", "backend"));
    v.push(("fastapi", "FastAPI", "backend"));
    v.push(("rails", "Ruby on Rails", "backend"));
    v.push(("laravel", "Laravel", "backend"));
    v.push(("axum", "Axum", "backend"));
    v.push(("actix-web", "Actix Web", "backend"));
    v.push(("postgresql", "PostgreSQL", "backend"));
    v.push(("postgres", "PostgreSQL", "backend"));
    v.push(("mysql", "MySQL", "backend"));
    v.push(("sqlite", "SQLite", "backend"));
    v.push(("rusqlite", "SQLite", "backend"));
    v.push(("mongodb", "MongoDB", "backend"));
    v.push(("redis", "Redis", "backend"));
    v.push(("prisma", "Prisma", "backend"));
    v.push(("graphql", "GraphQL", "backend"));
    v.push(("tauri", "Tauri", "architecture"));
    v.push(("electron", "Electron", "architecture"));
    v.push(("docker", "Docker", "deployment"));
    v.push(("kubernetes", "Kubernetes", "deployment"));
    v.push(("terraform", "Terraform", "deployment"));
    v.push(("kafka", "Kafka", "pipes"));
    v.push(("celery", "Celery", "pipes"));
    v.push(("stripe", "Stripe", "pipes"));
    assert(v@.map_values(|t: (&str, &str, &str)| triple_view(t)) =~= tech_table());
    v
}

/// The (term, domain) of every known technology the haystack mentions, in
/// table order.
pub open spec fn detected_upto(hay: Seq<char>, n: nat) -> Seq<(Seq<char>, Seq<char>)>
    decreases n,
{
    if n == 0 {
        Seq::empty()
    } else {
        let prev = detected_upto(hay, (n - 1) as nat);
        let t = tech_table()[n - 1];
        if mentions_word(hay, t.0) {
            prev.push((t.1, t.2))
        } else {
            prev
        }
    }
}

pub open spec fn pairs_view(v: Seq<(String, String)>) -> Seq<(Seq<char>, Seq<char>)> {
    v.map_values(|p: (String, String)| (p.0@, p.1@))
}

/// The technologies a lowercased manifest haystack mentions.
pub fn detected_tech(haystack: &str) -> (r: Vec<(String, String)>)
    ensures
        pairs_view(r@) == detected_upto(haystack@, tech_table().len()),
{
    let table = known_tech();
    let ghost tv = table@.map_values(|t: (&str, &str, &str)| triple_view(t));
    let mut out: Vec<(String, String)> = Vec::new();
    let mut i: usize = 0;
    while i < table.len()
        invariant
            i <= table@.len(),
            tv == table@.map_values(|t: (&str, &str, &str)| triple_view(t)),
            tv == tech_table(),
            pairs_view(out@) == detected_upto(haystack@, i as nat),
        decreases table@.len() - i,
    {
        let (key, term, domain) = table[i];
        assert(tv[i as int] == triple_view(table@[i as int]));
        if mentions(haystack, key) {
            out.push((term.to_owned(), domain.to_owned()));
            assert(pairs_view(out@) =~= detected_upto(haystack@, (i + 1) as nat));
        } else {
            assert(pairs_view(out@) =~= detected_upto(haystack@, (i + 1) as nat));
        }
        i = i + 1;
    }
    out
}

// ---------------------------------------------------------------------------
// Domains and generated content
// ---------------------------------------------------------------------------

/// A model-given domain mapped onto the schema's domains.
pub open spec fn domain_of(d: Seq<char>) -> Seq<char> {
    let k = lowercase(trim(d));
    if k == "architecture"@ {
        "architecture"@
    } else if k == "frontend"@ {
        "frontend"@
    } else if k == "backend"@ {
        "backend"@
    } else if k == "pipes"@ {
        "pipes"@
    } else if k == "deployment"@ {
        "deployment"@
    } else if k == "business"@ {
        "business"@
    } else if k == "design"@ {
        "design"@
    } else if k == "ux"@ {
        "ux"@
    } else {
        "other"@
    }
}

pub fn normalize_domain(d: &str) -> (r: &'static str)
    ensures
        r@ == domain_of(d@),
{
    let c = chars_of(d);
    let t = trimmed(&c);
    let k = lowercase_chars(&t);
    if same_text(&k, "architecture") {
        "architecture"
    } else if same_text(&k, "frontend") {
        "frontend"
    } else if same_text(&k, "backend") {
        "backend"
    } else if same_text(&k, "pipes") {
        "pipes"
    } else if same_text(&k, "deployment") {
        "deployment"
    } else if same_text(&k, "business") {
        "business"
    } else if same_text(&k, "design") {
        "design"
    } else if same_text(&k, "ux") {
        "ux"
    } else {
        "other"
    }
}

/// Generated card content.
#[derive(Debug)]
pub struct GenCard {
    pub domain: String,
    pub what: String,
    pub when: String,
    pub why: String,
}

pub open spec fn card_fields_ok(j: Json) -> bool {
    &&& j is Obj
    &&& flexible_text(get(j, "domain"@)) is Some
    &&& flexible_text(get(j, "what"@)) is Some
    &&& flexible_text(get(j, "when"@)) is Some
    &&& flexible_text(get(j, "why"@)) is Some
}

pub open spec fn malformed_card() -> Seq<char> {
    "Could not generate a card for that term — the model's response was malformed. Please try again."@
}

pub open spec fn incomplete_card() -> Seq<char> {
    "The model returned incomplete card content. Please try again."@
}

/// Validate parsed card content (`None` when the reply was not JSON): every
/// field readable as text, and what/when/why not blank, so an empty card is
/// never stored.
pub fn card_from_json(j: Option<&Json>) -> (r: Result<GenCard, String>)
    ensures
        match j {
            None => r matches Err(e) && e@ == malformed_card(),
            Some(v) => if !card_fields_ok(*v) {
                r matches Err(e) && e@ == malformed_card()
            } else if all_ws(flexible_text(get(*v, "what"@))->0) || all_ws(flexible_text(get(*v, "when"@))->0)
                || all_ws(flexible_text(get(*v, "why"@))->0) {
                r matches Err(e) && e@ == incomplete_card()
            } else {
                r matches Ok(c) && {
                    &&& Some(c.domain@) == flexible_text(get(*v, "domain"@))
                    &&& Some(c.what@) == flexible_text(get(*v, "what"@))
                    &&& Some(c.when@) == flexible_text(get(*v, "when"@))
                    &&& Some(c.why@) == flexible_text(get(*v, "why"@))
                }
            },
        },
{
    let v = match j {
        Some(v) => v,
        None => {
            return Err("Could not generate a card for that term — the model's response was malformed. Please try again.".to_owned());
        },
    };
    match v {
        Json::Obj(_) => {},
        _ => {
            return Err("Could not generate a card for that term — the model's response was malformed. Please try again.".to_owned());
        },
    }
    let domain = flexible_string(get_field(v, "domain"));
    let what = flexible_string(get_field(v, "what"));
    let when = flexible_string(get_field(v, "when"));
    let why = flexible_string(get_field(v, "why"));
    match (domain, what, when, why) {
        (Some(domain), Some(what), Some(when), Some(why)) => {
            let a = chars_of(what.as_str());
            let b = chars_of(when.as_str());
            let c = chars_of(why.as_str());
            if is_blank(&a) || is_blank(&b) || is_blank(&c) {
                Err("The model returned incomplete card content. Please try again.".to_owned())
            } else {
                Ok(GenCard { domain, what, when, why })
            }
        },
        _ => Err("Could not generate a card for that term — the model's response was malformed. Please try again.".to_owned()),
    }
}

// ---------------------------------------------------------------------------
// Model requests of the hub
// ---------------------------------------------------------------------------

pub open spec fn card_system() -> Seq<char> {
    "You explain one concept as a learning card for someone vibecoding the right way (covering build AND product topics, not just tech). Given a TERM, produce a concise, honest card. Be accurate; if the term is ambiguous, take its most common software/product meaning. No fluff, no hype.\n\nOutput ONLY this JSON object (first character {, last }):\n{\"domain\": one of \"architecture\"|\"frontend\"|\"backend\"|\"pipes\"|\"deployment\"|\"business\"|\"design\"|\"ux\"|\"other\",\n \"what\": \"1-2 sentences: what it is\",\n \"when\": \"1 sentence: when to use it / reach for it\",\n \"why\": \"1 sentence: why it matters or the key trade-off\"}"@
}

/// The request that generates a card's content for a term.
pub fn card_request(term: &str) -> (r: ModelRequest)
    ensures
        system_request(r, "Explain this term as a card: "@ + trim(term@), card_system()),
{
    let mut p: Vec<char> = Vec::new();
    push_str(&mut p, "Explain this term as a card: ");
    let t = chars_of(term);
    let tt = trimmed(&t);
    push_all(&mut p, &tt);
    let ps = string_of(&p);
    request_with_system(
        ps.as_str(),
        "You explain one concept as a learning card for someone vibecoding the right way (covering build AND product topics, not just tech). Given a TERM, produce a concise, honest card. Be accurate; if the term is ambiguous, take its most common software/product meaning. No fluff, no hype.\n\nOutput ONLY this JSON object (first character {, last }):\n{\"domain\": one of \"architecture\"|\"frontend\"|\"backend\"|\"pipes\"|\"deployment\"|\"business\"|\"design\"|\"ux\"|\"other\",\n \"what\": \"1-2 sentences: what it is\",\n \"when\": \"1 sentence: when to use it / reach for it\",\n \"why\": \"1 sentence: why it matters or the key trade-off\"}",
    )
}

/// Ask the model for a card's content; the reply text (to be validated by
/// `card_from_json` once parsed), or the run's failure.
pub fn generate_card<P: ModelProvider>(provider: &mut P, term: &str, cancel: &CancelToken) -> (r: Result<String, String>)
    ensures
        exists|req: ModelRequest, evs: Seq<ModelEvent>|
            #![trigger ran_once(*old(provider), *final(provider), req, evs)]
            system_request(req, "Explain this term as a card: "@ + trim(term@), card_system())
                && ran_once(*old(provider), *final(provider), req, evs) && result_view(r) == outcome_spec(evs),
{
    let req = card_request(term);
    run_req(provider, &req, cancel)
}

pub open spec fn clean_system() -> Seq<char> {
    "The user typed a concept/term to be explained, possibly with typos or awkward grammar. Return ONLY the corrected canonical name of the concept they meant — no quotes, no punctuation, no explanation, nothing else. If it is already correct, return it unchanged."@
}

/// The request that asks for a typed term's corrected name.
pub fn clean_request(input: &str) -> (r: ModelRequest)
    ensures
        system_request(r, "Term: "@ + trim(input@), clean_system()),
{
    let mut p: Vec<char> = Vec::new();
    push_str(&mut p, "Term: ");
    let t = chars_of(input);
    let tt = trimmed(&t);
    push_all(&mut p, &tt);
    let ps = string_of(&p);
    request_with_system(
        ps.as_str(),
        "The user typed a concept/term to be explained, possibly with typos or awkward grammar. Return ONLY the corrected canonical name of the concept they meant — no quotes, no punctuation, no explanation, nothing else. If it is already correct, return it unchanged.",
    )
}

/// Text before the first line break.
pub open spec fn before_newline(s: Seq<char>) -> Seq<char> {
    match crate::github::first_char(s, '\n') {
        Some(i) => s.subrange(0, i),
        None => s,
    }
}

pub open spec fn trim_quote_start(s: Seq<char>) -> Seq<char>
    decreases s.len(),
{
    if s.len() > 0 && s[0] == '"' {
        trim_quote_start(s.drop_first())
    } else {
        s
    }
}

pub open spec fn trim_quote_end(s: Seq<char>) -> Seq<char>
    decreases s.len(),
{
    if s.len() > 0 && s.last() == '"' {
        trim_quote_end(s.drop_last())
    } else {
        s
    }
}

/// The corrected term from the model's reply: its first line, trimmed and
/// unquoted, at most 200 characters; the typed term (trimmed, capped) when
/// that leaves nothing.
pub open spec fn cleaned_term(reply: Seq<char>, input: Seq<char>) -> Seq<char> {
    let c = take(trim_quote_end(trim_quote_start(trim(before_newline(trim(reply))))), 200);
    if c.len() == 0 {
        take(trim(input), 200)
    } else {
        c
    }
}

proof fn lemma_quote_start_skip(s: Seq<char>, i: int)
    requires
        0 <= i <= s.len(),
        forall|k: int| 0 <= k < i ==> #[trigger] s[k] == '"',
    ensures
        trim_quote_start(s) == trim_quote_start(s.subrange(i, s.len() as int)),
    decreases i,
{
    if i > 0 {
        lemma_quote_start_skip(s, i - 1);
        let t = s.subrange(i - 1, s.len() as int);
        assert(t.drop_first() =~= s.subrange(i, s.len() as int));
        assert(t[0] == s[i - 1]);
    } else {
        assert(s.subrange(0, s.len() as int) =~= s);
    }
}

proof fn lemma_quote_end_skip(s: Seq<char>, j: int)
    requires
        0 <= j <= s.len(),
        forall|k: int| j <= k < s.len() ==> #[trigger] s[k] == '"',
    ensures
        trim_quote_end(s) == trim_quote_end(s.subrange(0, j)),
    decreases s.len() - j,
{
    if j < s.len() {
        lemma_quote_end_skip(s, j + 1);
        let t = s.subrange(0, j + 1);
        assert(t.drop_last() =~= s.subrange(0, j));
        assert(t.last() == s[j]);
    } else {
        assert(s.subrange(0, s.len() as int) =~= s);
    }
}

fn trim_quotes(s: &[char]) -> (r: Vec<char>)
    ensures
        r@ == trim_quote_end(trim_quote_start(s@)),
{
    let mut lo: usize = 0;
    while lo < s.len() && s[lo] == '"'
        invariant
            lo <= s.len(),
            forall|k: int| 0 <= k < lo ==> #[trigger] s@[k] == '"',
        decreases s.len() - lo,
    {
        lo = lo + 1;
    }
    proof {
        lemma_quote_start_skip(s@, lo as int);
    }
    let ghost t = s@.subrange(lo as int, s.len() as int);
    if lo == s.len() {
        assert(t.len() == 0);
        return Vec::new();
    }
    assert(trim_quote_start(t) == t) by {
        assert(t[0] != '"');
    }
    let mut hi: usize = s.len();
    while hi > lo && s[hi - 1] == '"'
        invariant
            lo < s.len(),
            lo <= hi <= s.len(),
            s@[lo as int] != '"',
            forall|k: int| hi <= k < s.len() ==> #[trigger] s@[k] == '"',
        decreases hi,
    {
        hi = hi - 1;
    }
    proof {
        lemma_quote_end_skip(t, hi - lo);
        assert(t.subrange(0, hi - lo) =~= s@.subrange(lo as int, hi as int));
        let u = s@.subrange(lo as int, hi as int);
        assert(u.len() > 0 && u.last() != '"');
    }
    crate::text::slice_chars(s, lo, hi)
}

fn find_newline(s: &[char]) -> (r: Option<usize>)
    ensures
        match r {
            Some(i) => crate::github::first_char(s@, '\n') == Some(i as int) && i < s@.len(),
            None => crate::github::first_char(s@, '\n') is None,
        },
{
    crate::github::find_char(s, '\n')
}

/// The corrected term from a reply (see `cleaned_term`).
pub fn cleaned_term_of(reply: &str, input: &str) -> (r: String)
    ensures
        r@ == cleaned_term(reply@, input@),
{
    let all = chars_of(reply);
    let t = trimmed(&all);
    let line = match find_newline(&t) {
        Some(i) => crate::text::slice_chars(&t, 0, i),
        None => t,
    };
    let lt = trimmed(&line);
    let q = trim_quotes(&lt);
    let c = take_chars(&q, 200);
    if c.len() == 0 {
        let ic = chars_of(input);
        let it = trimmed(&ic);
        let r = take_chars(&it, 200);
        string_of(&r)
    } else {
        string_of(&c)
    }
}

/// Clean up a typed term with the model's help.
pub fn clean_term<P: ModelProvider>(provider: &mut P, input: &str, cancel: &CancelToken) -> (r: Result<String, String>)
    ensures
        exists|req: ModelRequest, evs: Seq<ModelEvent>|
            #![trigger ran_once(*old(provider), *final(provider), req, evs)]
            system_request(req, "Term: "@ + trim(input@), clean_system()) && ran_once(*old(provider), *final(provider), req, evs)
                && match outcome_spec(evs) {
                Ok(t) => r matches Ok(s) && s@ == cleaned_term(t, input@),
                Err(e) => r matches Err(x) && x@ == e,
            },
{
    let req = clean_request(input);
    let out = run_req(provider, &req, cancel);
    let ghost evs = choose|evs: Seq<ModelEvent>| result_view(out) == outcome_spec(evs);
    match out {
        Ok(t) => Ok(cleaned_term_of(t.as_str(), input)),
        Err(e) => Err(e),
    }
}

/// Law: a cleaned term never holds more than 200 characters, and it is never
/// empty when the typed term was not blank.
pub proof fn law_cleaned_term_is_bounded(reply: Seq<char>, input: Seq<char>)
    ensures
        cleaned_term(reply, input).len() <= 200,
        !all_ws(input) ==> cleaned_term(reply, input).len() > 0,
{
    crate::text::lemma_trim_len(input);
}

/// A message of a card's chat.
#[derive(Debug)]
pub struct CardMsg {
    pub role: String,
    pub content: String,
}

pub open spec fn chat_line(m: CardMsg) -> Seq<char> {
    "- "@ + (if m.role@ == "user"@ {
        "You"@
    } else {
        "Helper"@
    }) + ": "@ + fence_safe(trim(m.content@)) + "\n"@
}

pub open spec fn chat_lines(h: Seq<CardMsg>) -> Seq<char>
    decreases h.len(),
{
    if h.len() == 0 {
        Seq::empty()
    } else {
        chat_lines(h.drop_last()) + chat_line(h.last())
    }
}

/// The system prompt of a card's chat: the concept as data, then the
/// conversation so far as untrusted data.
pub open spec fn chat_system(term: Seq<char>, what: Seq<char>, why: Seq<char>, history: Seq<CardMsg>) -> Seq<char> {
    "You are explaining the concept '"@ + fence_safe(term)
        + "' to a builder. Lead with a DIRECT answer to their question, then add brief context. Be concrete and honest; never invent. Stay grounded in this concept.\n\n## Concept (DATA)\n- What: "@
        + fence_safe(what) + "\n- Why: "@ + fence_safe(why) + "\n"@ + if history.len() == 0 {
        Seq::empty()
    } else {
        "\n## Conversation so far (DATA — untrusted)\n"@ + chat_lines(history)
    }
}

/// Law: a card's chat is grounded in the card: its system text names the
/// concept and says what it is and why it matters (backticks made safe),
/// and, once there is a conversation, closes with every earlier turn in order.
pub proof fn law_card_chat_is_grounded(term: Seq<char>, what: Seq<char>, why: Seq<char>, history: Seq<CardMsg>)
    ensures
        crate::text::contains_seq(chat_system(term, what, why, history), fence_safe(term)),
        crate::text::contains_seq(chat_system(term, what, why, history), fence_safe(what)),
        crate::text::contains_seq(chat_system(term, what, why, history), fence_safe(why)),
        history.len() > 0 ==> crate::text::ends_with(
            chat_system(term, what, why, history),
            "\n## Conversation so far (DATA — untrusted)\n"@ + chat_lines(history),
        ),
{
    let s = chat_system(term, what, why, history);
    let a = "You are explaining the concept '"@;
    let b = "' to a builder. Lead with a DIRECT answer to their question, then add brief context. Be concrete and honest; never invent. Stay grounded in this concept.\n\n## Concept (DATA)\n- What: "@;
    let c = "\n- Why: "@;
    let d = "\n"@;
    let h = if history.len() == 0 {
        Seq::<char>::empty()
    } else {
        "\n## Conversation so far (DATA — untrusted)\n"@ + chat_lines(history)
    };
    let ft = fence_safe(term);
    let fw = fence_safe(what);
    let fy = fence_safe(why);
    assert(s =~= a + ft + (b + fw + c + fy + d + h));
    crate::text::lemma_occurs_in_concat(a, ft, b + fw + c + fy + d + h);
    assert(s =~= (a + ft + b) + fw + (c + fy + d + h));
    crate::text::lemma_occurs_in_concat(a + ft + b, fw, c + fy + d + h);
    assert(s =~= (a + ft + b + fw + c) + fy + (d + h));
    crate::text::lemma_occurs_in_concat(a + ft + b + fw + c, fy, d + h);
    let head = a + ft + b + fw + c + fy + d;
    assert(s =~= head + h);
    assert(s.subrange(s.len() - h.len(), s.len() as int) =~= h);
}

/// The request of one chat turn about a card.
pub fn chat_request(term: &str, what: &str, why: &str, history: &Vec<CardMsg>, message: &str) -> (r: ModelRequest)
    ensures
        system_request(r, trim(message@), chat_system(term@, what@, why@, history@)),
{
    let mut sys: Vec<char> = Vec::new();
    push_str(&mut sys, "You are explaining the concept '");
    let t = fence_safe_chars(&chars_of(term));
    push_all(&mut sys, &t);
    push_str(
        &mut sys,
        "' to a builder. Lead with a DIRECT answer to their question, then add brief context. Be concrete and honest; never invent. Stay grounded in this concept.\n\n## Concept (DATA)\n- What: ",
    );
    let w = fence_safe_chars(&chars_of(what));
    push_all(&mut sys, &w);
    push_str(&mut sys, "\n- Why: ");
    let y = fence_safe_chars(&chars_of(why));
    push_all(&mut sys, &y);
    push_str(&mut sys, "\n");
    let ghost base = sys@;
    if history.len() > 0 {
        push_str(&mut sys, "\n## Conversation so far (DATA — untrusted)\n");
        let ghost head = sys@;
        let mut i: usize = 0;
        while i < history.len()
            invariant
                i <= history@.len(),
                sys@ == head + chat_lines(history@.subrange(0, i as int)),
            decreases history@.len() - i,
        {
            let m = &history[i];
            let ghost before = sys@;
            push_str(&mut sys, "- ");
            let rc = chars_of(m.role.as_str());
            if same_text(&rc, "user") {
                push_str(&mut sys, "You");
            } else {
                push_str(&mut sys, "Helper");
            }
            push_str(&mut sys, ": ");
            let cc = chars_of(m.content.as_str());
            let ct = trimmed(&cc);
            let cf = fence_safe_chars(&ct);
            push_all(&mut sys, &cf);
            push_str(&mut sys, "\n");
            proof {
                let s = history@.subrange(0, i + 1);
                assert(s.drop_last() =~= history@.subrange(0, i as int));
                assert(s.last() == history@[i as int]);
                assert(sys@ =~= before + chat_line(history@[i as int]));
            }
            i = i + 1;
        }
        assert(history@.subrange(0, i as int) =~= history@);
    }
    assert(sys@ =~= chat_system(term@, what@, why@, history@));
    let m = chars_of(message);
    let mt = trimmed(&m);
    let ms = string_of(&mt);
    let ss = string_of(&sys);
    request_with_system(ms.as_str(), ss.as_str())
}

/// One turn of a card's chat: the model's reply, trimmed.
pub fn chat_reply<P: ModelProvider>(
    provider: &mut P,
    term: &str,
    what: &str,
    why: &str,
    history: &Vec<CardMsg>,
    message: &str,
    cancel: &CancelToken,
) -> (r: Result<String, String>)
    ensures
        exists|req: ModelRequest, evs: Seq<ModelEvent>|
            #![trigger ran_once(*old(provider), *final(provider), req, evs)]
            system_request(req, trim(message@), chat_system(term@, what@, why@, history@))
                && ran_once(*old(provider), *final(provider), req, evs) && match outcome_spec(evs) {
                Ok(t) => r matches Ok(s) && s@ == trim(t),
                Err(e) => r matches Err(x) && x@ == e,
            },
{
    let req = chat_request(term, what, why, history, message);
    let out = run_req(provider, &req, cancel);
    let ghost evs = choose|evs: Seq<ModelEvent>| result_view(out) == outcome_spec(evs);
    match out {
        Ok(t) => {
            let c = chars_of(t.as_str());
            let tt = trimmed(&c);
            Ok(string_of(&tt))
        },
        Err(e) => Err(e),
    }
}

// ---------------------------------------------------------------------------
// Premade questions for a card
// ---------------------------------------------------------------------------

pub open spec fn premade_system() -> Seq<char> {
    "Given a software/product CONCEPT, write 6 short, specific questions a builder might ask to understand it well — varied across what it is, when to use it, trade-offs, a concrete example, a common pitfall, and how it applies in practice. Each under 90 characters. Output ONLY this JSON: {\"questions\":[\"...\",\"...\",\"...\",\"...\",\"...\",\"...\"]}"@
}

/// The request for a concept's starter questions.
pub fn premade_request(term: &str) -> (r: ModelRequest)
    ensures
        system_request(r, "Concept: "@ + trim(term@), premade_system()),
{
    let mut p: Vec<char> = Vec::new();
    push_str(&mut p, "Concept: ");
    push_all(&mut p, &trimmed(&chars_of(term)));
    let ps = string_of(&p);
    request_with_system(ps.as_str(), "Given a software/product CONCEPT, write 6 short, specific questions a builder might ask to understand it well — varied across what it is, when to use it, trade-offs, a concrete example, a common pitfall, and how it applies in practice. Each under 90 characters. Output ONLY this JSON: {\"questions\":[\"...\",\"...\",\"...\",\"...\",\"...\",\"...\"]}")
}

/// Ask the model for a concept's starter questions; the reply text (to be
/// read by `premade_from_json` once parsed), or the run's failure.
pub fn generate_questions<P: ModelProvider>(provider: &mut P, term: &str, cancel: &CancelToken) -> (r: Result<String, String>)
    ensures
        exists|req: ModelRequest, evs: Seq<ModelEvent>|
            #![trigger ran_once(*old(provider), *final(provider), req, evs)]
            system_request(req, "Concept: "@ + trim(term@), premade_system()) && ran_once(*old(provider), *final(provider), req, evs)
                && result_view(r) == outcome_spec(evs),
{
    let req = premade_request(term);
    run_req(provider, &req, cancel)
}

/// The `questions` member, when it is an array of strings.
pub open spec fn premade_items(j: Json) -> Option<Seq<Json>> {
    match get(j, "questions"@) {
        Some(Json::Arr(a)) => if forall|i: int| 0 <= i < a@.len() ==> #[trigger] a@[i] is Str {
            Some(a@)
        } else {
            None
        },
        _ => None,
    }
}

/// A question as kept: trimmed, at most 200 characters.
pub open spec fn premade_text(j: Json) -> Seq<char> {
    match j {
        Json::Str(q) => take(trim(q@), 200),
        _ => Seq::empty(),
    }
}

/// The first ten non-blank questions among the first `n` items.
pub open spec fn premade_upto(items: Seq<Json>, n: nat) -> Seq<Seq<char>>
    decreases n,
{
    if n == 0 {
        Seq::empty()
    } else {
        let prev = premade_upto(items, (n - 1) as nat);
        let q = premade_text(items[n - 1]);
        if q.len() > 0 && prev.len() < 10 {
            prev.push(q)
        } else {
            prev
        }
    }
}

pub open spec fn strings_view(v: Seq<String>) -> Seq<Seq<char>> {
    v.map_values(|s: String| s@)
}

/// Read the starter questions of a parsed reply (`None` when it was not JSON).
pub fn premade_from_json(j: Option<&Json>) -> (r: Result<Vec<String>, String>)
    ensures
        match j {
            Some(v) => match premade_items(*v) {
                Some(items) => if premade_upto(items, items.len()).len() == 0 {
                    r matches Err(e) && e@ == "No questions were generated."@
                } else {
                    r matches Ok(qs) && strings_view(qs@) == premade_upto(items, items.len())
                },
                None => r matches Err(e) && e@ == "The questions response was malformed."@,
            },
            None => r matches Err(e) && e@ == "The questions response was malformed."@,
        },
{
    let v = match j {
        Some(v) => v,
        None => {
            return Err("The questions response was malformed.".to_owned());
        },
    };
    let items = match get_field(v, "questions") {
        Some(Json::Arr(a)) => a,
        _ => {
            return Err("The questions response was malformed.".to_owned());
        },
    };
    let mut k: usize = 0;
    while k < items.len()
        invariant
            k <= items@.len(),
            j == Some(v),
            get(*v, "questions"@) == Some(Json::Arr(*items)),
            forall|i: int| 0 <= i < k ==> #[trigger] items@[i] is Str,
        decreases items@.len() - k,
    {
        match &items[k] {
            Json::Str(_) => {},
            _ => {
                assert(!(items@[k as int] is Str));
                return Err("The questions response was malformed.".to_owned());
            },
        }
        k = k + 1;
    }
    assert(premade_items(*v) == Some(items@));
    let mut out: Vec<String> = Vec::new();
    let mut i: usize = 0;
    while i < items.len()
        invariant
            i <= items@.len(),
            strings_view(out@) == premade_upto(items@, i as nat),
        decreases items@.len() - i,
    {
        let q = match &items[i] {
            Json::Str(q) => take_chars(&trimmed(&chars_of(q.as_str())), 200),
            _ => Vec::new(),
        };
        if q.len() > 0 && out.len() < 10 {
            let ghost before = out@;
            out.push(string_of(&q));
            assert(strings_view(out@) =~= strings_view(before).push(q@));
        }
        i = i + 1;
    }
    if out.len() == 0 {
        return Err("No questions were generated.".to_owned());
    }
    Ok(out)
}

// ---------------------------------------------------------------------------
// Checks on what the user types
// ---------------------------------------------------------------------------

/// The source a generated card is stored with: a detected card stays
/// detected, any other becomes generated.
pub fn generated_source(existing: &Option<String>) -> (r: &'static str)
    ensures
        r@ == (if existing matches Some(s) && s@ == "detected"@ {
            "detected"@
        } else {
            "generated"@
        }),
{
    match existing {
        Some(s) => {
            if same_text(&chars_of(s.as_str()), "detected") {
                "detected"
            } else {
                "generated"
            }
        },
        None => "generated",
    }
}

/// What a captured explanation stores: its trimmed text; refused when blank.
pub fn captured_text(explanation: &str) -> (r: Result<String, String>)
    ensures
        match r {
            Ok(t) => !all_ws(explanation@) && t@ == trim(explanation@),
            Err(e) => all_ws(explanation@) && e@ == "Nothing to capture."@,
        },
{
    let c = chars_of(explanation);
    if is_blank(&c) {
        return Err("Nothing to capture.".to_owned());
    }
    Ok(string_of(&trimmed(&c)))
}

/// The term a card is explained for: trimmed, at most 200 characters.
pub fn explain_term(term: &str) -> (r: Result<String, String>)
    ensures
        match r {
            Ok(t) => !all_ws(term@) && t@ == take(trim(term@), 200),
            Err(e) => all_ws(term@) && e@ == "Enter a term to explain."@,
        },
{
    let c = chars_of(term);
    if is_blank(&c) {
        return Err("Enter a term to explain.".to_owned());
    }
    Ok(string_of(&take_chars(&trimmed(&c), 200)))
}

/// A captured explanation's term (trimmed), or why the capture is refused.
pub fn check_capture(term: &str, explanation: &str) -> (r: Result<String, String>)
    ensures
        match r {
            Ok(t) => {
                &&& !all_ws(term@) && trim(term@).len() <= 200 && crate::text::utf8_len(explanation@) <= 10000
                &&& t@ == trim(term@)
            },
            Err(e) => if all_ws(term@) {
                e@ == "A card needs a term."@
            } else if trim(term@).len() > 200 {
                e@ == "Term is too long (max 200 characters)."@
            } else {
                crate::text::utf8_len(explanation@) > 10000 && e@ == "Explanation is too long (max 10000 characters)."@
            },
        },
{
    let c = chars_of(term);
    if is_blank(&c) {
        return Err("A card needs a term.".to_owned());
    }
    let t = trimmed(&c);
    if t.len() > 200 {
        return Err("Term is too long (max 200 characters).".to_owned());
    }
    if crate::sections::byte_len128(&chars_of(explanation)) > 10000 {
        return Err("Explanation is too long (max 10000 characters).".to_owned());
    }
    Ok(string_of(&t))
}

/// A question for a card's chat, trimmed, or why it cannot be sent.
pub fn check_card_message(message: &str) -> (r: Result<String, String>)
    ensures
        match r {
            Ok(m) => !all_ws(message@) && trim(message@).len() <= 4000 && m@ == trim(message@),
            Err(e) => if all_ws(message@) {
                e@ == "Type a question first."@
            } else {
                trim(message@).len() > 4000 && e@ == "Message is too long."@
            },
        },
{
    let c = chars_of(message);
    if is_blank(&c) {
        return Err("Type a question first.".to_owned());
    }
    let t = trimmed(&c);
    if t.len() > 4000 {
        return Err("Message is too long.".to_owned());
    }
    Ok(string_of(&t))
}

} // verus!
