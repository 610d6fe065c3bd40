//! The project records the app keeps: projects, captured features,
//! decisions and the plan audit trail — their shapes and the checks and
//! bookkeeping applied before they are stored.

use vstd::prelude::*;
use crate::text::{
    all_ws, chars_of, decimal, i64_decimal, is_blank, push_all, push_str, same_text, string_of, trim,
    trimmed, utf8_len,
};
use crate::sections::byte_len128;

verus! {

#[derive(Debug)]
pub struct Project {
    pub id: i64,
    pub name: String,
    pub kind: String,
    pub app_type: Option<String>,
    pub github_repo_url: Option<String>,
    pub clone_path: Option<String>,
    pub default_branch: Option<String>,
    pub created_at: String,
    pub updated_at: String,
}

#[derive(Debug)]
pub struct Feature {
    pub id: i64,
    pub title: String,
    pub detail: Option<String>,
    pub source: Option<String>,
    pub status: String,
    pub created_at: String,
}

#[derive(Debug)]
pub struct Decision {
    pub id: i64,
    pub topic: String,
    pub choice: String,
    pub rationale: Option<String>,
    pub alternatives: Option<String>,
    pub consequences: Option<String>,
    pub source_ref: Option<String>,
    pub status: String,
    pub created_at: String,
}

/// One "source produced plan version N" entry.
#[derive(Debug)]
pub struct AuditEntry {
    pub version: i64,
    pub source: String,
    pub at: String,
}

/// A project name, trimmed, or why it is refused.
pub fn check_project_name(name: &str) -> (r: Result<String, String>)
    ensures
        match r {
            Ok(n) => !all_ws(name@) && n@ == trim(name@),
            Err(e) => all_ws(name@) && e@ == "Project name cannot be empty."@,
        },
{
    let c = chars_of(name);
    if is_blank(&c) {
        return Err("Project name cannot be empty.".to_owned());
    }
    Ok(string_of(&trimmed(&c)))
}

/// A project kind is "imported" or "new".
pub fn check_project_kind(kind: &str) -> (r: Result<(), String>)
    ensures
        match r {
            Ok(()) => kind@ == "imported"@ || kind@ == "new"@,
            Err(e) => !(kind@ == "imported"@ || kind@ == "new"@) && e@ == "Invalid project kind '"@ + kind@
                + "'. Expected 'imported' or 'new'."@,
        },
{
    let c = chars_of(kind);
    if same_text(&c, "imported") || same_text(&c, "new") {
        return Ok(());
    }
    let mut e: Vec<char> = Vec::new();
    push_str(&mut e, "Invalid project kind '");
    push_all(&mut e, &c);
    push_str(&mut e, "'. Expected 'imported' or 'new'.");
    Err(string_of(&e))
}

/// A captured feature as stored: title and detail trimmed, the source
/// "audio" or "text".
#[derive(Debug)]
pub struct NewFeature {
    pub title: String,
    pub detail: String,
    pub source: &'static str,
}

pub fn check_feature(title: &str, detail: &str, source: &str) -> (r: Result<NewFeature, String>)
    ensures
        match r {
            Ok(f) => {
                &&& !all_ws(title@) && trim(title@).len() <= 200 && utf8_len(detail@) <= 10000
                &&& f.title@ == trim(title@)
                &&& f.detail@ == trim(detail@)
                &&& f.source@ == if source@ == "audio"@ { "audio"@ } else { "text"@ }
            },
            Err(e) => if all_ws(title@) {
                e@ == "A feature needs a title."@
            } else if trim(title@).len() > 200 {
                e@ == "Title is too long (max 200 characters)."@
            } else {
                utf8_len(detail@) > 10000 && e@ == "Detail is too long (max 10000 characters)."@
            },
        },
{
    let tc = chars_of(title);
    if is_blank(&tc) {
        return Err("A feature needs a title.".to_owned());
    }
    let t = trimmed(&tc);
    if t.len() > 200 {
        return Err("Title is too long (max 200 characters).".to_owned());
    }
    let dc = chars_of(detail);
    if byte_len128(&dc) > 10000 {
        return Err("Detail is too long (max 10000 characters).".to_owned());
    }
    let src: &'static str = if same_text(&chars_of(source), "audio") {
        "audio"
    } else {
        "text"
    };
    Ok(NewFeature { title: string_of(&t), detail: string_of(&trimmed(&dc)), source: src })
}

/// The statuses a feature can be set to.
pub open spec fn feature_status_ok(s: Seq<char>) -> bool {
    s == "inbox"@ || s == "triaged"@ || s == "in_plan"@ || s == "rejected"@
}

pub fn valid_feature_status(status: &str) -> (r: bool)
    ensures
        r == feature_status_ok(status@),
{
    let c = chars_of(status);
    same_text(&c, "inbox") || same_text(&c, "triaged") || same_text(&c, "in_plan") || same_text(&c, "rejected")
}

/// The settings key a project's audit trail is kept under.
pub fn key(project_id: i64) -> (r: String)
    ensures
        r@ == "audit:"@ + decimal(project_id as int),
{
    let mut out: Vec<char> = Vec::new();
    push_str(&mut out, "audit:");
    push_all(&mut out, &i64_decimal(project_id));
    string_of(&out)
}

/// Entries the audit trail keeps (oldest dropped first).
pub const MAX_AUDIT_ENTRIES: usize = 50;

pub open spec fn audit_view(e: AuditEntry) -> (i64, Seq<char>, Seq<char>) {
    (e.version, e.source@, e.at@)
}

pub open spec fn audit_seq(v: Seq<AuditEntry>) -> Seq<(i64, Seq<char>, Seq<char>)> {
    v.map_values(|e: AuditEntry| audit_view(e))
}

/// The trail after appending an entry: the newest 50 of the old trail plus
/// the entry.
pub open spec fn appended(prev: Seq<(i64, Seq<char>, Seq<char>)>, e: (i64, Seq<char>, Seq<char>)) -> Seq<(i64, Seq<char>, Seq<char>)> {
    let all = prev.push(e);
    if all.len() > MAX_AUDIT_ENTRIES {
        all.subrange(all.len() - MAX_AUDIT_ENTRIES, all.len() as int)
    } else {
        all
    }
}

/// Append to the audit trail, keeping at most the newest 50 entries.
pub fn append_audit(entries: &mut Vec<AuditEntry>, entry: AuditEntry)
    ensures
        audit_seq(final(entries)@) == appended(audit_seq(old(entries)@), audit_view(entry)),
{
    let ghost e0 = audit_seq(entries@).push(audit_view(entry));
    entries.push(entry);
    assert(audit_seq(entries@) =~= e0);
    assert(entries@.len() == e0.len());
    if entries.len() > MAX_AUDIT_ENTRIES {
        let drop = entries.len() - MAX_AUDIT_ENTRIES;
        let mut i: usize = 0;
        while i < drop
            invariant
                i <= drop,
                drop == e0.len() - MAX_AUDIT_ENTRIES,
                e0.len() > MAX_AUDIT_ENTRIES,
                entries@.len() == e0.len() - i,
                audit_seq(entries@) == e0.subrange(i as int, e0.len() as int),
            decreases drop - i,
        {
            let ghost before = entries@;
            let _oldest = entries.remove(0);
            assert(entries@ =~= before.subrange(1, before.len() as int));
            assert(audit_seq(entries@) =~= audit_seq(before).subrange(1, before.len() as int));
            i = i + 1;
            assert(audit_seq(entries@) =~= e0.subrange(i as int, e0.len() as int));
        }
    }
}

/// Law: whatever the trail held, after an append it holds at most 50
/// entries, ends with the new one, and keeps the newest of the old ones in
/// order before it.
pub proof fn law_audit_trail_bounded(prev: Seq<(i64, Seq<char>, Seq<char>)>, e: (i64, Seq<char>, Seq<char>))
    ensures
        appended(prev, e).len() <= MAX_AUDIT_ENTRIES,
        appended(prev, e).len() == if prev.len() < MAX_AUDIT_ENTRIES { prev.len() + 1 } else { MAX_AUDIT_ENTRIES as nat },
        appended(prev, e).last() == e,
        forall|i: int| 0 <= i < appended(prev, e).len() - 1 ==>
            #[trigger] appended(prev, e)[i] == prev[prev.len() - (appended(prev, e).len() - 1) + i],
{
}

} // verus!
