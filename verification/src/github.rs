//! GitHub: reading repository references, the device-flow responses, the
//! REST replies the app decodes, and the git commands a clone runs. The
//! network, the keychain and git itself stay with the app.

use vstd::prelude::*;
use crate::model::SpawnOutcome;
use crate::json::{get, get_field, get_str, get_u64, str_of, u64_of, Json};
use crate::text::{
    all_ws, chars_of, count_char, count_char_in, digits, ends_with, ends_with_chars, has_ws,
    has_ws_chars, is_blank, push_all, push_str, slice_chars, starts_with, starts_with_chars, string_of, trim,
    trimmed, u64_digits,
};

verus! {

// ---------------------------------------------------------------------------
// Repository references
// ---------------------------------------------------------------------------

/// The position of the first `c`.
pub open spec fn first_char(s: Seq<char>, c: char) -> Option<int>
    decreases s.len(),
{
    if s.len() == 0 {
        None
    } else {
        match first_char(s.drop_last(), c) {
            Some(i) => Some(i),
            None => if s.last() == c {
                Some(s.len() - 1)
            } else {
                None
            },
        }
    }
}

pub(crate) proof fn lemma_first_char(s: Seq<char>, c: char)
    ensures
        match first_char(s, c) {
            Some(i) => 0 <= i < s.len() && s[i] == c && forall|k: int| 0 <= k < i ==> #[trigger] s[k] != c,
            None => forall|k: int| 0 <= k < s.len() ==> #[trigger] s[k] != c,
        },
    decreases s.len(),
{
    if s.len() > 0 {
        lemma_first_char(s.drop_last(), c);
        assert forall|k: int| 0 <= k < s.len() - 1 implies #[trigger] s[k] == s.drop_last()[k] by {}
    }
}

pub(crate) fn find_char(s: &[char], c: char) -> (r: Option<usize>)
    ensures
        match r {
            Some(i) => first_char(s@, c) == Some(i as int) && i < s@.len(),
            None => first_char(s@, c) is None,
        },
{
    proof {
        lemma_first_char(s@, c);
    }
    let mut i: usize = 0;
    while i < s.len()
        invariant
            i <= s.len(),
            forall|k: int| 0 <= k < i ==> #[trigger] s@[k] != c,
        decreases s.len() - i,
    {
        if s[i] == c {
            proof {
                lemma_first_char(s@, c);
            }
            return Some(i);
        }
        i = i + 1;
    }
    None
}

/// `owner/repo[/...]` split at its slashes, each part trimmed; both must be
/// non-empty, and anything after a second slash is ignored.
pub open spec fn owner_repo(rest: Seq<char>) -> Option<(Seq<char>, Seq<char>)> {
    match first_char(rest, '/') {
        None => None,
        Some(i) => {
            let owner = trim(rest.subrange(0, i));
            let after = rest.subrange(i + 1, rest.len() as int);
            let part = match first_char(after, '/') {
                Some(j) => after.subrange(0, j),
                None => after,
            };
            let repo = trim(part);
            if owner.len() == 0 || repo.len() == 0 {
                None
            } else {
                Some((owner, repo))
            }
        },
    }
}

pub open spec fn pair_view(r: Option<(String, String)>) -> Option<(Seq<char>, Seq<char>)> {
    match r {
        Some((a, b)) => Some((a@, b@)),
        None => None,
    }
}

fn split_chars(rest: &[char]) -> (r: Option<(String, String)>)
    ensures
        pair_view(r) == owner_repo(rest@),
{
    let found = find_char(rest, '/');
    let i = match found {
        Some(i) => i,
        None => {
            return None;
        },
    };
    assert(i < rest.len());
    let head = slice_chars(rest, 0, i);
    let owner = trimmed(&head);
    let after = slice_chars(rest, i + 1, rest.len());
    let part = match find_char(&after, '/') {
        Some(j) => slice_chars(&after, 0, j),
        None => after,
    };
    let repo = trimmed(&part);
    if owner.len() == 0 || repo.len() == 0 {
        return None;
    }
    Some((string_of(&owner), string_of(&repo)))
}

/// Split `owner/repo` (see `owner_repo`).
pub fn split_owner_repo(rest: &str) -> (r: Option<(String, String)>)
    ensures
        pair_view(r) == owner_repo(rest@),
{
    let c = chars_of(rest);
    split_chars(&c)
}

/// Trailing slashes removed.
pub open spec fn trim_slash_end(s: Seq<char>) -> Seq<char>
    decreases s.len(),
{
    if s.len() > 0 && s.last() == '/' {
        trim_slash_end(s.drop_last())
    } else {
        s
    }
}

/// One trailing `.git` removed.
pub open spec fn strip_git(s: Seq<char>) -> Seq<char> {
    if ends_with(s, ".git"@) {
        s.subrange(0, s.len() - ".git"@.len())
    } else {
        s
    }
}

/// A GitHub repository reference — `owner/repo`, `https://github.com/...`,
/// `github.com/...` or `git@github.com:...`, with an optional `.git` and
/// trailing slashes — read as (owner, repo). Plain `http://` is refused.
pub open spec fn repo_ref(input: Seq<char>) -> Option<(Seq<char>, Seq<char>)> {
    let s = strip_git(trim_slash_end(trim(input)));
    if starts_with(s, "git@github.com:"@) {
        owner_repo(s.subrange("git@github.com:"@.len() as int, s.len() as int))
    } else if starts_with(s, "https://github.com/"@) {
        owner_repo(s.subrange("https://github.com/"@.len() as int, s.len() as int))
    } else if starts_with(s, "github.com/"@) {
        owner_repo(s.subrange("github.com/"@.len() as int, s.len() as int))
    } else if count_char(s, '/') == 1 && !has_ws(s) {
        owner_repo(s)
    } else {
        None
    }
}

proof fn lemma_trim_slash_skip(s: Seq<char>, j: int)
    requires
        0 <= j <= s.len(),
        forall|k: int| j <= k < s.len() ==> #[trigger] s[k] == '/',
    ensures
        trim_slash_end(s) == trim_slash_end(s.subrange(0, j)),
    decreases s.len() - j,
{
    if j < s.len() {
        lemma_trim_slash_skip(s, j + 1);
        let t = s.subrange(0, j + 1);
        assert(t.drop_last() =~= s.subrange(0, j));
        assert(t.last() == s[j]);
    } else {
        assert(s.subrange(0, s.len() as int) =~= s);
    }
}

fn after_prefix(s: &[char], prefix: &str) -> (r: Option<Vec<char>>)
    ensures
        match r {
            Some(rest) => starts_with(s@, prefix@) && rest@ == s@.subrange(prefix@.len() as int, s@.len() as int),
            None => !starts_with(s@, prefix@),
        },
{
    let p = chars_of(prefix);
    if starts_with_chars(s, &p) {
        Some(slice_chars(s, p.len(), s.len()))
    } else {
        None
    }
}

/// Read a GitHub repository reference (see `repo_ref`).
/// Law: `owner/repo` reads as the two parts, each trimmed, whatever follows
/// a further slash (a browser URL's `/tree/main`, say).
pub proof fn law_owner_repo_reads_the_first_two_parts(o: Seq<char>, r: Seq<char>, tail: Seq<char>)
    requires
        forall|k: int| 0 <= k < o.len() ==> #[trigger] o[k] != '/',
        forall|k: int| 0 <= k < r.len() ==> #[trigger] r[k] != '/',
        tail.len() == 0 || tail[0] == '/',
        trim(o).len() > 0,
        trim(r).len() > 0,
    ensures
        owner_repo(o + "/"@ + r + tail) == Some((trim(o), trim(r))),
{
    reveal_strlit("/");
    let rest = o + "/"@ + r + tail;
    lemma_first_char(rest, '/');
    assert(rest[o.len() as int] == '/');
    match first_char(rest, '/') {
        Some(i) => {
            if i < o.len() {
                assert(rest[i] == o[i]);
            }
        },
        None => {},
    }
    assert(first_char(rest, '/') == Some(o.len() as int));
    assert(rest.subrange(0, o.len() as int) =~= o);
    let after = rest.subrange(o.len() as int + 1, rest.len() as int);
    assert(after =~= r + tail);
    lemma_first_char(after, '/');
    if tail.len() == 0 {
        assert(after =~= r);
        match first_char(after, '/') {
            Some(j) => {
                assert(after[j] == r[j]);
            },
            None => {},
        }
    } else {
        assert(after[r.len() as int] == '/');
        match first_char(after, '/') {
            Some(j) => {
                if j < r.len() {
                    assert(after[j] == r[j]);
                }
            },
            None => {},
        }
        assert(after.subrange(0, r.len() as int) =~= r);
    }
}

/// Law: a reference that, trimmed and with trailing slashes and one `.git`
/// removed, starts with `https://github.com/` reads exactly as
/// `split_owner_repo` reads what follows that prefix; the same holds for
/// `github.com/` and `git@github.com:`.
pub proof fn law_url_refs_read_like_owner_repo(input: Seq<char>)
    ensures
        ({
            let s = strip_git(trim_slash_end(trim(input)));
            &&& starts_with(s, "https://github.com/"@) ==> repo_ref(input) == owner_repo(
                s.subrange("https://github.com/"@.len() as int, s.len() as int),
            )
            &&& starts_with(s, "github.com/"@) ==> repo_ref(input) == owner_repo(
                s.subrange("github.com/"@.len() as int, s.len() as int),
            )
            &&& starts_with(s, "git@github.com:"@) ==> repo_ref(input) == owner_repo(
                s.subrange("git@github.com:"@.len() as int, s.len() as int),
            )
        }),
{
    reveal_strlit("https://github.com/");
    reveal_strlit("github.com/");
    reveal_strlit("git@github.com:");
    let s = strip_git(trim_slash_end(trim(input)));
    let h = "https://github.com/"@;
    let g = "github.com/"@;
    let a = "git@github.com:"@;
    if starts_with(s, h) && starts_with(s, a) {
        lemma_prefixes_agree(s, h, a, 0);
    }
    if starts_with(s, g) && starts_with(s, a) {
        lemma_prefixes_agree(s, g, a, 3);
    }
    if starts_with(s, g) && starts_with(s, h) {
        lemma_prefixes_agree(s, g, h, 0);
    }
}

/// Two prefixes of one text agree where both reach.
proof fn lemma_prefixes_agree(s: Seq<char>, p: Seq<char>, q: Seq<char>, k: int)
    requires
        starts_with(s, p),
        starts_with(s, q),
        0 <= k < p.len(),
        k < q.len(),
    ensures
        p[k] == q[k],
{
    assert(s.subrange(0, p.len() as int)[k] == s[k]);
    assert(s.subrange(0, q.len() as int)[k] == s[k]);
}

pub fn parse_repo_ref(input: &str) -> (r: Option<(String, String)>)
    ensures
        pair_view(r) == repo_ref(input@),
{
    let all = chars_of(input);
    let t = trimmed(&all);
    let mut hi: usize = t.len();
    while hi > 0 && t[hi - 1] == '/'
        invariant
            hi <= t@.len(),
            forall|k: int| hi <= k < t@.len() ==> #[trigger] t@[k] == '/',
        decreases hi,
    {
        hi = hi - 1;
    }
    proof {
        lemma_trim_slash_skip(t@, hi as int);
        let u = t@.subrange(0, hi as int);
        if u.len() > 0 {
            assert(u.last() == t@[hi - 1]);
        }
    }
    let s0 = slice_chars(&t, 0, hi);
    let g = chars_of(".git");
    let s = if ends_with_chars(&s0, &g) {
        slice_chars(&s0, 0, s0.len() - g.len())
    } else {
        s0
    };
    assert(s@ == strip_git(trim_slash_end(trim(input@))));
    if let Some(rest) = after_prefix(&s, "git@github.com:") {
        return split_chars(&rest);
    }
    if let Some(rest) = after_prefix(&s, "https://github.com/") {
        return split_chars(&rest);
    }
    if let Some(rest) = after_prefix(&s, "github.com/") {
        return split_chars(&rest);
    }
    if count_char_in(&s, '/') == 1 && !has_ws_chars(&s) {
        return split_chars(&s);
    }
    None
}

/// The project name for an imported repo: what follows the last `/` of its
/// full name (all of it when there is none).
pub open spec fn after_last_slash(s: Seq<char>) -> Seq<char>
    decreases s.len(),
{
    if s.len() == 0 {
        s
    } else if s.last() == '/' {
        Seq::empty()
    } else {
        after_last_slash(s.drop_last()).push(s.last())
    }
}

pub fn import_name(full_name: &str) -> (r: String)
    ensures
        r@ == after_last_slash(full_name@),
{
    let c = chars_of(full_name);
    let mut start: usize = 0;
    let mut i: usize = 0;
    while i < c.len()
        invariant
            i <= c@.len(),
            start <= i,
            after_last_slash(c@.subrange(0, i as int)) == c@.subrange(start as int, i as int),
        decreases c@.len() - i,
    {
        let ghost pre = c@.subrange(0, i + 1);
        assert(pre.drop_last() =~= c@.subrange(0, i as int));
        if c[i] == '/' {
            start = i + 1;
            assert(c@.subrange(start as int, i + 1) =~= Seq::<char>::empty());
        } else {
            assert(c@.subrange(start as int, i + 1) =~= c@.subrange(start as int, i as int).push(c@[i as int]));
        }
        i = i + 1;
    }
    assert(c@.subrange(0, c@.len() as int) =~= c@);
    let r = slice_chars(&c, start, c.len());
    string_of(&r)
}

// ---------------------------------------------------------------------------
// REST replies
// ---------------------------------------------------------------------------

/// The message for a failed GitHub API call.
pub open spec fn status_message(code: u16) -> Seq<char> {
    if code == 401 {
        "GitHub authorization failed (401). Please reconnect."@
    } else if code == 403 || code == 429 {
        "GitHub rate limit reached. Try again shortly."@
    } else {
        "GitHub API error ("@ + digits(code as nat) + ")."@
    }
}

pub fn status_error(code: u16) -> (r: String)
    ensures
        r@ == status_message(code),
{
    if code == 401 {
        "GitHub authorization failed (401). Please reconnect.".to_owned()
    } else if code == 403 || code == 429 {
        "GitHub rate limit reached. Try again shortly.".to_owned()
    } else {
        let mut out: Vec<char> = Vec::new();
        push_str(&mut out, "GitHub API error (");
        let d = u64_digits(code as u64);
        push_all(&mut out, &d);
        push_str(&mut out, ").");
        string_of(&out)
    }
}

/// A new repository's name: trimmed, and refused when blank.
pub fn check_repo_name(name: &str) -> (r: Result<String, String>)
    ensures
        match r {
            Ok(n) => !all_ws(name@) && n@ == trim(name@),
            Err(e) => all_ws(name@) && e@ == "Repository name cannot be empty."@,
        },
{
    let c = chars_of(name);
    if is_blank(&c) {
        return Err("Repository name cannot be empty.".to_owned());
    }
    Ok(string_of(&trimmed(&c)))
}

/// The message for a failed repository creation: a 422 means the name is
/// taken; any other status is reported as for every call.
pub fn create_failure(code: u16, name: &str) -> (r: String)
    ensures
        code == 422 ==> r@ == "GitHub couldn't create '"@ + name@ + "' — the name may already be taken."@,
        code != 422 ==> r@ == status_message(code),
{
    if code == 422 {
        let mut out: Vec<char> = Vec::new();
        push_str(&mut out, "GitHub couldn't create '");
        push_str(&mut out, name);
        push_str(&mut out, "' — the name may already be taken.");
        string_of(&out)
    } else {
        status_error(code)
    }
}

/// The token a signed-in GitHub CLI printed for `gh auth token`, or why
/// there is none.
pub fn gh_token_from(outcome: SpawnOutcome) -> (r: Result<String, String>)
    ensures
        match outcome {
            SpawnOutcome::NotFound => r matches Err(e) && e@
                == "GitHub CLI (`gh`) not found. Install it (brew install gh), run `gh auth login`, then retry."@,
            SpawnOutcome::Failed { message } => r matches Err(e) && e@ == message@,
            SpawnOutcome::Exited { success, stdout, .. } => if !success {
                r matches Err(e) && e@ == "`gh` is not signed in. Run `gh auth login` first."@
            } else if trim(stdout@).len() == 0 {
                r matches Err(e) && e@ == "`gh` returned an empty token."@
            } else {
                r matches Ok(t) && t@ == trim(stdout@)
            },
        },
{
    match outcome {
        SpawnOutcome::NotFound => Err(
            "GitHub CLI (`gh`) not found. Install it (brew install gh), run `gh auth login`, then retry.".to_owned(),
        ),
        SpawnOutcome::Failed { message } => Err(message),
        SpawnOutcome::Exited { success, stdout, .. } => {
            if !success {
                return Err("`gh` is not signed in. Run `gh auth login` first.".to_owned());
            }
            let t = trimmed(&chars_of(stdout.as_str()));
            if t.len() == 0 {
                return Err("`gh` returned an empty token.".to_owned());
            }
            Ok(string_of(&t))
        },
    }
}

/// A rejected token (401) is forgotten, so the app shows itself disconnected.
pub fn status_clears_token(code: u16) -> (r: bool)
    ensures
        r == (code == 401),
{
    code == 401
}

/// The URL of one page of the user's repositories.
pub open spec fn repos_page_url_text(page: u64) -> Seq<char> {
    "https://api.github.com/user/repos?per_page=100&sort=full_name&affiliation=owner,collaborator,organization_member&page="@
        + digits(page as nat)
}

pub fn repos_page_url(page: u64) -> (r: String)
    ensures
        r@ == repos_page_url_text(page),
{
    let mut out: Vec<char> = Vec::new();
    push_str(
        &mut out,
        "https://api.github.com/user/repos?per_page=100&sort=full_name&affiliation=owner,collaborator,organization_member&page=",
    );
    let d = u64_digits(page);
    push_all(&mut out, &d);
    string_of(&out)
}

/// Whether listing goes on after a page: only after a full page of 100, and
/// for at most five pages.
pub fn more_pages(page: u64, batch_len: usize) -> (r: bool)
    ensures
        r == (batch_len == 100 && page < 5),
{
    batch_len == 100 && page < 5
}

/// A repository as the UI needs it.
#[derive(Debug)]
pub struct RepoSummary {
    pub full_name: String,
    pub name: String,
    pub clone_url: String,
    pub private: bool,
    pub default_branch: String,
    pub description: Option<String>,
}

pub open spec fn str_at(j: Json, key: Seq<char>) -> Option<Seq<char>> {
    str_of(get(j, key))
}

/// A repository object is usable: names and URL are strings, `private` a
/// boolean, `default_branch` a string when present, `description` a string
/// or null when present.
pub open spec fn repo_ok(j: Json) -> bool {
    &&& str_at(j, "full_name"@) is Some
    &&& str_at(j, "name"@) is Some
    &&& str_at(j, "clone_url"@) is Some
    &&& get(j, "private"@) matches Some(Json::Bool(_))
    &&& (get(j, "default_branch"@) is None || str_at(j, "default_branch"@) is Some)
    &&& match get(j, "description"@) {
        None => true,
        Some(Json::Null) => true,
        Some(Json::Str(_)) => true,
        _ => false,
    }
}

pub open spec fn repo_is(j: Json, r: RepoSummary) -> bool {
    &&& str_at(j, "full_name"@) == Some(r.full_name@)
    &&& str_at(j, "name"@) == Some(r.name@)
    &&& str_at(j, "clone_url"@) == Some(r.clone_url@)
    &&& get(j, "private"@) == Some(Json::Bool(r.private))
    &&& r.default_branch@ == match str_at(j, "default_branch"@) {
        Some(b) => b,
        None => "main"@,
    }
    &&& match r.description {
        Some(d) => str_at(j, "description"@) == Some(d@),
        None => str_at(j, "description"@) is None,
    }
}

/// Decode one repository object from a GitHub reply.
pub fn repo_from_json(j: &Json) -> (r: Option<RepoSummary>)
    ensures
        r is Some <==> repo_ok(*j),
        r matches Some(s) ==> repo_is(*j, s),
{
    let full_name = match get_str(j, "full_name") {
        Some(s) => s.clone(),
        None => {
            return None;
        },
    };
    let name = match get_str(j, "name") {
        Some(s) => s.clone(),
        None => {
            return None;
        },
    };
    let clone_url = match get_str(j, "clone_url") {
        Some(s) => s.clone(),
        None => {
            return None;
        },
    };
    let private = match get_field(j, "private") {
        Some(Json::Bool(b)) => *b,
        _ => {
            return None;
        },
    };
    let default_branch = match get_field(j, "default_branch") {
        None => "main".to_owned(),
        Some(Json::Str(s)) => s.clone(),
        _ => {
            return None;
        },
    };
    let description = match get_field(j, "description") {
        None => None,
        Some(Json::Null) => None,
        Some(Json::Str(s)) => Some(s.clone()),
        _ => {
            return None;
        },
    };
    Some(RepoSummary { full_name, name, clone_url, private, default_branch, description })
}

pub open spec fn all_repos_ok(items: Seq<Json>) -> bool {
    forall|i: int| 0 <= i < items.len() ==> #[trigger] repo_ok(items[i])
}

/// Decode a page of repositories (a JSON array of repository objects).
pub fn repos_from_json(j: &Json) -> (r: Option<Vec<RepoSummary>>)
    ensures
        r is Some <==> (j matches Json::Arr(items) && all_repos_ok(items@)),
        r matches Some(v) ==> (j matches Json::Arr(items) && v@.len() == items@.len() && forall|i: int|
            0 <= i < items@.len() ==> #[trigger] repo_is(items@[i], v@[i])),
{
    let items = match j {
        Json::Arr(items) => items,
        _ => {
            return None;
        },
    };
    let mut out: Vec<RepoSummary> = Vec::new();
    let mut i: usize = 0;
    while i < items.len()
        invariant
            *j == Json::Arr(*items),
            i <= items@.len(),
            out@.len() == i,
            forall|k: int| 0 <= k < i ==> #[trigger] repo_ok(items@[k]),
            forall|k: int| 0 <= k < i ==> #[trigger] repo_is(items@[k], out@[k]),
        decreases items@.len() - i,
    {
        match repo_from_json(&items[i]) {
            Some(r) => out.push(r),
            None => {
                assert(!all_repos_ok(items@));
                return None;
            },
        }
        i = i + 1;
    }
    Some(out)
}

// ---------------------------------------------------------------------------
// Device flow
// ---------------------------------------------------------------------------

#[derive(Debug)]
pub struct DeviceCode {
    pub device_code: String,
    pub user_code: String,
    pub verification_uri: String,
    pub expires_in: u64,
    pub interval: u64,
}

/// Read a device-code response. The two codes are required; the rest fall
/// back to GitHub's documented defaults.
pub fn parse_device_code(v: &Json) -> (r: Result<DeviceCode, String>)
    ensures
        match r {
            Ok(d) => {
                &&& str_at(*v, "device_code"@) == Some(d.device_code@)
                &&& str_at(*v, "user_code"@) == Some(d.user_code@)
                &&& d.verification_uri@ == match str_at(*v, "verification_uri"@) {
                    Some(u) => u,
                    None => "https://github.com/login/device"@,
                }
                &&& d.expires_in == match u64_of(get(*v, "expires_in"@)) {
                    Some(n) => n,
                    None => 900,
                }
                &&& d.interval == match u64_of(get(*v, "interval"@)) {
                    Some(n) => n,
                    None => 5,
                }
            },
            Err(e) => if str_at(*v, "device_code"@) is None {
                e@ == "device-code response missing `device_code`"@
            } else {
                str_at(*v, "user_code"@) is None && e@ == "device-code response missing `user_code`"@
            },
        },
{
    let device_code = match get_str(v, "device_code") {
        Some(s) => s.clone(),
        None => {
            return Err("device-code response missing `device_code`".to_owned());
        },
    };
    let user_code = match get_str(v, "user_code") {
        Some(s) => s.clone(),
        None => {
            return Err("device-code response missing `user_code`".to_owned());
        },
    };
    let verification_uri = match get_str(v, "verification_uri") {
        Some(s) => s.clone(),
        None => "https://github.com/login/device".to_owned(),
    };
    let expires_in = match get_u64(v, "expires_in") {
        Some(n) => n,
        None => 900,
    };
    let interval = match get_u64(v, "interval") {
        Some(n) => n,
        None => 5,
    };
    Ok(DeviceCode { device_code, user_code, verification_uri, expires_in, interval })
}

/// One poll of the token endpoint. `Authorized` carries the token.
#[derive(Debug)]
pub enum PollOutcome {
    Pending,
    SlowDown,
    Authorized(String),
    Denied,
    Expired,
    Error(String),
}

/// What a token-endpoint reply means (GitHub answers 200 with an `error`
/// field for the pending, slow-down, denied and expired cases).
pub open spec fn poll_meaning(v: Json, r: PollOutcome) -> bool {
    match str_at(v, "access_token"@) {
        Some(t) => r matches PollOutcome::Authorized(x) && x@ == t,
        None => match str_at(v, "error"@) {
            Some(e) => if e == "authorization_pending"@ {
                r is Pending
            } else if e == "slow_down"@ {
                r is SlowDown
            } else if e == "access_denied"@ {
                r is Denied
            } else if e == "expired_token"@ || e == "incorrect_device_code"@ {
                r is Expired
            } else {
                r matches PollOutcome::Error(x) && x@ == e
            },
            None => r matches PollOutcome::Error(x) && x@ == "unexpected token response"@,
        },
    }
}

pub fn classify_poll(v: &Json) -> (r: PollOutcome)
    ensures
        poll_meaning(*v, r),
{
    if let Some(token) = get_str(v, "access_token") {
        return PollOutcome::Authorized(token.clone());
    }
    match get_str(v, "error") {
        Some(e) => {
            let c = chars_of(e.as_str());
            if crate::text::same_text(&c, "authorization_pending") {
                PollOutcome::Pending
            } else if crate::text::same_text(&c, "slow_down") {
                PollOutcome::SlowDown
            } else if crate::text::same_text(&c, "access_denied") {
                PollOutcome::Denied
            } else if crate::text::same_text(&c, "expired_token") || crate::text::same_text(
                &c,
                "incorrect_device_code",
            ) {
                PollOutcome::Expired
            } else {
                PollOutcome::Error(e.clone())
            }
        },
        None => PollOutcome::Error("unexpected token response".to_owned()),
    }
}

// ---------------------------------------------------------------------------
// The clone cache's git commands
// ---------------------------------------------------------------------------

pub open spec fn strings_view(v: Seq<String>) -> Seq<Seq<char>> {
    v.map_values(|s: String| s@)
}

/// The arguments of a shallow single-branch clone.
pub fn clone_args(clone_url: &str, dest: &str) -> (r: Vec<String>)
    ensures
        strings_view(r@) == seq![
            "clone"@,
            "--depth"@,
            "1"@,
            "--single-branch"@,
            clone_url@,
            dest@,
        ],
{
    let mut a: Vec<String> = Vec::new();
    a.push("clone".to_owned());
    a.push("--depth".to_owned());
    a.push("1".to_owned());
    a.push("--single-branch".to_owned());
    a.push(clone_url.to_owned());
    a.push(dest.to_owned());
    assert(strings_view(a@) =~= seq!["clone"@, "--depth"@, "1"@, "--single-branch"@, clone_url@, dest@]);
    a
}

/// Refreshing re-pulls the latest commit of `branch` shallowly, then resets
/// the working tree onto it: the two git commands, in order.
pub fn refresh(branch: &str) -> (r: (Vec<String>, Vec<String>))
    ensures
        strings_view(r.0@) == seq!["fetch"@, "--depth"@, "1"@, "origin"@, branch@],
        strings_view(r.1@) == seq!["reset"@, "--hard"@, "FETCH_HEAD"@],
{
    let mut fetch: Vec<String> = Vec::new();
    fetch.push("fetch".to_owned());
    fetch.push("--depth".to_owned());
    fetch.push("1".to_owned());
    fetch.push("origin".to_owned());
    fetch.push(branch.to_owned());
    let mut reset: Vec<String> = Vec::new();
    reset.push("reset".to_owned());
    reset.push("--hard".to_owned());
    reset.push("FETCH_HEAD".to_owned());
    assert(strings_view(fetch@) =~= seq!["fetch"@, "--depth"@, "1"@, "origin"@, branch@]);
    assert(strings_view(reset@) =~= seq!["reset"@, "--hard"@, "FETCH_HEAD"@]);
    (fetch, reset)
}

/// The error for a failed git command: its first argument and what it printed
/// on stderr, trimmed.
pub open spec fn git_failure_text(first_arg: Seq<char>, stderr: Seq<char>) -> Seq<char> {
    "git "@ + first_arg + " failed: "@ + trim(stderr)
}

pub fn git_failure(first_arg: &str, stderr: &str) -> (r: String)
    ensures
        r@ == git_failure_text(first_arg@, stderr@),
{
    let mut out: Vec<char> = Vec::new();
    push_str(&mut out, "git ");
    push_str(&mut out, first_arg);
    push_str(&mut out, " failed: ");
    let e = chars_of(stderr);
    let t = trimmed(&e);
    push_all(&mut out, &t);
    string_of(&out)
}


/// Whether GitHub is connected, and as whom.
#[derive(Debug)]
pub struct GithubStatus {
    pub connected: bool,
    pub login: Option<String>,
}

} // verus!
