//! JSON as the library sees it: a plain tree (`Json`) that the app fills from
//! a JSON parser, the lookups the decoders use, and `extract_json`, the
//! string-aware brace balancer that pulls the first JSON object out of a
//! model reply wrapped in prose or code fences.

use vstd::prelude::*;
use crate::text::{chars_of, slice_chars, string_of, trim, trimmed};

verus! {

/// A JSON value. Numbers keep their textual form (as the parser printed
/// them); object members keep the parser's order.
#[derive(Debug, PartialEq)]
pub enum Json {
    Null,
    Bool(bool),
    Num(String),
    Str(String),
    Arr(Vec<Json>),
    Obj(Vec<(String, Json)>),
}

/// The first member of `fields` named `key`.
pub open spec fn find_field(fields: Seq<(String, Json)>, key: Seq<char>) -> Option<Json>
    decreases fields.len(),
{
    if fields.len() == 0 {
        None
    } else if fields[0].0@ == key {
        Some(fields[0].1)
    } else {
        find_field(fields.drop_first(), key)
    }
}

/// `j[key]` for an object, `None` otherwise.
pub open spec fn get(j: Json, key: Seq<char>) -> Option<Json> {
    match j {
        Json::Obj(fields) => find_field(fields@, key),
        _ => None,
    }
}

/// The string held by a JSON string value.
pub open spec fn str_of(j: Option<Json>) -> Option<Seq<char>> {
    match j {
        Some(Json::Str(s)) => Some(s@),
        _ => None,
    }
}

/// The boolean held by a JSON boolean value.
pub open spec fn bool_of(j: Option<Json>) -> Option<bool> {
    match j {
        Some(Json::Bool(b)) => Some(b),
        _ => None,
    }
}

pub open spec fn is_obj(j: Option<Json>) -> bool {
    j matches Some(Json::Obj(_))
}

pub open spec fn is_arr(j: Option<Json>) -> bool {
    j matches Some(Json::Arr(_))
}

/// Value of a run of decimal digits.
pub open spec fn digits_value(d: Seq<char>) -> int
    decreases d.len(),
{
    if d.len() == 0 {
        0
    } else {
        digits_value(d.drop_last()) * 10 + (d.last() as int - '0' as int)
    }
}

pub open spec fn all_digits(d: Seq<char>) -> bool {
    forall|i: int| 0 <= i < d.len() ==> '0' <= #[trigger] d[i] <= '9'
}

/// The integer a number's text denotes, when it is an integer (an optional
/// `-` and at least one digit).
pub open spec fn int_text_value(t: Seq<char>) -> Option<int> {
    if t.len() > 0 && t[0] == '-' {
        let d = t.drop_first();
        if d.len() > 0 && all_digits(d) {
            Some(-digits_value(d))
        } else {
            None
        }
    } else if t.len() > 0 && all_digits(t) {
        Some(digits_value(t))
    } else {
        None
    }
}

/// A JSON number as an `i64` (`Value::as_i64`): integral and in range.
pub open spec fn i64_of(j: Option<Json>) -> Option<i64> {
    match j {
        Some(Json::Num(t)) => match int_text_value(t@) {
            Some(v) => if i64::MIN <= v <= i64::MAX {
                Some(v as i64)
            } else {
                None
            },
            None => None,
        },
        _ => None,
    }
}

/// A JSON number as a `u64` (`Value::as_u64`): integral, non-negative, in
/// range.
pub open spec fn u64_of(j: Option<Json>) -> Option<u64> {
    match j {
        Some(Json::Num(t)) => match int_text_value(t@) {
            Some(v) => if 0 <= v <= u64::MAX {
                Some(v as u64)
            } else {
                None
            },
            None => None,
        },
        _ => None,
    }
}

/// A field read leniently as text: strings as themselves, `null` or a
/// missing field as empty, numbers as their text, booleans as
/// `true`/`false`; arrays and objects are not text.
pub open spec fn flexible_text(j: Option<Json>) -> Option<Seq<char>> {
    match j {
        None => Some(Seq::empty()),
        Some(Json::Null) => Some(Seq::empty()),
        Some(Json::Str(s)) => Some(s@),
        Some(Json::Num(t)) => Some(t@),
        Some(Json::Bool(b)) => Some(if b { "true"@ } else { "false"@ }),
        _ => None,
    }
}

fn eq_str(a: &String, b: &str) -> (r: bool)
    ensures
        r == (a@ == b@),
{
    let x = chars_of(a.as_str());
    let y = chars_of(b);
    if x.len() != y.len() {
        return false;
    }
    let mut i: usize = 0;
    while i < x.len()
        invariant
            x@ == a@,
            y@ == b@,
            x.len() == y.len(),
            i <= x.len(),
            forall|k: int| 0 <= k < i ==> x@[k] == y@[k],
        decreases x.len() - i,
    {
        if x[i] != y[i] {
            return false;
        }
        i = i + 1;
    }
    assert(x@ =~= y@);
    true
}

/// `j[key]` (`Value::get`).
pub fn get_field<'a>(j: &'a Json, key: &str) -> (r: Option<&'a Json>)
    ensures
        match r {
            Some(v) => get(*j, key@) == Some(*v),
            None => get(*j, key@) is None,
        },
{
    match j {
        Json::Obj(fields) => {
            let mut i: usize = 0;
            assert(fields@.subrange(0, fields@.len() as int) =~= fields@);
            assert(get(*j, key@) == find_field(fields@, key@));
            while i < fields.len()
                invariant
                    get(*j, key@) == find_field(fields@, key@),
                    i <= fields@.len(),
                    find_field(fields@, key@) == find_field(fields@.subrange(i as int, fields@.len() as int), key@),
                decreases fields@.len() - i,
            {
                let ghost rest = fields@.subrange(i as int, fields@.len() as int);
                assert(rest.drop_first() =~= fields@.subrange(i + 1, fields@.len() as int));
                assert(rest[0] == fields@[i as int]);
                if eq_str(&fields[i].0, key) {
                    assert(find_field(rest, key@) == Some(fields@[i as int].1));
                    return Some(&fields[i].1);
                }
                i = i + 1;
            }
            None
        },
        _ => None,
    }
}

/// The string at `j[key]`, if it is one.
pub fn get_str<'a>(j: &'a Json, key: &str) -> (r: Option<&'a String>)
    ensures
        match r {
            Some(s) => str_of(get(*j, key@)) == Some(s@),
            None => str_of(get(*j, key@)) is None,
        },
{
    match get_field(j, key) {
        Some(Json::Str(s)) => Some(s),
        _ => None,
    }
}

/// Whether `j[key]` is the string `lit`.
pub fn str_field_is(j: &Json, key: &str, lit: &str) -> (r: bool)
    ensures
        r == (str_of(get(*j, key@)) == Some(lit@)),
{
    match get_str(j, key) {
        Some(s) => eq_str(s, lit),
        None => false,
    }
}

/// The boolean at `j[key]`, if it is one.
pub fn get_bool(j: &Json, key: &str) -> (r: Option<bool>)
    ensures
        r == bool_of(get(*j, key@)),
{
    match get_field(j, key) {
        Some(Json::Bool(b)) => Some(*b),
        _ => None,
    }
}

/// The integer denoted by a number's text, if it is an in-range integer.
pub fn parse_int_text(t: &String) -> (r: Option<i128>)
    ensures
        match r {
            Some(v) => int_text_value(t@) == Some(v as int),
            None => int_text_value(t@) is None || !(i64::MIN <= int_text_value(t@)->0
                <= u64::MAX),
        },
{
    let c = chars_of(t.as_str());
    let neg = c.len() > 0 && c[0] == '-';
    let start: usize = if neg { 1 } else { 0 };
    if start >= c.len() {
        proof {
            if neg {
                assert(c@.drop_first().len() == 0);
            }
        }
        return None;
    }
    let ghost d = c@.subrange(start as int, c@.len() as int);
    proof {
        if neg {
            assert(d =~= c@.drop_first());
        } else {
            assert(d =~= c@);
        }
    }
    let mut v: u128 = 0;
    let mut i: usize = start;
    let limit: u128 = 18446744073709551616u128;
    while i < c.len()
        invariant
            c@ == t@,
            neg == (c@.len() > 0 && c@[0] == '-'),
            start == if neg { 1usize } else { 0usize },
            start <= i <= c@.len(),
            d == c@.subrange(start as int, c@.len() as int),
            all_digits(c@.subrange(start as int, i as int)),
            v == digits_value(c@.subrange(start as int, i as int)),
            v <= limit,
            limit == 18446744073709551616u128,
        decreases c@.len() - i,
    {
        let ch = c[i];
        assert(c@.subrange(start as int, i + 1).drop_last() =~= c@.subrange(start as int, i as int));
        if ch < '0' || ch > '9' {
            assert(!all_digits(d)) by {
                assert(d[i - start] == ch);
            }
            proof {
                if neg {
                    assert(d =~= t@.drop_first());
                } else {
                    assert(d =~= t@);
                }
            }
            return None;
        }
        let dv = (ch as u32 - '0' as u32) as u128;
        if v > (limit - dv) / 10 {
            // The value no longer fits: the number is out of range.
            proof {
                assert(v * 10 + dv > limit) by (nonlinear_arith)
                    requires
                        v > (limit - dv) / 10,
                        dv <= 9,
                ;
                assert(c@.subrange(start as int, c@.len() as int).subrange(0, i + 1 - start) =~= c@.subrange(start as int, i + 1));
                if all_digits(d) {
                    lemma_digits_value_grows(d, i + 1 - start);
                    assert(all_digits(c@.subrange(start as int, i + 1))) by {
                        assert forall|k: int| 0 <= k < c@.subrange(start as int, i + 1).len() implies '0' <= #[trigger] c@.subrange(start as int, i + 1)[k] <= '9' by {
                            assert(c@.subrange(start as int, i + 1)[k] == d[k]);
                        }
                    }
                    assert(d.subrange(0, d.len() as int) =~= d);
                    let pre = c@.subrange(start as int, i + 1);
                    assert(pre.drop_last() =~= c@.subrange(start as int, i as int));
                    assert(pre.last() == ch);
                    assert(digits_value(pre) == v * 10 + dv);
                    assert(digits_value(d) > limit);
                }
                if neg {
                    assert(d =~= t@.drop_first());
                } else {
                    assert(d =~= t@);
                }
            }
            return None;
        }
        v = v * 10 + dv;
        i = i + 1;
    }
    assert(c@.subrange(start as int, c@.len() as int) =~= d);
    if neg {
        Some(-(v as i128))
    } else {
        Some(v as i128)
    }
}

proof fn lemma_digits_value_grows(d: Seq<char>, k: int)
    requires
        0 <= k <= d.len(),
        all_digits(d),
    ensures
        digits_value(d) >= digits_value(d.subrange(0, k)),
    decreases d.len() - k,
{
    if k < d.len() {
        lemma_digits_value_grows(d, k + 1);
        assert(d.subrange(0, k + 1).drop_last() =~= d.subrange(0, k));
        assert(d.subrange(0, k + 1).last() == d[k]);
        assert('0' <= d[k] <= '9');
        lemma_digits_value_nonneg(d.subrange(0, k));
    } else {
        assert(d.subrange(0, k) =~= d);
    }
}

proof fn lemma_digits_value_nonneg(d: Seq<char>)
    requires
        all_digits(d),
    ensures
        digits_value(d) >= 0,
    decreases d.len(),
{
    if d.len() > 0 {
        assert(all_digits(d.drop_last())) by {
            assert forall|i: int| 0 <= i < d.drop_last().len() implies '0' <= #[trigger] d.drop_last()[i] <= '9' by {
                assert(d.drop_last()[i] == d[i]);
            }
        }
        lemma_digits_value_nonneg(d.drop_last());
        assert('0' <= d[d.len() - 1] <= '9');
    }
}

/// The `i64` at `j[key]` (`Value::as_i64`).
pub fn get_i64(j: &Json, key: &str) -> (r: Option<i64>)
    ensures
        r == i64_of(get(*j, key@)),
{
    match get_field(j, key) {
        Some(Json::Num(t)) => match parse_int_text(t) {
            Some(v) => if -9223372036854775808i128 <= v && v <= 9223372036854775807i128 {
                Some(v as i64)
            } else {
                None
            },
            None => None,
        },
        _ => None,
    }
}

/// The `u64` at `j[key]` (`Value::as_u64`).
pub fn get_u64(j: &Json, key: &str) -> (r: Option<u64>)
    ensures
        r == u64_of(get(*j, key@)),
{
    match get_field(j, key) {
        Some(Json::Num(t)) => match parse_int_text(t) {
            Some(v) => if 0 <= v && v <= 18446744073709551615i128 {
                Some(v as u64)
            } else {
                None
            },
            None => None,
        },
        _ => None,
    }
}

/// A field read leniently as text (see `flexible_text`).
pub fn flexible_string(j: Option<&Json>) -> (r: Option<String>)
    ensures
        match r {
            Some(s) => flexible_text(match j {
                Some(v) => Some(*v),
                None => None,
            }) == Some(s@),
            None => flexible_text(match j {
                Some(v) => Some(*v),
                None => None,
            }) is None,
        },
{
    match j {
        None => Some(string_of(&Vec::new())),
        Some(Json::Null) => Some(string_of(&Vec::new())),
        Some(Json::Str(s)) => Some(s.clone()),
        Some(Json::Num(t)) => Some(t.clone()),
        Some(Json::Bool(b)) => Some(
            if *b {
                string_of(&chars_of("true"))
            } else {
                string_of(&chars_of("false"))
            },
        ),
        _ => None,
    }
}

// ---------------------------------------------------------------------------
// Extracting the first balanced object from a model reply
// ---------------------------------------------------------------------------

/// Brace-scanner state: nesting depth, inside a string literal, just saw a
/// backslash inside a string.
pub struct Scan {
    pub depth: int,
    pub in_str: bool,
    pub escaped: bool,
}

pub open spec fn scan_step(st: Scan, c: char) -> Scan {
    if st.in_str {
        if st.escaped {
            Scan { depth: st.depth, in_str: true, escaped: false }
        } else if c == '\\' {
            Scan { depth: st.depth, in_str: true, escaped: true }
        } else if c == '"' {
            Scan { depth: st.depth, in_str: false, escaped: false }
        } else {
            st
        }
    } else if c == '"' {
        Scan { depth: st.depth, in_str: true, escaped: st.escaped }
    } else if c == '{' {
        Scan { depth: st.depth + 1, in_str: false, escaped: st.escaped }
    } else if c == '}' {
        Scan { depth: st.depth - 1, in_str: false, escaped: st.escaped }
    } else {
        st
    }
}

/// The scanner state after `s[start..i]`.
pub open spec fn scan_to(s: Seq<char>, start: int, i: int) -> Scan
    decreases i - start,
{
    if i <= start {
        Scan { depth: 0, in_str: false, escaped: false }
    } else {
        scan_step(scan_to(s, start, i - 1), s[i - 1])
    }
}

/// `s[i]` closes the object opened at `start`.
pub open spec fn closes_at(s: Seq<char>, start: int, i: int) -> bool {
    let st = scan_to(s, start, i);
    !st.in_str && s[i] == '}' && st.depth == 1
}

/// The first position at or after `i` that closes the object at `start`.
pub open spec fn first_close(s: Seq<char>, start: int, i: int) -> Option<int>
    decreases s.len() - i,
{
    if i < 0 || i >= s.len() {
        None
    } else if closes_at(s, start, i) {
        Some(i)
    } else {
        first_close(s, start, i + 1)
    }
}

/// The first `{` in `s`.
pub open spec fn first_brace(s: Seq<char>, i: int) -> Option<int>
    decreases s.len() - i,
{
    if i < 0 || i >= s.len() {
        None
    } else if s[i] == '{' {
        Some(i)
    } else {
        first_brace(s, i + 1)
    }
}

/// The first balanced `{ … }` object of the trimmed reply, braces inside
/// string literals ignored; `None` when there is no `{` or it never closes.
pub open spec fn extract_json_spec(raw: Seq<char>) -> Option<Seq<char>> {
    let s = trim(raw);
    match first_brace(s, 0) {
        None => None,
        Some(start) => match first_close(s, start, start) {
            None => None,
            Some(end) => Some(s.subrange(start, end + 1)),
        },
    }
}

proof fn lemma_first_brace(s: Seq<char>, i: int)
    ensures
        first_brace(s, i) matches Some(k) ==> i <= k < s.len() && s[k] == '{',
    decreases s.len() - i,
{
    if 0 <= i < s.len() && s[i] != '{' {
        lemma_first_brace(s, i + 1);
    }
}

proof fn lemma_first_close(s: Seq<char>, start: int, i: int)
    ensures
        first_close(s, start, i) matches Some(k) ==> i <= k < s.len() && closes_at(s, start, k),
    decreases s.len() - i,
{
    if 0 <= i < s.len() && !closes_at(s, start, i) {
        lemma_first_close(s, start, i + 1);
    }
}

/// Law: what is extracted is a whole object: it opens with `{` and closes
/// with `}`, and whitespace around the reply changes nothing.
pub proof fn law_extracted_text_is_an_object(raw: Seq<char>)
    ensures
        extract_json_spec(raw) matches Some(j) ==> j.len() >= 2 && j[0] == '{' && j.last() == '}',
        extract_json_spec(trim(raw)) == extract_json_spec(raw),
{
    crate::text::lemma_trim_idempotent(raw);
    let s = trim(raw);
    lemma_first_brace(s, 0);
    if let Some(start) = first_brace(s, 0) {
        lemma_first_close(s, start, start);
        if let Some(end) = first_close(s, start, start) {
            if end == start {
                assert(scan_to(s, start, start).depth == 0);
            }
        }
    }
}

/// `s[start..e]` is balanced: its braces outside string literals close
/// every brace they open, and it does not stop inside a string literal.
pub open spec fn balanced_upto(s: Seq<char>, start: int, e: int) -> bool {
    start < e <= s.len() && scan_to(s, start, e).depth == 0 && !scan_to(s, start, e).in_str
}

proof fn lemma_first_brace_min(s: Seq<char>, i: int)
    requires
        0 <= i,
    ensures
        match first_brace(s, i) {
            Some(k) => forall|j: int| i <= j < k ==> s[j] != '{',
            None => forall|j: int| i <= j < s.len() ==> s[j] != '{',
        },
    decreases s.len() - i,
{
    if i < s.len() && s[i] != '{' {
        lemma_first_brace_min(s, i + 1);
    }
}

proof fn lemma_first_close_min(s: Seq<char>, start: int, i: int)
    requires
        0 <= i,
    ensures
        match first_close(s, start, i) {
            Some(k) => forall|j: int| i <= j < k ==> !closes_at(s, start, j),
            None => forall|j: int| i <= j < s.len() ==> !closes_at(s, start, j),
        },
    decreases s.len() - i,
{
    if i < s.len() && !closes_at(s, start, i) {
        lemma_first_close_min(s, start, i + 1);
    }
}

/// Until the object opened at `start` closes, it stays open.
proof fn lemma_open_until_close(s: Seq<char>, start: int, e: int)
    requires
        0 <= start < e <= s.len(),
        s[start] == '{',
        forall|j: int| start <= j < e ==> !closes_at(s, start, j),
    ensures
        scan_to(s, start, e).depth >= 1,
    decreases e - start,
{
    assert(scan_to(s, start, e) == scan_step(scan_to(s, start, e - 1), s[e - 1]));
    if e - 1 > start {
        lemma_open_until_close(s, start, e - 1);
        assert(!closes_at(s, start, e - 1));
    } else {
        assert(scan_to(s, start, start) == Scan { depth: 0, in_str: false, escaped: false });
    }
}

/// Law: what is extracted is the shortest balanced prefix of the trimmed
/// reply from its first `{` (braces inside string literals, with their
/// backslash escapes, do not count); nothing is extracted exactly when the
/// reply has no `{` or no prefix from it balances.
pub proof fn law_extracted_text_is_the_shortest_balanced_prefix(raw: Seq<char>)
    ensures
        extract_json_spec(raw) matches Some(j) ==> (first_brace(trim(raw), 0) matches Some(k) && (forall|i: int|
            0 <= i < k ==> trim(raw)[i] != '{') && trim(raw)[k] == '{' && j == trim(raw).subrange(k, k + j.len())
            && balanced_upto(trim(raw), k, k + j.len()) && forall|e: int|
            k < e < k + j.len() ==> !#[trigger] balanced_upto(trim(raw), k, e)),
        extract_json_spec(raw) is None <==> (first_brace(trim(raw), 0) is None || forall|e: int|
            !#[trigger] balanced_upto(trim(raw), first_brace(trim(raw), 0)->0, e)),
{
    let s = trim(raw);
    lemma_first_brace(s, 0);
    lemma_first_brace_min(s, 0);
    if let Some(start) = first_brace(s, 0) {
        lemma_first_close(s, start, start);
        lemma_first_close_min(s, start, start);
        match first_close(s, start, start) {
            Some(end) => {
                let j = s.subrange(start, end + 1);
                assert(j.len() == end + 1 - start);
                assert(scan_to(s, start, end + 1) == scan_step(scan_to(s, start, end), s[end]));
                assert forall|e: int| start < e < start + j.len() implies !#[trigger] balanced_upto(s, start, e) by {
                    lemma_open_until_close(s, start, e);
                }
                assert(balanced_upto(s, start, end + 1));
            },
            None => {
                assert forall|e: int| !#[trigger] balanced_upto(s, start, e) by {
                    if start < e <= s.len() {
                        lemma_open_until_close(s, start, e);
                    }
                }
            },
        }
    }
}

pub fn extract_json(raw: &str) -> (r: Option<String>)
    ensures
        match r {
            Some(j) => extract_json_spec(raw@) == Some(j@),
            None => extract_json_spec(raw@) is None,
        },
{
    let all = chars_of(raw);
    let s = trimmed(&all);
    let mut start: usize = 0;
    while start < s.len() && s[start] != '{'
        invariant
            s@ == trim(raw@),
            start <= s@.len(),
            first_brace(s@, 0) == first_brace(s@, start as int),
        decreases s@.len() - start,
    {
        start = start + 1;
    }
    if start == s.len() {
        return None;
    }
    let mut depth: i128 = 0;
    let mut in_str = false;
    let mut escaped = false;
    let mut i = start;
    while i < s.len()
        invariant
            s@ == trim(raw@),
            start <= i <= s@.len(),
            s@[start as int] == '{',
            first_brace(s@, 0) == Some(start as int),
            first_close(s@, start as int, start as int) == first_close(s@, start as int, i as int),
            scan_to(s@, start as int, i as int) == (Scan { depth: depth as int, in_str, escaped }),
            0 <= depth <= i - start,
            i > start ==> depth >= 1,
        decreases s@.len() - i,
    {
        let c = s[i];
        let ghost st = scan_to(s@, start as int, i as int);
        assert(scan_to(s@, start as int, i + 1) == scan_step(st, c));
        if in_str {
            if escaped {
                escaped = false;
            } else if c == '\\' {
                escaped = true;
            } else if c == '"' {
                in_str = false;
            }
        } else {
            if c == '"' {
                in_str = true;
            } else if c == '{' {
                depth = depth + 1;
            } else if c == '}' {
                if depth == 1 {
                    assert(closes_at(s@, start as int, i as int));
                    assert(first_close(s@, start as int, i as int) == Some(i as int));
                    let r = slice_chars(&s, start, i + 1);
                    return Some(string_of(&r));
                }
                depth = depth - 1;
            }
        }
        proof {
            assert(!closes_at(s@, start as int, i as int));
        }
        i = i + 1;
    }
    None
}

} // verus!
