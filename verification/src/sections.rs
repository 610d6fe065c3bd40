//! Structure-aware splitting of uploaded study material into sections, so big
//! documents are fully covered. Splits on Markdown-style headings first, then
//! blank-line paragraph boundaries, packing greedily to a target size; a
//! single oversized paragraph is hard-split on character boundaries.
//!
//! The model: `lines` folds the text into lines the way `str::lines` does,
//! `blocks` folds lines into paragraph blocks, and `sections_of` folds blocks
//! into sections. `split_sections` computes exactly `sections_of`, and
//! `law_split_keeps_content` proves that no non-whitespace character of the
//! input is lost.

use vstd::prelude::*;
use crate::text::{
    all_ws, alphabetic, lemma_trim_len, char_width, chars_of, is_alphabetic_char, is_blank, is_ws, is_ws_char,
    lemma_utf8_len_append, lemma_utf8_len_push, push_all, slice_chars, string_of, take, take_chars,
    trim, trim_end, trim_start, trimmed, uppercase, uppercase_chars, utf8_len, utf8_width,
};

verus! {

/// One section of a document: the first heading seen in it (for labels) and
/// its text.
#[derive(Debug, Clone, PartialEq)]
pub struct Section {
    pub title: Option<String>,
    pub body: String,
}

pub open spec fn opt_view(o: Option<String>) -> Option<Seq<char>> {
    match o {
        Some(s) => Some(s@),
        None => None,
    }
}

impl View for Section {
    type V = (Option<Seq<char>>, Seq<char>);

    open spec fn view(&self) -> (Option<Seq<char>>, Seq<char>) {
        (opt_view(self.title), self.body@)
    }
}

/// Target size (bytes) of one section of study material.
pub const SECTION_TARGET_CHARS: usize = 30_000;

// ---------------------------------------------------------------------------
// Lines (`str::lines`)
// ---------------------------------------------------------------------------

pub open spec fn strip_cr(l: Seq<char>) -> Seq<char> {
    if l.len() > 0 && l.last() == '\r' {
        l.drop_last()
    } else {
        l
    }
}

pub open spec fn line_step(st: (Seq<Seq<char>>, Seq<char>), c: char) -> (Seq<Seq<char>>, Seq<char>) {
    if c == '\n' {
        (st.0.push(strip_cr(st.1)), Seq::<char>::empty())
    } else {
        (st.0, st.1.push(c))
    }
}

pub open spec fn line_state(s: Seq<char>) -> (Seq<Seq<char>>, Seq<char>)
    decreases s.len(),
{
    if s.len() == 0 {
        (Seq::<Seq<char>>::empty(), Seq::<char>::empty())
    } else {
        line_step(line_state(s.drop_last()), s.last())
    }
}

/// The lines of a text: split at `\n`, a `\r` before the `\n` dropped, and no
/// empty final line after a trailing newline.
pub open spec fn lines(s: Seq<char>) -> Seq<Seq<char>> {
    let st = line_state(s);
    if st.1.len() > 0 {
        st.0.push(st.1)
    } else {
        st.0
    }
}

/// The lines of `s`, as vectors.
pub fn lines_of(s: &[char]) -> (r: Vec<Vec<char>>)
    ensures
        r@.len() == lines(s@).len(),
        forall|i: int| 0 <= i < r@.len() ==> #[trigger] r@[i]@ == lines(s@)[i],
{
    let mut done: Vec<Vec<char>> = Vec::new();
    let mut cur: Vec<char> = Vec::new();
    let mut i: usize = 0;
    while i < s.len()
        invariant
            i <= s.len(),
            done@.len() == line_state(s@.subrange(0, i as int)).0.len(),
            forall|k: int|
                0 <= k < done@.len() ==> #[trigger] done@[k]@ == line_state(
                    s@.subrange(0, i as int),
                ).0[k],
            cur@ == line_state(s@.subrange(0, i as int)).1,
        decreases s.len() - i,
    {
        assert(s@.subrange(0, i + 1).drop_last() =~= s@.subrange(0, i as int));
        let c = s[i];
        if c == '\n' {
            let mut l = cur;
            if l.len() > 0 && l[l.len() - 1] == '\r' {
                l.pop();
            }
            done.push(l);
            cur = Vec::new();
        } else {
            cur.push(c);
        }
        i = i + 1;
    }
    assert(s@.subrange(0, s.len() as int) =~= s@);
    if cur.len() > 0 {
        done.push(cur);
    }
    done
}

// ---------------------------------------------------------------------------
// Headings and blocks
// ---------------------------------------------------------------------------

/// Number of alphabetic characters.
pub open spec fn count_alpha(s: Seq<char>) -> nat
    decreases s.len(),
{
    if s.len() == 0 {
        0
    } else {
        count_alpha(s.drop_last()) + if alphabetic(s.last()) { 1nat } else { 0nat }
    }
}

/// A heading line: starts with `#` (after indentation), or a short line of at
/// least four letters that is entirely upper case.
pub open spec fn is_heading(line: Seq<char>) -> bool {
    let t = trim_start(line);
    ||| t.len() > 0 && t[0] == '#'
    ||| utf8_len(t) < 80 && t.len() > 0 && uppercase(t) == t && count_alpha(t) >= 4
}

fn seq_eq(a: &[char], b: &[char]) -> (r: bool)
    ensures
        r == (a@ == b@),
{
    if a.len() != b.len() {
        return false;
    }
    let mut i: usize = 0;
    while i < a.len()
        invariant
            a.len() == b.len(),
            i <= a.len(),
            forall|k: int| 0 <= k < i ==> a@[k] == b@[k],
        decreases a.len() - i,
    {
        if a[i] != b[i] {
            return false;
        }
        i = i + 1;
    }
    assert(a@ =~= b@);
    true
}

fn count_alpha_of(s: &[char]) -> (n: usize)
    ensures
        n == count_alpha(s@),
{
    let mut n: usize = 0;
    let mut i: usize = 0;
    while i < s.len()
        invariant
            i <= s.len(),
            n == count_alpha(s@.subrange(0, i as int)),
            n <= i,
        decreases s.len() - i,
    {
        assert(s@.subrange(0, i + 1).drop_last() =~= s@.subrange(0, i as int));
        if is_alphabetic_char(s[i]) {
            n = n + 1;
        }
        i = i + 1;
    }
    assert(s@.subrange(0, s.len() as int) =~= s@);
    n
}

/// The bytes of `s` as a `u128` (never saturates).
pub fn byte_len128(s: &[char]) -> (n: u128)
    ensures
        n == utf8_len(s@),
        n <= 4 * s.len(),
{
    let mut n: u128 = 0;
    let mut i: usize = 0;
    while i < s.len()
        invariant
            i <= s.len(),
            n == utf8_len(s@.subrange(0, i as int)),
            n <= 4 * i,
        decreases s.len() - i,
    {
        let w = char_width(s[i]);
        proof {
            assert(s@.subrange(0, i + 1) =~= s@.subrange(0, i as int).push(s@[i as int]));
            lemma_utf8_len_push(s@.subrange(0, i as int), s@[i as int]);
        }
        n = n + w as u128;
        i = i + 1;
    }
    assert(s@.subrange(0, s.len() as int) =~= s@);
    n
}

fn trim_start_bound(s: &[char]) -> (lo: usize)
    ensures
        lo <= s.len(),
        trim_start(s@) == s@.subrange(lo as int, s.len() as int),
{
    let mut lo: usize = 0;
    while lo < s.len() && is_ws_char(s[lo])
        invariant
            lo <= s.len(),
            forall|k: int| 0 <= k < lo ==> is_ws(#[trigger] s@[k]),
        decreases s.len() - lo,
    {
        lo = lo + 1;
    }
    proof {
        lemma_trim_start_prefix(s@, lo as int);
    }
    lo
}

pub proof fn lemma_trim_start_prefix(s: Seq<char>, lo: int)
    requires
        0 <= lo <= s.len(),
        forall|k: int| 0 <= k < lo ==> is_ws(#[trigger] s[k]),
        lo == s.len() || !is_ws(s[lo]),
    ensures
        trim_start(s) == s.subrange(lo, s.len() as int),
    decreases lo,
{
    if lo > 0 {
        assert(is_ws(s[0]));
        let d = s.drop_first();
        assert forall|k: int| 0 <= k < lo - 1 implies is_ws(#[trigger] d[k]) by {
            assert(d[k] == s[k + 1]);
        }
        if lo - 1 < d.len() {
            assert(d[lo - 1] == s[lo]);
        }
        lemma_trim_start_prefix(d, lo - 1);
        assert(d.subrange(lo - 1, d.len() as int) =~= s.subrange(lo, s.len() as int));
    } else {
        assert(s.subrange(0, s.len() as int) =~= s);
    }
}

pub fn is_heading_line(line: &[char]) -> (b: bool)
    ensures
        b == is_heading(line@),
{
    let lo = trim_start_bound(line);
    let t = slice_chars(line, lo, line.len());
    if t.len() > 0 && t[0] == '#' {
        return true;
    }
    if t.len() == 0 || byte_len128(&t) >= 80 {
        return false;
    }
    let up = uppercase_chars(&t);
    seq_eq(&up, &t) && count_alpha_of(&t) >= 4
}

pub open spec fn block_step(st: (Seq<Seq<char>>, Seq<char>), line: Seq<char>) -> (
    Seq<Seq<char>>,
    Seq<char>,
) {
    if all_ws(line) {
        if !all_ws(st.1) {
            (st.0.push(st.1), Seq::<char>::empty())
        } else {
            st
        }
    } else {
        let st2 = if is_heading(line) && !all_ws(st.1) {
            (st.0.push(st.1), Seq::<char>::empty())
        } else {
            st
        };
        (st2.0, st2.1 + line + seq!['\n'])
    }
}

pub open spec fn block_state(ls: Seq<Seq<char>>) -> (Seq<Seq<char>>, Seq<char>)
    decreases ls.len(),
{
    if ls.len() == 0 {
        (Seq::<Seq<char>>::empty(), Seq::<char>::empty())
    } else {
        block_step(block_state(ls.drop_last()), ls.last())
    }
}

/// Paragraph-ish blocks: blank lines separate blocks, a heading line starts a
/// new block, and each kept line is followed by `\n`.
pub open spec fn blocks(text: Seq<char>) -> Seq<Seq<char>> {
    let st = block_state(lines(text));
    if !all_ws(st.1) {
        st.0.push(st.1)
    } else {
        st.0
    }
}

pub fn blocks_of(text: &[char]) -> (r: Vec<Vec<char>>)
    ensures
        r@.len() == blocks(text@).len(),
        forall|i: int| 0 <= i < r@.len() ==> #[trigger] r@[i]@ == blocks(text@)[i],
{
    let ls = lines_of(text);
    let ghost lsv = lines(text@);
    let mut out: Vec<Vec<char>> = Vec::new();
    let mut cur: Vec<char> = Vec::new();
    let mut i: usize = 0;
    while i < ls.len()
        invariant
            i <= ls.len(),
            ls@.len() == lsv.len(),
            forall|k: int| 0 <= k < ls@.len() ==> #[trigger] ls@[k]@ == lsv[k],
            out@.len() == block_state(lsv.subrange(0, i as int)).0.len(),
            forall|k: int|
                0 <= k < out@.len() ==> #[trigger] out@[k]@ == block_state(
                    lsv.subrange(0, i as int),
                ).0[k],
            cur@ == block_state(lsv.subrange(0, i as int)).1,
        decreases ls.len() - i,
    {
        assert(lsv.subrange(0, i + 1).drop_last() =~= lsv.subrange(0, i as int));
        assert(lsv.subrange(0, i + 1).last() == lsv[i as int]);
        let line = &ls[i];
        assert(line@ == lsv[i as int]);
        if is_blank(line) {
            if !is_blank(&cur) {
                out.push(cur);
                cur = Vec::new();
            }
        } else {
            if is_heading_line(line) && !is_blank(&cur) {
                out.push(cur);
                cur = Vec::new();
            }
            push_all(&mut cur, line);
            cur.push('\n');
        }
        i = i + 1;
    }
    assert(lsv.subrange(0, ls.len() as int) =~= lsv);
    if !is_blank(&cur) {
        out.push(cur);
    }
    out
}

/// Remove all leading `#` characters.
pub open spec fn trim_hashes(s: Seq<char>) -> Seq<char>
    decreases s.len(),
{
    if s.len() > 0 && s[0] == '#' {
        trim_hashes(s.drop_first())
    } else {
        s
    }
}

/// The first line of a block, trimmed, when it is a heading: its text
/// without leading `#`s, trimmed, at most 120 characters.
pub open spec fn first_heading(block: Seq<char>) -> Option<Seq<char>> {
    let ls = lines(block);
    if ls.len() == 0 {
        None
    } else {
        let line = trim(ls[0]);
        if is_heading(line) {
            Some(take(trim(trim_hashes(line)), 120))
        } else {
            None
        }
    }
}

fn trim_hashes_of(s: &[char]) -> (r: Vec<char>)
    ensures
        r@ == trim_hashes(s@),
{
    let mut lo: usize = 0;
    assert(s@.subrange(0, s.len() as int) =~= s@);
    while lo < s.len() && s[lo] == '#'
        invariant
            lo <= s.len(),
            trim_hashes(s@) == trim_hashes(s@.subrange(lo as int, s.len() as int)),
        decreases s.len() - lo,
    {
        let ghost t = s@.subrange(lo as int, s.len() as int);
        assert(t.drop_first() =~= s@.subrange(lo + 1, s.len() as int));
        lo = lo + 1;
    }
    let r = slice_chars(s, lo, s.len());
    r
}

pub fn first_heading_of(block: &[char]) -> (r: Option<Vec<char>>)
    ensures
        match r {
            Some(v) => first_heading(block@) == Some(v@),
            None => first_heading(block@) is None,
        },
{
    let ls = lines_of(block);
    if ls.len() == 0 {
        return None;
    }
    let line = trimmed(&ls[0]);
    if is_heading_line(&line) {
        let h = trim_hashes_of(&line);
        let t = trimmed(&h);
        Some(take_chars(&t, 120))
    } else {
        None
    }
}

// ---------------------------------------------------------------------------
// Packing blocks into sections
// ---------------------------------------------------------------------------

/// Largest `k >= from` such that the first `k` characters of `s` fit in
/// `target` bytes (scanning upward from `from`).
pub open spec fn fit_from(s: Seq<char>, target: nat, k: nat) -> nat
    decreases s.len() - k,
{
    if k < s.len() && utf8_len(s.subrange(0, k + 1 as int)) <= target {
        fit_from(s, target, k + 1)
    } else {
        k
    }
}

/// Number of leading characters of `s` that fit in `target` bytes.
pub open spec fn fit(s: Seq<char>, target: nat) -> nat {
    fit_from(s, target, 0)
}

/// Splitting state: finished sections, the section being filled, its title.
#[verifier::ext_equal]
pub struct SplitState {
    pub secs: Seq<(Option<Seq<char>>, Seq<char>)>,
    pub cur: Seq<char>,
    pub title: Option<Seq<char>>,
}

/// Where a hard split cuts: as many characters as fit in `target` bytes, and
/// at least one, so that every cut makes progress.
pub open spec fn cut_point(rest: Seq<char>, target: nat) -> nat {
    if fit(rest, target) == 0 {
        1
    } else {
        fit(rest, target)
    }
}

/// Hard-split an oversized paragraph into target-sized pieces.
pub open spec fn hard_split(st: SplitState, rest: Seq<char>, target: nat) -> SplitState
    decreases rest.len(),
{
    let cut = cut_point(rest, target);
    if utf8_len(rest) > target && 0 < cut <= rest.len() {
        hard_split(
            SplitState {
                secs: st.secs.push((st.title, st.cur + rest.subrange(0, cut as int))),
                cur: Seq::<char>::empty(),
                title: None,
            },
            rest.subrange(cut as int, rest.len() as int),
            target,
        )
    } else {
        SplitState { secs: st.secs, cur: st.cur + rest, title: st.title }
    }
}

pub open spec fn sec_step(st: SplitState, block: Seq<char>, target: nat) -> SplitState {
    let st1 = if utf8_len(st.cur) + utf8_len(block) > target && !all_ws(st.cur) {
        SplitState {
            secs: st.secs.push((st.title, st.cur)),
            cur: Seq::<char>::empty(),
            title: None,
        }
    } else {
        st
    };
    let st2 = if st1.cur.len() == 0 {
        SplitState { secs: st1.secs, cur: st1.cur, title: first_heading(block) }
    } else {
        st1
    };
    if utf8_len(block) > target {
        hard_split(st2, block, target)
    } else {
        SplitState { secs: st2.secs, cur: st2.cur + block + seq!['\n'], title: st2.title }
    }
}

pub open spec fn sec_fold(bs: Seq<Seq<char>>, target: nat) -> SplitState
    decreases bs.len(),
{
    if bs.len() == 0 {
        SplitState {
            secs: Seq::<(Option<Seq<char>>, Seq<char>)>::empty(),
            cur: Seq::<char>::empty(),
            title: None,
        }
    } else {
        sec_step(sec_fold(bs.drop_last(), target), bs.last(), target)
    }
}

/// The sections of a text for a target size: empty for blank text, the whole
/// trimmed text when it fits, otherwise its blocks packed greedily.
pub open spec fn sections_of(text: Seq<char>, target: nat) -> Seq<(Option<Seq<char>>, Seq<char>)> {
    let t = trim(text);
    if t.len() == 0 {
        Seq::empty()
    } else if utf8_len(t) <= target {
        seq![(first_heading(t), t)]
    } else {
        let st = sec_fold(blocks(t), target);
        if !all_ws(st.cur) {
            st.secs.push((st.title, st.cur))
        } else {
            st.secs
        }
    }
}

proof fn lemma_fit_from_within(s: Seq<char>, target: nat, k: nat)
    requires
        k <= s.len(),
        utf8_len(s.subrange(0, k as int)) <= target,
    ensures
        utf8_len(s.subrange(0, fit_from(s, target, k) as int)) <= target,
        k <= fit_from(s, target, k) <= s.len(),
    decreases s.len() - k,
{
    if k < s.len() && utf8_len(s.subrange(0, k + 1 as int)) <= target {
        lemma_fit_from_within(s, target, k + 1);
    }
}

/// The prefix `fit` keeps fits.
pub proof fn lemma_fit_within(s: Seq<char>, target: nat)
    ensures
        utf8_len(s.subrange(0, fit(s, target) as int)) <= target,
        fit(s, target) <= s.len(),
{
    assert(s.subrange(0, 0) =~= Seq::<char>::empty());
    lemma_fit_from_within(s, target, 0);
}

proof fn lemma_fit_from_ge(s: Seq<char>, target: nat, k: nat)
    ensures
        fit_from(s, target, k) >= k,
        k <= s.len() ==> fit_from(s, target, k) <= s.len(),
    decreases s.len() - k,
{
    if k < s.len() && utf8_len(s.subrange(0, k + 1 as int)) <= target {
        lemma_fit_from_ge(s, target, k + 1);
    }
}

/// The cut point and the byte size of the cut prefix, for `s[start..]`.
pub(crate) fn fit_at(s: &[char], start: usize, target: usize) -> (r: (usize, u128))
    requires
        start <= s.len(),
    ensures
        start + r.0 <= s.len(),
        r.1 <= target,
        r.0 == fit(s@.subrange(start as int, s.len() as int), target as nat),
        r.1 == utf8_len(s@.subrange(start as int, start + r.0)),
{
    let ghost rest = s@.subrange(start as int, s.len() as int);
    let mut k: usize = 0;
    let mut acc: u128 = 0;
    proof {
        assert(rest.subrange(0, 0) =~= Seq::<char>::empty());
    }
    while start + k < s.len() && acc + char_width(s[start + k]) as u128 <= target as u128
        invariant
            start <= s.len(),
            rest == s@.subrange(start as int, s.len() as int),
            start + k <= s.len(),
            acc == utf8_len(rest.subrange(0, k as int)),
            acc <= target,
            fit(rest, target as nat) == fit_from(rest, target as nat, k as nat),
        decreases s.len() - k,
    {
        proof {
            assert(rest.subrange(0, k + 1) =~= rest.subrange(0, k as int).push(rest[k as int]));
            lemma_utf8_len_push(rest.subrange(0, k as int), rest[k as int]);
        }
        acc = acc + char_width(s[start + k]) as u128;
        k = k + 1;
    }
    proof {
        if start + k < s.len() {
            assert(rest.subrange(0, k + 1) =~= rest.subrange(0, k as int).push(rest[k as int]));
            lemma_utf8_len_push(rest.subrange(0, k as int), rest[k as int]);
        }
    }
    proof {
        assert(rest.subrange(0, k as int) =~= s@.subrange(start as int, start + k));
    }
    (k, acc)
}

fn section_of(title: Option<Vec<char>>, body: &[char]) -> (s: Section)
    ensures
        s@.1 == body@,
        s@.0 == match title {
            Some(t) => Some(t@),
            None => None::<Seq<char>>,
        },
{
    let t = match title {
        Some(t) => Some(string_of(&t)),
        None => None,
    };
    Section { title: t, body: string_of(body) }
}

pub open spec fn title_view(t: Option<Vec<char>>) -> Option<Seq<char>> {
    match t {
        Some(v) => Some(v@),
        None => None,
    }
}

pub open spec fn secs_match(secs: Seq<Section>, spec: Seq<(Option<Seq<char>>, Seq<char>)>) -> bool {
    ghost_secs(secs) == spec
}

/// Split `text` into sections of about `target` bytes (see `sections_of`).
pub fn split_sections(text: &str, target: usize) -> (r: Vec<Section>)
    requires
        target > 0,
    ensures
        secs_match(r@, sections_of(text@, target as nat)),
{
    let all = chars_of(text);
    let t = trimmed(&all);
    if t.len() == 0 {
        let r: Vec<Section> = Vec::new();
        assert(ghost_secs(r@) =~= sections_of(text@, target as nat));
        return r;
    }
    if byte_len128(&t) <= target as u128 {
        let h = first_heading_of(&t);
        let mut r: Vec<Section> = Vec::new();
        r.push(section_of(h, &t));
        assert(ghost_secs(r@) =~= sections_of(text@, target as nat));
        return r;
    }
    let bl = blocks_of(&t);
    let ghost bs = blocks(t@);
    let ghost tn = target as nat;
    let mut secs: Vec<Section> = Vec::new();
    let mut cur: Vec<char> = Vec::new();
    let mut title: Option<Vec<char>> = None;
    let mut i: usize = 0;
    assert(ghost_secs(secs@) =~= sec_fold(bs.subrange(0, 0), tn).secs);
    while i < bl.len()
        invariant
            target > 0,
            tn == target as nat,
            i <= bl.len(),
            bl@.len() == bs.len(),
            forall|k: int| 0 <= k < bl@.len() ==> #[trigger] bl@[k]@ == bs[k],
            ghost_secs(secs@) == sec_fold(bs.subrange(0, i as int), tn).secs,
            cur@ == sec_fold(bs.subrange(0, i as int), tn).cur,
            title_view(title) == sec_fold(bs.subrange(0, i as int), tn).title,
        decreases bl.len() - i,
    {
        assert(bs.subrange(0, i + 1).drop_last() =~= bs.subrange(0, i as int));
        let block = &bl[i];
        let ghost st0 = sec_fold(bs.subrange(0, i as int), tn);
        let ghost stp = sec_step(st0, bs[i as int], tn);
        assert(block@ == bs[i as int]);
        assert(sec_fold(bs.subrange(0, i + 1), tn) == stp);
        let block_len = byte_len128(block);
        // Flush the current section when this block would overflow it.
        if byte_len128(&cur) + block_len > target as u128 && !is_blank(&cur) {
            let ghost old_secs = secs@;
            let s = section_of(title, &cur);
            secs.push(s);
            assert(ghost_secs(secs@) =~= ghost_secs(old_secs).push((st0.title, st0.cur)));
            cur = Vec::new();
            title = None;
        }
        if cur.len() == 0 {
            title = first_heading_of(block);
        }
        let ghost st2 = SplitState { secs: ghost_secs(secs@), cur: cur@, title: title_view(title) };
        proof {
            let st1 = if utf8_len(st0.cur) + utf8_len(block@) > tn && !all_ws(st0.cur) {
                SplitState {
                    secs: st0.secs.push((st0.title, st0.cur)),
                    cur: Seq::<char>::empty(),
                    title: None,
                }
            } else {
                st0
            };
            let st2s = if st1.cur.len() == 0 {
                SplitState { secs: st1.secs, cur: st1.cur, title: first_heading(block@) }
            } else {
                st1
            };
            assert(st2 =~= st2s);
        }
        if block_len > target as u128 {
            // One pathological paragraph: hard-split on character boundaries.
            let mut start: usize = 0;
            let mut rest_len: u128 = block_len;
            proof {
                assert(block@.subrange(0, block@.len() as int) =~= block@);
            }
            while rest_len > target as u128
                invariant
                    target > 0,
                    tn == target as nat,
                    start <= block@.len(),
                    rest_len == utf8_len(block@.subrange(start as int, block@.len() as int)),
                    hard_split(st2, block@, tn) == hard_split(
                        SplitState { secs: ghost_secs(secs@), cur: cur@, title: title_view(title) },
                        block@.subrange(start as int, block@.len() as int),
                        tn,
                    ),
                decreases block@.len() - start,
            {
                let ghost rest = block@.subrange(start as int, block@.len() as int);
                let ghost before = SplitState { secs: ghost_secs(secs@), cur: cur@, title: title_view(title) };
                proof {
                    if rest.len() == 0 {
                        assert(utf8_len(rest) == 0);
                    }
                    lemma_fit_within(rest, tn);
                }
                let (fitted, fitted_len) = fit_at(block, start, target);
                let (cut, cut_len) = if fitted == 0 {
                    proof {
                        assert(rest.subrange(0, 1) =~= Seq::<char>::empty().push(rest[0]));
                        lemma_utf8_len_push(Seq::<char>::empty(), rest[0]);
                        assert(utf8_len(Seq::<char>::empty()) == 0);
                        assert(rest[0] == block@[start as int]);
                    }
                    (1, char_width(block[start]) as u128)
                } else {
                    assert(rest.subrange(0, fitted as int) =~= block@.subrange(start as int, start + fitted));
                    (fitted, fitted_len)
                };
                assert(cut == cut_point(rest, tn));
                assert(cut_len == utf8_len(rest.subrange(0, cut as int)));
                let ghost old_secs = secs@;
                let mut body = cur;
                let piece = slice_chars(block, start, start + cut);
                push_all(&mut body, &piece);
                let s = section_of(title, &body);
                secs.push(s);
                cur = Vec::new();
                title = None;
                proof {
                    assert(piece@ =~= rest.subrange(0, cut as int));
                    assert(rest.subrange(cut as int, rest.len() as int) =~= block@.subrange(
                        start + cut,
                        block@.len() as int,
                    ));
                    lemma_utf8_len_append(rest.subrange(0, cut as int), rest.subrange(cut as int, rest.len() as int));
                    assert(rest.subrange(0, cut as int) + rest.subrange(cut as int, rest.len() as int) =~= rest);
                    assert(ghost_secs(secs@) =~= ghost_secs(old_secs).push((before.title, before.cur + rest.subrange(0, cut as int))));
                    let after = SplitState { secs: ghost_secs(secs@), cur: cur@, title: title_view(title) };
                    assert(after =~= SplitState {
                        secs: before.secs.push((before.title, before.cur + rest.subrange(0, cut as int))),
                        cur: Seq::<char>::empty(),
                        title: None,
                    });
                }
                start = start + cut;
                rest_len = rest_len - cut_len;
            }
            let tail = slice_chars(block, start, block.len());
            push_all(&mut cur, &tail);
            proof {
                let after = SplitState { secs: ghost_secs(secs@), cur: cur@, title: title_view(title) };
                assert(after == stp);
            }
        } else {
            push_all(&mut cur, block);
            cur.push('\n');
            proof {
                let after = SplitState { secs: ghost_secs(secs@), cur: cur@, title: title_view(title) };
                assert(after =~= stp);
            }
        }
        i = i + 1;
    }
    assert(bs.subrange(0, bl.len() as int) =~= bs);
    if !is_blank(&cur) {
        let ghost old_secs = secs@;
        let s = section_of(title, &cur);
        secs.push(s);
        assert(ghost_secs(secs@) =~= ghost_secs(old_secs).push((title_view(title), cur@)));
    }
    assert(ghost_secs(secs@) =~= sections_of(text@, target as nat));
    secs
}

pub open spec fn ghost_secs(secs: Seq<Section>) -> Seq<(Option<Seq<char>>, Seq<char>)> {
    Seq::new(secs.len(), |k: int| secs[k]@)
}

// ---------------------------------------------------------------------------
// Coverage: no content is lost
// ---------------------------------------------------------------------------

/// The non-whitespace characters of a text, in order.
pub open spec fn strip_ws(s: Seq<char>) -> Seq<char>
    decreases s.len(),
{
    if s.len() == 0 {
        Seq::empty()
    } else if is_ws(s.last()) {
        strip_ws(s.drop_last())
    } else {
        strip_ws(s.drop_last()).push(s.last())
    }
}

/// Concatenation of a sequence of texts.
pub open spec fn concat(ss: Seq<Seq<char>>) -> Seq<char>
    decreases ss.len(),
{
    if ss.len() == 0 {
        Seq::empty()
    } else {
        concat(ss.drop_last()) + ss.last()
    }
}

/// The bodies of a sequence of sections.
pub open spec fn bodies(secs: Seq<(Option<Seq<char>>, Seq<char>)>) -> Seq<Seq<char>> {
    secs.map_values(|p: (Option<Seq<char>>, Seq<char>)| p.1)
}

pub proof fn lemma_strip_ws_append(a: Seq<char>, b: Seq<char>)
    ensures
        strip_ws(a + b) == strip_ws(a) + strip_ws(b),
    decreases b.len(),
{
    if b.len() == 0 {
        assert(a + b =~= a);
        assert(strip_ws(a) + strip_ws(b) =~= strip_ws(a));
    } else {
        lemma_strip_ws_append(a, b.drop_last());
        assert((a + b).drop_last() =~= a + b.drop_last());
        assert((a + b).last() == b.last());
        if !is_ws(b.last()) {
            assert(strip_ws(a) + strip_ws(b.drop_last()).push(b.last()) =~= (strip_ws(a) + strip_ws(
                b.drop_last(),
            )).push(b.last()));
        }
    }
}

proof fn lemma_strip_ws_all_ws(s: Seq<char>)
    requires
        all_ws(s),
    ensures
        strip_ws(s) == Seq::<char>::empty(),
    decreases s.len(),
{
    if s.len() > 0 {
        assert(is_ws(s[s.len() - 1]));
        assert forall|k: int| 0 <= k < s.drop_last().len() implies is_ws(#[trigger] s.drop_last()[k]) by {
            assert(s.drop_last()[k] == s[k]);
        }
        lemma_strip_ws_all_ws(s.drop_last());
    }
}

proof fn lemma_strip_ws_ws_char(c: char)
    requires
        is_ws(c),
    ensures
        strip_ws(seq![c]) == Seq::<char>::empty(),
{
    assert(seq![c].drop_last() =~= Seq::<char>::empty());
    assert(seq![c].last() == c);
    assert(strip_ws(Seq::<char>::empty()) =~= Seq::<char>::empty());
}

proof fn lemma_concat_push(ss: Seq<Seq<char>>, x: Seq<char>)
    ensures
        concat(ss.push(x)) == concat(ss) + x,
{
    assert(ss.push(x).drop_last() =~= ss);
}

proof fn lemma_strip_ws_trim(s: Seq<char>)
    ensures
        strip_ws(trim(s)) == strip_ws(s),
{
    lemma_strip_ws_trim_start(s);
    lemma_strip_ws_trim_end(trim_start(s));
}

proof fn lemma_strip_ws_trim_start(s: Seq<char>)
    ensures
        strip_ws(trim_start(s)) == strip_ws(s),
    decreases s.len(),
{
    if s.len() > 0 && is_ws(s[0]) {
        lemma_strip_ws_trim_start(s.drop_first());
        assert(seq![s[0]] + s.drop_first() =~= s);
        lemma_strip_ws_append(seq![s[0]], s.drop_first());
        lemma_strip_ws_ws_char(s[0]);
        assert(Seq::<char>::empty() + strip_ws(s.drop_first()) =~= strip_ws(s.drop_first()));
    }
}

proof fn lemma_strip_ws_trim_end(s: Seq<char>)
    ensures
        strip_ws(trim_end(s)) == strip_ws(s),
    decreases s.len(),
{
    if s.len() > 0 && is_ws(s.last()) {
        lemma_strip_ws_trim_end(s.drop_last());
    }
}

proof fn lemma_strip_ws_strip_cr(l: Seq<char>)
    ensures
        strip_ws(strip_cr(l)) == strip_ws(l),
{
}

proof fn lemma_line_state_covers(s: Seq<char>)
    ensures
        strip_ws(concat(line_state(s).0)) + strip_ws(line_state(s).1) == strip_ws(s),
    decreases s.len(),
{
    if s.len() == 0 {
        assert(Seq::<char>::empty() + Seq::<char>::empty() =~= Seq::<char>::empty());
    } else {
        let p = s.drop_last();
        let c = s.last();
        lemma_line_state_covers(p);
        let st = line_state(p);
        assert(p.push(c) =~= s);
        lemma_strip_ws_append(p, seq![c]);
        assert(p + seq![c] =~= s);
        if c == '\n' {
            lemma_concat_push(st.0, strip_cr(st.1));
            lemma_strip_ws_append(concat(st.0), strip_cr(st.1));
            lemma_strip_ws_strip_cr(st.1);
            lemma_strip_ws_ws_char(c);
            assert(strip_ws(Seq::<char>::empty()) == Seq::<char>::empty());
            assert(strip_ws(concat(st.0)) + strip_ws(st.1) + Seq::<char>::empty() =~= strip_ws(
                concat(st.0),
            ) + strip_ws(st.1));
        } else {
            lemma_strip_ws_append(st.1, seq![c]);
            assert(st.1 + seq![c] =~= st.1.push(c));
            assert(strip_ws(concat(st.0)) + (strip_ws(st.1) + strip_ws(seq![c])) =~= (strip_ws(
                concat(st.0),
            ) + strip_ws(st.1)) + strip_ws(seq![c]));
        }
    }
}

proof fn lemma_lines_cover(s: Seq<char>)
    ensures
        strip_ws(concat(lines(s))) == strip_ws(s),
{
    lemma_line_state_covers(s);
    let st = line_state(s);
    if st.1.len() > 0 {
        lemma_concat_push(st.0, st.1);
        lemma_strip_ws_append(concat(st.0), st.1);
    } else {
        assert(strip_ws(st.1) == Seq::<char>::empty());
        assert(strip_ws(concat(st.0)) + Seq::<char>::empty() =~= strip_ws(concat(st.0)));
    }
}

proof fn lemma_block_state_covers(ls: Seq<Seq<char>>)
    ensures
        strip_ws(concat(block_state(ls).0)) + strip_ws(block_state(ls).1) == strip_ws(concat(ls)),
    decreases ls.len(),
{
    if ls.len() == 0 {
        assert(Seq::<char>::empty() + Seq::<char>::empty() =~= Seq::<char>::empty());
    } else {
        let p = ls.drop_last();
        let line = ls.last();
        lemma_block_state_covers(p);
        let st = block_state(p);
        lemma_concat_push(p, line);
        assert(p.push(line) =~= ls);
        lemma_strip_ws_append(concat(p), line);
        let a = strip_ws(concat(st.0));
        let b = strip_ws(st.1);
        let l = strip_ws(line);
        // strip_ws(concat(ls)) == a + b + l
        if all_ws(line) {
            lemma_strip_ws_all_ws(line);
            if !all_ws(st.1) {
                lemma_concat_push(st.0, st.1);
                lemma_strip_ws_append(concat(st.0), st.1);
                assert(a + b + l =~= (a + b) + Seq::<char>::empty());
            } else {
                assert(a + b + l =~= a + b);
            }
        } else {
            let st2 = if is_heading(line) && !all_ws(st.1) {
                (st.0.push(st.1), Seq::<char>::empty())
            } else {
                st
            };
            assert(strip_ws(concat(st2.0)) + strip_ws(st2.1) == a + b) by {
                if is_heading(line) && !all_ws(st.1) {
                    lemma_concat_push(st.0, st.1);
                    lemma_strip_ws_append(concat(st.0), st.1);
                    assert(strip_ws(Seq::<char>::empty()) == Seq::<char>::empty());
                    assert(a + b + Seq::<char>::empty() =~= a + b);
                }
            }
            lemma_strip_ws_append(st2.1 + line, seq!['\n']);
            lemma_strip_ws_append(st2.1, line);
            lemma_strip_ws_ws_char('\n');
            assert(strip_ws(concat(st2.0)) + ((strip_ws(st2.1) + l) + Seq::<char>::empty()) =~= (
            strip_ws(concat(st2.0)) + strip_ws(st2.1)) + l);
        }
    }
}

proof fn lemma_blocks_cover(t: Seq<char>)
    ensures
        strip_ws(concat(blocks(t))) == strip_ws(t),
{
    lemma_lines_cover(t);
    lemma_block_state_covers(lines(t));
    let st = block_state(lines(t));
    if !all_ws(st.1) {
        lemma_concat_push(st.0, st.1);
        lemma_strip_ws_append(concat(st.0), st.1);
    } else {
        lemma_strip_ws_all_ws(st.1);
        assert(strip_ws(concat(st.0)) + Seq::<char>::empty() =~= strip_ws(concat(st.0)));
    }
}

proof fn lemma_bodies_push(secs: Seq<(Option<Seq<char>>, Seq<char>)>, x: (Option<Seq<char>>, Seq<char>))
    ensures
        concat(bodies(secs.push(x))) == concat(bodies(secs)) + x.1,
{
    assert(bodies(secs.push(x)) =~= bodies(secs).push(x.1));
    lemma_concat_push(bodies(secs), x.1);
}

pub open spec fn covered(st: SplitState) -> Seq<char> {
    strip_ws(concat(bodies(st.secs))) + strip_ws(st.cur)
}

proof fn lemma_hard_split_covers(st: SplitState, rest: Seq<char>, target: nat)
    ensures
        covered(hard_split(st, rest, target)) == covered(st) + strip_ws(rest),
    decreases rest.len(),
{
    let cut = cut_point(rest, target);
    if utf8_len(rest) > target && 0 < cut <= rest.len() {
        let head = rest.subrange(0, cut as int);
        let tail = rest.subrange(cut as int, rest.len() as int);
        let st2 = SplitState {
            secs: st.secs.push((st.title, st.cur + head)),
            cur: Seq::<char>::empty(),
            title: None,
        };
        lemma_hard_split_covers(st2, tail, target);
        lemma_bodies_push(st.secs, (st.title, st.cur + head));
        lemma_strip_ws_append(concat(bodies(st.secs)), st.cur + head);
        lemma_strip_ws_append(st.cur, head);
        assert(head + tail =~= rest);
        lemma_strip_ws_append(head, tail);
        assert(strip_ws(Seq::<char>::empty()) == Seq::<char>::empty());
        let a = strip_ws(concat(bodies(st.secs)));
        let c = strip_ws(st.cur);
        let h = strip_ws(head);
        let t = strip_ws(tail);
        assert((a + (c + h)) + Seq::<char>::empty() + t =~= (a + c) + (h + t));
    } else {
        lemma_strip_ws_append(st.cur, rest);
        let a = strip_ws(concat(bodies(st.secs)));
        assert(a + (strip_ws(st.cur) + strip_ws(rest)) =~= (a + strip_ws(st.cur)) + strip_ws(rest));
    }
}

proof fn lemma_sec_fold_covers(bs: Seq<Seq<char>>, target: nat)
    ensures
        covered(sec_fold(bs, target)) == strip_ws(concat(bs)),
    decreases bs.len(),
{
    if bs.len() == 0 {
        assert(bodies(Seq::<(Option<Seq<char>>, Seq<char>)>::empty()) =~= Seq::<Seq<char>>::empty());
        assert(Seq::<char>::empty() + Seq::<char>::empty() =~= Seq::<char>::empty());
    } else {
        let p = bs.drop_last();
        let block = bs.last();
        lemma_sec_fold_covers(p, target);
        lemma_concat_push(p, block);
        assert(p.push(block) =~= bs);
        lemma_strip_ws_append(concat(p), block);
        let st = sec_fold(p, target);
        let st1 = if utf8_len(st.cur) + utf8_len(block) > target && !all_ws(st.cur) {
            SplitState { secs: st.secs.push((st.title, st.cur)), cur: Seq::<char>::empty(), title: None }
        } else {
            st
        };
        assert(covered(st1) == covered(st)) by {
            if utf8_len(st.cur) + utf8_len(block) > target && !all_ws(st.cur) {
                lemma_bodies_push(st.secs, (st.title, st.cur));
                lemma_strip_ws_append(concat(bodies(st.secs)), st.cur);
                assert(strip_ws(Seq::<char>::empty()) == Seq::<char>::empty());
                assert(covered(st1) =~= covered(st));
            }
        }
        let st2 = if st1.cur.len() == 0 {
            SplitState { secs: st1.secs, cur: st1.cur, title: first_heading(block) }
        } else {
            st1
        };
        assert(covered(st2) == covered(st1));
        if utf8_len(block) > target {
            lemma_hard_split_covers(st2, block, target);
        } else {
            lemma_strip_ws_append(st2.cur + block, seq!['\n']);
            lemma_strip_ws_append(st2.cur, block);
            lemma_strip_ws_ws_char('\n');
            let a = strip_ws(concat(bodies(st2.secs)));
            assert(a + ((strip_ws(st2.cur) + strip_ws(block)) + Seq::<char>::empty()) =~= (a
                + strip_ws(st2.cur)) + strip_ws(block));
        }
    }
}

/// Splitting never loses content: concatenated, the section bodies hold
/// every non-whitespace character of the text, in order (only whitespace
/// between blocks is normalized).
pub proof fn law_split_keeps_content(text: Seq<char>, target: nat)
    ensures
        strip_ws(concat(bodies(sections_of(text, target)))) == strip_ws(text),
{
    let t = trim(text);
    lemma_strip_ws_trim(text);
    lemma_trim_len(text);
    if t.len() == 0 {
        lemma_strip_ws_all_ws(text);
        assert(bodies(Seq::<(Option<Seq<char>>, Seq<char>)>::empty()) =~= Seq::<Seq<char>>::empty());
        assert(concat(Seq::<Seq<char>>::empty()) =~= Seq::<char>::empty());
        assert(strip_ws(Seq::<char>::empty()) =~= Seq::<char>::empty());
        assert(sections_of(text, target) =~= Seq::<(Option<Seq<char>>, Seq<char>)>::empty());
    } else if utf8_len(t) <= target {
        let secs = seq![(first_heading(t), t)];
        assert(bodies(secs) =~= seq![t]);
        assert(seq![t].drop_last() =~= Seq::<Seq<char>>::empty());
        assert(Seq::<char>::empty() + t =~= t);
        assert(sections_of(text, target) == secs);
        assert(concat(seq![t]) == concat(seq![t].drop_last()) + t);
        assert(concat(Seq::<Seq<char>>::empty()) =~= Seq::<char>::empty());
    } else {
        lemma_blocks_cover(t);
        lemma_sec_fold_covers(blocks(t), target);
        let st = sec_fold(blocks(t), target);
        if !all_ws(st.cur) {
            lemma_bodies_push(st.secs, (st.title, st.cur));
            lemma_strip_ws_append(concat(bodies(st.secs)), st.cur);
        } else {
            lemma_strip_ws_all_ws(st.cur);
            assert(strip_ws(concat(bodies(st.secs))) + Seq::<char>::empty() =~= strip_ws(concat(bodies(st.secs))));
        }
    }
}

pub open spec fn no_empty_body(secs: Seq<(Option<Seq<char>>, Seq<char>)>) -> bool {
    forall|i: int| 0 <= i < secs.len() ==> (#[trigger] secs[i]).1.len() > 0
}

proof fn lemma_hard_split_no_empty(st: SplitState, rest: Seq<char>, target: nat)
    requires
        no_empty_body(st.secs),
    ensures
        no_empty_body(hard_split(st, rest, target).secs),
    decreases rest.len(),
{
    let cut = cut_point(rest, target);
    if utf8_len(rest) > target && 0 < cut <= rest.len() {
        let piece = st.cur + rest.subrange(0, cut as int);
        let secs1 = st.secs.push((st.title, piece));
        assert(no_empty_body(secs1)) by {
            assert forall|i: int| 0 <= i < secs1.len() implies (#[trigger] secs1[i]).1.len() > 0 by {
                if i < st.secs.len() {
                    assert(secs1[i] == st.secs[i]);
                }
            }
        }
        lemma_hard_split_no_empty(
            SplitState { secs: secs1, cur: Seq::<char>::empty(), title: None },
            rest.subrange(cut as int, rest.len() as int),
            target,
        );
    }
}

proof fn lemma_sec_fold_no_empty(bs: Seq<Seq<char>>, target: nat)
    ensures
        no_empty_body(sec_fold(bs, target).secs),
    decreases bs.len(),
{
    if bs.len() > 0 {
        lemma_sec_fold_no_empty(bs.drop_last(), target);
        let st = sec_fold(bs.drop_last(), target);
        let block = bs.last();
        if utf8_len(st.cur) + utf8_len(block) > target && !all_ws(st.cur) {
            let secs1 = st.secs.push((st.title, st.cur));
            assert(st.cur.len() > 0);
            assert forall|i: int| 0 <= i < secs1.len() implies (#[trigger] secs1[i]).1.len() > 0 by {
                if i < st.secs.len() {
                    assert(secs1[i] == st.secs[i]);
                }
            }
        }
        let st1 = if utf8_len(st.cur) + utf8_len(block) > target && !all_ws(st.cur) {
            SplitState { secs: st.secs.push((st.title, st.cur)), cur: Seq::<char>::empty(), title: None }
        } else {
            st
        };
        let st2 = if st1.cur.len() == 0 {
            SplitState { secs: st1.secs, cur: st1.cur, title: first_heading(block) }
        } else {
            st1
        };
        assert(no_empty_body(st2.secs));
        if utf8_len(block) > target {
            lemma_hard_split_no_empty(st2, block, target);
        }
    }
}

/// Law: splitting never produces an empty section.
pub proof fn law_sections_are_never_empty(text: Seq<char>, target: nat)
    ensures
        forall|i: int| 0 <= i < sections_of(text, target).len() ==> (#[trigger] sections_of(text, target)[i]).1.len() > 0,
{
    let t = trim(text);
    if t.len() == 0 {
    } else if utf8_len(t) <= target {
    } else {
        lemma_sec_fold_no_empty(blocks(t), target);
        let st = sec_fold(blocks(t), target);
        if !all_ws(st.cur) {
            let r = st.secs.push((st.title, st.cur));
            assert(st.cur.len() > 0);
            assert forall|i: int| 0 <= i < r.len() implies (#[trigger] r[i]).1.len() > 0 by {
                if i < st.secs.len() {
                    assert(r[i] == st.secs[i]);
                }
            }
        }
    }
}


proof fn lemma_lines_nonempty(s: Seq<char>)
    requires
        s.len() > 0,
    ensures
        lines(s).len() > 0,
{
    let st = line_state(s);
    assert(st == line_step(line_state(s.drop_last()), s.last()));
}

proof fn lemma_trim_start_of_trimmed(s: Seq<char>)
    ensures
        trim_start(trim(s)) == trim(s),
{
    crate::text::lemma_trim_ends(s);
}

/// Law: a text that fits in one section and whose first line (trimmed) is a
/// heading — it starts with `#`, or it is shorter than 80 bytes, equal to
/// its upper-case form and holds at least four letters — becomes one section
/// titled by that line (leading `#`s and spaces removed, at most 120
/// characters).
pub proof fn law_heading_line_titles_a_short_text(text: Seq<char>, target: nat)
    requires
        trim(text).len() > 0,
        utf8_len(trim(text)) <= target,
        lines(trim(text)).len() > 0 ==> ({
            let l = trim(lines(trim(text))[0]);
            ||| l.len() > 0 && l[0] == '#'
            ||| l.len() > 0 && utf8_len(l) < 80 && uppercase(l) == l && count_alpha(l) >= 4
        }),
    ensures
        lines(trim(text)).len() > 0,
        sections_of(text, target) == seq![
            (Some(take(trim(trim_hashes(trim(lines(trim(text))[0]))), 120)), trim(text)),
        ],
{
    lemma_lines_nonempty(trim(text));
    lemma_trim_start_of_trimmed(lines(trim(text))[0]);
}

/// Law: inside a paragraph, a heading line (by the same rule) closes the
/// block being filled and opens a new one with itself.
pub proof fn law_heading_line_starts_a_block(st: (Seq<Seq<char>>, Seq<char>), line: Seq<char>)
    requires
        !all_ws(st.1),
        ({
            let l = trim_start(line);
            ||| l.len() > 0 && l[0] == '#'
            ||| l.len() > 0 && utf8_len(l) < 80 && uppercase(l) == l && count_alpha(l) >= 4
        }),
    ensures
        block_step(st, line) == (st.0.push(st.1), line + seq!['\n']),
{
    let l = trim_start(line);
    if all_ws(line) {
        lemma_all_ws_trim_start_empty(line);
    }
    assert(Seq::<char>::empty() + line + seq!['\n'] =~= line + seq!['\n']);
}

proof fn lemma_all_ws_trim_start_empty(s: Seq<char>)
    requires
        all_ws(s),
    ensures
        trim_start(s).len() == 0,
    decreases s.len(),
{
    if s.len() > 0 {
        assert forall|i: int| 0 <= i < s.drop_first().len() implies is_ws(#[trigger] s.drop_first()[i]) by {
            assert(s.drop_first()[i] == s[i + 1]);
        }
        lemma_all_ws_trim_start_empty(s.drop_first());
    }
}

} // verus!
