//! Character-level text helpers with their mathematical models: UTF-8 byte
//! lengths, Unicode whitespace, trimming, searching and decimal rendering.
//! Text is handled as `Vec<char>` inside the library; `chars_of` and
//! `string_of` convert at the edges.

use vstd::prelude::*;

verus! {

// ---------------------------------------------------------------------------
// UTF-8 byte lengths
// ---------------------------------------------------------------------------

/// Number of bytes in the UTF-8 encoding of `c`.
pub open spec fn utf8_width(c: char) -> nat {
    if (c as u32) <= 0x7F {
        1
    } else if (c as u32) <= 0x7FF {
        2
    } else if (c as u32) <= 0xFFFF {
        3
    } else {
        4
    }
}

/// Number of bytes in the UTF-8 encoding of a character sequence (what
/// `str::len` reports for the same text).
pub open spec fn utf8_len(s: Seq<char>) -> nat
    decreases s.len(),
{
    if s.len() == 0 {
        0
    } else {
        utf8_len(s.drop_last()) + utf8_width(s.last())
    }
}

pub proof fn lemma_utf8_len_append(a: Seq<char>, b: Seq<char>)
    ensures
        utf8_len(a + b) == utf8_len(a) + utf8_len(b),
    decreases b.len(),
{
    if b.len() == 0 {
        assert(a + b =~= a);
    } else {
        lemma_utf8_len_append(a, b.drop_last());
        assert((a + b).drop_last() =~= a + b.drop_last());
    }
}

pub proof fn lemma_utf8_len_push(a: Seq<char>, c: char)
    ensures
        utf8_len(a.push(c)) == utf8_len(a) + utf8_width(c),
{
    assert(a.push(c).drop_last() =~= a);
}

pub proof fn lemma_utf8_len_bounds(s: Seq<char>)
    ensures
        s.len() <= utf8_len(s) <= 4 * s.len(),
    decreases s.len(),
{
    if s.len() > 0 {
        lemma_utf8_len_bounds(s.drop_last());
    }
}

/// The UTF-8 encoding of one character.
pub open spec fn utf8_char(c: char) -> Seq<u8> {
    let u = c as u32;
    if u <= 0x7F {
        seq![u as u8]
    } else if u <= 0x7FF {
        seq![(0xC0u32 | (u >> 6u32)) as u8, (0x80u32 | (u & 0x3Fu32)) as u8]
    } else if u <= 0xFFFF {
        seq![
            (0xE0u32 | (u >> 12u32)) as u8,
            (0x80u32 | ((u >> 6u32) & 0x3Fu32)) as u8,
            (0x80u32 | (u & 0x3Fu32)) as u8,
        ]
    } else {
        seq![
            (0xF0u32 | (u >> 18u32)) as u8,
            (0x80u32 | ((u >> 12u32) & 0x3Fu32)) as u8,
            (0x80u32 | ((u >> 6u32) & 0x3Fu32)) as u8,
            (0x80u32 | (u & 0x3Fu32)) as u8,
        ]
    }
}

/// The UTF-8 bytes of a text (what `str::as_bytes` holds).
pub open spec fn utf8_bytes(s: Seq<char>) -> Seq<u8>
    decreases s.len(),
{
    if s.len() == 0 {
        Seq::empty()
    } else {
        utf8_bytes(s.drop_last()) + utf8_char(s.last())
    }
}

/// The byte a character's encoding starts with says how long it is; the
/// bytes after it are continuation bytes; an ASCII character is its own byte.
pub proof fn lemma_utf8_char_shape(c: char)
    ensures
        utf8_char(c).len() == utf8_width(c),
        (c as u32) <= 0x7F ==> utf8_char(c)[0] == (c as u32) as u8,
        (c as u32) <= 0x7F <==> utf8_char(c)[0] < 0x80,
        (c as u32) > 0x7F ==> utf8_char(c)[0] >= 0xC0,
        0xC0 <= utf8_char(c)[0] < 0xE0 ==> utf8_width(c) == 2,
        0xE0 <= utf8_char(c)[0] < 0xF0 ==> utf8_width(c) == 3,
        0xF0 <= utf8_char(c)[0] ==> utf8_width(c) == 4,
        forall|k: int| 1 <= k < utf8_char(c).len() ==> 0x80 <= #[trigger] utf8_char(c)[k] < 0xC0,
{
    let u = c as u32;
    assert(u <= 0x10FFFF);
    if u <= 0x7F {
    } else if u <= 0x7FF {
        assert(0xC0 <= ((0xC0u32 | (u >> 6u32)) as u8) < 0xE0) by (bit_vector)
            requires
                0x7F < u <= 0x7FF,
        ;
        assert(0x80 <= ((0x80u32 | (u & 0x3Fu32)) as u8) < 0xC0) by (bit_vector);
    } else if u <= 0xFFFF {
        assert(0xE0 <= ((0xE0u32 | (u >> 12u32)) as u8) < 0xF0) by (bit_vector)
            requires
                0x7FF < u <= 0xFFFF,
        ;
        assert(0x80 <= ((0x80u32 | ((u >> 6u32) & 0x3Fu32)) as u8) < 0xC0) by (bit_vector);
        assert(0x80 <= ((0x80u32 | (u & 0x3Fu32)) as u8) < 0xC0) by (bit_vector);
    } else {
        assert(0xF0 <= ((0xF0u32 | (u >> 18u32)) as u8)) by (bit_vector)
            requires
                0xFFFF < u <= 0x10FFFF,
        ;
        assert(0x80 <= ((0x80u32 | ((u >> 12u32) & 0x3Fu32)) as u8) < 0xC0) by (bit_vector);
        assert(0x80 <= ((0x80u32 | ((u >> 6u32) & 0x3Fu32)) as u8) < 0xC0) by (bit_vector);
        assert(0x80 <= ((0x80u32 | (u & 0x3Fu32)) as u8) < 0xC0) by (bit_vector);
    }
}

/// Two characters with the same encoding are the same character.
pub proof fn lemma_utf8_char_injective(c: char, d: char)
    requires
        utf8_char(c) == utf8_char(d),
    ensures
        c == d,
{
    lemma_utf8_char_shape(c);
    lemma_utf8_char_shape(d);
    let u = c as u32;
    let v = d as u32;
    assert(u <= 0x10FFFF && v <= 0x10FFFF);
    let e = utf8_char(c);
    if u <= 0x7F {
        assert(v <= 0x7F);
        assert((u as u8) == (v as u8));
        assert(u == v) by (bit_vector)
            requires
                u <= 0x7F && v <= 0x7F && (u as u8) == (v as u8),
        ;
    } else if u <= 0x7FF {
        assert(0x7F < v <= 0x7FF);
        assert(e[0] == utf8_char(d)[0] && e[1] == utf8_char(d)[1]);
        assert(u == v) by (bit_vector)
            requires
                0x7F < u <= 0x7FF,
                0x7F < v <= 0x7FF,
                ((0xC0u32 | (u >> 6u32)) as u8) == ((0xC0u32 | (v >> 6u32)) as u8),
                ((0x80u32 | (u & 0x3Fu32)) as u8) == ((0x80u32 | (v & 0x3Fu32)) as u8),
        ;
    } else if u <= 0xFFFF {
        assert(0x7FF < v <= 0xFFFF);
        assert(e[0] == utf8_char(d)[0] && e[1] == utf8_char(d)[1] && e[2] == utf8_char(d)[2]);
        assert(u == v) by (bit_vector)
            requires
                0x7FF < u <= 0xFFFF,
                0x7FF < v <= 0xFFFF,
                ((0xE0u32 | (u >> 12u32)) as u8) == ((0xE0u32 | (v >> 12u32)) as u8),
                ((0x80u32 | ((u >> 6u32) & 0x3Fu32)) as u8) == ((0x80u32 | ((v >> 6u32) & 0x3Fu32)) as u8),
                ((0x80u32 | (u & 0x3Fu32)) as u8) == ((0x80u32 | (v & 0x3Fu32)) as u8),
        ;
    } else {
        assert(0xFFFF < v <= 0x10FFFF);
        assert(e[0] == utf8_char(d)[0] && e[1] == utf8_char(d)[1] && e[2] == utf8_char(d)[2] && e[3]
            == utf8_char(d)[3]);
        assert(u == v) by (bit_vector)
            requires
                0xFFFF < u <= 0x10FFFF,
                0xFFFF < v <= 0x10FFFF,
                ((0xF0u32 | (u >> 18u32)) as u8) == ((0xF0u32 | (v >> 18u32)) as u8),
                ((0x80u32 | ((u >> 12u32) & 0x3Fu32)) as u8) == ((0x80u32 | ((v >> 12u32) & 0x3Fu32)) as u8),
                ((0x80u32 | ((u >> 6u32) & 0x3Fu32)) as u8) == ((0x80u32 | ((v >> 6u32) & 0x3Fu32)) as u8),
                ((0x80u32 | (u & 0x3Fu32)) as u8) == ((0x80u32 | (v & 0x3Fu32)) as u8),
        ;
    }
}

pub proof fn lemma_utf8_bytes_append(a: Seq<char>, b: Seq<char>)
    ensures
        utf8_bytes(a + b) == utf8_bytes(a) + utf8_bytes(b),
    decreases b.len(),
{
    if b.len() == 0 {
        assert(a + b =~= a);
        assert(utf8_bytes(a) + utf8_bytes(b) =~= utf8_bytes(a));
    } else {
        lemma_utf8_bytes_append(a, b.drop_last());
        assert((a + b).drop_last() =~= a + b.drop_last());
        assert((a + b).last() == b.last());
        assert(utf8_bytes(a) + utf8_bytes(b.drop_last()) + utf8_char(b.last()) =~= utf8_bytes(a) + (utf8_bytes(
            b.drop_last(),
        ) + utf8_char(b.last())));
    }
}

pub proof fn lemma_utf8_bytes_len(s: Seq<char>)
    ensures
        utf8_bytes(s).len() == utf8_len(s),
    decreases s.len(),
{
    if s.len() > 0 {
        lemma_utf8_bytes_len(s.drop_last());
        lemma_utf8_char_shape(s.last());
    }
}

/// A text split before its first character.
pub proof fn lemma_utf8_bytes_first(s: Seq<char>)
    requires
        s.len() > 0,
    ensures
        utf8_bytes(s) == utf8_char(s[0]) + utf8_bytes(s.drop_first()),
{
    let one = seq![s[0]];
    assert(one.drop_last() =~= Seq::<char>::empty());
    assert(one.last() == s[0]);
    assert(utf8_bytes(Seq::<char>::empty()) == Seq::<u8>::empty());
    assert(utf8_bytes(one) =~= Seq::<u8>::empty() + utf8_char(s[0]));
    assert(utf8_bytes(one) =~= utf8_char(s[0]));
    assert(one + s.drop_first() =~= s);
    lemma_utf8_bytes_append(one, s.drop_first());
}

/// An ASCII byte of a text's encoding is a whole character, at a character
/// boundary.
pub proof fn lemma_ascii_byte_is_a_char(s: Seq<char>, b: int)
    requires
        0 <= b < utf8_bytes(s).len(),
        utf8_bytes(s)[b] < 0x80,
    ensures
        exists|i: int| 0 <= i < s.len() && #[trigger] utf8_len(s.subrange(0, i)) == b && (s[i] as u32) <= 0x7F,
    decreases s.len(),
{
    let d = s.drop_last();
    lemma_utf8_bytes_len(d);
    lemma_utf8_char_shape(s.last());
    if b < utf8_bytes(d).len() {
        assert(utf8_bytes(s)[b] == utf8_bytes(d)[b]);
        lemma_ascii_byte_is_a_char(d, b);
        let i = choose|i: int| 0 <= i < d.len() && #[trigger] utf8_len(d.subrange(0, i)) == b && (d[i] as u32) <= 0x7F;
        assert(d.subrange(0, i) =~= s.subrange(0, i));
        assert(d[i] == s[i]);
    } else {
        let k = b - utf8_bytes(d).len();
        assert(utf8_bytes(s)[b] == utf8_char(s.last())[k]);
        assert(k == 0);
        assert(s.subrange(0, s.len() - 1) =~= d);
        assert(utf8_len(s.subrange(0, s.len() - 1)) == b);
    }
}

/// When a text's encoding starts with the encoding of `w`, the text starts
/// with `w`.
pub proof fn lemma_utf8_prefix_decodes(t: Seq<char>, w: Seq<char>)
    requires
        utf8_bytes(w).len() <= utf8_bytes(t).len(),
        utf8_bytes(t).subrange(0, utf8_bytes(w).len() as int) == utf8_bytes(w),
    ensures
        w.len() <= t.len(),
        t.subrange(0, w.len() as int) == w,
    decreases w.len(),
{
    if w.len() == 0 {
        assert(t.subrange(0, 0) =~= w);
    } else {
        lemma_utf8_bytes_first(w);
        lemma_utf8_char_shape(w[0]);
        if t.len() == 0 {
            assert(utf8_bytes(t).len() == 0);
        }
        lemma_utf8_bytes_first(t);
        lemma_utf8_char_shape(t[0]);
        let et = utf8_bytes(t);
        let ew = utf8_bytes(w);
        let t0 = utf8_char(t[0]);
        let w0 = utf8_char(w[0]);
        assert(et[0] == ew[0]) by {
            assert(et.subrange(0, ew.len() as int)[0] == et[0]);
        }
        assert(et[0] == t0[0] && ew[0] == w0[0]);
        let n = w0.len();
        assert(t0.len() == n);
        assert(t0 =~= w0) by {
            assert forall|k: int| 0 <= k < n implies t0[k] == w0[k] by {
                assert(et[k] == t0[k]);
                assert(ew[k] == w0[k]);
                assert(et.subrange(0, ew.len() as int)[k] == et[k]);
            }
        }
        lemma_utf8_char_injective(t[0], w[0]);
        let tr = t.drop_first();
        let wr = w.drop_first();
        assert(utf8_bytes(tr).subrange(0, utf8_bytes(wr).len() as int) =~= utf8_bytes(wr)) by {
            assert forall|k: int| 0 <= k < utf8_bytes(wr).len() implies utf8_bytes(tr)[k] == utf8_bytes(wr)[k] by {
                assert(et[n + k] == utf8_bytes(tr)[k]);
                assert(ew[n + k] == utf8_bytes(wr)[k]);
                assert(et.subrange(0, ew.len() as int)[n + k] == et[n + k]);
            }
        }
        lemma_utf8_prefix_decodes(tr, wr);
        assert(t.subrange(0, w.len() as int) =~= seq![t[0]] + tr.subrange(0, wr.len() as int));
        assert(w =~= seq![w[0]] + wr);
    }
}

/// UTF-8 width of one character, as `str::len` counts it.
pub fn char_width(c: char) -> (w: usize)
    ensures
        w == utf8_width(c),
        1 <= w <= 4,
{
    let u = c as u32;
    if u <= 0x7F {
        1
    } else if u <= 0x7FF {
        2
    } else if u <= 0xFFFF {
        3
    } else {
        4
    }
}

/// Byte length of a character sequence, saturating at `usize::MAX`.
pub fn byte_len(s: &[char]) -> (n: usize)
    ensures
        n == if utf8_len(s@) <= usize::MAX { utf8_len(s@) } else { usize::MAX as nat },
{
    let mut n: usize = 0;
    let mut i: usize = 0;
    let mut saturated = false;
    while i < s.len()
        invariant
            i <= s.len(),
            !saturated ==> n == utf8_len(s@.subrange(0, i as int)),
            saturated ==> n == usize::MAX && utf8_len(s@.subrange(0, i as int)) > usize::MAX,
        decreases s.len() - i,
    {
        let w = char_width(s[i]);
        proof {
            assert(s@.subrange(0, i + 1) =~= s@.subrange(0, i as int).push(s@[i as int]));
            lemma_utf8_len_push(s@.subrange(0, i as int), s@[i as int]);
        }
        if !saturated {
            if n > usize::MAX - w {
                n = usize::MAX;
                saturated = true;
            } else {
                n = n + w;
            }
        }
        i = i + 1;
    }
    assert(s@.subrange(0, s.len() as int) =~= s@);
    n
}

// ---------------------------------------------------------------------------
// Whitespace and trimming
// ---------------------------------------------------------------------------

/// Unicode `White_Space`, the property `char::is_whitespace` tests.
pub open spec fn is_ws(c: char) -> bool {
    let u = c as u32;
    ||| 0x09 <= u <= 0x0D
    ||| u == 0x20
    ||| u == 0x85
    ||| u == 0xA0
    ||| u == 0x1680
    ||| 0x2000 <= u <= 0x200A
    ||| u == 0x2028
    ||| u == 0x2029
    ||| u == 0x202F
    ||| u == 0x205F
    ||| u == 0x3000
}

pub fn is_ws_char(c: char) -> (b: bool)
    ensures
        b == is_ws(c),
{
    let u = c as u32;
    (0x09 <= u && u <= 0x0D) || u == 0x20 || u == 0x85 || u == 0xA0 || u == 0x1680 || (0x2000 <= u
        && u <= 0x200A) || u == 0x2028 || u == 0x2029 || u == 0x202F || u == 0x205F || u == 0x3000
}

/// Every character is whitespace (what `s.trim().is_empty()` tests).
pub open spec fn all_ws(s: Seq<char>) -> bool {
    forall|i: int| 0 <= i < s.len() ==> is_ws(#[trigger] s[i])
}

/// Leading whitespace removed.
pub open spec fn trim_start(s: Seq<char>) -> Seq<char>
    decreases s.len(),
{
    if s.len() > 0 && is_ws(s[0]) {
        trim_start(s.drop_first())
    } else {
        s
    }
}

/// Trailing whitespace removed.
pub open spec fn trim_end(s: Seq<char>) -> Seq<char>
    decreases s.len(),
{
    if s.len() > 0 && is_ws(s.last()) {
        trim_end(s.drop_last())
    } else {
        s
    }
}

/// Leading and trailing whitespace removed (`str::trim`).
pub open spec fn trim(s: Seq<char>) -> Seq<char> {
    trim_end(trim_start(s))
}

proof fn lemma_trim_start_skip(s: Seq<char>, i: int)
    requires
        0 <= i <= s.len(),
        forall|k: int| 0 <= k < i ==> is_ws(#[trigger] s[k]),
    ensures
        trim_start(s) == trim_start(s.subrange(i, s.len() as int)),
    decreases i,
{
    if i > 0 {
        lemma_trim_start_skip(s, i - 1);
        let t = s.subrange(i - 1, s.len() as int);
        assert(t.drop_first() =~= s.subrange(i, s.len() as int));
        assert(t[0] == s[i - 1]);
    } else {
        assert(s.subrange(0, s.len() as int) =~= s);
    }
}

proof fn lemma_trim_end_skip(s: Seq<char>, j: int)
    requires
        0 <= j <= s.len(),
        forall|k: int| j <= k < s.len() ==> is_ws(#[trigger] s[k]),
    ensures
        trim_end(s) == trim_end(s.subrange(0, j)),
    decreases s.len() - j,
{
    if j < s.len() {
        lemma_trim_end_skip(s, j + 1);
        let t = s.subrange(0, j + 1);
        assert(t.drop_last() =~= s.subrange(0, j));
        assert(t.last() == s[j]);
    } else {
        assert(s.subrange(0, s.len() as int) =~= s);
    }
}

/// The bounds `(lo, hi)` of `trim(s)` inside `s`.
pub fn trim_bounds(s: &[char]) -> (r: (usize, usize))
    ensures
        r.0 <= r.1 <= s.len(),
        trim(s@) == s@.subrange(r.0 as int, r.1 as int),
        r.0 == r.1 <==> all_ws(s@),
{
    let mut lo: usize = 0;
    while lo < s.len() && is_ws_char(s[lo])
        invariant
            lo <= s.len(),
            forall|k: int| 0 <= k < lo ==> is_ws(#[trigger] s@[k]),
        decreases s.len() - lo,
    {
        lo = lo + 1;
    }
    proof {
        lemma_trim_start_skip(s@, lo as int);
    }
    let ghost t = s@.subrange(lo as int, s.len() as int);
    if lo == s.len() {
        assert(t.len() == 0);
        return (lo, lo);
    }
    assert(trim_start(t) == t) by {
        assert(!is_ws(t[0]));
    }
    let mut hi: usize = s.len();
    while hi > lo && is_ws_char(s[hi - 1])
        invariant
            lo < s.len(),
            lo <= hi <= s.len(),
            !is_ws(s@[lo as int]),
            forall|k: int| hi <= k < s.len() ==> is_ws(#[trigger] s@[k]),
        decreases hi,
    {
        hi = hi - 1;
    }
    proof {
        lemma_trim_end_skip(t, hi - lo);
        assert(t.subrange(0, hi - lo) =~= s@.subrange(lo as int, hi as int));
        let u = s@.subrange(lo as int, hi as int);
        assert(u.len() > 0 && !is_ws(u.last()));
        assert(!all_ws(s@)) by {
            assert(!is_ws(s@[lo as int]));
        }
    }
    (lo, hi)
}

/// `trim(s)` as a new vector.
pub fn trimmed(s: &[char]) -> (r: Vec<char>)
    ensures
        r@ == trim(s@),
{
    let (lo, hi) = trim_bounds(s);
    slice_chars(s, lo, hi)
}

/// Whether the text is blank (all whitespace).
pub fn is_blank(s: &[char]) -> (b: bool)
    ensures
        b == all_ws(s@),
{
    let (lo, hi) = trim_bounds(s);
    lo == hi
}

proof fn lemma_trim_start_shape(s: Seq<char>)
    ensures
        trim_start(s).len() == 0 || !is_ws(trim_start(s)[0]),
        trim_start(s) == s.subrange(s.len() - trim_start(s).len(), s.len() as int),
    decreases s.len(),
{
    if s.len() > 0 && is_ws(s[0]) {
        lemma_trim_start_shape(s.drop_first());
        lemma_trim_start_len(s.drop_first());
        let t = trim_start(s.drop_first());
        assert(s.drop_first().subrange(s.len() - 1 - t.len(), s.len() - 1) =~= s.subrange(
            s.len() - t.len(),
            s.len() as int,
        ));
    } else {
        assert(s.subrange(0, s.len() as int) =~= s);
    }
}

proof fn lemma_trim_end_shape(s: Seq<char>)
    ensures
        trim_end(s).len() == 0 || !is_ws(trim_end(s).last()),
        trim_end(s) == s.subrange(0, trim_end(s).len() as int),
    decreases s.len(),
{
    if s.len() > 0 && is_ws(s.last()) {
        lemma_trim_end_shape(s.drop_last());
        lemma_trim_end_len(s.drop_last());
        let t = trim_end(s.drop_last());
        assert(s.drop_last().subrange(0, t.len() as int) =~= s.subrange(0, t.len() as int));
    } else {
        assert(s.subrange(0, s.len() as int) =~= s);
    }
}

/// A trimmed text starts and ends with a non-whitespace character.
pub proof fn lemma_trim_ends(s: Seq<char>)
    ensures
        trim(s).len() == 0 || (!is_ws(trim(s)[0]) && !is_ws(trim(s).last())),
{
    let a = trim_start(s);
    lemma_trim_start_shape(s);
    lemma_trim_end_shape(a);
    lemma_trim_end_len(a);
    let t = trim_end(a);
    if t.len() > 0 {
        assert(t[0] == a.subrange(0, t.len() as int)[0]);
    }
}

/// Trimming twice is trimming once.
pub proof fn lemma_trim_idempotent(s: Seq<char>)
    ensures
        trim(trim(s)) == trim(s),
{
    let a = trim_start(s);
    lemma_trim_start_shape(s);
    lemma_trim_end_shape(a);
    lemma_trim_end_len(a);
    let t = trim_end(a);
    if t.len() > 0 {
        assert(t[0] == a.subrange(0, t.len() as int)[0]);
        assert(t[0] == a[0]);
        assert(trim_start(t) == t);
        assert(trim_end(t) == t);
    }
}

/// A trimmed text is a piece of the text it came from.
pub proof fn lemma_trim_is_infix(s: Seq<char>)
    ensures
        exists|a: int, b: int| 0 <= a <= b <= s.len() && #[trigger] s.subrange(a, b) == trim(s),
{
    let a = trim_start(s);
    lemma_trim_start_shape(s);
    lemma_trim_end_shape(a);
    lemma_trim_end_len(a);
    lemma_trim_start_len(s);
    let t = trim_end(a);
    let k = s.len() - a.len();
    assert(a == s.subrange(k, s.len() as int));
    assert(t == a.subrange(0, t.len() as int));
    assert(s.subrange(k, k + t.len()) =~= t);
}

pub proof fn lemma_trim_len(s: Seq<char>)
    ensures
        trim(s).len() == 0 <==> all_ws(s),
        trim(s).len() <= s.len(),
{
    lemma_trim_start_len(s);
    lemma_trim_end_len(trim_start(s));
    if all_ws(s) {
        lemma_all_ws_trim_start(s);
    } else {
        let i = choose|i: int| 0 <= i < s.len() && !is_ws(s[i]);
        lemma_trim_start_keeps(s, i);
    }
}

proof fn lemma_trim_start_len(s: Seq<char>)
    ensures
        trim_start(s).len() <= s.len(),
    decreases s.len(),
{
    if s.len() > 0 && is_ws(s[0]) {
        lemma_trim_start_len(s.drop_first());
    }
}

proof fn lemma_trim_end_len(s: Seq<char>)
    ensures
        trim_end(s).len() <= s.len(),
        trim_end(s).len() == 0 ==> all_ws(s),
    decreases s.len(),
{
    if s.len() > 0 && is_ws(s.last()) {
        lemma_trim_end_len(s.drop_last());
        if trim_end(s).len() == 0 {
            assert forall|k: int| 0 <= k < s.len() implies is_ws(#[trigger] s[k]) by {
                if k < s.len() - 1 {
                    assert(s.drop_last()[k] == s[k]);
                }
            }
        }
    }
}

proof fn lemma_all_ws_trim_start(s: Seq<char>)
    requires
        all_ws(s),
    ensures
        trim_start(s).len() == 0,
    decreases s.len(),
{
    if s.len() > 0 {
        assert(is_ws(s[0]));
        assert forall|k: int| 0 <= k < s.drop_first().len() implies is_ws(
            #[trigger] s.drop_first()[k],
        ) by {
            assert(s.drop_first()[k] == s[k + 1]);
        }
        lemma_all_ws_trim_start(s.drop_first());
    }
}

proof fn lemma_trim_start_keeps(s: Seq<char>, i: int)
    requires
        0 <= i < s.len(),
        !is_ws(s[i]),
    ensures
        trim_start(s).len() > 0,
        !all_ws(trim_start(s)),
    decreases i,
{
    if is_ws(s[0]) {
        assert(i > 0);
        assert(s.drop_first()[i - 1] == s[i]);
        lemma_trim_start_keeps(s.drop_first(), i - 1);
    } else {
        assert(!is_ws(trim_start(s)[0]));
    }
}

// ---------------------------------------------------------------------------
// Construction helpers
// ---------------------------------------------------------------------------

/// The characters of a string slice.
#[verifier::external_body]
pub(crate) fn chars_of(s: &str) -> (v: Vec<char>)
    ensures
        v@ == s@,
{
    s.chars().collect()
}

/// A string made of the given characters.
#[verifier::external_body]
pub(crate) fn string_of(v: &[char]) -> (s: String)
    ensures
        s@ == v@,
{
    v.iter().collect()
}

/// `s[lo..hi]` as a new vector.
pub fn slice_chars(s: &[char], lo: usize, hi: usize) -> (r: Vec<char>)
    requires
        lo <= hi <= s.len(),
    ensures
        r@ == s@.subrange(lo as int, hi as int),
{
    let mut r: Vec<char> = Vec::new();
    let mut i = lo;
    while i < hi
        invariant
            lo <= i <= hi <= s.len(),
            r@ == s@.subrange(lo as int, i as int),
        decreases hi - i,
    {
        r.push(s[i]);
        i = i + 1;
        assert(r@ =~= s@.subrange(lo as int, i as int));
    }
    r
}

/// Append `s` to `out`.
pub fn push_all(out: &mut Vec<char>, s: &[char])
    ensures
        final(out)@ == old(out)@ + s@,
{
    let mut i: usize = 0;
    while i < s.len()
        invariant
            i <= s.len(),
            out@ == old(out)@ + s@.subrange(0, i as int),
        decreases s.len() - i,
    {
        out.push(s[i]);
        i = i + 1;
        assert(out@ =~= old(out)@ + s@.subrange(0, i as int));
    }
    assert(s@.subrange(0, s.len() as int) =~= s@);
}

/// Append a string literal (or any `&str`) to `out`.
pub fn push_str(out: &mut Vec<char>, s: &str)
    ensures
        final(out)@ == old(out)@ + s@,
{
    let v = chars_of(s);
    push_all(out, &v);
}

/// The first `n` characters (`s.chars().take(n)`).
pub open spec fn take(s: Seq<char>, n: int) -> Seq<char> {
    if n < s.len() {
        s.subrange(0, n)
    } else {
        s
    }
}

pub fn take_chars(s: &[char], n: usize) -> (r: Vec<char>)
    ensures
        r@ == take(s@, n as int),
{
    if n < s.len() {
        slice_chars(s, 0, n)
    } else {
        let r = slice_chars(s, 0, s.len());
        assert(r@ =~= s@);
        r
    }
}

/// Replace every backtick with a single quote, so recorded text can sit
/// inside backtick-delimited prompt fields without closing them.
pub open spec fn fence_safe(s: Seq<char>) -> Seq<char> {
    Seq::new(s.len(), |i: int| if s[i] == '`' { '\'' } else { s[i] })
}

pub fn fence_safe_chars(s: &[char]) -> (r: Vec<char>)
    ensures
        r@ == fence_safe(s@),
{
    let mut r: Vec<char> = Vec::new();
    let mut i: usize = 0;
    while i < s.len()
        invariant
            i <= s.len(),
            r@ == fence_safe(s@.subrange(0, i as int)),
        decreases s.len() - i,
    {
        let c = s[i];
        if c == '`' {
            r.push('\'');
        } else {
            r.push(c);
        }
        i = i + 1;
        assert(r@ =~= fence_safe(s@.subrange(0, i as int)));
    }
    assert(s@.subrange(0, s.len() as int) =~= s@);
    r
}

/// `fence_safe` on a string slice.
pub fn fence_safe_str(s: &str) -> (r: String)
    ensures
        r@ == fence_safe(s@),
{
    let v = chars_of(s);
    let f = fence_safe_chars(&v);
    string_of(&f)
}

// ---------------------------------------------------------------------------
// Searching
// ---------------------------------------------------------------------------

/// `needle` occurs in `hay` at position `i`.
pub open spec fn occurs_at(hay: Seq<char>, needle: Seq<char>, i: int) -> bool {
    0 <= i && i + needle.len() <= hay.len() && hay.subrange(i, i + needle.len()) == needle
}

/// `hay` contains `needle` somewhere.
pub open spec fn contains_seq(hay: Seq<char>, needle: Seq<char>) -> bool {
    exists|i: int| occurs_at(hay, needle, i)
}

/// The middle piece of a concatenation occurs in it, right after the first.
pub proof fn lemma_occurs_in_concat(a: Seq<char>, b: Seq<char>, c: Seq<char>)
    ensures
        occurs_at(a + b + c, b, a.len() as int),
        contains_seq(a + b + c, b),
{
    assert((a + b + c).subrange(a.len() as int, (a.len() + b.len()) as int) =~= b);
}

pub open spec fn starts_with(s: Seq<char>, p: Seq<char>) -> bool {
    p.len() <= s.len() && s.subrange(0, p.len() as int) == p
}

pub open spec fn ends_with(s: Seq<char>, p: Seq<char>) -> bool {
    p.len() <= s.len() && s.subrange(s.len() - p.len(), s.len() as int) == p
}

pub fn matches_at(hay: &[char], needle: &[char], i: usize) -> (b: bool)
    ensures
        b == occurs_at(hay@, needle@, i as int),
{
    if i > hay.len() || needle.len() > hay.len() - i {
        return false;
    }
    let mut k: usize = 0;
    while k < needle.len()
        invariant
            i + needle.len() <= hay.len(),
            k <= needle.len(),
            forall|j: int| 0 <= j < k ==> hay@[i + j] == needle@[j],
        decreases needle.len() - k,
    {
        if hay[i + k] != needle[k] {
            assert(hay@.subrange(i as int, i + needle.len())[k as int] != needle@[k as int]);
            return false;
        }
        k = k + 1;
    }
    assert(hay@.subrange(i as int, i + needle.len()) =~= needle@);
    true
}

/// The first position at or after `from` where `needle` occurs.
pub fn find_from(hay: &[char], needle: &[char], from: usize) -> (r: Option<usize>)
    ensures
        match r {
            Some(i) => from <= i && occurs_at(hay@, needle@, i as int) && forall|j: int|
                from <= j < i ==> !occurs_at(hay@, needle@, j),
            None => forall|j: int| from <= j ==> !occurs_at(hay@, needle@, j),
        },
{
    let mut i = from;
    while i < hay.len()
        invariant
            from <= i,
            forall|j: int| from <= j < i ==> !occurs_at(hay@, needle@, j),
        decreases hay.len() - i,
    {
        if matches_at(hay, needle, i) {
            return Some(i);
        }
        i = i + 1;
    }
    if matches_at(hay, needle, i) {
        return Some(i);
    }
    assert forall|j: int| from <= j implies !occurs_at(hay@, needle@, j) by {
        if j > i {
            assert(j > hay.len());
        }
    }
    None
}

pub fn contains_chars(hay: &[char], needle: &[char]) -> (b: bool)
    ensures
        b == contains_seq(hay@, needle@),
{
    match find_from(hay, needle, 0) {
        Some(_) => true,
        None => {
            assert(!contains_seq(hay@, needle@)) by {
                if contains_seq(hay@, needle@) {
                    let j = choose|j: int| occurs_at(hay@, needle@, j);
                    assert(0 <= j);
                }
            }
            false
        },
    }
}

/// Whether two texts are the same characters.
pub fn same_chars(a: &[char], b: &[char]) -> (r: bool)
    ensures
        r == (a@ == b@),
{
    if a.len() != b.len() {
        return false;
    }
    let r = matches_at(a, b, 0);
    assert(a@.subrange(0, b@.len() as int) =~= a@);
    r
}

/// Whether a text equals a given string.
pub fn same_text(a: &[char], b: &str) -> (r: bool)
    ensures
        r == (a@ == b@),
{
    let bv = chars_of(b);
    same_chars(a, &bv)
}

pub fn starts_with_chars(s: &[char], p: &[char]) -> (b: bool)
    ensures
        b == starts_with(s@, p@),
{
    matches_at(s, p, 0)
}

pub fn ends_with_chars(s: &[char], p: &[char]) -> (b: bool)
    ensures
        b == ends_with(s@, p@),
{
    if p.len() > s.len() {
        false
    } else {
        matches_at(s, p, s.len() - p.len())
    }
}

/// Number of occurrences of `c`.
pub open spec fn count_char(s: Seq<char>, c: char) -> nat
    decreases s.len(),
{
    if s.len() == 0 {
        0
    } else {
        count_char(s.drop_last(), c) + if s.last() == c { 1nat } else { 0nat }
    }
}

pub fn count_char_in(s: &[char], c: char) -> (n: usize)
    ensures
        n == count_char(s@, c),
{
    let mut n: usize = 0;
    let mut i: usize = 0;
    while i < s.len()
        invariant
            i <= s.len(),
            n == count_char(s@.subrange(0, i as int), c),
            n <= i,
        decreases s.len() - i,
    {
        assert(s@.subrange(0, i + 1).drop_last() =~= s@.subrange(0, i as int));
        if s[i] == c {
            n = n + 1;
        }
        i = i + 1;
    }
    assert(s@.subrange(0, s.len() as int) =~= s@);
    n
}

/// Some character of `s` is whitespace.
pub open spec fn has_ws(s: Seq<char>) -> bool {
    exists|i: int| 0 <= i < s.len() && is_ws(s[i])
}

pub fn has_ws_chars(s: &[char]) -> (b: bool)
    ensures
        b == has_ws(s@),
{
    let mut i: usize = 0;
    while i < s.len()
        invariant
            i <= s.len(),
            forall|k: int| 0 <= k < i ==> !is_ws(#[trigger] s@[k]),
        decreases s.len() - i,
    {
        if is_ws_char(s[i]) {
            return true;
        }
        i = i + 1;
    }
    false
}

// ---------------------------------------------------------------------------
// Decimal rendering
// ---------------------------------------------------------------------------

pub open spec fn digit_char(d: nat) -> char {
    if d == 0 {
        '0'
    } else if d == 1 {
        '1'
    } else if d == 2 {
        '2'
    } else if d == 3 {
        '3'
    } else if d == 4 {
        '4'
    } else if d == 5 {
        '5'
    } else if d == 6 {
        '6'
    } else if d == 7 {
        '7'
    } else if d == 8 {
        '8'
    } else {
        '9'
    }
}

/// Decimal digits of a natural number, most significant first.
pub open spec fn digits(n: nat) -> Seq<char>
    decreases n,
{
    if n < 10 {
        seq![digit_char(n)]
    } else {
        digits(n / 10).push(digit_char(n % 10))
    }
}

/// Decimal rendering of an integer (as `{}` formats it).
pub open spec fn decimal(n: int) -> Seq<char> {
    if n < 0 {
        seq!['-'] + digits((-n) as nat)
    } else {
        digits(n as nat)
    }
}

fn digit(d: u64) -> (c: char)
    requires
        d < 10,
    ensures
        c == digit_char(d as nat),
{
    if d == 0 {
        '0'
    } else if d == 1 {
        '1'
    } else if d == 2 {
        '2'
    } else if d == 3 {
        '3'
    } else if d == 4 {
        '4'
    } else if d == 5 {
        '5'
    } else if d == 6 {
        '6'
    } else if d == 7 {
        '7'
    } else if d == 8 {
        '8'
    } else {
        '9'
    }
}

pub fn u64_digits(n: u64) -> (r: Vec<char>)
    ensures
        r@ == digits(n as nat),
    decreases n,
{
    if n < 10 {
        let mut r = Vec::new();
        r.push(digit(n));
        assert(r@ =~= digits(n as nat));
        r
    } else {
        let mut r = u64_digits(n / 10);
        r.push(digit(n % 10));
        r
    }
}

pub fn i64_decimal(n: i64) -> (r: Vec<char>)
    ensures
        r@ == decimal(n as int),
{
    if n < 0 {
        let m: u64 = if n == i64::MIN {
            9223372036854775808u64
        } else {
            (-n) as u64
        };
        let mut r = Vec::new();
        r.push('-');
        let d = u64_digits(m);
        push_all(&mut r, &d);
        assert(r@ =~= decimal(n as int));
        r
    } else {
        u64_digits(n as u64)
    }
}

/// Unicode lowercase mapping of a text (`str::to_lowercase`).
pub uninterp spec fn lowercase(s: Seq<char>) -> Seq<char>;

/// `str::to_lowercase` (Unicode case mapping; the result depends only on the
/// input text).
#[verifier::external_body]
pub(crate) fn lowercase_chars(s: &[char]) -> (r: Vec<char>)
    ensures
        r@ == lowercase(s@),
{
    let t: String = s.iter().collect();
    t.to_lowercase().chars().collect()
}

/// Unicode uppercase mapping of a text (`str::to_uppercase`).
pub uninterp spec fn uppercase(s: Seq<char>) -> Seq<char>;

/// `str::to_uppercase` (Unicode case mapping; the result depends only on the
/// input text).
#[verifier::external_body]
pub(crate) fn uppercase_chars(s: &[char]) -> (r: Vec<char>)
    ensures
        r@ == uppercase(s@),
{
    let t: String = s.iter().collect();
    t.to_uppercase().chars().collect()
}

/// Unicode `Alphabetic` property (`char::is_alphabetic`).
pub uninterp spec fn alphabetic(c: char) -> bool;

/// `char::is_alphabetic`.
#[verifier::external_body]
pub(crate) fn is_alphabetic_char(c: char) -> (b: bool)
    ensures
        b == alphabetic(c),
{
    c.is_alphabetic()
}

/// Unicode `Alphabetic` or `Numeric` (`char::is_alphanumeric`).
pub uninterp spec fn alphanumeric(c: char) -> bool;

/// `char::is_alphanumeric`.
#[verifier::external_body]
pub(crate) fn is_alphanumeric_char(c: char) -> (b: bool)
    ensures
        b == alphanumeric(c),
{
    c.is_alphanumeric()
}

/// ASCII letters and digits (`u8::is_ascii_alphanumeric` on the byte).
pub open spec fn is_ascii_alnum(c: char) -> bool {
    ('a' <= c && c <= 'z') || ('A' <= c && c <= 'Z') || ('0' <= c && c <= '9')
}

pub fn is_ascii_alnum_char(c: char) -> (b: bool)
    ensures
        b == is_ascii_alnum(c),
{
    ('a' <= c && c <= 'z') || ('A' <= c && c <= 'Z') || ('0' <= c && c <= '9')
}

/// ASCII lowercase of one character.
pub open spec fn ascii_lower(c: char) -> char {
    if 'A' <= c && c <= 'Z' {
        ((c as u32) + 32) as char
    } else {
        c
    }
}

pub fn ascii_lower_char(c: char) -> (r: char)
    ensures
        r == ascii_lower(c),
{
    if 'A' <= c && c <= 'Z' {
        let b = (c as u8) + 32;
        proof {
            assert(0x61 <= b <= 0x7A);
        }
        b as char
    } else {
        c
    }
}

} // verus!
