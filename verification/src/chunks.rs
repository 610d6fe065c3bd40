//! Cutting an uploaded document into retrieval chunks: the document is split
//! into sections, each section into chunks of about 1200 bytes, and every
//! chunk after the first of its section repeats the last 180 characters of
//! the one before it, so that a sentence cut at a boundary is still found.

use vstd::prelude::*;
use crate::sections::{sections_of, split_sections, SECTION_TARGET_CHARS};
use crate::text::{chars_of, decimal, push_all, push_str, slice_chars, string_of, u64_digits};

verus! {

/// Target size (bytes) of one chunk.
pub const CHUNK_TARGET: usize = 1200;

/// Characters of the previous chunk repeated at the start of the next.
pub const CHUNK_OVERLAP: usize = 180;

/// One retrieval chunk: where it sits in the document, the header it is
/// labelled with, and its text.
#[derive(Debug)]
pub struct Chunk {
    pub section_path: String,
    pub section_idx: usize,
    pub chunk_idx: usize,
    pub header: String,
    pub body: String,
}

pub open spec fn chunk_view(c: Chunk) -> (Seq<char>, int, int, Seq<char>, Seq<char>) {
    (c.section_path@, c.section_idx as int, c.chunk_idx as int, c.header@, c.body@)
}

pub open spec fn chunks_view(v: Seq<Chunk>) -> Seq<(Seq<char>, int, int, Seq<char>, Seq<char>)> {
    Seq::new(v.len(), |k: int| chunk_view(v[k]))
}

/// The last `n` characters of `s` (all of it when shorter).
pub open spec fn tail(s: Seq<char>, n: nat) -> Seq<char> {
    if s.len() <= n {
        s
    } else {
        s.subrange(s.len() - n, s.len() as int)
    }
}

/// A section's label: its heading, else "Part" and its 1-based number.
pub open spec fn path_of(sec: (Option<Seq<char>>, Seq<char>), i: int) -> Seq<char> {
    match sec.0 {
        Some(t) => t,
        None => "Part "@ + decimal(i + 1),
    }
}

/// "title › path (j/n)", with `j` counted from 1.
pub open spec fn chunk_header(title: Seq<char>, path: Seq<char>, j: int, n: int) -> Seq<char> {
    title + " › "@ + path + " ("@ + decimal(j + 1) + "/"@ + decimal(n) + ")"@
}

/// The text of the `j`-th chunk of a section: its piece, after the overlap
/// from the previous piece.
pub open spec fn chunk_body(subs: Seq<(Option<Seq<char>>, Seq<char>)>, j: int) -> Seq<char> {
    if j == 0 {
        subs[0].1
    } else {
        tail(subs[j - 1].1, CHUNK_OVERLAP as nat) + subs[j].1
    }
}

/// The chunks of the `i`-th section.
pub open spec fn section_chunks(title: Seq<char>, sec: (Option<Seq<char>>, Seq<char>), i: int) -> Seq<
    (Seq<char>, int, int, Seq<char>, Seq<char>),
> {
    let path = path_of(sec, i);
    let subs = sections_of(sec.1, CHUNK_TARGET as nat);
    Seq::new(subs.len(), |j: int| (path, i, j, chunk_header(title, path, j, subs.len() as int), chunk_body(subs, j)))
}

/// The chunks of the first `k` sections, in order.
pub open spec fn chunks_upto(title: Seq<char>, secs: Seq<(Option<Seq<char>>, Seq<char>)>, k: nat) -> Seq<
    (Seq<char>, int, int, Seq<char>, Seq<char>),
>
    decreases k,
{
    if k == 0 {
        Seq::empty()
    } else {
        chunks_upto(title, secs, (k - 1) as nat) + section_chunks(title, secs[k - 1], k - 1)
    }
}

/// All the chunks of a document.
pub open spec fn document_chunks(title: Seq<char>, text: Seq<char>) -> Seq<(Seq<char>, int, int, Seq<char>, Seq<char>)> {
    let secs = sections_of(text, SECTION_TARGET_CHARS as nat);
    chunks_upto(title, secs, secs.len())
}

fn tail_chars(s: &Vec<char>, n: usize) -> (r: Vec<char>)
    ensures
        r@ == tail(s@, n as nat),
{
    if s.len() <= n {
        slice_chars(s, 0, s.len())
    } else {
        slice_chars(s, s.len() - n, s.len())
    }
}

fn number(n: usize) -> (r: Vec<char>)
    ensures
        r@ == decimal(n as int),
{
    u64_digits(n as u64)
}

/// Cut a document into its retrieval chunks (see `document_chunks`).
pub fn chunk_document(title: &str, text: &str) -> (r: Vec<Chunk>)
    ensures
        chunks_view(r@) == document_chunks(title@, text@),
{
    let secs = split_sections(text, SECTION_TARGET_CHARS);
    let ghost gs = sections_of(text@, SECTION_TARGET_CHARS as nat);
    assert(secs@.len() == gs.len() && forall|k: int| 0 <= k < gs.len() ==> #[trigger] secs@[k]@ == gs[k]) by {
        assert forall|k: int| 0 <= k < gs.len() implies #[trigger] secs@[k]@ == gs[k] by {
            assert(crate::sections::ghost_secs(secs@)[k] == secs@[k]@);
        }
    }
    let mut out: Vec<Chunk> = Vec::new();
    let mut i: usize = 0;
    while i < secs.len()
        invariant
            i <= secs@.len(),
            secs@.len() == gs.len(),
            forall|k: int| 0 <= k < gs.len() ==> #[trigger] secs@[k]@ == gs[k],
            chunks_view(out@) == chunks_upto(title@, gs, i as nat),
        decreases secs@.len() - i,
    {
        let sec = &secs[i];
        assert(sec@ == gs[i as int]);
        let path: Vec<char> = match &sec.title {
            Some(t) => chars_of(t.as_str()),
            None => {
                let mut p: Vec<char> = Vec::new();
                push_str(&mut p, "Part ");
                push_all(&mut p, &number(i + 1));
                p
            },
        };
        assert(path@ == path_of(gs[i as int], i as int));
        let subs = split_sections(sec.body.as_str(), CHUNK_TARGET);
        let ghost gsub = sections_of(gs[i as int].1, CHUNK_TARGET as nat);
        assert(subs@.len() == gsub.len() && forall|k: int| 0 <= k < gsub.len() ==> #[trigger] subs@[k]@ == gsub[k])
            by {
            assert forall|k: int| 0 <= k < gsub.len() implies #[trigger] subs@[k]@ == gsub[k] by {
                assert(crate::sections::ghost_secs(subs@)[k] == subs@[k]@);
            }
        }
        let n = subs.len();
        let ghost base = chunks_view(out@);
        let ghost sc = section_chunks(title@, gs[i as int], i as int);
        let mut j: usize = 0;
        while j < n
            invariant
                j <= n,
                n == subs@.len(),
                i < secs@.len(),
                subs@.len() == gsub.len(),
                gsub == sections_of(gs[i as int].1, CHUNK_TARGET as nat),
                forall|k: int| 0 <= k < gsub.len() ==> #[trigger] subs@[k]@ == gsub[k],
                path@ == path_of(gs[i as int], i as int),
                sc == section_chunks(title@, gs[i as int], i as int),
                chunks_view(out@) == base + sc.subrange(0, j as int),
            decreases n - j,
        {
            let mut body: Vec<char> = Vec::new();
            if j > 0 {
                let prev = chars_of(subs[j - 1].body.as_str());
                assert(subs@[j - 1]@ == gsub[j - 1]);
                push_all(&mut body, &tail_chars(&prev, CHUNK_OVERLAP));
            }
            push_str(&mut body, subs[j].body.as_str());
            assert(subs@[j as int]@ == gsub[j as int]);
            assert(body@ == chunk_body(gsub, j as int));
            let mut header: Vec<char> = Vec::new();
            push_str(&mut header, title);
            push_str(&mut header, " › ");
            push_all(&mut header, &path);
            push_str(&mut header, " (");
            push_all(&mut header, &number(j + 1));
            push_str(&mut header, "/");
            push_all(&mut header, &number(n));
            push_str(&mut header, ")");
            assert(header@ == chunk_header(title@, path@, j as int, n as int));
            let c = Chunk {
                section_path: string_of(&path),
                section_idx: i,
                chunk_idx: j,
                header: string_of(&header),
                body: string_of(&body),
            };
            let ghost before = out@;
            out.push(c);
            assert(chunk_view(c) == sc[j as int]);
            assert(chunks_view(out@) =~= chunks_view(before).push(chunk_view(c)));
            assert(sc.subrange(0, j + 1) =~= sc.subrange(0, j as int).push(sc[j as int]));
            j = j + 1;
        }
        assert(sc.subrange(0, n as int) =~= sc);
        i = i + 1;
    }
    out
}

} // verus!
