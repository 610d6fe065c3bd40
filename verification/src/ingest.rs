//! Existing planning material in a clone: which files count, how much of each
//! is kept, and the prompt block they make, so the first plan reflects the
//! docs a repository already has. Reading the files is the caller's.

use vstd::prelude::*;
use vstd::relations::total_ordering;
use crate::text::{
    ascii_lower, ascii_lower_char, byte_len, chars_of, push_all, push_str, string_of, take,
    take_chars, utf8_len,
};

verus! {

/// Characters kept of one file.
pub const PER_FILE_CAP: usize = 8000;

/// Bytes gathered in all; once reached, no further file is taken.
pub const TOTAL_CAP: usize = 32000;

/// The root files that count as planning material.
pub open spec fn known_root_files() -> Seq<Seq<char>> {
    seq![
        "README.md"@,
        "README"@,
        "PLANNING.md"@,
        "ROADMAP.md"@,
        "ROADMAP"@,
        "TODO.md"@,
        "TODO"@,
        "ARCHITECTURE.md"@,
        "CONTRIBUTING.md"@,
        "CHANGELOG.md"@,
    ]
}

/// A text with its ASCII letters lowercased (what `eq_ignore_ascii_case` compares).
pub open spec fn ascii_fold(s: Seq<char>) -> Seq<char> {
    s.map_values(|c: char| ascii_lower(c))
}

/// Whether a root file name is one of the known planning files, ignoring ASCII case.
pub open spec fn is_known_root_file(name: Seq<char>) -> bool {
    exists|i: int|
        0 <= i < known_root_files().len() && ascii_fold(#[trigger] known_root_files()[i])
            == ascii_fold(name)
}

/// Whether two texts are equal ignoring ASCII case.
pub fn same_ignoring_ascii_case(a: &str, b: &str) -> (r: bool)
    ensures
        r == (ascii_fold(a@) == ascii_fold(b@)),
{
    let x = chars_of(a);
    let y = chars_of(b);
    if x.len() != y.len() {
        proof {
            assert(ascii_fold(a@).len() != ascii_fold(b@).len());
        }
        return false;
    }
    let mut i: usize = 0;
    while i < x.len()
        invariant
            x@ == a@,
            y@ == b@,
            x.len() == y.len(),
            i <= x.len(),
            forall|j: int| 0 <= j < i ==> ascii_lower(#[trigger] x@[j]) == ascii_lower(y@[j]),
        decreases x.len() - i,
    {
        if ascii_lower_char(x[i]) != ascii_lower_char(y[i]) {
            proof {
                assert(ascii_fold(a@)[i as int] != ascii_fold(b@)[i as int]);
            }
            return false;
        }
        i = i + 1;
    }
    assert(ascii_fold(a@) =~= ascii_fold(b@));
    true
}

fn known_root_file(i: usize) -> (r: &'static str)
    requires
        i < 10,
    ensures
        r@ == known_root_files()[i as int],
{
    if i == 0 {
        "README.md"
    } else if i == 1 {
        "README"
    } else if i == 2 {
        "PLANNING.md"
    } else if i == 3 {
        "ROADMAP.md"
    } else if i == 4 {
        "ROADMAP"
    } else if i == 5 {
        "TODO.md"
    } else if i == 6 {
        "TODO"
    } else if i == 7 {
        "ARCHITECTURE.md"
    } else if i == 8 {
        "CONTRIBUTING.md"
    } else {
        "CHANGELOG.md"
    }
}

/// Whether a file at the clone's root is planning material.
pub fn is_known_root_file_name(name: &str) -> (r: bool)
    ensures
        r == is_known_root_file(name@),
{
    let mut i: usize = 0;
    while i < 10
        invariant
            i <= 10,
            known_root_files().len() == 10,
            forall|j: int|
                0 <= j < i ==> ascii_fold(#[trigger] known_root_files()[j]) != ascii_fold(name@),
        decreases 10 - i,
    {
        if same_ignoring_ascii_case(known_root_file(i), name) {
            return true;
        }
        i = i + 1;
    }
    false
}

/// Whether a file extension marks a Markdown document (under `.planning/` and `docs/`).
pub fn is_markdown_extension(ext: &str) -> (r: bool)
    ensures
        r == (ascii_fold(ext@) == ascii_fold("md"@)),
{
    same_ignoring_ascii_case(ext, "md")
}

/// Strict order of names, character by character (the order of `str`).
pub open spec fn name_lt_from(a: Seq<char>, b: Seq<char>, i: int) -> bool
    decreases a.len() - i,
{
    if i < 0 || i >= a.len() {
        0 <= i < b.len()
    } else if i >= b.len() {
        false
    } else if a[i] != b[i] {
        a[i] < b[i]
    } else {
        name_lt_from(a, b, i + 1)
    }
}

pub open spec fn name_lt(a: Seq<char>, b: Seq<char>) -> bool {
    name_lt_from(a, b, 0)
}

fn name_lt_exec(a: &String, b: &String) -> (r: bool)
    ensures
        r == name_lt(a@, b@),
{
    let x = chars_of(a.as_str());
    let y = chars_of(b.as_str());
    let mut i: usize = 0;
    while i < x.len() && i < y.len() && x[i] == y[i]
        invariant
            x@ == a@,
            y@ == b@,
            i <= x.len(),
            i <= y.len(),
            name_lt(a@, b@) == name_lt_from(a@, b@, i as int),
        decreases x.len() - i,
    {
        i = i + 1;
    }
    if i >= x.len() {
        i < y.len()
    } else if i >= y.len() {
        false
    } else {
        x[i] < y[i]
    }
}

/// A gathered document: its name and the kept part of its text.
pub open spec fn doc_view(p: (String, String)) -> (Seq<char>, Seq<char>) {
    (p.0@, p.1@)
}

pub open spec fn docs_view(s: Seq<(String, String)>) -> Seq<(Seq<char>, Seq<char>)> {
    s.map_values(|p: (String, String)| doc_view(p))
}

/// Insert `x` before the first document whose name is greater than its own.
pub open spec fn insert_by_name(s: Seq<(Seq<char>, Seq<char>)>, x: (Seq<char>, Seq<char>)) -> Seq<
    (Seq<char>, Seq<char>),
>
    decreases s.len(),
{
    if s.len() == 0 {
        seq![x]
    } else if name_lt(x.0, s[0].0) {
        seq![x] + s
    } else {
        seq![s[0]] + insert_by_name(s.drop_first(), x)
    }
}

/// The documents ordered by name; of equal names the earlier stays first.
pub open spec fn sort_by_name(s: Seq<(Seq<char>, Seq<char>)>) -> Seq<(Seq<char>, Seq<char>)>
    decreases s.len(),
{
    if s.len() == 0 {
        s
    } else {
        insert_by_name(sort_by_name(s.drop_last()), s.last())
    }
}

pub open spec fn docs_header() -> Seq<char> {
    "## Existing planning material found in the repo\n\nAbsorb and build on this — do not discard or contradict it.\n"@
}

/// Each document under a `###` heading with its name.
pub open spec fn render_docs(s: Seq<(Seq<char>, Seq<char>)>) -> Seq<char>
    decreases s.len(),
{
    if s.len() == 0 {
        Seq::empty()
    } else {
        render_docs(s.drop_last()) + "\n### "@ + s.last().0 + "\n"@ + s.last().1 + "\n"@
    }
}

/// The prompt block of the gathered documents: empty when there are none,
/// else the header and the documents in name order.
pub open spec fn docs_block(s: Seq<(Seq<char>, Seq<char>)>) -> Seq<char> {
    if s.len() == 0 {
        Seq::empty()
    } else {
        docs_header() + render_docs(sort_by_name(s))
    }
}

proof fn lemma_insert_at(s: Seq<(Seq<char>, Seq<char>)>, x: (Seq<char>, Seq<char>), k: int)
    requires
        0 <= k <= s.len(),
        forall|j: int| 0 <= j < k ==> !name_lt(x.0, #[trigger] s[j].0),
        k < s.len() ==> name_lt(x.0, s[k].0),
    ensures
        insert_by_name(s, x) == s.take(k) + seq![x] + s.skip(k),
    decreases k,
{
    if k == 0 {
        if s.len() == 0 {
            assert(s.take(0) + seq![x] + s.skip(0) =~= seq![x]);
        } else {
            assert(s.take(0) + seq![x] + s.skip(0) =~= seq![x] + s);
        }
    } else {
        let t = s.drop_first();
        assert forall|j: int| 0 <= j < k - 1 implies !name_lt(x.0, #[trigger] t[j].0) by {
            assert(t[j] == s[j + 1]);
        }
        lemma_insert_at(t, x, k - 1);
        assert(!name_lt(x.0, s[0].0));
        assert(seq![s[0]] + (t.take(k - 1) + seq![x] + t.skip(k - 1)) =~= s.take(k) + seq![x]
            + s.skip(k));
    }
}

proof fn lemma_docs_push(s: Seq<(String, String)>, y: (String, String))
    ensures
        docs_view(s.push(y)) == docs_view(s).push(doc_view(y)),
{
    assert(docs_view(s.push(y)) =~= docs_view(s).push(doc_view(y)));
}

fn clone_doc(p: &(String, String)) -> (r: (String, String))
    ensures
        doc_view(r) == doc_view(*p),
{
    (p.0.clone(), p.1.clone())
}

fn insert_doc(v: &Vec<(String, String)>, x: (String, String)) -> (r: Vec<(String, String)>)
    ensures
        docs_view(r@) == insert_by_name(docs_view(v@), doc_view(x)),
{
    let mut k: usize = 0;
    while k < v.len() && !name_lt_exec(&x.0, &v[k].0)
        invariant
            k <= v.len(),
            forall|j: int| 0 <= j < k ==> !name_lt(x.0@, #[trigger] v@[j].0@),
        decreases v.len() - k,
    {
        k = k + 1;
    }
    let mut r: Vec<(String, String)> = Vec::new();
    let mut i: usize = 0;
    while i < k
        invariant
            k <= v.len(),
            i <= k,
            docs_view(r@) == docs_view(v@).take(i as int),
        decreases k - i,
    {
        let ghost before = r@;
        let y = clone_doc(&v[i]);
        r.push(y);
        proof {
            lemma_docs_push(before, y);
        }
        i = i + 1;
        assert(docs_view(r@) =~= docs_view(v@).take(i as int));
    }
    let ghost xv = doc_view(x);
    let ghost before = r@;
    proof {
        lemma_docs_push(before, x);
    }
    r.push(x);
    let mut i: usize = k;
    while i < v.len()
        invariant
            k <= i <= v.len(),
            docs_view(r@) == docs_view(v@).take(k as int) + seq![xv] + docs_view(v@).subrange(
                k as int,
                i as int,
            ),
        decreases v.len() - i,
    {
        let ghost before = r@;
        let y = clone_doc(&v[i]);
        r.push(y);
        proof {
            lemma_docs_push(before, y);
        }
        i = i + 1;
        assert(docs_view(r@) =~= docs_view(v@).take(k as int) + seq![xv] + docs_view(
            v@,
        ).subrange(k as int, i as int));
    }
    proof {
        let s = docs_view(v@);
        assert forall|j: int| 0 <= j < k implies !name_lt(xv.0, #[trigger] s[j].0) by {
            assert(s[j] == doc_view(v@[j]));
        }
        if k < v.len() {
            assert(s[k as int] == doc_view(v@[k as int]));
        }
        lemma_insert_at(s, xv, k as int);
        assert(s.subrange(k as int, v.len() as int) =~= s.skip(k as int));
    }
    r
}

/// Planning documents gathered from a clone, in the order they were found,
/// with the bytes they hold in all.
pub struct DocSet {
    pub found: Vec<(String, String)>,
    pub total: usize,
}

impl DocSet {
    /// The bound every gathered set keeps: one file past the cap at most.
    pub open spec fn wf(&self) -> bool {
        self.total < TOTAL_CAP + 4 * PER_FILE_CAP
    }

    pub fn new() -> (d: DocSet)
        ensures
            d.wf(),
            d.found@.len() == 0,
            d.total == 0,
    {
        DocSet { found: Vec::new(), total: 0 }
    }

    /// Whether the total cap is reached, so no further file is taken.
    pub fn is_full(&self) -> (b: bool)
        ensures
            b == (self.total >= TOTAL_CAP),
    {
        self.total >= TOTAL_CAP
    }

    /// Take a document: its first `PER_FILE_CAP` characters, unless the
    /// total cap is already reached.
    pub fn add(&mut self, name: &str, content: &str)
        requires
            old(self).wf(),
        ensures
            final(self).wf(),
            old(self).total >= TOTAL_CAP ==> (final(self).found@ == old(self).found@
                && final(self).total == old(self).total),
            old(self).total < TOTAL_CAP ==> (docs_view(final(self).found@) == docs_view(
                old(self).found@,
            ).push((name@, take(content@, PER_FILE_CAP as int)))
                && final(self).total == old(self).total + utf8_len(take(content@, PER_FILE_CAP as int))),
    {
        if self.total >= TOTAL_CAP {
            return;
        }
        let kept = take_chars(&chars_of(content), PER_FILE_CAP);
        let n = byte_len(&kept);
        proof {
            crate::text::lemma_utf8_len_bounds(kept@);
        }
        self.total = self.total + n;
        let ghost before = self.found@;
        self.found.push((string_of(&chars_of(name)), string_of(&kept)));
        assert(docs_view(self.found@) =~= docs_view(before).push(
            (name@, take(content@, PER_FILE_CAP as int)),
        ));
    }

    /// The prompt block of the gathered documents.
    pub fn block(&self) -> (r: String)
        ensures
            r@ == docs_block(docs_view(self.found@)),
    {
        if self.found.len() == 0 {
            return String::new();
        }
        let mut sorted: Vec<(String, String)> = Vec::new();
        let mut i: usize = 0;
        while i < self.found.len()
            invariant
                i <= self.found.len(),
                docs_view(sorted@) == sort_by_name(docs_view(self.found@).take(i as int)),
            decreases self.found.len() - i,
        {
            let ghost prev = docs_view(self.found@).take(i as int);
            sorted = insert_doc(&sorted, clone_doc(&self.found[i]));
            i = i + 1;
            proof {
                let t = docs_view(self.found@).take(i as int);
                assert(t.drop_last() =~= prev);
                assert(t.last() == doc_view(self.found@[i - 1]));
            }
        }
        assert(docs_view(self.found@).take(self.found.len() as int) =~= docs_view(self.found@));
        let ghost ordered = docs_view(sorted@);
        let mut out: Vec<char> = Vec::new();
        push_str(
            &mut out,
            "## Existing planning material found in the repo\n\nAbsorb and build on this — do not discard or contradict it.\n",
        );
        let mut j: usize = 0;
        while j < sorted.len()
            invariant
                j <= sorted.len(),
                ordered == docs_view(sorted@),
                out@ == docs_header() + render_docs(ordered.take(j as int)),
            decreases sorted.len() - j,
        {
            let ghost before = out@;
            push_str(&mut out, "\n### ");
            push_str(&mut out, sorted[j].0.as_str());
            push_str(&mut out, "\n");
            push_str(&mut out, sorted[j].1.as_str());
            push_str(&mut out, "\n");
            j = j + 1;
            proof {
                let t = ordered.take(j as int);
                assert(t.drop_last() =~= ordered.take(j - 1));
                assert(t.last() == doc_view(sorted@[j - 1]));
                assert(out@ =~= docs_header() + render_docs(t));
            }
        }
        assert(ordered.take(sorted.len() as int) =~= ordered);
        string_of(&out)
    }
}

// ---------------------------------------------------------------------------
// The block does not depend on the order the documents were found in
// ---------------------------------------------------------------------------

proof fn lemma_lt_irreflexive(a: Seq<char>, i: int)
    requires
        0 <= i,
    ensures
        !name_lt_from(a, a, i),
    decreases a.len() - i,
{
    if i < a.len() {
        lemma_lt_irreflexive(a, i + 1);
    }
}

proof fn lemma_lt_transitive(a: Seq<char>, b: Seq<char>, c: Seq<char>, i: int)
    requires
        0 <= i,
        name_lt_from(a, b, i),
        name_lt_from(b, c, i),
    ensures
        name_lt_from(a, c, i),
    decreases a.len() - i,
{
    if i < a.len() && i < b.len() && i < c.len() && a[i] == b[i] && b[i] == c[i] {
        lemma_lt_transitive(a, b, c, i + 1);
    }
}

proof fn lemma_lt_total(a: Seq<char>, b: Seq<char>, i: int)
    requires
        0 <= i <= a.len(),
        i <= b.len(),
        a.subrange(i, a.len() as int) != b.subrange(i, b.len() as int),
    ensures
        name_lt_from(a, b, i) || name_lt_from(b, a, i),
    decreases a.len() - i,
{
    if i == a.len() {
        if i == b.len() {
            assert(a.subrange(i, a.len() as int) =~= b.subrange(i, b.len() as int));
        }
    } else if i == b.len() {
    } else if a[i] != b[i] {
    } else {
        if a.subrange(i + 1, a.len() as int) == b.subrange(i + 1, b.len() as int) {
            let x = a.subrange(i + 1, a.len() as int);
            let y = b.subrange(i + 1, b.len() as int);
            let xs = a.subrange(i, a.len() as int);
            let ys = b.subrange(i, b.len() as int);
            assert(x.len() == y.len());
            assert forall|k: int| 0 <= k < xs.len() implies #[trigger] xs[k] == ys[k] by {
                if k > 0 {
                    assert(x[k - 1] == y[k - 1]);
                }
            }
            assert(xs =~= ys);
        }
        lemma_lt_total(a, b, i + 1);
    }
}

/// Name order with equality.
pub open spec fn name_le(a: Seq<char>, b: Seq<char>) -> bool {
    name_lt(a, b) || a == b
}

/// Documents ordered by name, then by content.
pub open spec fn doc_le(x: (Seq<char>, Seq<char>), y: (Seq<char>, Seq<char>)) -> bool {
    name_lt(x.0, y.0) || (x.0 == y.0 && name_le(x.1, y.1))
}

proof fn lemma_name_order(a: Seq<char>, b: Seq<char>, c: Seq<char>)
    ensures
        !name_lt(a, a),
        name_lt(a, b) && name_lt(b, c) ==> name_lt(a, c),
        name_lt(a, b) ==> !name_lt(b, a),
        a != b ==> name_lt(a, b) || name_lt(b, a),
{
    lemma_lt_irreflexive(a, 0);
    if name_lt(a, b) && name_lt(b, c) {
        lemma_lt_transitive(a, b, c, 0);
    }
    if name_lt(a, b) && name_lt(b, a) {
        lemma_lt_transitive(a, b, a, 0);
    }
    if a != b {
        assert(a.subrange(0, a.len() as int) =~= a);
        assert(b.subrange(0, b.len() as int) =~= b);
        lemma_lt_total(a, b, 0);
    }
}

proof fn lemma_doc_le_total()
    ensures
        total_ordering(|x: (Seq<char>, Seq<char>), y: (Seq<char>, Seq<char>)| doc_le(x, y)),
{
    let le = |x: (Seq<char>, Seq<char>), y: (Seq<char>, Seq<char>)| doc_le(x, y);
    assert forall|x: (Seq<char>, Seq<char>)| #[trigger] le(x, x) by {}
    assert forall|x: (Seq<char>, Seq<char>), y: (Seq<char>, Seq<char>)|
        #[trigger] le(x, y) && #[trigger] le(y, x) implies x == y by {
        lemma_name_order(x.0, y.0, x.0);
        lemma_name_order(x.1, y.1, x.1);
    }
    assert forall|x: (Seq<char>, Seq<char>), y: (Seq<char>, Seq<char>), z: (Seq<char>, Seq<char>)|
        #[trigger] le(x, y) && #[trigger] le(y, z) implies le(x, z) by {
        lemma_name_order(x.0, y.0, z.0);
        lemma_name_order(x.1, y.1, z.1);
    }
    assert forall|x: (Seq<char>, Seq<char>), y: (Seq<char>, Seq<char>)|
        #[trigger] le(x, y) || #[trigger] le(y, x) by {
        lemma_name_order(x.0, y.0, x.0);
        lemma_name_order(x.1, y.1, x.1);
    }
}

/// No two documents share a name.
pub open spec fn distinct_names(s: Seq<(Seq<char>, Seq<char>)>) -> bool {
    forall|i: int, j: int| 0 <= i < j < s.len() ==> #[trigger] s[i].0 != #[trigger] s[j].0
}

pub open spec fn names_increasing(s: Seq<(Seq<char>, Seq<char>)>) -> bool {
    forall|i: int, j: int| 0 <= i < j < s.len() ==> name_lt(#[trigger] s[i].0, #[trigger] s[j].0)
}

proof fn lemma_insert_increasing(s: Seq<(Seq<char>, Seq<char>)>, x: (Seq<char>, Seq<char>))
    requires
        names_increasing(s),
        forall|i: int| 0 <= i < s.len() ==> #[trigger] s[i].0 != x.0,
    ensures
        names_increasing(insert_by_name(s, x)),
        insert_by_name(s, x).to_multiset() == s.to_multiset().insert(x),
    decreases s.len(),
{
    broadcast use vstd::seq_lib::group_to_multiset_ensures;
    broadcast use vstd::multiset::group_multiset_axioms;

    if s.len() == 0 {
        assert(seq![x] =~= Seq::<(Seq<char>, Seq<char>)>::empty().push(x));
    } else if name_lt(x.0, s[0].0) {
        let r = seq![x] + s;
        assert forall|i: int, j: int| 0 <= i < j < r.len() implies name_lt(
            #[trigger] r[i].0,
            #[trigger] r[j].0,
        ) by {
            if i == 0 {
                if j > 1 {
                    lemma_name_order(x.0, s[0].0, s[j - 1].0);
                }
            } else {
                assert(r[i] == s[i - 1] && r[j] == s[j - 1]);
            }
        }
        vstd::seq_lib::lemma_multiset_commutative(seq![x], s);
        assert(seq![x] =~= Seq::<(Seq<char>, Seq<char>)>::empty().push(x));
        assert(seq![x].to_multiset() =~= vstd::multiset::Multiset::<(Seq<char>, Seq<char>)>::empty().insert(x));
        assert(r.to_multiset() =~= s.to_multiset().insert(x));
    } else {
        let t = s.drop_first();
        assert forall|i: int, j: int| 0 <= i < j < t.len() implies name_lt(
            #[trigger] t[i].0,
            #[trigger] t[j].0,
        ) by {
            assert(t[i] == s[i + 1] && t[j] == s[j + 1]);
        }
        assert forall|i: int| 0 <= i < t.len() implies #[trigger] t[i].0 != x.0 by {
            assert(t[i] == s[i + 1]);
        }
        lemma_insert_increasing(t, x);
        let rest = insert_by_name(t, x);
        let r = seq![s[0]] + rest;
        lemma_name_order(x.0, s[0].0, x.0);
        assert(name_lt(s[0].0, x.0));
        assert forall|i: int, j: int| 0 <= i < j < r.len() implies name_lt(
            #[trigger] r[i].0,
            #[trigger] r[j].0,
        ) by {
            if i == 0 {
                let y = rest[j - 1];
                assert(r[j] == y);
                assert(rest.to_multiset().count(y) > 0);
                if y != x {
                    assert(t.to_multiset().count(y) > 0);
                    assert(t.contains(y));
                    let k = choose|k: int| 0 <= k < t.len() && t[k] == y;
                    assert(s[k + 1] == y);
                }
            } else {
                assert(r[i] == rest[i - 1] && r[j] == rest[j - 1]);
            }
        }
        vstd::seq_lib::lemma_multiset_commutative(seq![s[0]], rest);
        vstd::seq_lib::lemma_multiset_commutative(seq![s[0]], t);
        assert(s =~= seq![s[0]] + t);
        assert(r.to_multiset() =~= s.to_multiset().insert(x));
    }
}

proof fn lemma_sort_increasing(s: Seq<(Seq<char>, Seq<char>)>)
    requires
        distinct_names(s),
    ensures
        names_increasing(sort_by_name(s)),
        sort_by_name(s).to_multiset() == s.to_multiset(),
    decreases s.len(),
{
    broadcast use vstd::seq_lib::group_to_multiset_ensures;
    broadcast use vstd::multiset::group_multiset_axioms;

    if s.len() > 0 {
        let p = s.drop_last();
        assert forall|i: int, j: int| 0 <= i < j < p.len() implies #[trigger] p[i].0
            != #[trigger] p[j].0 by {
            assert(p[i] == s[i] && p[j] == s[j]);
        }
        lemma_sort_increasing(p);
        let q = sort_by_name(p);
        assert forall|i: int| 0 <= i < q.len() implies #[trigger] q[i].0 != s.last().0 by {
            assert(q.to_multiset().count(q[i]) > 0);
            assert(p.contains(q[i]));
            let k = choose|k: int| 0 <= k < p.len() && p[k] == q[i];
            assert(s[k] == q[i]);
        }
        lemma_insert_increasing(q, s.last());
        assert(s =~= p.push(s.last()));
    }
}

/// The prompt block does not depend on the order in which the documents were
/// found: the same documents (no two with one name), gathered in any order,
/// give the same block.
pub proof fn law_block_ignores_discovery_order(
    a: Seq<(Seq<char>, Seq<char>)>,
    b: Seq<(Seq<char>, Seq<char>)>,
)
    requires
        a.to_multiset() == b.to_multiset(),
        distinct_names(a),
        distinct_names(b),
    ensures
        docs_block(a) == docs_block(b),
{
    broadcast use vstd::seq_lib::group_to_multiset_ensures;

    lemma_sort_increasing(a);
    lemma_sort_increasing(b);
    lemma_doc_le_total();
    let le = |x: (Seq<char>, Seq<char>), y: (Seq<char>, Seq<char>)| doc_le(x, y);
    let sa = sort_by_name(a);
    let sb = sort_by_name(b);
    assert forall|i: int, j: int| 0 <= i < j < sa.len() implies #[trigger] le(sa[i], sa[j]) by {
        assert(name_lt(sa[i].0, sa[j].0));
    }
    assert forall|i: int, j: int| 0 <= i < j < sb.len() implies #[trigger] le(sb[i], sb[j]) by {
        assert(name_lt(sb[i].0, sb[j].0));
    }
    vstd::seq_lib::lemma_sorted_unique(sa, sb, le);
    vstd::seq_lib::to_multiset_len(a);
    vstd::seq_lib::to_multiset_len(b);
    assert(a.len() == b.len());
}

} // verus!
