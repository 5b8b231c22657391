//! What holds of parsing and rendering together.

use vstd::prelude::*;
use vstd::utf8::encode_utf8;

use crate::format::{
    cursor_after, fence, info_text, marker, render_doc, render_hunk, render_upto, spans_ordered,
    HunkModel, CLOSE_PAREN, FENCE_LEN, MARKER_LEN, NEWLINE,
};
use crate::parser::{
    at, block_at, fence_parts, header_parts, info_of, lemma_block_at, lemma_find_some,
    lemma_parse_shape, lemma_token_lengths, parse_doc,
};
use crate::text::lossy_of;

verus! {

proof fn lemma_split(s: Seq<u8>, a: int, b: int, c: int)
    requires
        0 <= a <= b <= c <= s.len(),
    ensures
        s.subrange(a, c) == s.subrange(a, b) + s.subrange(b, c),
{
    assert(s.subrange(a, c) =~= s.subrange(a, b) + s.subrange(b, c));
}

/// Hunk `k` of a well-ordered sequence ends before hunk `l > k` begins.
pub proof fn lemma_ordered_pair(len: int, hs: Seq<HunkModel>, k: int, l: int)
    requires
        spans_ordered(len, hs),
        0 <= k < l < hs.len(),
    ensures
        hs[k].end <= hs[l].start,
    decreases l - k,
{
    assert(cursor_after(hs, l) <= hs[l].start);
    if l > k + 1 {
        lemma_ordered_pair(len, hs, k, l - 1);
        assert(hs[l - 1].start <= hs[l - 1].end);
    }
}

/// Parsing yields hunks in document order: every span lies in the document,
/// and each one ends before any later one begins.
pub proof fn lemma_hunks_in_order(s: Seq<u8>)
    requires
        parse_doc(s) is Ok,
    ensures
        spans_ordered(s.len() as int, parse_doc(s)->Ok_0),
        forall|k: int, l: int|
            0 <= k < l < parse_doc(s)->Ok_0.len() ==> #[trigger] parse_doc(s)->Ok_0[k].end
                <= #[trigger] parse_doc(s)->Ok_0[l].start,
{
    lemma_parse_shape(s, 0);
    let hs = parse_doc(s)->Ok_0;
    assert forall|k: int, l: int| 0 <= k < l < hs.len() implies #[trigger] hs[k].end
        <= #[trigger] hs[l].start by {
        lemma_ordered_pair(s.len() as int, hs, k, l);
    }
}

/// Rendering keeps the order of the hunks: the output for the first `n` hunks
/// is a prefix of the output for the first `m >= n`.
pub proof fn lemma_render_keeps_order(body: Seq<u8>, hs: Seq<HunkModel>, n: int, m: int)
    requires
        0 <= n <= m,
    ensures
        render_upto(body, hs, n).len() <= render_upto(body, hs, m).len(),
        render_upto(body, hs, m).subrange(0, render_upto(body, hs, n).len() as int) == render_upto(
            body,
            hs,
            n,
        ),
    decreases m - n,
{
    if n < m {
        lemma_render_keeps_order(body, hs, n, m - 1);
        let a = render_upto(body, hs, m - 1);
        let b = render_upto(body, hs, n);
        let c = body.subrange(cursor_after(hs, m - 1), hs[m - 1].start) + render_hunk(hs[m - 1]);
        assert(render_upto(body, hs, m) == a + c);
        assert(render_upto(body, hs, m).subrange(0, b.len() as int) =~= a.subrange(
            0,
            b.len() as int,
        ));
    } else {
        assert(render_upto(body, hs, m).subrange(0, render_upto(body, hs, n).len() as int)
            =~= render_upto(body, hs, n));
    }
}

/// Every hunk comes from a marker: a fenced block that no marker line
/// introduces never yields one.
pub proof fn lemma_hunks_follow_markers(s: Seq<u8>)
    requires
        parse_doc(s) is Ok,
    ensures
        forall|k: int|
            0 <= k < parse_doc(s)->Ok_0.len() ==> at(s, #[trigger] parse_doc(s)->Ok_0[k].start, marker()),
{
    lemma_parse_shape(s, 0);
    let hs = parse_doc(s)->Ok_0;
    assert forall|k: int| 0 <= k < hs.len() implies at(s, #[trigger] hs[k].start, marker()) by {
        lemma_block_at(s, hs[k].start);
    }
}

/// The output for hunks `i + 1` up to `n`, each with the untouched bytes before it.
pub open spec fn render_between(body: Seq<u8>, hs: Seq<HunkModel>, i: int, n: int) -> Seq<u8>
    decreases n - i,
{
    if n <= i + 1 {
        Seq::empty()
    } else {
        render_between(body, hs, i, n - 1) + body.subrange(cursor_after(hs, n - 1), hs[n - 1].start)
            + render_hunk(hs[n - 1])
    }
}

/// The rendered bytes before hunk `i`.
pub open spec fn before_hunk(body: Seq<u8>, hs: Seq<HunkModel>, i: int) -> Seq<u8> {
    render_upto(body, hs, i) + body.subrange(cursor_after(hs, i), hs[i].start)
}

/// The rendered bytes after hunk `i`.
pub open spec fn after_hunk(body: Seq<u8>, hs: Seq<HunkModel>, i: int) -> Seq<u8> {
    render_between(body, hs, i, hs.len() as int) + body.subrange(
        cursor_after(hs, hs.len() as int),
        body.len() as int,
    )
}

proof fn lemma_render_split(body: Seq<u8>, hs: Seq<HunkModel>, i: int, n: int)
    requires
        0 <= i < n <= hs.len(),
    ensures
        render_upto(body, hs, n) == before_hunk(body, hs, i) + render_hunk(hs[i]) + render_between(
            body,
            hs,
            i,
            n,
        ),
    decreases n - i,
{
    if n > i + 1 {
        lemma_render_split(body, hs, i, n - 1);
        assert(render_upto(body, hs, n) =~= before_hunk(body, hs, i) + render_hunk(hs[i])
            + render_between(body, hs, i, n));
    } else {
        assert(render_upto(body, hs, n) =~= before_hunk(body, hs, i) + render_hunk(hs[i])
            + render_between(body, hs, i, n));
    }
}

proof fn lemma_upto_unchanged(body: Seq<u8>, hs: Seq<HunkModel>, i: int, h: HunkModel, m: int)
    requires
        0 <= m <= i < hs.len(),
    ensures
        render_upto(body, hs.update(i, h), m) == render_upto(body, hs, m),
        cursor_after(hs.update(i, h), m) == cursor_after(hs, m),
    decreases m,
{
    if m > 0 {
        lemma_upto_unchanged(body, hs, i, h, m - 1);
    }
}

proof fn lemma_between_unchanged(body: Seq<u8>, hs: Seq<HunkModel>, i: int, h: HunkModel, n: int)
    requires
        0 <= i < n <= hs.len(),
        h.end == hs[i].end,
    ensures
        render_between(body, hs.update(i, h), i, n) == render_between(body, hs, i, n),
        cursor_after(hs.update(i, h), n) == cursor_after(hs, n),
    decreases n - i,
{
    if n > i + 1 {
        lemma_between_unchanged(body, hs, i, h, n - 1);
    }
}

/// Editing hunk `i` (its name, info or payload; its span stays) changes the
/// rendered document only where that hunk is written: the bytes before and
/// after it are the same as before the edit.
pub proof fn lemma_edit_locality(body: Seq<u8>, hs: Seq<HunkModel>, i: int, h: HunkModel)
    requires
        0 <= i < hs.len(),
        h.start == hs[i].start,
        h.end == hs[i].end,
    ensures
        render_doc(body, hs) == before_hunk(body, hs, i) + render_hunk(hs[i]) + after_hunk(
            body,
            hs,
            i,
        ),
        render_doc(body, hs.update(i, h)) == before_hunk(body, hs, i) + render_hunk(h) + after_hunk(
            body,
            hs,
            i,
        ),
{
    let hs2 = hs.update(i, h);
    let n = hs.len() as int;
    lemma_render_split(body, hs, i, n);
    lemma_render_split(body, hs2, i, n);
    lemma_upto_unchanged(body, hs, i, h, i);
    lemma_between_unchanged(body, hs, i, h, n);
    assert(before_hunk(body, hs2, i) == before_hunk(body, hs, i));
    assert(render_doc(body, hs) =~= before_hunk(body, hs, i) + render_hunk(hs[i]) + after_hunk(
        body,
        hs,
        i,
    ));
    assert(render_doc(body, hs2) =~= before_hunk(body, hs, i) + render_hunk(h) + after_hunk(
        body,
        hs,
        i,
    ));
}

/// The marker block at `j` is written the way rendering writes it: nothing
/// follows the name's `)` on its line, the name and the info string read back
/// to their own bytes, and a line break ends the payload.
pub open spec fn canonical_block(s: Seq<u8>, j: int) -> bool {
    match header_parts(s, j) {
        Ok((p, q)) => {
            &&& q == p + 1
            &&& encode_utf8(lossy_of(s.subrange(j + MARKER_LEN, p))) == s.subrange(j + MARKER_LEN, p)
            &&& match fence_parts(s, q + 1) {
                Ok((r, t)) => {
                    &&& encode_utf8(info_text(info_of(s.subrange(q + 1 + FENCE_LEN, r)))) == s.subrange(q + 1 + FENCE_LEN, r)
                    &&& r + 1 < t
                    &&& s[t - 1] == NEWLINE
                },
                Err(_) => false,
            }
        },
        Err(_) => false,
    }
}

proof fn lemma_canonical_renders_exactly(s: Seq<u8>, j: int)
    requires
        at(s, j, marker()),
        canonical_block(s, j),
    ensures
        block_at(s, j) is Ok,
        block_at(s, j)->Ok_0.0 is Some,
        render_hunk(block_at(s, j)->Ok_0.0->Some_0) == s.subrange(j, block_at(s, j)->Ok_0.1),
{
    lemma_token_lengths();
    let (p, q) = header_parts(s, j)->Ok_0;
    let (r, t) = fence_parts(s, q + 1)->Ok_0;
    lemma_find_some(s, j + MARKER_LEN, seq![CLOSE_PAREN]);
    lemma_find_some(s, p + 1, seq![NEWLINE]);
    lemma_find_some(s, q + 1 + FENCE_LEN, seq![NEWLINE]);
    lemma_find_some(s, r + 1, fence());
    let h = block_at(s, j)->Ok_0.0->Some_0;
    assert(s.subrange(p, p + 1)[0] == s[p]);
    assert(s.subrange(q, q + 1)[0] == s[q]);
    assert(s.subrange(r, r + 1)[0] == s[r]);
    assert(s.subrange(p, q + 1) =~= seq![CLOSE_PAREN, NEWLINE]);
    assert(s.subrange(r, r + 1) =~= seq![NEWLINE]);
    assert(s.subrange(t - 1, t) =~= seq![NEWLINE]);
    let raw = s.subrange(r + 1, t);
    assert(raw.last() == s[t - 1]);
    assert(h.data =~= s.subrange(r + 1, t - 1));
    assert(s.subrange(j, t + FENCE_LEN) =~= s.subrange(j, j + MARKER_LEN) + s.subrange(j + MARKER_LEN, p) + s.subrange(
        p,
        q + 1,
    ) + s.subrange(q + 1, q + 1 + FENCE_LEN) + s.subrange(q + 1 + FENCE_LEN, r) + s.subrange(r, r + 1) + s.subrange(
        r + 1,
        t - 1,
    ) + s.subrange(t - 1, t) + s.subrange(t, t + FENCE_LEN));
}

proof fn lemma_upto_exact(s: Seq<u8>, hs: Seq<HunkModel>, n: int)
    requires
        spans_ordered(s.len() as int, hs),
        forall|k: int|
            0 <= k < hs.len() ==> #[trigger] render_hunk(hs[k]) == s.subrange(hs[k].start, hs[k].end),
        0 <= n <= hs.len(),
    ensures
        0 <= cursor_after(hs, n) <= s.len(),
        render_upto(s, hs, n) == s.subrange(0, cursor_after(hs, n)),
    decreases n,
{
    if n > 0 {
        lemma_upto_exact(s, hs, n - 1);
        let c = cursor_after(hs, n - 1);
        let h = hs[n - 1];
        assert(c <= h.start <= h.end <= s.len());
        assert(render_hunk(h) == s.subrange(h.start, h.end));
        lemma_split(s, 0, c, h.start);
        lemma_split(s, 0, h.start, h.end);
        assert(render_upto(s, hs, n) == s.subrange(0, c) + s.subrange(c, h.start) + s.subrange(
            h.start,
            h.end,
        ));
    }
}

/// Parsing a document and rendering it with no edit gives back the document
/// byte for byte, wherever its hunks are written the way rendering writes them.
pub proof fn lemma_round_trip(s: Seq<u8>)
    requires
        parse_doc(s) is Ok,
        forall|k: int|
            0 <= k < parse_doc(s)->Ok_0.len() ==> canonical_block(
                s,
                #[trigger] parse_doc(s)->Ok_0[k].start,
            ),
    ensures
        render_doc(s, parse_doc(s)->Ok_0) == s,
{
    let hs = parse_doc(s)->Ok_0;
    lemma_parse_shape(s, 0);
    assert forall|k: int| 0 <= k < hs.len() implies #[trigger] render_hunk(hs[k]) == s.subrange(
        hs[k].start,
        hs[k].end,
    ) by {
        lemma_block_at(s, hs[k].start);
        lemma_canonical_renders_exactly(s, hs[k].start);
    }
    lemma_upto_exact(s, hs, hs.len() as int);
    let c = cursor_after(hs, hs.len() as int);
    assert(0 <= c <= s.len()) by {
        if hs.len() > 0 {
            assert(hs[hs.len() - 1].end <= s.len());
        }
    }
    assert(render_doc(s, hs) =~= s);
}

} // verus!
