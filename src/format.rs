//! The document model: hunks, their original spans, and rendering.

use vstd::prelude::*;
use vstd::slice::{slice_subrange, slice_to_vec};
use vstd::utf8::*;

use crate::parser::{create_document, parse_doc, ParseError};
use crate::text::{append_bytes, decode_lossy, lossy_of};

verus! {

/// Line feed.
pub const NEWLINE: u8 = 10;

/// `)`, which ends a hunk's name.
pub const CLOSE_PAREN: u8 = 41;

/// A backtick.
pub const BACKTICK: u8 = 96;

/// The length of the marker prefix.
pub const MARKER_LEN: usize = 14;

/// The length of a fence.
pub const FENCE_LEN: usize = 3;

/// The bytes that open a marker line: `[testmark]:# (`.
pub open spec fn marker() -> Seq<u8> {
    seq![91u8, 116u8, 101u8, 115u8, 116u8, 109u8, 97u8, 114u8, 107u8, 93u8, 58u8, 35u8, 32u8, 40u8]
}

/// Three backticks, which open and close a fenced block.
pub open spec fn fence() -> Seq<u8> {
    seq![BACKTICK, BACKTICK, BACKTICK]
}

/// The marker prefix as bytes.
pub(crate) fn marker_bytes() -> (r: Vec<u8>)
    ensures
        r@ == marker(),
{
    let r = vec![91u8, 116u8, 101u8, 115u8, 116u8, 109u8, 97u8, 114u8, 107u8, 93u8, 58u8, 35u8, 32u8, 40u8];
    assert(r@ =~= marker());
    r
}

/// A fence as bytes.
pub(crate) fn fence_bytes() -> (r: Vec<u8>)
    ensures
        r@ == fence(),
{
    let r = vec![BACKTICK, BACKTICK, BACKTICK];
    assert(r@ =~= fence());
    r
}

/// The half-open byte span `[start, end)` that a hunk occupied in the parsed document.
#[derive(Debug, Copy, Clone)]
pub struct HunkPos {
    pub start: usize,
    pub end: usize,
}

impl HunkPos {
    pub(crate) fn new(start: usize, end: usize) -> (r: Self)
        ensures
            r.start == start,
            r.end == end,
    {
        Self { start, end }
    }
}

/// What a hunk holds: its name, its info string, its payload and its original span.
pub struct HunkModel {
    pub name: Seq<char>,
    pub info: Option<Seq<char>>,
    pub data: Seq<u8>,
    pub start: int,
    pub end: int,
}

/// The text that an info string is written as: nothing where there is none.
pub open spec fn info_text(info: Option<Seq<char>>) -> Seq<char> {
    match info {
        Some(t) => t,
        None => Seq::empty(),
    }
}

/// The bytes that a hunk is rendered as: its marker line, the opening fence with
/// its info string, the payload, a line break and the closing fence.
pub open spec fn render_hunk(h: HunkModel) -> Seq<u8> {
    marker() + encode_utf8(h.name) + seq![CLOSE_PAREN, NEWLINE] + fence() + encode_utf8(info_text(h.info))
        + seq![NEWLINE] + h.data + seq![NEWLINE] + fence()
}

/// Where the copying of the original body resumes after the first `n` hunks.
pub open spec fn cursor_after(hs: Seq<HunkModel>, n: int) -> int {
    if n <= 0 {
        0
    } else {
        hs[n - 1].end
    }
}

/// The spans of `hs` lie inside a body of `len` bytes, in order and without overlap.
pub open spec fn spans_ordered(len: int, hs: Seq<HunkModel>) -> bool {
    forall|k: int|
        0 <= k < hs.len() ==> cursor_after(hs, k) <= #[trigger] hs[k].start <= hs[k].end <= len
}

/// The output after the first `n` hunks: for each, the untouched bytes since the
/// previous hunk, then the hunk rendered afresh.
pub open spec fn render_upto(body: Seq<u8>, hs: Seq<HunkModel>, n: int) -> Seq<u8>
    decreases n,
{
    if n <= 0 {
        Seq::empty()
    } else {
        render_upto(body, hs, n - 1) + body.subrange(cursor_after(hs, n - 1), hs[n - 1].start)
            + render_hunk(hs[n - 1])
    }
}

/// The rendered document: all hunks in order, then the rest of the body.
pub open spec fn render_doc(body: Seq<u8>, hs: Seq<HunkModel>) -> Seq<u8> {
    render_upto(body, hs, hs.len() as int) + body.subrange(
        cursor_after(hs, hs.len() as int),
        body.len() as int,
    )
}

/// A named, typed data block of a document.
#[derive(Debug)]
pub struct Hunk {
    name: String,
    info: Option<String>,
    data: Vec<u8>,
    original_pos: HunkPos,
}

/// The text of an optional info string.
pub open spec fn info_view(info: Option<String>) -> Option<Seq<char>> {
    match info {
        Some(t) => Some(t@),
        None => None,
    }
}

impl View for Hunk {
    type V = HunkModel;

    closed spec fn view(&self) -> HunkModel {
        HunkModel {
            name: self.name@,
            info: info_view(self.info),
            data: self.data@,
            start: self.original_pos.start as int,
            end: self.original_pos.end as int,
        }
    }
}

impl Hunk {
    pub(crate) fn new(name: String, info: Option<String>, data: Vec<u8>, pos: HunkPos) -> (r: Self)
        ensures
            r@ == (HunkModel {
                name: name@,
                info: info_view(info),
                data: data@,
                start: pos.start as int,
                end: pos.end as int,
            }),
    {
        Self { name, info, data, original_pos: pos }
    }

    /// The name given in the marker line.
    pub fn name(&self) -> (r: &str)
        ensures
            r@ == self@.name,
    {
        self.name.as_str()
    }

    pub fn set_name(&mut self, name: &str)
        ensures
            final(self)@ == (HunkModel { name: name@, ..old(self)@ }),
    {
        self.name = name.to_owned();
    }

    /// The fence's info string, trimmed; none where it was empty.
    pub fn info(&self) -> (r: Option<&String>)
        ensures
            match r {
                Some(t) => self@.info == Some(t@),
                None => self@.info == None::<Seq<char>>,
            },
    {
        self.info.as_ref()
    }

    pub fn set_info(&mut self, info: Option<String>)
        ensures
            final(self)@ == (HunkModel { info: info_view(info), ..old(self)@ }),
    {
        self.info = info;
    }

    /// The payload bytes.
    pub fn data(&self) -> (r: &[u8])
        ensures
            r@ == self@.data,
    {
        self.data.as_slice()
    }

    /// The payload decoded as UTF-8, invalid sequences replaced.
    pub fn data_string(&self) -> (r: String)
        ensures
            r@ == lossy_of(self@.data),
    {
        decode_lossy(self.data.as_slice())
    }

    pub fn set_data(&mut self, data: Vec<u8>)
        ensures
            final(self)@ == (HunkModel { data: data@, ..old(self)@ }),
    {
        self.data = data;
    }

    /// The span the hunk occupied in the parsed document.
    pub fn original_pos(&self) -> (r: HunkPos)
        ensures
            r.start == self@.start,
            r.end == self@.end,
    {
        self.original_pos
    }

    /// The hunk written out afresh, whatever its original text was.
    pub fn render(&self) -> (r: Vec<u8>)
        ensures
            r@ == render_hunk(self@),
    {
        let mut r = marker_bytes();
        append_bytes(&mut r, self.name.as_str().as_bytes());
        r.push(CLOSE_PAREN);
        r.push(NEWLINE);
        let fence = fence_bytes();
        append_bytes(&mut r, fence.as_slice());
        match &self.info {
            Some(t) => append_bytes(&mut r, t.as_str().as_bytes()),
            None => {},
        }
        r.push(NEWLINE);
        append_bytes(&mut r, self.data.as_slice());
        r.push(NEWLINE);
        append_bytes(&mut r, fence.as_slice());
        proof {
            assert(encode_utf8(Seq::<char>::empty()) =~= Seq::<u8>::empty()) by {
                reveal_with_fuel(encode_utf8, 1);
            }
        }
        assert(r@ =~= render_hunk(self@));
        r
    }
}

/// The hunk models of a sequence of hunks.
pub open spec fn models(hs: Seq<Hunk>) -> Seq<HunkModel> {
    hs.map_values(|h: Hunk| h@)
}

/// A parsed document: the original bytes and its hunks in document order.
#[derive(Debug)]
pub struct Document {
    pub body: Vec<u8>,
    pub hunks: Vec<Hunk>,
}

impl Document {
    /// Parses a document from text.
    pub fn from_string(contents: &str) -> (r: Result<Document, ParseError>)
        ensures
            match r {
                Ok(d) => parse_doc(encode_utf8(contents@)) == Ok::<Seq<HunkModel>, ParseError>(
                    d.hunk_models(),
                ) && d.body@ == encode_utf8(contents@) && d.wf(),
                Err(e) => parse_doc(encode_utf8(contents@)) == Err::<Seq<HunkModel>, ParseError>(e),
            },
    {
        create_document(slice_to_vec(contents.as_bytes()))
    }

    /// Parses a document from bytes.
    pub fn from_bytes(bytes: Vec<u8>) -> (r: Result<Document, ParseError>)
        ensures
            match r {
                Ok(d) => parse_doc(bytes@) == Ok::<Seq<HunkModel>, ParseError>(d.hunk_models())
                    && d.body@ == bytes@ && d.wf(),
                Err(e) => parse_doc(bytes@) == Err::<Seq<HunkModel>, ParseError>(e),
            },
    {
        create_document(bytes)
    }

    /// The models of the document's hunks.
    pub open spec fn hunk_models(&self) -> Seq<HunkModel> {
        models(self.hunks@)
    }

    /// The hunks' spans lie in the body, in order and without overlap.
    pub open spec fn wf(&self) -> bool {
        spans_ordered(self.body@.len() as int, self.hunk_models())
    }

    /// Whether the hunks' spans lie in the body, in order and without overlap,
    /// which `render` requires.
    pub fn spans_valid(&self) -> (r: bool)
        ensures
            r == self.wf(),
    {
        let ghost hs = self.hunk_models();
        let mut cursor: usize = 0;
        let mut k: usize = 0;
        while k < self.hunks.len()
            invariant
                hs == self.hunk_models(),
                k <= hs.len(),
                cursor as int == cursor_after(hs, k as int),
                forall|m: int|
                    0 <= m < k ==> cursor_after(hs, m) <= #[trigger] hs[m].start <= hs[m].end
                        <= self.body@.len(),
            decreases hs.len() - k,
        {
            let pos = self.hunks[k].original_pos();
            assert(hs[k as int] == self.hunks@[k as int]@);
            if !(cursor <= pos.start && pos.start <= pos.end && pos.end <= self.body.len()) {
                return false;
            }
            cursor = pos.end;
            k += 1;
        }
        true
    }

    /// The hunks, in document order.
    pub fn hunks(&self) -> (r: &[Hunk])
        ensures
            r@ == self.hunks@,
    {
        self.hunks.as_slice()
    }

    /// The hunks, for editing in place.
    pub fn hunks_mut(&mut self) -> (r: &mut [Hunk])
        ensures
            r@ == old(self).hunks@,
            final(self).hunks@ == final(r)@,
            final(self).body == old(self).body,
    {
        self.hunks.as_mut_slice()
    }

    /// The document with every hunk rendered afresh and every other byte copied
    /// from the body.
    pub fn render(&self) -> (r: Vec<u8>)
        requires
            self.wf(),
        ensures
            r@ == render_doc(self.body@, self.hunk_models()),
    {
        let ghost hs = self.hunk_models();
        let mut new_doc: Vec<u8> = Vec::new();
        let mut doc_cursor: usize = 0;
        let mut k: usize = 0;
        while k < self.hunks.len()
            invariant
                self.wf(),
                hs == self.hunk_models(),
                k <= hs.len(),
                doc_cursor as int == cursor_after(hs, k as int),
                new_doc@ == render_upto(self.body@, hs, k as int),
            decreases hs.len() - k,
        {
            let hunk = &self.hunks[k];
            assert(hs[k as int] == hunk@);
            let section_start = hunk.original_pos().start;
            let section_end = hunk.original_pos().end;
            append_bytes(
                &mut new_doc,
                slice_subrange(self.body.as_slice(), doc_cursor, section_start),
            );
            let rendered = hunk.render();
            append_bytes(&mut new_doc, rendered.as_slice());
            doc_cursor = section_end;
            k += 1;
            assert(new_doc@ =~= render_upto(self.body@, hs, k as int));
        }
        if doc_cursor < self.body.len() {
            append_bytes(
                &mut new_doc,
                slice_subrange(self.body.as_slice(), doc_cursor, self.body.len()),
            );
        }
        assert(new_doc@ =~= render_doc(self.body@, hs));
        new_doc
    }
}

} // verus!
