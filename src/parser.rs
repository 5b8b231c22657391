//! The scanner: finds marker lines and fenced blocks in a byte buffer and
//! builds the hunks, in one pass from left to right.

use vstd::prelude::*;
use vstd::slice::{slice_subrange, slice_to_vec};

use crate::format::{
    cursor_after, fence, fence_bytes, info_view, marker, marker_bytes, models, spans_ordered, Document, Hunk,
    HunkModel, HunkPos, CLOSE_PAREN, FENCE_LEN, MARKER_LEN, NEWLINE,
};
use crate::text::{decode_lossy, lossy_of, trim_of, trim_text};

verus! {

/// Why a document could not be parsed.
#[derive(Debug, Clone, Copy, PartialEq, Eq, Structural)]
pub enum ParseError {
    /// No `)` follows the marker.
    UnclosedName,
    /// The marker's parentheses hold nothing.
    EmptyName,
    /// The marker line has no line break.
    UnterminatedMarkerLine,
    /// The line after the marker does not open a fenced block.
    MissingFence,
    /// The opening fence's line has no line break.
    UnterminatedInfoLine,
    /// No closing fence follows the opening one.
    UnclosedFence,
}

/// `p` occurs in `s` at offset `i`.
pub open spec fn at(s: Seq<u8>, i: int, p: Seq<u8>) -> bool {
    0 <= i && i + p.len() <= s.len() && s.subrange(i, i + p.len()) == p
}

/// The first offset at or after `i` where `p` occurs in `s`.
pub open spec fn find(s: Seq<u8>, i: int, p: Seq<u8>) -> Option<int>
    decreases s.len() - i,
{
    if i < 0 || i >= s.len() {
        None
    } else if at(s, i, p) {
        Some(i)
    } else {
        find(s, i + 1, p)
    }
}

/// The first offset at or after `i` where a marker or a fence begins.
pub open spec fn next_block(s: Seq<u8>, i: int) -> Option<int>
    decreases s.len() - i,
{
    if i < 0 || i >= s.len() {
        None
    } else if at(s, i, marker()) || at(s, i, fence()) {
        Some(i)
    } else {
        next_block(s, i + 1)
    }
}

/// For a marker at `j`: the offset of the `)` that ends the name and of the
/// line break that ends the marker line.
pub open spec fn header_parts(s: Seq<u8>, j: int) -> Result<(int, int), ParseError> {
    match find(s, j + marker().len(), seq![CLOSE_PAREN]) {
        None => Err(ParseError::UnclosedName),
        Some(p) => if p == j + marker().len() {
            Err(ParseError::EmptyName)
        } else {
            match find(s, p + 1, seq![NEWLINE]) {
                None => Err(ParseError::UnterminatedMarkerLine),
                Some(q) => if at(s, q + 1, fence()) {
                    Ok((p, q))
                } else {
                    Err(ParseError::MissingFence)
                },
            }
        },
    }
}

/// For a fence opened at `k`: the offset of the line break that ends the info
/// line and of the closing fence.
pub open spec fn fence_parts(s: Seq<u8>, k: int) -> Result<(int, int), ParseError> {
    match find(s, k + fence().len(), seq![NEWLINE]) {
        None => Err(ParseError::UnterminatedInfoLine),
        Some(r) => match find(s, r + 1, fence()) {
            None => Err(ParseError::UnclosedFence),
            Some(t) => Ok((r, t)),
        },
    }
}

/// The payload of a block: the bytes before the closing fence, without the
/// line break that separates them from it.
pub open spec fn payload_of(raw: Seq<u8>) -> Seq<u8> {
    if raw.len() > 0 && raw.last() == NEWLINE {
        raw.drop_last()
    } else {
        raw
    }
}

/// What an info string normalizes to: nothing where it is empty.
pub open spec fn normalized(trimmed: Seq<char>) -> Option<Seq<char>> {
    if trimmed.len() == 0 {
        None
    } else {
        Some(trimmed)
    }
}

/// The info of a block whose info line holds `raw`: decoded, trimmed, and
/// nothing where that leaves nothing.
pub open spec fn info_of(raw: Seq<u8>) -> Option<Seq<char>> {
    normalized(trim_of(lossy_of(raw)))
}

/// The block that begins at `j`: the hunk it makes, if it follows a marker,
/// and the offset just past its closing fence.
pub open spec fn block_at(s: Seq<u8>, j: int) -> Result<(Option<HunkModel>, int), ParseError> {
    if at(s, j, marker()) {
        match header_parts(s, j) {
            Err(e) => Err(e),
            Ok((p, q)) => match fence_parts(s, q + 1) {
                Err(e) => Err(e),
                Ok((r, t)) => Ok(
                    (
                        Some(
                            HunkModel {
                                name: lossy_of(s.subrange(j + marker().len(), p)),
                                info: info_of(s.subrange(q + 1 + fence().len(), r)),
                                data: payload_of(s.subrange(r + 1, t)),
                                start: j,
                                end: t + fence().len(),
                            },
                        ),
                        t + fence().len(),
                    ),
                ),
            },
        }
    } else {
        match fence_parts(s, j) {
            Err(e) => Err(e),
            Ok((r, t)) => Ok((None, t + fence().len())),
        }
    }
}

/// `rest` with `h` in front of it, if there is one.
pub open spec fn cons_opt(h: Option<HunkModel>, rest: Seq<HunkModel>) -> Seq<HunkModel> {
    match h {
        Some(h) => seq![h] + rest,
        None => rest,
    }
}

/// The hunks of `s` from offset `i` on, or the error that ends the parse.
pub open spec fn parse_from(s: Seq<u8>, i: int) -> Result<Seq<HunkModel>, ParseError>
    decreases s.len() - i,
{
    match next_block(s, i) {
        None => Ok(Seq::empty()),
        Some(j) => match block_at(s, j) {
            Err(e) => Err(e),
            Ok((h, end)) => if i < end <= s.len() {
                match parse_from(s, end) {
                    Err(e) => Err(e),
                    Ok(rest) => Ok(cons_opt(h, rest)),
                }
            } else {
                Ok(Seq::empty())
            },
        },
    }
}

/// The hunks of a whole document, or the error that ends its parse.
pub open spec fn parse_doc(s: Seq<u8>) -> Result<Seq<HunkModel>, ParseError> {
    parse_from(s, 0)
}

/// The result `r` of parsing the rest, after the hunks `done`.
pub open spec fn prepend(
    done: Seq<HunkModel>,
    r: Result<Seq<HunkModel>, ParseError>,
) -> Result<Seq<HunkModel>, ParseError> {
    match r {
        Ok(rest) => Ok(done + rest),
        Err(e) => Err(e),
    }
}

/// An optional offset as an integer.
pub open spec fn as_int(o: Option<usize>) -> Option<int> {
    match o {
        Some(x) => Some(x as int),
        None => None,
    }
}

/// A found offset lies at or after the start of the search and holds the pattern.
pub proof fn lemma_find_some(s: Seq<u8>, i: int, p: Seq<u8>)
    requires
        find(s, i, p) is Some,
    ensures
        i <= find(s, i, p)->Some_0,
        at(s, find(s, i, p)->Some_0, p),
    decreases s.len() - i,
{
    if !(i < 0 || i >= s.len()) && !at(s, i, p) {
        lemma_find_some(s, i + 1, p);
    }
}

/// A found block begins at or after the start of the search, at a marker or a fence.
pub proof fn lemma_next_block_some(s: Seq<u8>, i: int)
    requires
        next_block(s, i) is Some,
    ensures
        i <= next_block(s, i)->Some_0 < s.len(),
        at(s, next_block(s, i)->Some_0, marker()) || at(s, next_block(s, i)->Some_0, fence()),
    decreases s.len() - i,
{
    if !(i < 0 || i >= s.len()) && !(at(s, i, marker()) || at(s, i, fence())) {
        lemma_next_block_some(s, i + 1);
    }
}

/// A fenced block ends past its opening fence and inside the buffer.
pub proof fn lemma_fence_parts(s: Seq<u8>, k: int)
    requires
        fence_parts(s, k) is Ok,
    ensures
        k + FENCE_LEN <= fence_parts(s, k)->Ok_0.0,
        fence_parts(s, k)->Ok_0.0 < fence_parts(s, k)->Ok_0.1,
        at(s, fence_parts(s, k)->Ok_0.1, fence()),
{
    lemma_find_some(s, k + FENCE_LEN, seq![NEWLINE]);
    let r = find(s, k + FENCE_LEN, seq![NEWLINE])->Some_0;
    lemma_find_some(s, r + 1, fence());
}

/// A block ends past where it begins and inside the buffer; a hunk it makes
/// spans exactly the block.
pub proof fn lemma_block_at(s: Seq<u8>, j: int)
    requires
        block_at(s, j) is Ok,
    ensures
        j < block_at(s, j)->Ok_0.1 <= s.len(),
        block_at(s, j)->Ok_0.0 is Some ==> at(s, j, marker()) && block_at(s, j)->Ok_0.0->Some_0.start
            == j && block_at(s, j)->Ok_0.0->Some_0.end == block_at(s, j)->Ok_0.1,
{
    if at(s, j, marker()) {
        lemma_find_some(s, j + MARKER_LEN, seq![CLOSE_PAREN]);
        let p = find(s, j + MARKER_LEN, seq![CLOSE_PAREN])->Some_0;
        lemma_find_some(s, p + 1, seq![NEWLINE]);
        let q = find(s, p + 1, seq![NEWLINE])->Some_0;
        lemma_fence_parts(s, q + 1);
    } else {
        lemma_fence_parts(s, j);
    }
}

/// The lengths of the patterns the scanner looks for.
pub proof fn lemma_token_lengths()
    ensures
        marker().len() == MARKER_LEN,
        fence().len() == FENCE_LEN,
        seq![NEWLINE].len() == 1,
        seq![CLOSE_PAREN].len() == 1,
{
}

/// The byte patterns that the scanner looks for.
struct Tokens {
    marker: Vec<u8>,
    fence: Vec<u8>,
    newline: Vec<u8>,
    close: Vec<u8>,
}

impl Tokens {
    spec fn wf(&self) -> bool {
        &&& self.marker@ == marker()
        &&& self.fence@ == fence()
        &&& self.newline@ == seq![NEWLINE]
        &&& self.close@ == seq![CLOSE_PAREN]
        &&& marker().len() == MARKER_LEN
        &&& fence().len() == FENCE_LEN
        &&& seq![NEWLINE].len() == 1
        &&& seq![CLOSE_PAREN].len() == 1
    }

    fn new() -> (r: Self)
        ensures
            r.wf(),
    {
        let newline = vec![NEWLINE];
        let close = vec![CLOSE_PAREN];
        assert(newline@ =~= seq![NEWLINE]);
        assert(close@ =~= seq![CLOSE_PAREN]);
        proof {
            lemma_token_lengths();
        }
        Tokens { marker: marker_bytes(), fence: fence_bytes(), newline, close }
    }
}

/// Whether `p` occurs in `s` at offset `i`.
fn matches_at(s: &[u8], i: usize, p: &[u8]) -> (r: bool)
    ensures
        r == at(s@, i as int, p@),
{
    if i > s.len() || p.len() > s.len() - i {
        return false;
    }
    let mut k: usize = 0;
    while k < p.len()
        invariant
            s@.len() <= usize::MAX,
            i + p@.len() <= s@.len(),
            k <= p@.len(),
            forall|m: int| 0 <= m < k ==> s@[i + m] == p@[m],
        decreases p@.len() - k,
    {
        assert(i + k < s@.len());
        if s[i + k] != p[k] {
            assert(s@.subrange(i as int, i + p@.len())[k as int] != p@[k as int]);
            return false;
        }
        k += 1;
    }
    assert(s@.subrange(i as int, i + p@.len()) =~= p@);
    true
}

/// The first offset at or after `from` where `p` occurs in `s`.
fn find_at(s: &[u8], from: usize, p: &[u8]) -> (r: Option<usize>)
    ensures
        as_int(r) == find(s@, from as int, p@),
        r matches Some(x) ==> from <= x && at(s@, x as int, p@),
{
    let mut j: usize = from;
    while j < s.len()
        invariant
            from <= j,
            find(s@, from as int, p@) == find(s@, j as int, p@),
        decreases s@.len() - j,
    {
        if matches_at(s, j, p) {
            return Some(j);
        }
        j += 1;
    }
    None
}

/// The first offset at or after `from` where a marker or a fence begins.
fn next_block_at(s: &[u8], from: usize, tk: &Tokens) -> (r: Option<usize>)
    requires
        tk.wf(),
    ensures
        as_int(r) == next_block(s@, from as int),
        r matches Some(x) ==> from <= x < s@.len() && (at(s@, x as int, marker()) || at(
            s@,
            x as int,
            fence(),
        )),
{
    let mut j: usize = from;
    while j < s.len()
        invariant
            tk.wf(),
            from <= j,
            next_block(s@, from as int) == next_block(s@, j as int),
        decreases s@.len() - j,
    {
        if matches_at(s, j, tk.marker.as_slice()) || matches_at(s, j, tk.fence.as_slice()) {
            return Some(j);
        }
        j += 1;
    }
    None
}

/// Reads the marker line at `j`: see `header_parts`.
fn parse_header(s: &[u8], j: usize, tk: &Tokens) -> (r: Result<(usize, usize), ParseError>)
    requires
        s@.len() <= usize::MAX,
        tk.wf(),
        at(s@, j as int, marker()),
    ensures
        match r {
            Ok((p, q)) => header_parts(s@, j as int) == Ok::<(int, int), ParseError>(
                (p as int, q as int),
            ) && j + MARKER_LEN < p < q && q + 1 + FENCE_LEN <= s@.len(),
            Err(e) => header_parts(s@, j as int) == Err::<(int, int), ParseError>(e),
        },
{
    let name_start = j + MARKER_LEN;
    let p = match find_at(s, name_start, tk.close.as_slice()) {
        None => return Err(ParseError::UnclosedName),
        Some(p) => p,
    };
    if p == name_start {
        return Err(ParseError::EmptyName);
    }
    let q = match find_at(s, p + 1, tk.newline.as_slice()) {
        None => return Err(ParseError::UnterminatedMarkerLine),
        Some(q) => q,
    };
    if !matches_at(s, q + 1, tk.fence.as_slice()) {
        return Err(ParseError::MissingFence);
    }
    Ok((p, q))
}

/// Reads the fenced block opened at `k`: see `fence_parts`.
fn parse_fence(s: &[u8], k: usize, tk: &Tokens) -> (r: Result<(usize, usize), ParseError>)
    requires
        s@.len() <= usize::MAX,
        tk.wf(),
        at(s@, k as int, fence()),
    ensures
        match r {
            Ok((r, t)) => fence_parts(s@, k as int) == Ok::<(int, int), ParseError>(
                (r as int, t as int),
            ) && k + FENCE_LEN <= r < t && t + FENCE_LEN <= s@.len(),
            Err(e) => fence_parts(s@, k as int) == Err::<(int, int), ParseError>(e),
        },
{
    let r = match find_at(s, k + FENCE_LEN, tk.newline.as_slice()) {
        None => return Err(ParseError::UnterminatedInfoLine),
        Some(r) => r,
    };
    let t = match find_at(s, r + 1, tk.fence.as_slice()) {
        None => return Err(ParseError::UnclosedFence),
        Some(t) => t,
    };
    Ok((r, t))
}

/// The info that a trimmed info string gives: none where it is empty, else the
/// string as it stands.
pub fn normalize_info(trimmed: String) -> (r: Option<String>)
    ensures
        info_view(r) == normalized(trimmed@),
{
    if trimmed.as_str().is_empty() {
        None
    } else {
        Some(trimmed)
    }
}

/// The info of a block whose info line holds `raw`.
fn block_info(raw: &[u8]) -> (r: Option<String>)
    ensures
        info_view(r) == info_of(raw@),
{
    let decoded = decode_lossy(raw);
    normalize_info(trim_text(decoded.as_str()))
}

/// The payload of a block from the bytes before its closing fence.
fn payload(raw: &[u8]) -> (r: Vec<u8>)
    ensures
        r@ == payload_of(raw@),
{
    if raw.len() > 0 && raw[raw.len() - 1] == NEWLINE {
        slice_to_vec(slice_subrange(raw, 0, raw.len() - 1))
    } else {
        slice_to_vec(raw)
    }
}

/// The model of an optional hunk.
pub open spec fn model_of(h: Option<Hunk>) -> Option<HunkModel> {
    match h {
        Some(h) => Some(h@),
        None => None,
    }
}

/// Reads the block at `j`: see `block_at`.
fn parse_block(s: &[u8], j: usize, tk: &Tokens) -> (r: Result<(Option<Hunk>, usize), ParseError>)
    requires
        s@.len() <= usize::MAX,
        tk.wf(),
        at(s@, j as int, marker()) || at(s@, j as int, fence()),
    ensures
        match r {
            Ok((h, end)) => block_at(s@, j as int) == Ok::<(Option<HunkModel>, int), ParseError>(
                (model_of(h), end as int),
            ) && j < end <= s@.len(),
            Err(e) => block_at(s@, j as int) == Err::<(Option<HunkModel>, int), ParseError>(e),
        },
{
    if matches_at(s, j, tk.marker.as_slice()) {
        let (p, q) = match parse_header(s, j, tk) {
            Err(e) => return Err(e),
            Ok(pq) => pq,
        };
        let (r, t) = match parse_fence(s, q + 1, tk) {
            Err(e) => return Err(e),
            Ok(rt) => rt,
        };
        let name = decode_lossy(slice_subrange(s, j + MARKER_LEN, p));
        let info = block_info(slice_subrange(s, q + 1 + FENCE_LEN, r));
        let data = payload(slice_subrange(s, r + 1, t));
        let h = Hunk::new(name, info, data, HunkPos::new(j, t + FENCE_LEN));
        Ok((Some(h), t + FENCE_LEN))
    } else {
        let (r, t) = match parse_fence(s, j, tk) {
            Err(e) => return Err(e),
            Ok(rt) => rt,
        };
        Ok((None, t + FENCE_LEN))
    }
}

/// The hunks parsed from offset `i` on begin at or after `i`, follow one
/// another without overlap inside the buffer, and each is what the block at
/// its start makes.
pub proof fn lemma_parse_shape(s: Seq<u8>, i: int)
    requires
        0 <= i,
        parse_from(s, i) is Ok,
    ensures
        forall|k: int|
            0 <= k < parse_from(s, i)->Ok_0.len() ==> i <= #[trigger] parse_from(s, i)->Ok_0[k].start,
        spans_ordered(s.len() as int, parse_from(s, i)->Ok_0),
        forall|k: int|
            0 <= k < parse_from(s, i)->Ok_0.len() ==> block_at(s, #[trigger] parse_from(s, i)->Ok_0[k].start)
                == Ok::<(Option<HunkModel>, int), ParseError>(
                (Some(parse_from(s, i)->Ok_0[k]), parse_from(s, i)->Ok_0[k].end),
            ),
    decreases s.len() - i,
{
    let hs = parse_from(s, i)->Ok_0;
    match next_block(s, i) {
        None => {},
        Some(j) => {
            lemma_next_block_some(s, i);
            lemma_block_at(s, j);
            let (h, end) = block_at(s, j)->Ok_0;
            if i < end <= s.len() {
                lemma_parse_shape(s, end);
                let rest = parse_from(s, end)->Ok_0;
                match h {
                    Some(hm) => {
                        assert(hs == seq![hm] + rest);
                        assert forall|k: int| 0 <= k < hs.len() implies cursor_after(hs, k)
                            <= #[trigger] hs[k].start <= hs[k].end <= s.len() by {
                            if k > 0 {
                                assert(hs[k] == rest[k - 1]);
                                if k > 1 {
                                    assert(cursor_after(hs, k) == cursor_after(rest, k - 1));
                                }
                            }
                        }
                        assert forall|k: int| 0 <= k < hs.len() implies i <= #[trigger] hs[k].start
                            && block_at(s, hs[k].start) == Ok::<(Option<HunkModel>, int), ParseError>(
                            (Some(hs[k]), hs[k].end),
                        ) by {
                            if k > 0 {
                                assert(hs[k] == rest[k - 1]);
                            }
                        }
                    },
                    None => {},
                }
            }
        },
    }
}

/// Parses a document: its hunks in order, or the error at the first block
/// that does not follow the grammar.
pub fn create_document(contents: Vec<u8>) -> (r: Result<Document, ParseError>)
    ensures
        match r {
            Ok(d) => parse_doc(contents@) == Ok::<Seq<HunkModel>, ParseError>(d.hunk_models())
                && d.body@ == contents@ && d.wf(),
            Err(e) => parse_doc(contents@) == Err::<Seq<HunkModel>, ParseError>(e),
        },
{
    let tk = Tokens::new();
    let s = contents.as_slice();
    let n = s.len();
    let mut hunks: Vec<Hunk> = Vec::new();
    let mut i: usize = 0;
    assert(models(hunks@) =~= Seq::<HunkModel>::empty());
    assert(parse_doc(s@) =~= prepend(models(hunks@), parse_from(s@, 0)));
    loop
        invariant
            tk.wf(),
            s@ == contents@,
            n == s@.len(),
            i <= n,
            parse_doc(s@) == prepend(models(hunks@), parse_from(s@, i as int)),
        ensures
            parse_doc(s@) == Ok::<Seq<HunkModel>, ParseError>(models(hunks@)),
        decreases n - i,
    {
        match next_block_at(s, i, &tk) {
            None => {
                assert(models(hunks@) + Seq::<HunkModel>::empty() =~= models(hunks@));
                break ;
            },
            Some(j) => {
                match parse_block(s, j, &tk) {
                    Err(e) => return Err(e),
                    Ok((h, end)) => {
                        let ghost done = models(hunks@);
                        let ghost hm = model_of(h);
                        match h {
                            Some(h) => {
                                hunks.push(h);
                            },
                            None => {},
                        }
                        proof {
                            assert(models(hunks@) =~= match hm {
                                Some(x) => done.push(x),
                                None => done,
                            });
                            match parse_from(s@, end as int) {
                                Ok(rest) => {
                                    assert(done + cons_opt(hm, rest) =~= models(hunks@) + rest);
                                },
                                Err(_) => {},
                            }
                        }
                        i = end;
                    },
                }
            },
        }
    }
    proof {
        lemma_parse_shape(s@, 0);
    }
    Ok(Document { body: contents, hunks })
}

} // verus!
