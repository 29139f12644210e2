//! The framing of a `multipart/form-data` stream as a state machine on
//! mathematical values: what each byte does to the phase, to the header lines
//! and to the bodies of the parts.
//!
//! ```text
//! --BOUNDARY\r\n
//! HEADER-LINE\r\n ... \r\n
//! BODY
//! \r\n--BOUNDARY\r\n HEADER-LINE ... BODY
//! \r\n--BOUNDARY--
//! ```

use crate::header::finish_line;
use crate::matcher::{
    ends_with, lemma_occurs_in_stretch, lemma_occurs_push, lemma_overlap, occurs, overlap,
};
use crate::multipart_parser::MultipartParserState;
use vstd::prelude::*;

verus! {

/// Carriage return.
pub const CR: u8 = 13;

/// Line feed.
pub const LF: u8 = 10;

/// The dash of which two open a delimiter.
pub const DASH: u8 = 45;

/// The line end `\r\n`.
pub open spec fn crlf() -> Seq<u8> {
    seq![CR, LF]
}

/// The two dashes `--`.
pub open spec fn prelude() -> Seq<u8> {
    seq![DASH, DASH]
}

/// The delimiter that opens the first part: `--BOUNDARY\r\n`.
pub open spec fn first_delimiter(boundary: Seq<u8>) -> Seq<u8> {
    prelude() + boundary + crlf()
}

/// The delimiter that ends the body of every part: `\r\n--BOUNDARY`.
pub open spec fn middle_delimiter(boundary: Seq<u8>) -> Seq<u8> {
    crlf() + prelude() + boundary
}

/// A part that the stream held: its header lines and its body.
pub struct Part {
    pub lines: Seq<Seq<char>>,
    pub body: Seq<u8>,
}

/// The state of the framing.
pub struct Framing {
    /// What the next byte is taken for.
    pub phase: MultipartParserState,
    /// How many bytes of the delimiter that is awaited have been read.
    pub cp: int,
    /// The bytes of the header line in progress.
    pub line: Seq<u8>,
    /// The finished header lines of the part in progress.
    pub lines: Seq<Seq<char>>,
    /// The bytes read since the body of the part in progress began; they
    /// may end with the beginning of a delimiter.
    pub body: Seq<u8>,
    /// The parts that have ended.
    pub parts: Seq<Part>,
}

/// The framing before any byte.
pub open spec fn start() -> Framing {
    Framing {
        phase: MultipartParserState::BoundaryFirst,
        cp: 0,
        line: Seq::empty(),
        lines: Seq::empty(),
        body: Seq::empty(),
        parts: Seq::empty(),
    }
}

/// Whether the framing takes the byte `c`. Only the opening delimiter
/// refuses bytes: those that are not its own.
pub open spec fn accepts(f: Framing, boundary: Seq<u8>, c: u8) -> bool {
    f.phase is BoundaryFirst ==> 0 <= f.cp < first_delimiter(boundary).len() && first_delimiter(
        boundary,
    )[f.cp] == c
}

/// A byte of a header line that follows no pending `\r`.
pub open spec fn header_byte(f: Framing, c: u8) -> Framing {
    if c == CR {
        Framing { phase: MultipartParserState::Header, cp: 1, ..f }
    } else {
        Framing { phase: MultipartParserState::Header, cp: 0, line: f.line.push(c), ..f }
    }
}

/// The opening delimiter is read byte by byte; a byte that is not its own
/// is refused and changes nothing.
pub open spec fn step_boundary_first(f: Framing, boundary: Seq<u8>, c: u8) -> Framing {
    if !accepts(f, boundary, c) {
        f
    } else if f.cp + 1 == first_delimiter(boundary).len() {
        Framing { phase: MultipartParserState::Header, cp: 0, ..f }
    } else {
        Framing { cp: f.cp + 1, ..f }
    }
}

/// In a header line `\r\n` ends the line; a `\r` that no `\n` follows is a
/// byte of the line.
pub open spec fn step_header(f: Framing, c: u8) -> Framing {
    if f.cp <= 0 {
        header_byte(f, c)
    } else if c == LF {
        Framing {
            phase: MultipartParserState::PostHeader,
            cp: 0,
            line: Seq::empty(),
            lines: finish_line(f.lines, f.line),
            ..f
        }
    } else {
        header_byte(Framing { cp: 0, line: f.line.push(CR), ..f }, c)
    }
}

/// After a header line `\r\n` ends the headers and begins the body; anything
/// else begins the next header line.
pub open spec fn step_post_header(f: Framing, c: u8) -> Framing {
    if f.cp <= 0 {
        if c == CR {
            Framing { cp: 1, ..f }
        } else {
            header_byte(f, c)
        }
    } else if c == LF {
        Framing { phase: MultipartParserState::Content, cp: 0, body: Seq::empty(), ..f }
    } else {
        header_byte(Framing { cp: 0, line: f.line.push(CR), ..f }, c)
    }
}

/// The body of a part ends where the bytes read since it began end with the
/// delimiter for the first time; the delimiter is no part of the body.
pub open spec fn step_content(f: Framing, boundary: Seq<u8>, c: u8) -> Framing {
    let middle = middle_delimiter(boundary);
    let read = f.body.push(c);
    if ends_with(read, middle) {
        Framing {
            phase: MultipartParserState::PostBoundary,
            cp: 0,
            lines: Seq::empty(),
            body: Seq::empty(),
            parts: f.parts.push(
                Part { lines: f.lines, body: read.take(read.len() - middle.len()) },
            ),
            ..f
        }
    } else {
        Framing { cp: overlap(read, middle), body: read, ..f }
    }
}

/// After a delimiter the second byte decides: `\n` begins the headers of
/// another part, `-` ends the stream. Bytes after a second byte that is
/// neither are passed over.
pub open spec fn step_post_boundary(f: Framing, c: u8) -> Framing {
    if f.cp == 1 && c == LF {
        Framing { phase: MultipartParserState::Header, cp: 0, ..f }
    } else if f.cp == 1 && c == DASH {
        Framing { phase: MultipartParserState::Finished, ..f }
    } else if f.cp < 2 {
        Framing { cp: f.cp + 1, ..f }
    } else {
        f
    }
}

/// The framing after the byte `c`.
pub open spec fn step(f: Framing, boundary: Seq<u8>, c: u8) -> Framing {
    match f.phase {
        MultipartParserState::BoundaryFirst => step_boundary_first(f, boundary, c),
        MultipartParserState::Header => step_header(f, c),
        MultipartParserState::PostHeader => step_post_header(f, c),
        MultipartParserState::Content => step_content(f, boundary, c),
        MultipartParserState::PostBoundary => step_post_boundary(f, c),
        MultipartParserState::Finished => f,
    }
}

/// Whether the framing takes every byte of `bytes`, one after the other.
pub open spec fn accepts_all(f: Framing, boundary: Seq<u8>, bytes: Seq<u8>) -> bool
    decreases bytes.len(),
{
    bytes.len() == 0 || (accepts_all(f, boundary, bytes.drop_last()) && accepts(
        feed(f, boundary, bytes.drop_last()),
        boundary,
        bytes.last(),
    ))
}

/// The framing after the bytes `bytes`.
pub open spec fn feed(f: Framing, boundary: Seq<u8>, bytes: Seq<u8>) -> Framing
    decreases bytes.len(),
{
    if bytes.len() == 0 {
        f
    } else {
        step(feed(f, boundary, bytes.drop_last()), boundary, bytes.last())
    }
}

/// What holds of every framing that the bytes of a stream lead to.
pub open spec fn inv(f: Framing, boundary: Seq<u8>) -> bool {
    let middle = middle_delimiter(boundary);
    &&& forall|i: int| 0 <= i < f.parts.len() ==> !occurs(#[trigger] f.parts[i].body, middle)
    &&& match f.phase {
        MultipartParserState::BoundaryFirst => {
            &&& 0 <= f.cp < first_delimiter(boundary).len()
            &&& f.line.len() == 0
            &&& f.lines.len() == 0
            &&& f.body.len() == 0
            &&& f.parts.len() == 0
        },
        MultipartParserState::Header => 0 <= f.cp <= 1 && f.body.len() == 0,
        MultipartParserState::PostHeader => 0 <= f.cp <= 1 && f.line.len() == 0 && f.body.len()
            == 0,
        MultipartParserState::Content => {
            &&& f.cp == overlap(f.body, middle)
            &&& !occurs(f.body, middle)
            &&& f.line.len() == 0
        },
        MultipartParserState::PostBoundary => {
            &&& 0 <= f.cp <= 2
            &&& f.line.len() == 0
            &&& f.lines.len() == 0
            &&& f.body.len() == 0
        },
        MultipartParserState::Finished => true,
    }
}

/// The empty text holds no delimiter.
pub proof fn lemma_empty_body(boundary: Seq<u8>)
    ensures
        !occurs(Seq::<u8>::empty(), middle_delimiter(boundary)),
        overlap(Seq::<u8>::empty(), middle_delimiter(boundary)) == 0,
{
    let middle = middle_delimiter(boundary);
    lemma_overlap(Seq::<u8>::empty(), middle);
}

/// A step keeps [`inv`].
pub proof fn lemma_step_inv(f: Framing, boundary: Seq<u8>, c: u8)
    requires
        inv(f, boundary),
    ensures
        inv(step(f, boundary, c), boundary),
{
    let middle = middle_delimiter(boundary);
    let g = step(f, boundary, c);
    match f.phase {
        MultipartParserState::PostHeader => {
            lemma_empty_body(boundary);
        },
        MultipartParserState::Content => {
            let read = f.body.push(c);
            lemma_occurs_push(f.body, middle, c);
            lemma_overlap(f.body, middle);
            if ends_with(read, middle) {
                let body = read.take(read.len() - middle.len());
                if occurs(body, middle) {
                    assert(body =~= f.body.subrange(0, body.len() as int));
                    lemma_occurs_in_stretch(f.body, 0, body.len() as int, middle);
                }
                assert forall|i: int| 0 <= i < g.parts.len() implies !occurs(
                    #[trigger] g.parts[i].body,
                    middle,
                ) by {
                    if i < f.parts.len() {
                        assert(g.parts[i] == f.parts[i]);
                    }
                }
            }
        },
        _ => {},
    }
}

/// Every framing that bytes lead to from a framing with [`inv`] has it.
pub proof fn lemma_feed_inv(f: Framing, boundary: Seq<u8>, bytes: Seq<u8>)
    requires
        inv(f, boundary),
    ensures
        inv(feed(f, boundary, bytes), boundary),
    decreases bytes.len(),
{
    if bytes.len() > 0 {
        lemma_feed_inv(f, boundary, bytes.drop_last());
        lemma_step_inv(feed(f, boundary, bytes.drop_last()), boundary, bytes.last());
    }
}

/// The framing before any byte has [`inv`].
pub proof fn lemma_start_inv(boundary: Seq<u8>)
    ensures
        inv(start(), boundary),
{
}

/// The byte at offset `n` of `bytes` is the first that the framing refuses.
pub open spec fn refused_at(f: Framing, boundary: Seq<u8>, bytes: Seq<u8>, n: int) -> bool {
    &&& 0 <= n < bytes.len()
    &&& accepts_all(f, boundary, bytes.take(n))
    &&& !accepts(feed(f, boundary, bytes.take(n)), boundary, bytes[n])
}

/// Bytes fed in two chunks lead where the same bytes lead in one chunk, and
/// are taken in two chunks exactly where they are taken in one.
pub proof fn lemma_feed_concat(f: Framing, boundary: Seq<u8>, a: Seq<u8>, b: Seq<u8>)
    ensures
        feed(f, boundary, a + b) == feed(feed(f, boundary, a), boundary, b),
        accepts_all(f, boundary, a + b) <==> accepts_all(f, boundary, a) && accepts_all(
            feed(f, boundary, a),
            boundary,
            b,
        ),
    decreases b.len(),
{
    if b.len() == 0 {
        assert(a + b =~= a);
    } else {
        assert((a + b).drop_last() =~= a + b.drop_last());
        assert((a + b).last() == b.last());
        lemma_feed_concat(f, boundary, a, b.drop_last());
    }
}

/// Once the opening delimiter has been read no byte is refused.
pub proof fn lemma_past_first(f: Framing, boundary: Seq<u8>, bytes: Seq<u8>)
    requires
        !(f.phase is BoundaryFirst),
    ensures
        accepts_all(f, boundary, bytes),
        !(feed(f, boundary, bytes).phase is BoundaryFirst),
    decreases bytes.len(),
{
    if bytes.len() > 0 {
        lemma_past_first(f, boundary, bytes.drop_last());
    }
}

/// Bytes of which one is refused are not all taken.
pub proof fn lemma_refused(f: Framing, boundary: Seq<u8>, bytes: Seq<u8>, n: int)
    requires
        refused_at(f, boundary, bytes, n),
    ensures
        !accepts_all(f, boundary, bytes),
{
    let head = bytes.take(n + 1);
    assert(head.drop_last() =~= bytes.take(n));
    assert(head.last() == bytes[n]);
    assert(head + bytes.skip(n + 1) =~= bytes);
    lemma_feed_concat(f, boundary, head, bytes.skip(n + 1));
}

} // verus!
