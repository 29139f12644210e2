//! The stream that parts make on the wire, and the proof that the framing
//! reads from such a stream the parts that made it.

use crate::framing::{
    accepts_all, crlf, feed, first_delimiter, lemma_feed_concat, lemma_past_first,
    middle_delimiter, prelude, start, step, Framing, Part, CR, DASH, LF,
};
use crate::header::finish_line;
use crate::matcher::{ends_with, lemma_occurs_in_stretch, occurs, occurs_at, overlap};
use crate::multipart_parser::MultipartParserState;
use vstd::prelude::*;

verus! {

/// A part as it stands in a stream: the bytes of its header lines and its
/// body.
pub struct WirePart {
    pub lines: Seq<Seq<u8>>,
    pub body: Seq<u8>,
}

/// The header lines `lines` on the wire: each line with its line end.
pub open spec fn lines_bytes(lines: Seq<Seq<u8>>) -> Seq<u8>
    decreases lines.len(),
{
    if lines.len() == 0 {
        Seq::empty()
    } else {
        lines_bytes(lines.drop_last()) + (lines.last() + crlf())
    }
}

/// A part on the wire: its header lines, an empty line, its body and the
/// delimiter that ends the body.
pub open spec fn part_bytes(p: WirePart, boundary: Seq<u8>) -> Seq<u8> {
    lines_bytes(p.lines) + crlf() + (p.body + middle_delimiter(boundary))
}

/// The parts `parts` on the wire, with a line end after the delimiter of
/// each part but the last.
pub open spec fn parts_bytes(parts: Seq<WirePart>, boundary: Seq<u8>) -> Seq<u8>
    decreases parts.len(),
{
    if parts.len() == 0 {
        Seq::empty()
    } else if parts.len() == 1 {
        part_bytes(parts.last(), boundary)
    } else {
        parts_bytes(parts.drop_last(), boundary) + (crlf() + part_bytes(parts.last(), boundary))
    }
}

/// The stream that the parts `parts` make: the opening delimiter, the
/// parts, and the two dashes that end the stream.
pub open spec fn stream_bytes(parts: Seq<WirePart>, boundary: Seq<u8>) -> Seq<u8> {
    first_delimiter(boundary) + parts_bytes(parts, boundary) + prelude()
}

/// The header lines that the framing keeps of the lines `lines`: those that
/// are UTF-8, decoded.
pub open spec fn decoded(lines: Seq<Seq<u8>>) -> Seq<Seq<char>>
    decreases lines.len(),
{
    if lines.len() == 0 {
        Seq::empty()
    } else {
        finish_line(decoded(lines.drop_last()), lines.last())
    }
}

/// The part that the framing reads from the part `p` on the wire.
pub open spec fn read_part(p: WirePart) -> Part {
    Part { lines: decoded(p.lines), body: p.body }
}

/// The parts that the framing reads from the parts `parts` on the wire.
pub open spec fn read_parts(parts: Seq<WirePart>) -> Seq<Part> {
    parts.map_values(|p: WirePart| read_part(p))
}

/// A part that the wire can carry: it has a header line; no header line
/// holds a line end, and none but the first is empty; and the delimiter that
/// ends the body is the first that the body and the delimiter hold.
pub open spec fn well_formed(p: WirePart, boundary: Seq<u8>) -> bool {
    &&& p.lines.len() >= 1
    &&& forall|i: int| 0 <= i < p.lines.len() ==> !occurs(#[trigger] p.lines[i], crlf())
    &&& forall|i: int| 1 <= i < p.lines.len() ==> (#[trigger] p.lines[i]).len() > 0
    &&& !occurs((p.body + middle_delimiter(boundary)).drop_last(), middle_delimiter(boundary))
}

proof fn lemma_feed_one(f: Framing, boundary: Seq<u8>, x: u8)
    ensures
        feed(f, boundary, seq![x]) == step(f, boundary, x),
{
    let s = seq![x];
    assert(s.drop_last() =~= Seq::<u8>::empty());
    assert(feed(f, boundary, s.drop_last()) == f);
}

proof fn lemma_feed_two(f: Framing, boundary: Seq<u8>, x: u8, y: u8)
    ensures
        feed(f, boundary, seq![x, y]) == step(step(f, boundary, x), boundary, y),
{
    let s = seq![x, y];
    assert(s.drop_last() =~= seq![x]);
    lemma_feed_one(f, boundary, x);
}

proof fn lemma_feed_push(f: Framing, boundary: Seq<u8>, bytes: Seq<u8>, c: u8)
    ensures
        feed(f, boundary, bytes.push(c)) == step(feed(f, boundary, bytes), boundary, c),
{
    assert(bytes.push(c).drop_last() =~= bytes);
}

/// The opening delimiter leads from the start into the headers of the first
/// part, and all of it is taken.
pub proof fn lemma_first_delimiter(boundary: Seq<u8>)
    ensures
        accepts_all(start(), boundary, first_delimiter(boundary)),
        feed(start(), boundary, first_delimiter(boundary)) == (Framing {
            phase: MultipartParserState::Header,
            ..start()
        }),
{
    let first = first_delimiter(boundary);
    lemma_first_prefix(boundary, first.len() - 1);
    let head = first.take(first.len() - 1);
    assert(head.push(first.last()) =~= first);
    assert(first.drop_last() =~= head);
}

proof fn lemma_first_prefix(boundary: Seq<u8>, k: int)
    requires
        0 <= k < first_delimiter(boundary).len(),
    ensures
        accepts_all(start(), boundary, first_delimiter(boundary).take(k)),
        feed(start(), boundary, first_delimiter(boundary).take(k)) == (Framing {
            cp: k,
            ..start()
        }),
    decreases k,
{
    let first = first_delimiter(boundary);
    if k > 0 {
        lemma_first_prefix(boundary, k - 1);
        assert(first.take(k).drop_last() =~= first.take(k - 1));
        assert(first.take(k).last() == first[k - 1]);
    }
}

/// The framing after the bytes `l` of a header line without line end, read
/// from `f`, where `f` awaits a header line.
pub open spec fn scan(f: Framing, l: Seq<u8>) -> Framing {
    if l.len() == 0 {
        f
    } else if f.phase is PostHeader && l.len() == 1 && l[0] == CR {
        Framing { cp: 1, ..f }
    } else if l.last() == CR {
        Framing { phase: MultipartParserState::Header, cp: 1, line: l.drop_last(), ..f }
    } else {
        Framing { phase: MultipartParserState::Header, cp: 0, line: l, ..f }
    }
}

/// Whether `f` awaits a header line.
pub open spec fn awaits_line(f: Framing) -> bool {
    &&& f.phase is Header || f.phase is PostHeader
    &&& f.cp == 0
    &&& f.line.len() == 0
}

proof fn lemma_scan(f: Framing, boundary: Seq<u8>, l: Seq<u8>)
    requires
        awaits_line(f),
        !occurs(l, crlf()),
    ensures
        feed(f, boundary, l) == scan(f, l),
    decreases l.len(),
{
    if l.len() > 0 {
        let p = l.drop_last();
        let c = l.last();
        if occurs(p, crlf()) {
            assert(p =~= l.subrange(0, l.len() - 1));
            lemma_occurs_in_stretch(l, 0, l.len() - 1, crlf());
        }
        lemma_scan(f, boundary, p);
        if p.len() > 0 && p.last() == CR {
            if c == LF {
                assert(l.subrange(l.len() - 2, l.len() - 2 + 2) =~= crlf());
                assert(occurs_at(l, crlf(), l.len() - 2));
            }
        }
        let g = scan(f, p);
        let h = step(g, boundary, c);
        assert(f.line =~= Seq::<u8>::empty());
        if p.len() == 0 {
            assert(l =~= seq![c]);
            if c != CR {
                assert(f.line.push(c) =~= l);
            } else {
                assert(l.drop_last() =~= f.line);
            }
        } else if f.phase is PostHeader && p.len() == 1 && p[0] == CR {
            assert(f.line.push(CR) =~= p);
            if c != CR {
                assert(p.push(c) =~= l);
            }
        } else if p.last() == CR {
            assert(p.drop_last().push(CR) =~= p);
            if c != CR {
                assert(p.push(c) =~= l);
            }
        } else {
            if c != CR {
                assert(p.push(c) =~= l);
            }
        }
        assert(h == scan(f, l));
    }
}

/// A header line with its line end leads from a framing that awaits a
/// header line to one that awaits the next, with the line among its lines.
pub proof fn lemma_header_line(f: Framing, boundary: Seq<u8>, l: Seq<u8>)
    requires
        awaits_line(f),
        !occurs(l, crlf()),
        f.phase is PostHeader ==> l.len() > 0,
    ensures
        feed(f, boundary, l + crlf()) == (Framing {
            phase: MultipartParserState::PostHeader,
            cp: 0,
            line: Seq::empty(),
            lines: finish_line(f.lines, l),
            ..f
        }),
{
    lemma_scan(f, boundary, l);
    lemma_feed_concat(f, boundary, l, crlf());
    let g = scan(f, l);
    assert(crlf() =~= seq![CR, LF]);
    lemma_feed_two(g, boundary, CR, LF);
    assert(f.line =~= Seq::<u8>::empty());
    if l.len() == 0 {
        assert(l =~= f.line);
    } else if f.phase is PostHeader && l.len() == 1 && l[0] == CR {
        assert(f.line.push(CR) =~= l);
    } else if l.last() == CR {
        assert(l.drop_last().push(CR) =~= l);
    }
}

/// Whether `f` stands at the beginning of the headers of a part.
pub open spec fn at_headers(f: Framing) -> bool {
    &&& f.phase is Header
    &&& f.cp == 0
    &&& f.line.len() == 0
    &&& f.lines.len() == 0
    &&& f.body.len() == 0
}

/// The header lines of a part lead from the beginning of the headers to a
/// framing that awaits the next line and holds the lines.
pub proof fn lemma_header_lines(f: Framing, boundary: Seq<u8>, lines: Seq<Seq<u8>>)
    requires
        at_headers(f),
        lines.len() >= 1,
        forall|i: int| 0 <= i < lines.len() ==> !occurs(#[trigger] lines[i], crlf()),
        forall|i: int| 1 <= i < lines.len() ==> (#[trigger] lines[i]).len() > 0,
    ensures
        feed(f, boundary, lines_bytes(lines)) == (Framing {
            phase: MultipartParserState::PostHeader,
            lines: decoded(lines),
            ..f
        }),
    decreases lines.len(),
{
    let front = lines.drop_last();
    let last = lines.last();
    assert(f.lines =~= Seq::<Seq<char>>::empty());
    assert(f.line =~= Seq::<u8>::empty());
    if lines.len() == 1 {
        assert(lines_bytes(front) =~= Seq::<u8>::empty());
        assert(lines_bytes(lines) =~= last + crlf());
        assert(decoded(front) =~= f.lines);
        lemma_header_line(f, boundary, last);
    } else {
        assert forall|i: int| 0 <= i < front.len() implies !occurs(
            #[trigger] front[i],
            crlf(),
        ) by {
            assert(front[i] == lines[i]);
        }
        assert forall|i: int| 1 <= i < front.len() implies (#[trigger] front[i]).len() > 0 by {
            assert(front[i] == lines[i]);
        }
        lemma_header_lines(f, boundary, front);
        let g = feed(f, boundary, lines_bytes(front));
        lemma_feed_concat(f, boundary, lines_bytes(front), last + crlf());
        assert(lines[lines.len() - 1] == last);
        lemma_header_line(g, boundary, last);
    }
}

/// The bytes of a body and of the delimiter after it lead from the
/// beginning of the body to the end of the part: the part is among the
/// parts, with the body as it was sent.
pub proof fn lemma_body(f: Framing, boundary: Seq<u8>, body: Seq<u8>)
    requires
        f.phase is Content,
        f.body.len() == 0,
        !occurs((body + middle_delimiter(boundary)).drop_last(), middle_delimiter(boundary)),
    ensures
        feed(f, boundary, body + middle_delimiter(boundary)) == (Framing {
            phase: MultipartParserState::PostBoundary,
            cp: 0,
            lines: Seq::empty(),
            body: Seq::empty(),
            parts: f.parts.push(Part { lines: f.lines, body }),
            ..f
        }),
{
    let middle = middle_delimiter(boundary);
    let all = body + middle;
    let head = all.drop_last();
    lemma_body_prefix(f, boundary, body, head.len() as int);
    assert(head.take(head.len() as int) =~= head);
    assert(all.take(head.len() as int) =~= head);
    let g = feed(f, boundary, head);
    assert(head.push(all.last()) =~= all);
    lemma_feed_push(f, boundary, head, all.last());
    assert(f.body =~= Seq::<u8>::empty());
    assert(g.body.push(all.last()) =~= all);
    assert(all.subrange(all.len() - middle.len(), all.len() as int) =~= middle);
    assert(middle.take(middle.len() as int) =~= middle);
    assert(ends_with(all, middle));
    assert(all.take(all.len() - middle.len()) =~= body);
}

proof fn lemma_body_prefix(f: Framing, boundary: Seq<u8>, body: Seq<u8>, k: int)
    requires
        f.phase is Content,
        f.body.len() == 0,
        !occurs((body + middle_delimiter(boundary)).drop_last(), middle_delimiter(boundary)),
        0 <= k < (body + middle_delimiter(boundary)).len(),
    ensures
        feed(f, boundary, (body + middle_delimiter(boundary)).take(k)) == (Framing {
            cp: if k == 0 {
                f.cp
            } else {
                overlap((body + middle_delimiter(boundary)).take(k), middle_delimiter(boundary))
            },
            body: (body + middle_delimiter(boundary)).take(k),
            ..f
        }),
    decreases k,
{
    let middle = middle_delimiter(boundary);
    let all = body + middle;
    let w = all.take(k);
    assert(f.body =~= Seq::<u8>::empty());
    if k == 0 {
        assert(w =~= f.body);
    } else {
        lemma_body_prefix(f, boundary, body, k - 1);
        let p = all.take(k - 1);
        let c = all[k - 1];
        let g = feed(f, boundary, p);
        assert(p.push(c) =~= w);
        lemma_feed_push(f, boundary, p, c);
        assert(g.phase is Content);
        assert(g.body == p);
        lemma_not_yet(boundary, body, k);
        assert(step(g, boundary, c) == crate::framing::step_content(g, boundary, c));
    }
}

/// No beginning of a body and its delimiter ends with the delimiter but the
/// whole.
proof fn lemma_not_yet(boundary: Seq<u8>, body: Seq<u8>, k: int)
    requires
        !occurs((body + middle_delimiter(boundary)).drop_last(), middle_delimiter(boundary)),
        0 <= k < (body + middle_delimiter(boundary)).len(),
    ensures
        !ends_with((body + middle_delimiter(boundary)).take(k), middle_delimiter(boundary)),
{
    let middle = middle_delimiter(boundary);
    let all = body + middle;
    let w = all.take(k);
    if ends_with(w, middle) {
        assert(middle.take(middle.len() as int) =~= middle);
        assert(occurs_at(w, middle, w.len() - middle.len()));
        assert(w =~= all.drop_last().subrange(0, k));
        lemma_occurs_in_stretch(all.drop_last(), 0, k, middle);
    }
}

/// Whether `f` stands after the delimiter that ended a part.
pub open spec fn after_delimiter(f: Framing) -> bool {
    &&& f.phase is PostBoundary
    &&& f.cp == 0
    &&& f.line.len() == 0
    &&& f.lines.len() == 0
    &&& f.body.len() == 0
}

/// A part on the wire leads from the beginning of its headers to the end of
/// the part, and the part that was sent is the last among the parts.
pub proof fn lemma_part(f: Framing, boundary: Seq<u8>, p: WirePart)
    requires
        at_headers(f),
        well_formed(p, boundary),
    ensures
        feed(f, boundary, part_bytes(p, boundary)) == (Framing {
            phase: MultipartParserState::PostBoundary,
            parts: f.parts.push(read_part(p)),
            ..f
        }),
        after_delimiter(feed(f, boundary, part_bytes(p, boundary))),
{
    let middle = middle_delimiter(boundary);
    lemma_header_lines(f, boundary, p.lines);
    let g = feed(f, boundary, lines_bytes(p.lines));
    lemma_feed_concat(f, boundary, lines_bytes(p.lines), crlf());
    assert(crlf() =~= seq![CR, LF]);
    lemma_feed_two(g, boundary, CR, LF);
    let h = feed(f, boundary, lines_bytes(p.lines) + crlf());
    assert(f.body =~= Seq::<u8>::empty());
    assert(f.lines =~= Seq::<Seq<char>>::empty());
    assert(f.line =~= Seq::<u8>::empty());
    assert(h == (Framing {
        phase: MultipartParserState::Content,
        lines: decoded(p.lines),
        body: Seq::empty(),
        ..f
    }));
    lemma_feed_concat(f, boundary, lines_bytes(p.lines) + crlf(), p.body + middle);
    lemma_body(h, boundary, p.body);
}

/// The parts that were sent lead from the start to the end of the last of
/// them, and they are the parts that the framing holds.
pub proof fn lemma_parts(boundary: Seq<u8>, parts: Seq<WirePart>)
    requires
        parts.len() >= 1,
        forall|i: int| 0 <= i < parts.len() ==> well_formed(#[trigger] parts[i], boundary),
    ensures
        feed(start(), boundary, first_delimiter(boundary) + parts_bytes(parts, boundary)) == (
        Framing {
            phase: MultipartParserState::PostBoundary,
            parts: read_parts(parts),
            ..start()
        }),
    decreases parts.len(),
{
    let first = first_delimiter(boundary);
    let last = parts.last();
    assert(parts[parts.len() - 1] == last);
    lemma_first_delimiter(boundary);
    if parts.len() == 1 {
        let h = feed(start(), boundary, first);
        lemma_feed_concat(start(), boundary, first, part_bytes(last, boundary));
        lemma_part(h, boundary, last);
        assert(h.parts.push(read_part(last)) =~= read_parts(parts));
    } else {
        let front = parts.drop_last();
        assert forall|i: int| 0 <= i < front.len() implies well_formed(
            #[trigger] front[i],
            boundary,
        ) by {
            assert(front[i] == parts[i]);
        }
        lemma_parts(boundary, front);
        let g = feed(start(), boundary, first + parts_bytes(front, boundary));
        let rest = crlf() + part_bytes(last, boundary);
        assert(first + parts_bytes(parts, boundary) =~= (first + parts_bytes(front, boundary))
            + rest);
        lemma_feed_concat(start(), boundary, first + parts_bytes(front, boundary), rest);
        lemma_feed_concat(g, boundary, crlf(), part_bytes(last, boundary));
        assert(crlf() =~= seq![CR, LF]);
        lemma_feed_two(g, boundary, CR, LF);
        let h = feed(g, boundary, crlf());
        assert(h == (Framing { phase: MultipartParserState::Header, ..g }));
        lemma_part(h, boundary, last);
        assert(h.parts.push(read_part(last)) =~= read_parts(parts));
    }
}

/// The framing reads from the stream that parts make the very parts that
/// made it: as many parts, each with its header lines and with its body
/// byte for byte, whatever the body holds but the delimiter; and it takes
/// the whole stream and stands at its end.
pub proof fn law_stream_gives_its_parts(boundary: Seq<u8>, parts: Seq<WirePart>)
    requires
        parts.len() >= 1,
        forall|i: int| 0 <= i < parts.len() ==> well_formed(#[trigger] parts[i], boundary),
    ensures
        accepts_all(start(), boundary, stream_bytes(parts, boundary)),
        feed(start(), boundary, stream_bytes(parts, boundary)).phase is Finished,
        feed(start(), boundary, stream_bytes(parts, boundary)).parts == read_parts(parts),
{
    let first = first_delimiter(boundary);
    let body = parts_bytes(parts, boundary);
    lemma_parts(boundary, parts);
    let g = feed(start(), boundary, first + body);
    lemma_feed_concat(start(), boundary, first + body, prelude());
    assert(prelude() =~= seq![DASH, DASH]);
    lemma_feed_two(g, boundary, DASH, DASH);
    lemma_first_delimiter(boundary);
    lemma_feed_concat(start(), boundary, first, body + prelude());
    assert(first + (body + prelude()) =~= stream_bytes(parts, boundary));
    lemma_past_first(feed(start(), boundary, first), boundary, body + prelude());
}

} // verus!
