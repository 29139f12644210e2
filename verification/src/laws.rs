//! What holds of the parser and of the binding for all streams.

use crate::framing::{
    accepts_all, feed, lemma_feed_inv, lemma_start_inv, middle_delimiter, start, Framing,
};
use crate::header::headers_model;
use crate::matcher::{lemma_occurs_in_stretch, lemma_settled_without, occurs, settled};
use crate::multipart_parser::{
    agrees, concat, delivery_ok, justified, log_extends, missing_after, opened_names,
    part_agrees, part_calls, part_name, sealed, told_in, without, Call, MultipartParser,
    PartTrace,
};
use crate::record::{
    field_for, flushed_into, gathered, lemma_field_for, lemma_gathered, BaseKind, FieldModel,
    Record, RecordModel, ScalarModel, ValueModel,
};
use crate::ProcessContent;
use crate::wire::{law_stream_gives_its_parts, read_parts, stream_bytes, well_formed, WirePart};
use crate::{MultipartParserTarget, MultipartParserTargetGenerated};
use std::io::Error as IOError;
use vstd::prelude::*;

verus! {

/// The framing after the chunks `chunks`, fed one after the other.
pub open spec fn feed_chunks(f: Framing, boundary: Seq<u8>, chunks: Seq<Seq<u8>>) -> Framing
    decreases chunks.len(),
{
    if chunks.len() == 0 {
        f
    } else {
        feed(feed_chunks(f, boundary, chunks.drop_last()), boundary, chunks.last())
    }
}

/// Whether the framing takes every byte of the chunks `chunks`, fed one
/// after the other.
pub open spec fn accepts_chunks(f: Framing, boundary: Seq<u8>, chunks: Seq<Seq<u8>>) -> bool
    decreases chunks.len(),
{
    chunks.len() == 0 || (accepts_chunks(f, boundary, chunks.drop_last()) && accepts_all(
        feed_chunks(f, boundary, chunks.drop_last()),
        boundary,
        chunks.last(),
    ))
}

/// However a stream is cut into chunks, the chunks lead the framing where
/// the whole stream leads it: to the same phase, the same header lines and
/// the same parts with the same bodies. And the chunks are taken exactly
/// where the whole stream is.
pub proof fn law_chunks_as_whole(f: Framing, boundary: Seq<u8>, chunks: Seq<Seq<u8>>)
    ensures
        feed_chunks(f, boundary, chunks) == feed(f, boundary, concat(chunks)),
        accepts_chunks(f, boundary, chunks) == accepts_all(f, boundary, concat(chunks)),
    decreases chunks.len(),
{
    if chunks.len() > 0 {
        law_chunks_as_whole(f, boundary, chunks.drop_last());
        crate::framing::lemma_feed_concat(
            f,
            boundary,
            concat(chunks.drop_last()),
            chunks.last(),
        );
    }
}

/// Every run is a stretch of the runs put one after the other.
pub proof fn lemma_run_in_concat(runs: Seq<Seq<u8>>, j: int)
    requires
        0 <= j < runs.len(),
    ensures
        concat(runs.take(j)).len() + runs[j].len() <= concat(runs).len(),
        concat(runs).subrange(
            concat(runs.take(j)).len() as int,
            (concat(runs.take(j)).len() + runs[j].len()) as int,
        ) == runs[j],
    decreases runs.len(),
{
    let front = runs.drop_last();
    if j == runs.len() - 1 {
        assert(runs.take(j) =~= front);
        assert(concat(runs).subrange(
            concat(front).len() as int,
            (concat(front).len() + runs[j].len()) as int,
        ) =~= runs[j]);
    } else {
        lemma_run_in_concat(front, j);
        assert(front.take(j) =~= runs.take(j));
        assert(concat(runs).subrange(
            concat(runs.take(j)).len() as int,
            (concat(runs.take(j)).len() + runs[j].len()) as int,
        ) =~= concat(front).subrange(
            concat(runs.take(j)).len() as int,
            (concat(runs.take(j)).len() + runs[j].len()) as int,
        ));
    }
}

/// No call of `write` hands a sink the delimiter: where the bytes given to
/// a sink are a beginning of a body, and the body does not hold the
/// delimiter, none of the runs holds it.
pub proof fn law_no_delimiter_in_writes(t: PartTrace, body: Seq<u8>, pat: Seq<u8>, j: int)
    requires
        delivery_ok(t, concat(t.writes), body),
        !occurs(body, pat),
        0 <= j < t.writes.len(),
    ensures
        !occurs(t.writes[j], pat),
{
    let given = concat(t.writes);
    lemma_run_in_concat(t.writes, j);
    let from = concat(t.writes.take(j)).len() as int;
    let to = from + t.writes[j].len();
    if occurs(t.writes[j], pat) {
        lemma_occurs_in_stretch(given, from, to, pat);
        assert(t.opened);
        assert(given =~= body.subrange(0, given.len() as int));
        lemma_occurs_in_stretch(body, 0, given.len() as int, pat);
    }
}

/// A sink is given no more than the body of its part, and no more than its
/// size limit where the rest of the body was dropped.
pub proof fn law_delivered_within_bounds(t: PartTrace, body: Seq<u8>)
    requires
        delivery_ok(t, concat(t.writes), body),
    ensures
        concat(t.writes).len() <= body.len(),
        t.cut ==> t.limit is Some && concat(t.writes).len() == t.limit->0,
        !t.cut && t.opened ==> concat(t.writes) == body,
{
}

/// A part with an empty body gives its sink no call of `write`: the sink is
/// opened and flushed and nothing else.
pub proof fn law_empty_body_without_write(t: PartTrace, body: Seq<u8>)
    requires
        sealed(t, body),
        body.len() == 0,
    ensures
        t.writes.len() == 0,
        t.flushed == t.opened,
{
    if t.writes.len() > 0 {
        let last = t.writes.last();
        assert(last.len() > 0);
        assert(concat(t.writes).len() == concat(t.writes.drop_last()).len() + last.len());
    }
}

/// A name is left in `without(names, name)` exactly where it is in `names`
/// and is not `name`.
pub proof fn lemma_without(names: Seq<Seq<char>>, name: Seq<char>, n: Seq<char>)
    ensures
        without(names, name).contains(n) <==> names.contains(n) && n != name,
    decreases names.len(),
{
    if names.len() > 0 {
        let front = names.drop_last();
        lemma_without(front, name, n);
        let rest = without(front, name);
        if names.contains(n) {
            let i = choose|i: int| 0 <= i < names.len() && names[i] == n;
            if i < front.len() {
                assert(front[i] == n);
            }
        }
        if front.contains(n) {
            let i = choose|i: int| 0 <= i < front.len() && front[i] == n;
            assert(names[i] == n);
        }
        if names.last() != name {
            if rest.push(names.last()).contains(n) {
                let i = choose|i: int|
                    0 <= i < rest.push(names.last()).len() && rest.push(names.last())[i] == n;
                if i < rest.len() {
                    assert(rest[i] == n);
                }
            }
            if rest.contains(n) {
                let i = choose|i: int| 0 <= i < rest.len() && rest[i] == n;
                assert(rest.push(names.last())[i] == n);
            }
            assert(rest.push(names.last())[rest.len() as int] == names.last());
        }
        assert(names[names.len() - 1] == names.last());
    }
}

/// The required names that are missing when the stream has ended are
/// exactly the required names for which no sink was opened.
pub proof fn law_missing_is_complement(
    required: Seq<Seq<char>>,
    seen: Seq<Seq<char>>,
    n: Seq<char>,
)
    ensures
        missing_after(required, seen).contains(n) <==> required.contains(n) && !seen.contains(n),
    decreases seen.len(),
{
    if seen.len() > 0 {
        let front = seen.drop_last();
        law_missing_is_complement(required, front, n);
        lemma_without(missing_after(required, front), seen.last(), n);
        if seen.contains(n) {
            let i = choose|i: int| 0 <= i < seen.len() && seen[i] == n;
            if i < front.len() {
                assert(front[i] == n);
            }
        }
        if front.contains(n) {
            let i = choose|i: int| 0 <= i < front.len() && front[i] == n;
            assert(seen[i] == n);
        }
        assert(seen[seen.len() - 1] == seen.last());
    }
}

/// The required names that are missing only become fewer: a name that is
/// missing later was missing before.
pub proof fn law_missing_shrinks(
    required: Seq<Seq<char>>,
    seen: Seq<Seq<char>>,
    name: Seq<char>,
    n: Seq<char>,
)
    ensures
        missing_after(required, seen.push(name)).contains(n) ==> missing_after(
            required,
            seen,
        ).contains(n),
{
    assert(seen.push(name).drop_last() =~= seen);
    lemma_without(missing_after(required, seen), name, n);
}

/// A field for bytes holds, after its sink was opened, given the runs
/// `runs` and flushed, the runs one after the other.
pub proof fn law_bytes_field_holds_the_writes(
    record: RecordModel,
    field: FieldModel,
    before: Seq<u8>,
    done: bool,
    runs: Seq<Seq<u8>>,
)
    requires
        field.target_kind.base == BaseKind::Bytes,
        !field.target_kind.optional,
        field.field_id < record.values.len(),
        done || before.len() == 0,
    ensures
        flushed_into(
            record,
            field,
            gathered(
                if done {
                    Seq::empty()
                } else {
                    before
                },
                runs,
            ),
        ).values[field.field_id as int] == ValueModel::Plain(ScalarModel::Bytes(concat(runs))),
{
    lemma_gathered(before, done, runs);
}

/// Whatever bytes a stream holds, no body that the framing reads from it
/// holds the delimiter, neither the body of a part that has ended nor what
/// has been read of the body of the part in progress.
pub proof fn law_bodies_hold_no_delimiter(boundary: Seq<u8>, bytes: Seq<u8>, i: int)
    requires
        0 <= i < feed(start(), boundary, bytes).parts.len(),
    ensures
        !occurs(feed(start(), boundary, bytes).parts[i].body, middle_delimiter(boundary)),
        feed(start(), boundary, bytes).phase is Content ==> !occurs(
            feed(start(), boundary, bytes).body,
            middle_delimiter(boundary),
        ),
{
    lemma_start_inv(boundary);
    lemma_feed_inv(start(), boundary, bytes);
}

/// At any time, no call of `write` has handed a sink the delimiter.
pub proof fn law_writes_hold_no_delimiter<T: MultipartParserTarget + MultipartParserTargetGenerated>(
    parser: &MultipartParser<T>,
    i: int,
    j: int,
)
    requires
        parser.wf(),
        0 <= i < parser.trace().len(),
        0 <= j < parser.trace()[i].writes.len(),
    ensures
        !occurs(parser.trace()[i].writes[j], middle_delimiter(parser.boundary())),
{
    let middle = middle_delimiter(parser.boundary());
    let f = parser.framing();
    parser.lemma_wf();
    if i < f.parts.len() {
        assert(sealed(parser.trace()[i], f.parts[i].body));
        law_no_delimiter_in_writes(parser.trace()[i], f.parts[i].body, middle, j);
    } else {
        assert(parser.trace()[i] == parser.trace().last());
        lemma_settled_without(f.body, middle);
        law_no_delimiter_in_writes(parser.trace()[i], settled(f.body, middle), middle, j);
    }
}

/// At any time, the sink of a part that has ended has been given the whole
/// body of the part, or, where the rest was dropped, the body up to its size
/// limit; and it was flushed.
pub proof fn law_sink_gets_the_body<T: MultipartParserTarget + MultipartParserTargetGenerated>(
    parser: &MultipartParser<T>,
    i: int,
)
    requires
        parser.wf(),
        0 <= i < parser.framing().parts.len(),
        parser.trace()[i].opened,
    ensures
        parser.trace()[i].flushed,
        concat(parser.trace()[i].writes) == if parser.trace()[i].cut {
            parser.framing().parts[i].body.take(parser.trace()[i].limit->0 as int)
        } else {
            parser.framing().parts[i].body
        },
        parser.trace()[i].cut ==> concat(parser.trace()[i].writes).len()
            == parser.trace()[i].limit->0,
{
    parser.lemma_wf();
    assert(sealed(parser.trace()[i], parser.framing().parts[i].body));
}

/// At any time, the bytes at the end of what has been read of a body that
/// may begin the delimiter have not been written to the sink: the sink of
/// the part in progress has been given what has been read but for those
/// bytes.
pub proof fn law_beginning_of_delimiter_is_held_back<
    T: MultipartParserTarget + MultipartParserTargetGenerated,
>(parser: &MultipartParser<T>)
    requires
        parser.wf(),
        parser.framing().phase is Content,
        parser.trace().last().opened,
        !parser.trace().last().cut,
    ensures
        concat(parser.trace().last().writes) == settled(
            parser.framing().body,
            middle_delimiter(parser.boundary()),
        ),
        !parser.trace().last().flushed,
{
    parser.lemma_wf();
}

/// At any time, the required names that are missing are exactly the
/// required names for which no sink has been opened.
pub proof fn law_missing_names<T: MultipartParserTarget + MultipartParserTargetGenerated>(
    parser: &MultipartParser<T>,
    n: Seq<char>,
)
    requires
        parser.wf(),
    ensures
        parser.missing().contains(n) <==> parser.required().contains(n) && !opened_names(
            parser.trace(),
        ).contains(n),
{
    parser.lemma_wf();
    law_missing_is_complement(parser.required(), opened_names(parser.trace()), n);
}

/// How a stream was cut into chunks does not show in what the sinks got:
/// where two parsers have read the same part, and the target selected a
/// sink with the same limit and gave the same answer for it, the two sinks
/// were opened, given the same bytes and flushed alike.
pub proof fn law_chunking_does_not_show<T: MultipartParserTarget + MultipartParserTargetGenerated>(
    one: &MultipartParser<T>,
    other: &MultipartParser<T>,
    i: int,
)
    requires
        one.wf(),
        other.wf(),
        0 <= i < one.framing().parts.len(),
        0 <= i < other.framing().parts.len(),
        one.framing().parts[i] == other.framing().parts[i],
        one.trace()[i].opened == other.trace()[i].opened,
        one.trace()[i].limit == other.trace()[i].limit,
        one.trace()[i].cut == other.trace()[i].cut,
    ensures
        one.trace()[i].name == other.trace()[i].name,
        one.trace()[i].refused == other.trace()[i].refused,
        concat(one.trace()[i].writes) == concat(other.trace()[i].writes),
        one.trace()[i].flushed == other.trace()[i].flushed,
        one.trace()[i].told == other.trace()[i].told,
{
    one.lemma_wf();
    other.lemma_wf();
    assert(sealed(one.trace()[i], one.framing().parts[i].body));
    assert(sealed(other.trace()[i], other.framing().parts[i].body));
    if !one.trace()[i].opened {
        assert(concat(one.trace()[i].writes) =~= concat(other.trace()[i].writes));
    }
}

/// A parser that has read, in chunks of whatever size, the stream that
/// parts make holds those parts, and every sink that was opened for one of
/// them and not cut short was given, in its calls of `write` taken together,
/// the body of the part byte for byte, and was flushed.
pub proof fn law_sinks_get_the_exact_bodies<
    T: MultipartParserTarget + MultipartParserTargetGenerated,
>(parser: &MultipartParser<T>, parts: Seq<WirePart>, i: int)
    requires
        parser.wf(),
        parts.len() >= 1,
        forall|k: int| 0 <= k < parts.len() ==> well_formed(#[trigger] parts[k], parser.boundary()),
        parser.framing() == feed(
            start(),
            parser.boundary(),
            stream_bytes(parts, parser.boundary()),
        ),
        0 <= i < parts.len(),
    ensures
        parser.framing().phase is Finished,
        parser.framing().parts == read_parts(parts),
        parser.trace().len() == parts.len(),
        parser.trace()[i].opened && !parser.trace()[i].cut ==> concat(parser.trace()[i].writes)
            == parts[i].body && parser.trace()[i].flushed,
        parser.trace()[i].opened && parts[i].body.len() == 0 ==> parser.trace()[i].writes.len()
            == 0,
{
    law_stream_gives_its_parts(parser.boundary(), parts);
    parser.lemma_wf();
    assert(read_parts(parts)[i].body == parts[i].body);
    assert(sealed(parser.trace()[i], parser.framing().parts[i].body));
    if parts[i].body.len() == 0 {
        law_empty_body_without_write(parser.trace()[i], parts[i].body);
    }
}

/// A record never answers an error with an `Err`: it keeps the error and
/// answers as it was set to.
pub proof fn law_record_keeps_errors(told: Call<Record>)
    requires
        told is Told,
        justified(told),
    ensures
        told->answer == Ok::<crate::OnError, std::io::Error>(told->before@.answer),
        told->after@ == (RecordModel {
            errors: told->before@.errors.push(told->error),
            ..told->before@
        }),
{
}

/// A record that was asked for the sink of a part whose name one of its
/// fields bears, and whose sink was then opened, given `taken` and flushed,
/// is after the flush what it was before, with the bytes `taken` converted to
/// the kind of the first such field and stored in it, or with one more error
/// where they do not convert.
pub proof fn law_record_is_filled(asked: Call<Record>, flushed: Call<Record>, taken: Seq<u8>)
    requires
        asked is Asked,
        justified(asked),
        flushed is Flushed,
        justified(flushed),
        asked->selected == Some(flushed->origin),
        flushed->sink.holds(flushed->origin, flushed->with, taken),
    ensures
        part_name(asked->headers@) is Some,
        field_for(asked->target@.fields, part_name(asked->headers@)->0) is Some,
        flushed->to@ == flushed_into(
            flushed->from@,
            asked->target@.fields[field_for(
                asked->target@.fields,
                part_name(asked->headers@)->0,
            )->0],
            taken,
        ),
{
    let origin = flushed->origin;
    assert(origin.processor().raw() + taken =~= taken);
}

/// A record that was asked for the sink of a part without name, or with a
/// name that none of its fields bears, selects none.
pub proof fn law_record_passes_over(asked: Call<Record>)
    requires
        asked is Asked,
        justified(asked),
        part_name(asked->headers@) matches Some(name) ==> field_for(asked->target@.fields, name)
            is None,
    ensures
        asked->selected is None,
{
}

/// Where the parser made no call, the target is as it was: bytes of the
/// opening delimiter, of header lines, of the body of a part without sink,
/// and bytes after the end of the stream leave it alone.
pub proof fn law_no_call_no_change<T: MultipartParserTargetGenerated>(
    log: Seq<Call<T>>,
    first: T,
    last: T,
)
    requires
        log_extends(log, log, first, last),
    ensures
        first == last,
{
    assert(log.skip(log.len() as int) =~= Seq::<Call<T>>::empty());
}

/// With a record for its target the parser never ends a call of `write` on
/// the answer to an error: whatever calls it made told of an `Ok`.
pub proof fn law_record_never_ends_the_stream(
    earlier: Seq<Call<Record>>,
    later: Seq<Call<Record>>,
    r: Result<(), IOError>,
)
    requires
        told_in(earlier, later, r),
        forall|i: int| 0 <= i < later.len() ==> justified(#[trigger] later[i]),
    ensures
        r is Ok,
{
    if r is Err {
        assert(justified(later.last()));
    }
}

/// How many calls the parser made for the parts before part `i`.
pub open spec fn calls_before(trace: Seq<PartTrace>, i: int) -> int
    decreases i,
{
    if i <= 0 {
        0
    } else {
        calls_before(trace, i - 1) + part_calls(trace[i - 1])
    }
}

proof fn lemma_calls_before_front(trace: Seq<PartTrace>, i: int)
    requires
        0 <= i < trace.len(),
    ensures
        calls_before(trace.drop_last(), i) == calls_before(trace, i),
    decreases i,
{
    if i > 0 {
        lemma_calls_before_front(trace, i - 1);
        assert(trace.drop_last()[i - 1] == trace[i - 1]);
    }
}

proof fn lemma_calls_total<T: MultipartParserTargetGenerated>(
    calls: Seq<Call<T>>,
    trace: Seq<PartTrace>,
)
    requires
        agrees(calls, trace),
    ensures
        calls.len() == calls_before(trace, trace.len() as int),
    decreases trace.len(),
{
    if trace.len() > 0 {
        let n = part_calls(trace.last());
        let front = calls.take(calls.len() - n);
        let k = trace.len() - 1;
        lemma_calls_total(front, trace.drop_last());
        lemma_calls_before_front(trace, k);
        assert(trace[k] == trace.last());
        assert(front.len() == calls.len() - n);
        assert(trace.drop_last().len() == k);
        assert(calls_before(trace, k + 1) == calls_before(trace, k) + part_calls(trace[k]));
    }
}

/// The calls of the parser fall into the calls of its parts, in the order of
/// the parts: the calls for part `i` stand after those for the parts before
/// it and are the calls that the trace of part `i` tells of.
pub proof fn law_calls_of_part<T: MultipartParserTargetGenerated>(
    calls: Seq<Call<T>>,
    trace: Seq<PartTrace>,
    i: int,
)
    requires
        agrees(calls, trace),
        0 <= i < trace.len(),
    ensures
        0 <= calls_before(trace, i),
        calls_before(trace, i) + part_calls(trace[i]) <= calls.len(),
        part_agrees(
            calls.subrange(calls_before(trace, i), calls_before(trace, i) + part_calls(trace[i])),
            trace[i],
        ),
    decreases trace.len(),
{
    let n = part_calls(trace.last());
    let front = calls.take(calls.len() - n);
    lemma_calls_total(calls, trace);
    lemma_calls_total(front, trace.drop_last());
    assert(trace[trace.len() - 1] == trace.last());
    if i == trace.len() - 1 {
        assert(calls.subrange(calls.len() - n, calls.len() as int) =~= calls.skip(
            calls.len() - n,
        ));
    } else {
        law_calls_of_part(front, trace.drop_last(), i);
        lemma_calls_before_front(trace, i);
        assert(trace.drop_last()[i] == trace[i]);
        let from = calls_before(trace, i);
        let to = from + part_calls(trace[i]);
        assert(front.subrange(from, to) =~= calls.subrange(from, to));
    }
}

/// With a record for its target: for a part that has ended, and for which
/// a sink was opened and not cut short, the record was asked for the sink,
/// some field bears the name of the part, and the flush of the sink made of
/// the record what it was before, with the body of the part, byte for byte,
/// converted to the kind of the first such field and stored in it, or with
/// one more error where the body does not convert.
pub proof fn law_record_part_is_filled(parser: &MultipartParser<Record>, i: int)
    requires
        parser.wf(),
        0 <= i < parser.framing().parts.len(),
        parser.trace()[i].opened,
        !parser.trace()[i].cut,
    ensures
        ({
            let part = parser.framing().parts[i];
            let t = parser.trace()[i];
            let at = calls_before(parser.trace(), i);
            let asked = parser.calls()[at];
            let flushed = parser.calls()[at + part_calls(t) - 1];
            let name = part_name(headers_model(part.lines));
            &&& 0 <= at && at + part_calls(t) <= parser.calls().len()
            &&& asked is Asked
            &&& flushed is Flushed
            &&& name is Some
            &&& field_for(asked->target@.fields, name->0) is Some
            &&& flushed->to@ == flushed_into(
                flushed->from@,
                asked->target@.fields[field_for(asked->target@.fields, name->0)->0],
                part.body,
            )
        }),
{
    let part = parser.framing().parts[i];
    let t = parser.trace()[i];
    let calls = parser.calls();
    let at = calls_before(parser.trace(), i);
    parser.lemma_wf();
    law_calls_of_part(calls, parser.trace(), i);
    let mine = calls.subrange(at, at + part_calls(t));
    assert(sealed(t, part.body));
    assert(mine[0] == calls[at]);
    assert(mine.last() == calls[at + part_calls(t) - 1]);
    assert(justified(calls[at]));
    assert(justified(calls[at + part_calls(t) - 1]));
    law_record_is_filled(mine[0], mine.last(), concat(t.writes));
}

} // verus!
