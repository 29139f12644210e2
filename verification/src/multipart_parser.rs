//! The streaming parser.

use crate::boundary_builder::BoundaryBuilder;
use crate::framing::{
    accepts, accepts_all, crlf, feed, first_delimiter, inv, lemma_empty_body, lemma_feed_concat,
    lemma_past_first, lemma_refused, middle_delimiter, prelude, refused_at, start, step, Framing,
    Part,
};
use crate::header::{
    header_param, headers_model, malformed_lines, strings_view, HeaderModel, Headers,
    HeadersBuilder,
};
use crate::record::{error_model, ErrorModel};
use crate::matcher::{
    lemma_ends_with_push, lemma_occurs_push, lemma_overlap, lemma_overlap_step,
    lemma_overlap_unique, lemma_settled_step, lemma_settled_without, next_overlap, occurs,
    overlap, settled, window,
};
use crate::{
    MultipartParseError, MultipartParserTarget, MultipartParserTargetGenerated, OnError,
    ProcessContent,
};
use std::io::Error as IOError;
use vstd::prelude::*;
use vstd::string::{StrSliceExecFns, StringSliceAdditionalSpecFns};

verus! {

/// What the parser takes the next byte for.
#[derive(PartialEq, Eq, Structural, Clone, Copy, Debug)]
pub enum MultipartParserState {
    /// The delimiter that opens the first part.
    BoundaryFirst,
    /// A header line.
    Header,
    /// Another header line, or the end of the headers.
    PostHeader,
    /// The body of a part, up to the next delimiter.
    Content,
    /// Another part, or the end of the stream.
    PostBoundary,
    /// The stream has ended.
    Finished,
}

/// What the parser handed to the sink of one part.
pub struct PartTrace {
    /// The header lines of the part.
    pub lines: Seq<Seq<char>>,
    /// The `name` of the part's `Content-Disposition`.
    pub name: Option<Seq<char>>,
    /// Whether the target was told that a header line of the part is
    /// ill-formed.
    pub refused: bool,
    /// Whether a sink was selected for the part, and opened.
    pub opened: bool,
    /// The name that the sink declared when it was selected.
    pub declared: Seq<char>,
    /// The size limit that the sink declared when it was selected.
    pub limit: Option<usize>,
    /// The bytes of each call of `write`, in the order of the calls.
    pub writes: Seq<Seq<u8>>,
    /// Whether the sink was flushed.
    pub flushed: bool,
    /// Whether the target was told that the body grew beyond the limit.
    pub told: bool,
    /// Whether the rest of the body was dropped after it grew beyond the
    /// limit.
    pub cut: bool,
}

/// The given byte runs, one after the other.
pub open spec fn concat(runs: Seq<Seq<u8>>) -> Seq<u8>
    decreases runs.len(),
{
    if runs.len() == 0 {
        Seq::empty()
    } else {
        concat(runs.drop_last()) + runs.last()
    }
}

/// What holds between the trace of a part, the bytes `given` to its sink and
/// the bytes of its `body`. The sink gets its bytes in runs that are not
/// empty. The target is told that the body grew beyond the limit exactly
/// where the part has a sink with a limit and the body is longer than the
/// limit. The sink gets the whole body, or, where the rest was dropped, the
/// body up to the limit.
pub open spec fn delivery_ok(t: PartTrace, given: Seq<u8>, body: Seq<u8>) -> bool {
    &&& forall|i: int| 0 <= i < t.writes.len() ==> (#[trigger] t.writes[i]).len() > 0
    &&& !t.opened ==> t.writes.len() == 0 && given.len() == 0 && !t.flushed
    &&& t.told <==> t.opened && t.limit is Some && body.len() > t.limit->0
    &&& t.cut ==> t.told
    &&& t.opened ==> given == if t.cut {
        body.take(t.limit->0 as int)
    } else {
        body
    }
}

/// What holds of the trace of a part that has ended with the body `body`.
pub open spec fn sealed(t: PartTrace, body: Seq<u8>) -> bool {
    &&& delivery_ok(t, concat(t.writes), body)
    &&& t.flushed == t.opened
}

/// What holds between the trace of a part and its header lines: the name in
/// the trace is the name that the headers give; the target was told of an
/// ill-formed header line exactly where there is one; and a sink was opened
/// only where there is none.
pub open spec fn follows_headers(t: PartTrace, lines: Seq<Seq<char>>) -> bool {
    &&& t.lines == lines
    &&& t.name == part_name(headers_model(lines))
    &&& t.refused <==> malformed_lines(lines).len() > 0
    &&& t.opened ==> !t.refused
}

/// The trace of a part that has just begun.
pub open spec fn fresh_trace(
    lines: Seq<Seq<char>>,
    refused: bool,
    opened: bool,
    declared: Seq<char>,
    limit: Option<usize>,
) -> PartTrace {
    PartTrace {
        lines,
        name: part_name(headers_model(lines)),
        refused,
        opened,
        declared,
        limit,
        writes: Seq::empty(),
        flushed: false,
        told: false,
        cut: false,
    }
}

/// The trace `b` of a part continues the trace `a` of the same part: what
/// was handed to the sink stays as it was, and more may have followed.
pub open spec fn part_extends(a: PartTrace, b: PartTrace) -> bool {
    &&& b.lines == a.lines
    &&& b.name == a.name
    &&& b.refused == a.refused
    &&& b.opened == a.opened
    &&& b.declared == a.declared
    &&& b.limit == a.limit
    &&& a.writes.len() <= b.writes.len()
    &&& b.writes.take(a.writes.len() as int) == a.writes
    &&& a.told ==> b.told
    &&& a.cut ==> b.cut
    &&& a.flushed ==> b == a
}

/// The traces `b` continue the traces `a`: every part of `a` is continued in
/// `b`, and parts may have followed.
pub open spec fn trace_extends(a: Seq<PartTrace>, b: Seq<PartTrace>) -> bool {
    &&& a.len() <= b.len()
    &&& forall|i: int| 0 <= i < a.len() ==> part_extends(a[i], #[trigger] b[i])
}

/// To continue a trace that continues another is to continue the other.
pub proof fn lemma_part_extends_trans(a: PartTrace, b: PartTrace, c: PartTrace)
    requires
        part_extends(a, b),
        part_extends(b, c),
    ensures
        part_extends(a, c),
{
    assert(c.writes.take(a.writes.len() as int) =~= c.writes.take(b.writes.len() as int).take(
        a.writes.len() as int,
    ));
}

/// A trace continues itself.
pub proof fn lemma_part_extends_refl(a: PartTrace)
    ensures
        part_extends(a, a),
{
    assert(a.writes.take(a.writes.len() as int) =~= a.writes);
}

/// To continue traces that continue others is to continue the others.
pub proof fn lemma_trace_extends_trans(a: Seq<PartTrace>, b: Seq<PartTrace>, c: Seq<PartTrace>)
    requires
        trace_extends(a, b),
        trace_extends(b, c),
    ensures
        trace_extends(a, c),
{
    assert forall|i: int| 0 <= i < a.len() implies part_extends(a[i], #[trigger] c[i]) by {
        assert(part_extends(a[i], b[i]));
        assert(part_extends(b[i], c[i]));
        lemma_part_extends_trans(a[i], b[i], c[i]);
    }
}

/// Traces continue themselves.
pub proof fn lemma_trace_extends_refl(a: Seq<PartTrace>)
    ensures
        trace_extends(a, a),
{
    assert forall|i: int| 0 <= i < a.len() implies part_extends(a[i], #[trigger] a[i]) by {
        assert(a[i].writes.take(a[i].writes.len() as int) =~= a[i].writes);
    }
}

/// The `name` that the headers of a part give it.
pub open spec fn part_name(headers: Map<Seq<char>, HeaderModel>) -> Option<Seq<char>> {
    header_param(headers, "Content-Disposition"@, "name"@)
}

/// A call that the parser made on the target, or on a sink with the target,
/// with what the target was before the call and after it.
pub enum Call<T: MultipartParserTargetGenerated> {
    /// The target was asked for the sink of a part with the headers
    /// `headers`, and selected `sink`.
    Asked { target: T, headers: Headers, selected: Option<T::Sink> },
    /// The target was told the error `error` and gave the answer `answer`.
    Told { before: T, error: ErrorModel, answer: Result<OnError, IOError>, after: T },
    /// The sink `sink`, which the target had selected as `origin`, was
    /// flushed.
    Flushed { origin: T::Sink, sink: T::Sink, with: Headers, from: T, to: T },
}

/// The target before the call.
pub open spec fn call_before<T: MultipartParserTargetGenerated>(c: Call<T>) -> T {
    match c {
        Call::Asked { target, .. } => target,
        Call::Told { before, .. } => before,
        Call::Flushed { from, .. } => from,
    }
}

/// The target after the call.
pub open spec fn call_after<T: MultipartParserTargetGenerated>(c: Call<T>) -> T {
    match c {
        Call::Asked { target, .. } => target,
        Call::Told { after, .. } => after,
        Call::Flushed { to, .. } => to,
    }
}

/// Whether the call did what the target and the sink say of themselves: the
/// target selects the sink, becomes what it became and answers what it
/// answered; the sink makes of the target what the target became.
pub open spec fn justified<T: MultipartParserTargetGenerated>(c: Call<T>) -> bool {
    match c {
        Call::Asked { target, headers, selected } => target.selects(headers, selected),
        Call::Told { before, error, answer, after } => before.tells(error, after, answer),
        Call::Flushed { sink, with, from, to, .. } => sink.flushes(with, from, to),
    }
}

/// Whether the calls lead from the target `first` to the target `last`: each
/// call finds the target as the call before left it.
pub open spec fn linked<T: MultipartParserTargetGenerated>(
    calls: Seq<Call<T>>,
    first: T,
    last: T,
) -> bool
    decreases calls.len(),
{
    if calls.len() == 0 {
        first == last
    } else {
        call_after(calls.last()) == last && linked(
            calls.drop_last(),
            first,
            call_before(calls.last()),
        )
    }
}

/// Whether the target answered the call with an `Err`.
pub open spec fn answered_err<T: MultipartParserTargetGenerated>(c: Call<T>) -> bool {
    c is Told && c->answer is Err
}

/// Whether the answer lets the parser go on with the body: it is `Ok` and
/// not `Skip`.
pub open spec fn goes_on(answer: Result<OnError, IOError>) -> bool {
    answer is Ok && answer->Ok_0 != OnError::Skip
}

/// Whether the later calls `later` are the earlier calls `earlier` and calls
/// after them that lead from the target `first` to the target `last`.
pub open spec fn log_extends<T: MultipartParserTargetGenerated>(
    earlier: Seq<Call<T>>,
    later: Seq<Call<T>>,
    first: T,
    last: T,
) -> bool {
    &&& earlier.len() <= later.len()
    &&& later.take(earlier.len() as int) == earlier
    &&& linked(later.skip(earlier.len() as int), first, last)
}

/// How many calls the parser has made for a part: it asked for the sink or
/// told of an ill-formed header line; it may have told of the size limit;
/// it may have flushed the sink.
pub open spec fn part_calls(t: PartTrace) -> int {
    1 + if t.told {
        1int
    } else {
        0int
    } + if t.flushed {
        1int
    } else {
        0int
    }
}

/// Whether `calls` are the calls that the trace `t` of a part tells of.
///
/// For a part with an ill-formed header line the target was told the first
/// such line and nothing else. For any other part the target was asked for
/// the sink with the headers that the header lines give; a sink was opened
/// exactly where the target selected one, and the name and the limit in the
/// trace are those that the sink declares. Where the body grew beyond the
/// limit the target was told so, with that name and that limit, and the rest
/// was dropped exactly where the answer was `Skip` or an `Err`. Where the
/// sink was flushed, it was the selected sink after it was opened and given
/// the writes of the trace.
pub open spec fn part_agrees<T: MultipartParserTargetGenerated>(
    calls: Seq<Call<T>>,
    t: PartTrace,
) -> bool {
    &&& calls.len() == part_calls(t)
    &&& if t.refused {
        &&& calls[0] is Told
        &&& calls[0]->error == ErrorModel::MalformedHeader(malformed_lines(t.lines)[0])
    } else {
        &&& calls[0] is Asked
        &&& calls[0]->headers@ == headers_model(t.lines)
        &&& calls[0]->selected is Some <==> t.opened
        &&& t.opened ==> calls[0]->selected->0.declares(t.declared, t.limit)
    }
    &&& t.told ==> {
        &&& calls[1] is Told
        &&& calls[1]->error == ErrorModel::SizeLimit(t.declared, t.limit->0)
        &&& t.cut <==> !goes_on(calls[1]->answer)
    }
    &&& t.flushed ==> {
        &&& calls.last() is Flushed
        &&& calls[0] is Asked
        &&& calls[0]->selected == Some(calls.last()->origin)
        &&& calls.last()->with == calls[0]->headers
        &&& calls.last()->sink.holds(
            calls.last()->origin,
            calls.last()->with,
            concat(t.writes),
        )
    }
}

/// Whether `calls` are the calls that the traces `trace` tell of, part after
/// part.
pub open spec fn agrees<T: MultipartParserTargetGenerated>(
    calls: Seq<Call<T>>,
    trace: Seq<PartTrace>,
) -> bool
    decreases trace.len(),
{
    if trace.len() == 0 {
        calls.len() == 0
    } else {
        let n = part_calls(trace.last());
        &&& calls.len() >= n
        &&& part_agrees(calls.skip(calls.len() - n), trace.last())
        &&& agrees(calls.take(calls.len() - n), trace.drop_last())
    }
}

/// The calls of the parts before and the calls of one more part agree with
/// the traces of the parts before and the trace of that part.
pub proof fn lemma_agrees_push<T: MultipartParserTargetGenerated>(
    calls: Seq<Call<T>>,
    trace: Seq<PartTrace>,
    more: Seq<Call<T>>,
    t: PartTrace,
)
    requires
        agrees(calls, trace),
        part_agrees(more, t),
    ensures
        agrees(calls + more, trace.push(t)),
{
    let all = calls + more;
    let n = part_calls(t);
    assert(trace.push(t).drop_last() =~= trace);
    assert(all.skip(all.len() - n) =~= more);
    assert(all.take(all.len() - n) =~= calls);
}

/// Calls that lead on from where other calls led lead all the way.
pub proof fn lemma_linked_concat<T: MultipartParserTargetGenerated>(
    a: Seq<Call<T>>,
    b: Seq<Call<T>>,
    first: T,
    mid: T,
    last: T,
)
    requires
        linked(a, first, mid),
        linked(b, mid, last),
    ensures
        linked(a + b, first, last),
    decreases b.len(),
{
    if b.len() == 0 {
        assert(a + b =~= a);
    } else {
        lemma_linked_concat(a, b.drop_last(), first, mid, call_before(b.last()));
        assert((a + b).drop_last() =~= a + b.drop_last());
        assert((a + b).last() == b.last());
    }
}

/// A log that extends a log that extends another extends the other.
pub proof fn lemma_log_extends_trans<T: MultipartParserTargetGenerated>(
    a: Seq<Call<T>>,
    b: Seq<Call<T>>,
    c: Seq<Call<T>>,
    first: T,
    mid: T,
    last: T,
)
    requires
        log_extends(a, b, first, mid),
        log_extends(b, c, mid, last),
    ensures
        log_extends(a, c, first, last),
{
    assert(c.take(a.len() as int) =~= c.take(b.len() as int).take(a.len() as int));
    lemma_linked_concat(b.skip(a.len() as int), c.skip(b.len() as int), first, mid, last);
    assert(c.skip(a.len() as int) =~= b.skip(a.len() as int) + c.skip(b.len() as int)) by {
        assert(c.take(b.len() as int) == b);
        assert forall|i: int| 0 <= i < b.len() - a.len() implies c.skip(a.len() as int)[i]
            == b.skip(a.len() as int)[i] by {
            assert(c.take(b.len() as int)[i + a.len()] == b[i + a.len()]);
        }
    }
}

/// A log with one more call extends the log, from the target before the
/// call to the target after it.
pub proof fn lemma_log_push<T: MultipartParserTargetGenerated>(log: Seq<Call<T>>, c: Call<T>)
    ensures
        log_extends(log, log.push(c), call_before(c), call_after(c)),
        log_extends(log, log + seq![c], call_before(c), call_after(c)),
{
    assert(log + seq![c] =~= log.push(c));
    assert(log.push(c).take(log.len() as int) =~= log);
    let tail = log.push(c).skip(log.len() as int);
    assert(tail =~= seq![c]);
    assert(tail.last() == c);
    assert(tail.drop_last() =~= Seq::<Call<T>>::empty());
    assert(linked(tail.drop_last(), call_before(c), call_before(c)));
    assert(linked(tail, call_before(c), call_after(c)));
}

/// A log extends itself where the target stays as it is.
pub proof fn lemma_log_extends_refl<T: MultipartParserTargetGenerated>(a: Seq<Call<T>>, t: T)
    ensures
        log_extends(a, a, t, t),
{
    assert(a.take(a.len() as int) =~= a);
    assert(a.skip(a.len() as int) =~= Seq::<Call<T>>::empty());
}

/// The sink of the part in progress, with what the parser knows of it.
struct PartSink<T: MultipartParserTargetGenerated> {
    process_content: Option<T::Sink>,
    headers: Option<Headers>,
    /// The name that the sink declared when it was selected.
    name: String,
    /// Body bytes that the sink has not been given yet.
    pending: Vec<u8>,
    /// Number of body bytes given to the sink, and pending, since it was
    /// opened.
    content_size: usize,
    /// The size limit, until the body has grown beyond it.
    content_size_max: Option<usize>,
    on_error: OnError,
    trace: Ghost<PartTrace>,
    emitted: Ghost<Seq<u8>>,
    /// The calls made for the part.
    calls: Ghost<Seq<Call<T>>>,
}

impl<T: MultipartParserTargetGenerated> PartSink<T> {
    /// What the sink of the part in progress was handed.
    spec fn trace(&self) -> PartTrace {
        self.trace@
    }

    /// The body bytes of the part in progress that were passed on for its
    /// sink.
    spec fn emitted(&self) -> Seq<u8> {
        self.emitted@
    }

    /// The body bytes that wait for the next call of `write`.
    spec fn pending(&self) -> Seq<u8> {
        self.pending@
    }

    /// The bytes that the sink was given, with those that wait.
    spec fn given(&self) -> Seq<u8> {
        concat(self.trace().writes) + self.pending()
    }

    /// Whether a sink is in use.
    spec fn active(&self) -> bool {
        self.process_content is Some
    }

    /// What the parser does with the rest of the part.
    spec fn disposition(&self) -> OnError {
        self.on_error
    }

    /// The size limit in force.
    spec fn limit_in_force(&self) -> Option<usize> {
        self.content_size_max
    }

    /// The number of bytes given and pending, as far as `usize` counts.
    spec fn counted(&self) -> usize {
        self.content_size
    }

    /// The calls made for the part in progress.
    spec fn calls(&self) -> Seq<Call<T>> {
        self.calls@
    }

    spec fn inv(&self) -> bool {
        let t = self.trace@;
        let calls = self.calls@;
        &&& self.process_content is Some <==> t.opened && !t.flushed
        &&& self.process_content is Some ==> self.headers is Some
            && self.process_content->0.is_open()
        &&& t.cut <==> self.on_error == OnError::Skip
        &&& delivery_ok(t, self.given(), self.emitted@)
        &&& self.content_size == if self.given().len() > usize::MAX {
            usize::MAX
        } else {
            self.given().len() as usize
        }
        &&& self.content_size_max matches Some(m) ==> t.limit == Some(m) && self.emitted@.len()
            <= m && t.opened
        &&& self.content_size_max is None && t.opened && t.limit is Some ==> t.told
        &&& t.flushed ==> t.opened && self.pending@.len() == 0
        &&& t.opened ==> !t.refused
        &&& self.process_content is Some ==> calls.len() > 0
        &&& calls.len() > 0 ==> {
            &&& part_agrees(calls, t)
            &&& forall|i: int| 0 <= i < calls.len() ==> justified(#[trigger] calls[i])
            &&& self.name@ == t.declared
            &&& self.process_content is Some ==> {
                &&& self.headers == Some(calls[0]->headers)
                &&& self.process_content->0.holds(
                    calls[0]->selected->0,
                    calls[0]->headers,
                    concat(t.writes),
                )
            }
        }
    }

    /// A sink state for a parser that is in no part.
    fn new() -> (r: Self)
        ensures
            r.inv(),
            !r.active(),
            r.pending().len() == 0,
            r.calls().len() == 0,
            r.emitted() == Seq::<u8>::empty(),
    {
        let r = PartSink {
            process_content: None,
            headers: None,
            name: String::new(),
            pending: Vec::new(),
            content_size: 0,
            content_size_max: None,
            on_error: OnError::ContinueWithError,
            trace: Ghost(fresh_trace(Seq::empty(), false, false, Seq::empty(), None)),
            emitted: Ghost(Seq::empty()),
            calls: Ghost(Seq::empty()),
        };
        assert(concat(r.trace@.writes) =~= Seq::<u8>::empty());
        assert(r.given() =~= Seq::<u8>::empty());
        r
    }

    /// Begins a part with the given headers and the sink selected for it, if
    /// any: the sink is asked what it declares and is opened, and its size
    /// limit is in force. `first` is the call that was made for the part:
    /// the target was told of an ill-formed header line, or asked for the
    /// sink.
    fn processor_open(
        &mut self,
        headers: Headers,
        process_content: Option<T::Sink>,
        Ghost(lines): Ghost<Seq<Seq<char>>>,
        Ghost(first): Ghost<Call<T>>,
    )
        requires
            headers@ == headers_model(lines),
            strings_view(headers.malformed@) == malformed_lines(lines),
            justified(first),
            if headers.malformed@.len() > 0 {
                &&& process_content is None
                &&& first is Told
                &&& first->error == ErrorModel::MalformedHeader(malformed_lines(lines)[0])
            } else {
                &&& first is Asked
                &&& first->headers == headers
                &&& first->selected == process_content
            },
        ensures
            final(self).inv(),
            final(self).active() == (process_content is Some),
            final(self).pending().len() == 0,
            final(self).emitted() == Seq::<u8>::empty(),
            final(self).calls() == seq![first],
            final(self).trace() == fresh_trace(
                lines,
                headers.malformed@.len() > 0,
                process_content is Some,
                final(self).trace().declared,
                final(self).trace().limit,
            ),
            final(self).disposition() == OnError::ContinueWithError,
    {
        self.content_size = 0;
        self.on_error = OnError::ContinueWithError;
        self.pending.clear();
        self.emitted = Ghost(Seq::empty());
        proof {
            self.calls@ = Seq::empty().push(first);
            assert(self.calls@ =~= seq![first]);
        }
        let ghost refused = headers.malformed@.len() > 0;
        match process_content {
            Some(mut sink) => {
                let params = sink.get_process_params();
                let limit = params.max_size;
                let name = params.name.clone();
                sink.open(&headers);
                self.content_size_max = limit;
                self.name = name;
                self.process_content = Some(sink);
                self.trace = Ghost(fresh_trace(lines, refused, true, name@, limit));
            },
            None => {
                self.content_size_max = None;
                self.name = String::new();
                self.process_content = None;
                self.trace = Ghost(fresh_trace(lines, refused, false, Seq::empty(), None));
            },
        }
        self.headers = Some(headers);
        assert(concat(self.trace@.writes) =~= Seq::<u8>::empty());
        assert(self.given() =~= Seq::<u8>::empty());
    }

    /// Gives the sink the bytes that wait, in one call of `write`; where none
    /// wait there is no call.
    fn processor_write(&mut self)
        requires
            old(self).inv(),
        ensures
            final(self).inv(),
            final(self).pending().len() == 0,
            final(self).trace() == if old(self).pending().len() > 0 {
                PartTrace {
                    writes: old(self).trace().writes.push(old(self).pending()),
                    ..old(self).trace()
                }
            } else {
                old(self).trace()
            },
            part_extends(old(self).trace(), final(self).trace()),
            final(self).given() == old(self).given(),
            final(self).emitted() == old(self).emitted(),
            final(self).calls() == old(self).calls(),
            final(self).active() == old(self).active(),
            final(self).disposition() == old(self).disposition(),
            final(self).limit_in_force() == old(self).limit_in_force(),
            final(self).counted() == old(self).counted(),
    {
        if self.pending.len() == 0 {
            assert(self.pending@ =~= Seq::<u8>::empty());
            assert(self.trace@.writes.take(self.trace@.writes.len() as int) =~= self.trace@.writes);
            return ;
        }
        let ghost t = self.trace@;
        let ghost run = self.pending@;
        let taken = self.process_content.take();
        match taken {
            Some(mut sink) => {
                match &self.headers {
                    Some(headers) => {
                        sink.write(headers, &self.pending);
                    },
                    None => {},
                }
                self.process_content = Some(sink);
            },
            None => {},
        }
        self.pending.clear();
        proof {
            self.trace@ = PartTrace { writes: t.writes.push(run), ..t };
            assert(t.writes.push(run).drop_last() =~= t.writes);
            assert(t.writes.push(run).take(t.writes.len() as int) =~= t.writes);
            assert(self.given() =~= concat(t.writes) + run);
        }
    }

    /// Passes one body byte on for the sink. The byte waits for the next
    /// call of `write`, unless there is no sink or the rest of the part is
    /// dropped. Where the byte would take the body beyond the size limit in
    /// force, the sink is first given what waits and the target is told the
    /// error of [`size_limit_error`], once for the part: its answer says
    /// whether this byte and the rest are dropped, and an `Err` also drops
    /// them and is returned.
    fn processor_write_sym(&mut self, c: u8, target: &mut T) -> (r: Result<(), IOError>)
        requires
            old(self).inv(),
            !old(self).trace().flushed,
            old(self).calls().len() > 0,
        ensures
            final(self).inv(),
            final(self).emitted() == old(self).emitted().push(c),
            final(self).active() == old(self).active(),
            part_extends(old(self).trace(), final(self).trace()),
            !final(self).trace().flushed,
            log_extends(old(self).calls(), final(self).calls(), *old(target), *final(target)),
            final(self).calls().len() <= old(self).calls().len() + 1,
            told_in(old(self).calls(), final(self).calls(), r),
            !old(self).active() || old(self).trace().cut ==> final(self).calls() == old(
                self,
            ).calls(),
            r is Err ==> final(self).trace().cut && !old(self).trace().cut,
            !old(self).active() || old(self).trace().cut ==> r is Ok && final(self).given() == old(
                self,
            ).given(),
            old(self).active() && !final(self).trace().cut ==> final(self).given() == old(
                self,
            ).given().push(c),
            old(self).active() && final(self).trace().cut ==> final(self).given() == old(
                self,
            ).given(),
    {
        let ghost body = self.emitted@;
        proof {
            assert(self.trace@.writes.take(self.trace@.writes.len() as int) =~= self.trace@.writes);
            lemma_log_extends_refl(self.calls@, *target);
        }
        if self.process_content.is_none() {
            proof {
                self.emitted@ = body.push(c);
            }
            return Ok(());
        }
        if self.on_error == OnError::Skip {
            proof {
                self.emitted@ = body.push(c);
                let m = self.trace@.limit->0 as int;
                assert(body.push(c).take(m) =~= body.take(m));
            }
            return Ok(());
        }
        if let Some(max) = self.content_size_max {
            if self.content_size >= max {
                self.processor_write();
                let error = size_limit_error(self.name.clone(), max);
                let ghost before = *target;
                let ghost log = self.calls@;
                let answer = target.error(&error);
                let ghost told = Call::Told {
                    before,
                    error: error_model(error),
                    answer,
                    after: *target,
                };
                self.content_size_max = None;
                let ghost t = self.trace@;
                proof {
                    self.calls@ = log.push(told);
                    lemma_log_push(log, told);
                    assert(forall|i: int| 0 <= i < log.len() ==> log.push(told)[i] == log[i]);
                }
                match answer {
                    Ok(on_error) => {
                        self.on_error = on_error;
                        if on_error == OnError::Skip {
                            proof {
                                self.trace@ = PartTrace { told: true, cut: true, ..t };
                                self.emitted@ = body.push(c);
                                assert(body.push(c).take(max as int) =~= body);
                            }
                            return Ok(());
                        }
                        proof {
                            self.trace@ = PartTrace { told: true, ..t };
                        }
                    },
                    Err(e) => {
                        self.on_error = OnError::Skip;
                        proof {
                            self.trace@ = PartTrace { told: true, cut: true, ..t };
                            self.emitted@ = body.push(c);
                            assert(body.push(c).take(max as int) =~= body);
                        }
                        return Err(e);
                    },
                }
            }
        }
        let ghost given = self.given();
        self.pending.push(c);
        if self.content_size < usize::MAX {
            self.content_size += 1;
        }
        proof {
            self.emitted@ = body.push(c);
        }
        assert(self.given() =~= given.push(c));
        Ok(())
    }

    /// Passes the bytes `buf[from..to]` on for the sink, one after the
    /// other. An `Err` of the target is returned when all have been passed.
    fn processor_write_from_to(
        &mut self,
        buf: &Vec<u8>,
        from: usize,
        to: usize,
        target: &mut T,
    ) -> (r: Result<(), IOError>)
        requires
            old(self).inv(),
            !old(self).trace().flushed,
            old(self).calls().len() > 0,
            from <= to <= buf.len(),
        ensures
            final(self).inv(),
            final(self).emitted() == old(self).emitted() + buf@.subrange(from as int, to as int),
            final(self).active() == old(self).active(),
            part_extends(old(self).trace(), final(self).trace()),
            !final(self).trace().flushed,
            log_extends(old(self).calls(), final(self).calls(), *old(target), *final(target)),
            final(self).calls().len() <= old(self).calls().len() + 1,
            told_in(old(self).calls(), final(self).calls(), r),
            !old(self).active() || old(self).trace().cut ==> final(self).calls() == old(
                self,
            ).calls(),
            r is Err ==> final(self).trace().cut && !old(self).trace().cut,
    {
        let mut result: Result<(), IOError> = Ok(());
        let mut i: usize = from;
        proof {
            assert(self.trace().writes.take(self.trace().writes.len() as int)
                =~= self.trace().writes);
            assert(buf@.subrange(from as int, from as int) =~= Seq::<u8>::empty());
            assert(self.emitted() + Seq::<u8>::empty() =~= self.emitted());
            lemma_log_extends_refl(self.calls@, *target);
        }
        while i < to
            invariant
                from <= i <= to <= buf.len(),
                self.inv(),
                self.emitted() == old(self).emitted() + buf@.subrange(from as int, i as int),
                self.active() == old(self).active(),
                part_extends(old(self).trace(), self.trace()),
                !self.trace().flushed,
                log_extends(old(self).calls(), self.calls(), *old(target), *target),
                old(self).calls().len() > 0,
                self.calls().len() <= old(self).calls().len() + 1,
                self.calls().len() > old(self).calls().len() ==> self.trace().told && !old(
                    self,
                ).trace().told,
                told_in(old(self).calls(), self.calls(), result),
                !old(self).active() || old(self).trace().cut ==> self.calls() == old(
                    self,
                ).calls(),
                result is Err ==> self.trace().cut && !old(self).trace().cut,
            decreases to - i,
        {
            let ghost mid = self.trace();
            let ghost log = self.calls();
            let ghost at = *target;
            match self.processor_write_sym(buf[i], target) {
                Ok(()) => {},
                Err(e) => {
                    result = Err(e);
                },
            }
            i += 1;
            assert(buf@.subrange(from as int, i as int) =~= buf@.subrange(
                from as int,
                i - 1,
            ).push(buf@[i - 1]));
            assert(self.emitted() =~= old(self).emitted() + buf@.subrange(from as int, i as int));
            proof {
                lemma_part_extends_trans(old(self).trace(), mid, self.trace());
                lemma_log_extends_trans(
                    old(self).calls(),
                    log,
                    self.calls(),
                    *old(target),
                    at,
                    *target,
                );
            }
        }
        result
    }

    /// Ends the part: the sink gets the bytes that wait, is flushed with the
    /// target and let go.
    fn processor_flush(&mut self, target: &mut T)
        requires
            old(self).inv(),
            !old(self).trace().flushed,
            old(self).calls().len() > 0,
        ensures
            final(self).inv(),
            !final(self).active(),
            final(self).pending().len() == 0,
            final(self).emitted() == old(self).emitted(),
            sealed(final(self).trace(), final(self).emitted()),
            part_extends(old(self).trace(), final(self).trace()),
            part_agrees(final(self).calls(), final(self).trace()),
            forall|i: int|
                0 <= i < final(self).calls().len() ==> justified(#[trigger] final(self).calls()[i]),
            log_extends(old(self).calls(), final(self).calls(), *old(target), *final(target)),
            forall|i: int|
                old(self).calls().len() <= i < final(self).calls().len() ==> !answered_err(
                    #[trigger] final(self).calls()[i],
                ),
            final(self).trace() == (PartTrace {
                flushed: old(self).trace().opened,
                writes: if old(self).pending().len() > 0 {
                    old(self).trace().writes.push(old(self).pending())
                } else {
                    old(self).trace().writes
                },
                ..old(self).trace()
            }),
    {
        self.processor_write();
        let ghost t = self.trace@;
        let ghost log = self.calls@;
        proof {
            lemma_log_extends_refl(log, *target);
        }
        let taken = self.process_content.take();
        match taken {
            Some(mut sink) => {
                let ghost before = *target;
                let ghost held = sink;
                match &self.headers {
                    Some(headers) => {
                        sink.flush(headers, target);
                    },
                    None => {},
                }
                proof {
                    let flushed = Call::Flushed {
                        origin: log[0]->selected->0,
                        sink: held,
                        with: log[0]->headers,
                        from: before,
                        to: *target,
                    };
                    self.trace@ = PartTrace { flushed: true, ..t };
                    self.calls@ = log.push(flushed);
                    lemma_log_push(log, flushed);
                    assert(forall|i: int| 0 <= i < log.len() ==> log.push(flushed)[i] == log[i]);
                    assert(log.push(flushed).last() == flushed);
                }
            },
            None => {},
        }
        assert(self.given() =~= concat(self.trace@.writes));
    }
}

/// Whether the calls `later` that follow the calls `earlier` tell of the
/// result `r`: the result is the `Err` with which the target answered the
/// last call, and no other call was answered with an `Err`.
pub open spec fn told_in<T: MultipartParserTargetGenerated>(
    earlier: Seq<Call<T>>,
    later: Seq<Call<T>>,
    r: Result<(), IOError>,
) -> bool {
    match r {
        Ok(()) => forall|i: int|
            earlier.len() <= i < later.len() ==> !answered_err(#[trigger] later[i]),
        Err(e) => {
            &&& later.len() > earlier.len()
            &&& later.last() is Told
            &&& later.last()->answer == Err::<OnError, IOError>(e)
            &&& forall|i: int|
                earlier.len() <= i < later.len() - 1 ==> !answered_err(#[trigger] later[i])
        },
    }
}

/// What calls tell of a result, they tell of it after any calls before.
pub proof fn lemma_log_lift<T: MultipartParserTargetGenerated>(
    past: Seq<Call<T>>,
    a: Seq<Call<T>>,
    b: Seq<Call<T>>,
    first: T,
    last: T,
    r: Result<(), IOError>,
)
    requires
        log_extends(a, b, first, last),
        told_in(a, b, r),
    ensures
        log_extends(past + a, past + b, first, last),
        told_in(past + a, past + b, r),
{
    assert((past + b).take((past + a).len() as int) =~= past + a) by {
        assert forall|i: int| 0 <= i < a.len() implies b[i] == a[i] by {
            assert(b.take(a.len() as int)[i] == a[i]);
        }
    }
    assert((past + b).skip((past + a).len() as int) =~= b.skip(a.len() as int));
    assert forall|i: int| (past + a).len() <= i < (past + b).len() implies (past + b)[i] == b[i
        - past.len()] by {}
    if r is Err {
        assert((past + b).last() == b.last());
    }
}

/// Calls that tell of no `Err`, and calls after them: together they tell
/// what the later calls tell.
pub proof fn lemma_told_trans<T: MultipartParserTargetGenerated>(
    a: Seq<Call<T>>,
    b: Seq<Call<T>>,
    c: Seq<Call<T>>,
    r: Result<(), IOError>,
)
    requires
        a.len() <= b.len() <= c.len(),
        c.take(b.len() as int) == b,
        told_in(a, b, Ok(())),
        told_in(b, c, r),
    ensures
        told_in(a, c, r),
{
    assert forall|i: int| a.len() <= i < b.len() implies !answered_err(#[trigger] c[i]) by {
        assert(c.take(b.len() as int)[i] == b[i]);
        assert(c[i] == b[i]);
        assert(!answered_err(b[i]));
    }
}

/// The error that the target is told where the body of the part for which
/// the sink declared the name `name` grew beyond the limit `limit`.
pub fn size_limit_error(name: String, limit: usize) -> (r: MultipartParseError<'static>)
    ensures
        error_model(r) == ErrorModel::SizeLimit(name@, limit),
{
    MultipartParseError::SizeLimit(name, limit)
}

/// The error that the target is told where `line` is a header line of a
/// part that is no well-formed header.
pub fn malformed_header_error(line: String) -> (r: MultipartParseError<'static>)
    ensures
        error_model(r) == ErrorModel::MalformedHeader(line@),
{
    MultipartParseError::MalformedHeader(line)
}

/// Why a call of [`MultipartParser::write`] ended early.
pub enum WriteError {
    /// The stream does not begin with the opening delimiter: `symbol` stands
    /// where byte `position` of the delimiter is due.
    InvalidFirstBoundary { symbol: u8, position: usize },
    /// The target answered an error with an `Err`.
    Target(IOError),
}

/// `names` without every occurrence of `name`.
pub open spec fn without(names: Seq<Seq<char>>, name: Seq<char>) -> Seq<Seq<char>>
    decreases names.len(),
{
    if names.len() == 0 {
        Seq::empty()
    } else {
        let front = without(names.drop_last(), name);
        if names.last() == name {
            front
        } else {
            front.push(names.last())
        }
    }
}

/// `required` without every name in `seen`.
pub open spec fn missing_after(required: Seq<Seq<char>>, seen: Seq<Seq<char>>) -> Seq<Seq<char>>
    decreases seen.len(),
{
    if seen.len() == 0 {
        required
    } else {
        without(missing_after(required, seen.drop_last()), seen.last())
    }
}

/// The names of the parts for which a sink was opened, in the order of the
/// parts.
pub open spec fn opened_names(traces: Seq<PartTrace>) -> Seq<Seq<char>>
    decreases traces.len(),
{
    if traces.len() == 0 {
        Seq::empty()
    } else {
        let front = opened_names(traces.drop_last());
        match traces.last().name {
            Some(name) if traces.last().opened => front.push(name),
            _ => front,
        }
    }
}

/// Whether the last part adds a name depends on its name and on whether its
/// sink was opened, and on nothing else.
pub proof fn lemma_opened_names_last(traces: Seq<PartTrace>, a: PartTrace, b: PartTrace)
    requires
        a.name == b.name,
        a.opened == b.opened,
    ensures
        opened_names(traces.push(a)) == opened_names(traces.push(b)),
{
    assert(traces.push(a).drop_last() =~= traces);
    assert(traces.push(b).drop_last() =~= traces);
}

/// Removes every occurrence of `name` from `names`.
pub fn remove_name(names: &mut Vec<String>, name: &String)
    ensures
        strings_view(final(names)@) == without(strings_view(old(names)@), name@),
{
    let mut kept: Vec<String> = Vec::new();
    let ghost all = strings_view(names@);
    let mut i: usize = 0;
    assert(all.take(0) =~= Seq::<Seq<char>>::empty());
    assert(strings_view(kept@) =~= Seq::<Seq<char>>::empty());
    while i < names.len()
        invariant
            i <= names.len(),
            all == strings_view(names@),
            strings_view(kept@) == without(all.take(i as int), name@),
        decreases names.len() - i,
    {
        let ghost now = all.take(i + 1);
        assert(now.drop_last() =~= all.take(i as int));
        assert(now.last() == names@[i as int]@);
        if names[i] != *name {
            let ghost front = strings_view(kept@);
            let copy = names[i].clone();
            kept.push(copy);
            assert(strings_view(kept@) =~= front.push(copy@));
        }
        i += 1;
    }
    assert(all.take(i as int) =~= all);
    *names = kept;
}

/// A parser for one `multipart/form-data` stream. The stream is handed to
/// [`MultipartParser::write`] in chunks of any size; the target is handed
/// along with every call.
pub struct MultipartParser<T: MultipartParserTarget + MultipartParserTargetGenerated> {
    /// `--BOUNDARY\r\n`
    boundary_first: Vec<u8>,
    /// `\r\n--BOUNDARY`
    boundary_middle: Vec<u8>,
    /// `\r\n` between a delimiter and the headers of the next part
    divider: Vec<u8>,
    /// `--` after the last delimiter
    epilogue: Vec<u8>,
    /// `\r\n` at the end of a header line
    empty_string: Vec<u8>,
    state: MultipartParserState,
    headers_builder: HeadersBuilder,
    compare_pos: usize,
    /// Required names for which no sink has been opened.
    unprocessed: Vec<String>,
    sink: PartSink<T>,
    boundary: Ghost<Seq<u8>>,
    lines: Ghost<Seq<Seq<char>>>,
    body: Ghost<Seq<u8>>,
    parts: Ghost<Seq<Part>>,
    traces: Ghost<Seq<PartTrace>>,
    required: Ghost<Seq<Seq<char>>>,
    /// The calls made for the parts that have ended.
    past_calls: Ghost<Seq<Call<T>>>,
}

impl<T: MultipartParserTarget + MultipartParserTargetGenerated> MultipartParser<T> {
    /// The boundary of the stream.
    pub closed spec fn boundary(&self) -> Seq<u8> {
        self.boundary@
    }

    /// Where the framing of the stream stands.
    pub closed spec fn framing(&self) -> Framing {
        Framing {
            phase: self.state,
            cp: self.compare_pos as int,
            line: self.headers_builder.line(),
            lines: self.lines@,
            body: self.body@,
            parts: self.parts@,
        }
    }

    /// What the sinks were handed: one trace for each part that has ended,
    /// and one for the part whose body is being read.
    pub closed spec fn trace(&self) -> Seq<PartTrace> {
        if self.state is Content {
            self.traces@.push(self.sink.trace())
        } else {
            self.traces@
        }
    }

    /// The calls that the parser has made on the targets that it was handed,
    /// and on the sinks with them, in order: where it asked for a sink, told
    /// an error, or flushed a sink.
    pub closed spec fn calls(&self) -> Seq<Call<T>> {
        if self.state is Content {
            self.past_calls@ + self.sink.calls()
        } else {
            self.past_calls@
        }
    }

    /// The body bytes of the part in progress that wait for the next call of
    /// `write` on its sink.
    pub closed spec fn pending(&self) -> Seq<u8> {
        self.sink.pending()
    }

    /// The names of the required parts.
    pub closed spec fn required(&self) -> Seq<Seq<char>> {
        self.required@
    }

    /// The required names for which no sink has been opened.
    pub closed spec fn missing(&self) -> Seq<Seq<char>> {
        strings_view(self.unprocessed@)
    }

    /// What holds of the parser between any two bytes.
    spec fn inv(&self) -> bool {
        let middle = middle_delimiter(self.boundary@);
        &&& self.boundary_first@ == first_delimiter(self.boundary@)
        &&& self.boundary_middle@ == middle
        &&& self.divider@ == crlf()
        &&& self.epilogue@ == prelude()
        &&& self.empty_string@ == crlf()
        &&& inv(self.framing(), self.boundary@)
        &&& if self.state is Content {
            &&& self.headers_builder.lines().len() == 0
            &&& self.sink.emitted() == settled(self.body@, middle)
            &&& !self.sink.trace().flushed
            &&& follows_headers(self.sink.trace(), self.lines@)
            &&& self.sink.calls().len() > 0
        } else {
            &&& self.headers_builder.lines() == self.lines@
            &&& !self.sink.active()
        }
        &&& self.sink.inv()
        &&& self.traces@.len() == self.parts@.len()
        &&& forall|i: int|
            0 <= i < self.parts@.len() ==> sealed(#[trigger] self.traces@[i], self.parts@[i].body)
                && follows_headers(self.traces@[i], self.parts@[i].lines)
        &&& self.missing() == missing_after(self.required@, opened_names(self.trace()))
        &&& agrees(self.past_calls@, self.traces@)
        &&& forall|i: int|
            0 <= i < self.past_calls@.len() ==> justified(#[trigger] self.past_calls@[i])
    }

    /// What holds of the parser between any two calls.
    pub closed spec fn wf(&self) -> bool {
        self.inv() && self.sink.pending().len() == 0
    }

    /// What holds of a parser between any two calls, said of what it shows:
    /// the framing is one that bytes lead to; there is one trace for each
    /// part, which follows the headers of the part; the trace of a part that
    /// has ended is sealed with its body; the sink of the part in progress
    /// has been given, in runs that are not empty, all bytes of the body but
    /// those that may begin the delimiter, or, where the rest was dropped,
    /// those bytes up to the limit; the required names that are missing are
    /// those for which no sink was opened; and the calls made are those that
    /// the traces tell of, each of which did what the target and the sinks
    /// say of themselves.
    pub proof fn lemma_wf(&self)
        requires
            self.wf(),
        ensures
            inv(self.framing(), self.boundary()),
            self.pending().len() == 0,
            self.trace().len() == self.framing().parts.len() + if self.framing().phase
                is Content {
                1int
            } else {
                0int
            },
            forall|i: int|
                0 <= i < self.framing().parts.len() ==> sealed(
                    #[trigger] self.trace()[i],
                    self.framing().parts[i].body,
                ) && follows_headers(self.trace()[i], self.framing().parts[i].lines),
            self.framing().phase is Content ==> {
                &&& !self.trace().last().flushed
                &&& follows_headers(self.trace().last(), self.framing().lines)
                &&& delivery_ok(
                    self.trace().last(),
                    concat(self.trace().last().writes),
                    settled(self.framing().body, middle_delimiter(self.boundary())),
                )
            },
            self.missing() == missing_after(self.required(), opened_names(self.trace())),
            agrees(self.calls(), self.trace()),
            forall|i: int| 0 <= i < self.calls().len() ==> justified(#[trigger] self.calls()[i]),
    {
        assert(self.sink.given() =~= concat(self.sink.trace().writes));
        if self.state is Content {
            lemma_agrees_push(
                self.past_calls@,
                self.traces@,
                self.sink.calls(),
                self.sink.trace(),
            );
        }
    }

    /// A parser for a stream with the boundary `boundary`.
    pub fn new_from_str(boundary: &str, target: &T) -> (r: Self)
        ensures
            r.wf(),
            r.boundary() == boundary.spec_bytes(),
            r.framing() == start(),
            r.trace().len() == 0,
            r.calls().len() == 0,
            target.requires_names(r.required()),
            r.missing() == r.required(),
    {
        let boundary: Vec<u8> = boundary.as_bytes_vec();
        MultipartParser::new_from_vec(boundary, target)
    }

    /// A parser for a stream with the boundary `boundary`.
    pub fn new_from_vec(boundary: Vec<u8>, target: &T) -> (r: Self)
        ensures
            r.wf(),
            r.boundary() == boundary@,
            r.framing() == start(),
            r.trace().len() == 0,
            r.calls().len() == 0,
            target.requires_names(r.required()),
            r.missing() == r.required(),
    {
        let mut boundary_first: Vec<u8> = Vec::new();
        boundary_first.append_prelude().append_boundary(&boundary).append_crlf();
        let mut boundary_middle: Vec<u8> = Vec::new();
        boundary_middle.append_crlf().append_prelude().append_boundary(&boundary);
        let mut divider: Vec<u8> = Vec::new();
        divider.append_crlf();
        let mut epilogue: Vec<u8> = Vec::new();
        epilogue.append_prelude();
        let mut empty_string: Vec<u8> = Vec::new();
        empty_string.append_crlf();
        let unprocessed = target.get_all_required();
        let r = MultipartParser {
            boundary_first,
            boundary_middle,
            divider,
            epilogue,
            empty_string,
            state: MultipartParserState::BoundaryFirst,
            headers_builder: HeadersBuilder::new(),
            compare_pos: 0,
            unprocessed,
            sink: PartSink::new(),
            boundary: Ghost(boundary@),
            lines: Ghost(Seq::empty()),
            body: Ghost(Seq::empty()),
            parts: Ghost(Seq::empty()),
            traces: Ghost(Seq::empty()),
            required: Ghost(strings_view(unprocessed@)),
            past_calls: Ghost(Seq::empty()),
        };
        proof {
            assert(r.boundary_first@ =~= first_delimiter(boundary@));
            assert(r.boundary_middle@ =~= middle_delimiter(boundary@));
            assert(r.divider@ =~= crlf());
            assert(r.epilogue@ =~= prelude());
            assert(r.empty_string@ =~= crlf());
            assert(r.framing() =~= start());
            assert(concat(r.sink.trace().writes) =~= Seq::<u8>::empty());
        }
        r
    }

    /// The phase of the framing.
    pub fn state(&self) -> (r: MultipartParserState)
        ensures
            r == self.framing().phase,
    {
        self.state
    }

    /// The required names for which no sink has been opened so far.
    pub fn missing_required(&self) -> (r: &Vec<String>)
        ensures
            strings_view(r@) == self.missing(),
    {
        &self.unprocessed
    }

    /// Compares `c` with the byte of `boundary` that is due. The first
    /// result says whether they are equal, the second whether `c` also
    /// completes `boundary`.
    fn compare(&self, c: u8, boundary: &Vec<u8>) -> (r: (bool, bool))
        requires
            self.compare_pos < boundary.len(),
        ensures
            r.0 == (c == boundary@[self.compare_pos as int]),
            r.1 == (r.0 && self.compare_pos + 1 == boundary.len()),
    {
        Self::compare_at(c, boundary, self.compare_pos)
    }

    /// Compares `c` with `boundary[pos]`. The first result says whether they
    /// are equal, the second whether `c` also completes `boundary`.
    fn compare_at(c: u8, boundary: &Vec<u8>, pos: usize) -> (r: (bool, bool))
        requires
            pos < boundary.len(),
        ensures
            r.0 == (c == boundary@[pos as int]),
            r.1 == (r.0 && pos + 1 == boundary.len()),
    {
        if c == boundary[pos] {
            (true, pos + 1 == boundary.len())
        } else {
            (false, false)
        }
    }

    fn to_header(&mut self)
        requires
            old(self).inv(),
            old(self).state is BoundaryFirst || old(self).state is PostBoundary,
        ensures
            final(self).inv(),
            final(self).framing() == (Framing {
                phase: MultipartParserState::Header,
                cp: 0,
                ..old(self).framing()
            }),
            final(self).boundary() == old(self).boundary(),
            final(self).required() == old(self).required(),
            final(self).trace() == old(self).trace(),
            final(self).calls() == old(self).calls(),
            final(self).pending() == old(self).pending(),
    {
        self.compare_pos = 0;
        self.state = MultipartParserState::Header;
    }

    fn to_header_continue(&mut self)
        requires
            old(self).inv(),
            old(self).state is PostHeader,
        ensures
            final(self).inv(),
            final(self).framing() == (Framing {
                phase: MultipartParserState::Header,
                cp: 0,
                ..old(self).framing()
            }),
            final(self).boundary() == old(self).boundary(),
            final(self).required() == old(self).required(),
            final(self).trace() == old(self).trace(),
            final(self).calls() == old(self).calls(),
            final(self).pending() == old(self).pending(),
    {
        self.compare_pos = 0;
        self.state = MultipartParserState::Header;
    }

    fn to_post_header(&mut self)
        requires
            old(self).inv(),
            old(self).state is Header,
        ensures
            final(self).inv(),
            final(self).framing() == (Framing {
                phase: MultipartParserState::PostHeader,
                cp: 0,
                line: Seq::empty(),
                lines: crate::header::finish_line(
                    old(self).framing().lines,
                    old(self).framing().line,
                ),
                ..old(self).framing()
            }),
            final(self).boundary() == old(self).boundary(),
            final(self).required() == old(self).required(),
            final(self).trace() == old(self).trace(),
            final(self).calls() == old(self).calls(),
            final(self).pending() == old(self).pending(),
    {
        self.compare_pos = 0;
        self.headers_builder.flush();
        self.state = MultipartParserState::PostHeader;
        proof {
            self.lines@ = self.headers_builder.lines();
        }
    }

    /// Begins the body of a part: its headers are built, the target selects
    /// its sink, and the sink is opened. A part with an ill-formed header
    /// line gets no sink; the target is told of the line instead.
    fn to_content(&mut self, target: &mut T) -> (r: Result<(), IOError>)
        requires
            old(self).inv(),
            old(self).state is PostHeader,
        ensures
            final(self).inv(),
            final(self).framing() == (Framing {
                phase: MultipartParserState::Content,
                cp: 0,
                body: Seq::empty(),
                ..old(self).framing()
            }),
            final(self).boundary() == old(self).boundary(),
            final(self).required() == old(self).required(),
            trace_extends(old(self).trace(), final(self).trace()),
            final(self).pending().len() == 0,
            final(self).sink.disposition() == OnError::ContinueWithError,
            log_extends(old(self).calls(), final(self).calls(), *old(target), *final(target)),
            told_in(old(self).calls(), final(self).calls(), r),
            r is Err ==> final(self).sink.trace().refused,
    {
        let ghost lines = self.lines@;
        let headers = self.headers_builder.build();
        let mut result: Result<(), IOError> = Ok(());
        let mut selected: Option<T::Sink> = None;
        let ghost first: Call<T>;
        if headers.malformed.len() > 0 {
            let error = malformed_header_error(headers.malformed[0].clone());
            let ghost before = *target;
            let answer = target.error(&error);
            proof {
                first = Call::Told { before, error: error_model(error), answer, after: *target };
                assert(strings_view(headers.malformed@)[0] == headers.malformed@[0]@);
            }
            match answer {
                Ok(_) => {},
                Err(e) => {
                    result = Err(e);
                },
            }
        } else {
            selected = target.content_parser_generated(&headers);
            proof {
                first = Call::Asked { target: *target, headers, selected };
            }
        }
        if selected.is_some() {
            match headers.get_name() {
                Some(name) => {
                    remove_name(&mut self.unprocessed, name);
                },
                None => {},
            }
        }
        let ghost before = self.traces@;
        self.sink.processor_open(headers, selected, Ghost(lines), Ghost(first));
        self.compare_pos = 0;
        self.state = MultipartParserState::Content;
        proof {
            lemma_log_push(self.past_calls@, first);
            assert((self.past_calls@ + seq![first]).last() == first);
            self.body@ = Seq::empty();
            lemma_empty_body(self.boundary@);
            assert(self.headers_builder.line() =~= old(self).headers_builder.line());
            assert(self.trace().drop_last() =~= before);
            lemma_trace_extends_refl(before);
            let names = opened_names(before);
            let t = self.sink.trace();
            if t.opened && t.name is Some {
                assert(names.push(t.name->0).drop_last() =~= names);
            }
            assert(settled(Seq::<u8>::empty(), middle_delimiter(self.boundary@)) =~= Seq::<
                u8,
            >::empty());
        }
        result
    }

    /// Ends the part in progress: its sink gets the bytes that wait and is
    /// flushed.
    fn to_post_boundary(&mut self, target: &mut T)
        requires
            old(self).inv(),
            old(self).state is Content,
        ensures
            final(self).inv(),
            final(self).framing() == (Framing {
                phase: MultipartParserState::PostBoundary,
                cp: 0,
                lines: Seq::empty(),
                body: Seq::empty(),
                parts: old(self).framing().parts.push(
                    Part {
                        lines: old(self).framing().lines,
                        body: settled(
                            old(self).framing().body,
                            middle_delimiter(old(self).boundary()),
                        ),
                    },
                ),
                ..old(self).framing()
            }),
            final(self).boundary() == old(self).boundary(),
            final(self).required() == old(self).required(),
            trace_extends(old(self).trace(), final(self).trace()),
            final(self).pending().len() == 0,
            log_extends(old(self).calls(), final(self).calls(), *old(target), *final(target)),
            told_in(old(self).calls(), final(self).calls(), Ok(())),
    {
        let ghost names = opened_names(self.trace());
        let ghost before = self.traces@;
        let ghost past = self.past_calls@;
        let ghost log = self.sink.calls();
        self.sink.processor_flush(target);
        self.compare_pos = 0;
        self.state = MultipartParserState::PostBoundary;
        proof {
            let now = self.sink.calls();
            lemma_agrees_push(past, before, now, self.sink.trace());
            self.past_calls@ = past + now;
            assert((past + now).take((past + log).len() as int) =~= past + log) by {
                assert(now.take(log.len() as int) == log);
                assert forall|i: int| 0 <= i < log.len() implies now[i] == log[i] by {
                    assert(now.take(log.len() as int)[i] == log[i]);
                }
            }
            assert((past + now).skip((past + log).len() as int) =~= now.skip(log.len() as int));
            let middle = middle_delimiter(self.boundary@);
            let part = Part { lines: self.lines@, body: settled(self.body@, middle) };
            self.parts@ = self.parts@.push(part);
            self.traces@ = before.push(self.sink.trace());
            self.lines@ = Seq::empty();
            self.body@ = Seq::empty();
            assert(self.trace().drop_last() =~= before);
            assert(old(self).trace().drop_last() =~= before);
            assert(opened_names(self.trace()) == names);
            lemma_trace_extends_refl(before);
            assert(self.framing().line.len() == 0);
            assert(self.headers_builder.lines() =~= self.lines@);
            assert forall|i: int| 0 <= i < self.parts@.len() implies sealed(
                #[trigger] self.traces@[i],
                self.parts@[i].body,
            ) by {
                if i < old(self).parts@.len() {
                    assert(self.traces@[i] == old(self).traces@[i]);
                    assert(self.parts@[i] == old(self).parts@[i]);
                }
            }
            assert forall|i: int| 0 <= i < self.parts@.len() implies !occurs(
                #[trigger] self.parts@[i].body,
                middle,
            ) by {
                if i < old(self).parts@.len() {
                    assert(self.parts@[i] == old(self).parts@[i]);
                } else {
                    lemma_settled_without(old(self).body@, middle);
                }
            }
        }
    }

    fn to_finished(&mut self)
        requires
            old(self).inv(),
            old(self).state is PostBoundary,
        ensures
            final(self).inv(),
            final(self).framing() == (Framing {
                phase: MultipartParserState::Finished,
                ..old(self).framing()
            }),
            final(self).boundary() == old(self).boundary(),
            final(self).required() == old(self).required(),
            final(self).trace() == old(self).trace(),
            final(self).calls() == old(self).calls(),
            final(self).pending() == old(self).pending(),
    {
        self.state = MultipartParserState::Finished;
    }

    /// A byte of a header line when no `\r` waits for its `\n`.
    fn header_byte(&mut self, c: u8)
        requires
            old(self).inv(),
            old(self).state is Header,
            old(self).compare_pos == 0,
        ensures
            final(self).inv(),
            final(self).framing() == crate::framing::header_byte(old(self).framing(), c),
            final(self).boundary() == old(self).boundary(),
            final(self).required() == old(self).required(),
            final(self).trace() == old(self).trace(),
            final(self).calls() == old(self).calls(),
            final(self).pending() == old(self).pending(),
    {
        if c == self.empty_string[0] {
            self.compare_pos = 1;
        } else {
            self.headers_builder.write(c);
        }
    }

    /// Takes the byte `c` of the opening delimiter; `false` where the byte
    /// is not the one that is due.
    fn process_boundary_first(&mut self, c: u8) -> (r: bool)
        requires
            old(self).inv(),
            old(self).state is BoundaryFirst,
        ensures
            final(self).inv(),
            r == accepts(old(self).framing(), old(self).boundary(), c),
            final(self).framing() == step(old(self).framing(), old(self).boundary(), c),
            final(self).boundary() == old(self).boundary(),
            final(self).required() == old(self).required(),
            final(self).trace() == old(self).trace(),
            final(self).calls() == old(self).calls(),
            final(self).pending() == old(self).pending(),
    {
        let (sym_equal, boundary_equal) = self.compare(c, &self.boundary_first);
        if boundary_equal {
            self.to_header();
            return true;
        }
        if !sym_equal {
            return false;
        }
        self.compare_pos += 1;
        true
    }

    /// Takes a byte of a header line.
    fn process_header(&mut self, c: u8)
        requires
            old(self).inv(),
            old(self).state is Header,
        ensures
            final(self).inv(),
            final(self).framing() == step(old(self).framing(), old(self).boundary(), c),
            final(self).boundary() == old(self).boundary(),
            final(self).required() == old(self).required(),
            final(self).trace() == old(self).trace(),
            final(self).calls() == old(self).calls(),
            final(self).pending() == old(self).pending(),
    {
        let (sym_equal, boundary_equal) = self.compare(c, &self.empty_string);
        if boundary_equal {
            self.to_post_header();
            return ;
        }
        if sym_equal {
            self.compare_pos += 1;
        } else {
            if self.compare_pos > 0 {
                // the `\r` that was held back is a byte of the line
                let held = self.empty_string[0];
                self.compare_pos = 0;
                self.headers_builder.write(held);
                self.header_byte(c);
            } else {
                self.headers_builder.write(c);
            }
        }
    }

    /// Takes a byte after the end of a header line.
    fn process_post_header(&mut self, c: u8, target: &mut T) -> (r: Result<(), IOError>)
        requires
            old(self).inv(),
            old(self).state is PostHeader,
        ensures
            final(self).inv(),
            final(self).framing() == step(old(self).framing(), old(self).boundary(), c),
            final(self).boundary() == old(self).boundary(),
            final(self).required() == old(self).required(),
            trace_extends(old(self).trace(), final(self).trace()),
            final(self).pending().len() == 0,
            log_extends(old(self).calls(), final(self).calls(), *old(target), *final(target)),
            told_in(old(self).calls(), final(self).calls(), r),
            r is Err ==> final(self).state is Content && final(self).sink.trace().refused,
    {
        let (sym_equal, boundary_equal) = self.compare(c, &self.empty_string);
        if boundary_equal {
            return self.to_content(target);
        }
        proof {
            lemma_trace_extends_refl(self.trace());
            lemma_log_extends_refl(self.calls(), *target);
        }
        if sym_equal {
            self.compare_pos += 1;
        } else {
            let held = self.empty_string[0];
            let matched = self.compare_pos;
            self.to_header_continue();
            if matched > 0 {
                self.headers_builder.write(held);
            }
            self.header_byte(c);
        }
        Ok(())
    }

    /// Takes a byte of the body of a part. Bytes that may begin the
    /// delimiter are held back until the delimiter is complete or fails.
    fn process_content(&mut self, c: u8, target: &mut T) -> (r: Result<(), IOError>)
        requires
            old(self).inv(),
            old(self).state is Content,
        ensures
            final(self).inv(),
            final(self).framing() == step(old(self).framing(), old(self).boundary(), c),
            final(self).boundary() == old(self).boundary(),
            final(self).required() == old(self).required(),
            trace_extends(old(self).trace(), final(self).trace()),
            log_extends(old(self).calls(), final(self).calls(), *old(target), *final(target)),
            told_in(old(self).calls(), final(self).calls(), r),
            r is Err ==> final(self).state is Content && final(self).sink.trace().cut,
    {
        let ghost middle = middle_delimiter(self.boundary@);
        let ghost body = self.body@;
        let ghost read = body.push(c);
        let ghost cp = self.compare_pos as int;
        let ghost log = self.sink.calls();
        let ghost at = *target;
        proof {
            lemma_log_extends_refl(self.calls(), *target);
            lemma_overlap(body, middle);
            lemma_ends_with_push(body, middle, c);
            lemma_overlap_step(body, middle, c);
            lemma_settled_step(body, middle, c);
            lemma_occurs_push(body, middle, c);
            lemma_trace_extends_refl(self.traces@);
        }
        let (sym_equal, boundary_equal) = self.compare(c, &self.boundary_middle);
        if boundary_equal {
            assert(read.take(read.len() - middle.len()) =~= settled(body, middle));
            self.to_post_boundary(target);
            return Ok(());
        }
        if sym_equal {
            self.compare_pos += 1;
            proof {
                self.body@ = read;
                let w = window(middle, cp, c);
                assert(w =~= middle.take(cp + 1));
                assert(w.subrange(w.len() - (cp + 1), w.len() as int) =~= middle.take(cp + 1));
                lemma_overlap_unique(w, middle, cp + 1);
                assert(w.take(0) =~= Seq::<u8>::empty());
                assert(settled(body, middle) + Seq::<u8>::empty() =~= settled(body, middle));
                lemma_part_extends_refl(self.sink.trace());
                assert(self.framing() == step(old(self).framing(), old(self).boundary(), c));
            }
            Ok(())
        } else if self.compare_pos > 0 {
            self.flow_content(c, target)
        } else {
            let ghost before = self.sink.trace();
            let r = self.sink.processor_write_sym(c, target);
            proof {
                self.body@ = read;
                let w = window(middle, 0, c);
                lemma_overlap(w, middle);
                if overlap(w, middle) != 0 {
                    assert(w.subrange(w.len() - 1, w.len() as int)[0] == middle.take(1)[0]);
                }
                assert(w.take(1) =~= seq![c]);
                assert(settled(body, middle) + seq![c] =~= settled(body, middle).push(c));
                lemma_opened_names_last(self.traces@, before, self.sink.trace());
                lemma_log_lift(self.past_calls@, log, self.sink.calls(), at, *target, r);
            }
            r
        }
    }

    /// Takes a byte of the body that ends a beginning of the delimiter: the
    /// bytes held back that can no longer belong to the delimiter are passed
    /// on for the sink, and the longest end of the bytes read that still
    /// begins the delimiter stays held back.
    fn flow_content(&mut self, c: u8, target: &mut T) -> (r: Result<(), IOError>)
        requires
            old(self).inv(),
            old(self).state is Content,
            old(self).compare_pos > 0,
            c != middle_delimiter(old(self).boundary())[old(self).compare_pos as int],
        ensures
            final(self).inv(),
            final(self).framing() == step(old(self).framing(), old(self).boundary(), c),
            final(self).boundary() == old(self).boundary(),
            final(self).required() == old(self).required(),
            trace_extends(old(self).trace(), final(self).trace()),
            log_extends(old(self).calls(), final(self).calls(), *old(target), *final(target)),
            told_in(old(self).calls(), final(self).calls(), r),
            r is Err ==> final(self).state is Content && final(self).sink.trace().cut,
    {
        let ghost middle = middle_delimiter(self.boundary@);
        let ghost body = self.body@;
        let ghost before = self.sink.trace();
        let ghost log0 = self.sink.calls();
        let ghost at0 = *target;
        proof {
            lemma_overlap(body, middle);
            lemma_ends_with_push(body, middle, c);
            lemma_overlap_step(body, middle, c);
            lemma_settled_step(body, middle, c);
            lemma_occurs_push(body, middle, c);
            lemma_trace_extends_refl(self.traces@);
        }
        let cp = self.compare_pos;
        let next = next_overlap(&self.boundary_middle, cp, c);
        let leaving: usize = cp + 1 - next;
        let from_delimiter: usize = if leaving <= cp {
            leaving
        } else {
            cp
        };
        let mut result = self.sink.processor_write_from_to(
            &self.boundary_middle,
            0,
            from_delimiter,
            target,
        );
        let ghost mid = self.sink.trace();
        let ghost log1 = self.sink.calls();
        let ghost at1 = *target;
        let ghost first = result;
        if leaving > cp {
            match self.sink.processor_write_sym(c, target) {
                Ok(()) => {},
                Err(e) => {
                    result = Err(e);
                },
            }
        }
        self.compare_pos = next;
        proof {
            self.body@ = body.push(c);
            let w = window(middle, cp as int, c);
            if leaving > cp {
                assert(w.take(leaving as int) =~= middle.subrange(0, from_delimiter as int).push(c));
                assert(settled(body, middle) + w.take(leaving as int) =~= (settled(body, middle)
                    + middle.subrange(0, from_delimiter as int)).push(c));
            } else {
                assert(w.take(leaving as int) =~= middle.subrange(0, from_delimiter as int));
            }
            lemma_part_extends_refl(mid);
            lemma_part_extends_trans(before, mid, self.sink.trace());
            lemma_opened_names_last(self.traces@, before, self.sink.trace());
            let log2 = self.sink.calls();
            if leaving > cp {
                lemma_log_extends_trans(log0, log1, log2, at0, at1, *target);
                if first is Ok {
                    lemma_told_trans(log0, log1, log2, result);
                }
            }
            lemma_log_lift(self.past_calls@, log0, log2, at0, *target, result);
        }
        result
    }

    /// Takes a byte after a delimiter.
    fn process_post_boundary(&mut self, c: u8)
        requires
            old(self).inv(),
            old(self).state is PostBoundary,
        ensures
            final(self).inv(),
            final(self).framing() == step(old(self).framing(), old(self).boundary(), c),
            final(self).boundary() == old(self).boundary(),
            final(self).required() == old(self).required(),
            final(self).trace() == old(self).trace(),
            final(self).calls() == old(self).calls(),
            final(self).pending() == old(self).pending(),
    {
        if self.compare_pos >= 2 {
            return ;
        }
        let (_divider_sym_equal, divider_boundary_equal) = self.compare(c, &self.divider);
        let (_epilogue_sym_equal, epilogue_boundary_equal) = self.compare(c, &self.epilogue);
        if divider_boundary_equal {
            self.to_header();
        } else if epilogue_boundary_equal {
            self.to_finished();
        } else {
            self.compare_pos += 1;
        }
    }

    /// Takes the next chunk of the stream.
    ///
    /// The framing goes through the bytes of `buf` one by one. When the body
    /// of a part begins, the target selects the sink of the part and the
    /// sink is opened; the bytes of the body reach the sink in calls of
    /// `write`, the last of them before this call returns; when the
    /// delimiter after the body is complete the sink is flushed.
    ///
    /// `Ok` returns the length of `buf`. The call ends early at a byte that
    /// the opening delimiter refuses, which is not taken, and after a byte
    /// at which the target answered an error with `Err`, which is taken: the
    /// byte that began the body of a part with an ill-formed header line, or
    /// the byte that took a body beyond its size limit, and the rest of that
    /// body is then dropped.
    ///
    /// The calls of this call of `write` follow the calls made before, and
    /// lead from the target as it was handed over to the target as it is
    /// left: where there is none, the target is as it was. The result is
    /// `Err(Target(e))` exactly where the target answered the last of them
    /// with `Err(e)`; no other call was answered with an `Err`.
    pub fn write(&mut self, target: &mut T, buf: &[u8]) -> (r: Result<usize, WriteError>)
        requires
            old(self).wf(),
        ensures
            final(self).wf(),
            final(self).boundary() == old(self).boundary(),
            final(self).required() == old(self).required(),
            trace_extends(old(self).trace(), final(self).trace()),
            log_extends(old(self).calls(), final(self).calls(), *old(target), *final(target)),
            old(self).framing().phase is Finished ==> final(self).calls() == old(self).calls(),
            accepts_all(old(self).framing(), old(self).boundary(), buf@) <==> !(r matches Err(
                WriteError::InvalidFirstBoundary { .. },
            )),
            match r {
                Ok(n) => n == buf.len() && final(self).framing() == feed(
                    old(self).framing(),
                    old(self).boundary(),
                    buf@,
                ) && told_in(old(self).calls(), final(self).calls(), Ok(())),
                Err(WriteError::InvalidFirstBoundary { symbol, position }) => final(self).calls()
                    == old(self).calls() && exists|n: int|
                    {
                        &&& #[trigger] refused_at(
                            old(self).framing(),
                            old(self).boundary(),
                            buf@,
                            n,
                        )
                        &&& final(self).framing() == feed(
                            old(self).framing(),
                            old(self).boundary(),
                            buf@.take(n),
                        )
                        &&& symbol == buf@[n]
                        &&& position == final(self).framing().cp
                    },
                Err(WriteError::Target(e)) => {
                    &&& told_in(old(self).calls(), final(self).calls(), Err(e))
                    &&& final(self).framing().phase is Content
                    &&& final(self).trace().last().refused || final(self).trace().last().cut
                    &&& exists|n: int|
                        {
                            &&& 0 < n <= buf.len()
                            &&& final(self).framing() == feed(
                                old(self).framing(),
                                old(self).boundary(),
                                #[trigger] buf@.take(n),
                            )
                        }
                },
            },
    {
        let ghost f0 = self.framing();
        let ghost b = self.boundary@;
        let ghost t0 = self.trace();
        let ghost c0 = self.calls();
        let ghost tg0 = *target;
        let mut pos: usize = 0;
        proof {
            assert(buf@.take(0) =~= Seq::<u8>::empty());
            lemma_trace_extends_refl(t0);
            lemma_log_extends_refl(c0, tg0);
        }
        while pos < buf.len()
            invariant
                pos <= buf.len(),
                self.inv(),
                c0 == old(self).calls(),
                tg0 == *old(target),
                log_extends(c0, self.calls(), tg0, *target),
                told_in(c0, self.calls(), Ok(())),
                self.state is BoundaryFirst ==> self.calls() == c0,
                f0.phase is Finished ==> self.state is Finished && self.calls() == c0,
                self.boundary@ == b,
                b == old(self).boundary(),
                f0 == old(self).framing(),
                t0 == old(self).trace(),
                self.required() == old(self).required(),
                trace_extends(t0, self.trace()),
                accepts_all(f0, b, buf@.take(pos as int)),
                self.framing() == feed(f0, b, buf@.take(pos as int)),
            decreases buf.len() - pos,
        {
            let c = buf[pos];
            let ghost t1 = self.trace();
            let ghost head = buf@.take(pos + 1);
            proof {
                assert(head.drop_last() =~= buf@.take(pos as int));
                assert(head.last() == c);
                lemma_trace_extends_refl(t1);
                lemma_log_extends_refl(self.calls(), *target);
            }
            let ghost c1 = self.calls();
            let ghost tg1 = *target;
            let mut failure: Result<(), IOError> = Ok(());
            match self.state {
                MultipartParserState::BoundaryFirst => {
                    if !self.process_boundary_first(c) {
                        proof {
                            assert(refused_at(f0, b, buf@, pos as int));
                            lemma_refused(f0, b, buf@, pos as int);
                        }
                        return Err(
                            WriteError::InvalidFirstBoundary {
                                symbol: c,
                                position: self.compare_pos,
                            },
                        );
                    }
                },
                MultipartParserState::Header => {
                    self.process_header(c);
                },
                MultipartParserState::PostHeader => {
                    failure = self.process_post_header(c, target);
                },
                MultipartParserState::Content => {
                    failure = self.process_content(c, target);
                },
                MultipartParserState::PostBoundary => {
                    self.process_post_boundary(c);
                },
                MultipartParserState::Finished => {},
            }
            pos += 1;
            proof {
                lemma_trace_extends_trans(t0, t1, self.trace());
                lemma_log_extends_trans(c0, c1, self.calls(), tg0, tg1, *target);
                lemma_told_trans(c0, c1, self.calls(), failure);
            }
            match failure {
                Err(e) => {
                    let ghost t2 = self.trace();
                    let ghost last = self.sink.trace();
                    assert(self.state is Content && (last.refused || last.cut));
                    self.processor_write();
                    assert(self.trace().last() == self.sink.trace());
                    assert(part_extends(last, self.sink.trace()));
                    proof {
                        lemma_trace_extends_trans(t0, t2, self.trace());
                        assert(head + buf@.skip(pos as int) =~= buf@);
                        lemma_feed_concat(f0, b, head, buf@.skip(pos as int));
                        lemma_past_first(self.framing(), b, buf@.skip(pos as int));
                    }
                    return Err(WriteError::Target(e));
                },
                Ok(()) => {},
            }
        }
        let ghost t2 = self.trace();
        self.processor_write();
        proof {
            lemma_trace_extends_trans(t0, t2, self.trace());
            assert(buf@.take(buf.len() as int) =~= buf@);
        }
        Ok(buf.len())
    }

    /// Gives the sink of the part in progress the body bytes that wait.
    fn processor_write(&mut self)
        requires
            old(self).inv(),
        ensures
            final(self).wf(),
            final(self).state == old(self).state,
            final(self).calls() == old(self).calls(),
            part_extends(old(self).sink.trace(), final(self).sink.trace()),
            final(self).framing() == old(self).framing(),
            final(self).boundary() == old(self).boundary(),
            final(self).required() == old(self).required(),
            trace_extends(old(self).trace(), final(self).trace()),
    {
        let ghost before = self.sink.trace();
        self.sink.processor_write();
        proof {
            lemma_trace_extends_refl(self.traces@);
            lemma_opened_names_last(self.traces@, before, self.sink.trace());
        }
    }

    /// The error that the target is told when the stream has ended: the
    /// required names that are missing, where there are any.
    pub fn end_of_stream_error(&self) -> (r: Option<MultipartParseError>)
        ensures
            r is Some <==> self.missing().len() > 0,
            r matches Some(e) ==> e matches MultipartParseError::RequiredMissing(names)
                && strings_view(names@) == self.missing(),
    {
        if self.unprocessed.len() > 0 {
            Some(MultipartParseError::RequiredMissing(&self.unprocessed))
        } else {
            None
        }
    }

    /// The stream has ended: the target is told the error of
    /// [`MultipartParser::end_of_stream_error`], if there is one, and then
    /// that the stream has ended. What the target answers to the error is of
    /// no effect.
    pub fn flush(&self, target: &mut T) -> (r: Result<(), IOError>)
        requires
            self.wf(),
        ensures
            r is Ok,
            self.missing().len() == 0 ==> old(target).ends(*final(target)),
            self.missing().len() > 0 ==> exists|told: T, answer: Result<OnError, IOError>|
                #[trigger] old(target).tells(
                    ErrorModel::RequiredMissing(self.missing()),
                    told,
                    answer,
                ) && told.ends(*final(target)),
    {
        match self.end_of_stream_error() {
            Some(error) => {
                let answer = target.error(&error);
                let ghost told = *target;
                target.finish();
                proof {
                    assert(old(target).tells(
                        ErrorModel::RequiredMissing(self.missing()),
                        told,
                        answer,
                    ) && told.ends(*target));
                }
            },
            None => {
                target.finish();
            },
        }
        Ok(())
    }
}

} // verus!
