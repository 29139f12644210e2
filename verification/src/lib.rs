//! Streaming parser for `multipart/form-data` and the binding of parts to the
//! typed fields of a record.
//!
//! The parser takes the byte stream in chunks of any size, recognises the
//! delimiters, reads the headers of each part and hands the body of the part
//! to a sink that the target selects for it.
//!
//! Targets and sinks are what the user of the parser supplies. What their
//! methods do is said by spec functions of their traits, which a target or a
//! sink may define for itself; the parser keeps the calls that it makes on
//! them, and its contracts say which calls these are and that each did what
//! the target or the sink says of itself.
//!
//! ```rust,ignore
//! let mut record = Record::new();
//! let text = record.add_field("text1", TargetKind { base: BaseKind::Text, optional: false }, true, None);
//! let mut parser: MultipartParser<Record> = MultipartParser::new_from_str(boundary, &record);
//! for chunk in chunks {
//!     parser.write(&mut record, chunk)?;
//! }
//! parser.flush(&mut record)?;
//! let value = record.get(text);
//! ```
//!
//! The modules, from the ground up:
//!
//! * [`text`], [`header`]: header lines and the headers of a part;
//! * [`matcher`], [`framing`], [`wire`]: the search for the delimiter, the
//!   framing of a stream as a state machine, and the stream that parts make;
//! * [`multipart_parser`]: the parser, which follows the framing and drives
//!   the sinks;
//! * [`process_content`], [`convert`], [`try_from`]: sinks, and the typed
//!   conversions of what a sink has gathered;
//! * [`record`]: the binding of parts to the fields of a record;
//! * [`attributes_utils`], [`multipart_field`], [`multipart_struct`]: the
//!   description of a record by attributes;
//! * [`laws`]: what holds for all streams.

use std::io::Error as IOError;
use std::num::{ParseFloatError, ParseIntError};
use std::str::ParseBoolError;
use std::string::FromUtf8Error;
use vstd::prelude::*;

pub mod attributes_utils;
pub mod boundary_builder;
pub mod convert;
pub mod framing;
pub mod header;
pub mod laws;
pub mod matcher;
pub mod multipart_field;
pub mod multipart_parser;
pub mod multipart_struct;
pub mod process_content;
pub mod record;
pub mod text;
pub mod to_multipart_parse_error;
pub mod try_from;
pub mod wire;

pub use crate::header::{Header, Headers};
use crate::header::strings_view;
use crate::record::{error_model, ErrorModel};

verus! {

/// `std::io::Error`: the error with which a target ends the stream. The
/// library hands it on as it is.
#[verifier::external_type_specification]
#[verifier::external_body]
pub struct ExIOError(IOError);

/// `std::num::ParseIntError`: why a text is no number. The library hands it
/// on as it is.
#[verifier::external_type_specification]
#[verifier::external_body]
pub struct ExParseIntError(ParseIntError);

/// `std::num::ParseFloatError`: why a text is no number with a fraction.
/// The library hands it on as it is.
#[verifier::external_type_specification]
#[verifier::external_body]
pub struct ExParseFloatError(ParseFloatError);

/// `std::str::ParseBoolError`: why a text is no truth value. The library
/// hands it on as it is.
#[verifier::external_type_specification]
#[verifier::external_body]
pub struct ExParseBoolError(ParseBoolError);

/// What a sink declares about the part it takes.
pub struct ProcessParams {
    /// Name of the part.
    pub name: String,
    /// Largest accepted size of the body in bytes; `None` is unlimited.
    pub max_size: Option<usize>,
}

impl ProcessParams {
    /// The declaration of a sink for the part `name` with the size limit
    /// `max_size`.
    pub fn new(name: &str, max_size: Option<usize>) -> (r: ProcessParams)
        ensures
            r.name@ == name@,
            r.max_size == max_size,
    {
        ProcessParams { name: name.to_owned(), max_size }
    }
}

/// What the parser does with the rest of a part after an error.
///
/// A body that grows beyond its size limit is told once for a part: after
/// the answer the limit is no longer in force, so that both answers that go
/// on give the sink the whole body.
#[derive(PartialEq, Eq, Structural, Clone, Copy, Debug)]
pub enum OnError {
    /// Go on writing the part; report no further error for it.
    ContinueWithoutError,
    /// Go on writing the part; further errors may be reported.
    ContinueWithError,
    /// Drop the rest of the body of the part; its sink is still flushed.
    Skip,
}

/// An error that the parser or a sink reports to the target.
pub enum MultipartParseError<'a> {
    /// No error: what a conversion that cannot fail gives for its cause.
    NoError,
    /// Required parts that the stream did not hold; reported when the stream
    /// has ended.
    RequiredMissing(&'a Vec<String>),
    /// The body of the named part grew beyond the given limit.
    SizeLimit(String, usize),
    /// Part name, raw body, cause.
    ParseFloatError(String, &'a Vec<u8>, &'a ParseFloatError),
    /// Part name, raw body, cause.
    ParseIntError(String, &'a Vec<u8>, &'a ParseIntError),
    /// Part name, raw body, cause.
    ParseBoolError(String, &'a Vec<u8>, &'a ParseBoolError),
    /// Part name, cause.
    ParseStrError(String, &'a FromUtf8Error),
    /// A header line of a part that is no well-formed header.
    MalformedHeader(String),
}

/// The sink that takes the body of one part. The parser calls `open` once
/// when the part begins, `write` for each run of body bytes in order, and
/// `flush` once when the part has ended.
///
/// What the methods of a sink do is said by four spec functions. A sink that
/// says nothing of itself leaves them as they are, and nothing is then known
/// of what it does.
pub trait ProcessContent<T>: Sized {
    /// Whether the sink takes body bytes: from `open` until `flush`. A sink
    /// that takes bytes at any time need not say so.
    open spec fn is_open(&self) -> bool {
        true
    }

    /// Whether the sink declares the name `name` and the size limit
    /// `max_size`.
    open spec fn declares(&self, name: Seq<char>, max_size: Option<usize>) -> bool {
        true
    }

    /// Whether this is the sink `origin` after `origin` was opened with the
    /// headers `headers` and then given the bytes `taken`, in calls of
    /// `write` with those headers taken together.
    open spec fn holds(&self, origin: Self, headers: Headers, taken: Seq<u8>) -> bool {
        true
    }

    /// Whether `flush` on this sink may make `after` of the target `before`.
    open spec fn flushes(&self, headers: Headers, before: T, after: T) -> bool {
        true
    }

    /// Begins a part with the given headers.
    fn open(&mut self, headers: &Headers)
        ensures
            final(self).is_open(),
            final(self).holds(*old(self), *headers, Seq::empty()),
    ;

    /// Takes the next bytes of the body.
    fn write(&mut self, headers: &Headers, data: &Vec<u8>)
        requires
            old(self).is_open(),
        ensures
            final(self).is_open(),
            forall|origin: Self, taken: Seq<u8>| #[trigger]
                old(self).holds(origin, *headers, taken) ==> final(self).holds(
                    origin,
                    *headers,
                    taken + data@,
                ),
    ;

    /// Ends the part. The sink may store what it gathered in `target` or
    /// report an error to it.
    fn flush(&mut self, headers: &Headers, target: &mut T)
        requires
            old(self).is_open(),
        ensures
            old(self).flushes(*headers, *old(target), *final(target)),
    ;

    /// The name and size limit that the sink declares.
    fn get_process_params(&self) -> (r: &ProcessParams)
        ensures
            self.declares(r.name@, r.max_size),
    ;
}

/// What the user of the parser supplies: sinks for parts, the handling of
/// errors and the end of the stream.
///
/// What `error` and `finish` do to a target is said by two spec functions. A
/// target that says nothing of itself leaves them as they are, and nothing is
/// then known of what it does.
pub trait MultipartParserTarget: Sized {
    /// The sinks that this target selects for its parts.
    type Sink: ProcessContent<Self>;

    /// Whether this target, told the error `error`, may become `after` and
    /// give the answer `answer`.
    open spec fn tells(&self, error: ErrorModel, after: Self, answer: Result<OnError, IOError>)
        -> bool {
        true
    }

    /// Whether this target, told that the stream has ended, may become
    /// `after`.
    open spec fn ends(&self, after: Self) -> bool {
        true
    }

    /// Selects the sink for a part that the record itself does not bind.
    fn content_parser(&self, _headers: &Headers) -> (r: Option<Self::Sink>)
        default_ensures
            r is None,
    {
        None
    }

    /// Handles an error. `Ok` tells the parser how to go on with the part;
    /// `Err` ends the stream.
    fn error(&mut self, error: &MultipartParseError) -> (r: Result<OnError, IOError>)
        ensures
            old(self).tells(error_model(*error), *final(self), r),
    ;

    /// The stream has ended.
    fn finish(&mut self)
        ensures
            old(self).ends(*final(self)),
    ;
}

/// Turns the cause of a failed conversion into the error that the target is
/// told.
pub trait ToMultipartParseError<'a> {
    /// `name` is the name of the part, `raw_data` its body.
    fn to_multipart_parse_error(&'a self, name: String, raw_data: &'a Vec<u8>)
        -> MultipartParseError<'a>;
}

/// What the binding of a record supplies: the names of the required parts and
/// the sink for each part.
pub trait MultipartParserTargetGenerated: MultipartParserTarget {
    /// Whether `names` are the names of the parts that this target
    /// requires.
    open spec fn requires_names(&self, names: Seq<Seq<char>>) -> bool {
        true
    }

    /// Whether this target may select `sink` for a part with the headers
    /// `headers`.
    open spec fn selects(&self, headers: Headers, sink: Option<Self::Sink>) -> bool {
        true
    }

    /// The names of the parts that the stream must hold.
    fn get_all_required(&self) -> (r: Vec<String>)
        ensures
            self.requires_names(strings_view(r@)),
    ;

    /// Selects the sink for a part, or none: the part is then passed over.
    fn content_parser_generated(&self, headers: &Headers) -> (r: Option<Self::Sink>)
        ensures
            self.selects(*headers, r),
    ;
}

} // verus!
