//! The binding of parts to the typed fields of a record.
//!
//! A record is described by its fields: the name of the part that fills
//! each, the kind of value that the body is converted to, whether the part
//! is required, and the size limit of its body. The record selects for each
//! part the sink of the field that bears the part's name. The sink gathers
//! the body and converts it when the part has ended: the value is stored in
//! the field, or, where the conversion fails, the record is told the error
//! and the field keeps what it held.

use crate::convert::{
    bool_of, int_of, text_of, to_bool, to_bytes, to_i16, to_i32, to_i64, to_i8, to_text, to_u16,
    to_u32, to_u64, to_u8,
};
use crate::header::{strings_view, Headers};
use crate::multipart_parser::{concat, part_name};
use crate::process_content::DefaultProcessor;
use crate::{
    MultipartParseError, MultipartParserTarget, MultipartParserTargetGenerated, OnError,
    ProcessContent, ProcessParams, ToMultipartParseError,
};
use std::io::Error as IOError;
use std::num::ParseIntError;
use std::str::ParseBoolError;
use std::string::FromUtf8Error;
use vstd::prelude::*;
use vstd::utf8::valid_utf8;

verus! {

/// The kinds of value that a body is converted to.
#[derive(PartialEq, Eq, Structural, Clone, Copy, Debug)]
pub enum BaseKind {
    Bytes,
    Text,
    Bool,
    I8,
    I16,
    I32,
    I64,
    U8,
    U16,
    U32,
    U64,
}

/// The kind of a field: a kind of value, or the optional form of one.
#[derive(PartialEq, Eq, Structural, Clone, Copy, Debug)]
pub struct TargetKind {
    pub base: BaseKind,
    pub optional: bool,
}

/// A value of one of the kinds.
#[derive(Debug)]
pub enum Scalar {
    Bytes(Vec<u8>),
    Text(String),
    Bool(bool),
    I8(i8),
    I16(i16),
    I32(i32),
    I64(i64),
    U8(u8),
    U16(u16),
    U32(u32),
    U64(u64),
}

/// What a [`Scalar`] holds.
pub enum ScalarModel {
    Bytes(Seq<u8>),
    Text(Seq<char>),
    Bool(bool),
    I8(i8),
    I16(i16),
    I32(i32),
    I64(i64),
    U8(u8),
    U16(u16),
    U32(u32),
    U64(u64),
}

impl View for Scalar {
    type V = ScalarModel;

    open spec fn view(&self) -> ScalarModel {
        match self {
            Scalar::Bytes(v) => ScalarModel::Bytes(v@),
            Scalar::Text(s) => ScalarModel::Text(s@),
            Scalar::Bool(b) => ScalarModel::Bool(*b),
            Scalar::I8(n) => ScalarModel::I8(*n),
            Scalar::I16(n) => ScalarModel::I16(*n),
            Scalar::I32(n) => ScalarModel::I32(*n),
            Scalar::I64(n) => ScalarModel::I64(*n),
            Scalar::U8(n) => ScalarModel::U8(*n),
            Scalar::U16(n) => ScalarModel::U16(*n),
            Scalar::U32(n) => ScalarModel::U32(*n),
            Scalar::U64(n) => ScalarModel::U64(*n),
        }
    }
}

/// The value of a field.
#[derive(Debug)]
pub enum Value {
    Plain(Scalar),
    Optional(Option<Scalar>),
}

/// What a [`Value`] holds.
pub enum ValueModel {
    Plain(ScalarModel),
    Optional(Option<ScalarModel>),
}

impl View for Value {
    type V = ValueModel;

    open spec fn view(&self) -> ValueModel {
        match self {
            Value::Plain(s) => ValueModel::Plain(s@),
            Value::Optional(Some(s)) => ValueModel::Optional(Some(s@)),
            Value::Optional(None) => ValueModel::Optional(None),
        }
    }
}

/// The value of kind `base` that the body `raw` stands for, if any.
pub open spec fn scalar_of(base: BaseKind, raw: Seq<u8>) -> Option<ScalarModel> {
    match base {
        BaseKind::Bytes => Some(ScalarModel::Bytes(raw)),
        BaseKind::Text => match text_of(raw) {
            Some(s) => Some(ScalarModel::Text(s)),
            None => None,
        },
        BaseKind::Bool => match bool_of(raw) {
            Some(b) => Some(ScalarModel::Bool(b)),
            None => None,
        },
        BaseKind::I8 => match int_of(raw, true, i8::MIN as int, i8::MAX as int) {
            Some(n) => Some(ScalarModel::I8(n as i8)),
            None => None,
        },
        BaseKind::I16 => match int_of(raw, true, i16::MIN as int, i16::MAX as int) {
            Some(n) => Some(ScalarModel::I16(n as i16)),
            None => None,
        },
        BaseKind::I32 => match int_of(raw, true, i32::MIN as int, i32::MAX as int) {
            Some(n) => Some(ScalarModel::I32(n as i32)),
            None => None,
        },
        BaseKind::I64 => match int_of(raw, true, i64::MIN as int, i64::MAX as int) {
            Some(n) => Some(ScalarModel::I64(n as i64)),
            None => None,
        },
        BaseKind::U8 => match int_of(raw, false, u8::MIN as int, u8::MAX as int) {
            Some(n) => Some(ScalarModel::U8(n as u8)),
            None => None,
        },
        BaseKind::U16 => match int_of(raw, false, u16::MIN as int, u16::MAX as int) {
            Some(n) => Some(ScalarModel::U16(n as u16)),
            None => None,
        },
        BaseKind::U32 => match int_of(raw, false, u32::MIN as int, u32::MAX as int) {
            Some(n) => Some(ScalarModel::U32(n as u32)),
            None => None,
        },
        BaseKind::U64 => match int_of(raw, false, u64::MIN as int, u64::MAX as int) {
            Some(n) => Some(ScalarModel::U64(n as u64)),
            None => None,
        },
    }
}

/// The value of kind `kind` that the body `raw` stands for, if any. The
/// optional form of a kind is present whenever the body converts.
pub open spec fn value_of(kind: TargetKind, raw: Seq<u8>) -> Option<ValueModel> {
    match scalar_of(kind.base, raw) {
        Some(s) => Some(
            if kind.optional {
                ValueModel::Optional(Some(s))
            } else {
                ValueModel::Plain(s)
            },
        ),
        None => None,
    }
}

/// Whether some body does not convert to the kind `kind`.
pub open spec fn may_fail(kind: TargetKind) -> bool {
    exists|raw: Seq<u8>| value_of(kind, raw) is None
}

/// Whether some body does not convert to the kind `kind`: every body is
/// bytes, and for every other kind there is a body that is none of it.
pub fn can_fail(kind: TargetKind) -> (r: bool)
    ensures
        r == may_fail(kind),
{
    proof {
        let bad = seq![0xffu8];
        assert(!valid_utf8(bad)) by {
            assert(bad[0] == 0xffu8);
            assert(!vstd::utf8::valid_first_scalar(bad));
        }
        if kind.base != BaseKind::Bytes {
            assert(value_of(kind, bad) is None);
        }
    }
    match kind.base {
        BaseKind::Bytes => false,
        _ => true,
    }
}

/// What a field of kind `kind` holds before any part has filled it.
pub open spec fn default_model(kind: TargetKind) -> ValueModel {
    if kind.optional {
        ValueModel::Optional(None)
    } else {
        ValueModel::Plain(
            match kind.base {
                BaseKind::Bytes => ScalarModel::Bytes(Seq::empty()),
                BaseKind::Text => ScalarModel::Text(Seq::empty()),
                BaseKind::Bool => ScalarModel::Bool(false),
                BaseKind::I8 => ScalarModel::I8(0),
                BaseKind::I16 => ScalarModel::I16(0),
                BaseKind::I32 => ScalarModel::I32(0),
                BaseKind::I64 => ScalarModel::I64(0),
                BaseKind::U8 => ScalarModel::U8(0),
                BaseKind::U16 => ScalarModel::U16(0),
                BaseKind::U32 => ScalarModel::U32(0),
                BaseKind::U64 => ScalarModel::U64(0),
            },
        )
    }
}

/// What a field of kind `kind` holds before any part has filled it.
pub fn default_value(kind: TargetKind) -> (r: Value)
    ensures
        r@ == default_model(kind),
{
    if kind.optional {
        Value::Optional(None)
    } else {
        Value::Plain(
            match kind.base {
                BaseKind::Bytes => Scalar::Bytes(Vec::new()),
                BaseKind::Text => Scalar::Text(String::new()),
                BaseKind::Bool => Scalar::Bool(false),
                BaseKind::I8 => Scalar::I8(0),
                BaseKind::I16 => Scalar::I16(0),
                BaseKind::I32 => Scalar::I32(0),
                BaseKind::I64 => Scalar::I64(0),
                BaseKind::U8 => Scalar::U8(0),
                BaseKind::U16 => Scalar::U16(0),
                BaseKind::U32 => Scalar::U32(0),
                BaseKind::U64 => Scalar::U64(0),
            },
        )
    }
}

/// Why a body does not convert.
pub enum ConversionError {
    /// The body is no UTF-8, and text was asked for.
    Str(FromUtf8Error),
    /// The body is no number of the kind asked for.
    Int(ParseIntError),
    /// The body is no truth value.
    Bool(ParseBoolError),
}

/// The variant of [`ConversionError`] with which a conversion to `base`
/// fails.
pub open spec fn fails_as(base: BaseKind, e: ConversionError) -> bool {
    match base {
        BaseKind::Bytes => false,
        BaseKind::Text => e is Str,
        BaseKind::Bool => e is Bool,
        _ => e is Int,
    }
}

/// Converts the body that `processor` has gathered to a value of kind `base`.
pub fn convert_scalar(base: BaseKind, processor: &DefaultProcessor) -> (r: Result<
    Scalar,
    ConversionError,
>)
    ensures
        match scalar_of(base, processor.raw()) {
            Some(s) => r is Ok && r->Ok_0@ == s,
            None => r is Err && fails_as(base, r->Err_0),
        },
{
    match base {
        BaseKind::Bytes => Ok(Scalar::Bytes(to_bytes(processor))),
        BaseKind::Text => match to_text(processor) {
            Ok(s) => Ok(Scalar::Text(s)),
            Err(e) => Err(ConversionError::Str(e)),
        },
        BaseKind::Bool => match to_bool(processor) {
            Ok(b) => Ok(Scalar::Bool(b)),
            Err(e) => Err(ConversionError::Bool(e)),
        },
        BaseKind::I8 => match to_i8(processor) {
            Ok(n) => Ok(Scalar::I8(n)),
            Err(e) => Err(ConversionError::Int(e)),
        },
        BaseKind::I16 => match to_i16(processor) {
            Ok(n) => Ok(Scalar::I16(n)),
            Err(e) => Err(ConversionError::Int(e)),
        },
        BaseKind::I32 => match to_i32(processor) {
            Ok(n) => Ok(Scalar::I32(n)),
            Err(e) => Err(ConversionError::Int(e)),
        },
        BaseKind::I64 => match to_i64(processor) {
            Ok(n) => Ok(Scalar::I64(n)),
            Err(e) => Err(ConversionError::Int(e)),
        },
        BaseKind::U8 => match to_u8(processor) {
            Ok(n) => Ok(Scalar::U8(n)),
            Err(e) => Err(ConversionError::Int(e)),
        },
        BaseKind::U16 => match to_u16(processor) {
            Ok(n) => Ok(Scalar::U16(n)),
            Err(e) => Err(ConversionError::Int(e)),
        },
        BaseKind::U32 => match to_u32(processor) {
            Ok(n) => Ok(Scalar::U32(n)),
            Err(e) => Err(ConversionError::Int(e)),
        },
        BaseKind::U64 => match to_u64(processor) {
            Ok(n) => Ok(Scalar::U64(n)),
            Err(e) => Err(ConversionError::Int(e)),
        },
    }
}

/// Converts the body that `processor` has gathered to a value of kind `kind`.
pub fn convert(kind: TargetKind, processor: &DefaultProcessor) -> (r: Result<
    Value,
    ConversionError,
>)
    ensures
        match value_of(kind, processor.raw()) {
            Some(v) => r is Ok && r->Ok_0@ == v,
            None => r is Err && fails_as(kind.base, r->Err_0),
        },
{
    match convert_scalar(kind.base, processor) {
        Ok(s) => Ok(
            if kind.optional {
                Value::Optional(Some(s))
            } else {
                Value::Plain(s)
            },
        ),
        Err(e) => Err(e),
    }
}

/// The description of one field of a record.
pub struct FieldDescriptor {
    /// The place of the field in the record.
    pub field_id: usize,
    /// The name of the part that fills the field.
    pub part_name: String,
    /// The kind of value that the body is converted to.
    pub target_kind: TargetKind,
    /// Whether the stream must hold the part.
    pub required: bool,
    /// The size limit of the body; `None` is unlimited.
    pub max_size: Option<usize>,
}

/// What a [`FieldDescriptor`] holds.
pub struct FieldModel {
    pub field_id: usize,
    pub part_name: Seq<char>,
    pub target_kind: TargetKind,
    pub required: bool,
    pub max_size: Option<usize>,
}

impl View for FieldDescriptor {
    type V = FieldModel;

    open spec fn view(&self) -> FieldModel {
        FieldModel {
            field_id: self.field_id,
            part_name: self.part_name@,
            target_kind: self.target_kind,
            required: self.required,
            max_size: self.max_size,
        }
    }
}

/// An error that a record was told, as the record keeps it.
#[derive(Debug)]
pub enum RecordedError {
    NoError,
    RequiredMissing(Vec<String>),
    SizeLimit(String, usize),
    /// Part name and raw body.
    ParseFloatError(String, Vec<u8>),
    /// Part name and raw body.
    ParseIntError(String, Vec<u8>),
    /// Part name and raw body.
    ParseBoolError(String, Vec<u8>),
    /// Part name.
    ParseStrError(String),
    MalformedHeader(String),
}

/// What a [`RecordedError`] holds.
pub enum ErrorModel {
    NoError,
    RequiredMissing(Seq<Seq<char>>),
    SizeLimit(Seq<char>, usize),
    ParseFloatError(Seq<char>, Seq<u8>),
    ParseIntError(Seq<char>, Seq<u8>),
    ParseBoolError(Seq<char>, Seq<u8>),
    ParseStrError(Seq<char>),
    MalformedHeader(Seq<char>),
}

impl View for RecordedError {
    type V = ErrorModel;

    open spec fn view(&self) -> ErrorModel {
        match self {
            RecordedError::NoError => ErrorModel::NoError,
            RecordedError::RequiredMissing(names) => ErrorModel::RequiredMissing(
                strings_view(names@),
            ),
            RecordedError::SizeLimit(name, limit) => ErrorModel::SizeLimit(name@, *limit),
            RecordedError::ParseFloatError(name, raw) => ErrorModel::ParseFloatError(name@, raw@),
            RecordedError::ParseIntError(name, raw) => ErrorModel::ParseIntError(name@, raw@),
            RecordedError::ParseBoolError(name, raw) => ErrorModel::ParseBoolError(name@, raw@),
            RecordedError::ParseStrError(name) => ErrorModel::ParseStrError(name@),
            RecordedError::MalformedHeader(line) => ErrorModel::MalformedHeader(line@),
        }
    }
}

/// What a record keeps of the error `error`: all but the cause.
pub open spec fn error_model(error: MultipartParseError) -> ErrorModel {
    match error {
        MultipartParseError::NoError => ErrorModel::NoError,
        MultipartParseError::RequiredMissing(names) => ErrorModel::RequiredMissing(
            strings_view(names@),
        ),
        MultipartParseError::SizeLimit(name, limit) => ErrorModel::SizeLimit(name@, limit),
        MultipartParseError::ParseFloatError(name, raw, _) => ErrorModel::ParseFloatError(
            name@,
            raw@,
        ),
        MultipartParseError::ParseIntError(name, raw, _) => ErrorModel::ParseIntError(name@, raw@),
        MultipartParseError::ParseBoolError(name, raw, _) => ErrorModel::ParseBoolError(
            name@,
            raw@,
        ),
        MultipartParseError::ParseStrError(name, _) => ErrorModel::ParseStrError(name@),
        MultipartParseError::MalformedHeader(line) => ErrorModel::MalformedHeader(line@),
    }
}

/// A copy of a list of names.
pub fn clone_names(names: &Vec<String>) -> (r: Vec<String>)
    ensures
        strings_view(r@) == strings_view(names@),
{
    let mut r: Vec<String> = Vec::new();
    let mut i: usize = 0;
    while i < names.len()
        invariant
            i <= names.len(),
            r.len() == i,
            forall|j: int| 0 <= j < i ==> r@[j]@ == names@[j]@,
        decreases names.len() - i,
    {
        r.push(names[i].clone());
        i += 1;
    }
    assert(strings_view(r@) =~= strings_view(names@));
    r
}

/// What a record keeps of the error `error`.
pub fn record_error(error: &MultipartParseError) -> (r: RecordedError)
    ensures
        r@ == error_model(*error),
{
    match error {
        MultipartParseError::NoError => RecordedError::NoError,
        MultipartParseError::RequiredMissing(names) => RecordedError::RequiredMissing(
            clone_names(names),
        ),
        MultipartParseError::SizeLimit(name, limit) => RecordedError::SizeLimit(
            name.clone(),
            *limit,
        ),
        MultipartParseError::ParseFloatError(name, raw, _) => RecordedError::ParseFloatError(
            name.clone(),
            (*raw).clone(),
        ),
        MultipartParseError::ParseIntError(name, raw, _) => RecordedError::ParseIntError(
            name.clone(),
            (*raw).clone(),
        ),
        MultipartParseError::ParseBoolError(name, raw, _) => RecordedError::ParseBoolError(
            name.clone(),
            (*raw).clone(),
        ),
        MultipartParseError::ParseStrError(name, _) => RecordedError::ParseStrError(name.clone()),
        MultipartParseError::MalformedHeader(line) => RecordedError::MalformedHeader(
            line.clone(),
        ),
    }
}

/// A record: its fields, their values, and the errors it was told.
pub struct Record {
    fields: Vec<FieldDescriptor>,
    values: Vec<Value>,
    errors: Vec<RecordedError>,
    answer: OnError,
    finished: bool,
}

/// What a [`Record`] holds.
pub struct RecordModel {
    /// The fields, each at the place that its `field_id` names.
    pub fields: Seq<FieldModel>,
    /// The value of each field.
    pub values: Seq<ValueModel>,
    /// The errors that the record was told, in order.
    pub errors: Seq<ErrorModel>,
    /// What the record answers to an error.
    pub answer: OnError,
    /// Whether the record was told that the stream has ended.
    pub finished: bool,
}

/// The models of a list of fields.
pub open spec fn fields_view(v: Seq<FieldDescriptor>) -> Seq<FieldModel> {
    v.map_values(|f: FieldDescriptor| f@)
}

/// The models of a list of values.
pub open spec fn values_view(v: Seq<Value>) -> Seq<ValueModel> {
    v.map_values(|x: Value| x@)
}

/// The models of a list of errors.
pub open spec fn errors_view(v: Seq<RecordedError>) -> Seq<ErrorModel> {
    v.map_values(|e: RecordedError| e@)
}

/// The names of the required fields among `fields`, in order.
pub open spec fn required_names(fields: Seq<FieldModel>) -> Seq<Seq<char>>
    decreases fields.len(),
{
    if fields.len() == 0 {
        Seq::empty()
    } else {
        let front = required_names(fields.drop_last());
        if fields.last().required {
            front.push(fields.last().part_name)
        } else {
            front
        }
    }
}

/// The place of the first field among `fields` that the part `name` fills.
pub open spec fn field_for(fields: Seq<FieldModel>, name: Seq<char>) -> Option<int>
    decreases fields.len(),
{
    if fields.len() == 0 {
        None
    } else {
        match field_for(fields.drop_last(), name) {
            Some(i) => Some(i),
            None => if fields.last().part_name == name {
                Some(fields.len() - 1)
            } else {
                None
            },
        }
    }
}

/// The first field that a part fills lies among the fields and bears the
/// name of the part, and no field before it does.
pub proof fn lemma_field_for(fields: Seq<FieldModel>, name: Seq<char>)
    ensures
        match field_for(fields, name) {
            Some(i) => 0 <= i < fields.len() && fields[i].part_name == name && forall|j: int|
                0 <= j < i ==> fields[j].part_name != name,
            None => forall|j: int| 0 <= j < fields.len() ==> fields[j].part_name != name,
        },
    decreases fields.len(),
{
    if fields.len() > 0 {
        let front = fields.drop_last();
        lemma_field_for(front, name);
        match field_for(front, name) {
            Some(i) => {
                assert(fields[i] == front[i]);
                assert forall|j: int| 0 <= j < i implies fields[j].part_name != name by {
                    assert(fields[j] == front[j]);
                }
            },
            None => {
                assert forall|j: int| 0 <= j < fields.len() - 1 implies fields[j].part_name
                    != name by {
                    assert(fields[j] == front[j]);
                }
            },
        }
    }
}

impl View for Record {
    type V = RecordModel;

    closed spec fn view(&self) -> RecordModel {
        RecordModel {
            fields: fields_view(self.fields@),
            values: values_view(self.values@),
            errors: errors_view(self.errors@),
            answer: self.answer,
            finished: self.finished,
        }
    }
}

/// What holds of the model of every record: each field has a value, and
/// stands at the place that its `field_id` names.
pub open spec fn record_wf(r: RecordModel) -> bool {
    &&& r.values.len() == r.fields.len()
    &&& forall|i: int| 0 <= i < r.fields.len() ==> (#[trigger] r.fields[i]).field_id == i
}

impl Record {
    /// What holds of every record.
    pub open spec fn wf(&self) -> bool {
        record_wf(self@)
    }

    /// A record without fields. It answers `ContinueWithoutError` to errors.
    pub fn new() -> (r: Record)
        ensures
            r.wf(),
            r@.fields.len() == 0,
            r@.errors.len() == 0,
            r@.answer == OnError::ContinueWithoutError,
            !r@.finished,
    {
        Record {
            fields: Vec::new(),
            values: Vec::new(),
            errors: Vec::new(),
            answer: OnError::ContinueWithoutError,
            finished: false,
        }
    }

    /// Adds a field to the record and returns its `field_id`. The field
    /// holds the default of its kind.
    pub fn add_field(
        &mut self,
        part_name: &str,
        target_kind: TargetKind,
        required: bool,
        max_size: Option<usize>,
    ) -> (id: usize)
        ensures
            old(self).wf() ==> final(self).wf(),
            id == old(self)@.fields.len(),
            final(self)@.fields == old(self)@.fields.push(
                FieldModel {
                    field_id: id,
                    part_name: part_name@,
                    target_kind,
                    required,
                    max_size,
                },
            ),
            final(self)@.values == old(self)@.values.push(default_model(target_kind)),
            final(self)@.errors == old(self)@.errors,
            final(self)@.answer == old(self)@.answer,
            final(self)@.finished == old(self)@.finished,
    {
        let id = self.fields.len();
        let field = FieldDescriptor {
            field_id: id,
            part_name: part_name.to_owned(),
            target_kind,
            required,
            max_size,
        };
        let value = default_value(target_kind);
        let ghost fields = fields_view(self.fields@);
        let ghost values = values_view(self.values@);
        self.fields.push(field);
        self.values.push(value);
        assert(fields_view(self.fields@) =~= fields.push(field@));
        assert(values_view(self.values@) =~= values.push(value@));
        id
    }

    /// Sets what the record answers to an error.
    pub fn set_answer(&mut self, answer: OnError)
        ensures
            final(self)@ == (RecordModel { answer, ..old(self)@ }),
    {
        self.answer = answer;
    }

    /// The fields of the record.
    pub fn fields(&self) -> (r: &Vec<FieldDescriptor>)
        ensures
            fields_view(r@) == self@.fields,
    {
        &self.fields
    }

    /// The value of the field `field_id`, if the record has that field.
    pub fn get(&self, field_id: usize) -> (r: Option<&Value>)
        ensures
            match r {
                Some(v) => field_id < self@.values.len() && v@ == self@.values[field_id as int],
                None => field_id >= self@.values.len(),
            },
    {
        if field_id < self.values.len() {
            Some(&self.values[field_id])
        } else {
            None
        }
    }

    /// The errors that the record was told, in order.
    pub fn errors(&self) -> (r: &Vec<RecordedError>)
        ensures
            errors_view(r@) == self@.errors,
    {
        &self.errors
    }

    /// Whether the record was told that the stream has ended.
    pub fn is_finished(&self) -> (r: bool)
        ensures
            r == self@.finished,
    {
        self.finished
    }

    /// Stores `value` in the field `field_id`; a record without that field
    /// stays as it is.
    pub fn store(&mut self, field_id: usize, value: Value)
        ensures
            final(self)@ == if field_id < old(self)@.values.len() {
                RecordModel {
                    values: old(self)@.values.update(field_id as int, value@),
                    ..old(self)@
                }
            } else {
                old(self)@
            },
    {
        if field_id < self.values.len() {
            let ghost values = values_view(self.values@);
            self.values[field_id] = value;
            assert(values_view(self.values@) =~= values.update(field_id as int, value@));
        }
    }

    /// The place of the first field that the part `name` fills.
    pub fn find_field(&self, name: &String) -> (r: Option<usize>)
        ensures
            match r {
                Some(i) => field_for(self@.fields, name@) == Some(i as int),
                None => field_for(self@.fields, name@) is None,
            },
    {
        let ghost fields = fields_view(self.fields@);
        let mut i: usize = 0;
        assert(fields.take(0) =~= Seq::<FieldModel>::empty());
        while i < self.fields.len()
            invariant
                i <= self.fields.len(),
                fields == fields_view(self.fields@),
                field_for(fields.take(i as int), name@) is None,
            decreases self.fields.len() - i,
        {
            let ghost now = fields.take(i + 1);
            assert(now.drop_last() =~= fields.take(i as int));
            assert(now.last() == self.fields@[i as int]@);
            if self.fields[i].part_name == *name {
                proof {
                    lemma_field_for_front(fields, i + 1, name@);
                }
                return Some(i);
            }
            i += 1;
        }
        assert(fields.take(i as int) =~= fields);
        None
    }
}

/// The first field that a part fills among the first `n` fields is the
/// first that it fills among all.
pub proof fn lemma_field_for_front(fields: Seq<FieldModel>, n: int, name: Seq<char>)
    requires
        0 <= n <= fields.len(),
        field_for(fields.take(n), name) is Some,
    ensures
        field_for(fields, name) == field_for(fields.take(n), name),
    decreases fields.len() - n,
{
    if n == fields.len() {
        assert(fields.take(n) =~= fields);
    } else {
        assert(fields.drop_last().take(n) =~= fields.take(n));
        lemma_field_for_front(fields.drop_last(), n, name);
    }
}

impl MultipartParserTarget for Record {
    type Sink = FieldProcessor;

    /// A record that is told an error keeps the error after those that it
    /// was told before, and answers as it was set to.
    open spec fn tells(&self, error: ErrorModel, after: Self, answer: Result<OnError, IOError>)
        -> bool {
        &&& after@ == (RecordModel { errors: self@.errors.push(error), ..self@ })
        &&& answer matches Ok(a) && a == self@.answer
    }

    /// A record that is told the end of the stream is finished, and
    /// otherwise as it was.
    open spec fn ends(&self, after: Self) -> bool {
        after@ == (RecordModel { finished: true, ..self@ })
    }

    /// The record is told an error: it keeps the error and answers as it
    /// was set to.
    fn error(&mut self, error: &MultipartParseError) -> (r: Result<OnError, IOError>)
        ensures
            final(self)@ == (RecordModel {
                errors: old(self)@.errors.push(error_model(*error)),
                ..old(self)@
            }),
            r is Ok,
            r->Ok_0 == old(self)@.answer,
    {
        let kept = record_error(error);
        let ghost errors = errors_view(self.errors@);
        self.errors.push(kept);
        assert(errors_view(self.errors@) =~= errors.push(kept@));
        Ok(self.answer)
    }

    /// The record is told that the stream has ended.
    fn finish(&mut self)
        ensures
            final(self)@ == (RecordModel { finished: true, ..old(self)@ }),
    {
        self.finished = true;
    }
}

impl MultipartParserTargetGenerated for Record {
    /// A record requires the names of its required fields, in the order of
    /// the fields.
    open spec fn requires_names(&self, names: Seq<Seq<char>>) -> bool {
        names == required_names(self@.fields)
    }

    /// A record selects for a part the sink of the first field that bears
    /// the name of the part, new and empty, and none for a part without
    /// name or with a name that no field bears.
    open spec fn selects(&self, headers: Headers, sink: Option<FieldProcessor>) -> bool {
        match part_name(headers@) {
            Some(name) => match field_for(self@.fields, name) {
                Some(i) => sink is Some && sink->0.field() == self@.fields[i]
                    && sink->0.processor().raw() == Seq::<u8>::empty()
                    && !sink->0.processor().done(),
                None => sink is None,
            },
            None => sink is None,
        }
    }

    /// The names of the required fields, in the order of the fields.
    fn get_all_required(&self) -> (r: Vec<String>)
        ensures
            strings_view(r@) == required_names(self@.fields),
    {
        let mut r: Vec<String> = Vec::new();
        let ghost fields = fields_view(self.fields@);
        let mut i: usize = 0;
        assert(fields.take(0) =~= Seq::<FieldModel>::empty());
        assert(strings_view(r@) =~= Seq::<Seq<char>>::empty());
        while i < self.fields.len()
            invariant
                i <= self.fields.len(),
                fields == fields_view(self.fields@),
                strings_view(r@) == required_names(fields.take(i as int)),
            decreases self.fields.len() - i,
        {
            let ghost now = fields.take(i + 1);
            assert(now.drop_last() =~= fields.take(i as int));
            assert(now.last() == self.fields@[i as int]@);
            if self.fields[i].required {
                let ghost front = strings_view(r@);
                let name = self.fields[i].part_name.clone();
                r.push(name);
                assert(strings_view(r@) =~= front.push(name@));
            }
            i += 1;
        }
        assert(fields.take(i as int) =~= fields);
        r
    }

    /// The sink of the first field that bears the name of the part; for a
    /// part without name, or with a name that no field bears, what
    /// `content_parser` selects.
    fn content_parser_generated(&self, headers: &Headers) -> (r: Option<FieldProcessor>)
        ensures
            match part_name(headers@) {
                Some(name) => match field_for(self@.fields, name) {
                    Some(i) => r is Some && r->0.field() == self@.fields[i] && r->0.processor().raw()
                        == Seq::<u8>::empty() && !r->0.processor().done(),
                    None => r is None,
                },
                None => r is None,
            },
    {
        match headers.get_name() {
            Some(name) => match self.find_field(name) {
                Some(i) => {
                    proof {
                        lemma_field_for(self@.fields, name@);
                        assert(self@.fields[i as int] == self.fields@[i as int]@);
                    }
                    Some(FieldProcessor::new(&self.fields[i]))
                },
                None => self.content_parser(headers),
            },
            None => self.content_parser(headers),
        }
    }
}

/// The sink of one field: it gathers the body of the part and, when the
/// part has ended, converts it and fills the field.
pub struct FieldProcessor {
    processor: DefaultProcessor,
    field_id: usize,
    target_kind: TargetKind,
    required: bool,
}

impl FieldProcessor {
    /// The sink that gathers the body.
    pub closed spec fn processor(&self) -> DefaultProcessor {
        self.processor
    }

    /// The field that the sink fills.
    pub closed spec fn field(&self) -> FieldModel {
        FieldModel {
            field_id: self.field_id,
            part_name: self.processor.name(),
            target_kind: self.target_kind,
            required: self.required,
            max_size: self.processor.max_size(),
        }
    }

    /// The sink of the field `field`.
    pub fn new(field: &FieldDescriptor) -> (r: FieldProcessor)
        ensures
            r.field() == field@,
            r.processor().raw() == Seq::<u8>::empty(),
            !r.processor().done(),
    {
        FieldProcessor {
            processor: DefaultProcessor::new(
                ProcessParams { name: field.part_name.clone(), max_size: field.max_size },
            ),
            field_id: field.field_id,
            target_kind: field.target_kind,
            required: field.required,
        }
    }

    /// The bytes gathered so far.
    pub fn raw_data(&self) -> (r: &Vec<u8>)
        ensures
            r@ == self.processor().raw(),
    {
        self.processor.raw_data()
    }
}

/// What a record holds after the sink of `field` was flushed with the body
/// `raw`: the converted value in the field, or one more error.
pub open spec fn flushed_into(record: RecordModel, field: FieldModel, raw: Seq<u8>)
    -> RecordModel {
    match value_of(field.target_kind, raw) {
        Some(v) => if field.field_id < record.values.len() {
            RecordModel { values: record.values.update(field.field_id as int, v), ..record }
        } else {
            record
        },
        None => RecordModel {
            errors: record.errors.push(conversion_error(field, raw)),
            ..record
        },
    }
}

/// The error that a record is told where the body `raw` does not convert to
/// the kind of `field`.
pub open spec fn conversion_error(field: FieldModel, raw: Seq<u8>) -> ErrorModel {
    match field.target_kind.base {
        BaseKind::Bytes => ErrorModel::NoError,
        BaseKind::Text => ErrorModel::ParseStrError(field.part_name),
        BaseKind::Bool => ErrorModel::ParseBoolError(field.part_name, raw),
        _ => ErrorModel::ParseIntError(field.part_name, raw),
    }
}

impl ProcessContent<Record> for FieldProcessor {
    open spec fn is_open(&self) -> bool {
        !self.processor().done()
    }

    /// The sink of a field declares the name of the part and the size limit
    /// of the field.
    open spec fn declares(&self, name: Seq<char>, max_size: Option<usize>) -> bool {
        name == self.field().part_name && max_size == self.field().max_size
    }

    /// The sink of a field is still the sink of that field, and holds what
    /// it was given since it was opened: after what it held before, unless
    /// it had been flushed.
    open spec fn holds(&self, origin: Self, headers: Headers, taken: Seq<u8>) -> bool {
        &&& self.field() == origin.field()
        &&& !self.processor().done()
        &&& self.processor().raw() == if origin.processor().done() {
            taken
        } else {
            origin.processor().raw() + taken
        }
    }

    /// The sink of a field converts what it holds and fills the field, or
    /// tells the record the error.
    open spec fn flushes(&self, headers: Headers, before: Record, after: Record) -> bool {
        after@ == flushed_into(before@, self.field(), self.processor().raw())
    }

    fn open(&mut self, _headers: &Headers)
        ensures
            final(self).field() == old(self).field(),
            final(self).processor().raw() == if old(self).processor().done() {
                Seq::<u8>::empty()
            } else {
                old(self).processor().raw()
            },
    {
        self.processor.open();
        assert(Seq::<u8>::empty() + Seq::<u8>::empty() =~= Seq::<u8>::empty());
        assert(self.processor.raw() + Seq::<u8>::empty() =~= self.processor.raw());
    }

    fn write(&mut self, _headers: &Headers, data: &Vec<u8>)
        ensures
            final(self).field() == old(self).field(),
            final(self).processor().raw() == old(self).processor().raw() + data@,
    {
        self.processor.write(data);
        assert forall|origin: Self, taken: Seq<u8>| #[trigger]
            old(self).holds(origin, *_headers, taken) implies self.holds(
            origin,
            *_headers,
            taken + data@,
        ) by {
            assert((origin.processor().raw() + taken) + data@ =~= origin.processor().raw() + (taken
                + data@));
        }
    }

    /// Ends the part: the body gathered is converted to the kind of the
    /// field. The value is stored in the field of `target`; where the body
    /// does not convert, `target` is told the error and its field stays as
    /// it is.
    fn flush(&mut self, _headers: &Headers, target: &mut Record)
        ensures
            final(self).field() == old(self).field(),
            final(self).processor().done(),
            final(self).processor().raw() == old(self).processor().raw(),
            final(target)@ == flushed_into(
                old(target)@,
                old(self).field(),
                old(self).processor().raw(),
            ),
    {
        self.processor.flush();
        match convert(self.target_kind, &self.processor) {
            Ok(value) => {
                target.store(self.field_id, value);
            },
            Err(ConversionError::Str(e)) => {
                let name = self.processor.get_process_params().name.clone();
                let error = e.to_multipart_parse_error(name, self.processor.raw_data());
                let _ = target.error(&error);
            },
            Err(ConversionError::Int(e)) => {
                let name = self.processor.get_process_params().name.clone();
                let error = e.to_multipart_parse_error(name, self.processor.raw_data());
                let _ = target.error(&error);
            },
            Err(ConversionError::Bool(e)) => {
                let name = self.processor.get_process_params().name.clone();
                let error = e.to_multipart_parse_error(name, self.processor.raw_data());
                let _ = target.error(&error);
            },
        }
    }

    fn get_process_params(&self) -> (r: &ProcessParams)
        ensures
            r.name@ == self.field().part_name,
            r.max_size == self.field().max_size,
    {
        self.processor.get_process_params()
    }
}

/// The bytes that a sink holds after it held `raw` and was given the runs
/// `runs` in calls of `write`.
pub open spec fn gathered(raw: Seq<u8>, runs: Seq<Seq<u8>>) -> Seq<u8>
    decreases runs.len(),
{
    if runs.len() == 0 {
        raw
    } else {
        gathered(raw, runs.drop_last()) + runs.last()
    }
}

/// What a sink of a field has gathered when it is opened and then given the
/// runs `runs`: the runs, one after the other, where it was new or had been
/// flushed before.
pub proof fn lemma_gathered(before: Seq<u8>, done: bool, runs: Seq<Seq<u8>>)
    requires
        done || before.len() == 0,
    ensures
        gathered(
            if done {
                Seq::empty()
            } else {
                before
            },
            runs,
        ) == concat(runs),
    decreases runs.len(),
{
    let opened = if done {
        Seq::<u8>::empty()
    } else {
        before
    };
    assert(opened =~= Seq::<u8>::empty());
    if runs.len() > 0 {
        lemma_gathered(before, done, runs.drop_last());
    }
}

} // verus!
