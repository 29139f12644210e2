//! The typed conversions as `TryFrom`: from a [`DefaultProcessor`], or from
//! a reference to one, to each kind of value and to its optional form. The
//! optional form is present whenever the body converts.

use crate::convert::{
    bool_of, int_of, text_of, to_bool, to_bytes, to_i16, to_i32, to_i64, to_i8, to_text, to_u16,
    to_u32, to_u64, to_u8,
};
use crate::process_content::DefaultProcessor;
use std::convert::Infallible;
use std::num::ParseIntError;
use std::str::ParseBoolError;
use std::string::FromUtf8Error;
use vstd::prelude::*;
use vstd::std_specs::convert::TryFromSpecImpl;

verus! {

impl<'a> TryFrom<&'a DefaultProcessor> for Vec<u8> {
    type Error = Infallible;

    fn try_from(default_processor: &'a DefaultProcessor) -> (r: Result<Vec<u8>, Infallible>)
        ensures
            r is Ok,
            r->Ok_0@ == default_processor.raw(),
    {
        Ok(to_bytes(default_processor))
    }
}

impl<'a> TryFromSpecImpl<&'a DefaultProcessor> for Vec<u8> {
    open spec fn obeys_try_from_spec() -> bool {
        false
    }

    open spec fn try_from_spec(v: &'a DefaultProcessor) -> Result<Vec<u8>, Infallible> {
        arbitrary()
    }
}

impl<'a> TryFrom<&'a DefaultProcessor> for Option<Vec<u8>> {
    type Error = Infallible;

    fn try_from(default_processor: &'a DefaultProcessor) -> (r: Result<Option<Vec<u8>>, Infallible>)
        ensures
            r is Ok,
            r->Ok_0 is Some,
            r->Ok_0->0@ == default_processor.raw(),
    {
        Ok(Some(to_bytes(default_processor)))
    }
}

impl<'a> TryFromSpecImpl<&'a DefaultProcessor> for Option<Vec<u8>> {
    open spec fn obeys_try_from_spec() -> bool {
        false
    }

    open spec fn try_from_spec(v: &'a DefaultProcessor) -> Result<Option<Vec<u8>>, Infallible> {
        arbitrary()
    }
}

impl TryFrom<DefaultProcessor> for Vec<u8> {
    type Error = Infallible;

    fn try_from(default_processor: DefaultProcessor) -> (r: Result<Vec<u8>, Infallible>)
        ensures
            r is Ok,
            r->Ok_0@ == default_processor.raw(),
    {
        Ok(to_bytes(&default_processor))
    }
}

impl TryFromSpecImpl<DefaultProcessor> for Vec<u8> {
    open spec fn obeys_try_from_spec() -> bool {
        false
    }

    open spec fn try_from_spec(v: DefaultProcessor) -> Result<Vec<u8>, Infallible> {
        arbitrary()
    }
}

impl TryFrom<DefaultProcessor> for Option<Vec<u8>> {
    type Error = Infallible;

    fn try_from(default_processor: DefaultProcessor) -> (r: Result<Option<Vec<u8>>, Infallible>)
        ensures
            r is Ok,
            r->Ok_0 is Some,
            r->Ok_0->0@ == default_processor.raw(),
    {
        Ok(Some(to_bytes(&default_processor)))
    }
}

impl TryFromSpecImpl<DefaultProcessor> for Option<Vec<u8>> {
    open spec fn obeys_try_from_spec() -> bool {
        false
    }

    open spec fn try_from_spec(v: DefaultProcessor) -> Result<Option<Vec<u8>>, Infallible> {
        arbitrary()
    }
}

impl<'a> TryFrom<&'a DefaultProcessor> for String {
    type Error = FromUtf8Error;

    fn try_from(default_processor: &'a DefaultProcessor) -> (r: Result<String, FromUtf8Error>)
        ensures
            match text_of(default_processor.raw()) {
                Some(s) => r is Ok && r->Ok_0@ == s,
                None => r is Err,
            },
    {
        to_text(default_processor)
    }
}

impl<'a> TryFromSpecImpl<&'a DefaultProcessor> for String {
    open spec fn obeys_try_from_spec() -> bool {
        false
    }

    open spec fn try_from_spec(v: &'a DefaultProcessor) -> Result<String, FromUtf8Error> {
        arbitrary()
    }
}

impl<'a> TryFrom<&'a DefaultProcessor> for Option<String> {
    type Error = FromUtf8Error;

    fn try_from(default_processor: &'a DefaultProcessor) -> (r: Result<Option<String>, FromUtf8Error>)
        ensures
            match text_of(default_processor.raw()) {
                Some(s) => r is Ok && r->Ok_0 is Some && r->Ok_0->0@ == s,
                None => r is Err,
            },
    {
        match to_text(default_processor) {
            Ok(v) => Ok(Some(v)),
            Err(e) => Err(e),
        }
    }
}

impl<'a> TryFromSpecImpl<&'a DefaultProcessor> for Option<String> {
    open spec fn obeys_try_from_spec() -> bool {
        false
    }

    open spec fn try_from_spec(v: &'a DefaultProcessor) -> Result<Option<String>, FromUtf8Error> {
        arbitrary()
    }
}

impl TryFrom<DefaultProcessor> for String {
    type Error = FromUtf8Error;

    fn try_from(default_processor: DefaultProcessor) -> (r: Result<String, FromUtf8Error>)
        ensures
            match text_of(default_processor.raw()) {
                Some(s) => r is Ok && r->Ok_0@ == s,
                None => r is Err,
            },
    {
        to_text(&default_processor)
    }
}

impl TryFromSpecImpl<DefaultProcessor> for String {
    open spec fn obeys_try_from_spec() -> bool {
        false
    }

    open spec fn try_from_spec(v: DefaultProcessor) -> Result<String, FromUtf8Error> {
        arbitrary()
    }
}

impl TryFrom<DefaultProcessor> for Option<String> {
    type Error = FromUtf8Error;

    fn try_from(default_processor: DefaultProcessor) -> (r: Result<Option<String>, FromUtf8Error>)
        ensures
            match text_of(default_processor.raw()) {
                Some(s) => r is Ok && r->Ok_0 is Some && r->Ok_0->0@ == s,
                None => r is Err,
            },
    {
        match to_text(&default_processor) {
            Ok(v) => Ok(Some(v)),
            Err(e) => Err(e),
        }
    }
}

impl TryFromSpecImpl<DefaultProcessor> for Option<String> {
    open spec fn obeys_try_from_spec() -> bool {
        false
    }

    open spec fn try_from_spec(v: DefaultProcessor) -> Result<Option<String>, FromUtf8Error> {
        arbitrary()
    }
}

impl<'a> TryFrom<&'a DefaultProcessor> for bool {
    type Error = ParseBoolError;

    fn try_from(default_processor: &'a DefaultProcessor) -> (r: Result<bool, ParseBoolError>)
        ensures
            match bool_of(default_processor.raw()) {
                Some(v) => r == Ok::<bool, ParseBoolError>(v),
                None => r is Err,
            },
    {
        to_bool(default_processor)
    }
}

impl<'a> TryFromSpecImpl<&'a DefaultProcessor> for bool {
    open spec fn obeys_try_from_spec() -> bool {
        false
    }

    open spec fn try_from_spec(v: &'a DefaultProcessor) -> Result<bool, ParseBoolError> {
        arbitrary()
    }
}

impl<'a> TryFrom<&'a DefaultProcessor> for Option<bool> {
    type Error = ParseBoolError;

    fn try_from(default_processor: &'a DefaultProcessor) -> (r: Result<Option<bool>, ParseBoolError>)
        ensures
            match bool_of(default_processor.raw()) {
                Some(v) => r == Ok::<Option<bool>, ParseBoolError>(Some(v)),
                None => r is Err,
            },
    {
        match to_bool(default_processor) {
            Ok(v) => Ok(Some(v)),
            Err(e) => Err(e),
        }
    }
}

impl<'a> TryFromSpecImpl<&'a DefaultProcessor> for Option<bool> {
    open spec fn obeys_try_from_spec() -> bool {
        false
    }

    open spec fn try_from_spec(v: &'a DefaultProcessor) -> Result<Option<bool>, ParseBoolError> {
        arbitrary()
    }
}

impl TryFrom<DefaultProcessor> for bool {
    type Error = ParseBoolError;

    fn try_from(default_processor: DefaultProcessor) -> (r: Result<bool, ParseBoolError>)
        ensures
            match bool_of(default_processor.raw()) {
                Some(v) => r == Ok::<bool, ParseBoolError>(v),
                None => r is Err,
            },
    {
        to_bool(&default_processor)
    }
}

impl TryFromSpecImpl<DefaultProcessor> for bool {
    open spec fn obeys_try_from_spec() -> bool {
        false
    }

    open spec fn try_from_spec(v: DefaultProcessor) -> Result<bool, ParseBoolError> {
        arbitrary()
    }
}

impl TryFrom<DefaultProcessor> for Option<bool> {
    type Error = ParseBoolError;

    fn try_from(default_processor: DefaultProcessor) -> (r: Result<Option<bool>, ParseBoolError>)
        ensures
            match bool_of(default_processor.raw()) {
                Some(v) => r == Ok::<Option<bool>, ParseBoolError>(Some(v)),
                None => r is Err,
            },
    {
        match to_bool(&default_processor) {
            Ok(v) => Ok(Some(v)),
            Err(e) => Err(e),
        }
    }
}

impl TryFromSpecImpl<DefaultProcessor> for Option<bool> {
    open spec fn obeys_try_from_spec() -> bool {
        false
    }

    open spec fn try_from_spec(v: DefaultProcessor) -> Result<Option<bool>, ParseBoolError> {
        arbitrary()
    }
}

impl<'a> TryFrom<&'a DefaultProcessor> for i8 {
    type Error = ParseIntError;

    fn try_from(default_processor: &'a DefaultProcessor) -> (r: Result<i8, ParseIntError>)
        ensures
            match int_of(default_processor.raw(), true, i8::MIN as int, i8::MAX as int) {
                Some(v) => r == Ok::<i8, ParseIntError>(v as i8),
                None => r is Err,
            },
    {
        to_i8(default_processor)
    }
}

impl<'a> TryFromSpecImpl<&'a DefaultProcessor> for i8 {
    open spec fn obeys_try_from_spec() -> bool {
        false
    }

    open spec fn try_from_spec(v: &'a DefaultProcessor) -> Result<i8, ParseIntError> {
        arbitrary()
    }
}

impl<'a> TryFrom<&'a DefaultProcessor> for Option<i8> {
    type Error = ParseIntError;

    fn try_from(default_processor: &'a DefaultProcessor) -> (r: Result<Option<i8>, ParseIntError>)
        ensures
            match int_of(default_processor.raw(), true, i8::MIN as int, i8::MAX as int) {
                Some(v) => r == Ok::<Option<i8>, ParseIntError>(Some(v as i8)),
                None => r is Err,
            },
    {
        match to_i8(default_processor) {
            Ok(v) => Ok(Some(v)),
            Err(e) => Err(e),
        }
    }
}

impl<'a> TryFromSpecImpl<&'a DefaultProcessor> for Option<i8> {
    open spec fn obeys_try_from_spec() -> bool {
        false
    }

    open spec fn try_from_spec(v: &'a DefaultProcessor) -> Result<Option<i8>, ParseIntError> {
        arbitrary()
    }
}

impl TryFrom<DefaultProcessor> for i8 {
    type Error = ParseIntError;

    fn try_from(default_processor: DefaultProcessor) -> (r: Result<i8, ParseIntError>)
        ensures
            match int_of(default_processor.raw(), true, i8::MIN as int, i8::MAX as int) {
                Some(v) => r == Ok::<i8, ParseIntError>(v as i8),
                None => r is Err,
            },
    {
        to_i8(&default_processor)
    }
}

impl TryFromSpecImpl<DefaultProcessor> for i8 {
    open spec fn obeys_try_from_spec() -> bool {
        false
    }

    open spec fn try_from_spec(v: DefaultProcessor) -> Result<i8, ParseIntError> {
        arbitrary()
    }
}

impl TryFrom<DefaultProcessor> for Option<i8> {
    type Error = ParseIntError;

    fn try_from(default_processor: DefaultProcessor) -> (r: Result<Option<i8>, ParseIntError>)
        ensures
            match int_of(default_processor.raw(), true, i8::MIN as int, i8::MAX as int) {
                Some(v) => r == Ok::<Option<i8>, ParseIntError>(Some(v as i8)),
                None => r is Err,
            },
    {
        match to_i8(&default_processor) {
            Ok(v) => Ok(Some(v)),
            Err(e) => Err(e),
        }
    }
}

impl TryFromSpecImpl<DefaultProcessor> for Option<i8> {
    open spec fn obeys_try_from_spec() -> bool {
        false
    }

    open spec fn try_from_spec(v: DefaultProcessor) -> Result<Option<i8>, ParseIntError> {
        arbitrary()
    }
}

impl<'a> TryFrom<&'a DefaultProcessor> for i16 {
    type Error = ParseIntError;

    fn try_from(default_processor: &'a DefaultProcessor) -> (r: Result<i16, ParseIntError>)
        ensures
            match int_of(default_processor.raw(), true, i16::MIN as int, i16::MAX as int) {
                Some(v) => r == Ok::<i16, ParseIntError>(v as i16),
                None => r is Err,
            },
    {
        to_i16(default_processor)
    }
}

impl<'a> TryFromSpecImpl<&'a DefaultProcessor> for i16 {
    open spec fn obeys_try_from_spec() -> bool {
        false
    }

    open spec fn try_from_spec(v: &'a DefaultProcessor) -> Result<i16, ParseIntError> {
        arbitrary()
    }
}

impl<'a> TryFrom<&'a DefaultProcessor> for Option<i16> {
    type Error = ParseIntError;

    fn try_from(default_processor: &'a DefaultProcessor) -> (r: Result<Option<i16>, ParseIntError>)
        ensures
            match int_of(default_processor.raw(), true, i16::MIN as int, i16::MAX as int) {
                Some(v) => r == Ok::<Option<i16>, ParseIntError>(Some(v as i16)),
                None => r is Err,
            },
    {
        match to_i16(default_processor) {
            Ok(v) => Ok(Some(v)),
            Err(e) => Err(e),
        }
    }
}

impl<'a> TryFromSpecImpl<&'a DefaultProcessor> for Option<i16> {
    open spec fn obeys_try_from_spec() -> bool {
        false
    }

    open spec fn try_from_spec(v: &'a DefaultProcessor) -> Result<Option<i16>, ParseIntError> {
        arbitrary()
    }
}

impl TryFrom<DefaultProcessor> for i16 {
    type Error = ParseIntError;

    fn try_from(default_processor: DefaultProcessor) -> (r: Result<i16, ParseIntError>)
        ensures
            match int_of(default_processor.raw(), true, i16::MIN as int, i16::MAX as int) {
                Some(v) => r == Ok::<i16, ParseIntError>(v as i16),
                None => r is Err,
            },
    {
        to_i16(&default_processor)
    }
}

impl TryFromSpecImpl<DefaultProcessor> for i16 {
    open spec fn obeys_try_from_spec() -> bool {
        false
    }

    open spec fn try_from_spec(v: DefaultProcessor) -> Result<i16, ParseIntError> {
        arbitrary()
    }
}

impl TryFrom<DefaultProcessor> for Option<i16> {
    type Error = ParseIntError;

    fn try_from(default_processor: DefaultProcessor) -> (r: Result<Option<i16>, ParseIntError>)
        ensures
            match int_of(default_processor.raw(), true, i16::MIN as int, i16::MAX as int) {
                Some(v) => r == Ok::<Option<i16>, ParseIntError>(Some(v as i16)),
                None => r is Err,
            },
    {
        match to_i16(&default_processor) {
            Ok(v) => Ok(Some(v)),
            Err(e) => Err(e),
        }
    }
}

impl TryFromSpecImpl<DefaultProcessor> for Option<i16> {
    open spec fn obeys_try_from_spec() -> bool {
        false
    }

    open spec fn try_from_spec(v: DefaultProcessor) -> Result<Option<i16>, ParseIntError> {
        arbitrary()
    }
}

impl<'a> TryFrom<&'a DefaultProcessor> for i32 {
    type Error = ParseIntError;

    fn try_from(default_processor: &'a DefaultProcessor) -> (r: Result<i32, ParseIntError>)
        ensures
            match int_of(default_processor.raw(), true, i32::MIN as int, i32::MAX as int) {
                Some(v) => r == Ok::<i32, ParseIntError>(v as i32),
                None => r is Err,
            },
    {
        to_i32(default_processor)
    }
}

impl<'a> TryFromSpecImpl<&'a DefaultProcessor> for i32 {
    open spec fn obeys_try_from_spec() -> bool {
        false
    }

    open spec fn try_from_spec(v: &'a DefaultProcessor) -> Result<i32, ParseIntError> {
        arbitrary()
    }
}

impl<'a> TryFrom<&'a DefaultProcessor> for Option<i32> {
    type Error = ParseIntError;

    fn try_from(default_processor: &'a DefaultProcessor) -> (r: Result<Option<i32>, ParseIntError>)
        ensures
            match int_of(default_processor.raw(), true, i32::MIN as int, i32::MAX as int) {
                Some(v) => r == Ok::<Option<i32>, ParseIntError>(Some(v as i32)),
                None => r is Err,
            },
    {
        match to_i32(default_processor) {
            Ok(v) => Ok(Some(v)),
            Err(e) => Err(e),
        }
    }
}

impl<'a> TryFromSpecImpl<&'a DefaultProcessor> for Option<i32> {
    open spec fn obeys_try_from_spec() -> bool {
        false
    }

    open spec fn try_from_spec(v: &'a DefaultProcessor) -> Result<Option<i32>, ParseIntError> {
        arbitrary()
    }
}

impl TryFrom<DefaultProcessor> for i32 {
    type Error = ParseIntError;

    fn try_from(default_processor: DefaultProcessor) -> (r: Result<i32, ParseIntError>)
        ensures
            match int_of(default_processor.raw(), true, i32::MIN as int, i32::MAX as int) {
                Some(v) => r == Ok::<i32, ParseIntError>(v as i32),
                None => r is Err,
            },
    {
        to_i32(&default_processor)
    }
}

impl TryFromSpecImpl<DefaultProcessor> for i32 {
    open spec fn obeys_try_from_spec() -> bool {
        false
    }

    open spec fn try_from_spec(v: DefaultProcessor) -> Result<i32, ParseIntError> {
        arbitrary()
    }
}

impl TryFrom<DefaultProcessor> for Option<i32> {
    type Error = ParseIntError;

    fn try_from(default_processor: DefaultProcessor) -> (r: Result<Option<i32>, ParseIntError>)
        ensures
            match int_of(default_processor.raw(), true, i32::MIN as int, i32::MAX as int) {
                Some(v) => r == Ok::<Option<i32>, ParseIntError>(Some(v as i32)),
                None => r is Err,
            },
    {
        match to_i32(&default_processor) {
            Ok(v) => Ok(Some(v)),
            Err(e) => Err(e),
        }
    }
}

impl TryFromSpecImpl<DefaultProcessor> for Option<i32> {
    open spec fn obeys_try_from_spec() -> bool {
        false
    }

    open spec fn try_from_spec(v: DefaultProcessor) -> Result<Option<i32>, ParseIntError> {
        arbitrary()
    }
}

impl<'a> TryFrom<&'a DefaultProcessor> for i64 {
    type Error = ParseIntError;

    fn try_from(default_processor: &'a DefaultProcessor) -> (r: Result<i64, ParseIntError>)
        ensures
            match int_of(default_processor.raw(), true, i64::MIN as int, i64::MAX as int) {
                Some(v) => r == Ok::<i64, ParseIntError>(v as i64),
                None => r is Err,
            },
    {
        to_i64(default_processor)
    }
}

impl<'a> TryFromSpecImpl<&'a DefaultProcessor> for i64 {
    open spec fn obeys_try_from_spec() -> bool {
        false
    }

    open spec fn try_from_spec(v: &'a DefaultProcessor) -> Result<i64, ParseIntError> {
        arbitrary()
    }
}

impl<'a> TryFrom<&'a DefaultProcessor> for Option<i64> {
    type Error = ParseIntError;

    fn try_from(default_processor: &'a DefaultProcessor) -> (r: Result<Option<i64>, ParseIntError>)
        ensures
            match int_of(default_processor.raw(), true, i64::MIN as int, i64::MAX as int) {
                Some(v) => r == Ok::<Option<i64>, ParseIntError>(Some(v as i64)),
                None => r is Err,
            },
    {
        match to_i64(default_processor) {
            Ok(v) => Ok(Some(v)),
            Err(e) => Err(e),
        }
    }
}

impl<'a> TryFromSpecImpl<&'a DefaultProcessor> for Option<i64> {
    open spec fn obeys_try_from_spec() -> bool {
        false
    }

    open spec fn try_from_spec(v: &'a DefaultProcessor) -> Result<Option<i64>, ParseIntError> {
        arbitrary()
    }
}

impl TryFrom<DefaultProcessor> for i64 {
    type Error = ParseIntError;

    fn try_from(default_processor: DefaultProcessor) -> (r: Result<i64, ParseIntError>)
        ensures
            match int_of(default_processor.raw(), true, i64::MIN as int, i64::MAX as int) {
                Some(v) => r == Ok::<i64, ParseIntError>(v as i64),
                None => r is Err,
            },
    {
        to_i64(&default_processor)
    }
}

impl TryFromSpecImpl<DefaultProcessor> for i64 {
    open spec fn obeys_try_from_spec() -> bool {
        false
    }

    open spec fn try_from_spec(v: DefaultProcessor) -> Result<i64, ParseIntError> {
        arbitrary()
    }
}

impl TryFrom<DefaultProcessor> for Option<i64> {
    type Error = ParseIntError;

    fn try_from(default_processor: DefaultProcessor) -> (r: Result<Option<i64>, ParseIntError>)
        ensures
            match int_of(default_processor.raw(), true, i64::MIN as int, i64::MAX as int) {
                Some(v) => r == Ok::<Option<i64>, ParseIntError>(Some(v as i64)),
                None => r is Err,
            },
    {
        match to_i64(&default_processor) {
            Ok(v) => Ok(Some(v)),
            Err(e) => Err(e),
        }
    }
}

impl TryFromSpecImpl<DefaultProcessor> for Option<i64> {
    open spec fn obeys_try_from_spec() -> bool {
        false
    }

    open spec fn try_from_spec(v: DefaultProcessor) -> Result<Option<i64>, ParseIntError> {
        arbitrary()
    }
}

impl<'a> TryFrom<&'a DefaultProcessor> for u8 {
    type Error = ParseIntError;

    fn try_from(default_processor: &'a DefaultProcessor) -> (r: Result<u8, ParseIntError>)
        ensures
            match int_of(default_processor.raw(), false, u8::MIN as int, u8::MAX as int) {
                Some(v) => r == Ok::<u8, ParseIntError>(v as u8),
                None => r is Err,
            },
    {
        to_u8(default_processor)
    }
}

impl<'a> TryFromSpecImpl<&'a DefaultProcessor> for u8 {
    open spec fn obeys_try_from_spec() -> bool {
        false
    }

    open spec fn try_from_spec(v: &'a DefaultProcessor) -> Result<u8, ParseIntError> {
        arbitrary()
    }
}

impl<'a> TryFrom<&'a DefaultProcessor> for Option<u8> {
    type Error = ParseIntError;

    fn try_from(default_processor: &'a DefaultProcessor) -> (r: Result<Option<u8>, ParseIntError>)
        ensures
            match int_of(default_processor.raw(), false, u8::MIN as int, u8::MAX as int) {
                Some(v) => r == Ok::<Option<u8>, ParseIntError>(Some(v as u8)),
                None => r is Err,
            },
    {
        match to_u8(default_processor) {
            Ok(v) => Ok(Some(v)),
            Err(e) => Err(e),
        }
    }
}

impl<'a> TryFromSpecImpl<&'a DefaultProcessor> for Option<u8> {
    open spec fn obeys_try_from_spec() -> bool {
        false
    }

    open spec fn try_from_spec(v: &'a DefaultProcessor) -> Result<Option<u8>, ParseIntError> {
        arbitrary()
    }
}

impl TryFrom<DefaultProcessor> for u8 {
    type Error = ParseIntError;

    fn try_from(default_processor: DefaultProcessor) -> (r: Result<u8, ParseIntError>)
        ensures
            match int_of(default_processor.raw(), false, u8::MIN as int, u8::MAX as int) {
                Some(v) => r == Ok::<u8, ParseIntError>(v as u8),
                None => r is Err,
            },
    {
        to_u8(&default_processor)
    }
}

impl TryFromSpecImpl<DefaultProcessor> for u8 {
    open spec fn obeys_try_from_spec() -> bool {
        false
    }

    open spec fn try_from_spec(v: DefaultProcessor) -> Result<u8, ParseIntError> {
        arbitrary()
    }
}

impl TryFrom<DefaultProcessor> for Option<u8> {
    type Error = ParseIntError;

    fn try_from(default_processor: DefaultProcessor) -> (r: Result<Option<u8>, ParseIntError>)
        ensures
            match int_of(default_processor.raw(), false, u8::MIN as int, u8::MAX as int) {
                Some(v) => r == Ok::<Option<u8>, ParseIntError>(Some(v as u8)),
                None => r is Err,
            },
    {
        match to_u8(&default_processor) {
            Ok(v) => Ok(Some(v)),
            Err(e) => Err(e),
        }
    }
}

impl TryFromSpecImpl<DefaultProcessor> for Option<u8> {
    open spec fn obeys_try_from_spec() -> bool {
        false
    }

    open spec fn try_from_spec(v: DefaultProcessor) -> Result<Option<u8>, ParseIntError> {
        arbitrary()
    }
}

impl<'a> TryFrom<&'a DefaultProcessor> for u16 {
    type Error = ParseIntError;

    fn try_from(default_processor: &'a DefaultProcessor) -> (r: Result<u16, ParseIntError>)
        ensures
            match int_of(default_processor.raw(), false, u16::MIN as int, u16::MAX as int) {
                Some(v) => r == Ok::<u16, ParseIntError>(v as u16),
                None => r is Err,
            },
    {
        to_u16(default_processor)
    }
}

impl<'a> TryFromSpecImpl<&'a DefaultProcessor> for u16 {
    open spec fn obeys_try_from_spec() -> bool {
        false
    }

    open spec fn try_from_spec(v: &'a DefaultProcessor) -> Result<u16, ParseIntError> {
        arbitrary()
    }
}

impl<'a> TryFrom<&'a DefaultProcessor> for Option<u16> {
    type Error = ParseIntError;

    fn try_from(default_processor: &'a DefaultProcessor) -> (r: Result<Option<u16>, ParseIntError>)
        ensures
            match int_of(default_processor.raw(), false, u16::MIN as int, u16::MAX as int) {
                Some(v) => r == Ok::<Option<u16>, ParseIntError>(Some(v as u16)),
                None => r is Err,
            },
    {
        match to_u16(default_processor) {
            Ok(v) => Ok(Some(v)),
            Err(e) => Err(e),
        }
    }
}

impl<'a> TryFromSpecImpl<&'a DefaultProcessor> for Option<u16> {
    open spec fn obeys_try_from_spec() -> bool {
        false
    }

    open spec fn try_from_spec(v: &'a DefaultProcessor) -> Result<Option<u16>, ParseIntError> {
        arbitrary()
    }
}

impl TryFrom<DefaultProcessor> for u16 {
    type Error = ParseIntError;

    fn try_from(default_processor: DefaultProcessor) -> (r: Result<u16, ParseIntError>)
        ensures
            match int_of(default_processor.raw(), false, u16::MIN as int, u16::MAX as int) {
                Some(v) => r == Ok::<u16, ParseIntError>(v as u16),
                None => r is Err,
            },
    {
        to_u16(&default_processor)
    }
}

impl TryFromSpecImpl<DefaultProcessor> for u16 {
    open spec fn obeys_try_from_spec() -> bool {
        false
    }

    open spec fn try_from_spec(v: DefaultProcessor) -> Result<u16, ParseIntError> {
        arbitrary()
    }
}

impl TryFrom<DefaultProcessor> for Option<u16> {
    type Error = ParseIntError;

    fn try_from(default_processor: DefaultProcessor) -> (r: Result<Option<u16>, ParseIntError>)
        ensures
            match int_of(default_processor.raw(), false, u16::MIN as int, u16::MAX as int) {
                Some(v) => r == Ok::<Option<u16>, ParseIntError>(Some(v as u16)),
                None => r is Err,
            },
    {
        match to_u16(&default_processor) {
            Ok(v) => Ok(Some(v)),
            Err(e) => Err(e),
        }
    }
}

impl TryFromSpecImpl<DefaultProcessor> for Option<u16> {
    open spec fn obeys_try_from_spec() -> bool {
        false
    }

    open spec fn try_from_spec(v: DefaultProcessor) -> Result<Option<u16>, ParseIntError> {
        arbitrary()
    }
}

impl<'a> TryFrom<&'a DefaultProcessor> for u32 {
    type Error = ParseIntError;

    fn try_from(default_processor: &'a DefaultProcessor) -> (r: Result<u32, ParseIntError>)
        ensures
            match int_of(default_processor.raw(), false, u32::MIN as int, u32::MAX as int) {
                Some(v) => r == Ok::<u32, ParseIntError>(v as u32),
                None => r is Err,
            },
    {
        to_u32(default_processor)
    }
}

impl<'a> TryFromSpecImpl<&'a DefaultProcessor> for u32 {
    open spec fn obeys_try_from_spec() -> bool {
        false
    }

    open spec fn try_from_spec(v: &'a DefaultProcessor) -> Result<u32, ParseIntError> {
        arbitrary()
    }
}

impl<'a> TryFrom<&'a DefaultProcessor> for Option<u32> {
    type Error = ParseIntError;

    fn try_from(default_processor: &'a DefaultProcessor) -> (r: Result<Option<u32>, ParseIntError>)
        ensures
            match int_of(default_processor.raw(), false, u32::MIN as int, u32::MAX as int) {
                Some(v) => r == Ok::<Option<u32>, ParseIntError>(Some(v as u32)),
                None => r is Err,
            },
    {
        match to_u32(default_processor) {
            Ok(v) => Ok(Some(v)),
            Err(e) => Err(e),
        }
    }
}

impl<'a> TryFromSpecImpl<&'a DefaultProcessor> for Option<u32> {
    open spec fn obeys_try_from_spec() -> bool {
        false
    }

    open spec fn try_from_spec(v: &'a DefaultProcessor) -> Result<Option<u32>, ParseIntError> {
        arbitrary()
    }
}

impl TryFrom<DefaultProcessor> for u32 {
    type Error = ParseIntError;

    fn try_from(default_processor: DefaultProcessor) -> (r: Result<u32, ParseIntError>)
        ensures
            match int_of(default_processor.raw(), false, u32::MIN as int, u32::MAX as int) {
                Some(v) => r == Ok::<u32, ParseIntError>(v as u32),
                None => r is Err,
            },
    {
        to_u32(&default_processor)
    }
}

impl TryFromSpecImpl<DefaultProcessor> for u32 {
    open spec fn obeys_try_from_spec() -> bool {
        false
    }

    open spec fn try_from_spec(v: DefaultProcessor) -> Result<u32, ParseIntError> {
        arbitrary()
    }
}

impl TryFrom<DefaultProcessor> for Option<u32> {
    type Error = ParseIntError;

    fn try_from(default_processor: DefaultProcessor) -> (r: Result<Option<u32>, ParseIntError>)
        ensures
            match int_of(default_processor.raw(), false, u32::MIN as int, u32::MAX as int) {
                Some(v) => r == Ok::<Option<u32>, ParseIntError>(Some(v as u32)),
                None => r is Err,
            },
    {
        match to_u32(&default_processor) {
            Ok(v) => Ok(Some(v)),
            Err(e) => Err(e),
        }
    }
}

impl TryFromSpecImpl<DefaultProcessor> for Option<u32> {
    open spec fn obeys_try_from_spec() -> bool {
        false
    }

    open spec fn try_from_spec(v: DefaultProcessor) -> Result<Option<u32>, ParseIntError> {
        arbitrary()
    }
}

impl<'a> TryFrom<&'a DefaultProcessor> for u64 {
    type Error = ParseIntError;

    fn try_from(default_processor: &'a DefaultProcessor) -> (r: Result<u64, ParseIntError>)
        ensures
            match int_of(default_processor.raw(), false, u64::MIN as int, u64::MAX as int) {
                Some(v) => r == Ok::<u64, ParseIntError>(v as u64),
                None => r is Err,
            },
    {
        to_u64(default_processor)
    }
}

impl<'a> TryFromSpecImpl<&'a DefaultProcessor> for u64 {
    open spec fn obeys_try_from_spec() -> bool {
        false
    }

    open spec fn try_from_spec(v: &'a DefaultProcessor) -> Result<u64, ParseIntError> {
        arbitrary()
    }
}

impl<'a> TryFrom<&'a DefaultProcessor> for Option<u64> {
    type Error = ParseIntError;

    fn try_from(default_processor: &'a DefaultProcessor) -> (r: Result<Option<u64>, ParseIntError>)
        ensures
            match int_of(default_processor.raw(), false, u64::MIN as int, u64::MAX as int) {
                Some(v) => r == Ok::<Option<u64>, ParseIntError>(Some(v as u64)),
                None => r is Err,
            },
    {
        match to_u64(default_processor) {
            Ok(v) => Ok(Some(v)),
            Err(e) => Err(e),
        }
    }
}

impl<'a> TryFromSpecImpl<&'a DefaultProcessor> for Option<u64> {
    open spec fn obeys_try_from_spec() -> bool {
        false
    }

    open spec fn try_from_spec(v: &'a DefaultProcessor) -> Result<Option<u64>, ParseIntError> {
        arbitrary()
    }
}

impl TryFrom<DefaultProcessor> for u64 {
    type Error = ParseIntError;

    fn try_from(default_processor: DefaultProcessor) -> (r: Result<u64, ParseIntError>)
        ensures
            match int_of(default_processor.raw(), false, u64::MIN as int, u64::MAX as int) {
                Some(v) => r == Ok::<u64, ParseIntError>(v as u64),
                None => r is Err,
            },
    {
        to_u64(&default_processor)
    }
}

impl TryFromSpecImpl<DefaultProcessor> for u64 {
    open spec fn obeys_try_from_spec() -> bool {
        false
    }

    open spec fn try_from_spec(v: DefaultProcessor) -> Result<u64, ParseIntError> {
        arbitrary()
    }
}

impl TryFrom<DefaultProcessor> for Option<u64> {
    type Error = ParseIntError;

    fn try_from(default_processor: DefaultProcessor) -> (r: Result<Option<u64>, ParseIntError>)
        ensures
            match int_of(default_processor.raw(), false, u64::MIN as int, u64::MAX as int) {
                Some(v) => r == Ok::<Option<u64>, ParseIntError>(Some(v as u64)),
                None => r is Err,
            },
    {
        match to_u64(&default_processor) {
            Ok(v) => Ok(Some(v)),
            Err(e) => Err(e),
        }
    }
}

impl TryFromSpecImpl<DefaultProcessor> for Option<u64> {
    open spec fn obeys_try_from_spec() -> bool {
        false
    }

    open spec fn try_from_spec(v: DefaultProcessor) -> Result<Option<u64>, ParseIntError> {
        arbitrary()
    }
}

} // verus!
