//! Typed conversions of the body that a [`DefaultProcessor`] has gathered.
//!
//! A body is taken as bytes as it is. For every other kind it is decoded as
//! UTF-8 first; a number or a truth value is then read from the decoded text.
//! A body that is no well-formed UTF-8 fails every conversion but the one to
//! bytes.

use crate::process_content::DefaultProcessor;
use crate::text::string_from_utf8;
use std::num::ParseIntError;
use std::str::ParseBoolError;
use std::string::FromUtf8Error;
use vstd::prelude::*;
use vstd::utf8::{decode_utf8, valid_utf8};

verus! {

/// One of the digits `0` to `9`.
pub open spec fn is_digit(c: char) -> bool {
    48 <= c as u32 <= 57
}

/// The number that a text of digits stands for in base ten.
pub open spec fn digits_value(s: Seq<char>) -> int
    decreases s.len(),
{
    if s.len() == 0 {
        0
    } else {
        10 * digits_value(s.drop_last()) + (s.last() as u32 - 48)
    }
}

/// A text of one or more digits.
pub open spec fn all_digits(s: Seq<char>) -> bool {
    s.len() > 0 && forall|i: int| 0 <= i < s.len() ==> is_digit(#[trigger] s[i])
}

/// The number that `s` stands for: digits after an optional `+`, or, where
/// `signed`, after an optional `-`. `None` for any other text.
pub open spec fn decimal(s: Seq<char>, signed: bool) -> Option<int> {
    if s.len() > 0 && s.first() == '+' {
        if all_digits(s.drop_first()) {
            Some(digits_value(s.drop_first()))
        } else {
            None
        }
    } else if signed && s.len() > 0 && s.first() == '-' {
        if all_digits(s.drop_first()) {
            Some(-digits_value(s.drop_first()))
        } else {
            None
        }
    } else if all_digits(s) {
        Some(digits_value(s))
    } else {
        None
    }
}

/// The number that `s` stands for, where it lies between `min` and `max`.
pub open spec fn int_text(s: Seq<char>, signed: bool, min: int, max: int) -> Option<int> {
    match decimal(s, signed) {
        Some(v) if min <= v <= max => Some(v),
        _ => None,
    }
}

/// The truth value that `s` stands for: `true` or `false` and nothing else.
pub open spec fn bool_text(s: Seq<char>) -> Option<bool> {
    if s == seq!['t', 'r', 'u', 'e'] {
        Some(true)
    } else if s == seq!['f', 'a', 'l', 's', 'e'] {
        Some(false)
    } else {
        None
    }
}

/// The text that the bytes `raw` are in UTF-8, if they are.
pub open spec fn text_of(raw: Seq<u8>) -> Option<Seq<char>> {
    if valid_utf8(raw) {
        Some(decode_utf8(raw))
    } else {
        None
    }
}

/// The number that the bytes `raw` stand for as UTF-8 text, where it lies
/// between `min` and `max`.
pub open spec fn int_of(raw: Seq<u8>, signed: bool, min: int, max: int) -> Option<int> {
    match text_of(raw) {
        Some(s) => int_text(s, signed, min, max),
        None => None,
    }
}

/// The truth value that the bytes `raw` stand for as UTF-8 text.
pub open spec fn bool_of(raw: Seq<u8>) -> Option<bool> {
    match text_of(raw) {
        Some(s) => bool_text(s),
        None => None,
    }
}

/// `str::parse::<bool>`: `Ok` for the texts `true` and `false`, which give
/// their truth value, and `Err` for every other text.
#[verifier::external_body]
pub(crate) fn parse_bool(s: &str) -> (r: Result<bool, ParseBoolError>)
    ensures
        match bool_text(s@) {
            Some(v) => r == Ok::<bool, ParseBoolError>(v),
            None => r is Err,
        },
{
    s.parse::<bool>()
}

/// `str::parse::<i8>`: `Ok` for an optional sign and digits whose number
/// fits the type, which give that number, and `Err` for every other text.
#[verifier::external_body]
pub(crate) fn parse_i8(s: &str) -> (r: Result<i8, ParseIntError>)
    ensures
        match int_text(s@, true, i8::MIN as int, i8::MAX as int) {
            Some(v) => r == Ok::<i8, ParseIntError>(v as i8),
            None => r is Err,
        },
{
    s.parse::<i8>()
}

/// `str::parse::<i16>`: `Ok` for an optional sign and digits whose number
/// fits the type, which give that number, and `Err` for every other text.
#[verifier::external_body]
pub(crate) fn parse_i16(s: &str) -> (r: Result<i16, ParseIntError>)
    ensures
        match int_text(s@, true, i16::MIN as int, i16::MAX as int) {
            Some(v) => r == Ok::<i16, ParseIntError>(v as i16),
            None => r is Err,
        },
{
    s.parse::<i16>()
}

/// `str::parse::<i32>`: `Ok` for an optional sign and digits whose number
/// fits the type, which give that number, and `Err` for every other text.
#[verifier::external_body]
pub(crate) fn parse_i32(s: &str) -> (r: Result<i32, ParseIntError>)
    ensures
        match int_text(s@, true, i32::MIN as int, i32::MAX as int) {
            Some(v) => r == Ok::<i32, ParseIntError>(v as i32),
            None => r is Err,
        },
{
    s.parse::<i32>()
}

/// `str::parse::<i64>`: `Ok` for an optional sign and digits whose number
/// fits the type, which give that number, and `Err` for every other text.
#[verifier::external_body]
pub(crate) fn parse_i64(s: &str) -> (r: Result<i64, ParseIntError>)
    ensures
        match int_text(s@, true, i64::MIN as int, i64::MAX as int) {
            Some(v) => r == Ok::<i64, ParseIntError>(v as i64),
            None => r is Err,
        },
{
    s.parse::<i64>()
}

/// `str::parse::<u8>`: `Ok` for an optional `+` and digits whose number fits
/// the type, which give that number, and `Err` for every other text.
#[verifier::external_body]
pub(crate) fn parse_u8(s: &str) -> (r: Result<u8, ParseIntError>)
    ensures
        match int_text(s@, false, u8::MIN as int, u8::MAX as int) {
            Some(v) => r == Ok::<u8, ParseIntError>(v as u8),
            None => r is Err,
        },
{
    s.parse::<u8>()
}

/// `str::parse::<u16>`: `Ok` for an optional `+` and digits whose number
/// fits the type, which give that number, and `Err` for every other text.
#[verifier::external_body]
pub(crate) fn parse_u16(s: &str) -> (r: Result<u16, ParseIntError>)
    ensures
        match int_text(s@, false, u16::MIN as int, u16::MAX as int) {
            Some(v) => r == Ok::<u16, ParseIntError>(v as u16),
            None => r is Err,
        },
{
    s.parse::<u16>()
}

/// `str::parse::<u32>`: `Ok` for an optional `+` and digits whose number
/// fits the type, which give that number, and `Err` for every other text.
#[verifier::external_body]
pub(crate) fn parse_u32(s: &str) -> (r: Result<u32, ParseIntError>)
    ensures
        match int_text(s@, false, u32::MIN as int, u32::MAX as int) {
            Some(v) => r == Ok::<u32, ParseIntError>(v as u32),
            None => r is Err,
        },
{
    s.parse::<u32>()
}

/// `str::parse::<u64>`: `Ok` for an optional `+` and digits whose number
/// fits the type, which give that number, and `Err` for every other text.
#[verifier::external_body]
pub(crate) fn parse_u64(s: &str) -> (r: Result<u64, ParseIntError>)
    ensures
        match int_text(s@, false, u64::MIN as int, u64::MAX as int) {
            Some(v) => r == Ok::<u64, ParseIntError>(v as u64),
            None => r is Err,
        },
{
    s.parse::<u64>()
}

/// A text that is neither a number nor a truth value. It is read in place
/// of a body that is no UTF-8, so that such a body fails as a text of
/// another kind does.
pub fn unreadable() -> (s: &'static str)
    ensures
        decimal(s@, true) is None,
        decimal(s@, false) is None,
        bool_text(s@) is None,
{
    let s = "invalid utf-8";
    proof {
        reveal_strlit("invalid utf-8");
        assert(s@.len() == 13);
        assert(s@[0] == 'i');
        assert(!is_digit(s@[0]));
    }
    s
}

/// The body as bytes.
pub fn to_bytes(processor: &DefaultProcessor) -> (r: Vec<u8>)
    ensures
        r@ == processor.raw(),
{
    processor.raw_data().clone()
}

/// The body as text.
pub fn to_text(processor: &DefaultProcessor) -> (r: Result<String, FromUtf8Error>)
    ensures
        match text_of(processor.raw()) {
            Some(s) => r is Ok && r->Ok_0@ == s,
            None => r is Err,
        },
{
    string_from_utf8(processor.raw_data().clone())
}

/// The body as a truth value.
pub fn to_bool(processor: &DefaultProcessor) -> (r: Result<bool, ParseBoolError>)
    ensures
        match bool_of(processor.raw()) {
            Some(v) => r == Ok::<bool, ParseBoolError>(v),
            None => r is Err,
        },
{
    match to_text(processor) {
        Ok(s) => parse_bool(s.as_str()),
        Err(_) => parse_bool(unreadable()),
    }
}

/// The body as a number of type `i8`.
pub fn to_i8(processor: &DefaultProcessor) -> (r: Result<i8, ParseIntError>)
    ensures
        match int_of(processor.raw(), true, i8::MIN as int, i8::MAX as int) {
            Some(v) => r == Ok::<i8, ParseIntError>(v as i8),
            None => r is Err,
        },
{
    match to_text(processor) {
        Ok(s) => parse_i8(s.as_str()),
        Err(_) => parse_i8(unreadable()),
    }
}

/// The body as a number of type `i16`.
pub fn to_i16(processor: &DefaultProcessor) -> (r: Result<i16, ParseIntError>)
    ensures
        match int_of(processor.raw(), true, i16::MIN as int, i16::MAX as int) {
            Some(v) => r == Ok::<i16, ParseIntError>(v as i16),
            None => r is Err,
        },
{
    match to_text(processor) {
        Ok(s) => parse_i16(s.as_str()),
        Err(_) => parse_i16(unreadable()),
    }
}

/// The body as a number of type `i32`.
pub fn to_i32(processor: &DefaultProcessor) -> (r: Result<i32, ParseIntError>)
    ensures
        match int_of(processor.raw(), true, i32::MIN as int, i32::MAX as int) {
            Some(v) => r == Ok::<i32, ParseIntError>(v as i32),
            None => r is Err,
        },
{
    match to_text(processor) {
        Ok(s) => parse_i32(s.as_str()),
        Err(_) => parse_i32(unreadable()),
    }
}

/// The body as a number of type `i64`.
pub fn to_i64(processor: &DefaultProcessor) -> (r: Result<i64, ParseIntError>)
    ensures
        match int_of(processor.raw(), true, i64::MIN as int, i64::MAX as int) {
            Some(v) => r == Ok::<i64, ParseIntError>(v as i64),
            None => r is Err,
        },
{
    match to_text(processor) {
        Ok(s) => parse_i64(s.as_str()),
        Err(_) => parse_i64(unreadable()),
    }
}

/// The body as a number of type `u8`.
pub fn to_u8(processor: &DefaultProcessor) -> (r: Result<u8, ParseIntError>)
    ensures
        match int_of(processor.raw(), false, u8::MIN as int, u8::MAX as int) {
            Some(v) => r == Ok::<u8, ParseIntError>(v as u8),
            None => r is Err,
        },
{
    match to_text(processor) {
        Ok(s) => parse_u8(s.as_str()),
        Err(_) => parse_u8(unreadable()),
    }
}

/// The body as a number of type `u16`.
pub fn to_u16(processor: &DefaultProcessor) -> (r: Result<u16, ParseIntError>)
    ensures
        match int_of(processor.raw(), false, u16::MIN as int, u16::MAX as int) {
            Some(v) => r == Ok::<u16, ParseIntError>(v as u16),
            None => r is Err,
        },
{
    match to_text(processor) {
        Ok(s) => parse_u16(s.as_str()),
        Err(_) => parse_u16(unreadable()),
    }
}

/// The body as a number of type `u32`.
pub fn to_u32(processor: &DefaultProcessor) -> (r: Result<u32, ParseIntError>)
    ensures
        match int_of(processor.raw(), false, u32::MIN as int, u32::MAX as int) {
            Some(v) => r == Ok::<u32, ParseIntError>(v as u32),
            None => r is Err,
        },
{
    match to_text(processor) {
        Ok(s) => parse_u32(s.as_str()),
        Err(_) => parse_u32(unreadable()),
    }
}

/// The body as a number of type `u64`.
pub fn to_u64(processor: &DefaultProcessor) -> (r: Result<u64, ParseIntError>)
    ensures
        match int_of(processor.raw(), false, u64::MIN as int, u64::MAX as int) {
            Some(v) => r == Ok::<u64, ParseIntError>(v as u64),
            None => r is Err,
        },
{
    match to_text(processor) {
        Ok(s) => parse_u64(s.as_str()),
        Err(_) => parse_u64(unreadable()),
    }
}

} // verus!
