//! The error that stands for each cause of a failed conversion.

use crate::{MultipartParseError, ToMultipartParseError};
use std::convert::Infallible;
use std::num::{ParseFloatError, ParseIntError};
use std::str::ParseBoolError;
use std::string::FromUtf8Error;
use vstd::prelude::*;

verus! {

impl<'a> ToMultipartParseError<'a> for Infallible {
    fn to_multipart_parse_error(&'a self, _name: String, _raw_data: &'a Vec<u8>) -> (r:
        MultipartParseError<'a>)
        ensures
            r is NoError,
    {
        MultipartParseError::NoError
    }
}

impl<'a> ToMultipartParseError<'a> for FromUtf8Error {
    fn to_multipart_parse_error(&'a self, name: String, _raw_data: &'a Vec<u8>) -> (r:
        MultipartParseError<'a>)
        ensures
            r == MultipartParseError::ParseStrError(name, self),
    {
        MultipartParseError::ParseStrError(name, self)
    }
}

impl<'a> ToMultipartParseError<'a> for ParseBoolError {
    fn to_multipart_parse_error(&'a self, name: String, raw_data: &'a Vec<u8>) -> (r:
        MultipartParseError<'a>)
        ensures
            r == MultipartParseError::ParseBoolError(name, raw_data, self),
    {
        MultipartParseError::ParseBoolError(name, raw_data, self)
    }
}

impl<'a> ToMultipartParseError<'a> for ParseIntError {
    fn to_multipart_parse_error(&'a self, name: String, raw_data: &'a Vec<u8>) -> (r:
        MultipartParseError<'a>)
        ensures
            r == MultipartParseError::ParseIntError(name, raw_data, self),
    {
        MultipartParseError::ParseIntError(name, raw_data, self)
    }
}

impl<'a> ToMultipartParseError<'a> for ParseFloatError {
    fn to_multipart_parse_error(&'a self, name: String, raw_data: &'a Vec<u8>) -> (r:
        MultipartParseError<'a>)
        ensures
            r == MultipartParseError::ParseFloatError(name, raw_data, self),
    {
        MultipartParseError::ParseFloatError(name, raw_data, self)
    }
}

} // verus!
