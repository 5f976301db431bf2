//! What can go wrong while a layer and its delivery task are configured.

use vstd::prelude::*;
use vstd::string::StringExecFns;
use crate::quote::debug_quoted;
use crate::quote::debug_quoted_char;
use crate::quote::quote;
use crate::quote::quote_char;

verus! {

/// An error, as mathematical values.
pub enum ErrorModel {
    DuplicateExtraField(Seq<char>),
    DuplicateHttpHeader(Seq<char>),
    DuplicateLabel(Seq<char>),
    EmptyLabel,
    InvalidHttpHeaderName(Seq<char>),
    InvalidHttpHeaderValue(Seq<char>),
    InvalidLabelCharacter(Seq<char>, char),
    InvalidLokiUrl,
    TooManyHttpHeaders,
    ReservedLabelLevel,
}

impl ErrorModel {
    /// The sentence that describes the error.
    pub open spec fn message(self) -> Seq<char> {
        match self {
            ErrorModel::DuplicateExtraField(key) => "duplicate extra field key "@ + debug_quoted(
                key,
            ),
            ErrorModel::DuplicateHttpHeader(name) => "duplicate HTTP header "@ + debug_quoted(
                name,
            ),
            ErrorModel::DuplicateLabel(key) => "duplicate label key "@ + debug_quoted(key),
            ErrorModel::EmptyLabel => "empty label key"@,
            ErrorModel::InvalidHttpHeaderName(name) => "invalid HTTP header name "@
                + debug_quoted(name),
            ErrorModel::InvalidHttpHeaderValue(name) => "invalid HTTP header value for "@
                + debug_quoted(name),
            ErrorModel::InvalidLabelCharacter(key, c) => "invalid label character "@
                + debug_quoted_char(c) + " in key "@ + debug_quoted(key),
            ErrorModel::InvalidLokiUrl => "invalid Loki URL"@,
            ErrorModel::TooManyHttpHeaders => "too many HTTP headers"@,
            ErrorModel::ReservedLabelLevel => "cannot add custom label for \"level\""@,
        }
    }
}

/// The ways in which configuring can fail.
#[derive(Debug)]
pub enum ErrorInner {
    /// The extra field with this key was set before.
    DuplicateExtraField(String),
    /// The HTTP header with this name was set before.
    DuplicateHttpHeader(String),
    /// The label with this key was added before.
    DuplicateLabel(String),
    /// The label key has no character.
    EmptyLabel,
    /// This is no name that an HTTP header can have.
    InvalidHttpHeaderName(String),
    /// The value given for the HTTP header of this name is none that a
    /// header can have.
    InvalidHttpHeaderValue(String),
    /// The label key holds this character, which is none of `A` to `Z`,
    /// `a` to `z` and `_`.
    InvalidLabelCharacter(String, char),
    /// The URL of the Loki server cannot be used.
    InvalidLokiUrl,
    /// The map of HTTP headers cannot take another header.
    TooManyHttpHeaders,
    /// The label key is `level`, which is kept for the severity.
    ReservedLabelLevel,
}

impl View for ErrorInner {
    type V = ErrorModel;

    open spec fn view(&self) -> ErrorModel {
        match self {
            ErrorInner::DuplicateExtraField(key) => ErrorModel::DuplicateExtraField(key@),
            ErrorInner::DuplicateHttpHeader(name) => ErrorModel::DuplicateHttpHeader(name@),
            ErrorInner::DuplicateLabel(key) => ErrorModel::DuplicateLabel(key@),
            ErrorInner::EmptyLabel => ErrorModel::EmptyLabel,
            ErrorInner::InvalidHttpHeaderName(name) => ErrorModel::InvalidHttpHeaderName(name@),
            ErrorInner::InvalidHttpHeaderValue(name) => ErrorModel::InvalidHttpHeaderValue(name@),
            ErrorInner::InvalidLabelCharacter(key, c) => ErrorModel::InvalidLabelCharacter(
                key@,
                *c,
            ),
            ErrorInner::InvalidLokiUrl => ErrorModel::InvalidLokiUrl,
            ErrorInner::TooManyHttpHeaders => ErrorModel::TooManyHttpHeaders,
            ErrorInner::ReservedLabelLevel => ErrorModel::ReservedLabelLevel,
        }
    }
}

/// The error type for constructing a layer and its delivery task.
#[derive(Debug)]
pub struct Error(pub ErrorInner);

impl View for Error {
    type V = ErrorModel;

    open spec fn view(&self) -> ErrorModel {
        self.0@
    }
}

impl Error {
    /// The sentence that describes the error.
    pub fn message(&self) -> (text: String)
        ensures
            text@ == self@.message(),
    {
        match &self.0 {
            ErrorInner::DuplicateExtraField(key) => String::from_str(
                "duplicate extra field key ",
            ).concat(quote(key.as_str()).as_str()),
            ErrorInner::DuplicateHttpHeader(name) => String::from_str(
                "duplicate HTTP header ",
            ).concat(quote(name.as_str()).as_str()),
            ErrorInner::DuplicateLabel(key) => String::from_str("duplicate label key ").concat(
                quote(key.as_str()).as_str(),
            ),
            ErrorInner::InvalidHttpHeaderName(name) => String::from_str(
                "invalid HTTP header name ",
            ).concat(quote(name.as_str()).as_str()),
            ErrorInner::InvalidHttpHeaderValue(name) => String::from_str(
                "invalid HTTP header value for ",
            ).concat(quote(name.as_str()).as_str()),
            ErrorInner::InvalidLabelCharacter(key, c) => String::from_str(
                "invalid label character ",
            ).concat(quote_char(*c).as_str()).concat(" in key ").concat(
                quote(key.as_str()).as_str(),
            ),
            ErrorInner::EmptyLabel => String::from_str("empty label key"),
            ErrorInner::InvalidLokiUrl => String::from_str("invalid Loki URL"),
            ErrorInner::TooManyHttpHeaders => String::from_str("too many HTTP headers"),
            ErrorInner::ReservedLabelLevel => String::from_str(
                "cannot add custom label for \"level\"",
            ),
        }
    }
}

} // verus!
