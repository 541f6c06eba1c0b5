//! The error type shared by every fallible operation of the engine.

use vstd::prelude::*;

verus! {

/// One error kind per failure class of the engine: string conversion at the
/// process boundary, loader failures, call-interface preparation failures,
/// and the three validation failures of the descriptor / coercion machinery.
/// The `Option<String>` payloads carry a human-readable diagnostic.
#[derive(Debug)]
pub enum Error {
    RustStringToCString,
    CStringToRustString,
    LibraryOpen(Option<String>),
    LibrarySymbol(Option<String>),
    LibraryClose(Option<String>),
    FFIBadTypeDef,
    FFIBadABI,
    FFIBadArgType,
    InvalidDescriptor(Option<String>),
    InvalidCast(Option<String>),
    InvalidArguments(Option<String>),
}

impl Error {
    /// The diagnostic text, where the kind carries one.
    pub fn get_message(&self) -> (r: Option<&str>)
        ensures
            match self {
                Error::LibraryOpen(m) | Error::LibrarySymbol(m) | Error::LibraryClose(m)
                | Error::InvalidDescriptor(m) | Error::InvalidCast(m)
                | Error::InvalidArguments(m) => match m {
                    Some(s) => r matches Some(t) && t@ == s@,
                    None => r is None,
                },
                _ => r is None,
            },
    {
        match self {
            Error::RustStringToCString
            | Error::CStringToRustString
            | Error::FFIBadTypeDef
            | Error::FFIBadABI
            | Error::FFIBadArgType => None,
            Error::LibraryOpen(m)
            | Error::LibrarySymbol(m)
            | Error::LibraryClose(m)
            | Error::InvalidDescriptor(m)
            | Error::InvalidCast(m)
            | Error::InvalidArguments(m) => match m {
                Some(s) => Some(s.as_str()),
                None => None,
            },
        }
    }

    /// A failed result of the invalid-descriptor kind, carrying `msg`.
    pub fn invalid_desc_from_str<T>(msg: &str) -> (r: Result<T, Error>)
        ensures
            r matches Err(e) && e matches Error::InvalidDescriptor(m)
                && m matches Some(s) && s@ == msg@,
    {
        Err(Error::InvalidDescriptor(Some(msg.to_owned())))
    }

    /// A failed result of the invalid-descriptor kind, taking the message by value.
    pub fn invalid_desc_from_string<T>(msg: String) -> (r: Result<T, Error>)
        ensures
            r matches Err(e) && e matches Error::InvalidDescriptor(m)
                && m matches Some(s) && s@ == msg@,
    {
        Err(Error::InvalidDescriptor(Some(msg)))
    }

    /// A failed result of the invalid-cast kind.
    pub fn invalid_cast_from_string<T>(msg: String) -> (r: Result<T, Error>)
        ensures
            r matches Err(e) && e matches Error::InvalidCast(m)
                && m matches Some(s) && s@ == msg@,
    {
        Err(Error::InvalidCast(Some(msg)))
    }

    /// A failed result of the invalid-arguments kind.
    pub fn invalid_args_from_string<T>(msg: String) -> (r: Result<T, Error>)
        ensures
            r matches Err(e) && e matches Error::InvalidArguments(m)
                && m matches Some(s) && s@ == msg@,
    {
        Err(Error::InvalidArguments(Some(msg)))
    }
}

} // verus!
