//! The error types of the library.
use vstd::prelude::*;

verus! {

/// `std::io::Error`, carried through as is.
#[verifier::external_type_specification]
#[verifier::external_body]
pub struct ExIoError(std::io::Error);

/// Failures while assembling an IMG container.
#[derive(Debug)]
pub enum ImgError {
    Io(std::io::Error),
    InvalidFormat(String),
    BlockOverflow(String),
}

/// Failures while reading map source text.
#[derive(Debug)]
pub enum ParseError {
    InvalidCoord(String),
}

/// Failures while reading a TYP style file.
#[derive(Debug)]
pub enum TypError {
    Io(std::io::Error),
    InvalidSection(String),
    InvalidKey { line: usize, key: String },
    InvalidValue { line: usize, context: String },
    UnknownCodepage(u16),
    BadHeader(String),
    Encoding(String),
}

} // verus!
