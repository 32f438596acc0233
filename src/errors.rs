use vstd::prelude::*;

verus! {

/// A property type code that is not part of the known set.
#[derive(Debug)]
pub struct InvalidPropertyTypeError(pub u16);

/// A row lacks a property tag that a contact needs.
#[derive(Debug)]
pub struct MissingPropertyTagError(pub u32);

/// A declared length exceeds its policy maximum: field name, received length, maximum.
#[derive(Debug)]
pub struct TooMuchDataError(pub String, pub usize, pub usize);

/// Why decoding a property, a row or a file stopped.
#[derive(Debug)]
pub enum DecodeError {
    InvalidPropertyType(InvalidPropertyTypeError),
    TooMuchData(TooMuchDataError),
    /// A read needed more bytes than remain; the reader's offset at that read.
    UnexpectedEnd(usize),
}

/// The mathematical form of a `DecodeError`.
pub enum Failure {
    InvalidPropertyType(u16),
    TooMuchData(Seq<char>, int, int),
    UnexpectedEnd(int),
}

impl View for DecodeError {
    type V = Failure;

    open spec fn view(&self) -> Failure {
        match self {
            DecodeError::InvalidPropertyType(e) => Failure::InvalidPropertyType(e.0),
            DecodeError::TooMuchData(e) => Failure::TooMuchData(e.0@, e.1 as int, e.2 as int),
            DecodeError::UnexpectedEnd(p) => Failure::UnexpectedEnd(*p as int),
        }
    }
}

} // verus!
