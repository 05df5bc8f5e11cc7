//! The failure value shared by every decoder.

use vstd::prelude::*;
use vstd::slice::slice_to_vec;

verus! {

/// Why a record or a file could not be decoded.
#[derive(Clone, Copy, Debug, PartialEq, Eq, Structural)]
pub enum ErrorKind {
    /// A required section is missing, or the header line is malformed.
    StructuralError,
    /// A record has a number of fields that its decoder does not know.
    FieldCountError,
    /// An integer or decimal literal is malformed or does not fit.
    NumericFormatError,
    /// A value of a closed set has no mapping.
    EnumDecodeError,
    /// A packed flag integer lies outside its numeric range.
    FlagRangeError,
    /// None or several of the object-kind bits are set.
    InvalidFlagCombination,
    /// The hold-note bit is set; hold notes are not modelled.
    UnsupportedObjectKind,
    /// A perfect curve has more than two control points.
    CurveShapeError,
}

/// A part of a chart file: what stands before the first section header, or
/// one of the named sections.
#[derive(Clone, Copy, Debug, PartialEq, Eq, Structural)]
pub enum Section {
    Preamble,
    General,
    Editor,
    Metadata,
    Difficulty,
    Events,
    TimingPoints,
    Colours,
    HitObjects,
}

/// Where in a file a record stands: its section, and its line counted from
/// one.
#[derive(Clone, Copy, Debug, PartialEq, Eq, Structural)]
pub struct Place {
    pub section: Section,
    pub line: usize,
}

/// A failed decode: the kind of failure, the text that caused it, the
/// number of fields found where that number is the fault and, once it is
/// known, the place of the record in its file.
#[derive(Clone, Debug, PartialEq, Eq)]
pub struct DecodeError {
    pub kind: ErrorKind,
    pub text: Vec<u8>,
    pub count: Option<usize>,
    pub place: Option<Place>,
}

/// The mathematical content of a [`DecodeError`].
pub struct Failure {
    pub kind: ErrorKind,
    pub text: Seq<u8>,
    pub count: Option<usize>,
    pub place: Option<Place>,
}

impl View for DecodeError {
    type V = Failure;

    open spec fn view(&self) -> Failure {
        Failure { kind: self.kind, text: self.text@, count: self.count, place: self.place }
    }
}

/// The failure of the given kind on the given text, not yet placed in a file.
pub open spec fn failure(kind: ErrorKind, text: Seq<u8>) -> Failure {
    Failure { kind, text, count: None, place: None }
}

/// The failure of a text that holds `count` fields, a number that its
/// decoder does not know.
pub open spec fn miscount(count: nat, text: Seq<u8>) -> Failure {
    Failure { kind: ErrorKind::FieldCountError, text, count: Some(count as usize), place: None }
}

/// The same failure, placed in a file.
pub open spec fn placed(f: Failure, section: Section, line: usize) -> Failure {
    Failure { kind: f.kind, text: f.text, count: f.count, place: Some(Place { section, line }) }
}

/// What a decoder returned, with the error taken by its view.
pub open spec fn plain<T>(r: Result<T, DecodeError>) -> Result<T, Failure> {
    match r {
        Ok(v) => Ok(v),
        Err(e) => Err(e@),
    }
}

/// What a decoder returned, with both the value and the error taken by their views.
pub open spec fn viewed<T: View>(r: Result<T, DecodeError>) -> Result<T::V, Failure> {
    match r {
        Ok(v) => Ok(v@),
        Err(e) => Err(e@),
    }
}

impl DecodeError {
    /// A failure of the given kind that carries a copy of the offending text.
    pub fn new(kind: ErrorKind, text: &[u8]) -> (e: DecodeError)
        ensures
            e@ == failure(kind, text@),
    {
        DecodeError { kind, text: slice_to_vec(text), count: None, place: None }
    }

    /// The failure of a text that holds `count` fields, a number that its
    /// decoder does not know.
    pub fn miscount(count: usize, text: &[u8]) -> (e: DecodeError)
        ensures
            e@ == miscount(count as nat, text@),
    {
        DecodeError {
            kind: ErrorKind::FieldCountError,
            text: slice_to_vec(text),
            count: Some(count),
            place: None,
        }
    }

    /// The same failure, placed in a file.
    pub fn at(self, section: Section, line: usize) -> (e: DecodeError)
        ensures
            e@ == placed(self@, section, line),
    {
        DecodeError {
            kind: self.kind,
            text: self.text,
            count: self.count,
            place: Some(Place { section, line }),
        }
    }
}

} // verus!
