use vstd::prelude::*;

pub mod float_bits;
pub mod vec3;
pub mod stl_parser;
pub mod stl_generator;

verus! {

/// Output format selector for the two STL encodings.
#[derive(Debug, Clone, Copy, PartialEq, Eq, Structural)]
pub enum STLFormat {
    Binary,
    ASCII,
}

/// Everything that can go wrong while decoding an STL byte stream.
///
/// Reading or writing the underlying file is the caller's business; the
/// codec itself only ever fails for one of the structural reasons below.
#[derive(Debug, PartialEq, Eq)]
pub enum StlError {
    /// The binary layout declares more triangle records than the bytes hold.
    TruncatedBinary,
    /// The textual layout does not open with a `solid ` line.
    MissingSolid,
    /// A coordinate token (carried here) does not parse as a float.
    BadFloat(Vec<u8>),
    /// A coordinate line does not hold exactly three numbers.
    WrongCount,
    /// A facet body ends before its three vertex lines.
    MissingLine,
    /// Both decoders failed; both underlying errors are kept.
    AmbiguousFormat(Box<StlError>, Box<StlError>),
}

/// Mathematical model of `StlError`: token payloads become byte sequences.
pub enum StlErrorV {
    TruncatedBinary,
    MissingSolid,
    BadFloat(Seq<u8>),
    WrongCount,
    MissingLine,
    AmbiguousFormat(Box<StlErrorV>, Box<StlErrorV>),
}

pub open spec fn err_view(e: StlError) -> StlErrorV
    decreases e,
{
    match e {
        StlError::TruncatedBinary => StlErrorV::TruncatedBinary,
        StlError::MissingSolid => StlErrorV::MissingSolid,
        StlError::BadFloat(t) => StlErrorV::BadFloat(t@),
        StlError::WrongCount => StlErrorV::WrongCount,
        StlError::MissingLine => StlErrorV::MissingLine,
        StlError::AmbiguousFormat(b, a) => StlErrorV::AmbiguousFormat(
            Box::new(err_view(*b)),
            Box::new(err_view(*a)),
        ),
    }
}

pub proof fn lemma_err_view_ambiguous(b: StlError, a: StlError)
    ensures
        err_view(StlError::AmbiguousFormat(Box::new(b), Box::new(a)))
            == StlErrorV::AmbiguousFormat(Box::new(err_view(b)), Box::new(err_view(a))),
{
}

} // verus!
