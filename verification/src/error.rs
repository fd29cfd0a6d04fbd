use vstd::prelude::*;

verus! {

/// Declaration of std's `std::io::ErrorKind` so that an I/O failure's kind can
/// be carried through `Error` as an opaque value; nothing is assumed about it.
#[verifier::external_type_specification]
#[verifier::external_body]
pub struct ExErrorKind(std::io::ErrorKind);

/// Failure signal shared by the containers and the graph loaders.
///
/// `IndexOfBounds` reports a rejected index, `SelfLoop` and `ParallelEdges`
/// reject malformed graph input, `IOError` carries the kind of a failed I/O
/// operation, `ConvertError` reports text that does not parse as a number,
/// and `UnKnownError` stands for any other failure.
#[derive(Debug)]
pub enum Error {
    IndexOfBounds,
    ParallelEdges,
    SelfLoop,
    IOError(std::io::ErrorKind),
    ConvertError,
    UnKnownError,
}

impl Error {
    /// Wraps the kind of a failed I/O operation as an `Error`.
    pub fn from_io(kind: std::io::ErrorKind) -> (r: Self)
        ensures
            r == Error::IOError(kind),
    {
        Error::IOError(kind)
    }

    /// A fixed description of the failure, one text per variant.
    pub fn message(&self) -> (m: &'static str)
        ensures
            self is IndexOfBounds ==> m@ == "Array Index of bounds!"@,
            self is SelfLoop ==> m@ == "Self loop is Detected"@,
            self is ParallelEdges ==> m@ == "Parallel Edged are Detected"@,
            self is IOError ==> m@ == "IO error"@,
            self is ConvertError ==> m@ == "Convert error"@,
            self is UnKnownError ==> m@ == "Unknown error"@,
    {
        match self {
            Error::IndexOfBounds => "Array Index of bounds!",
            Error::SelfLoop => "Self loop is Detected",
            Error::ParallelEdges => "Parallel Edged are Detected",
            Error::IOError(_) => "IO error",
            Error::ConvertError => "Convert error",
            Error::UnKnownError => "Unknown error",
        }
    }
}

} // verus!
