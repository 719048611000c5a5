use vstd::prelude::*;

verus! {

/// One validated amplicon: the insert between a forward primer match and the
/// following reverse-primer match.
#[derive(Debug)]
pub struct AmpliconResult<'a> {
    /// The insert itself, a view into the searched sequence.
    pub amplicon: &'a [u8],
    /// Offset of the first insert base, just past the forward primer match.
    pub start: usize,
    /// Offset where the reverse-complemented reverse primer match begins.
    pub end: usize,
    /// `end - start`.
    pub insert_length: usize,
    /// Forward primer length, plus insert length, plus reverse primer length.
    pub total_length: usize,
}

/// A named primer assay: a forward primer, a reverse primer written 5' to 3',
/// and the allowed range of the insert length.
#[derive(Debug)]
pub struct PrimerPair {
    pub primer_name: String,
    pub forward_primer: Vec<u8>,
    pub reverse_primer: Vec<u8>,
    pub min_len: usize,
    pub max_len: usize,
}

/// What can go wrong while reading the inputs or searching a sequence.
#[derive(Debug, PartialEq, Eq)]
pub enum AmpliconError {
    /// The sequence file at this path could not be opened.
    FastaFileOpenError(String),
    /// The primer file at this path could not be opened.
    PrimerFileParsingError(String),
    /// A length field of a primer line is not a non-negative integer.
    PrimerLenParsingError { value: String },
    /// A primer line does not hold exactly five tab-separated fields.
    PrimerLineFormatError,
    /// No line of the primer table described a primer pair.
    NoPrimersFoundError,
    /// A byte outside `A`, `C`, `G`, `T` stands where a base was expected.
    UnsupportedBaseError { base: u8 },
}

} // verus!
