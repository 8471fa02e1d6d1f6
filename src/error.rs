use vstd::prelude::*;

verus! {

/// Why a decode or a lookup failed.
#[derive(Clone, Copy, Debug, PartialEq, Eq, Structural)]
pub enum FormatError {
    /// The buffer is too short to hold the fixed header.
    TruncatedHeader,
    /// The archive does not start with the expected signature.
    InvalidSignature,
    /// The archive's entry table would not fit in the buffer.
    InvalidEntryCount,
    /// An archive entry's payload runs past the end of the buffer.
    CorruptTable,
    /// The palette holds fewer bytes than a palette needs.
    PaletteTooSmall,
    /// The archive holds no palette entry.
    NoPaletteData,
    /// A tile sheet's version field is not the supported one.
    UnsupportedVersion,
    /// A tile sheet's index range or tile sizes do not fit its buffer.
    InvalidTileRange,
    /// The archive holds no first tile sheet.
    NoTileData,
    /// A level's version field is not the supported one.
    UnsupportedMapVersion,
    /// A level ends before all of its records have been read.
    TruncatedRecord,
    /// A file is in none of the search directories.
    NotFound,
}

impl FormatError {
    /// A message for a person, naming the structural expectation that failed.
    pub fn message(&self) -> (r: &'static str) {
        match self {
            FormatError::TruncatedHeader => "data is too small to contain a valid header",
            FormatError::InvalidSignature => "GRP does not start with a valid signature",
            FormatError::InvalidEntryCount => "GRP declares more files than it can hold",
            FormatError::CorruptTable => "GRP table entry runs past the end of the data",
            FormatError::PaletteTooSmall => "PALETTE.DAT is too small to contain a palette",
            FormatError::NoPaletteData => "no PALETTE.DAT in the GRP archive",
            FormatError::UnsupportedVersion => "invalid ART version",
            FormatError::InvalidTileRange => "ART tile range does not fit the data",
            FormatError::NoTileData => "no TILES000.ART in the GRP archive",
            FormatError::UnsupportedMapVersion => "unsupported MAP version",
            FormatError::TruncatedRecord => "MAP ends in the middle of a record",
            FormatError::NotFound => "file not found in any search path",
        }
    }
}

} // verus!
