use vstd::prelude::*;

verus! {

/// What went wrong while reading bytes.
#[derive(Debug, Clone, Copy, PartialEq, Eq, Structural)]
pub enum IoKind {
    /// The data ended before a record was complete.
    UnexpectedEof,
    /// A compressed stream could not be inflated.
    InvalidData,
}

/// Why an archive or a table was judged malformed.
#[derive(Debug, Clone, Copy, PartialEq, Eq, Structural)]
pub enum InvalidReason {
    /// The source is shorter than the 24-byte footer.
    MissingFooter,
    /// The footer does not carry the expected signature.
    BadSignature,
    /// A table's offset hints point before its start.
    TableOffsets,
}

/// Error type for archive and table reading.
#[derive(Debug, Clone, Copy, PartialEq, Eq, Structural)]
pub enum IpfError {
    /// Reading the underlying bytes failed.
    Io(IoKind),
    /// The archive or table holds data that the format does not allow.
    InvalidArchive(InvalidReason),
    /// The requested entry is not in the archive.
    FileNotFound,
    /// A text field is not valid UTF-8.
    Encoding,
}

impl IpfError {
    /// A short human-readable description of the error.
    pub fn message(&self) -> (r: &'static str) {
        match self {
            IpfError::Io(IoKind::UnexpectedEof) => "Unexpected end of data",
            IpfError::Io(IoKind::InvalidData) => "Corrupt deflate stream",
            IpfError::InvalidArchive(InvalidReason::MissingFooter) => {
                "Invalid ipf archive: failed to seek to the footer (last 24 bytes)"
            },
            IpfError::InvalidArchive(InvalidReason::BadSignature) => {
                "Invalid ipf archive: invalid magic signature"
            },
            IpfError::InvalidArchive(InvalidReason::TableOffsets) => {
                "Invalid ipf archive: inconsistent table offsets"
            },
            IpfError::FileNotFound => "Specified file not found in archive",
            IpfError::Encoding => "Invalid UTF-8",
        }
    }
}

/// Shorthand for the error raised when data runs out.
pub open spec fn eof() -> IpfError {
    IpfError::Io(IoKind::UnexpectedEof)
}

} // verus!
