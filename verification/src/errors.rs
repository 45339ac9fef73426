//! Errors module
//!
//! This module enumerates the errors that parsing can run into. `AxmlError`
//! lists the recoverable failures; `Fault` adds the conditions on which parsing
//! cannot go on at all (a malformed chunk header, an unknown value type, ...).

use vstd::prelude::*;

verus! {

/// Recoverable failures of the parser.
#[derive(Debug, Clone, Copy, PartialEq, Eq, Structural)]
pub enum AxmlError {
    /// Reading past the end of the bytes
    IoError,
    /// A string of the pool is not valid UTF-16
    Utf16DecodeError,
    /// Rendered XML is not valid UTF-8
    Utf8StrDecodeError,
    /// A string of the pool is not valid UTF-8
    Utf8StringDecodeError,
    /// A string index that is not in the string pool
    StringPoolError,
    /// A namespace URI that no start-namespace chunk declared
    NamespaceError,
    /// The archive holding the document could not be read
    ZipFileError,
    /// The XML writer failed
    XmlEncodingError,
}

/// Conditions on which the parser gives up on the input altogether.
#[derive(Debug, Clone, Copy, PartialEq, Eq, Structural)]
pub enum Abort {
    /// The chunk type of a header could not be read
    BlockTypeUnreadable,
    /// A header announces another chunk type than the one expected
    UnexpectedChunkType,
    /// The size fields of a header could not be read
    HeaderFieldUnreadable,
    /// The announced header size is below the minimum of 8 bytes
    HeaderSizeTooSmall,
    /// The announced chunk size is below the minimum of 8 bytes
    ChunkSizeTooSmall,
    /// The announced chunk size is below the announced header size
    ChunkSizeBelowHeaderSize,
    /// The reserved byte of a value is not zero
    NonZeroRes0,
    /// A value carries a data type that is not known
    UnknownDataValueType(u8),
    /// A resource table holds a chunk that is neither a string pool nor a package
    UnexpectedBlockType(u16),
    /// A string offset does not fit in 32 bits
    OffsetOverflow,
    /// A chunk parser was started less than two bytes into the data
    PositionUnderflow,
    /// An element starts after the element stack ran empty
    EmptyElementStack,
    /// A chunk leads the parser back to or before where it started
    NoProgress,
}

/// Outcome of a failed parse: an error, or a reason to give up.
#[derive(Debug, Clone, Copy, PartialEq, Eq, Structural)]
pub enum Fault {
    Error(AxmlError),
    Abort(Abort),
}

/// The error that a read past the end gives.
pub open spec fn eof() -> Fault {
    Fault::Error(AxmlError::IoError)
}

} // verus!
