//! Error kinds shared by every layer of the parser.

use vstd::prelude::*;

verus! {

/// The operating system's I/O error, carried through untouched.
#[verifier::external_type_specification]
#[verifier::external_body]
pub struct ExIoError(std::io::Error);

/// Result of a registry operation.
pub type Result<T> = core::result::Result<T, RegistryError>;

/// Errors that can occur while reading a hive.
#[allow(inconsistent_fields)]
#[derive(Debug)]
pub enum RegistryError {
    /// I/O error while reading or writing a hive file.
    Io(std::io::Error),
    /// A magic signature did not match.
    InvalidSignature { expected: Vec<u8>, found: Vec<u8> },
    /// The data breaks a rule of the format.
    InvalidFormat(String),
    /// A cell offset points outside the image.
    InvalidOffset { offset: u32, hive_size: usize },
    /// A cell size word is invalid.
    InvalidCellSize { size: i32, offset: u32 },
    /// A cell signature is not one of the known kinds.
    UnknownCellType { cell_type: [u8; 2], offset: u32 },
    /// A key or value was not found.
    NotFound(String),
    /// A UTF-16 string could not be decoded.
    InvalidUtf16 { offset: u32 },
    /// A value type is not valid.
    InvalidValueType(u32),
    /// The image is smaller than the format requires.
    HiveTooSmall { size: usize, minimum: usize },
    /// The stored base-block checksum differs from the computed one.
    ChecksumMismatch { expected: u32, calculated: u32 },
    /// The hive format version is not supported.
    UnsupportedVersion { major: u32, minor: u32 },
    /// Fewer bytes are available than a structure needs.
    TruncatedData { offset: u32, expected: usize, actual: usize },
    /// A subkey list carries an unknown signature.
    InvalidSubkeyList { list_type: [u8; 2] },
    /// A value is too large for the reader.
    BigDataNotSupported { size: u32, max_supported: u32 },
}

impl RegistryError {
    /// An invalid-signature error holding both byte strings.
    pub fn invalid_signature(expected: &[u8], found: &[u8]) -> (r: Self)
        ensures
            r matches RegistryError::InvalidSignature { expected: e, found: f } && e@ == expected@
                && f@ == found@,
    {
        RegistryError::InvalidSignature {
            expected: vstd::slice::slice_to_vec(expected),
            found: vstd::slice::slice_to_vec(found),
        }
    }

    /// An invalid-offset error.
    pub fn invalid_offset(offset: u32, hive_size: usize) -> (r: Self)
        ensures
            r matches RegistryError::InvalidOffset { offset: o, hive_size: h } && o == offset && h
                == hive_size,
    {
        RegistryError::InvalidOffset { offset, hive_size }
    }

    /// An invalid-cell-size error.
    pub fn invalid_cell_size(size: i32, offset: u32) -> (r: Self)
        ensures
            r matches RegistryError::InvalidCellSize { size: s, offset: o } && s == size && o
                == offset,
    {
        RegistryError::InvalidCellSize { size, offset }
    }

    /// A format error with the given description.
    pub fn format_error(message: String) -> (r: Self)
        ensures
            r matches RegistryError::InvalidFormat(m) && m@ == message@,
    {
        RegistryError::InvalidFormat(message)
    }

    /// A not-found error naming the kind of item and its name.
    pub fn not_found(item_type: &str, name: &str) -> (r: Self)
        ensures
            r matches RegistryError::NotFound(m) && m@ == item_type@ + seq![' ', '\''] + name@
                + seq!['\''],
    {
        let mut message = item_type.to_owned();
        message.append(" '");
        message.append(name);
        message.append("'");
        proof {
            reveal_strlit(" '");
            reveal_strlit("'");
        }
        assert(message@ =~= item_type@ + seq![' ', '\''] + name@ + seq!['\'']);
        RegistryError::NotFound(message)
    }

    /// An unknown-cell-type error.
    pub fn unknown_cell_type(cell_type: [u8; 2], offset: u32) -> (r: Self)
        ensures
            r matches RegistryError::UnknownCellType { cell_type: c, offset: o } && c == cell_type
                && o == offset,
    {
        RegistryError::UnknownCellType { cell_type, offset }
    }
}

} // verus!
