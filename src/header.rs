//! The base block: the 4 KiB header at the start of a hive.

use vstd::prelude::*;

use crate::error::{RegistryError, Result};
use crate::utils::{calculate_checksum, checksum_of, fixed_chars, read_fixed_ascii, trim_white, u32_at, u32_le, u64_at, u64_le};

verus! {

/// Size of the base block in octets.
pub const BASE_BLOCK_SIZE: usize = 4096;

/// Signature of a hive base block.
pub const REGF_SIGNATURE: &'static [u8; 4] = &[0x72, 0x65, 0x67, 0x66];

/// Offset of the stored checksum in the base block.
pub const CHECKSUM_OFFSET: usize = 0x1FC;

/// Seconds from 1601-01-01 to 1970-01-01.
pub const FILETIME_UNIX_DIFF: i64 = 11644473600;

/// The octets of the `regf` signature.
pub open spec fn regf_bytes() -> Seq<u8> {
    seq![0x72u8, 0x65u8, 0x67u8, 0x66u8]
}

/// True for the supported format versions: 1.3 to 1.6.
pub open spec fn version_supported(major: u32, minor: u32) -> bool {
    major == 1 && 3 <= minor <= 6
}

/// The hive base block.
#[derive(Debug, Clone)]
pub struct BaseBlock {
    /// Signature, `regf`.
    pub signature: [u8; 4],
    /// Primary sequence number.
    pub primary_sequence: u32,
    /// Secondary sequence number.
    pub secondary_sequence: u32,
    /// Last-written time (FILETIME).
    pub last_written: u64,
    /// Major format version.
    pub major_version: u32,
    /// Minor format version.
    pub minor_version: u32,
    /// File type (0 = hive, 1 = log).
    pub file_type: u32,
    /// File format (1 = direct memory load).
    pub file_format: u32,
    /// Cell offset of the root key.
    pub root_cell_offset: u32,
    /// Length of the hive-bin data in octets.
    pub hive_length: u32,
    /// Clustering factor.
    pub clustering_factor: u32,
    /// Embedded file name.
    pub file_name: String,
    /// Stored checksum.
    pub checksum: u32,
}

/// True when `b` holds the fields that the base block `d` stores.
pub open spec fn base_block_fields(b: BaseBlock, d: Seq<u8>) -> bool {
    &&& b.signature@ == d.subrange(0, 4)
    &&& b.primary_sequence == u32_le(d, 0x04)
    &&& b.secondary_sequence == u32_le(d, 0x08)
    &&& b.last_written == u64_le(d, 0x0C)
    &&& b.major_version == u32_le(d, 0x14)
    &&& b.minor_version == u32_le(d, 0x18)
    &&& b.file_type == u32_le(d, 0x1C)
    &&& b.file_format == u32_le(d, 0x20)
    &&& b.root_cell_offset == u32_le(d, 0x24)
    &&& b.hive_length == u32_le(d, 0x28)
    &&& b.clustering_factor == u32_le(d, 0x2C)
    &&& b.file_name@ == trim_white(fixed_chars(d.subrange(0x30, 0xB0), 64))
    &&& b.checksum == u32_le(d, 0x1FC)
}

/// True when `d` is a base block that parses: long enough, signed `regf`, with
/// a matching checksum and a supported version.
pub open spec fn base_block_valid(d: Seq<u8>) -> bool {
    &&& d.len() >= BASE_BLOCK_SIZE
    &&& d.subrange(0, 4) == regf_bytes()
    &&& u32_le(d, 0x1FC) == checksum_of(d)
    &&& version_supported(u32_le(d, 0x14), u32_le(d, 0x18))
}

impl BaseBlock {
    /// Parses and validates a base block.
    pub fn parse(data: &[u8]) -> (r: Result<Self>)
        ensures
            base_block_valid(data@) <==> r is Ok,
            r is Ok ==> base_block_fields(r->Ok_0, data@),
            data@.len() < BASE_BLOCK_SIZE ==> (r matches Err(
                RegistryError::HiveTooSmall { size: s, minimum: m },
            ) && s == data@.len() && m == BASE_BLOCK_SIZE),
            data@.len() >= BASE_BLOCK_SIZE && data@.subrange(0, 4) != regf_bytes() ==> (r matches Err(
                RegistryError::InvalidSignature { expected: e, found: f },
            ) && e@ == regf_bytes() && f@ == data@.subrange(0, 4)),
            data@.len() >= BASE_BLOCK_SIZE && data@.subrange(0, 4) == regf_bytes() && u32_le(
                data@,
                0x1FC,
            ) != checksum_of(data@) ==> (r matches Err(
                RegistryError::ChecksumMismatch { expected: e, calculated: c },
            ) && e == u32_le(data@, 0x1FC) && c == checksum_of(data@)),
            data@.len() >= BASE_BLOCK_SIZE && data@.subrange(0, 4) == regf_bytes() && u32_le(
                data@,
                0x1FC,
            ) == checksum_of(data@) && !version_supported(u32_le(data@, 0x14), u32_le(data@, 0x18))
                ==> (r matches Err(RegistryError::UnsupportedVersion { major: a, minor: b }) && a
                == u32_le(data@, 0x14) && b == u32_le(data@, 0x18)),
    {
        if data.len() < BASE_BLOCK_SIZE {
            return Err(RegistryError::HiveTooSmall { size: data.len(), minimum: BASE_BLOCK_SIZE });
        }
        let signature: [u8; 4] = [data[0], data[1], data[2], data[3]];
        assert(signature@ =~= data@.subrange(0, 4));
        if !(signature[0] == 0x72 && signature[1] == 0x65 && signature[2] == 0x67 && signature[3]
            == 0x66) {
            let expected: [u8; 4] = [0x72, 0x65, 0x67, 0x66];
            assert(expected@ =~= regf_bytes());
            assert(signature@ != regf_bytes());
            return Err(RegistryError::invalid_signature(&expected, &signature));
        }
        assert(signature@ =~= regf_bytes());
        let primary_sequence = u32_at(data, 0x04);
        let secondary_sequence = u32_at(data, 0x08);
        let last_written = u64_at(data, 0x0C);
        let major_version = u32_at(data, 0x14);
        let minor_version = u32_at(data, 0x18);
        let file_type = u32_at(data, 0x1C);
        let file_format = u32_at(data, 0x20);
        let root_cell_offset = u32_at(data, 0x24);
        let hive_length = u32_at(data, 0x28);
        let clustering_factor = u32_at(data, 0x2C);
        let file_name = read_fixed_ascii(&data[0x30..0xB0], 64);
        let checksum = u32_at(data, 0x1FC);
        let calculated = calculate_checksum(data);
        if checksum != calculated {
            return Err(RegistryError::ChecksumMismatch { expected: checksum, calculated });
        }
        if major_version != 1 || minor_version < 3 || minor_version > 6 {
            return Err(RegistryError::UnsupportedVersion { major: major_version, minor: minor_version });
        }
        Ok(BaseBlock {
            signature,
            primary_sequence,
            secondary_sequence,
            last_written,
            major_version,
            minor_version,
            file_type,
            file_format,
            root_cell_offset,
            hive_length,
            clustering_factor,
            file_name,
            checksum,
        })
    }

    /// True when the primary and secondary sequence numbers match.
    pub fn is_consistent(&self) -> (r: bool)
        ensures
            r == (self.primary_sequence == self.secondary_sequence),
    {
        self.primary_sequence == self.secondary_sequence
    }

    /// The last-written time as seconds and nanoseconds since 1970-01-01 UTC.
    pub fn last_written_unix(&self) -> (r: (i64, u32))
        ensures
            r.0 == self.last_written as int / 10_000_000 - FILETIME_UNIX_DIFF,
            r.1 == (self.last_written as int % 10_000_000) * 100,
    {
        let whole: u64 = self.last_written / 10_000_000;
        let rest: u64 = self.last_written % 10_000_000;
        ((whole as i64) - FILETIME_UNIX_DIFF, (rest * 100) as u32)
    }
}

} // verus!
