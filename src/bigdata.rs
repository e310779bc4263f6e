//! Big-data headers (`db` cells) for values longer than 16 344 octets.

use vstd::prelude::*;

use crate::error::{RegistryError, Result};
use crate::utils::{u16_at, u16_le, u32_at, u32_le};

verus! {

/// Minimum size of a big-data header in octets.
pub const BIG_DATA_MIN_SIZE: usize = 8;

/// The octets `db`.
pub open spec fn db_bytes() -> Seq<u8> {
    seq![0x64u8, 0x62u8]
}

/// A big-data header.
#[derive(Debug, Clone)]
pub struct BigDataBlock {
    /// Number of data segments.
    pub segment_count: u16,
    /// Cell offset of the segment-offset list.
    pub segment_list_offset: u32,
}

impl BigDataBlock {
    /// Parses a big-data header from a cell payload; `offset` is reported in errors.
    pub fn parse(data: &[u8], offset: u32) -> (r: Result<Self>)
        ensures
            data@.len() < BIG_DATA_MIN_SIZE ==> (r matches Err(
                RegistryError::TruncatedData { offset: o, expected: e, actual: a },
            ) && o == offset && e == BIG_DATA_MIN_SIZE && a == data@.len()),
            data@.len() >= BIG_DATA_MIN_SIZE && data@.subrange(0, 2) != db_bytes() ==> (r matches Err(
                RegistryError::InvalidFormat(_),
            )),
            r is Ok <==> (data@.len() >= BIG_DATA_MIN_SIZE && data@.subrange(0, 2) == db_bytes()),
            r is Ok ==> r->Ok_0.segment_count == u16_le(data@, 2) && r->Ok_0.segment_list_offset
                == u32_le(data@, 4),
    {
        if data.len() < BIG_DATA_MIN_SIZE {
            return Err(RegistryError::TruncatedData { offset, expected: BIG_DATA_MIN_SIZE, actual: data.len() });
        }
        if !(data[0] == 0x64 && data[1] == 0x62) {
            assert(data@.subrange(0, 2) != db_bytes()) by {
                assert(data@.subrange(0, 2)[0] == data@[0]);
                assert(data@.subrange(0, 2)[1] == data@[1]);
            }
            return Err(RegistryError::InvalidFormat("expected a 'db' signature".to_owned()));
        }
        assert(data@.subrange(0, 2) =~= db_bytes());
        Ok(BigDataBlock { segment_count: u16_at(data, 2), segment_list_offset: u32_at(data, 4) })
    }
}

} // verus!
