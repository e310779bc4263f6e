//! Hive bins: the 4 KiB-aligned containers of cells.

use vstd::prelude::*;

use crate::error::{RegistryError, Result};
use crate::utils::{u32_at, u32_le, u64_at, u64_le};

verus! {

/// Signature of a hive bin.
pub const HBIN_SIGNATURE: &'static [u8; 4] = &[0x68, 0x62, 0x69, 0x6e];

/// Size of a hive-bin header in octets.
pub const HBIN_HEADER_SIZE: usize = 0x20;

/// The octets `hbin`.
pub open spec fn hbin_bytes() -> Seq<u8> {
    seq![0x68u8, 0x62u8, 0x69u8, 0x6eu8]
}

/// A hive-bin header.
#[derive(Debug, Clone)]
pub struct HbinHeader {
    /// Signature, `hbin`.
    pub signature: [u8; 4],
    /// Offset of this bin relative to the first bin.
    pub offset: u32,
    /// Size of this bin in octets, header included.
    pub size: u32,
    /// Reserved words.
    pub reserved: [u32; 2],
    /// Timestamp (FILETIME).
    pub timestamp: u64,
    /// Spare word.
    pub spare: u32,
}

/// True when `h` holds the fields that the bin header `d` stores.
pub open spec fn hbin_fields(h: HbinHeader, d: Seq<u8>) -> bool {
    &&& h.signature@ == d.subrange(0, 4)
    &&& h.offset == u32_le(d, 0x04)
    &&& h.size == u32_le(d, 0x08)
    &&& h.reserved@ == seq![u32_le(d, 0x0C), u32_le(d, 0x10)]
    &&& h.timestamp == u64_le(d, 0x14)
    &&& h.spare == u32_le(d, 0x1C)
}

/// True when `d` starts with a valid bin header for position `expected`.
pub open spec fn hbin_valid(d: Seq<u8>, expected: u32) -> bool {
    &&& d.len() >= HBIN_HEADER_SIZE
    &&& d.subrange(0, 4) == hbin_bytes()
    &&& u32_le(d, 0x04) == expected
}

impl HbinHeader {
    /// Parses a bin header; its stored offset must equal `expected_offset`.
    pub fn parse(data: &[u8], expected_offset: u32) -> (r: Result<Self>)
        ensures
            hbin_valid(data@, expected_offset) <==> r is Ok,
            r is Ok ==> hbin_fields(r->Ok_0, data@),
            data@.len() < HBIN_HEADER_SIZE ==> (r matches Err(
                RegistryError::TruncatedData { offset: o, expected: e, actual: a },
            ) && o == expected_offset && e == HBIN_HEADER_SIZE && a == data@.len()),
            data@.len() >= HBIN_HEADER_SIZE && data@.subrange(0, 4) != hbin_bytes() ==> (r matches Err(
                RegistryError::InvalidSignature { expected: e, found: f },
            ) && e@ == hbin_bytes() && f@ == data@.subrange(0, 4)),
            data@.len() >= HBIN_HEADER_SIZE && data@.subrange(0, 4) == hbin_bytes() && u32_le(data@, 4)
                != expected_offset ==> (r matches Err(RegistryError::InvalidFormat(_))),
    {
        if data.len() < HBIN_HEADER_SIZE {
            return Err(
                RegistryError::TruncatedData {
                    offset: expected_offset,
                    expected: HBIN_HEADER_SIZE,
                    actual: data.len(),
                },
            );
        }
        let signature: [u8; 4] = [data[0], data[1], data[2], data[3]];
        assert(signature@ =~= data@.subrange(0, 4));
        if !(signature[0] == 0x68 && signature[1] == 0x62 && signature[2] == 0x69 && signature[3]
            == 0x6e) {
            let expected: [u8; 4] = [0x68, 0x62, 0x69, 0x6e];
            assert(expected@ =~= hbin_bytes());
            assert(signature@ != hbin_bytes());
            return Err(RegistryError::invalid_signature(&expected, &signature));
        }
        assert(signature@ =~= hbin_bytes());
        let offset = u32_at(data, 0x04);
        let size = u32_at(data, 0x08);
        if offset != expected_offset {
            return Err(RegistryError::InvalidFormat("hbin offset does not match its position".to_owned()));
        }
        let reserved: [u32; 2] = [u32_at(data, 0x0C), u32_at(data, 0x10)];
        assert(reserved@ =~= seq![u32_le(data@, 0x0C), u32_le(data@, 0x10)]);
        let timestamp = u64_at(data, 0x14);
        let spare = u32_at(data, 0x1C);
        Ok(HbinHeader { signature, offset, size, reserved, timestamp, spare })
    }

    /// Size of the bin's data area (the bin without its header).
    pub fn data_size(&self) -> (r: u32)
        ensures
            r == (if self.size >= 0x20 {
                self.size - 0x20
            } else {
                0
            }),
    {
        if self.size >= 0x20 {
            self.size - 0x20
        } else {
            0
        }
    }
}

/// The magnitude of a stored cell size.
pub open spec fn size_magnitude(size: i32) -> int {
    if size < 0 {
        -(size as int)
    } else {
        size as int
    }
}

/// Computes the magnitude of a stored cell size.
pub(crate) fn cell_magnitude(size: i32) -> (r: usize)
    ensures
        r == size_magnitude(size),
{
    if size < 0 {
        (0 - (size as i64)) as usize
    } else {
        size as usize
    }
}

/// The cell offset of position `pos` of a bin at `base`, modulo 2^32.
pub open spec fn cell_offset_in(base: u32, pos: int) -> u32 {
    ((base as int + pos % 0x1_0000_0000) % 0x1_0000_0000) as u32
}

/// A cell found in a bin.
#[derive(Debug)]
pub struct CellInfo<'a> {
    /// Offset of this cell relative to the first bin.
    pub offset: u32,
    /// Size of the cell, size field included.
    pub size: u32,
    /// True if the cell is allocated (negative stored size).
    pub is_allocated: bool,
    /// The cell payload (without the size field).
    pub data: &'a [u8],
}

impl<'a> CellInfo<'a> {
    /// The first two payload octets, which name the cell kind.
    pub fn cell_type(&self) -> (r: Option<[u8; 2]>)
        ensures
            self.data@.len() >= 2 ==> (r is Some && r->Some_0@ == self.data@.subrange(0, 2)),
            self.data@.len() < 2 ==> r is None,
    {
        if self.data.len() >= 2 {
            let t: [u8; 2] = [self.data[0], self.data[1]];
            assert(t@ =~= self.data@.subrange(0, 2));
            Some(t)
        } else {
            None
        }
    }
}

/// Walks the cells of one bin's data area.
pub struct HbinCellIterator<'a> {
    data: &'a [u8],
    offset: usize,
    hbin_offset: u32,
}

impl<'a> HbinCellIterator<'a> {
    /// The data area being walked.
    pub closed spec fn area(&self) -> Seq<u8> {
        self.data@
    }

    /// The position of the next cell in the data area.
    pub closed spec fn position(&self) -> int {
        self.offset as int
    }

    /// The offset of the bin relative to the first bin.
    pub closed spec fn bin_offset(&self) -> u32 {
        self.hbin_offset
    }

    /// Starts a walk over a bin's data area; `hbin_offset` is the bin's offset
    /// relative to the first bin.
    pub fn new(data: &'a [u8], hbin_offset: u32) -> (r: Self)
        ensures
            r.area() == data@,
            r.position() == 0,
            r.bin_offset() == hbin_offset,
    {
        HbinCellIterator { data, offset: 0, hbin_offset }
    }

    /// The next cell. The walk ends at the end of the area or at a size word of
    /// zero; a size of magnitude below 4 or a cell running past the area is an
    /// error, and the walk does not move past it.
    pub fn next(&mut self) -> (r: Option<Result<CellInfo<'a>>>)
        ensures
            final(self).area() == old(self).area(),
            final(self).bin_offset() == old(self).bin_offset(),
            ({
                let d = old(self).area();
                let pos = old(self).position();
                let base = old(self).bin_offset();
                let size = u32_le(d, pos) as i32;
                let mag = size_magnitude(size);
                let at = cell_offset_in(base, pos);
                if pos >= d.len() {
                    r is None && final(self).position() == pos
                } else if pos + 4 > d.len() {
                    final(self).position() == pos && (r matches Some(Err(
                        RegistryError::TruncatedData { offset: o, expected: e, actual: a },
                    )) && o == pos as u32 && e == 4 && a == d.len() - pos)
                } else if size == 0 {
                    r is None && final(self).position() == pos
                } else if mag < 4 {
                    final(self).position() == pos && (r matches Some(Err(
                        RegistryError::InvalidCellSize { size: s, offset: o },
                    )) && s == size && o == at)
                } else if pos + mag > d.len() {
                    final(self).position() == pos && (r matches Some(Err(
                        RegistryError::TruncatedData { offset: o, expected: e, actual: a },
                    )) && o == at && e == mag && a == d.len() - pos)
                } else {
                    final(self).position() == pos + mag && (r matches Some(Ok(c)) && c.offset == at
                        && c.size == mag && c.is_allocated == (size < 0) && c.data@ == d.subrange(
                        pos + 4,
                        pos + mag,
                    ))
                }
            }),
    {
        let len = self.data.len();
        let pos = self.offset;
        if pos >= len {
            return None;
        }
        if len - pos < 4 {
            return Some(Err(RegistryError::TruncatedData { offset: pos as u32, expected: 4, actual: len - pos }));
        }
        let size = u32_at(self.data, pos) as i32;
        if size == 0 {
            return None;
        }
        let abs_size = cell_magnitude(size);
        let cell_offset = ((self.hbin_offset as u64 + (pos as u64) % 0x1_0000_0000) % 0x1_0000_0000) as u32;
        if abs_size < 4 {
            return Some(Err(RegistryError::invalid_cell_size(size, cell_offset)));
        }
        if abs_size > len - pos {
            return Some(Err(RegistryError::TruncatedData { offset: cell_offset, expected: abs_size, actual: len - pos }));
        }
        let data_end: usize = pos + abs_size;
        let cell_data = &self.data[pos + 4..data_end];
        self.offset = data_end;
        Some(Ok(CellInfo { offset: cell_offset, size: abs_size as u32, is_allocated: size < 0, data: cell_data }))
    }
}

} // verus!
