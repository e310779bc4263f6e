//! The hive navigator: owns the image and reads cells, keys and values from it.

use vstd::prelude::*;

use crate::bigdata::{db_bytes, BigDataBlock};
use crate::cell::ValueType;
use crate::key::{key_node_fields, key_node_valid, KeyNode};
use crate::subkey_list::{list_count, list_stride, list_type_of, list_words, SubkeyList, SubkeyListType};
use crate::value::{value_data_decodes, value_data_fails, value_key_fields, value_key_valid, ValueData, ValueKey};
use crate::error::{RegistryError, Result};
use crate::hbin::{cell_magnitude, hbin_fields, hbin_valid, size_magnitude, HbinHeader};
use crate::header::{base_block_fields, base_block_valid, BaseBlock, BASE_BLOCK_SIZE, CHECKSUM_OFFSET};
use crate::transaction_log::{merge_transaction_logs, pages_in, pages_view, parsed_logs, replay, replay_logs, sorted_order, TransactionLog};
use crate::utils::{u16_le, calculate_checksum, checksum_of, lemma_xor_words_prefix, u32_at, u32_le, HBIN_START_OFFSET};
use crate::value::{u32_to_le_bytes, u32_bytes};

verus! {

/// Largest value length stored directly in one cell.
pub const MAX_DIRECT_DATA_SIZE: u32 = 16344;

/// Deepest nesting of index roots that subkey collection follows.
pub const MAX_LIST_DEPTH: u32 = 16;

/// The absolute offset of a cell offset.
pub open spec fn cell_abs(offset: u32) -> int {
    offset as int + HBIN_START_OFFSET as int
}

/// The stored size word of the cell at `offset`.
pub open spec fn cell_size_word(img: Seq<u8>, offset: u32) -> i32 {
    u32_le(img, cell_abs(offset)) as i32
}

/// The total length of the cell at `offset`, size word included.
pub open spec fn cell_len(img: Seq<u8>, offset: u32) -> int {
    size_magnitude(cell_size_word(img, offset))
}

/// True when the cell at `offset` lies within the image with a valid size.
pub open spec fn cell_ok(img: Seq<u8>, offset: u32) -> bool {
    &&& cell_abs(offset) <= u32::MAX
    &&& cell_abs(offset) + 4 <= img.len()
    &&& cell_len(img, offset) >= 4
    &&& cell_abs(offset) + cell_len(img, offset) <= img.len()
}

/// The payload of the cell at `offset` (after its size word).
pub open spec fn cell_payload(img: Seq<u8>, offset: u32) -> Seq<u8> {
    img.subrange(cell_abs(offset) + 4, cell_abs(offset) + cell_len(img, offset))
}

/// The image with `x` written at octets `0x1FC..0x200`.
pub open spec fn with_checksum(img: Seq<u8>, x: u32) -> Seq<u8> {
    img.subrange(0, 0x1FC) + u32_bytes(x) + img.subrange(0x200, img.len() as int)
}

/// The image with its base-block checksum recomputed.
pub open spec fn refreshed(img: Seq<u8>) -> Seq<u8> {
    with_checksum(img, checksum_of(img))
}

/// A registry hive: an image whose base block parses.
pub struct Hive {
    data: Vec<u8>,
    base_block: BaseBlock,
}

impl Hive {
    #[verifier::type_invariant]
    spec fn inv(&self) -> bool {
        base_block_valid(self.data@) && base_block_fields(self.base_block, self.data@)
    }

    /// The hive image.
    pub closed spec fn image(&self) -> Seq<u8> {
        self.data@
    }

    /// Creates a hive from an image; the base block must parse.
    pub fn from_vec(data: Vec<u8>) -> (r: Result<Self>)
        ensures
            r is Ok <==> base_block_valid(data@),
            r is Ok ==> r->Ok_0.image() == data@,
            r is Err ==> !base_block_valid(data@),
    {
        match BaseBlock::parse(data.as_slice()) {
            Ok(base_block) => Ok(Hive { data, base_block }),
            Err(e) => Err(e),
        }
    }

    /// The parsed base block.
    pub fn base_block(&self) -> (r: &BaseBlock)
        ensures
            base_block_valid(self.image()),
            base_block_fields(*r, self.image()),
    {
        proof {
            use_type_invariant(self);
        }
        &self.base_block
    }

    /// A copy of the image.
    pub fn to_bytes(&self) -> (r: Vec<u8>)
        ensures
            r@ == self.image(),
    {
        vstd::slice::slice_to_vec(self.data.as_slice())
    }

    /// The payload of the cell at `offset` (relative to the first bin).
    fn read_cell(&self, offset: u32) -> (r: Result<&[u8]>)
        ensures
            r is Ok <==> cell_ok(self.image(), offset),
            r is Ok ==> r->Ok_0@ == cell_payload(self.image(), offset),
            cell_abs(offset) > u32::MAX ==> (r matches Err(RegistryError::InvalidOffset { offset: o, hive_size: h })
                && o == offset && h == 0),
            cell_abs(offset) <= u32::MAX && cell_abs(offset) >= self.image().len() ==> (r matches Err(
                RegistryError::InvalidOffset { offset: o, hive_size: h },
            ) && o == offset && h == self.image().len()),
            cell_abs(offset) <= u32::MAX && cell_abs(offset) < self.image().len() && cell_abs(offset) + 4
                > self.image().len() ==> (r matches Err(
                RegistryError::TruncatedData { offset: o, expected: e, actual: a },
            ) && o == offset && e == 4 && a == self.image().len() - cell_abs(offset)),
            cell_abs(offset) <= u32::MAX && cell_abs(offset) + 4 <= self.image().len() && cell_len(self.image(), offset) < 4
                ==> (r matches Err(RegistryError::InvalidCellSize { size: s, offset: o }) && o == offset
                && s == cell_size_word(self.image(), offset)),
            cell_abs(offset) <= u32::MAX && cell_abs(offset) + 4 <= self.image().len() && cell_len(self.image(), offset) >= 4
                && cell_abs(offset) + cell_len(self.image(), offset) > self.image().len() ==> (r matches Err(
                RegistryError::TruncatedData { offset: o, expected: e, actual: a },
            ) && o == offset && e == cell_len(self.image(), offset) && a == self.image().len() - cell_abs(offset)),
    {
        let data = self.data.as_slice();
        let len = data.len();
        if offset > u32::MAX - HBIN_START_OFFSET {
            return Err(RegistryError::InvalidOffset { offset, hive_size: 0 });
        }
        let abs: usize = (offset + HBIN_START_OFFSET) as usize;
        if abs >= len {
            return Err(RegistryError::invalid_offset(offset, len));
        }
        if len - abs < 4 {
            return Err(RegistryError::TruncatedData { offset, expected: 4, actual: len - abs });
        }
        let size = u32_at(data, abs) as i32;
        let abs_size = cell_magnitude(size);
        if abs_size < 4 {
            return Err(RegistryError::invalid_cell_size(size, offset));
        }
        if abs_size > len - abs {
            return Err(RegistryError::TruncatedData { offset, expected: abs_size, actual: len - abs });
        }
        Ok(&data[abs + 4..abs + abs_size])
    }

    /// The cell at `offset` (relative to the first bin) with its size word.
    pub fn read_cell_with_size(&self, offset: u32) -> (r: Result<&[u8]>)
        ensures
            r is Ok <==> cell_ok(self.image(), offset),
            r is Ok ==> r->Ok_0@ == self.image().subrange(
                cell_abs(offset),
                cell_abs(offset) + cell_len(self.image(), offset),
            ),
    {
        let data = self.data.as_slice();
        let len = data.len();
        if offset > u32::MAX - HBIN_START_OFFSET {
            return Err(RegistryError::InvalidOffset { offset, hive_size: 0 });
        }
        let abs: usize = (offset + HBIN_START_OFFSET) as usize;
        if abs >= len {
            return Err(RegistryError::invalid_offset(offset, len));
        }
        if len - abs < 4 {
            return Err(RegistryError::TruncatedData { offset, expected: 4, actual: len - abs });
        }
        let size = u32_at(data, abs) as i32;
        let abs_size = cell_magnitude(size);
        if abs_size < 4 {
            return Err(RegistryError::invalid_cell_size(size, offset));
        }
        if abs_size > len - abs {
            return Err(RegistryError::TruncatedData { offset, expected: abs_size, actual: len - abs });
        }
        Ok(&data[abs..abs + abs_size])
    }

    /// `length` octets of the image from absolute offset `abs_offset`.
    pub fn read_raw_bytes(&self, abs_offset: usize, length: usize) -> (r: Result<&[u8]>)
        ensures
            r is Ok <==> abs_offset + length <= self.image().len(),
            r is Ok ==> r->Ok_0@ == self.image().subrange(abs_offset as int, abs_offset + length),
            r is Err ==> (r matches Err(RegistryError::TruncatedData { offset: o, expected: e, actual: a })
                && o == abs_offset as u32 && e == length && a == (if abs_offset <= self.image().len() {
                self.image().len() - abs_offset
            } else {
                0
            })),
    {
        let data = self.data.as_slice();
        let len = data.len();
        if abs_offset > len || length > len - abs_offset {
            let actual: usize = if abs_offset <= len {
                len - abs_offset
            } else {
                0
            };
            return Err(RegistryError::TruncatedData { offset: abs_offset as u32, expected: length, actual });
        }
        Ok(&data[abs_offset..abs_offset + length])
    }

    /// Walks the hive bins of the image, in file order.
    pub fn hbins(&self) -> (r: HbinIterator<'_>)
        ensures
            r.area() == self.image().subrange(BASE_BLOCK_SIZE as int, self.image().len() as int),
            r.position() == 0,
    {
        proof {
            use_type_invariant(self);
        }
        let data = self.data.as_slice();
        HbinIterator { data: &data[BASE_BLOCK_SIZE..data.len()], offset: 0 }
    }

    /// The image with its checksum recomputed, as written by `save`.
    pub fn to_saved_bytes(&self) -> (r: Vec<u8>)
        ensures
            r@ == refreshed(self.image()),
    {
        proof {
            use_type_invariant(self);
        }
        let mut bytes = vstd::slice::slice_to_vec(self.data.as_slice());
        match Hive::update_checksum(&mut bytes) {
            Ok(()) => {},
            Err(_) => {},
        }
        bytes
    }

    /// Recomputes the base-block checksum of an image and stores it at 0x1FC.
    pub fn update_checksum(data: &mut Vec<u8>) -> (r: Result<()>)
        ensures
            old(data)@.len() < BASE_BLOCK_SIZE ==> (r matches Err(
                RegistryError::HiveTooSmall { size: s, minimum: m },
            ) && s == old(data)@.len() && m == BASE_BLOCK_SIZE) && final(data)@ == old(data)@,
            old(data)@.len() >= BASE_BLOCK_SIZE ==> r is Ok && final(data)@ == refreshed(old(data)@),
    {
        if data.len() < BASE_BLOCK_SIZE {
            return Err(RegistryError::HiveTooSmall { size: data.len(), minimum: BASE_BLOCK_SIZE });
        }
        let checksum = calculate_checksum(data.as_slice());
        let bytes = u32_to_le_bytes(checksum);
        let ghost img = data@;
        data.set(CHECKSUM_OFFSET, bytes[0]);
        data.set(CHECKSUM_OFFSET + 1, bytes[1]);
        data.set(CHECKSUM_OFFSET + 2, bytes[2]);
        data.set(CHECKSUM_OFFSET + 3, bytes[3]);
        assert(data@ =~= with_checksum(img, checksum));
        Ok(())
    }

    /// A new hive whose image is this one with the log's dirty pages written
    /// and the checksum recomputed.
    pub fn apply_transaction_log(&self, log: &TransactionLog) -> (r: Result<Self>)
        ensures
            ({
                let replayed = replay(self.image(), pages_view(log.dirty_pages@));
                &&& replayed is None ==> r is Err
                &&& replayed is Some ==> (r is Ok <==> replayed->Some_0.len() >= BASE_BLOCK_SIZE
                    && base_block_valid(refreshed(replayed->Some_0)))
                &&& r is Ok ==> r->Ok_0.image() == refreshed(replayed->Some_0)
            }),
    {
        proof {
            use_type_invariant(self);
        }
        let mut hive_data = vstd::slice::slice_to_vec(self.data.as_slice());
        match log.apply_to_hive(&mut hive_data) {
            Ok(_) => {},
            Err(e) => {
                return Err(e);
            },
        }
        match Hive::update_checksum(&mut hive_data) {
            Ok(()) => {},
            Err(e) => {
                return Err(e);
            },
        }
        Hive::from_vec(hive_data)
    }

    /// Creates a hive from an image after replaying the logs among `log1` and
    /// `log2` that parse; the checksum is recomputed when any page was written.
    pub fn from_vec_with_logs(data: Vec<u8>, log1: Option<&[u8]>, log2: Option<&[u8]>) -> (r: Result<Self>)
        ensures
            exists|order: Seq<int>|
                #![trigger replay_logs(data@, parsed_logs(log1, log2), order)]
                sorted_order(parsed_logs(log1, log2), order) && ({
                    let replayed = replay_logs(data@, parsed_logs(log1, log2), order);
                    let written = pages_in(parsed_logs(log1, log2), order) > 0;
                    let img = if written {
                        refreshed(replayed->Some_0)
                    } else {
                        replayed->Some_0
                    };
                    &&& replayed is None ==> r is Err
                    &&& replayed is Some ==> (r is Ok <==> (!written || replayed->Some_0.len()
                        >= BASE_BLOCK_SIZE) && base_block_valid(img))
                    &&& r is Ok ==> r->Ok_0.image() == img
                }),
    {
        let mut hive_data = data;
        let applied = match merge_transaction_logs(&mut hive_data, log1, log2) {
            Ok(n) => n,
            Err(e) => {
                return Err(e);
            },
        };
        if applied > 0 {
            match Hive::update_checksum(&mut hive_data) {
                Ok(()) => {},
                Err(e) => {
                    return Err(e);
                },
            }
        }
        Hive::from_vec(hive_data)
    }
}

/// Writing the checksum leaves the checksummed words as they were, so the
/// stored checksum of the written image is its own checksum: an image saved
/// and read back validates.
pub proof fn lemma_saved_checksum_matches(img: Seq<u8>)
    requires
        img.len() >= BASE_BLOCK_SIZE,
    ensures
        refreshed(img).len() == img.len(),
        checksum_of(refreshed(img)) == checksum_of(img),
        u32_le(refreshed(img), 0x1FC) == checksum_of(refreshed(img)),
{
    let s = refreshed(img);
    let x = checksum_of(img);
    assert(s.len() == img.len());
    assert forall|i: int| 0 <= i < 4 * 127 implies s[i] == img[i] by {}
    lemma_xor_words_prefix(s, img, 127);
    let b0 = x & 0xff;
    let b1 = (x >> 8u32) & 0xff;
    let b2 = (x >> 16u32) & 0xff;
    let b3 = (x >> 24u32) & 0xff;
    assert(b0 < 256 && b1 < 256 && b2 < 256 && b3 < 256) by (bit_vector)
        requires
            b0 == x & 0xff,
            b1 == (x >> 8u32) & 0xff,
            b2 == (x >> 16u32) & 0xff,
            b3 == (x >> 24u32) & 0xff,
    ;
    assert(b0 | (b1 << 8u32) | (b2 << 16u32) | (b3 << 24u32) == x) by (bit_vector)
        requires
            b0 == x & 0xff,
            b1 == (x >> 8u32) & 0xff,
            b2 == (x >> 16u32) & 0xff,
            b3 == (x >> 24u32) & 0xff,
    ;
    assert(s[0x1FC] == b0 as u8);
    assert(s[0x1FD] == b1 as u8);
    assert(s[0x1FE] == b2 as u8);
    assert(s[0x1FF] == b3 as u8);
}

/// Recomputing the checksum of an image whose checksum is already right
/// changes nothing.
pub proof fn lemma_refresh_valid_is_identity(img: Seq<u8>)
    requires
        img.len() >= BASE_BLOCK_SIZE,
        u32_le(img, 0x1FC) == checksum_of(img),
    ensures
        refreshed(img) == img,
{
    lemma_saved_checksum_matches(img);
    let s = refreshed(img);
    let x = checksum_of(img);
    let c0 = img[0x1FC];
    let c1 = img[0x1FD];
    let c2 = img[0x1FE];
    let c3 = img[0x1FF];
    assert((c0 as u32 | ((c1 as u32) << 8u32) | ((c2 as u32) << 16u32) | ((c3 as u32) << 24u32)) & 0xff
        == c0 as u32 && ((c0 as u32 | ((c1 as u32) << 8u32) | ((c2 as u32) << 16u32) | ((c3 as u32) << 24u32)) >> 8u32) & 0xff
        == c1 as u32 && ((c0 as u32 | ((c1 as u32) << 8u32) | ((c2 as u32) << 16u32) | ((c3 as u32) << 24u32)) >> 16u32) & 0xff
        == c2 as u32 && ((c0 as u32 | ((c1 as u32) << 8u32) | ((c2 as u32) << 16u32) | ((c3 as u32) << 24u32)) >> 24u32) & 0xff
        == c3 as u32) by (bit_vector);
    assert(s =~= img);
}

/// Replaying a log with no dirty pages onto a hive and recomputing the
/// checksum gives back the same image, so the same keys are reachable from
/// the root as before.
pub proof fn lemma_empty_log_keeps_hive(img: Seq<u8>, log: TransactionLog)
    requires
        base_block_valid(img),
        log.dirty_pages@.len() == 0,
    ensures
        replay(img, pages_view(log.dirty_pages@)) == Some(img),
        refreshed(replay(img, pages_view(log.dirty_pages@))->Some_0) == img,
{
    crate::transaction_log::lemma_empty_log_keeps_image(img, log);
    lemma_refresh_valid_is_identity(img);
}

/// Walks the hive bins of an image, in file order.
pub struct HbinIterator<'a> {
    data: &'a [u8],
    offset: usize,
}

impl<'a> HbinIterator<'a> {
    /// The bin area being walked (the image after the base block).
    pub closed spec fn area(&self) -> Seq<u8> {
        self.data@
    }

    /// The position of the next bin, relative to the first bin.
    pub closed spec fn position(&self) -> int {
        self.offset as int
    }

    /// The next bin header. The walk ends at the end of the area or at a block
    /// without the `hbin` signature (padding); other errors are returned and the
    /// walk does not move past them.
    pub fn next(&mut self) -> (r: Option<Result<HbinHeader>>)
        ensures
            final(self).area() == old(self).area(),
            ({
                let d = old(self).area();
                let pos = old(self).position();
                let rest = d.subrange(pos, d.len() as int);
                if pos >= d.len() {
                    r is None && final(self).position() == pos
                } else if hbin_valid(rest, pos as u32) {
                    r matches Some(Ok(h)) && hbin_fields(h, rest) && final(self).position() == (if pos
                        + u32_le(rest, 8) <= d.len() {
                        pos + u32_le(rest, 8)
                    } else {
                        d.len() as int
                    })
                } else if rest.len() >= 0x20 && rest.subrange(0, 4) != crate::hbin::hbin_bytes() {
                    r is None && final(self).position() == pos
                } else {
                    r matches Some(Err(_)) && final(self).position() == pos
                }
            }),
    {
        let len = self.data.len();
        if self.offset >= len {
            return None;
        }
        let rest = &self.data[self.offset..len];
        match HbinHeader::parse(rest, self.offset as u32) {
            Ok(header) => {
                if header.size as usize <= len - self.offset {
                    self.offset = self.offset + header.size as usize;
                } else {
                    self.offset = len;
                }
                Some(Ok(header))
            },
            Err(RegistryError::InvalidSignature { .. }) => None,
            Err(e) => Some(Err(e)),
        }
    }
}

/// True when a subkey-list payload parses.
pub open spec fn list_parses(d: Seq<u8>) -> bool {
    &&& d.len() >= 4
    &&& list_type_of(d.subrange(0, 2)) is Some
    &&& d.len() >= 4 + list_stride(list_type_of(d.subrange(0, 2))->Some_0) * list_count(d)
}

/// The offsets that a parsed subkey-list payload holds.
pub open spec fn list_entries(d: Seq<u8>) -> Seq<u32> {
    list_words(d, list_stride(list_type_of(d.subrange(0, 2))->Some_0), 0, list_count(d))
}

/// True when a subkey-list payload is an index root.
pub open spec fn list_is_root(d: Seq<u8>) -> bool {
    list_type_of(d.subrange(0, 2)) == Some(SubkeyListType::IndexRoot)
}

/// The key offsets reachable from the subkey list at `list`, index roots
/// followed to at most `depth` levels, in stored order; `None` where a list is
/// unreadable or nested too deep. Offsets 0 and 0xFFFFFFFF end a branch.
pub open spec fn subkey_offsets(img: Seq<u8>, list: u32, depth: nat) -> Option<Seq<u32>>
    decreases depth, 0nat, 0nat,
{
    if list == 0 || list == 0xFFFF_FFFF {
        Some(Seq::empty())
    } else if !cell_ok(img, list) || !list_parses(cell_payload(img, list)) {
        None
    } else if list_is_root(cell_payload(img, list)) {
        if depth == 0 {
            None
        } else {
            flatten_lists(img, list_entries(cell_payload(img, list)), (depth - 1) as nat)
        }
    } else {
        Some(list_entries(cell_payload(img, list)))
    }
}

/// The key offsets reachable from each of `lists`, concatenated in order.
pub open spec fn flatten_lists(img: Seq<u8>, lists: Seq<u32>, depth: nat) -> Option<Seq<u32>>
    decreases depth, 1nat, lists.len(),
{
    if lists.len() == 0 {
        Some(Seq::empty())
    } else {
        match flatten_lists(img, lists.drop_last(), depth) {
            Some(a) => match subkey_offsets(img, lists.last(), depth) {
                Some(b) => Some(a + b),
                None => None,
            },
            None => None,
        }
    }
}

/// True when the cell at `offset` is a key node that parses.
pub open spec fn key_ok(img: Seq<u8>, offset: u32) -> bool {
    cell_ok(img, offset) && key_node_valid(cell_payload(img, offset))
}

/// True when the cell at `offset` is a value key that parses.
pub open spec fn value_ok(img: Seq<u8>, offset: u32) -> bool {
    cell_ok(img, offset) && value_key_valid(cell_payload(img, offset))
}

/// The value-key offsets of a key, or `None` where its value list is unreadable.
pub open spec fn value_offsets(img: Seq<u8>, k: KeyNode) -> Option<Seq<u32>> {
    if k.value_count == 0 || k.value_list_offset == 0 || k.value_list_offset == 0xFFFF_FFFF {
        Some(Seq::empty())
    } else if !cell_ok(img, k.value_list_offset) || cell_payload(img, k.value_list_offset).len()
        < 4 * k.value_count {
        None
    } else {
        Some(
            Seq::new(
                k.value_count as nat,
                |i: int| u32_le(cell_payload(img, k.value_list_offset), 4 * i),
            ),
        )
    }
}

/// The segments of a big value gathered in order until `want` octets are
/// reached; `None` where a needed segment is unreadable.
pub open spec fn gather(img: Seq<u8>, segs: Seq<u32>, want: int) -> Option<Seq<u8>>
    decreases segs.len(),
{
    if segs.len() == 0 {
        Some(Seq::empty())
    } else {
        match gather(img, segs.drop_last(), want) {
            Some(acc) => if acc.len() >= want {
                Some(acc)
            } else if cell_ok(img, segs.last()) {
                Some(acc + cell_payload(img, segs.last()))
            } else {
                None
            },
            None => None,
        }
    }
}

/// True when the cell at `offset` is a `db` header whose segment list is readable.
pub open spec fn big_data_ok(img: Seq<u8>, offset: u32) -> bool {
    let h = cell_payload(img, offset);
    let list = u32_le(h, 4);
    &&& cell_ok(img, offset)
    &&& h.len() >= 8
    &&& h.subrange(0, 2) == db_bytes()
    &&& cell_ok(img, list)
    &&& cell_payload(img, list).len() >= 4 * u16_le(h, 2)
}

/// The segment offsets that the `db` header at `offset` lists, tag bit cleared.
pub open spec fn big_data_segs(img: Seq<u8>, offset: u32) -> Seq<u32> {
    let h = cell_payload(img, offset);
    let lp = cell_payload(img, u32_le(h, 4));
    Seq::new(u16_le(h, 2) as nat, |i: int| u32_le(lp, 4 * i) & 0x7FFF_FFFF)
}

/// The gathered octets cut to `len`.
pub open spec fn cut_to(g: Option<Seq<u8>>, len: u32) -> Option<Seq<u8>> {
    match g {
        Some(acc) => Some(
            if acc.len() > len {
                acc.take(len as int)
            } else {
                acc
            },
        ),
        None => None,
    }
}

/// The data of a big value of `len` octets whose `db` header is at `offset`.
pub open spec fn big_data(img: Seq<u8>, offset: u32, len: u32) -> Option<Seq<u8>> {
    if !big_data_ok(img, offset) {
        None
    } else {
        cut_to(gather(img, big_data_segs(img, offset), len as int), len)
    }
}

/// The raw data of a value, or `None` where it is unreadable.
pub open spec fn raw_value(img: Seq<u8>, v: ValueKey) -> Option<Seq<u8>> {
    if 1 <= v.data_length <= 4 {
        Some(u32_bytes(v.data_offset).take(v.data_length as int))
    } else if v.data_offset == 0 || v.data_offset == 0xFFFF_FFFF || v.data_length == 0 {
        Some(Seq::empty())
    } else if v.data_length > MAX_DIRECT_DATA_SIZE {
        big_data(img, v.data_offset, v.data_length)
    } else if cell_ok(img, v.data_offset) {
        Some(cell_payload(img, v.data_offset))
    } else {
        None
    }
}

/// ASCII letters folded to lower case; other characters unchanged.
pub open spec fn ascii_lower(c: char) -> char {
    if 'A' <= c <= 'Z' {
        ((c as u32) + 32) as char
    } else {
        c
    }
}

/// True when two texts are equal up to the case of ASCII letters.
pub open spec fn eq_ignore_ascii_case(a: Seq<char>, b: Seq<char>) -> bool {
    a.len() == b.len() && forall|i: int| 0 <= i < a.len() ==> ascii_lower(#[trigger] a[i]) == ascii_lower(b[i])
}

fn lower_char(c: char) -> (r: char)
    ensures
        r == ascii_lower(c),
{
    if 'A' <= c && c <= 'Z' {
        ((c as u8) + 32) as char
    } else {
        c
    }
}

fn names_match(a: &str, b: &str) -> (r: bool)
    ensures
        r == eq_ignore_ascii_case(a@, b@),
{
    let n = a.unicode_len();
    if n != b.unicode_len() {
        return false;
    }
    let mut i: usize = 0;
    while i < n
        invariant
            n == a@.len(),
            n == b@.len(),
            i <= n,
            forall|j: int| 0 <= j < i ==> ascii_lower(#[trigger] a@[j]) == ascii_lower(b@[j]),
        decreases n - i,
    {
        if lower_char(a.get_char(i)) != lower_char(b.get_char(i)) {
            return false;
        }
        i = i + 1;
    }
    true
}

impl Hive {
    /// The key whose node is the cell at `offset` (relative to the first bin).
    pub fn get_key(&self, offset: u32) -> (r: Result<RegistryKey<'_>>)
        ensures
            r is Ok <==> key_ok(self.image(), offset),
            r is Ok ==> r->Ok_0.cell_offset() == offset && r->Ok_0.hive_image() == self.image()
                && key_node_fields(r->Ok_0.node(), cell_payload(self.image(), offset)),
    {
        let key_node = match self.parse_key_node(offset) {
            Ok(k) => k,
            Err(e) => {
                return Err(e);
            },
        };
        Ok(RegistryKey { hive: self, offset, key_node })
    }

    /// The root key, at the offset that the base block names.
    pub fn root_key(&self) -> (r: Result<RegistryKey<'_>>)
        ensures
            r is Ok <==> key_ok(self.image(), u32_le(self.image(), 0x24)),
            r is Ok ==> r->Ok_0.cell_offset() == u32_le(self.image(), 0x24) && r->Ok_0.hive_image() == self.image()
                && key_node_fields(r->Ok_0.node(), cell_payload(self.image(), u32_le(self.image(), 0x24))),
    {
        proof {
            use_type_invariant(self);
        }
        self.get_key(self.base_block.root_cell_offset)
    }

    fn parse_key_node(&self, offset: u32) -> (r: Result<KeyNode>)
        ensures
            r is Ok <==> key_ok(self.image(), offset),
            r is Ok ==> key_node_fields(r->Ok_0, cell_payload(self.image(), offset)),
    {
        match self.read_cell(offset) {
            Ok(cell) => KeyNode::parse(cell, offset),
            Err(e) => Err(e),
        }
    }

    fn parse_subkey_list(&self, offset: u32) -> (r: Result<SubkeyList>)
        ensures
            r is Ok <==> cell_ok(self.image(), offset) && list_parses(cell_payload(self.image(), offset)),
            r is Ok ==> crate::subkey_list::list_offsets(r->Ok_0) == list_entries(cell_payload(self.image(), offset))
                && (r->Ok_0 is IndexRoot <==> list_is_root(cell_payload(self.image(), offset))),
    {
        match self.read_cell(offset) {
            Ok(cell) => {
                let r = SubkeyList::parse(cell, offset);
                proof {
                    if r is Ok {
                        let d = cell@;
                        let l = r->Ok_0;
                        let t = list_type_of(d.subrange(0, 2))->Some_0;
                        match t {
                            SubkeyListType::FastLeaf | SubkeyListType::HashLeaf => {
                                assert(crate::subkey_list::list_offsets(l) == list_words(d, 8, 0, list_count(d)));
                            },
                            _ => {},
                        }
                    }
                }
                r
            },
            Err(e) => Err(e),
        }
    }

    fn parse_value_key(&self, offset: u32) -> (r: Result<ValueKey>)
        ensures
            r is Ok <==> value_ok(self.image(), offset),
            r is Ok ==> value_key_fields(r->Ok_0, cell_payload(self.image(), offset)),
    {
        match self.read_cell(offset) {
            Ok(cell) => ValueKey::parse(cell, offset),
            Err(e) => Err(e),
        }
    }

    /// Reads value data of `length` octets at `offset`: directly from the
    /// cell, or through a big-data block past 16 344 octets.
    fn read_value_data(&self, offset: u32, length: u32) -> (r: Result<Vec<u8>>)
        requires
            length <= 0x7FFF_FFFF,
        ensures
            length == 0 ==> r is Ok && r->Ok_0@.len() == 0,
            length > MAX_DIRECT_DATA_SIZE ==> ((r is Ok <==> big_data(self.image(), offset, length) is Some)
                && (r is Ok ==> r->Ok_0@ == big_data(self.image(), offset, length)->Some_0)),
            0 < length <= MAX_DIRECT_DATA_SIZE ==> ((r is Ok <==> cell_ok(self.image(), offset)) && (r is Ok
                ==> r->Ok_0@ == cell_payload(self.image(), offset))),
            r is Ok ==> r->Ok_0@.len() <= 0x8000_0000,
    {
        if length == 0 {
            return Ok(Vec::new());
        }
        if length > MAX_DIRECT_DATA_SIZE {
            return self.read_big_data(offset, length);
        }
        match self.read_cell(offset) {
            Ok(cell) => Ok(vstd::slice::slice_to_vec(cell)),
            Err(e) => Err(e),
        }
    }

    /// Reads a big value: its `db` header, the segment list, and the segments
    /// in order until `expected_length` octets are gathered.
    fn read_big_data(&self, offset: u32, expected_length: u32) -> (r: Result<Vec<u8>>)
        requires
            expected_length <= 0x7FFF_FFFF,
        ensures
            r is Ok <==> big_data(self.image(), offset, expected_length) is Some,
            r is Ok ==> r->Ok_0@ == big_data(self.image(), offset, expected_length)->Some_0,
            r is Ok ==> r->Ok_0@.len() <= expected_length,
    {
        let ghost img = self.image();
        let header_cell = match self.read_cell(offset) {
            Ok(c) => c,
            Err(e) => {
                return Err(e);
            },
        };
        let db_header = match BigDataBlock::parse(header_cell, offset) {
            Ok(h) => h,
            Err(e) => {
                return Err(e);
            },
        };
        let list_offset = db_header.segment_list_offset;
        let segment_list_cell = match self.read_cell(list_offset) {
            Ok(c) => c,
            Err(e) => {
                return Err(e);
            },
        };
        let count: usize = db_header.segment_count as usize;
        let expected_list_size: usize = count * 4;
        if segment_list_cell.len() < expected_list_size {
            return Err(
                RegistryError::TruncatedData {
                    offset: list_offset,
                    expected: expected_list_size,
                    actual: segment_list_cell.len(),
                },
            );
        }
        let ghost lp = segment_list_cell@;
        let ghost segs = Seq::new(count as nat, |i: int| u32_le(lp, 4 * i) & 0x7FFF_FFFF);
        assert(big_data_ok(img, offset));
        assert(segs =~= big_data_segs(img, offset));
        let want: usize = expected_length as usize;
        let mut data: Vec<u8> = Vec::new();
        let mut i: usize = 0;
        while i < count
            invariant
                i <= count,
                count <= 0xFFFF,
                count * 4 <= segment_list_cell@.len(),
                lp == segment_list_cell@,
                img == self.image(),
                want == expected_length,
                segs == Seq::new(count as nat, |i: int| u32_le(lp, 4 * i) & 0x7FFF_FFFF),
                big_data_ok(img, offset),
                segs == big_data_segs(img, offset),
                gather(img, segs.take(i as int), want as int) == Some(data@),
                data@.len() <= want + 0x8000_0000,
            decreases count - i,
        {
            assert(segs.take(i as int + 1).drop_last() =~= segs.take(i as int));
            let seg = u32_at(segment_list_cell, 4 * i) & 0x7FFF_FFFF;
            assert(segs[i as int] == seg);
            assert(segs.take(i as int + 1).last() == seg);
            if data.len() < want {
                let piece = match self.read_cell(seg) {
                    Ok(c) => c,
                    Err(e) => {
                        proof {
                            lemma_gather_stuck(img, segs, want as int, i as int, count as int);
                            assert(segs.take(count as int) =~= segs);
                        }
                        return Err(e);
                    },
                };
                let mut copy = vstd::slice::slice_to_vec(piece);
                data.append(&mut copy);
            }
            i = i + 1;
        }
        assert(segs.take(count as int) =~= segs);
        let ghost gathered = data@;
        data.truncate(want);
        assert(data@ =~= (if gathered.len() > want { gathered.take(want as int) } else { gathered }));
        Ok(data)
    }
}

/// Once a needed segment is unreadable, gathering more segments fails too.
proof fn lemma_gather_stuck(img: Seq<u8>, segs: Seq<u32>, want: int, k: int, m: int)
    requires
        0 <= k < m <= segs.len(),
        gather(img, segs.take(k), want) is Some,
        gather(img, segs.take(k), want)->Some_0.len() < want,
        !cell_ok(img, segs[k]),
    ensures
        gather(img, segs.take(m), want) is None,
    decreases m,
{
    assert(segs.take(m).drop_last() =~= segs.take(m - 1));
    if m == k + 1 {
        assert(segs.take(m).last() == segs[k]);
    } else {
        lemma_gather_stuck(img, segs, want, k, m - 1);
    }
}

/// Once a list in the sequence is unreadable, no longer run of lists flattens.
proof fn lemma_flatten_stuck(img: Seq<u8>, lists: Seq<u32>, depth: nat, k: int, m: int)
    requires
        0 <= k < m <= lists.len(),
        flatten_lists(img, lists.take(k), depth) is Some,
        subkey_offsets(img, lists[k], depth) is None,
    ensures
        flatten_lists(img, lists.take(m), depth) is None,
    decreases m,
{
    assert(lists.take(m).drop_last() =~= lists.take(m - 1));
    if m == k + 1 {
        assert(lists.take(m).last() == lists[k]);
    } else {
        lemma_flatten_stuck(img, lists, depth, k, m - 1);
    }
}

/// A registry key of a hive.
pub struct RegistryKey<'a> {
    hive: &'a Hive,
    /// Cell offset of this key (relative to the first bin).
    pub offset: u32,
    key_node: KeyNode,
}

/// A registry value of a hive.
pub struct RegistryValue<'a> {
    hive: &'a Hive,
    value_key: ValueKey,
}

/// True when every offset names a key node that parses.
pub open spec fn all_keys_ok(img: Seq<u8>, offs: Seq<u32>) -> bool {
    forall|i: int| 0 <= i < offs.len() ==> key_ok(img, #[trigger] offs[i])
}

/// True when every offset names a value key that parses.
pub open spec fn all_values_ok(img: Seq<u8>, offs: Seq<u32>) -> bool {
    forall|i: int| 0 <= i < offs.len() ==> value_ok(img, #[trigger] offs[i])
}

/// The name of the value key at `offset`.
pub open spec fn value_name_at(img: Seq<u8>, offset: u32) -> Seq<char> {
    crate::value::value_name(cell_payload(img, offset))->Some_0
}

impl<'a> RegistryKey<'a> {
    /// The cell offset of this key.
    pub closed spec fn cell_offset(&self) -> u32 {
        self.offset
    }

    /// The parsed key node.
    pub closed spec fn node(&self) -> KeyNode {
        self.key_node
    }

    /// The image of the hive this key belongs to.
    pub closed spec fn hive_image(&self) -> Seq<u8> {
        self.hive.image()
    }

    /// The parsed key node.
    pub fn debug_key_node(&self) -> (r: &KeyNode)
        ensures
            *r == self.node(),
    {
        &self.key_node
    }

    /// The hive this key belongs to.
    pub fn debug_hive(&self) -> (r: &'a Hive)
        ensures
            r.image() == self.hive_image(),
    {
        self.hive
    }

    /// The key name.
    pub fn name(&self) -> (r: Result<String>)
        ensures
            r is Ok && r->Ok_0@ == self.node().name@,
    {
        Ok(self.key_node.name.clone())
    }

    /// The number of subkeys.
    pub fn subkey_count(&self) -> (r: Result<u32>)
        ensures
            r == Ok::<u32, RegistryError>(self.node().subkey_count),
    {
        Ok(self.key_node.subkey_count)
    }

    /// The number of values.
    pub fn value_count(&self) -> (r: Result<u32>)
        ensures
            r == Ok::<u32, RegistryError>(self.node().value_count),
    {
        Ok(self.key_node.value_count)
    }

    /// Appends the key offsets reachable from the subkey list at `list_offset`,
    /// following index roots at most `depth` levels deep.
    fn collect_subkey_offsets(&self, list_offset: u32, offsets: &mut Vec<u32>, depth: u32) -> (r: Result<()>)
        ensures
            r is Ok <==> subkey_offsets(self.hive_image(), list_offset, depth as nat) is Some,
            r is Ok ==> final(offsets)@ == old(offsets)@ + subkey_offsets(self.hive_image(), list_offset, depth as nat)->Some_0,
        decreases depth,
    {
        let ghost img = self.hive_image();
        if list_offset == 0xFFFF_FFFF || list_offset == 0 {
            assert(old(offsets)@ + Seq::<u32>::empty() =~= old(offsets)@);
            return Ok(());
        }
        let list = match self.hive.parse_subkey_list(list_offset) {
            Ok(l) => l,
            Err(e) => {
                return Err(e);
            },
        };
        let entries = list.key_offsets_iter();
        assert(img == self.hive.image());
        assert(entries@ == list_entries(cell_payload(img, list_offset)));
        if list.is_index_root() {
            if depth == 0 {
                return Err(RegistryError::InvalidFormat("subkey lists are nested too deeply".to_owned()));
            }
            let ghost start = offsets@;
            let mut i: usize = 0;
            while i < entries.len()
                invariant
                    i <= entries@.len(),
                    img == self.hive_image(),
                    entries@ == list_entries(cell_payload(img, list_offset)),
                    cell_ok(img, list_offset),
                    list_parses(cell_payload(img, list_offset)),
                    list_is_root(cell_payload(img, list_offset)),
                    list_offset != 0 && list_offset != 0xFFFF_FFFF,
                    start == old(offsets)@,
                    depth > 0,
                    flatten_lists(img, entries@.take(i as int), (depth - 1) as nat) is Some,
                    offsets@ == start + flatten_lists(img, entries@.take(i as int), (depth - 1) as nat)->Some_0,
                decreases entries@.len() - i,
            {
                assert(entries@.take(i as int + 1).drop_last() =~= entries@.take(i as int));
                assert(entries@.take(i as int + 1).last() == entries@[i as int]);
                let ghost before = offsets@;
                match self.collect_subkey_offsets(entries[i], offsets, depth - 1) {
                    Ok(()) => {},
                    Err(e) => {
                        proof {
                            assert(subkey_offsets(img, entries@[i as int], (depth - 1) as nat) is None);
                            lemma_flatten_stuck(img, entries@, (depth - 1) as nat, i as int, entries@.len() as int);
                            assert(entries@.take(entries@.len() as int) =~= entries@);
                            assert(flatten_lists(img, list_entries(cell_payload(img, list_offset)), (depth - 1) as nat) is None);
                        }
                        return Err(e);
                    },
                }
                assert(offsets@ =~= start + flatten_lists(img, entries@.take(i as int + 1), (depth - 1) as nat)->Some_0);
                i = i + 1;
            }
            assert(entries@.take(entries@.len() as int) =~= entries@);
            Ok(())
        } else {
            let mut i: usize = 0;
            let ghost start = offsets@;
            while i < entries.len()
                invariant
                    i <= entries@.len(),
                    offsets@ == start + entries@.take(i as int),
                decreases entries@.len() - i,
            {
                offsets.push(entries[i]);
                i = i + 1;
                assert(offsets@ =~= start + entries@.take(i as int));
            }
            assert(entries@.take(entries@.len() as int) =~= entries@);
            Ok(())
        }
    }

    /// The subkeys, in stored order, index roots flattened.
    pub fn subkeys(&self) -> (r: Result<Vec<RegistryKey<'a>>>)
        ensures
            self.node().subkey_count == 0 ==> r is Ok && r->Ok_0@.len() == 0,
            ({
                let img = self.hive_image();
                let found = subkey_offsets(img, self.node().subkey_list_offset, MAX_LIST_DEPTH as nat);
                self.node().subkey_count > 0 ==> (r is Ok <==> found is Some && all_keys_ok(img, found->Some_0))
                    && (r is Ok ==> r->Ok_0@.len() == found->Some_0.len() && forall|i: int|
                    0 <= i < r->Ok_0@.len() ==> (#[trigger] r->Ok_0@[i]).cell_offset() == found->Some_0[i]
                        && r->Ok_0@[i].hive_image() == img && key_node_fields(
                        r->Ok_0@[i].node(),
                        cell_payload(img, found->Some_0[i]),
                    ))
            }),
    {
        assert(self.node() == self.key_node);
        if !self.key_node.has_subkeys() {
            return Ok(Vec::new());
        }
        let ghost img = self.hive_image();
        let mut subkey_offsets_found: Vec<u32> = Vec::new();
        match self.collect_subkey_offsets(self.key_node.subkey_list_offset, &mut subkey_offsets_found, MAX_LIST_DEPTH) {
            Ok(()) => {},
            Err(e) => {
                return Err(e);
            },
        }
        assert(subkey_offsets_found@ =~= subkey_offsets(img, self.node().subkey_list_offset, MAX_LIST_DEPTH as nat)->Some_0);
        let mut subkeys: Vec<RegistryKey<'a>> = Vec::new();
        let mut i: usize = 0;
        while i < subkey_offsets_found.len()
            invariant
                i <= subkey_offsets_found@.len(),
                img == self.hive_image(),
                img == self.hive.image(),
                self.node().subkey_count > 0,
                subkey_offsets(img, self.node().subkey_list_offset, MAX_LIST_DEPTH as nat) is Some,
                subkey_offsets_found@ == subkey_offsets(img, self.node().subkey_list_offset, MAX_LIST_DEPTH as nat)->Some_0,
                subkeys@.len() == i,
                forall|j: int| 0 <= j < i ==> key_ok(img, #[trigger] subkey_offsets_found@[j]),
                forall|j: int|
                    0 <= j < i ==> (#[trigger] subkeys@[j]).cell_offset() == subkey_offsets_found@[j]
                        && subkeys@[j].hive_image() == img && key_node_fields(
                        subkeys@[j].node(),
                        cell_payload(img, subkey_offsets_found@[j]),
                    ),
            decreases subkey_offsets_found@.len() - i,
        {
            match self.hive.get_key(subkey_offsets_found[i]) {
                Ok(k) => {
                    subkeys.push(k);
                },
                Err(e) => {
                    return Err(e);
                },
            }
            i = i + 1;
        }
        Ok(subkeys)
    }

    /// The values, in stored order.
    pub fn values(&self) -> (r: Result<Vec<RegistryValue<'a>>>)
        ensures
            ({
                let img = self.hive_image();
                let found = value_offsets(img, self.node());
                (r is Ok <==> found is Some && all_values_ok(img, found->Some_0)) && (r is Ok
                    ==> r->Ok_0@.len() == found->Some_0.len() && forall|i: int|
                    0 <= i < r->Ok_0@.len() ==> (#[trigger] r->Ok_0@[i]).hive_image() == img
                        && value_key_fields(r->Ok_0@[i].vkey(), cell_payload(img, found->Some_0[i])))
            }),
    {
        let ghost img = self.hive_image();
        assert(self.node() == self.key_node);
        assert(img == self.hive.image());
        if !self.key_node.has_values() {
            return Ok(Vec::new());
        }
        let list_offset = self.key_node.value_list_offset;
        if list_offset == 0xFFFF_FFFF || list_offset == 0 {
            return Ok(Vec::new());
        }
        let list_data = match self.hive.read_cell(list_offset) {
            Ok(c) => c,
            Err(e) => {
                return Err(e);
            },
        };
        let value_count: usize = self.key_node.value_count as usize;
        if value_count > list_data.len() / 4 {
            let expected: usize = if value_count <= usize::MAX / 4 {
                value_count * 4
            } else {
                usize::MAX
            };
            return Err(
                RegistryError::TruncatedData {
                    offset: list_offset,
                    expected,
                    actual: list_data.len(),
                },
            );
        }
        let list_len = list_data.len();
        assert(value_offsets(img, self.node()) is Some);
        let ghost offs = value_offsets(img, self.node())->Some_0;
        let mut values: Vec<RegistryValue<'a>> = Vec::new();
        let mut i: usize = 0;
        while i < value_count
            invariant
                i <= value_count,
                value_count == self.node().value_count,
                value_count * 4 <= list_data@.len(),
                list_len == list_data@.len(),
                value_offsets(img, self.node()) is Some,
                self.node().value_count > 0,
                self.node().value_list_offset != 0 && self.node().value_list_offset != 0xFFFF_FFFF,
                list_data@ == cell_payload(img, self.node().value_list_offset),
                img == self.hive_image(),
                img == self.hive.image(),
                offs == value_offsets(img, self.node())->Some_0,
                offs.len() == value_count,
                values@.len() == i,
                forall|j: int| 0 <= j < i ==> value_ok(img, #[trigger] offs[j]),
                forall|j: int|
                    0 <= j < i ==> (#[trigger] values@[j]).hive_image() == img && value_key_fields(
                        values@[j].vkey(),
                        cell_payload(img, offs[j]),
                    ),
            decreases value_count - i,
        {
            let offset = u32_at(list_data, 4 * i);
            assert(offs[i as int] == offset);
            match self.hive.parse_value_key(offset) {
                Ok(value_key) => {
                    values.push(RegistryValue { hive: self.hive, value_key });
                },
                Err(e) => {
                    return Err(e);
                },
            }
            i = i + 1;
        }
        Ok(values)
    }

    /// The first value whose name equals `name` up to ASCII case.
    pub fn value(&self, name: &str) -> (r: Result<RegistryValue<'a>>)
        ensures
            ({
                let img = self.hive_image();
                let found = value_offsets(img, self.node());
                let offs = found->Some_0;
                let readable = found is Some && all_values_ok(img, offs);
                &&& !readable ==> r is Err
                &&& readable ==> (r is Ok <==> exists|i: int|
                    0 <= i < offs.len() && eq_ignore_ascii_case(#[trigger] value_name_at(img, offs[i]), name@))
                &&& r is Ok ==> readable && exists|i: int|
                    0 <= i < offs.len() && #[trigger] value_key_fields(r->Ok_0.vkey(), cell_payload(img, offs[i]))
                        && eq_ignore_ascii_case(value_name_at(img, offs[i]), name@) && forall|j: int|
                        0 <= j < i ==> !eq_ignore_ascii_case(#[trigger] value_name_at(img, offs[j]), name@)
                &&& readable && r is Err ==> (r matches Err(RegistryError::NotFound(_)))
            }),
    {
        let ghost img = self.hive_image();
        let values = match self.values() {
            Ok(v) => v,
            Err(e) => {
                return Err(e);
            },
        };
        let ghost offs = value_offsets(img, self.node())->Some_0;
        let mut i: usize = 0;
        while i < values.len()
            invariant
                i <= values@.len(),
                values@.len() == offs.len(),
                value_offsets(img, self.node()) is Some,
                offs == value_offsets(img, self.node())->Some_0,
                img == self.hive_image(),
                forall|j: int| 0 <= j < offs.len() ==> value_ok(img, #[trigger] offs[j]),
                forall|j: int|
                    0 <= j < values@.len() ==> (#[trigger] values@[j]).hive_image() == img && value_key_fields(
                        values@[j].vkey(),
                        cell_payload(img, offs[j]),
                    ),
                forall|j: int| 0 <= j < i ==> !eq_ignore_ascii_case(#[trigger] value_name_at(img, offs[j]), name@),
            decreases values@.len() - i,
        {
            if names_match(values[i].value_key.name.as_str(), name) {
                assert(value_key_fields(values@[i as int].vkey(), cell_payload(img, offs[i as int])));
                assert(eq_ignore_ascii_case(value_name_at(img, offs[i as int]), name@));
                let mut values = values;
                let found = values.swap_remove(i);
                return Ok(found);
            }
            i = i + 1;
        }
        Err(RegistryError::not_found("Value", name))
    }
}

impl<'a> RegistryValue<'a> {
    #[verifier::type_invariant]
    spec fn inv(&self) -> bool {
        self.value_key.data_length <= 0x7FFF_FFFF
    }

    /// The parsed value key.
    pub closed spec fn vkey(&self) -> ValueKey {
        self.value_key
    }

    /// The image of the hive this value belongs to.
    pub closed spec fn hive_image(&self) -> Seq<u8> {
        self.hive.image()
    }

    /// The value name.
    pub fn name(&self) -> (r: &str)
        ensures
            r@ == self.vkey().name@,
    {
        self.value_key.name.as_str()
    }

    /// The value type.
    pub fn data_type(&self) -> (r: ValueType)
        ensures
            r == self.vkey().data_type,
    {
        self.value_key.data_type
    }

    /// The raw value data: inline octets, nothing for the offsets 0 and
    /// 0xFFFFFFFF, else the data cell or the gathered big-data segments.
    pub fn raw_data(&self) -> (r: Result<Vec<u8>>)
        ensures
            r is Ok <==> raw_value(self.hive_image(), self.vkey()) is Some,
            r is Ok ==> r->Ok_0@ == raw_value(self.hive_image(), self.vkey())->Some_0,
            r is Ok ==> r->Ok_0@.len() <= 0x8000_0000,
    {
        proof {
            use_type_invariant(self);
        }
        if self.value_key.is_inline_data() {
            Ok(self.value_key.inline_data())
        } else if self.value_key.data_offset == 0xFFFF_FFFF || self.value_key.data_offset == 0 {
            Ok(Vec::new())
        } else {
            self.hive.read_value_data(self.value_key.data_offset, self.value_key.data_length)
        }
    }

    /// The value data decoded by type.
    pub fn data(&self) -> (r: Result<ValueData>)
        ensures
            r is Ok <==> raw_value(self.hive_image(), self.vkey()) is Some && !value_data_fails(
                raw_value(self.hive_image(), self.vkey())->Some_0,
                self.vkey().data_type,
            ),
            r is Ok ==> value_data_decodes(
                r->Ok_0,
                raw_value(self.hive_image(), self.vkey())->Some_0,
                self.vkey().data_type,
            ),
    {
        let raw = match self.raw_data() {
            Ok(b) => b,
            Err(e) => {
                return Err(e);
            },
        };
        ValueData::parse(raw.as_slice(), self.value_key.data_type, self.value_key.data_offset)
    }
}

} // verus!
