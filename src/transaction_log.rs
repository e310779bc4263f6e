//! Transaction logs: parsing dirty-page vectors and replaying them onto a hive image.

use vstd::prelude::*;

use crate::error::{RegistryError, Result};
use crate::utils::{u32_at, u32_le};

verus! {

/// Size of a log page in octets.
pub const PAGE_SIZE: usize = 0x1000;

/// Largest image that replay may produce (512 MiB).
pub const MAX_HIVE_SIZE: usize = 0x2000_0000;

/// Largest growth of the image by one dirty page (16 MiB).
pub const MAX_PAGE_EXTENSION: usize = 0x100_0000;

/// Largest dirty-page payload that the parser accepts (16 pages).
pub const MAX_DIRTY_PAGE_SIZE: u32 = 0x1_0000;

/// Largest page count that a dirty vector may declare.
pub const MAX_PAGES_PER_VECTOR: u32 = 1000;

/// Number of accumulated pages past which probing stops.
pub const MAX_TOTAL_PAGES: usize = 10000;

/// A dirty page: octets to write into the image at an offset.
#[derive(Debug, Clone)]
pub struct DirtyPage {
    /// Absolute offset in the image.
    pub offset: u32,
    /// Declared size in octets.
    pub size: u32,
    /// The octets to write.
    pub data: Vec<u8>,
}

/// A parsed transaction log.
#[derive(Debug)]
pub struct TransactionLog {
    /// Sequence number of the log.
    pub sequence: u32,
    /// Dirty pages, in the order found.
    pub dirty_pages: Vec<DirtyPage>,
}

/// A dirty page as plain values: offset, size and payload.
pub open spec fn page_view(p: DirtyPage) -> (u32, u32, Seq<u8>) {
    (p.offset, p.size, p.data@)
}

/// The plain values of a list of dirty pages.
pub open spec fn pages_view(ps: Seq<DirtyPage>) -> Seq<(u32, u32, Seq<u8>)> {
    ps.map_values(|p: DirtyPage| page_view(p))
}

/// The records of a dirty vector `d` from octet `pos`, with `k` records left to read.
/// A record of size zero or over 16 pages is skipped; one whose payload runs past
/// the end stops the reading.
pub open spec fn dirty_records(d: Seq<u8>, pos: int, k: nat) -> Seq<(u32, u32, Seq<u8>)>
    decreases k,
{
    if k == 0 || pos < 0 || pos + 8 > d.len() {
        Seq::empty()
    } else {
        let po = u32_le(d, pos);
        let ps = u32_le(d, pos + 4);
        let next = pos + 8;
        if ps == 0 || ps > MAX_DIRTY_PAGE_SIZE {
            dirty_records(d, next, (k - 1) as nat)
        } else if next + ps <= d.len() {
            seq![(po, ps, d.subrange(next, next + ps))] + dirty_records(d, next + ps, (k - 1) as nat)
        } else {
            Seq::empty()
        }
    }
}

/// The pages of the dirty vector that starts `d`.
pub open spec fn dirty_vector(d: Seq<u8>) -> Seq<(u32, u32, Seq<u8>)> {
    if d.len() < 16 || u32_le(d, 8) == 0 || u32_le(d, 8) > MAX_PAGES_PER_VECTOR {
        Seq::empty()
    } else {
        dirty_records(d, 16, u32_le(d, 8) as nat)
    }
}

/// True when `d` holds the `DIRT` signature at `offset`.
pub open spec fn dirt_at(d: Seq<u8>, offset: int) -> bool {
    offset + 4 <= d.len() && d.subrange(offset, offset + 4) == seq![0x44u8, 0x49u8, 0x52u8, 0x54u8]
}

/// The pages found by probing `d` page by page from `offset`, after `acc`.
pub open spec fn probe_from(d: Seq<u8>, offset: int, acc: Seq<(u32, u32, Seq<u8>)>) -> Seq<
    (u32, u32, Seq<u8>),
>
    decreases d.len() - offset,
{
    if offset < 0 || offset + 512 > d.len() {
        acc
    } else {
        let acc2 = if dirt_at(d, offset) {
            acc + dirty_vector(d.subrange(offset, d.len() as int))
        } else {
            acc
        };
        let next = offset + PAGE_SIZE;
        if next > d.len() || acc2.len() > MAX_TOTAL_PAGES {
            acc2
        } else {
            probe_from(d, next, acc2)
        }
    }
}

/// True when `d` starts with a log base block: at least a page, signed `HvLE`.
pub open spec fn log_header_valid(d: Seq<u8>) -> bool {
    d.len() >= PAGE_SIZE && d.subrange(0, 4) == seq![0x48u8, 0x76u8, 0x4cu8, 0x45u8]
}

/// Reads the records of one dirty vector.
fn parse_dirty_vector(data: &[u8]) -> (r: Vec<DirtyPage>)
    ensures
        pages_view(r@) == dirty_vector(data@),
{
    if data.len() < 16 {
        return Vec::new();
    }
    let num_pages = u32_at(data, 8);
    if num_pages == 0 || num_pages > MAX_PAGES_PER_VECTOR {
        return Vec::new();
    }
    let len = data.len();
    let mut pages: Vec<DirtyPage> = Vec::new();
    let mut pos: usize = 0x10;
    let mut left: u32 = num_pages;
    while left > 0
        invariant
            len == data@.len(),
            len >= 16,
            num_pages == u32_le(data@, 8),
            0 < num_pages <= MAX_PAGES_PER_VECTOR,
            pos <= len,
            pages_view(pages@) + dirty_records(data@, pos as int, left as nat) == dirty_records(
                data@,
                16,
                num_pages as nat,
            ),
        decreases left,
    {
        if len - pos < 8 {
            assert(dirty_records(data@, pos as int, left as nat) =~= Seq::empty());
            assert(pages_view(pages@) + Seq::empty() =~= pages_view(pages@));
            return pages;
        }
        let page_offset = u32_at(data, pos);
        let page_size = u32_at(data, pos + 4);
        let ghost at = pos as int;
        let ghost k = left as nat;
        pos = pos + 8;
        left = left - 1;
        if page_size == 0 || page_size > MAX_DIRTY_PAGE_SIZE {
            assert(dirty_records(data@, at, k) == dirty_records(data@, pos as int, left as nat));
            continue;
        }
        if page_size as usize <= len - pos {
            let end: usize = pos + page_size as usize;
            let page_data = vstd::slice::slice_to_vec(&data[pos..end]);
            let ghost before = pages@;
            assert(dirty_records(data@, at, k) == seq![(page_offset, page_size, data@.subrange(pos as int, end as int))]
                + dirty_records(data@, end as int, left as nat));
            pages.push(DirtyPage { offset: page_offset, size: page_size, data: page_data });
            assert(pages_view(pages@) =~= pages_view(before).push(
                (page_offset, page_size, data@.subrange(pos as int, end as int)),
            ));
            assert(pages_view(pages@) + dirty_records(data@, end as int, left as nat) =~= pages_view(
                before,
            ) + (seq![(page_offset, page_size, data@.subrange(pos as int, end as int))]
                + dirty_records(data@, end as int, left as nat)));
            pos = end;
        } else {
            assert(dirty_records(data@, at, k) =~= Seq::empty());
            assert(pages_view(pages@) + Seq::empty() =~= pages_view(pages@));
            return pages;
        }
    }
    assert(dirty_records(data@, pos as int, left as nat) =~= Seq::empty());
    assert(pages_view(pages@) + Seq::empty() =~= pages_view(pages@));
    pages
}

impl TransactionLog {
    /// Parses a transaction log: a base block signed `HvLE` with the sequence
    /// number at octet 4, then dirty vectors probed at each page boundary.
    pub fn parse(data: &[u8]) -> (r: Result<Self>)
        ensures
            r is Ok <==> log_header_valid(data@),
            data@.len() < PAGE_SIZE ==> (r matches Err(RegistryError::InvalidFormat(_))),
            data@.len() >= PAGE_SIZE && !log_header_valid(data@) ==> (r matches Err(
                RegistryError::InvalidSignature { expected: e, found: f },
            ) && e@ == seq![0x48u8, 0x76u8, 0x4cu8, 0x45u8] && f@ == data@.subrange(0, 4)),
            r is Ok ==> r->Ok_0.sequence == u32_le(data@, 4) && pages_view(r->Ok_0.dirty_pages@)
                == probe_from(data@, PAGE_SIZE as int, Seq::empty()),
    {
        if data.len() < PAGE_SIZE {
            return Err(RegistryError::InvalidFormat("transaction log too small".to_owned()));
        }
        let signature: [u8; 4] = [data[0], data[1], data[2], data[3]];
        assert(signature@ =~= data@.subrange(0, 4));
        if !(signature[0] == 0x48 && signature[1] == 0x76 && signature[2] == 0x4c && signature[3]
            == 0x45) {
            let expected: [u8; 4] = [0x48, 0x76, 0x4c, 0x45];
            assert(expected@ =~= seq![0x48u8, 0x76u8, 0x4cu8, 0x45u8]);
            assert(signature@ != seq![0x48u8, 0x76u8, 0x4cu8, 0x45u8]);
            return Err(RegistryError::invalid_signature(&expected, &signature));
        }
        assert(signature@ =~= seq![0x48u8, 0x76u8, 0x4cu8, 0x45u8]);
        assert(log_header_valid(data@));
        let sequence = u32_at(data, 4);
        let len = data.len();
        let mut dirty_pages: Vec<DirtyPage> = Vec::new();
        assert(pages_view(dirty_pages@) =~= Seq::empty());
        let mut offset: usize = PAGE_SIZE;
        while offset <= len && len - offset >= 512
            invariant
                len == data@.len(),
                log_header_valid(data@),
                sequence == u32_le(data@, 4),
                PAGE_SIZE <= offset,
                probe_from(data@, offset as int, pages_view(dirty_pages@)) == probe_from(
                    data@,
                    PAGE_SIZE as int,
                    Seq::empty(),
                ),
            decreases len - offset,
        {
            let ghost acc = pages_view(dirty_pages@);
            if data[offset] == 0x44 && data[offset + 1] == 0x49 && data[offset + 2] == 0x52
                && data[offset + 3] == 0x54 {
                assert(dirt_at(data@, offset as int)) by {
                    assert(data@.subrange(offset as int, offset + 4) =~= seq![0x44u8, 0x49u8, 0x52u8, 0x54u8]);
                }
                let region = &data[offset..len];
                let mut pages = parse_dirty_vector(region);
                let ghost added = pages@;
                dirty_pages.append(&mut pages);
                assert(pages_view(dirty_pages@) =~= acc + pages_view(added));
            } else {
                assert(!dirt_at(data@, offset as int)) by {
                    if dirt_at(data@, offset as int) {
                        assert(data@.subrange(offset as int, offset + 4)[0] == data@[offset as int]);
                        assert(data@.subrange(offset as int, offset + 4)[1] == data@[offset + 1]);
                        assert(data@.subrange(offset as int, offset + 4)[2] == data@[offset + 2]);
                        assert(data@.subrange(offset as int, offset + 4)[3] == data@[offset + 3]);
                    }
                }
            }
            if len - offset < PAGE_SIZE || dirty_pages.len() > MAX_TOTAL_PAGES {
                return Ok(TransactionLog { sequence, dirty_pages });
            }
            offset = offset + PAGE_SIZE;
        }
        Ok(TransactionLog { sequence, dirty_pages })
    }
}

/// The end offset of a dirty page.
pub open spec fn page_end(p: (u32, u32, Seq<u8>)) -> int {
    p.0 as int + p.1 as int
}

/// True when a dirty page may be written into an image of `len` octets: it
/// ends within 512 MiB, grows the image by at most 16 MiB, and carries exactly
/// its declared size.
pub open spec fn page_fits(len: int, p: (u32, u32, Seq<u8>)) -> bool {
    &&& page_end(p) <= MAX_HIVE_SIZE
    &&& page_end(p) <= len || page_end(p) - len <= MAX_PAGE_EXTENSION
    &&& p.2.len() == p.1
}

/// `img` with the page written at its offset, grown with zeros where the page
/// ends past it.
pub open spec fn write_page(img: Seq<u8>, p: (u32, u32, Seq<u8>)) -> Seq<u8> {
    let end = page_end(p);
    let n = if end > img.len() {
        end
    } else {
        img.len() as int
    };
    Seq::new(
        n as nat,
        |i: int|
            if p.0 <= i < end {
                p.2[i - p.0]
            } else if i < img.len() {
                img[i]
            } else {
                0u8
            },
    )
}

/// The image after writing the pages in order, or `None` where one does not fit.
pub open spec fn replay(img: Seq<u8>, pages: Seq<(u32, u32, Seq<u8>)>) -> Option<Seq<u8>>
    decreases pages.len(),
{
    if pages.len() == 0 {
        Some(img)
    } else {
        match replay(img, pages.drop_last()) {
            Some(prev) => if page_fits(prev.len() as int, pages.last()) {
                Some(write_page(prev, pages.last()))
            } else {
                None
            },
            None => None,
        }
    }
}

/// Once a page does not fit, no longer run of pages replays.
proof fn lemma_replay_stuck(img: Seq<u8>, all: Seq<(u32, u32, Seq<u8>)>, k: int, m: int)
    requires
        0 <= k < m <= all.len(),
        replay(img, all.take(k)) is Some,
        !page_fits(replay(img, all.take(k))->Some_0.len() as int, all[k]),
    ensures
        replay(img, all.take(m)) is None,
    decreases m,
{
    assert(all.take(m).drop_last() =~= all.take(m - 1));
    if m == k + 1 {
        assert(all.take(m).last() == all[k]);
    } else {
        lemma_replay_stuck(img, all, k, m - 1);
    }
}

/// Writes one checked page into the image.
fn write_dirty_page(hive_data: &mut Vec<u8>, page: &DirtyPage)
    requires
        page_fits(old(hive_data)@.len() as int, page_view(*page)),
    ensures
        final(hive_data)@ == write_page(old(hive_data)@, page_view(*page)),
{
    let start: usize = page.offset as usize;
    let end: usize = (page.offset as u64 + page.size as u64) as usize;
    let ghost img = old(hive_data)@;
    if end > hive_data.len() {
        hive_data.resize(end, 0u8);
    }
    let ghost grown = hive_data@;
    assert forall|i: int| 0 <= i < grown.len() implies grown[i] == (if i < img.len() { img[i] } else { 0u8 }) by {
        if i < img.len() {
            assert(grown.subrange(0, img.len() as int)[i] == grown[i]);
        }
    }
    let mut j: usize = 0;
    while j < page.data.len()
        invariant
            start + page.data@.len() == end,
            end <= grown.len(),
            page.data@.len() == page.size,
            j <= page.data@.len(),
            hive_data@.len() == grown.len(),
            forall|i: int| 0 <= i < grown.len() ==> #[trigger] hive_data@[i] == (if start <= i < start + j {
                page.data@[i - start]
            } else {
                grown[i]
            }),
        decreases page.data@.len() - j,
    {
        hive_data.set(start + j, page.data[j]);
        j = j + 1;
    }
    assert(hive_data@ =~= write_page(img, page_view(*page)));
}

impl TransactionLog {
    /// Writes this log's dirty pages into the image in order and returns how
    /// many were written. A page that ends past 512 MiB, grows the image by more
    /// than 16 MiB, or whose payload differs from its declared size is an error;
    /// the pages before it stay written.
    pub fn apply_to_hive(&self, hive_data: &mut Vec<u8>) -> (r: Result<usize>)
        ensures
            r is Ok <==> replay(old(hive_data)@, pages_view(self.dirty_pages@)) is Some,
            r is Ok ==> final(hive_data)@ == replay(old(hive_data)@, pages_view(self.dirty_pages@))->Some_0
                && r->Ok_0 == self.dirty_pages@.len(),
            r is Err ==> (r matches Err(RegistryError::InvalidFormat(_))) && exists|k: int|
                0 <= k < self.dirty_pages@.len() && #[trigger] replay(
                    old(hive_data)@,
                    pages_view(self.dirty_pages@).take(k),
                ) == Some(final(hive_data)@) && !page_fits(
                    final(hive_data)@.len() as int,
                    page_view(self.dirty_pages@[k]),
                ),
    {
        let ghost img = hive_data@;
        let ghost all = pages_view(self.dirty_pages@);
        let mut applied: usize = 0;
        while applied < self.dirty_pages.len()
            invariant
                applied <= self.dirty_pages@.len(),
                all == pages_view(self.dirty_pages@),
                img == old(hive_data)@,
                replay(img, all.take(applied as int)) == Some(hive_data@),
            decreases self.dirty_pages@.len() - applied,
        {
            let page = &self.dirty_pages[applied as usize];
            assert(all.take(applied as int + 1).drop_last() =~= all.take(applied as int));
            assert(all.take(applied as int + 1).last() == page_view(*page));
            let end: u64 = page.offset as u64 + page.size as u64;
            assert(all[applied as int] == page_view(*page));
            proof {
                if !page_fits(hive_data@.len() as int, all[applied as int]) {
                    assert(replay(old(hive_data)@, pages_view(self.dirty_pages@).take(applied as int))
                        == Some(hive_data@));
                    lemma_replay_stuck(img, all, applied as int, all.len() as int);
                    assert(all.take(all.len() as int) =~= all);
                }
            }
            if end > MAX_HIVE_SIZE as u64 {
                return Err(RegistryError::InvalidFormat("dirty page ends beyond the largest hive size".to_owned()));
            }
            if end as usize > hive_data.len() && end as usize - hive_data.len() > MAX_PAGE_EXTENSION {
                return Err(RegistryError::InvalidFormat("dirty page grows the hive too much".to_owned()));
            }
            if page.data.len() != page.size as usize {
                return Err(RegistryError::InvalidFormat("dirty page payload differs from its size".to_owned()));
            }
            write_dirty_page(hive_data, page);
            applied = applied + 1;
        }
        assert(all.take(applied as int) =~= all);
        Ok(applied)
    }
}

/// True when some page of `pages` covers octet `i`.
pub open spec fn covered(pages: Seq<(u32, u32, Seq<u8>)>, i: int) -> bool
    decreases pages.len(),
{
    pages.len() > 0 && ((pages.last().0 <= i < page_end(pages.last())) || covered(pages.drop_last(), i))
}

/// The octet that the last page covering `i` writes there.
pub open spec fn last_write(pages: Seq<(u32, u32, Seq<u8>)>, i: int) -> u8
    decreases pages.len(),
{
    if pages.len() == 0 {
        0
    } else if pages.last().0 <= i < page_end(pages.last()) {
        pages.last().2[i - pages.last().0]
    } else {
        last_write(pages.drop_last(), i)
    }
}

/// A replay never shrinks the image, and every replayed page ends within it.
proof fn lemma_replay_bounds(img: Seq<u8>, pages: Seq<(u32, u32, Seq<u8>)>)
    requires
        replay(img, pages) is Some,
    ensures
        replay(img, pages)->Some_0.len() >= img.len(),
        forall|k: int| 0 <= k < pages.len() ==> page_end(#[trigger] pages[k]) <= replay(img, pages)->Some_0.len(),
        forall|k: int| 0 <= k < pages.len() ==> page_fits(img.len() as int, #[trigger] pages[k]) || page_end(pages[k]) <= replay(img, pages)->Some_0.len(),
    decreases pages.len(),
{
    if pages.len() > 0 {
        let prev = pages.drop_last();
        lemma_replay_bounds(img, prev);
        assert forall|k: int| 0 <= k < pages.len() implies page_end(#[trigger] pages[k]) <= replay(img, pages)->Some_0.len() by {
            if k < pages.len() - 1 {
                assert(pages[k] == prev[k]);
            }
        }
    }
}

/// Each octet of a replayed image is what the last page covering it wrote, or
/// else the original octet (zero past the original end).
proof fn lemma_replay_octets(img: Seq<u8>, pages: Seq<(u32, u32, Seq<u8>)>)
    requires
        replay(img, pages) is Some,
    ensures
        forall|i: int|
            0 <= i < replay(img, pages)->Some_0.len() ==> #[trigger] replay(img, pages)->Some_0[i] == (if covered(pages, i) {
                last_write(pages, i)
            } else if i < img.len() {
                img[i]
            } else {
                0u8
            }),
    decreases pages.len(),
{
    if pages.len() > 0 {
        let prev = pages.drop_last();
        lemma_replay_octets(img, prev);
        lemma_replay_bounds(img, prev);
        let before = replay(img, prev)->Some_0;
        assert forall|i: int| before.len() <= i implies !#[trigger] covered(prev, i) by {
            if covered(prev, i) {
                lemma_covered_within(prev, i);
                let k = choose|k: int| 0 <= k < prev.len() && prev[k].0 <= i < page_end(#[trigger] prev[k]);
                assert(page_end(prev[k]) <= before.len());
            }
        }
        let p = pages.last();
        let after = replay(img, pages)->Some_0;
        assert(after == write_page(before, p));
        assert forall|i: int| 0 <= i < after.len() implies #[trigger] after[i] == (if covered(pages, i) {
            last_write(pages, i)
        } else if i < img.len() {
            img[i]
        } else {
            0u8
        }) by {
            if p.0 <= i < page_end(p) {
                assert(covered(pages, i));
            } else {
                assert(covered(pages, i) == covered(prev, i));
                assert(last_write(pages, i) == last_write(prev, i));
                if i >= before.len() {
                    assert(!covered(prev, i));
                }
            }
        }
    }
}

/// An octet covered by some page lies within one of them.
proof fn lemma_covered_within(pages: Seq<(u32, u32, Seq<u8>)>, i: int)
    requires
        covered(pages, i),
    ensures
        exists|k: int| 0 <= k < pages.len() && pages[k].0 <= i < page_end(#[trigger] pages[k]),
    decreases pages.len(),
{
    if !(pages.last().0 <= i < page_end(pages.last())) {
        let prev = pages.drop_last();
        lemma_covered_within(prev, i);
        let k = choose|k: int| 0 <= k < prev.len() && prev[k].0 <= i < page_end(#[trigger] prev[k]);
        assert(pages[k] == prev[k]);
    } else {
        assert(pages[pages.len() - 1] == pages.last());
    }
}

/// Replaying pages onto an image at least as long as every page's end never
/// grows it, and every page fits.
proof fn lemma_replay_within(img: Seq<u8>, pages: Seq<(u32, u32, Seq<u8>)>)
    requires
        forall|k: int| 0 <= k < pages.len() ==> page_end(#[trigger] pages[k]) <= img.len(),
        forall|k: int| 0 <= k < pages.len() ==> page_end(#[trigger] pages[k]) <= MAX_HIVE_SIZE && pages[k].2.len() == pages[k].1,
    ensures
        replay(img, pages) is Some,
        replay(img, pages)->Some_0.len() == img.len(),
    decreases pages.len(),
{
    if pages.len() > 0 {
        let prev = pages.drop_last();
        assert forall|k: int| 0 <= k < prev.len() implies page_end(#[trigger] prev[k]) <= img.len() && page_end(prev[k]) <= MAX_HIVE_SIZE && prev[k].2.len() == prev[k].1 by {
            assert(prev[k] == pages[k]);
        }
        lemma_replay_within(img, prev);
        assert(pages.last() == pages[pages.len() - 1]);
    }
}

/// Replaying a log onto the image it produced changes nothing: the second
/// replay succeeds and gives the same image.
pub proof fn lemma_replay_idempotent(img: Seq<u8>, pages: Seq<(u32, u32, Seq<u8>)>)
    requires
        replay(img, pages) is Some,
    ensures
        replay(replay(img, pages)->Some_0, pages) == replay(img, pages),
    decreases pages.len(),
{
    let once = replay(img, pages)->Some_0;
    lemma_replay_bounds(img, pages);
    lemma_replay_fits_all(img, pages);
    lemma_replay_within(once, pages);
    let twice = replay(once, pages)->Some_0;
    lemma_replay_octets(img, pages);
    lemma_replay_octets(once, pages);
    assert forall|i: int| 0 <= i < twice.len() implies twice[i] == once[i] by {
        assert(twice[i] == (if covered(pages, i) { last_write(pages, i) } else if i < once.len() { once[i] } else { 0u8 }));
        assert(once[i] == (if covered(pages, i) { last_write(pages, i) } else if i < img.len() { img[i] } else { 0u8 }));
    }
    assert(twice =~= once);
}

/// Every page of a successful replay ends within 512 MiB and carries its
/// declared size.
proof fn lemma_replay_fits_all(img: Seq<u8>, pages: Seq<(u32, u32, Seq<u8>)>)
    requires
        replay(img, pages) is Some,
    ensures
        forall|k: int| 0 <= k < pages.len() ==> page_end(#[trigger] pages[k]) <= MAX_HIVE_SIZE && pages[k].2.len() == pages[k].1,
    decreases pages.len(),
{
    if pages.len() > 0 {
        let prev = pages.drop_last();
        lemma_replay_fits_all(img, prev);
        assert forall|k: int| 0 <= k < pages.len() implies page_end(#[trigger] pages[k]) <= MAX_HIVE_SIZE && pages[k].2.len() == pages[k].1 by {
            if k < pages.len() - 1 {
                assert(pages[k] == prev[k]);
            }
        }
    }
}

/// A log with no dirty pages leaves the image as it was.
pub proof fn lemma_empty_log_keeps_image(img: Seq<u8>, log: TransactionLog)
    requires
        log.dirty_pages@.len() == 0,
    ensures
        replay(img, pages_view(log.dirty_pages@)) == Some(img),
{
    assert(pages_view(log.dirty_pages@) =~= Seq::empty());
}

/// A log as plain values: its sequence number and its pages.
pub open spec fn log_view(t: TransactionLog) -> (u32, Seq<(u32, u32, Seq<u8>)>) {
    (t.sequence, pages_view(t.dirty_pages@))
}

/// The plain values of a list of logs.
pub open spec fn logs_view(ts: Seq<TransactionLog>) -> Seq<(u32, Seq<(u32, u32, Seq<u8>)>)> {
    ts.map_values(|t: TransactionLog| log_view(t))
}

/// True when `order` lists every index of `logs` once, by ascending sequence
/// number, logs with equal numbers in their given order.
pub open spec fn sorted_order(logs: Seq<(u32, Seq<(u32, u32, Seq<u8>)>)>, order: Seq<int>) -> bool {
    &&& order.len() == logs.len()
    &&& forall|i: int| 0 <= i < order.len() ==> 0 <= #[trigger] order[i] < logs.len()
    &&& forall|i: int, j: int|
        0 <= i < j < order.len() ==> (logs[#[trigger] order[i]].0 < logs[#[trigger] order[j]].0 || (
        logs[order[i]].0 == logs[order[j]].0 && order[i] < order[j]))
}

/// The image after replaying the logs in the given order, or `None` where a
/// page of one does not fit.
pub open spec fn replay_logs(
    img: Seq<u8>,
    logs: Seq<(u32, Seq<(u32, u32, Seq<u8>)>)>,
    order: Seq<int>,
) -> Option<Seq<u8>>
    decreases order.len(),
{
    if order.len() == 0 {
        Some(img)
    } else {
        match replay_logs(img, logs, order.drop_last()) {
            Some(prev) => replay(prev, logs[order.last()].1),
            None => None,
        }
    }
}

/// The number of pages in the logs taken in the given order.
pub open spec fn pages_in(logs: Seq<(u32, Seq<(u32, u32, Seq<u8>)>)>, order: Seq<int>) -> int
    decreases order.len(),
{
    if order.len() == 0 {
        0
    } else {
        pages_in(logs, order.drop_last()) + logs[order.last()].1.len()
    }
}

/// The indices `0..n` as integers.
pub open spec fn as_ints(v: Seq<usize>) -> Seq<int> {
    v.map_values(|x: usize| x as int)
}

/// The indices of `logs` by ascending sequence number, ties in given order.
fn sequence_order(logs: &[TransactionLog]) -> (r: Vec<usize>)
    ensures
        sorted_order(logs_view(logs@), as_ints(r@)),
{
    let ghost lv = logs_view(logs@);
    let mut order: Vec<usize> = Vec::new();
    let mut i: usize = 0;
    while i < logs.len()
        invariant
            i <= logs@.len(),
            lv == logs_view(logs@),
            lv.len() == logs@.len(),
            order@.len() == i,
            forall|a: int| 0 <= a < order@.len() ==> #[trigger] order@[a] < i,
            forall|a: int, b: int|
                0 <= a < b < order@.len() ==> (lv[#[trigger] order@[a] as int].0 < lv[#[trigger] order@[b] as int].0
                    || (lv[order@[a] as int].0 == lv[order@[b] as int].0 && order@[a] < order@[b])),
        decreases logs@.len() - i,
    {
        let s = logs[i].sequence;
        assert(lv[i as int].0 == s);
        let mut p: usize = 0;
        while p < order.len() && logs[order[p]].sequence <= s
            invariant
                p <= order@.len(),
                i < logs@.len(),
                lv == logs_view(logs@),
                lv.len() == logs@.len(),
                forall|a: int| 0 <= a < order@.len() ==> #[trigger] order@[a] < i,
                forall|a: int| 0 <= a < p ==> lv[#[trigger] order@[a] as int].0 <= s,
            decreases order@.len() - p,
        {
            assert(lv[order@[p as int] as int].0 == logs@[order@[p as int] as int].sequence);
            p = p + 1;
        }
        proof {
            if p < order@.len() {
                assert(lv[order@[p as int] as int].0 == logs@[order@[p as int] as int].sequence);
                assert forall|b: int| p <= b < order@.len() implies lv[#[trigger] order@[b] as int].0 > s by {
                    if b > p {
                        assert(lv[order@[p as int] as int].0 <= lv[order@[b] as int].0);
                    }
                }
            }
        }
        let ghost before = order@;
        order.insert(p, i);
        assert(order@ == before.insert(p as int, i));
        assert forall|a: int, b: int|
            0 <= a < b < order@.len() implies (lv[#[trigger] order@[a] as int].0 < lv[#[trigger] order@[b] as int].0
                || (lv[order@[a] as int].0 == lv[order@[b] as int].0 && order@[a] < order@[b])) by {
            if a < p && b < p {
                assert(order@[a] == before[a] && order@[b] == before[b]);
            } else if a < p && b == p {
                assert(order@[a] == before[a]);
            } else if a < p {
                assert(order@[a] == before[a] && order@[b] == before[b - 1]);
            } else if a == p {
                assert(order@[b] == before[b - 1]);
            } else {
                assert(order@[a] == before[a - 1] && order@[b] == before[b - 1]);
            }
        }
        assert forall|a: int| 0 <= a < order@.len() implies #[trigger] order@[a] < i + 1 by {
            if a < p {
                assert(order@[a] == before[a]);
            } else if a > p {
                assert(order@[a] == before[a - 1]);
            }
        }
        i = i + 1;
    }
    assert(lv =~= logs_view(logs@));
    order
}

/// Replays several logs onto the image by ascending sequence number and returns
/// the number of pages written (saturating at `usize::MAX`). An error from a log
/// ends the replay.
pub fn apply_transaction_logs(hive_data: &mut Vec<u8>, logs: &[TransactionLog]) -> (r: Result<usize>)
    ensures
        exists|order: Seq<int>|
            #![trigger replay_logs(old(hive_data)@, logs_view(logs@), order)]
            sorted_order(logs_view(logs@), order) && (r is Ok <==> replay_logs(
                old(hive_data)@,
                logs_view(logs@),
                order,
            ) is Some) && (r is Ok ==> final(hive_data)@ == replay_logs(
                old(hive_data)@,
                logs_view(logs@),
                order,
            )->Some_0 && r->Ok_0 as int == (if pages_in(logs_view(logs@), order) <= usize::MAX {
                pages_in(logs_view(logs@), order)
            } else {
                usize::MAX as int
            })),
        r is Err ==> (r matches Err(RegistryError::InvalidFormat(_))),
{
    let order = sequence_order(logs);
    let ghost lv = logs_view(logs@);
    let ghost ord = as_ints(order@);
    let ghost img = hive_data@;
    let mut total: usize = 0;
    let mut k: usize = 0;
    while k < order.len()
        invariant
            k <= order@.len(),
            lv == logs_view(logs@),
            ord == as_ints(order@),
            sorted_order(lv, ord),
            img == old(hive_data)@,
            replay_logs(img, lv, ord.take(k as int)) == Some(hive_data@),
            total as int == (if pages_in(lv, ord.take(k as int)) <= usize::MAX {
                pages_in(lv, ord.take(k as int))
            } else {
                usize::MAX as int
            }),
        decreases order@.len() - k,
    {
        let idx = order[k];
        assert(ord[k as int] == idx as int);
        assert(0 <= ord[k as int] < lv.len());
        assert(ord.take(k as int + 1).drop_last() =~= ord.take(k as int));
        assert(ord.take(k as int + 1).last() == idx as int);
        assert(lv[idx as int].1 == pages_view(logs@[idx as int].dirty_pages@));
        match logs[idx].apply_to_hive(hive_data) {
            Ok(n) => {
                total = total.saturating_add(n);
            },
            Err(e) => {
                proof {
                    lemma_replay_logs_stuck(img, lv, ord, k as int, ord.len() as int);
                    assert(ord.take(ord.len() as int) =~= ord);
                }
                return Err(e);
            },
        }
        k = k + 1;
    }
    assert(ord.take(ord.len() as int) =~= ord);
    Ok(total)
}

/// Once a log fails to replay, no longer run of logs replays.
proof fn lemma_replay_logs_stuck(
    img: Seq<u8>,
    logs: Seq<(u32, Seq<(u32, u32, Seq<u8>)>)>,
    order: Seq<int>,
    k: int,
    m: int,
)
    requires
        0 <= k < m <= order.len(),
        replay_logs(img, logs, order.take(k)) is Some,
        replay(replay_logs(img, logs, order.take(k))->Some_0, logs[order[k]].1) is None,
    ensures
        replay_logs(img, logs, order.take(m)) is None,
    decreases m,
{
    assert(order.take(m).drop_last() =~= order.take(m - 1));
    if m == k + 1 {
        assert(order.take(m).last() == order[k]);
    } else {
        lemma_replay_logs_stuck(img, logs, order, k, m - 1);
    }
}

/// Replays the logs among `log1` and `log2` that parse, by ascending sequence
/// number; a log that does not parse is skipped. Returns the number of pages
/// written; with no log that parses the image is left as it was.
pub fn merge_transaction_logs(hive_data: &mut Vec<u8>, log1: Option<&[u8]>, log2: Option<&[u8]>) -> (r: Result<usize>)
    ensures
        ({
            let found = parsed_logs(log1, log2);
            &&& found.len() == 0 ==> r == Ok::<usize, RegistryError>(0) && final(hive_data)@ == old(hive_data)@
            &&& exists|order: Seq<int>|
                #![trigger replay_logs(old(hive_data)@, found, order)]
                sorted_order(found, order) && (r is Ok <==> replay_logs(old(hive_data)@, found, order) is Some)
                    && (r is Ok ==> final(hive_data)@ == replay_logs(old(hive_data)@, found, order)->Some_0
                    && r->Ok_0 as int == (if pages_in(found, order) <= usize::MAX {
                    pages_in(found, order)
                } else {
                    usize::MAX as int
                }))
        }),
{
    let mut logs: Vec<TransactionLog> = Vec::new();
    if let Some(bytes) = log1 {
        if let Ok(log) = TransactionLog::parse(bytes) {
            logs.push(log);
        }
    }
    let ghost first = logs@;
    if let Some(bytes) = log2 {
        if let Ok(log) = TransactionLog::parse(bytes) {
            logs.push(log);
        }
    }
    assert(logs_view(logs@) =~= parsed_logs(log1, log2));
    if logs.len() == 0 {
        assert(replay_logs(hive_data@, parsed_logs(log1, log2), Seq::empty()) == Some(hive_data@));
        assert(pages_in(parsed_logs(log1, log2), Seq::empty()) == 0);
        assert(sorted_order(parsed_logs(log1, log2), Seq::<int>::empty()));
        return Ok(0);
    }
    apply_transaction_logs(hive_data, logs.as_slice())
}

/// The log that the octets `b` hold, as plain values, if they parse.
pub open spec fn parsed_log(b: Seq<u8>) -> Seq<(u32, Seq<(u32, u32, Seq<u8>)>)> {
    if log_header_valid(b) {
        seq![(u32_le(b, 4), probe_from(b, PAGE_SIZE as int, Seq::empty()))]
    } else {
        Seq::empty()
    }
}

/// The logs among two optional inputs that parse, in the given order.
pub open spec fn parsed_logs(log1: Option<&[u8]>, log2: Option<&[u8]>) -> Seq<(u32, Seq<(u32, u32, Seq<u8>)>)> {
    let a = match log1 {
        Some(b) => parsed_log(b@),
        None => Seq::empty(),
    };
    let b = match log2 {
        Some(b) => parsed_log(b@),
        None => Seq::empty(),
    };
    a + b
}

} // verus!
