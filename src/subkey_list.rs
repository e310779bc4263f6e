//! Subkey lists (`li`, `lf`, `lh`, `ri` cells).

use vstd::prelude::*;

use crate::cell::sig_is;
use crate::error::{RegistryError, Result};
use crate::utils::{u16_le, u32_at, u32_le};

verus! {

/// The four subkey-list encodings.
#[derive(Debug, Clone, Copy, PartialEq, Eq, Structural)]
pub enum SubkeyListType {
    /// Index leaf (`li`): key offsets.
    IndexLeaf,
    /// Fast leaf (`lf`): key offsets with four-character name hints.
    FastLeaf,
    /// Hash leaf (`lh`): key offsets with name hashes.
    HashLeaf,
    /// Index root (`ri`): offsets of further subkey lists.
    IndexRoot,
}

/// The list encoding whose signature is `sig`, if any.
pub open spec fn list_type_of(sig: Seq<u8>) -> Option<SubkeyListType> {
    if sig == seq![0x6cu8, 0x69u8] {
        Some(SubkeyListType::IndexLeaf)
    } else if sig == seq![0x6cu8, 0x66u8] {
        Some(SubkeyListType::FastLeaf)
    } else if sig == seq![0x6cu8, 0x68u8] {
        Some(SubkeyListType::HashLeaf)
    } else if sig == seq![0x72u8, 0x69u8] {
        Some(SubkeyListType::IndexRoot)
    } else {
        None
    }
}

impl SubkeyListType {
    /// Parses a list encoding from its two-octet signature.
    pub fn from_signature(sig: &[u8; 2]) -> (r: Result<Self>)
        ensures
            list_type_of(sig@) is Some ==> r == Ok::<SubkeyListType, RegistryError>(
                list_type_of(sig@)->Some_0,
            ),
            list_type_of(sig@) is None ==> (r matches Err(
                RegistryError::InvalidSubkeyList { list_type: t },
            ) && t == *sig),
    {
        if sig_is(sig, 0x6c, 0x69) {
            Ok(SubkeyListType::IndexLeaf)
        } else if sig_is(sig, 0x6c, 0x66) {
            Ok(SubkeyListType::FastLeaf)
        } else if sig_is(sig, 0x6c, 0x68) {
            Ok(SubkeyListType::HashLeaf)
        } else if sig_is(sig, 0x72, 0x69) {
            Ok(SubkeyListType::IndexRoot)
        } else {
            Err(RegistryError::InvalidSubkeyList { list_type: *sig })
        }
    }
}

/// An entry of a fast or hash leaf.
#[derive(Debug, Clone, Copy)]
pub struct SubkeyListEntry {
    /// Cell offset of the key node.
    pub key_offset: u32,
    /// Name hint: the first four characters (`lf`) or a hash of the name (`lh`).
    pub name_hint: u32,
}

/// A parsed subkey list.
#[derive(Debug, Clone)]
pub enum SubkeyList {
    /// Index leaf: key offsets.
    IndexLeaf(Vec<u32>),
    /// Fast or hash leaf: key offsets with hints.
    LeafWithHints(Vec<SubkeyListEntry>),
    /// Index root: offsets of further subkey lists.
    IndexRoot(Vec<u32>),
}

/// Octets per entry of each list encoding.
pub open spec fn list_stride(t: SubkeyListType) -> int {
    match t {
        SubkeyListType::FastLeaf | SubkeyListType::HashLeaf => 8,
        _ => 4,
    }
}

/// The number of entries that the list payload `d` declares.
pub open spec fn list_count(d: Seq<u8>) -> int {
    u16_le(d, 2) as int
}

/// The `count` words of `d` that start at octet 4 and lie `stride` octets apart.
pub open spec fn list_words(d: Seq<u8>, stride: int, first: int, count: int) -> Seq<u32> {
    Seq::new(count as nat, |i: int| u32_le(d, 4 + stride * i + first))
}

/// The offsets a subkey list holds: key offsets for a leaf, list offsets for a root.
pub open spec fn list_offsets(l: SubkeyList) -> Seq<u32> {
    match l {
        SubkeyList::IndexLeaf(o) => o@,
        SubkeyList::LeafWithHints(e) => e@.map_values(|x: SubkeyListEntry| x.key_offset),
        SubkeyList::IndexRoot(o) => o@,
    }
}

/// True when `l` is what the list payload `d` of encoding `t` holds.
pub open spec fn list_decodes(l: SubkeyList, d: Seq<u8>, t: SubkeyListType) -> bool {
    let n = list_count(d);
    match t {
        SubkeyListType::IndexLeaf => l matches SubkeyList::IndexLeaf(o) && o@ == list_words(d, 4, 0, n),
        SubkeyListType::IndexRoot => l matches SubkeyList::IndexRoot(o) && o@ == list_words(d, 4, 0, n),
        _ => l matches SubkeyList::LeafWithHints(e) && e@.len() == n && e@.map_values(
            |x: SubkeyListEntry| x.key_offset,
        ) == list_words(d, 8, 0, n) && e@.map_values(|x: SubkeyListEntry| x.name_hint) == list_words(
            d,
            8,
            4,
            n,
        ),
    }
}

/// Reads `count` words of `data` spaced `stride` octets apart from octet `4 + first`.
fn read_words(data: &[u8], stride: usize, first: usize, count: usize) -> (r: Vec<u32>)
    requires
        stride == 4 || stride == 8,
        first + 4 <= stride,
        4 + stride * count <= data@.len(),
    ensures
        r@ == list_words(data@, stride as int, first as int, count as int),
{
    let len = data.len();
    let mut out: Vec<u32> = Vec::new();
    let mut i: usize = 0;
    while i < count
        invariant
            i <= count,
            stride == 4 || stride == 8,
            first + 4 <= stride,
            4 + stride * count <= data@.len() == len,
            out@ == list_words(data@, stride as int, first as int, i as int),
        decreases count - i,
    {
        assert(stride * i + stride <= stride * count) by (nonlinear_arith)
            requires
                i < count,
        ;
        let at: usize = 4 + stride * i + first;
        out.push(u32_at(data, at));
        assert(out@ =~= list_words(data@, stride as int, first as int, i as int + 1));
        i = i + 1;
    }
    out
}

impl SubkeyList {
    /// Parses a subkey list from a cell payload; `offset` is reported in errors.
    pub fn parse(data: &[u8], offset: u32) -> (r: Result<Self>)
        ensures
            data@.len() < 4 ==> (r matches Err(
                RegistryError::TruncatedData { offset: o, expected: e, actual: a },
            ) && o == offset && e == 4 && a == data@.len()),
            data@.len() >= 4 && list_type_of(data@.subrange(0, 2)) is None ==> (r matches Err(
                RegistryError::InvalidSubkeyList { list_type: t },
            ) && t@ == data@.subrange(0, 2)),
            data@.len() >= 4 && list_type_of(data@.subrange(0, 2)) is Some && data@.len() < 4
                + list_stride(list_type_of(data@.subrange(0, 2))->Some_0) * list_count(data@) ==> (r matches Err(
                RegistryError::TruncatedData { offset: o, expected: e, actual: a },
            ) && o == offset && e == 4 + list_stride(list_type_of(data@.subrange(0, 2))->Some_0)
                * list_count(data@) && a == data@.len()),
            r is Ok <==> (data@.len() >= 4 && list_type_of(data@.subrange(0, 2)) is Some
                && data@.len() >= 4 + list_stride(list_type_of(data@.subrange(0, 2))->Some_0)
                * list_count(data@)),
            r is Ok ==> list_decodes(r->Ok_0, data@, list_type_of(data@.subrange(0, 2))->Some_0),
    {
        if data.len() < 4 {
            return Err(RegistryError::TruncatedData { offset, expected: 4, actual: data.len() });
        }
        let sig: [u8; 2] = [data[0], data[1]];
        assert(sig@ =~= data@.subrange(0, 2));
        let list_type = match SubkeyListType::from_signature(&sig) {
            Ok(t) => t,
            Err(e) => {
                return Err(e);
            },
        };
        let count: usize = ((data[2] as u16) | ((data[3] as u16) << 8u16)) as usize;
        assert(count == list_count(data@));
        match list_type {
            SubkeyListType::IndexLeaf | SubkeyListType::IndexRoot => {
                let expected_size: usize = 4 + count * 4;
                if data.len() < expected_size {
                    return Err(RegistryError::TruncatedData { offset, expected: expected_size, actual: data.len() });
                }
                let offsets = read_words(data, 4, 0, count);
                match list_type {
                    SubkeyListType::IndexLeaf => Ok(SubkeyList::IndexLeaf(offsets)),
                    _ => Ok(SubkeyList::IndexRoot(offsets)),
                }
            },
            _ => {
                let expected_size: usize = 4 + count * 8;
                if data.len() < expected_size {
                    return Err(RegistryError::TruncatedData { offset, expected: expected_size, actual: data.len() });
                }
                let keys = read_words(data, 8, 0, count);
                let hints = read_words(data, 8, 4, count);
                let mut entries: Vec<SubkeyListEntry> = Vec::new();
                let mut i: usize = 0;
                while i < count
                    invariant
                        i <= count,
                        keys@.len() == count,
                        hints@.len() == count,
                        entries@.len() == i,
                        forall|j: int| 0 <= j < i ==> (#[trigger] entries@[j]).key_offset == keys@[j]
                            && entries@[j].name_hint == hints@[j],
                    decreases count - i,
                {
                    entries.push(SubkeyListEntry { key_offset: keys[i], name_hint: hints[i] });
                    i = i + 1;
                }
                assert(entries@.map_values(|x: SubkeyListEntry| x.key_offset) =~= keys@);
                assert(entries@.map_values(|x: SubkeyListEntry| x.name_hint) =~= hints@);
                Ok(SubkeyList::LeafWithHints(entries))
            },
        }
    }

    /// The offsets of an index leaf or index root; empty for a leaf with hints,
    /// whose offsets `key_offsets_iter` gives.
    pub fn key_offsets(&self) -> (r: &[u32])
        ensures
            !(self is LeafWithHints) ==> r@ == list_offsets(*self),
            self is LeafWithHints ==> r@.len() == 0,
    {
        match self {
            SubkeyList::IndexLeaf(offsets) => offsets.as_slice(),
            SubkeyList::IndexRoot(offsets) => offsets.as_slice(),
            SubkeyList::LeafWithHints(_) => &[],
        }
    }

    /// The offsets that this list holds, in stored order, whatever its encoding.
    pub fn key_offsets_iter(&self) -> (r: Vec<u32>)
        ensures
            r@ == list_offsets(*self),
    {
        match self {
            SubkeyList::IndexLeaf(offsets) => offsets.clone(),
            SubkeyList::IndexRoot(offsets) => offsets.clone(),
            SubkeyList::LeafWithHints(entries) => {
                let mut out: Vec<u32> = Vec::new();
                let mut i: usize = 0;
                while i < entries.len()
                    invariant
                        i <= entries@.len(),
                        out@ == entries@.take(i as int).map_values(|x: SubkeyListEntry| x.key_offset),
                    decreases entries@.len() - i,
                {
                    out.push(entries[i].key_offset);
                    i = i + 1;
                    assert(out@ =~= entries@.take(i as int).map_values(|x: SubkeyListEntry| x.key_offset));
                }
                assert(entries@.take(entries@.len() as int) =~= entries@);
                out
            },
        }
    }

    /// The number of entries in this list.
    pub fn len(&self) -> (r: usize)
        ensures
            r == list_offsets(*self).len(),
    {
        match self {
            SubkeyList::IndexLeaf(offsets) => offsets.len(),
            SubkeyList::LeafWithHints(entries) => entries.len(),
            SubkeyList::IndexRoot(offsets) => offsets.len(),
        }
    }

    /// True if this list has no entries.
    pub fn is_empty(&self) -> (r: bool)
        ensures
            r == (list_offsets(*self).len() == 0),
    {
        self.len() == 0
    }

    /// True if this list is an index root, whose entries are further lists.
    pub fn is_index_root(&self) -> (r: bool)
        ensures
            r == (self is IndexRoot),
    {
        match self {
            SubkeyList::IndexRoot(_) => true,
            _ => false,
        }
    }
}

} // verus!
