//! Key nodes (`nk` cells).

use vstd::prelude::*;

use crate::cell::KeyNodeFlags;
use crate::error::{RegistryError, Result};
use crate::utils::{read_ascii_string, read_utf16_string, trim_trailing_nuls, u16_at, u16_le, u32_at, u32_le, u64_at, u64_le, utf16_text, utf8_lossy};

verus! {

/// Minimum size of a key node in octets, up to the name.
pub const KEY_NODE_MIN_SIZE: usize = 76;

/// Offset of the key name in a key node.
pub const KEY_NAME_OFFSET: usize = 0x4C;

/// A key node (`nk`): one registry key.
#[derive(Debug, Clone)]
pub struct KeyNode {
    /// Flags of this key.
    pub flags: KeyNodeFlags,
    /// Last-written time (FILETIME).
    pub last_written: u64,
    /// Access bits.
    pub access_bits: u32,
    /// Cell offset of the parent key.
    pub parent_offset: u32,
    /// Number of subkeys.
    pub subkey_count: u32,
    /// Number of volatile subkeys.
    pub volatile_subkey_count: u32,
    /// Cell offset of the subkey list.
    pub subkey_list_offset: u32,
    /// Cell offset of the volatile subkey list.
    pub volatile_subkey_list_offset: u32,
    /// Number of values.
    pub value_count: u32,
    /// Cell offset of the value list.
    pub value_list_offset: u32,
    /// Cell offset of the security descriptor.
    pub security_offset: u32,
    /// Cell offset of the class name.
    pub class_name_offset: u32,
    /// Largest subkey name length.
    pub max_subkey_name_len: u32,
    /// Largest subkey class-name length.
    pub max_subkey_class_len: u32,
    /// Largest value name length.
    pub max_value_name_len: u32,
    /// Largest value data length.
    pub max_value_data_len: u32,
    /// Work variable.
    pub work_var: u32,
    /// Length of the key name in octets.
    pub name_length: u16,
    /// Length of the class name in octets.
    pub class_name_length: u16,
    /// Key name.
    pub name: String,
}

/// The octets `nk`.
pub open spec fn nk_bytes() -> Seq<u8> {
    seq![0x6eu8, 0x6bu8]
}

/// The name that a key node with payload `d` carries: one octet per character
/// when compressed, else UTF-16LE; `None` where the UTF-16 is malformed.
pub open spec fn key_name(d: Seq<u8>) -> Option<Seq<char>> {
    let nl = u16_le(d, 0x48) as int;
    let raw = d.subrange(0x4C, 0x4C + nl);
    if nl == 0 {
        Some(Seq::empty())
    } else if u16_le(d, 0x02) & 0x0020 != 0 {
        Some(trim_trailing_nuls(utf8_lossy(raw)))
    } else {
        utf16_text(raw)
    }
}

/// True when the key-node payload `d` has a valid signature and its name fits.
pub open spec fn key_node_shape_ok(d: Seq<u8>) -> bool {
    &&& d.len() >= KEY_NODE_MIN_SIZE
    &&& d.subrange(0, 2) == nk_bytes()
    &&& 0x4C + u16_le(d, 0x48) <= d.len()
}

/// True when `d` is a key-node payload that parses.
pub open spec fn key_node_valid(d: Seq<u8>) -> bool {
    key_node_shape_ok(d) && key_name(d) is Some
}

/// True when `k` holds the fields that the key-node payload `d` stores.
pub open spec fn key_node_fields(k: KeyNode, d: Seq<u8>) -> bool {
    &&& k.flags.0 == u16_le(d, 0x02)
    &&& k.last_written == u64_le(d, 0x04)
    &&& k.access_bits == u32_le(d, 0x0C)
    &&& k.parent_offset == u32_le(d, 0x10)
    &&& k.subkey_count == u32_le(d, 0x14)
    &&& k.volatile_subkey_count == u32_le(d, 0x18)
    &&& k.subkey_list_offset == u32_le(d, 0x1C)
    &&& k.volatile_subkey_list_offset == u32_le(d, 0x20)
    &&& k.value_count == u32_le(d, 0x24)
    &&& k.value_list_offset == u32_le(d, 0x28)
    &&& k.security_offset == u32_le(d, 0x2C)
    &&& k.class_name_offset == u32_le(d, 0x30)
    &&& k.max_subkey_name_len == u32_le(d, 0x34)
    &&& k.max_subkey_class_len == u32_le(d, 0x38)
    &&& k.max_value_name_len == u32_le(d, 0x3C)
    &&& k.max_value_data_len == u32_le(d, 0x40)
    &&& k.work_var == u32_le(d, 0x44)
    &&& k.name_length == u16_le(d, 0x48)
    &&& k.class_name_length == u16_le(d, 0x4A)
    &&& k.name@ == key_name(d)->Some_0
}

impl KeyNode {
    /// Parses a key node from a cell payload; `offset` is reported in errors.
    pub fn parse(data: &[u8], offset: u32) -> (r: Result<Self>)
        ensures
            key_node_valid(data@) <==> r is Ok,
            r is Ok ==> key_node_fields(r->Ok_0, data@),
            data@.len() < KEY_NODE_MIN_SIZE ==> (r matches Err(
                RegistryError::TruncatedData { offset: o, expected: e, actual: a },
            ) && o == offset && e == KEY_NODE_MIN_SIZE && a == data@.len()),
            data@.len() >= KEY_NODE_MIN_SIZE && data@.subrange(0, 2) != nk_bytes() ==> (r matches Err(
                RegistryError::InvalidFormat(_),
            )),
            data@.len() >= KEY_NODE_MIN_SIZE && data@.subrange(0, 2) == nk_bytes() && 0x4C
                + u16_le(data@, 0x48) > data@.len() ==> (r matches Err(
                RegistryError::TruncatedData { offset: o, expected: e, actual: a },
            ) && o == offset && e == 0x4C + u16_le(data@, 0x48) && a == data@.len()),
            key_node_shape_ok(data@) && key_name(data@) is None ==> (r matches Err(
                RegistryError::InvalidUtf16 { offset: o },
            ) && o == offset),
    {
        if data.len() < KEY_NODE_MIN_SIZE {
            return Err(
                RegistryError::TruncatedData {
                    offset,
                    expected: KEY_NODE_MIN_SIZE,
                    actual: data.len(),
                },
            );
        }
        if !(data[0] == 0x6e && data[1] == 0x6b) {
            assert(data@.subrange(0, 2) != nk_bytes()) by {
                assert(data@.subrange(0, 2)[0] == data@[0]);
                assert(data@.subrange(0, 2)[1] == data@[1]);
            }
            return Err(RegistryError::InvalidFormat("expected an 'nk' signature".to_owned()));
        }
        assert(data@.subrange(0, 2) =~= nk_bytes());
        let flags = KeyNodeFlags::new(u16_at(data, 0x02));
        let last_written = u64_at(data, 0x04);
        let access_bits = u32_at(data, 0x0C);
        let parent_offset = u32_at(data, 0x10);
        let subkey_count = u32_at(data, 0x14);
        let volatile_subkey_count = u32_at(data, 0x18);
        let subkey_list_offset = u32_at(data, 0x1C);
        let volatile_subkey_list_offset = u32_at(data, 0x20);
        let value_count = u32_at(data, 0x24);
        let value_list_offset = u32_at(data, 0x28);
        let security_offset = u32_at(data, 0x2C);
        let class_name_offset = u32_at(data, 0x30);
        let max_subkey_name_len = u32_at(data, 0x34);
        let max_subkey_class_len = u32_at(data, 0x38);
        let max_value_name_len = u32_at(data, 0x3C);
        let max_value_data_len = u32_at(data, 0x40);
        let work_var = u32_at(data, 0x44);
        let name_length = u16_at(data, 0x48);
        let class_name_length = u16_at(data, 0x4A);
        let name_end: usize = KEY_NAME_OFFSET + name_length as usize;
        if name_end > data.len() {
            return Err(RegistryError::TruncatedData { offset, expected: name_end, actual: data.len() });
        }
        let name = if name_length > 0 {
            let name_data = &data[KEY_NAME_OFFSET..name_end];
            if flags.is_compressed() {
                read_ascii_string(name_data)
            } else {
                match read_utf16_string(name_data, offset) {
                    Ok(s) => s,
                    Err(e) => {
                        return Err(e);
                    },
                }
            }
        } else {
            String::new()
        };
        Ok(KeyNode {
            flags,
            last_written,
            access_bits,
            parent_offset,
            subkey_count,
            volatile_subkey_count,
            subkey_list_offset,
            volatile_subkey_list_offset,
            value_count,
            value_list_offset,
            security_offset,
            class_name_offset,
            max_subkey_name_len,
            max_subkey_class_len,
            max_value_name_len,
            max_value_data_len,
            work_var,
            name_length,
            class_name_length,
            name,
        })
    }

    /// True if this key has subkeys.
    pub fn has_subkeys(&self) -> (r: bool)
        ensures
            r == (self.subkey_count > 0),
    {
        self.subkey_count > 0
    }

    /// True if this key has values.
    pub fn has_values(&self) -> (r: bool)
        ensures
            r == (self.value_count > 0),
    {
        self.value_count > 0
    }

    /// True if this is the root key.
    pub fn is_root(&self) -> (r: bool)
        ensures
            r == (self.flags.0 & 0x0004 != 0),
    {
        self.flags.is_root()
    }
}

/// Two key nodes parsed from the same payload agree on every structural
/// attribute: signature-checked counts, offsets, lengths, flags and name.
pub proof fn lemma_key_node_reparse(d: Seq<u8>, a: KeyNode, b: KeyNode)
    requires
        key_node_fields(a, d),
        key_node_fields(b, d),
    ensures
        a.flags.0 == b.flags.0,
        a.parent_offset == b.parent_offset,
        a.subkey_count == b.subkey_count,
        a.subkey_list_offset == b.subkey_list_offset,
        a.value_count == b.value_count,
        a.value_list_offset == b.value_list_offset,
        a.security_offset == b.security_offset,
        a.class_name_offset == b.class_name_offset,
        a.name_length == b.name_length,
        a.name@ == b.name@,
{
}

} // verus!
