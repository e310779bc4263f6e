//! Value keys (`vk` cells) and typed value data.

use vstd::prelude::*;

use crate::cell::{value_type_of, ValueType};
use crate::error::{RegistryError, Result};
use crate::utils::{read_ascii_string, read_utf16_string, utf16_chars, string_from_chars, trim_trailing_nuls, u16_at, u16_le, u32_at, u32_be, u32_le, u64_at, u64_le, utf16_text, utf8_lossy};

verus! {

/// Minimum size of a value key in octets, up to the name.
pub const VALUE_KEY_MIN_SIZE: usize = 20;

/// Offset of the value name in a value key.
pub const VALUE_NAME_OFFSET: usize = 0x14;

/// A value key (`vk`): one registry value.
#[derive(Debug, Clone)]
pub struct ValueKey {
    /// Length of the value name in octets.
    pub name_length: u16,
    /// Length of the value data, with the inline marker bit cleared.
    pub data_length: u32,
    /// Cell offset of the data, or the data itself when it is inline.
    pub data_offset: u32,
    /// Type of the value data.
    pub data_type: ValueType,
    /// Flags (bit 0: the name is stored one octet per character).
    pub flags: u16,
    /// Value name; `(default)` for the unnamed value.
    pub name: String,
}

/// The octets `vk`.
pub open spec fn vk_bytes() -> Seq<u8> {
    seq![0x76u8, 0x6bu8]
}

/// The name that a value key with payload `d` carries.
pub open spec fn value_name(d: Seq<u8>) -> Option<Seq<char>> {
    let nl = u16_le(d, 0x02) as int;
    let raw = d.subrange(0x14, 0x14 + nl);
    if nl == 0 {
        Some("(default)"@)
    } else if u16_le(d, 0x10) & 0x0001 != 0 {
        Some(trim_trailing_nuls(utf8_lossy(raw)))
    } else {
        utf16_text(raw)
    }
}

/// True when the value-key payload `d` has a valid signature and its name fits.
pub open spec fn value_key_shape_ok(d: Seq<u8>) -> bool {
    &&& d.len() >= VALUE_KEY_MIN_SIZE
    &&& d.subrange(0, 2) == vk_bytes()
    &&& 0x14 + u16_le(d, 0x02) <= d.len()
}

/// True when `d` is a value-key payload that parses.
pub open spec fn value_key_valid(d: Seq<u8>) -> bool {
    value_key_shape_ok(d) && value_name(d) is Some
}

/// True when `v` holds the fields that the value-key payload `d` stores.
pub open spec fn value_key_fields(v: ValueKey, d: Seq<u8>) -> bool {
    &&& v.name_length == u16_le(d, 0x02)
    &&& v.data_length == u32_le(d, 0x04) & 0x7FFF_FFFF
    &&& v.data_length <= 0x7FFF_FFFF
    &&& v.data_offset == u32_le(d, 0x08)
    &&& v.data_type == value_type_of(u32_le(d, 0x0C))
    &&& v.flags == u16_le(d, 0x10)
    &&& v.name@ == value_name(d)->Some_0
}

/// The four octets of `x`, least significant first.
pub open spec fn u32_bytes(x: u32) -> Seq<u8> {
    seq![(x & 0xff) as u8, ((x >> 8u32) & 0xff) as u8, ((x >> 16u32) & 0xff) as u8, ((x >> 24u32) & 0xff) as u8]
}

/// Writes `x` as four octets, least significant first.
pub fn u32_to_le_bytes(x: u32) -> (r: [u8; 4])
    ensures
        r@ == u32_bytes(x),
        u32_le(r@, 0) == x,
{
    let r: [u8; 4] = [(x & 0xff) as u8, ((x >> 8u32) & 0xff) as u8, ((x >> 16u32) & 0xff) as u8, ((x >> 24u32) & 0xff) as u8];
    assert(r@ =~= u32_bytes(x));
    let b0 = x & 0xff;
    let b1 = (x >> 8u32) & 0xff;
    let b2 = (x >> 16u32) & 0xff;
    let b3 = (x >> 24u32) & 0xff;
    assert(b0 < 256 && b1 < 256 && b2 < 256 && b3 < 256) by (bit_vector)
        requires
            b0 == x & 0xff,
            b1 == (x >> 8u32) & 0xff,
            b2 == (x >> 16u32) & 0xff,
            b3 == (x >> 24u32) & 0xff,
    ;
    assert(b0 | (b1 << 8u32) | (b2 << 16u32) | (b3 << 24u32) == x) by (bit_vector)
        requires
            b0 == x & 0xff,
            b1 == (x >> 8u32) & 0xff,
            b2 == (x >> 16u32) & 0xff,
            b3 == (x >> 24u32) & 0xff,
    ;
    r
}

impl ValueKey {
    /// Parses a value key from a cell payload; `offset` is reported in errors.
    pub fn parse(data: &[u8], offset: u32) -> (r: Result<Self>)
        ensures
            value_key_valid(data@) <==> r is Ok,
            r is Ok ==> value_key_fields(r->Ok_0, data@),
            data@.len() < VALUE_KEY_MIN_SIZE ==> (r matches Err(
                RegistryError::TruncatedData { offset: o, expected: e, actual: a },
            ) && o == offset && e == VALUE_KEY_MIN_SIZE && a == data@.len()),
            data@.len() >= VALUE_KEY_MIN_SIZE && data@.subrange(0, 2) != vk_bytes() ==> (r matches Err(
                RegistryError::InvalidFormat(_),
            )),
            data@.len() >= VALUE_KEY_MIN_SIZE && data@.subrange(0, 2) == vk_bytes() && 0x14
                + u16_le(data@, 0x02) > data@.len() ==> (r matches Err(
                RegistryError::TruncatedData { offset: o, expected: e, actual: a },
            ) && o == offset && e == 0x14 + u16_le(data@, 0x02) && a == data@.len()),
            value_key_shape_ok(data@) && value_name(data@) is None ==> (r matches Err(
                RegistryError::InvalidUtf16 { offset: o },
            ) && o == offset),
    {
        if data.len() < VALUE_KEY_MIN_SIZE {
            return Err(
                RegistryError::TruncatedData {
                    offset,
                    expected: VALUE_KEY_MIN_SIZE,
                    actual: data.len(),
                },
            );
        }
        if !(data[0] == 0x76 && data[1] == 0x6b) {
            assert(data@.subrange(0, 2) != vk_bytes()) by {
                assert(data@.subrange(0, 2)[0] == data@[0]);
                assert(data@.subrange(0, 2)[1] == data@[1]);
            }
            return Err(RegistryError::InvalidFormat("expected a 'vk' signature".to_owned()));
        }
        assert(data@.subrange(0, 2) =~= vk_bytes());
        let name_length = u16_at(data, 0x02);
        let raw_length = u32_at(data, 0x04);
        let data_length = raw_length & 0x7FFF_FFFF;
        assert(raw_length & 0x7FFF_FFFF <= 0x7FFF_FFFF) by (bit_vector);
        let data_offset = u32_at(data, 0x08);
        let data_type = match ValueType::from_u32(u32_at(data, 0x0C)) {
            Ok(t) => t,
            Err(e) => {
                return Err(e);
            },
        };
        let flags = u16_at(data, 0x10);
        let name_end: usize = VALUE_NAME_OFFSET + name_length as usize;
        if name_end > data.len() {
            return Err(RegistryError::TruncatedData { offset, expected: name_end, actual: data.len() });
        }
        let name = if name_length > 0 {
            let name_data = &data[VALUE_NAME_OFFSET..name_end];
            if (flags & 0x0001) != 0 {
                read_ascii_string(name_data)
            } else {
                match read_utf16_string(name_data, offset) {
                    Ok(s) => s,
                    Err(e) => {
                        return Err(e);
                    },
                }
            }
        } else {
            "(default)".to_owned()
        };
        Ok(ValueKey { name_length, data_length, data_offset, data_type, flags, name })
    }

    /// True if the data is stored in the data-offset word itself (1 to 4 octets).
    pub fn is_inline_data(&self) -> (r: bool)
        ensures
            r == (1 <= self.data_length <= 4),
    {
        self.data_length <= 4 && self.data_length > 0
    }

    /// The inline data: the first `data_length` octets of the data-offset word.
    pub fn inline_data(&self) -> (r: Vec<u8>)
        requires
            self.data_length <= 4,
        ensures
            r@ == u32_bytes(self.data_offset).take(self.data_length as int),
    {
        let bytes = u32_to_le_bytes(self.data_offset);
        let mut out: Vec<u8> = Vec::new();
        let mut i: usize = 0;
        while i < self.data_length as usize
            invariant
                i <= self.data_length <= 4,
                bytes@ == u32_bytes(self.data_offset),
                out@ == bytes@.take(i as int),
            decreases self.data_length - i,
        {
            out.push(bytes[i]);
            i = i + 1;
        }
        out
    }
}

/// Two value keys parsed from the same payload agree on every structural
/// attribute: lengths, offsets, type, flags and name.
pub proof fn lemma_value_key_reparse(d: Seq<u8>, a: ValueKey, b: ValueKey)
    requires
        value_key_fields(a, d),
        value_key_fields(b, d),
    ensures
        a.name_length == b.name_length,
        a.data_length == b.data_length,
        a.data_offset == b.data_offset,
        a.data_type == b.data_type,
        a.flags == b.flags,
        a.name@ == b.name@,
{
}

/// Parsed registry value data.
#[derive(Debug, Clone)]
pub enum ValueData {
    /// No data.
    RegNone,
    /// String.
    String(String),
    /// String with environment-variable references.
    ExpandString(String),
    /// Symbolic link target.
    Link(String),
    /// Binary data.
    Binary(Vec<u8>),
    /// 32-bit integer stored little-endian.
    Dword(u32),
    /// 32-bit integer stored big-endian.
    DwordBigEndian(u32),
    /// Sequence of strings.
    MultiString(Vec<String>),
    /// 64-bit integer stored little-endian.
    Qword(u64),
    /// Data of any other type, as stored.
    Unknown(Vec<u8>),
}

/// State after splitting `s` at NULs: the non-empty parts closed so far, and
/// the part still open.
pub open spec fn nul_split_state(s: Seq<char>) -> (Seq<Seq<char>>, Seq<char>)
    decreases s.len(),
{
    if s.len() == 0 {
        (Seq::empty(), Seq::empty())
    } else {
        let (done, cur) = nul_split_state(s.drop_last());
        if s.last() == '\0' {
            if cur.len() > 0 {
                (done.push(cur), Seq::empty())
            } else {
                (done, Seq::empty())
            }
        } else {
            (done, cur.push(s.last()))
        }
    }
}

/// The non-empty parts of `s` between NULs, in order.
pub open spec fn nul_parts(s: Seq<char>) -> Seq<Seq<char>> {
    let (done, cur) = nul_split_state(s);
    if cur.len() > 0 {
        done.push(cur)
    } else {
        done
    }
}

/// The texts that a list of strings holds.
pub open spec fn texts(v: Seq<String>) -> Seq<Seq<char>> {
    v.map_values(|x: String| x@)
}

/// True for the types whose data is UTF-16LE text.
pub open spec fn is_text_type(t: ValueType) -> bool {
    t is String || t is ExpandString || t is Link || t is MultiString
}

/// True when decoding non-empty data of type `t` fails.
pub open spec fn value_data_fails(d: Seq<u8>, t: ValueType) -> bool {
    d.len() > 0 && match t {
        ValueType::String | ValueType::ExpandString | ValueType::Link | ValueType::MultiString => utf16_text(d) is None,
        ValueType::Dword | ValueType::DwordBigEndian => d.len() < 4,
        ValueType::Qword => d.len() < 8,
        _ => false,
    }
}

/// True when `v` is what the data `d` of type `t` decodes to.
pub open spec fn value_data_decodes(v: ValueData, d: Seq<u8>, t: ValueType) -> bool {
    if d.len() == 0 {
        v is RegNone
    } else {
        match t {
            ValueType::RegNone => v is RegNone,
            ValueType::String => v matches ValueData::String(x) && x@ == utf16_text(d)->Some_0,
            ValueType::ExpandString => v matches ValueData::ExpandString(x) && x@ == utf16_text(d)->Some_0,
            ValueType::Link => v matches ValueData::Link(x) && x@ == utf16_text(d)->Some_0,
            ValueType::Binary => v matches ValueData::Binary(x) && x@ == d,
            ValueType::Dword => v == ValueData::Dword(u32_le(d, 0)),
            ValueType::DwordBigEndian => v == ValueData::DwordBigEndian(u32_be(d, 0)),
            ValueType::Qword => v == ValueData::Qword(u64_le(d, 0)),
            ValueType::MultiString => v matches ValueData::MultiString(x) && texts(x@) == nul_parts(
                utf16_text(d)->Some_0,
            ),
            _ => v matches ValueData::Unknown(x) && x@ == d,
        }
    }
}

/// Splits `chars` at NULs, keeping the non-empty parts.
fn split_at_nuls(chars: &Vec<char>) -> (r: Vec<String>)
    ensures
        texts(r@) == nul_parts(chars@),
{
    let mut done: Vec<String> = Vec::new();
    let mut cur: Vec<char> = Vec::new();
    let mut i: usize = 0;
    while i < chars.len()
        invariant
            i <= chars@.len(),
            (texts(done@), cur@) == nul_split_state(chars@.take(i as int)),
        decreases chars@.len() - i,
    {
        let c = chars[i];
        assert(chars@.take(i as int + 1).drop_last() =~= chars@.take(i as int));
        assert(chars@.take(i as int + 1).last() == c);
        if c == '\0' {
            if cur.len() > 0 {
                let part = string_from_chars(&cur);
                done.push(part);
                assert(texts(done@) =~= texts(done@.drop_last()).push(part@));
            }
            cur = Vec::new();
        } else {
            cur.push(c);
        }
        i = i + 1;
    }
    assert(chars@.take(chars@.len() as int) =~= chars@);
    if cur.len() > 0 {
        let part = string_from_chars(&cur);
        done.push(part);
        assert(texts(done@) =~= texts(done@.drop_last()).push(part@));
    }
    done
}

impl ValueData {
    /// Decodes value data of the given type; `offset` is reported in errors.
    pub fn parse(data: &[u8], value_type: ValueType, offset: u32) -> (r: Result<Self>)
        requires
            data@.len() <= u32::MAX,
        ensures
            r is Ok <==> !value_data_fails(data@, value_type),
            r is Ok ==> value_data_decodes(r->Ok_0, data@, value_type),
            value_data_fails(data@, value_type) && is_text_type(value_type) ==> (r matches Err(
                RegistryError::InvalidUtf16 { offset: o },
            ) && o == offset),
            value_data_fails(data@, value_type) && (value_type is Dword || value_type is DwordBigEndian)
                ==> (r matches Err(RegistryError::TruncatedData { offset: o, expected: e, actual: a })
                && o == offset && e == 4 && a == data@.len()),
            value_data_fails(data@, value_type) && value_type is Qword ==> (r matches Err(
                RegistryError::TruncatedData { offset: o, expected: e, actual: a },
            ) && o == offset && e == 8 && a == data@.len()),
    {
        if data.len() == 0 {
            return Ok(ValueData::RegNone);
        }
        match value_type {
            ValueType::RegNone => Ok(ValueData::RegNone),
            ValueType::String => match read_utf16_string(data, offset) {
                Ok(s) => Ok(ValueData::String(s)),
                Err(e) => Err(e),
            },
            ValueType::ExpandString => match read_utf16_string(data, offset) {
                Ok(s) => Ok(ValueData::ExpandString(s)),
                Err(e) => Err(e),
            },
            ValueType::Link => match read_utf16_string(data, offset) {
                Ok(s) => Ok(ValueData::Link(s)),
                Err(e) => Err(e),
            },
            ValueType::Binary => Ok(ValueData::Binary(vstd::slice::slice_to_vec(data))),
            ValueType::Dword => {
                if data.len() < 4 {
                    return Err(RegistryError::TruncatedData { offset, expected: 4, actual: data.len() });
                }
                Ok(ValueData::Dword(u32_at(data, 0)))
            },
            ValueType::DwordBigEndian => {
                if data.len() < 4 {
                    return Err(RegistryError::TruncatedData { offset, expected: 4, actual: data.len() });
                }
                let v = ((data[0] as u32) << 24u32) | ((data[1] as u32) << 16u32) | ((data[2] as u32) << 8u32) | (data[3] as u32);
                Ok(ValueData::DwordBigEndian(v))
            },
            ValueType::Qword => {
                if data.len() < 8 {
                    return Err(RegistryError::TruncatedData { offset, expected: 8, actual: data.len() });
                }
                Ok(ValueData::Qword(u64_at(data, 0)))
            },
            ValueType::MultiString => match utf16_chars(data, offset) {
                Ok(chars) => Ok(ValueData::MultiString(split_at_nuls(&chars))),
                Err(e) => Err(e),
            },
            _ => Ok(ValueData::Unknown(vstd::slice::slice_to_vec(data))),
        }
    }
}

/// What `format!("{:02X?}", b)` writes for a byte list.
pub uninterp spec fn bytes_label(b: Seq<u8>) -> Seq<char>;

/// What `format!("{} (0x{:08X})", d, d)` writes for a 32-bit number.
pub uninterp spec fn dword_label(d: u32) -> Seq<char>;

/// What `format!("{} (0x{:016X})", q, q)` writes for a 64-bit number.
pub uninterp spec fn qword_label(q: u64) -> Seq<char>;

/// Relies on `format!` with `{:02X?}`: the text depends on the bytes alone.
#[verifier::external_body]
fn format_bytes(b: &Vec<u8>) -> (r: String)
    ensures
        r@ == bytes_label(b@),
{
    format!("{:02X?}", b)
}

/// Relies on `format!` with `{} (0x{:08X})`: the text depends on the number alone.
#[verifier::external_body]
fn format_dword(d: u32) -> (r: String)
    ensures
        r@ == dword_label(d),
{
    format!("{} (0x{:08X})", d, d)
}

/// Relies on `format!` with `{} (0x{:016X})`: the text depends on the number alone.
#[verifier::external_body]
fn format_qword(q: u64) -> (r: String)
    ensures
        r@ == qword_label(q),
{
    format!("{} (0x{:016X})", q, q)
}

/// The parts joined with `", "` between them.
pub open spec fn join_comma(parts: Seq<Seq<char>>) -> Seq<char>
    decreases parts.len(),
{
    if parts.len() == 0 {
        Seq::empty()
    } else if parts.len() == 1 {
        parts[0]
    } else {
        join_comma(parts.drop_last()) + ", "@ + parts.last()
    }
}

/// The text that `to_string` gives for each kind of value data.
pub open spec fn value_data_text(v: ValueData) -> Seq<char> {
    match v {
        ValueData::RegNone => "(none)"@,
        ValueData::String(s) => s@,
        ValueData::ExpandString(s) => s@,
        ValueData::Link(s) => s@,
        ValueData::Binary(b) => bytes_label(b@),
        ValueData::Dword(d) => dword_label(d),
        ValueData::DwordBigEndian(d) => dword_label(d),
        ValueData::Qword(q) => qword_label(q),
        ValueData::MultiString(l) => join_comma(texts(l@)),
        ValueData::Unknown(b) => bytes_label(b@),
    }
}

fn join_with_comma(parts: &Vec<String>) -> (r: String)
    ensures
        r@ == join_comma(texts(parts@)),
{
    let mut out = String::new();
    let mut i: usize = 0;
    while i < parts.len()
        invariant
            i <= parts@.len(),
            out@ == join_comma(texts(parts@.take(i as int))),
        decreases parts@.len() - i,
    {
        assert(texts(parts@.take(i as int + 1)).drop_last() =~= texts(parts@.take(i as int)));
        assert(texts(parts@.take(i as int + 1)).last() == parts@[i as int]@);
        if i > 0 {
            out.append(", ");
        }
        out.append(parts[i].as_str());
        i = i + 1;
    }
    assert(parts@.take(parts@.len() as int) =~= parts@);
    out
}

impl ValueData {
    /// A text rendering of the value data.
    pub fn to_string(&self) -> (r: String)
        ensures
            r@ == value_data_text(*self),
    {
        match self {
            ValueData::RegNone => "(none)".to_owned(),
            ValueData::String(s) => s.clone(),
            ValueData::ExpandString(s) => s.clone(),
            ValueData::Link(s) => s.clone(),
            ValueData::Binary(b) => format_bytes(b),
            ValueData::Dword(d) => format_dword(*d),
            ValueData::DwordBigEndian(d) => format_dword(*d),
            ValueData::Qword(q) => format_qword(*q),
            ValueData::MultiString(l) => join_with_comma(l),
            ValueData::Unknown(b) => format_bytes(b),
        }
    }
}

} // verus!
