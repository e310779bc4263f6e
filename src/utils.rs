//! Primitive decoders: little-endian integers, strings, offsets and the
//! base-block checksum.

use vstd::prelude::*;

use crate::error::{RegistryError, Result};

verus! {

/// Offset where the hive bins start (after the base block).
pub const HBIN_START_OFFSET: u32 = 0x1000;

/// Number of 32-bit words covered by the base-block checksum.
pub const CHECKSUM_WORDS: usize = 127;

/// The 16-bit little-endian integer at octet `i` of `s`.
pub open spec fn u16_le(s: Seq<u8>, i: int) -> u16 {
    (s[i] as u16) | ((s[i + 1] as u16) << 8u16)
}

/// The 32-bit little-endian integer at octet `i` of `s`.
pub open spec fn u32_le(s: Seq<u8>, i: int) -> u32 {
    (s[i] as u32) | ((s[i + 1] as u32) << 8u32) | ((s[i + 2] as u32) << 16u32) | ((s[i + 3]
        as u32) << 24u32)
}

/// The 64-bit little-endian integer at octet `i` of `s`.
pub open spec fn u64_le(s: Seq<u8>, i: int) -> u64 {
    (u32_le(s, i) as u64) | ((u32_le(s, i + 4) as u64) << 32u64)
}

/// The 32-bit big-endian integer at octet `i` of `s`.
pub open spec fn u32_be(s: Seq<u8>, i: int) -> u32 {
    ((s[i] as u32) << 24u32) | ((s[i + 1] as u32) << 16u32) | ((s[i + 2] as u32) << 8u32) | (s[i
        + 3] as u32)
}

/// True when `count` octets can be read at `offset` of a sequence of `len` octets.
pub open spec fn fits(len: int, offset: int, count: int) -> bool {
    offset + count <= len
}

/// The error a reader returns when fewer than `expected` octets remain at `offset`.
pub open spec fn is_truncated(e: RegistryError, offset: usize, expected: usize, len: usize) -> bool {
    e matches RegistryError::TruncatedData { offset: o, expected: x, actual: a } && o == offset
        as u32 && x == expected && a == (if offset <= len { len - offset } else { 0 })
}

/// Reads the octets at `offset..offset + 4` as a little-endian `u32`.
pub fn read_u32_le(data: &[u8], offset: usize) -> (r: Result<u32>)
    ensures
        fits(data@.len() as int, offset as int, 4) ==> r == Ok::<u32, RegistryError>(
            u32_le(data@, offset as int),
        ),
        !fits(data@.len() as int, offset as int, 4) ==> r is Err && is_truncated(
            r->Err_0,
            offset,
            4,
            data@.len() as usize,
        ),
{
    if offset > data.len() || data.len() - offset < 4 {
        let actual: usize = if offset <= data.len() {
            data.len() - offset
        } else {
            0
        };
        return Err(RegistryError::TruncatedData { offset: offset as u32, expected: 4, actual });
    }
    Ok((data[offset] as u32) | ((data[offset + 1] as u32) << 8u32) | ((data[offset + 2] as u32)
        << 16u32) | ((data[offset + 3] as u32) << 24u32))
}

/// Reads the octets at `offset..offset + 2` as a little-endian `u16`.
pub fn read_u16_le(data: &[u8], offset: usize) -> (r: Result<u16>)
    ensures
        fits(data@.len() as int, offset as int, 2) ==> r == Ok::<u16, RegistryError>(
            u16_le(data@, offset as int),
        ),
        !fits(data@.len() as int, offset as int, 2) ==> r is Err && is_truncated(
            r->Err_0,
            offset,
            2,
            data@.len() as usize,
        ),
{
    if offset > data.len() || data.len() - offset < 2 {
        let actual: usize = if offset <= data.len() {
            data.len() - offset
        } else {
            0
        };
        return Err(RegistryError::TruncatedData { offset: offset as u32, expected: 2, actual });
    }
    Ok((data[offset] as u16) | ((data[offset + 1] as u16) << 8u16))
}

/// Reads the octets at `offset..offset + 4` as a little-endian `i32`.
pub fn read_i32_le(data: &[u8], offset: usize) -> (r: Result<i32>)
    ensures
        fits(data@.len() as int, offset as int, 4) ==> r == Ok::<i32, RegistryError>(
            u32_le(data@, offset as int) as i32,
        ),
        !fits(data@.len() as int, offset as int, 4) ==> r is Err && is_truncated(
            r->Err_0,
            offset,
            4,
            data@.len() as usize,
        ),
{
    match read_u32_le(data, offset) {
        Ok(v) => Ok(v as i32),
        Err(e) => Err(e),
    }
}

/// The little-endian `u32` at `offset`, for callers that have checked the bounds.
pub(crate) fn u32_at(data: &[u8], offset: usize) -> (r: u32)
    requires
        offset + 4 <= data@.len(),
    ensures
        r == u32_le(data@, offset as int),
{
    (data[offset] as u32) | ((data[offset + 1] as u32) << 8u32) | ((data[offset + 2] as u32)
        << 16u32) | ((data[offset + 3] as u32) << 24u32)
}

/// The little-endian `u16` at `offset`, for callers that have checked the bounds.
pub(crate) fn u16_at(data: &[u8], offset: usize) -> (r: u16)
    requires
        offset + 2 <= data@.len(),
    ensures
        r == u16_le(data@, offset as int),
{
    (data[offset] as u16) | ((data[offset + 1] as u16) << 8u16)
}

/// The little-endian `u64` at `offset`, for callers that have checked the bounds.
pub(crate) fn u64_at(data: &[u8], offset: usize) -> (r: u64)
    requires
        offset + 8 <= data@.len(),
    ensures
        r == u64_le(data@, offset as int),
{
    let len = data.len();
    assert(offset + 8 <= len);
    let high_at: usize = offset + 4;
    (u32_at(data, offset) as u64) | ((u32_at(data, high_at) as u64) << 32u64)
}

/// The `k`-th 32-bit word of `s`, or zero where the word does not fit.
pub open spec fn word_at(s: Seq<u8>, k: int) -> u32 {
    if 4 * k + 4 <= s.len() {
        u32_le(s, 4 * k)
    } else {
        0
    }
}

/// XOR of the first `n` 32-bit words of `s`.
pub open spec fn xor_words(s: Seq<u8>, n: nat) -> u32
    decreases n,
{
    if n == 0 {
        0
    } else {
        xor_words(s, (n - 1) as nat) ^ word_at(s, n - 1)
    }
}

/// The base-block checksum of `s`: XOR of the words in octets `0x000..0x1FC`.
pub open spec fn checksum_of(s: Seq<u8>) -> u32 {
    xor_words(s, 127)
}

/// Computes the XOR checksum of the base block.
pub fn calculate_checksum(data: &[u8]) -> (r: u32)
    ensures
        r == checksum_of(data@),
{
    let mut checksum: u32 = 0;
    let mut k: usize = 0;
    while k < CHECKSUM_WORDS
        invariant
            k <= CHECKSUM_WORDS,
            checksum == xor_words(data@, k as nat),
        decreases CHECKSUM_WORDS - k,
    {
        let i: usize = 4 * k;
        if i + 4 <= data.len() {
            checksum = checksum ^ u32_at(data, i);
        } else {
            checksum = checksum ^ 0;
        }
        k = k + 1;
    }
    checksum
}

/// A word XORed with itself is zero: folding a checksum into itself cancels it.
pub proof fn lemma_checksum_self_cancels(s: Seq<u8>)
    ensures
        checksum_of(s) ^ checksum_of(s) == 0,
{
    let c = checksum_of(s);
    assert(c ^ c == 0) by (bit_vector);
}

/// Two images that agree on octets `0..4n` have the same XOR of their first `n` words.
pub proof fn lemma_xor_words_prefix(s: Seq<u8>, t: Seq<u8>, n: nat)
    requires
        s.len() >= 4 * n,
        t.len() >= 4 * n,
        forall|i: int| 0 <= i < 4 * n ==> s[i] == t[i],
    ensures
        xor_words(s, n) == xor_words(t, n),
    decreases n,
{
    if n > 0 {
        lemma_xor_words_prefix(s, t, (n - 1) as nat);
        let k = n - 1;
        assert(s[4 * k] == t[4 * k]);
        assert(s[4 * k + 1] == t[4 * k + 1]);
        assert(s[4 * k + 2] == t[4 * k + 2]);
        assert(s[4 * k + 3] == t[4 * k + 3]);
    }
}

/// The cell offset `cell` as an absolute offset, when it fits in 32 bits.
pub open spec fn cell_to_absolute(cell: u32) -> Option<u32> {
    if cell as int + HBIN_START_OFFSET as int <= u32::MAX as int {
        Some((cell + HBIN_START_OFFSET) as u32)
    } else {
        None
    }
}

/// The absolute offset `abs` as a cell offset, when it lies at or past the first bin.
pub open spec fn absolute_to_cell(abs: u32) -> Option<u32> {
    if abs >= HBIN_START_OFFSET {
        Some((abs - HBIN_START_OFFSET) as u32)
    } else {
        None
    }
}

/// Converts a cell offset (relative to the first hbin) to an absolute offset.
pub fn cell_offset_to_absolute(cell_offset: u32) -> (r: Result<u32>)
    ensures
        cell_to_absolute(cell_offset) is Some ==> r == Ok::<u32, RegistryError>(
            cell_to_absolute(cell_offset)->Some_0,
        ),
        cell_to_absolute(cell_offset) is None ==> (r matches Err(
            RegistryError::InvalidOffset { offset: o, hive_size: h },
        ) && o == cell_offset && h == 0),
{
    if cell_offset <= u32::MAX - HBIN_START_OFFSET {
        Ok(cell_offset + HBIN_START_OFFSET)
    } else {
        Err(RegistryError::InvalidOffset { offset: cell_offset, hive_size: 0 })
    }
}

/// Converts an absolute offset to a cell offset (relative to the first hbin).
pub fn absolute_to_cell_offset(absolute_offset: u32) -> (r: Result<u32>)
    ensures
        absolute_to_cell(absolute_offset) is Some ==> r == Ok::<u32, RegistryError>(
            absolute_to_cell(absolute_offset)->Some_0,
        ),
        absolute_to_cell(absolute_offset) is None ==> (r matches Err(
            RegistryError::InvalidFormat(_),
        )),
{
    if absolute_offset < HBIN_START_OFFSET {
        return Err(RegistryError::InvalidFormat("absolute offset lies before the first hbin".to_owned()));
    }
    Ok(absolute_offset - HBIN_START_OFFSET)
}

/// Converting a cell offset to an absolute one and back gives the cell offset
/// again, for every offset whose sum with 0x1000 fits in 32 bits.
pub proof fn lemma_offset_round_trip(x: u32)
    requires
        x as int + HBIN_START_OFFSET as int <= u32::MAX as int,
    ensures
        cell_to_absolute(x) is Some,
        absolute_to_cell(cell_to_absolute(x)->Some_0) == Some(x),
{
}

/// The largest cell offset and every absolute offset before the first bin are
/// rejected.
pub proof fn lemma_offset_limits()
    ensures
        cell_to_absolute(u32::MAX) is None,
        absolute_to_cell(0x0FFF) is None,
{
}

/// What `String::from_utf8_lossy` makes of a byte sequence.
pub uninterp spec fn utf8_lossy(b: Seq<u8>) -> Seq<char>;

/// What `encoding_rs::UTF_16LE.decode` makes of a byte sequence: the decoded
/// characters, and whether malformed sequences were replaced.
pub uninterp spec fn utf16le_decoding(b: Seq<u8>) -> (Seq<char>, bool);

/// Relies on `String::from_utf8_lossy`: the text depends on the bytes alone, and
/// no bytes give no text.
#[verifier::external_body]
fn decode_utf8_lossy(b: &[u8]) -> (r: Vec<char>)
    ensures
        r@ == utf8_lossy(b@),
        b@.len() == 0 ==> r@.len() == 0,
{
    String::from_utf8_lossy(b).chars().collect()
}

/// Relies on `encoding_rs::Encoding::decode` with `UTF_16LE`: the characters and
/// the malformed-input flag depend on the bytes alone. The decoder sizes its
/// buffer with checked arithmetic that fails only for inputs near `usize::MAX`.
#[verifier::external_body]
fn decode_utf16le(b: &[u8]) -> (r: (Vec<char>, bool))
    requires
        b@.len() <= u32::MAX,
    ensures
        (r.0@, r.1) == utf16le_decoding(b@),
{
    let (text, _encoding, had_errors) = encoding_rs::UTF_16LE.decode(b);
    (text.chars().collect(), had_errors)
}

/// Relies on `String::push`: the character is appended at the end.
pub assume_specification[ std::string::String::push ](s: &mut std::string::String, ch: char)
    ensures
        final(s)@ == old(s)@.push(ch),
;

/// A string holding the characters of `v` in order.
pub(crate) fn string_from_chars(v: &Vec<char>) -> (r: String)
    ensures
        r@ == v@,
{
    let mut out = String::new();
    let mut i: usize = 0;
    while i < v.len()
        invariant
            i <= v@.len(),
            out@ == v@.take(i as int),
        decreases v@.len() - i,
    {
        out.push(v[i]);
        i = i + 1;
        assert(out@ =~= v@.take(i as int));
    }
    assert(v@.take(v@.len() as int) =~= v@);
    out
}

/// `s` without its trailing NUL characters.
pub open spec fn trim_trailing_nuls(s: Seq<char>) -> Seq<char>
    decreases s.len(),
{
    if s.len() > 0 && s.last() == '\0' {
        trim_trailing_nuls(s.drop_last())
    } else {
        s
    }
}

/// Removes the trailing NUL characters of `v`.
fn pop_trailing_nuls(v: &mut Vec<char>)
    ensures
        final(v)@ == trim_trailing_nuls(old(v)@),
{
    while v.len() > 0 && v[v.len() - 1] == '\0'
        invariant
            trim_trailing_nuls(v@) == trim_trailing_nuls(old(v)@),
        decreases v@.len(),
    {
        v.pop();
    }
}

/// Decodes bytes as UTF-8, replacing invalid sequences, and trims trailing NULs.
/// Embedded NULs are kept.
pub fn read_ascii_string(data: &[u8]) -> (r: String)
    ensures
        r@ == trim_trailing_nuls(utf8_lossy(data@)),
{
    let mut chars = decode_utf8_lossy(data);
    pop_trailing_nuls(&mut chars);
    string_from_chars(&chars)
}

/// The text of a UTF-16LE byte sequence with trailing NULs trimmed, or `None`
/// where the length is odd or the sequence is malformed.
pub open spec fn utf16_text(b: Seq<u8>) -> Option<Seq<char>> {
    if b.len() == 0 {
        Some(Seq::empty())
    } else if b.len() % 2 != 0 || utf16le_decoding(b).1 {
        None
    } else {
        Some(trim_trailing_nuls(utf16le_decoding(b).0))
    }
}

/// Decodes UTF-16LE octets to characters and trims trailing NULs.
pub(crate) fn utf16_chars(data: &[u8], offset: u32) -> (r: Result<Vec<char>>)
    requires
        data@.len() <= u32::MAX,
    ensures
        utf16_text(data@) is Some ==> (r is Ok && r->Ok_0@ == utf16_text(data@)->Some_0),
        utf16_text(data@) is None ==> (r matches Err(RegistryError::InvalidUtf16 { offset: o })
            && o == offset),
{
    if data.len() == 0 {
        return Ok(Vec::new());
    }
    if data.len() % 2 != 0 {
        return Err(RegistryError::InvalidUtf16 { offset });
    }
    let (mut chars, had_errors) = decode_utf16le(data);
    if had_errors {
        return Err(RegistryError::InvalidUtf16 { offset });
    }
    pop_trailing_nuls(&mut chars);
    Ok(chars)
}

/// Decodes a UTF-16LE string and trims trailing NULs.
pub fn read_utf16_string(data: &[u8], offset: u32) -> (r: Result<String>)
    requires
        data@.len() <= u32::MAX,
    ensures
        utf16_text(data@) is Some ==> (r is Ok && r->Ok_0@ == utf16_text(data@)->Some_0),
        utf16_text(data@) is None ==> (r matches Err(RegistryError::InvalidUtf16 { offset: o })
            && o == offset),
{
    match utf16_chars(data, offset) {
        Ok(chars) => Ok(string_from_chars(&chars)),
        Err(e) => Err(e),
    }
}

/// True for the characters that Unicode marks `White_Space`.
pub open spec fn is_white(c: char) -> bool {
    let u = c as u32;
    (0x09 <= u <= 0x0D) || u == 0x20 || u == 0x85 || u == 0xA0 || u == 0x1680 || (0x2000 <= u
        <= 0x200A) || u == 0x2028 || u == 0x2029 || u == 0x202F || u == 0x205F || u == 0x3000
}

fn char_is_white(c: char) -> (r: bool)
    ensures
        r == is_white(c),
{
    let u = c as u32;
    (0x09 <= u && u <= 0x0D) || u == 0x20 || u == 0x85 || u == 0xA0 || u == 0x1680 || (0x2000
        <= u && u <= 0x200A) || u == 0x2028 || u == 0x2029 || u == 0x202F || u == 0x205F || u
        == 0x3000
}

/// The character that a fixed-width field shows for one octet: NUL reads as a space.
pub open spec fn fixed_char(b: u8) -> char {
    if b == 0 {
        ' '
    } else {
        b as char
    }
}

/// The number of leading white-space characters of `s`.
pub open spec fn leading_white(s: Seq<char>) -> nat
    decreases s.len(),
{
    if s.len() > 0 && is_white(s[0]) {
        1 + leading_white(s.drop_first())
    } else {
        0
    }
}

/// The number of trailing white-space characters of `s`.
pub open spec fn trailing_white(s: Seq<char>) -> nat
    decreases s.len(),
{
    if s.len() > 0 && is_white(s.last()) {
        1 + trailing_white(s.drop_last())
    } else {
        0
    }
}

/// `s` without leading and trailing white space.
pub open spec fn trim_white(s: Seq<char>) -> Seq<char> {
    let t = s.subrange(0, s.len() - trailing_white(s));
    t.subrange(leading_white(t) as int, t.len() as int)
}

/// The first `len` octets of `data` shown as characters, NUL as a space.
pub open spec fn fixed_chars(data: Seq<u8>, len: nat) -> Seq<char> {
    let n = if len < data.len() {
        len as int
    } else {
        data.len() as int
    };
    Seq::new(n as nat, |i: int| fixed_char(data[i]))
}

proof fn lemma_trailing_white_exact(s: Seq<char>, k: nat)
    requires
        k <= s.len(),
        forall|i: int| s.len() - k <= i < s.len() ==> is_white(#[trigger] s[i]),
        k < s.len() ==> !is_white(s[s.len() - 1 - k]),
    ensures
        trailing_white(s) == k,
    decreases s.len(),
{
    if k > 0 {
        assert(is_white(s[s.len() - 1]));
        let t = s.drop_last();
        assert forall|i: int| t.len() - (k - 1) <= i < t.len() implies is_white(#[trigger] t[i]) by {
            assert(t[i] == s[i]);
        }
        if k - 1 < t.len() {
            assert(t[t.len() - 1 - (k - 1)] == s[s.len() - 1 - k]);
        }
        lemma_trailing_white_exact(t, (k - 1) as nat);
    } else if s.len() > 0 {
        assert(!is_white(s.last()));
    }
}

proof fn lemma_leading_white_exact(s: Seq<char>, k: nat)
    requires
        k <= s.len(),
        forall|i: int| 0 <= i < k ==> is_white(#[trigger] s[i]),
        k < s.len() ==> !is_white(s[k as int]),
    ensures
        leading_white(s) == k,
    decreases s.len(),
{
    if k > 0 {
        assert(is_white(s[0]));
        let t = s.drop_first();
        assert forall|i: int| 0 <= i < k - 1 implies is_white(#[trigger] t[i]) by {
            assert(t[i] == s[i + 1]);
        }
        if k - 1 < t.len() {
            assert(t[k - 1] == s[k as int]);
        }
        lemma_leading_white_exact(t, (k - 1) as nat);
    } else if s.len() > 0 {
        assert(!is_white(s[0]));
    }
}

/// Reads a fixed-width text field: the first `len` octets, NUL shown as a
/// space, with surrounding white space trimmed.
pub fn read_fixed_ascii(data: &[u8], len: usize) -> (r: String)
    ensures
        r@ == trim_white(fixed_chars(data@, len as nat)),
{
    let n: usize = if len < data.len() {
        len
    } else {
        data.len()
    };
    let ghost all = fixed_chars(data@, len as nat);
    let mut end: usize = n;
    while end > 0 && char_is_white(fixed_byte_char(data[end - 1]))
        invariant
            end <= n,
            n <= data@.len(),
            all.len() == n,
            forall|i: int| 0 <= i < n ==> all[i] == fixed_char(#[trigger] data@[i]),
            forall|i: int| end <= i < n ==> is_white(#[trigger] all[i]),
        decreases end,
    {
        end = end - 1;
    }
    proof {
        lemma_trailing_white_exact(all, (n - end) as nat);
    }
    let ghost t = all.subrange(0, end as int);
    let mut start: usize = 0;
    while start < end && char_is_white(fixed_byte_char(data[start]))
        invariant
            start <= end,
            end <= n,
            n <= data@.len(),
            t.len() == end,
            forall|i: int| 0 <= i < end ==> t[i] == fixed_char(#[trigger] data@[i]),
            forall|i: int| 0 <= i < start ==> is_white(#[trigger] t[i]),
        decreases end - start,
    {
        start = start + 1;
    }
    proof {
        lemma_leading_white_exact(t, start as nat);
    }
    let mut chars: Vec<char> = Vec::new();
    let mut i: usize = start;
    while i < end
        invariant
            start <= i <= end,
            end <= n,
            n <= data@.len(),
            t.len() == end,
            forall|j: int| 0 <= j < end ==> t[j] == fixed_char(#[trigger] data@[j]),
            chars@ == t.subrange(start as int, i as int),
        decreases end - i,
    {
        chars.push(fixed_byte_char(data[i]));
        i = i + 1;
    }
    assert(chars@ == trim_white(all));
    string_from_chars(&chars)
}

fn fixed_byte_char(b: u8) -> (r: char)
    ensures
        r == fixed_char(b),
{
    if b == 0 {
        ' '
    } else {
        b as char
    }
}

} // verus!
