//! Cell kinds, key-node flags and value types.

use vstd::prelude::*;

use crate::error::{RegistryError, Result};

verus! {

/// The kind of a cell, named by its two-octet signature.
#[derive(Debug, Clone, Copy, PartialEq, Eq, Structural)]
pub enum CellType {
    /// Key node (`nk`).
    KeyNode,
    /// Value key (`vk`).
    ValueKey,
    /// Security descriptor (`sk`).
    Security,
    /// Index leaf (`li`): a list of key offsets.
    IndexLeaf,
    /// Fast leaf (`lf`): key offsets with name hints.
    FastLeaf,
    /// Hash leaf (`lh`): key offsets with name hashes.
    HashLeaf,
    /// Index root (`ri`): a list of subkey-list offsets.
    IndexRoot,
    /// Big-data block (`db`).
    DataBlock,
}

/// The two-octet signature of each cell kind.
pub open spec fn cell_signature(t: CellType) -> Seq<u8> {
    match t {
        CellType::KeyNode => seq![0x6eu8, 0x6bu8],
        CellType::ValueKey => seq![0x76u8, 0x6bu8],
        CellType::Security => seq![0x73u8, 0x6bu8],
        CellType::IndexLeaf => seq![0x6cu8, 0x69u8],
        CellType::FastLeaf => seq![0x6cu8, 0x66u8],
        CellType::HashLeaf => seq![0x6cu8, 0x68u8],
        CellType::IndexRoot => seq![0x72u8, 0x69u8],
        CellType::DataBlock => seq![0x64u8, 0x62u8],
    }
}

/// The cell kind whose signature is `sig`, if any.
pub open spec fn cell_type_of(sig: Seq<u8>) -> Option<CellType> {
    if sig == cell_signature(CellType::KeyNode) {
        Some(CellType::KeyNode)
    } else if sig == cell_signature(CellType::ValueKey) {
        Some(CellType::ValueKey)
    } else if sig == cell_signature(CellType::Security) {
        Some(CellType::Security)
    } else if sig == cell_signature(CellType::IndexLeaf) {
        Some(CellType::IndexLeaf)
    } else if sig == cell_signature(CellType::FastLeaf) {
        Some(CellType::FastLeaf)
    } else if sig == cell_signature(CellType::HashLeaf) {
        Some(CellType::HashLeaf)
    } else if sig == cell_signature(CellType::IndexRoot) {
        Some(CellType::IndexRoot)
    } else if sig == cell_signature(CellType::DataBlock) {
        Some(CellType::DataBlock)
    } else {
        None
    }
}

pub(crate) fn sig_is(sig: &[u8; 2], a: u8, b: u8) -> (r: bool)
    ensures
        r == (sig@ == seq![a, b]),
{
    let r = sig[0] == a && sig[1] == b;
    assert(r ==> sig@ =~= seq![a, b]);
    r
}

impl CellType {
    /// Parses a cell kind from its two-octet signature.
    pub fn from_signature(sig: &[u8; 2]) -> (r: Result<Self>)
        ensures
            cell_type_of(sig@) is Some ==> r == Ok::<CellType, RegistryError>(
                cell_type_of(sig@)->Some_0,
            ),
            cell_type_of(sig@) is None ==> (r matches Err(
                RegistryError::UnknownCellType { cell_type: c, offset: o },
            ) && c == *sig && o == 0),
    {
        if sig_is(sig, 0x6e, 0x6b) {
            Ok(CellType::KeyNode)
        } else if sig_is(sig, 0x76, 0x6b) {
            Ok(CellType::ValueKey)
        } else if sig_is(sig, 0x73, 0x6b) {
            Ok(CellType::Security)
        } else if sig_is(sig, 0x6c, 0x69) {
            Ok(CellType::IndexLeaf)
        } else if sig_is(sig, 0x6c, 0x66) {
            Ok(CellType::FastLeaf)
        } else if sig_is(sig, 0x6c, 0x68) {
            Ok(CellType::HashLeaf)
        } else if sig_is(sig, 0x72, 0x69) {
            Ok(CellType::IndexRoot)
        } else if sig_is(sig, 0x64, 0x62) {
            Ok(CellType::DataBlock)
        } else {
            Err(RegistryError::unknown_cell_type(*sig, 0))
        }
    }

    /// The two-octet signature of this cell kind.
    pub fn signature(&self) -> (r: &'static [u8; 2])
        ensures
            r@ == cell_signature(*self),
    {
        let r: &'static [u8; 2] = match self {
            CellType::KeyNode => &[0x6e, 0x6b],
            CellType::ValueKey => &[0x76, 0x6b],
            CellType::Security => &[0x73, 0x6b],
            CellType::IndexLeaf => &[0x6c, 0x69],
            CellType::FastLeaf => &[0x6c, 0x66],
            CellType::HashLeaf => &[0x6c, 0x68],
            CellType::IndexRoot => &[0x72, 0x69],
            CellType::DataBlock => &[0x64, 0x62],
        };
        assert(r@ =~= cell_signature(*self));
        r
    }

    /// True for the four subkey-list kinds.
    pub fn is_subkey_list(&self) -> (r: bool)
        ensures
            r == (*self is IndexLeaf || *self is FastLeaf || *self is HashLeaf
                || *self is IndexRoot),
    {
        match self {
            CellType::IndexLeaf | CellType::FastLeaf | CellType::HashLeaf | CellType::IndexRoot => true,
            _ => false,
        }
    }
}

/// Every cell kind is recovered from its own signature.
pub proof fn lemma_cell_type_round_trip(t: CellType)
    ensures
        cell_type_of(cell_signature(t)) == Some(t),
{
    reveal_with_fuel(cell_type_of, 1);
    assert(cell_signature(CellType::KeyNode) != cell_signature(CellType::ValueKey));
    match t {
        CellType::KeyNode => {},
        CellType::ValueKey => {
            assert(cell_signature(t)[0] != cell_signature(CellType::KeyNode)[0]);
        },
        CellType::Security => {
            assert(cell_signature(t)[0] != cell_signature(CellType::KeyNode)[0]);
            assert(cell_signature(t)[0] != cell_signature(CellType::ValueKey)[0]);
        },
        CellType::IndexLeaf => {
            assert(cell_signature(t)[0] != cell_signature(CellType::KeyNode)[0]);
            assert(cell_signature(t)[0] != cell_signature(CellType::ValueKey)[0]);
            assert(cell_signature(t)[0] != cell_signature(CellType::Security)[0]);
        },
        CellType::FastLeaf => {
            assert(cell_signature(t)[0] != cell_signature(CellType::KeyNode)[0]);
            assert(cell_signature(t)[0] != cell_signature(CellType::ValueKey)[0]);
            assert(cell_signature(t)[0] != cell_signature(CellType::Security)[0]);
            assert(cell_signature(t)[1] != cell_signature(CellType::IndexLeaf)[1]);
        },
        CellType::HashLeaf => {
            assert(cell_signature(t)[0] != cell_signature(CellType::KeyNode)[0]);
            assert(cell_signature(t)[0] != cell_signature(CellType::ValueKey)[0]);
            assert(cell_signature(t)[0] != cell_signature(CellType::Security)[0]);
            assert(cell_signature(t)[1] != cell_signature(CellType::IndexLeaf)[1]);
            assert(cell_signature(t)[1] != cell_signature(CellType::FastLeaf)[1]);
        },
        CellType::IndexRoot => {
            assert(cell_signature(t)[0] != cell_signature(CellType::KeyNode)[0]);
            assert(cell_signature(t)[0] != cell_signature(CellType::ValueKey)[0]);
            assert(cell_signature(t)[0] != cell_signature(CellType::Security)[0]);
            assert(cell_signature(t)[0] != cell_signature(CellType::IndexLeaf)[0]);
            assert(cell_signature(t)[0] != cell_signature(CellType::FastLeaf)[0]);
            assert(cell_signature(t)[0] != cell_signature(CellType::HashLeaf)[0]);
        },
        CellType::DataBlock => {
            assert(cell_signature(t)[0] != cell_signature(CellType::KeyNode)[0]);
            assert(cell_signature(t)[0] != cell_signature(CellType::ValueKey)[0]);
            assert(cell_signature(t)[0] != cell_signature(CellType::Security)[0]);
            assert(cell_signature(t)[0] != cell_signature(CellType::IndexLeaf)[0]);
            assert(cell_signature(t)[0] != cell_signature(CellType::FastLeaf)[0]);
            assert(cell_signature(t)[0] != cell_signature(CellType::HashLeaf)[0]);
            assert(cell_signature(t)[0] != cell_signature(CellType::IndexRoot)[0]);
        },
    }
}

/// Flags of a key node.
#[derive(Debug, Clone, Copy)]
pub struct KeyNodeFlags(pub u16);

impl KeyNodeFlags {
    /// Key is volatile (not stored on disk).
    pub const VOLATILE: u16 = 0x0001;
    /// Key is a mount point for another hive.
    pub const HIVE_EXIT: u16 = 0x0002;
    /// Key is the root key.
    pub const ROOT_KEY: u16 = 0x0004;
    /// Key cannot be deleted.
    pub const NO_DELETE: u16 = 0x0008;
    /// Key is a symbolic link.
    pub const SYM_LINK: u16 = 0x0010;
    /// Key name is stored compressed (one octet per character).
    pub const COMP_NAME: u16 = 0x0020;
    /// Key is a predefined handle.
    pub const PREDEF_HANDLE: u16 = 0x0040;
    /// Key is a virtualisation source.
    pub const VIRT_SOURCE: u16 = 0x0080;
    /// Key is a virtualisation target.
    pub const VIRT_TARGET: u16 = 0x0100;
    /// Key is part of a virtual store.
    pub const VIRT_STORE: u16 = 0x0200;

    /// Wraps a raw flag word.
    pub fn new(flags: u16) -> (r: Self)
        ensures
            r.0 == flags,
    {
        KeyNodeFlags(flags)
    }

    /// True if any bit of `flag` is set.
    pub fn has_flag(&self, flag: u16) -> (r: bool)
        ensures
            r == (self.0 & flag != 0),
    {
        (self.0 & flag) != 0
    }

    /// True if the key name is compressed (one octet per character).
    pub fn is_compressed(&self) -> (r: bool)
        ensures
            r == (self.0 & 0x0020 != 0),
    {
        self.has_flag(Self::COMP_NAME)
    }

    /// True if the key is volatile.
    pub fn is_volatile(&self) -> (r: bool)
        ensures
            r == (self.0 & 0x0001 != 0),
    {
        self.has_flag(Self::VOLATILE)
    }

    /// True if the key is the root key.
    pub fn is_root(&self) -> (r: bool)
        ensures
            r == (self.0 & 0x0004 != 0),
    {
        self.has_flag(Self::ROOT_KEY)
    }
}

/// Registry value data types.
#[derive(Debug, Clone, Copy, PartialEq, Eq, Structural)]
pub enum ValueType {
    /// No value type.
    RegNone,
    /// String.
    String,
    /// String with environment-variable references.
    ExpandString,
    /// Binary data.
    Binary,
    /// 32-bit little-endian integer.
    Dword,
    /// 32-bit big-endian integer.
    DwordBigEndian,
    /// Symbolic link.
    Link,
    /// Sequence of strings.
    MultiString,
    /// Resource list.
    ResourceList,
    /// Full resource descriptor.
    FullResourceDescriptor,
    /// Resource requirements list.
    ResourceRequirementsList,
    /// 64-bit little-endian integer.
    Qword,
    /// Any other type code, kept as it was stored.
    Unknown(u32),
}

/// The value type that a stored type code denotes.
pub open spec fn value_type_of(code: u32) -> ValueType {
    if code == 0 {
        ValueType::RegNone
    } else if code == 1 {
        ValueType::String
    } else if code == 2 {
        ValueType::ExpandString
    } else if code == 3 {
        ValueType::Binary
    } else if code == 4 {
        ValueType::Dword
    } else if code == 5 {
        ValueType::DwordBigEndian
    } else if code == 6 {
        ValueType::Link
    } else if code == 7 {
        ValueType::MultiString
    } else if code == 8 {
        ValueType::ResourceList
    } else if code == 9 {
        ValueType::FullResourceDescriptor
    } else if code == 10 {
        ValueType::ResourceRequirementsList
    } else if code == 11 {
        ValueType::Qword
    } else {
        ValueType::Unknown(code)
    }
}

/// The type code that a value type is stored as.
pub open spec fn value_type_code(t: ValueType) -> u32 {
    match t {
        ValueType::RegNone => 0,
        ValueType::String => 1,
        ValueType::ExpandString => 2,
        ValueType::Binary => 3,
        ValueType::Dword => 4,
        ValueType::DwordBigEndian => 5,
        ValueType::Link => 6,
        ValueType::MultiString => 7,
        ValueType::ResourceList => 8,
        ValueType::FullResourceDescriptor => 9,
        ValueType::ResourceRequirementsList => 10,
        ValueType::Qword => 11,
        ValueType::Unknown(c) => c,
    }
}

/// What `format!("REG_UNKNOWN_{:#010x}", code)` writes for a type code.
pub uninterp spec fn unknown_type_label(code: u32) -> Seq<char>;

/// Relies on `format!` with `{:#010x}`: the label depends on the code alone.
#[verifier::external_body]
fn unknown_label(code: u32) -> (r: String)
    ensures
        r@ == unknown_type_label(code),
{
    format!("REG_UNKNOWN_{:#010x}", code)
}

/// The conventional name of each value type.
pub open spec fn value_type_name(t: ValueType) -> Seq<char> {
    match t {
        ValueType::RegNone => "REG_NONE"@,
        ValueType::String => "REG_SZ"@,
        ValueType::ExpandString => "REG_EXPAND_SZ"@,
        ValueType::Binary => "REG_BINARY"@,
        ValueType::Dword => "REG_DWORD"@,
        ValueType::DwordBigEndian => "REG_DWORD_BIG_ENDIAN"@,
        ValueType::Link => "REG_LINK"@,
        ValueType::MultiString => "REG_MULTI_SZ"@,
        ValueType::ResourceList => "REG_RESOURCE_LIST"@,
        ValueType::FullResourceDescriptor => "REG_FULL_RESOURCE_DESCRIPTOR"@,
        ValueType::ResourceRequirementsList => "REG_RESOURCE_REQUIREMENTS_LIST"@,
        ValueType::Qword => "REG_QWORD"@,
        ValueType::Unknown(c) => unknown_type_label(c),
    }
}

impl ValueType {
    /// Parses a value type from its stored code. Codes past the standard
    /// twelve are kept as `Unknown`; this never fails.
    pub fn from_u32(value: u32) -> (r: Result<Self>)
        ensures
            r == Ok::<ValueType, RegistryError>(value_type_of(value)),
    {
        let t = match value {
            0 => ValueType::RegNone,
            1 => ValueType::String,
            2 => ValueType::ExpandString,
            3 => ValueType::Binary,
            4 => ValueType::Dword,
            5 => ValueType::DwordBigEndian,
            6 => ValueType::Link,
            7 => ValueType::MultiString,
            8 => ValueType::ResourceList,
            9 => ValueType::FullResourceDescriptor,
            10 => ValueType::ResourceRequirementsList,
            11 => ValueType::Qword,
            _ => ValueType::Unknown(value),
        };
        Ok(t)
    }

    /// The stored type code of this value type.
    pub fn code(&self) -> (r: u32)
        ensures
            r == value_type_code(*self),
    {
        match self {
            ValueType::RegNone => 0,
            ValueType::String => 1,
            ValueType::ExpandString => 2,
            ValueType::Binary => 3,
            ValueType::Dword => 4,
            ValueType::DwordBigEndian => 5,
            ValueType::Link => 6,
            ValueType::MultiString => 7,
            ValueType::ResourceList => 8,
            ValueType::FullResourceDescriptor => 9,
            ValueType::ResourceRequirementsList => 10,
            ValueType::Qword => 11,
            ValueType::Unknown(c) => *c,
        }
    }

    /// The conventional name of this value type (`REG_SZ`, ...).
    pub fn name(&self) -> (r: String)
        ensures
            r@ == value_type_name(*self),
    {
        match self {
            ValueType::RegNone => "REG_NONE".to_owned(),
            ValueType::String => "REG_SZ".to_owned(),
            ValueType::ExpandString => "REG_EXPAND_SZ".to_owned(),
            ValueType::Binary => "REG_BINARY".to_owned(),
            ValueType::Dword => "REG_DWORD".to_owned(),
            ValueType::DwordBigEndian => "REG_DWORD_BIG_ENDIAN".to_owned(),
            ValueType::Link => "REG_LINK".to_owned(),
            ValueType::MultiString => "REG_MULTI_SZ".to_owned(),
            ValueType::ResourceList => "REG_RESOURCE_LIST".to_owned(),
            ValueType::FullResourceDescriptor => "REG_FULL_RESOURCE_DESCRIPTOR".to_owned(),
            ValueType::ResourceRequirementsList => "REG_RESOURCE_REQUIREMENTS_LIST".to_owned(),
            ValueType::Qword => "REG_QWORD".to_owned(),
            ValueType::Unknown(c) => unknown_label(*c),
        }
    }
}

/// Reading a type code and writing it back gives the same code; codes past the
/// standard twelve are kept as `Unknown` with that code.
pub proof fn lemma_value_type_round_trip(c: u32)
    ensures
        value_type_code(value_type_of(c)) == c,
        c > 11 ==> value_type_of(c) == ValueType::Unknown(c),
{
}

} // verus!
