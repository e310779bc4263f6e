//! Reader for the Windows Registry hive on-disk format.
//!
//! The library parses the 4 KiB base block, the hive bins and their cells, key
//! nodes, value keys, subkey lists and big-data blocks, and replays transaction
//! logs onto a hive image. Every parser works on a byte slice and states in its
//! contract which bytes it reads and which error it returns.

use vstd::prelude::*;

pub mod bigdata;
pub mod cell;
pub mod error;
pub mod hbin;
pub mod header;
pub mod hive;
pub mod key;
pub mod subkey_list;
pub mod transaction_log;
pub mod utils;
pub mod value;

pub use cell::{CellType, KeyNodeFlags, ValueType};
pub use error::{RegistryError, Result};
pub use hbin::HbinHeader;
pub use header::BaseBlock;
pub use hive::{HbinIterator, Hive, RegistryKey, RegistryValue};
pub use key::KeyNode;
pub use subkey_list::{SubkeyList, SubkeyListEntry, SubkeyListType};
pub use transaction_log::{DirtyPage, TransactionLog};
pub use value::{ValueData, ValueKey};

verus! {

/// Library version.
pub const VERSION: &'static str = "0.1.0";

} // verus!
