//! Containers that can move between ordinary heap storage and a single
//! contiguous, relocatable byte region in which every internal reference is
//! an offset relative to the position of the reference itself.

pub mod compact;
pub mod compact_dict;
pub mod compact_opaque;
pub mod compact_option;
pub mod compact_str;
pub mod compact_vec;
pub mod entries;
pub mod plain;
pub mod pointer_to_maybe_compact;
pub mod region;

pub use crate::compact::Compact;
pub use crate::compact_dict::CompactDict;
pub use crate::compact_opaque::Opaque;
pub use crate::compact_option::CompactOption;
pub use crate::compact_str::CompactString;
pub use crate::compact_vec::CompactVec;
pub use crate::pointer_to_maybe_compact::PointerToMaybeCompact;
