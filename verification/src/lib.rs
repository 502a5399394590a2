//! Read and write fixed-width integers in big-endian and little-endian
//! byte order, against any byte-stream source or sink.

mod codec;
mod laws;
mod read;
mod sealed;
mod write;

pub use crate::codec::be_bytes;
pub use crate::codec::be_val;
pub use crate::codec::le_bytes;
pub use crate::codec::le_val;
pub use crate::codec::pow256;
pub use crate::codec::to_unsigned;
pub use crate::codec::lemma_width_exact;
pub use crate::codec::lemma_be_bytes_is_reversed_le_bytes;
pub use crate::codec::lemma_most_significant_byte_first;
pub use crate::codec::lemma_least_significant_byte_first;
pub use crate::codec::lemma_le_round_trip;
pub use crate::codec::lemma_le_window_round_trip;
pub use crate::codec::lemma_be_window_round_trip;
pub use crate::codec::lemma_be_round_trip;
pub use crate::laws::lemma_codec_round_trip_be;
pub use crate::laws::lemma_codec_round_trip_le;
pub use crate::read::Cursor;
pub use crate::read::FromBeBytes;
pub use crate::read::FromLeBytes;
pub use crate::read::IoError;
pub use crate::read::Read;
pub use crate::read::ReadExt;
pub use crate::read::Sealed;
pub use crate::write::ToBytes;
pub use crate::write::Write;
pub use crate::write::WriteExt;
