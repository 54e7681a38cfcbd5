//! Reading and writing of ID3v2 metadata tags held in byte buffers: the
//! binary codec of the three ID3v2 revisions, and the replacement of the tag
//! region at the start of a file without harm to the audio after it.
pub mod bytes;
pub mod compression;
pub mod content;
pub mod encoding;
pub mod error;
pub mod frame;
pub mod frame_id;
pub mod genre;
pub mod storage;
pub mod syncsafe;
pub mod terminated;
pub mod timestamp;
pub mod tag;
pub mod unsync;
pub mod values;
pub mod v1;
pub mod v1v2;
pub mod version;

pub use crate::content::Content;
pub use crate::encoding::Encoding;
pub use crate::error::{no_tag_ok, Error};
pub use crate::frame::{Frame, FrameFlags};
pub use crate::tag::Tag;
pub use crate::v1v2::{
    is_candidate, read_from, read_from_partial, remove_from_path, write_to_file, FormatVersion,
};
pub use crate::version::Version;
