//! Zero-copy archival: values are laid out in an append-only byte sink so that
//! each archived header sits at an aligned position and refers to what it owns
//! through self-relative offsets.

mod archive;
mod buffer;
mod image;
mod relptr;
mod sink;

pub use archive::{
    Archive, ArchiveError, ArchiveRef, ArchiveSelf, Resolve, SelfResolver, kept,
    lemma_self_archival_image,
};
pub use buffer::{ArchiveBuffer, ArchiveBufferError, ArchiveWriter, spliced};
pub use image::{ByteImage, host_image, le_image};
pub use relptr::{RelPtr, lemma_rel_ptr_refers, offset_fits, offset_image, points_to};
pub use sink::{Write, WriteExt, aligned_pos, archived, archived_ref, emitted, header_at, zeros};
