//! Thumbnails for comic book archives and catalogs of them.
//!
//! The heart of the crate is [`thumbnail`]: it scans a zip archive for the
//! first entry, in ascending byte-wise order of entry names, that decodes as
//! an image, and scales that image to fit a bounding box.

pub mod archive;
pub mod ascii;
pub mod candidates;
pub mod cover;
pub mod extract;
pub mod name_hash;
pub mod names;
pub mod picture;
pub mod proxy;
pub mod scale;
pub mod selection;
pub mod size;
pub mod tristate;

pub use extract::{thumbnail, Error};
pub use name_hash::NameHash;
pub use proxy::Contents;
pub use size::{ParseSizeError, Size};
pub use tristate::TriState;
