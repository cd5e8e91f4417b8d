//! Confined path resolution and directory listings for a file browser.
//!
//! A request names a file by a sequence of percent-encoded path segments.
//! [`DirectoryPath::from_segments`] decodes and checks them and joins what
//! they name onto a root directory, so that the result never leaves it.
//! [`list`] turns the children read from such a directory into the entries
//! of a listing, each with a link relative to the root.
pub mod directory_path;
pub mod list;
pub mod media;
pub mod mtime;
pub mod path;
pub mod request;
pub mod resolve;
pub mod segment;
pub mod text;

pub use directory_path::{relative_path, DirectoryPath, NotUnderRoot};
pub use list::{
    list, readdir, Child, ChildKind, ChildMetadata, ListError, ListingContext, ListingEntry,
};
pub use request::{request_action, RequestAction};
pub use resolve::InvalidPath;
pub use segment::{percent_decode, validate_segment, SegmentCheck, SegmentError};
