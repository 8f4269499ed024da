//! Media that the server keeps.
use vstd::prelude::*;
use crate::values::UInt;

verus! {

/// How a thumbnail is made from an image.
#[derive(Clone, Copy, Debug, PartialEq, Eq, Structural)]
pub enum ThumbnailMethod {
    /// The image is cropped to the size asked for.
    Crop,
    /// The image is scaled to fit the size asked for.
    Scale,
}

/// The size of a thumbnail.
#[derive(Clone, Copy, Debug)]
pub struct MediaThumbnailSize {
    /// How the thumbnail is made.
    pub method: ThumbnailMethod,
    /// The width asked for. The thumbnail may have another.
    pub width: UInt,
    /// The height asked for. The thumbnail may have another.
    pub height: UInt,
}

/// In which form media are asked for.
#[derive(Clone, Copy, Debug)]
pub enum MediaFormat {
    /// The file that was uploaded.
    File,
    /// A thumbnail of it.
    Thumbnail(MediaThumbnailSize),
}

/// Where media are found.
#[derive(Debug)]
pub enum MediaType {
    /// At this `mxc://` URI.
    Uri(String),
}

/// A request for media.
#[derive(Debug)]
pub struct MediaRequest {
    /// Where the media are found.
    pub media_type: MediaType,
    /// In which form they are asked for.
    pub format: MediaFormat,
}

/// Get media from the server.
#[derive(Debug)]
pub struct GetMediaContent {
    /// What to get.
    pub request: MediaRequest,
    /// Whether media that are in the cache are taken from there, and media that
    /// are not are put into it.
    pub use_cache: bool,
}

} // verus!
