//! The image records in the shape the display layer consumes them.

use vstd::prelude::*;

verus! {

/// One image, flattened for display: a plain numeric identifier and the
/// pixel dimensions.
#[derive(Debug, Clone, Copy, PartialEq, Eq, Structural)]
pub struct Image {
    pub id: u64,
    pub width: u32,
    pub height: u32,
}

/// One display entry: the image together with where it lives on disk.
#[derive(Debug, Clone)]
pub struct ImageEntry {
    pub image: Image,
    pub absolute_path: String,
    pub folder_path: String,
    pub filename: String,
}

} // verus!
