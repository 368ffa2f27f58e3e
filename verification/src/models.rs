//! The index data model: folders, images, and the command vocabulary that
//! the index actor accepts.

use vstd::prelude::*;
use crate::keys::ArenaKey;

verus! {

/// Identifier of a folder record; generational, never reused while live.
#[derive(Debug, Clone, Copy, PartialEq, Eq, Structural, Hash)]
pub struct FolderID {
    pub key: ArenaKey,
}

/// Identifier of an image record; assigned only when the record is accepted
/// into the store, never before.
#[derive(Debug, Clone, Copy, PartialEq, Eq, Structural, Hash)]
pub struct ImageID {
    pub key: ArenaKey,
}

/// The image information handed to the display layer.
#[derive(Debug, Clone, Copy)]
pub struct Image {
    /// `None` until the record is inserted into the store.
    pub id: Option<ImageID>,
    pub width: u32,
    pub height: u32,
}

/// One discovered image file: its owning folder, its path relative to the
/// folder root, the offset at which the file name begins within that path,
/// and the probed pixel dimensions.
#[derive(Debug, Clone)]
pub struct ImageData {
    pub folder_id: FolderID,
    pub file_path: String,
    pub file_name_index: usize,
    pub image: Image,
}

/// Whether a folder's scan is still outstanding or has delivered its batch.
#[derive(Debug, Clone, Copy, PartialEq, Eq, Structural)]
pub enum ScanStatus {
    Scanning,
    Ready,
}

/// One registered folder: its root path and the identifiers of the images
/// linked to it so far.
#[derive(Debug, Clone)]
pub struct FolderData {
    pub id: FolderID,
    pub folder_path: String,
    pub images: Vec<ImageID>,
    pub status: ScanStatus,
}

/// The image list shown while nothing real is indexed yet: `count` copies
/// of one full-HD placeholder, none of them carrying an identifier.
pub fn placeholder_images(count: usize) -> (v: Vec<Image>)
    ensures
        v@.len() == count,
        forall|j: int|
            0 <= j < count ==> (#[trigger] v@[j]).id is None && v@[j].width == 1920 && v@[j].height
                == 1080,
{
    let mut v: Vec<Image> = Vec::new();
    let mut i: usize = 0;
    while i < count
        invariant
            i <= count,
            v@.len() == i,
            forall|j: int|
                0 <= j < i ==> (#[trigger] v@[j]).id is None && v@[j].width == 1920 && v@[j].height
                    == 1080,
        decreases count - i,
    {
        v.push(Image { id: None, width: 1920, height: 1080 });
        i = i + 1;
    }
    v
}

/// The only mutation vocabulary the index actor accepts.
#[derive(Debug)]
pub enum DbCommand {
    /// Register a folder and trigger one scan of it.
    AddFolder(String),
    /// Insert the batch of files one scan found under one folder.
    AddFilesBatch { folder_id: FolderID, images: Vec<ImageData> },
}

} // verus!
