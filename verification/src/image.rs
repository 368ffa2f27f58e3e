//! Construction and the file-name accessor of image records.

use vstd::prelude::*;
use vstd::string::StrSliceExecFns;
use crate::models::{FolderID, Image, ImageData};
use crate::utils::{find_name_start, lemma_name_start_bounds, name_start};

verus! {

impl ImageData {
    /// The stored name offset is exactly where the final path component
    /// begins, so slicing there yields the file name.
    pub open spec fn wf(&self) -> bool {
        self.file_name_index as int == name_start(self.file_path@)
    }

    /// Build a record for a discovered file.  The identifier stays unset:
    /// it is assigned only when the store accepts the record.
    pub fn new(folder_id: FolderID, file_path: String, width: u32, height: u32) -> (r: ImageData)
        ensures
            r.folder_id == folder_id,
            r.file_path == file_path,
            r.image.id is None,
            r.image.width == width,
            r.image.height == height,
            r.wf(),
    {
        let name_index = find_name_start(file_path.as_str());
        let image = Image { id: None, width, height };
        ImageData { folder_id, image, file_path, file_name_index: name_index }
    }

    /// The file name: the final component of the stored relative path.
    pub fn file_name(&self) -> (r: &str)
        requires
            self.wf(),
        ensures
            r@ == self.file_path@.skip(name_start(self.file_path@)),
    {
        proof {
            lemma_name_start_bounds(self.file_path@);
            assert(self.file_path@.subrange(
                name_start(self.file_path@),
                self.file_path@.len() as int,
            ) =~= self.file_path@.skip(name_start(self.file_path@)));
        }
        let n = self.file_path.as_str().unicode_len();
        self.file_path.as_str().substring_char(self.file_name_index, n)
    }
}

} // verus!
