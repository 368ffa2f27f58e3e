use image_index::keys::ArenaKey;
use image_index::models::{FolderID, ImageData};
use image_index::utils::is_image_ext;

fn fid() -> FolderID {
    FolderID { key: ArenaKey { idx: 0, generation: 0 } }
}

#[test]
fn image_extensions_are_allowed_case_insensitively() {
    for path in [
        "a.png", "a.PNG", "pic.JpG", "b.jpg", "c.jpeg", "d.gif", "e.bmp", "f.webp", "g.tiff",
        "h.tif", "sub/dir/shot.TIFF", "win\\style\\shot.WebP",
    ] {
        assert!(is_image_ext(path), "{path} should be accepted");
    }
}

#[test]
fn foreign_paths_are_rejected() {
    for path in [
        "b.txt",
        "noext",
        ".png",
        "sub/.png",
        "a.",
        "",
        "archive.tar.gz",
        "dir.png/file",
        "dir.png\\file",
        "png",
        "x.pngg",
        "trailing/",
    ] {
        assert!(!is_image_ext(path), "{path} should be rejected");
    }
}

#[test]
fn file_name_index_points_at_the_final_component() {
    let rec = ImageData::new(fid(), String::from("sub/a.png"), 10, 20);
    assert_eq!(rec.file_name_index, 4);
    assert_eq!(rec.file_name(), "a.png");
    assert_eq!(rec.file_path, "sub/a.png");
    assert_eq!(rec.image.id, None);
    assert_eq!(rec.image.width, 10);
    assert_eq!(rec.image.height, 20);
}

#[test]
fn file_name_of_bare_and_backslash_paths() {
    let bare = ImageData::new(fid(), String::from("a.png"), 1, 1);
    assert_eq!(bare.file_name_index, 0);
    assert_eq!(bare.file_name(), "a.png");

    let win = ImageData::new(fid(), String::from("dir\\b.jpg"), 1, 1);
    assert_eq!(win.file_name_index, 4);
    assert_eq!(win.file_name(), "b.jpg");

    let nested = ImageData::new(fid(), String::from("x/y/z/c.gif"), 1, 1);
    assert_eq!(nested.file_name(), "c.gif");
}
