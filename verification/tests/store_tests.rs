use image_index::keys::ArenaKey;
use image_index::models::{DbCommand, FolderID, ScanStatus};
use image_index::scanner::{merge_batches, scan_entries, FileEntry};
use image_index::store::{command_is_wf, record_is_wf, ImageDB};

fn entry(path: &str, is_file: bool, dims: Option<(u32, u32)>) -> FileEntry {
    FileEntry { rel_path: String::from(path), is_file, dimensions: dims }
}

/// `AddFolder("/pics")` where the folder holds `a.png` (10x10), `b.txt`
/// (never probed) and `c.jpg` (corrupt header): exactly one image ends up
/// linked, `a.png` at 10 by 10.
#[test]
fn scenario_folder_with_mixed_entries() {
    let mut db = ImageDB::new();
    let scan = db.apply_command(DbCommand::AddFolder(String::from("/pics")));
    let folder_id = scan.expect("AddFolder must trigger exactly one scan");

    let entries = vec![
        entry("a.png", true, Some((10, 10))),
        entry("b.txt", true, None),
        entry("c.jpg", true, None),
    ];
    let records = scan_entries(folder_id, entries);
    assert_eq!(records.len(), 1);

    let merged = merge_batches(vec![records]);
    let cmd = DbCommand::AddFilesBatch { folder_id, images: merged };
    assert!(command_is_wf(&cmd));
    let scan2 = db.apply_command(cmd);
    assert!(scan2.is_none());

    let folder = db.get_folder(folder_id).expect("folder must exist");
    assert_eq!(folder.images.len(), 1);
    assert_eq!(folder.status, ScanStatus::Ready);
    assert_eq!(folder.folder_path, "/pics");

    let image_id = folder.images[0];
    let rec = db.get_image(image_id).expect("linked image must be stored");
    assert_eq!(rec.file_name(), "a.png");
    assert_eq!(rec.image.width, 10);
    assert_eq!(rec.image.height, 10);
    assert_eq!(rec.image.id, Some(image_id));
    assert_eq!(rec.folder_id, folder_id);
}

/// Two sequential `AddFolder("/pics")` calls with the same path: two
/// distinct folders, each with its own scan, no deduplication.
#[test]
fn scenario_duplicate_folder_paths() {
    let mut db = ImageDB::new();
    let first = db.add_folder(String::from("/pics"));
    let second = db.add_folder(String::from("/pics"));
    assert_ne!(first, second);

    let fd1 = db.get_folder(first).expect("first folder exists");
    let fd2 = db.get_folder(second).expect("second folder exists");
    assert_eq!(fd1.folder_path, "/pics");
    assert_eq!(fd2.folder_path, "/pics");
    assert_eq!(fd1.status, ScanStatus::Scanning);
    assert_eq!(fd2.status, ScanStatus::Scanning);

    // Each is scanned independently: one batch arriving readies only its folder.
    let records = scan_entries(first, vec![entry("a.png", true, Some((3, 4)))]);
    let ids = db.add_files_batch(first, records);
    assert_eq!(ids.len(), 1);
    assert_eq!(db.get_folder(first).unwrap().status, ScanStatus::Ready);
    assert_eq!(db.get_folder(first).unwrap().images.len(), 1);
    assert_eq!(db.get_folder(second).unwrap().status, ScanStatus::Scanning);
    assert_eq!(db.get_folder(second).unwrap().images.len(), 0);
}

/// A batch whose folder no longer exists still inserts its images into the
/// global table, linked to no folder.
#[test]
fn orphaned_batch_images_are_kept() {
    let mut db = ImageDB::new();
    let real = db.add_folder(String::from("/kept"));

    let gone = FolderID { key: ArenaKey { idx: 41, generation: 7 } };
    let records = scan_entries(gone, vec![entry("x.png", true, Some((8, 9)))]);
    assert_eq!(records.len(), 1);
    assert!(record_is_wf(&records[0]));
    let ids = db.add_files_batch(gone, records);
    assert_eq!(ids.len(), 1);

    assert!(db.get_folder(gone).is_none());
    let rec = db.get_image(ids[0]).expect("orphan must be in the image table");
    assert_eq!(rec.file_name(), "x.png");
    assert_eq!(rec.image.width, 8);
    assert_eq!(rec.image.height, 9);
    // ... and no folder lists it.
    let fd = db.get_folder(real).unwrap();
    assert!(!fd.images.contains(&ids[0]));
}

/// An empty scan still emits one batch; applying it readies the folder
/// without adding images.
#[test]
fn empty_scan_still_completes_the_folder() {
    let mut db = ImageDB::new();
    let folder_id = db.add_folder(String::from("/empty"));
    let records = scan_entries(folder_id, Vec::new());
    assert!(records.is_empty());
    let ids = db.add_files_batch(folder_id, records);
    assert!(ids.is_empty());
    let fd = db.get_folder(folder_id).unwrap();
    assert_eq!(fd.status, ScanStatus::Ready);
    assert_eq!(fd.images.len(), 0);
}

/// Draining a command sequence equals applying the commands one at a time,
/// in arrival order.
#[test]
fn drained_queue_equals_sequential_application() {
    // One store drains the whole queue...
    let mut drained = ImageDB::new();
    let scans = drained.apply_commands(vec![
        DbCommand::AddFolder(String::from("/a")),
        DbCommand::AddFolder(String::from("/b")),
    ]);
    assert_eq!(scans.len(), 2);
    let (fa, fb) = (scans[0], scans[1]);
    let batch_a = DbCommand::AddFilesBatch {
        folder_id: fa,
        images: scan_entries(fa, vec![entry("one.png", true, Some((1, 1)))]),
    };
    let batch_b = DbCommand::AddFilesBatch {
        folder_id: fb,
        images: scan_entries(fb, vec![entry("two.gif", true, Some((2, 2)))]),
    };
    assert!(command_is_wf(&batch_a));
    assert!(command_is_wf(&batch_b));
    let more = drained.apply_commands(vec![batch_a, batch_b]);
    assert!(more.is_empty());

    // ...the other sees the same commands one by one.
    let mut stepped = ImageDB::new();
    let ga = stepped.apply_command(DbCommand::AddFolder(String::from("/a"))).unwrap();
    let gb = stepped.apply_command(DbCommand::AddFolder(String::from("/b"))).unwrap();
    stepped.apply_command(DbCommand::AddFilesBatch {
        folder_id: ga,
        images: scan_entries(ga, vec![entry("one.png", true, Some((1, 1)))]),
    });
    stepped.apply_command(DbCommand::AddFilesBatch {
        folder_id: gb,
        images: scan_entries(gb, vec![entry("two.gif", true, Some((2, 2)))]),
    });

    for (x, y) in [(fa, ga), (fb, gb)] {
        let fx = drained.get_folder(x).unwrap();
        let fy = stepped.get_folder(y).unwrap();
        assert_eq!(fx.folder_path, fy.folder_path);
        assert_eq!(fx.status, fy.status);
        assert_eq!(fx.images.len(), fy.images.len());
        for (ix, iy) in fx.images.iter().zip(fy.images.iter()) {
            let rx = drained.get_image(*ix).unwrap();
            let ry = stepped.get_image(*iy).unwrap();
            assert_eq!(rx.file_path, ry.file_path);
            assert_eq!(rx.image.width, ry.image.width);
            assert_eq!(rx.image.height, ry.image.height);
        }
    }
}

/// The fan-in merge keeps every worker's records, in worker order.
#[test]
fn merge_keeps_all_records_in_order() {
    let f = FolderID { key: ArenaKey { idx: 0, generation: 0 } };
    let one = scan_entries(f, vec![entry("a.png", true, Some((1, 1)))]);
    let two = scan_entries(
        f,
        vec![entry("b.jpg", true, Some((2, 2))), entry("c.bmp", true, Some((3, 3)))],
    );
    let merged = merge_batches(vec![one, Vec::new(), two]);
    assert_eq!(merged.len(), 3);
    assert_eq!(merged[0].file_name(), "a.png");
    assert_eq!(merged[1].file_name(), "b.jpg");
    assert_eq!(merged[2].file_name(), "c.bmp");
}

/// Non-files and non-image extensions never become records, however many
/// there are.
#[test]
fn scan_skips_directories_and_foreign_files() {
    let f = FolderID { key: ArenaKey { idx: 0, generation: 0 } };
    let records = scan_entries(
        f,
        vec![
            entry("subdir.png", false, None),
            entry("notes.txt", true, None),
            entry("archive.tar.gz", true, None),
            entry("photo.jpeg", true, Some((640, 480))),
        ],
    );
    assert_eq!(records.len(), 1);
    assert_eq!(records[0].file_name(), "photo.jpeg");
}

/// The stand-in image list has the documented fixed shape.
#[test]
fn placeholder_list_has_fixed_shape() {
    let v = image_index::models::placeholder_images(50);
    assert_eq!(v.len(), 50);
    assert!(v.iter().all(|i| i.id.is_none() && i.width == 1920 && i.height == 1080));
    assert!(image_index::models::placeholder_images(0).is_empty());
}
