//! The decision half of the folder scanner.
//!
//! The embedding application walks the directory tree with a pool of worker
//! threads and probes candidate files for their pixel dimensions; what each
//! worker reports is reduced to plain [`FileEntry`] values.  The functions
//! here do everything else: filter the entries — a regular file, an
//! allow-listed extension, a successful probe — build one record per
//! accepted entry, and merge the workers' local batches into the single
//! batch command one scan emits.  Rejected and failed entries are skipped
//! silently; a scan that accepts nothing still yields one (empty) batch.

use vstd::prelude::*;
use vstd::seq_lib::*;
use crate::models::{FolderID, Image, ImageData, ImageID};
use crate::store::{batch_applied, record_wf, ImageDB};
use crate::utils::{name_start, spec_is_image_ext};

verus! {

/// One filesystem entry as the walker reports it, reduced to plain values:
/// the path relative to the folder root, whether it is a regular file, and
/// the probed pixel dimensions — `None` when the entry was not probed or
/// the header probe failed.
#[derive(Debug)]
pub struct FileEntry {
    pub rel_path: String,
    pub is_file: bool,
    pub dimensions: Option<(u32, u32)>,
}

/// A candidate: a regular file carrying an allow-listed image extension.
pub open spec fn is_candidate(e: FileEntry) -> bool {
    e.is_file && spec_is_image_ext(e.rel_path@)
}

/// A candidate whose dimension probe failed; it is skipped silently.
pub open spec fn probe_failed(e: FileEntry) -> bool {
    is_candidate(e) && e.dimensions is None
}

/// An entry that yields a record: a candidate with probed dimensions.
pub open spec fn entry_accepted(e: FileEntry) -> bool {
    is_candidate(e) && e.dimensions is Some
}

pub open spec fn candidates_of(entries: Seq<FileEntry>) -> Seq<FileEntry> {
    entries.filter(|e: FileEntry| is_candidate(e))
}

pub open spec fn failed_of(entries: Seq<FileEntry>) -> Seq<FileEntry> {
    entries.filter(|e: FileEntry| probe_failed(e))
}

pub open spec fn accepted_of(entries: Seq<FileEntry>) -> Seq<FileEntry> {
    entries.filter(|e: FileEntry| entry_accepted(e))
}

/// The record an accepted entry turns into; no identifier yet.
pub open spec fn record_of(folder_id: FolderID, e: FileEntry) -> ImageData {
    let dims = e.dimensions->0;
    ImageData {
        folder_id,
        file_path: e.rel_path,
        file_name_index: name_start(e.rel_path@) as usize,
        image: Image { id: None, width: dims.0, height: dims.1 },
    }
}

/// Everything one scan of `entries` contributes: one record per accepted
/// entry, in entry order.
pub open spec fn scan_records(folder_id: FolderID, entries: Seq<FileEntry>) -> Seq<ImageData> {
    accepted_of(entries).map_values(|e: FileEntry| record_of(folder_id, e))
}

proof fn lemma_scan_records_push(folder_id: FolderID, entries: Seq<FileEntry>, e: FileEntry)
    ensures
        scan_records(folder_id, entries.push(e)) == if entry_accepted(e) {
            scan_records(folder_id, entries).push(record_of(folder_id, e))
        } else {
            scan_records(folder_id, entries)
        },
{
    broadcast use Seq::lemma_filter_push;

    if entry_accepted(e) {
        assert(accepted_of(entries).push(e).map_values(|x: FileEntry| record_of(folder_id, x))
            =~= accepted_of(entries).map_values(|x: FileEntry| record_of(folder_id, x)).push(
            record_of(folder_id, e),
        ));
    }
}

/// Accepted and probe-failed entries split the candidates: with N
/// candidates of which K fail their probe, exactly N - K are accepted.
/// Entries that are no candidates (non-files, other extensions) appear in
/// none of the three counts.
pub proof fn lemma_accepted_count(entries: Seq<FileEntry>)
    ensures
        accepted_of(entries).len() + failed_of(entries).len() == candidates_of(entries).len(),
    decreases entries.len(),
{
    reveal(Seq::filter);
    if entries.len() > 0 {
        lemma_accepted_count(entries.drop_last());
    }
}

/// Folder completeness, end to end: when the batch built from a scan's
/// entries reaches a folder that still exists, the folder ends with one
/// linked image per accepted entry — with N candidate files of which K
/// failed their probe, exactly N - K more than before.  Entries that are
/// no candidates are never counted.
pub proof fn lemma_folder_completeness(
    pre: ImageDB,
    post: ImageDB,
    folder_id: FolderID,
    entries: Seq<FileEntry>,
    ids: Seq<ImageID>,
)
    requires
        pre.spec_folders().contains_key(folder_id.key),
        batch_applied(pre, post, folder_id, scan_records(folder_id, entries), ids),
    ensures
        post.spec_folders().contains_key(folder_id.key),
        post.spec_folders()[folder_id.key].images@.len() == pre.spec_folders()[folder_id.key].images@.len()
            + candidates_of(entries).len() - failed_of(entries).len(),
{
    lemma_accepted_count(entries);
}

/// One walker's share of the scan: reduce its entries to the records of
/// the accepted ones, in order.
pub fn scan_entries(folder_id: FolderID, entries: Vec<FileEntry>) -> (records: Vec<ImageData>)
    ensures
        records@ == scan_records(folder_id, entries@),
        forall|j: int| 0 <= j < records@.len() ==> record_wf(#[trigger] records@[j]),
{
    let ghost all = entries@;
    let mut entries = entries;
    let mut records: Vec<ImageData> = Vec::new();
    proof {
        reveal(Seq::filter);
        assert(all.take(0) =~= Seq::<FileEntry>::empty());
        assert(records@ =~= scan_records(folder_id, all.take(0)));
    }
    while entries.len() > 0
        invariant
            entries@.len() <= all.len(),
            entries@ == all.skip(all.len() - entries@.len()),
            records@ == scan_records(folder_id, all.take(all.len() - entries@.len())),
            forall|j: int| 0 <= j < records@.len() ==> record_wf(#[trigger] records@[j]),
        decreases entries@.len(),
    {
        let ghost i = all.len() - entries@.len();
        let e = entries.remove(0);
        proof {
            assert(e == all[i]);
            assert(all.skip(i).remove(0) =~= all.skip(i + 1));
            assert(all.take(i + 1).drop_last() =~= all.take(i));
            assert(all.take(i + 1) =~= all.take(i).push(all[i]));
            lemma_scan_records_push(folder_id, all.take(i), all[i]);
        }
        let FileEntry { rel_path, is_file, dimensions } = e;
        if is_file && crate::utils::is_image_ext(rel_path.as_str()) {
            match dimensions {
                Some((width, height)) => {
                    let rec = ImageData::new(folder_id, rel_path, width, height);
                    proof {
                        crate::utils::lemma_name_start_bounds(all[i].rel_path@);
                        assert(rec == record_of(folder_id, all[i]));
                    }
                    records.push(rec);
                },
                None => {},
            }
        }
    }
    proof {
        assert(all.take(all.len() as int) =~= all);
    }
    records
}

/// The contents of a sequence of local batches, batch by batch.
pub open spec fn batch_views(locals: Seq<Vec<ImageData>>) -> Seq<Seq<ImageData>> {
    locals.map_values(|v: Vec<ImageData>| v@)
}

/// The fan-in step of one scan: each walker accumulated a local batch; the
/// merge concatenates them, in walker order, into the one batch the scan
/// emits.  Sound records in, sound records out.
pub fn merge_batches(locals: Vec<Vec<ImageData>>) -> (merged: Vec<ImageData>)
    ensures
        merged@ == batch_views(locals@).flatten(),
        (forall|l: int, j: int|
            0 <= l < locals@.len() && 0 <= j < locals@[l]@.len() ==> record_wf(
                #[trigger] locals@[l]@[j],
            )) ==> forall|j: int| 0 <= j < merged@.len() ==> record_wf(#[trigger] merged@[j]),
{
    broadcast use Seq::lemma_flatten_push;

    let ghost all = locals@;
    let mut locals = locals;
    let mut merged: Vec<ImageData> = Vec::new();
    proof {
        assert(batch_views(all.take(0)) =~= Seq::<Seq<ImageData>>::empty());
        assert(merged@ =~= batch_views(all.take(0)).flatten());
    }
    while locals.len() > 0
        invariant
            locals@.len() <= all.len(),
            locals@ == all.skip(all.len() - locals@.len()),
            merged@ == batch_views(all.take(all.len() - locals@.len())).flatten(),
            (forall|l: int, j: int|
                0 <= l < all.len() && 0 <= j < all[l]@.len() ==> record_wf(#[trigger] all[l]@[j]))
                ==> forall|j: int| 0 <= j < merged@.len() ==> record_wf(#[trigger] merged@[j]),
        decreases locals@.len(),
    {
        let ghost i = all.len() - locals@.len();
        let ghost merged0 = merged@;
        let mut local = locals.remove(0);
        proof {
            assert(local == all[i]);
            assert(all.skip(i).remove(0) =~= all.skip(i + 1));
            assert(batch_views(all.take(i + 1)) =~= batch_views(all.take(i)).push(all[i]@));
        }
        merged.append(&mut local);
        proof {
            batch_views(all.take(i)).lemma_flatten_push(all[i]@);
            assert(batch_views(all.take(i)).push(all[i]@).flatten() == batch_views(
                all.take(i),
            ).flatten() + all[i]@);
            assert(merged@ == batch_views(all.take(i + 1)).flatten());
            if forall|l: int, j: int|
                0 <= l < all.len() && 0 <= j < all[l]@.len() ==> record_wf(#[trigger] all[l]@[j]) {
                assert forall|j: int| 0 <= j < merged@.len() implies record_wf(
                    #[trigger] merged@[j],
                ) by {
                    if j < merged0.len() {
                        assert(merged@[j] == merged0[j]);
                    } else {
                        assert(merged@[j] == all[i]@[j - merged0.len()]);
                    }
                }
            }
        }
    }
    proof {
        assert(all.take(all.len() as int) =~= all);
    }
    merged
}

} // verus!
