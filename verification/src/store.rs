//! The index store and the mutations the index actor applies to it.
//!
//! All mutations go through [`ImageDB::apply_command`]; the embedding
//! application drains a command queue and calls it one command at a time, so
//! every index mutation is linearized by arrival order.
//! [`ImageDB::apply_commands`] pins that down: the state after a run of
//! commands is exactly a sequential application in arrival order.

use vstd::prelude::*;
use crate::keys::{Arena, ArenaKey};
use crate::models::{DbCommand, FolderData, FolderID, Image, ImageData, ImageID, ScanStatus};

verus! {

/// A scanned record as it looks once the store has accepted it under `id`.
pub open spec fn assigned(rec: ImageData, id: ImageID) -> ImageData {
    ImageData {
        folder_id: rec.folder_id,
        file_path: rec.file_path,
        file_name_index: rec.file_name_index,
        image: Image { id: Some(id), width: rec.image.width, height: rec.image.height },
    }
}

/// A record the store accepts: name offset sound, identifier still unset.
pub open spec fn record_wf(rec: ImageData) -> bool {
    rec.wf() && rec.image.id is None
}

/// One folder table entry is sound: it is stored under its own key, and its
/// image list holds no duplicates and no identifier the image table lacks.
pub open spec fn folder_entry_wf(
    fd: FolderData,
    k: ArenaKey,
    images: Map<ArenaKey, ImageData>,
) -> bool {
    &&& fd.id.key == k
    &&& forall|j: int|
        0 <= j < fd.images@.len() ==> images.contains_key((#[trigger] fd.images@[j]).key)
    &&& forall|j1: int, j2: int| 0 <= j1 < j2 < fd.images@.len() ==> fd.images@[j1] != fd.images@[j2]
}

/// The authoritative in-memory tables of folders and images.  Mutated only
/// through the command-application methods below.
pub struct ImageDB {
    images: Arena<ImageData>,
    folders: Arena<FolderData>,
}

/// How `AddFolder(path)` changes the store: one fresh folder record with an
/// empty image list and a pending scan; nothing else moves.
pub open spec fn folder_added(pre: ImageDB, post: ImageDB, path: Seq<char>, id: FolderID) -> bool {
    &&& !pre.spec_folders().contains_key(id.key)
    &&& post.spec_folders().contains_key(id.key)
    &&& ({
        let fd = post.spec_folders()[id.key];
        &&& fd.id == id
        &&& fd.folder_path@ == path
        &&& fd.images@ == Seq::<ImageID>::empty()
        &&& fd.status == ScanStatus::Scanning
    })
    &&& forall|k: ArenaKey|
        k != id.key ==> ((#[trigger] post.spec_folders().contains_key(k))
            <==> pre.spec_folders().contains_key(k))
    &&& forall|k: ArenaKey|
        pre.spec_folders().contains_key(k) && k != id.key ==> (#[trigger] post.spec_folders()[k])
            == pre.spec_folders()[k]
    &&& post.spec_images() == pre.spec_images()
}

/// How `AddFilesBatch(folder_id, records)` changes the store: every record
/// enters the image table under a fresh identifier assigned at insertion;
/// if the folder still exists its list grows by exactly those identifiers
/// and its scan is complete, otherwise the folder table is untouched and
/// the new images stay orphaned.
pub open spec fn batch_applied(
    pre: ImageDB,
    post: ImageDB,
    folder_id: FolderID,
    records: Seq<ImageData>,
    ids: Seq<ImageID>,
) -> bool {
    &&& ids.len() == records.len()
    &&& forall|j: int|
        0 <= j < ids.len() ==> !pre.spec_images().contains_key((#[trigger] ids[j]).key)
    &&& forall|j1: int, j2: int| 0 <= j1 < j2 < ids.len() ==> ids[j1].key != ids[j2].key
    &&& forall|j: int|
        0 <= j < ids.len() ==> post.spec_images().contains_key((#[trigger] ids[j]).key)
            && post.spec_images()[ids[j].key] == assigned(records[j], ids[j])
    &&& forall|k: ArenaKey|
        (#[trigger] pre.spec_images().contains_key(k)) ==> post.spec_images().contains_key(k)
            && post.spec_images()[k] == pre.spec_images()[k]
    &&& forall|k: ArenaKey|
        (#[trigger] post.spec_images().contains_key(k)) ==> pre.spec_images().contains_key(k)
            || exists|j: int| 0 <= j < ids.len() && (#[trigger] ids[j]).key == k
    &&& if pre.spec_folders().contains_key(folder_id.key) {
        let fd = pre.spec_folders()[folder_id.key];
        &&& post.spec_folders().contains_key(folder_id.key)
        &&& ({
            let fd2 = post.spec_folders()[folder_id.key];
            &&& fd2.id == fd.id
            &&& fd2.folder_path == fd.folder_path
            &&& fd2.images@ == fd.images@ + ids
            &&& fd2.status == ScanStatus::Ready
        })
        &&& forall|k: ArenaKey|
            (#[trigger] post.spec_folders().contains_key(k)) <==> pre.spec_folders().contains_key(
                k,
            )
        &&& forall|k: ArenaKey|
            pre.spec_folders().contains_key(k) && k != folder_id.key ==> (
            #[trigger] post.spec_folders()[k]) == pre.spec_folders()[k]
    } else {
        post.spec_folders() == pre.spec_folders()
    }
}

/// What applying one command means, and which scan it triggers: exactly one
/// for a registered folder, none for a batch.
pub open spec fn command_applied(
    pre: ImageDB,
    post: ImageDB,
    cmd: DbCommand,
    scan: Option<FolderID>,
) -> bool {
    match cmd {
        DbCommand::AddFolder(path) => scan matches Some(id) && folder_added(pre, post, path@, id),
        DbCommand::AddFilesBatch { folder_id, images } => scan is None && exists|ids: Seq<ImageID>|
            batch_applied(pre, post, folder_id, images@, ids),
    }
}

/// The inputs a command may carry: batch records must be sound.
pub open spec fn command_wf(cmd: DbCommand) -> bool {
    match cmd {
        DbCommand::AddFolder(_) => true,
        DbCommand::AddFilesBatch { folder_id, images } => forall|j: int|
            0 <= j < images@.len() ==> record_wf(#[trigger] images@[j]),
    }
}

/// `post` is the result of applying `cmds` to `pre` sequentially, in order,
/// with `scans` the folder identifiers whose scans were triggered, in order.
pub open spec fn commands_applied(
    pre: ImageDB,
    post: ImageDB,
    cmds: Seq<DbCommand>,
    scans: Seq<FolderID>,
) -> bool
    decreases cmds.len(),
{
    if cmds.len() == 0 {
        post == pre && scans.len() == 0
    } else {
        match cmds.last() {
            DbCommand::AddFolder(_) => scans.len() >= 1 && exists|mid: ImageDB|
                commands_applied(pre, mid, cmds.drop_last(), scans.drop_last())
                    && #[trigger] command_applied(mid, post, cmds.last(), Some(scans.last())),
            DbCommand::AddFilesBatch { .. } => exists|mid: ImageDB|
                commands_applied(pre, mid, cmds.drop_last(), scans) && #[trigger] command_applied(
                    mid,
                    post,
                    cmds.last(),
                    None,
                ),
        }
    }
}

/// Orphan preservation: a batch whose folder no longer exists by the time
/// it arrives still inserts every record into the global image table, but
/// links none of them — the folder tables stand untouched, and no folder's
/// image list names any of the fresh identifiers.
pub proof fn lemma_orphan_preservation(
    pre: ImageDB,
    post: ImageDB,
    folder_id: FolderID,
    records: Seq<ImageData>,
    ids: Seq<ImageID>,
)
    requires
        pre.wf(),
        !pre.spec_folders().contains_key(folder_id.key),
        batch_applied(pre, post, folder_id, records, ids),
    ensures
        post.spec_folders() == pre.spec_folders(),
        forall|j: int| 0 <= j < ids.len() ==> post.spec_images().contains_key((#[trigger] ids[j]).key),
        forall|k: ArenaKey, j: int|
            post.spec_folders().contains_key(k) && 0 <= j < ids.len()
                ==> !post.spec_folders()[k].images@.contains(ids[j]),
{
    assert forall|k: ArenaKey, j: int|
        post.spec_folders().contains_key(k) && 0 <= j < ids.len() implies !post.spec_folders()[k].images@.contains(
        ids[j],
    ) by {
        assert(pre.spec_folders().contains_key(k));
        assert(folder_entry_wf(pre.spec_folders()[k], k, pre.spec_images()));
        let fd = post.spec_folders()[k];
        if fd.images@.contains(ids[j]) {
            let t = choose|t: int| 0 <= t < fd.images@.len() && fd.images@[t] == ids[j];
            // Every linked identifier was already in the image table before
            // the batch; the fresh ones were not.
            assert(pre.spec_images().contains_key(fd.images@[t].key));
            assert(!pre.spec_images().contains_key(ids[j].key));
        }
    }
}

/// Run-time check of [`record_wf`], for callers outside the proofs that
/// must guard what they feed the store.
pub fn record_is_wf(rec: &ImageData) -> (r: bool)
    ensures
        r == record_wf(*rec),
{
    let idx = crate::utils::find_name_start(rec.file_path.as_str());
    idx == rec.file_name_index && rec.image.id.is_none()
}

/// Run-time check of [`command_wf`], for callers outside the proofs that
/// must guard what they feed the store.
pub fn command_is_wf(cmd: &DbCommand) -> (r: bool)
    ensures
        r == command_wf(*cmd),
{
    match cmd {
        DbCommand::AddFolder(_) => true,
        DbCommand::AddFilesBatch { folder_id: _, images } => {
            let n = images.len();
            let mut j: usize = 0;
            #[verifier::loop_isolation(false)]
            while j < n
                invariant
                    j <= n,
                    n == images@.len(),
                    forall|t: int| 0 <= t < j ==> record_wf(#[trigger] images@[t]),
                decreases n - j,
            {
                let ok = record_is_wf(&images[j]);
                if !ok {
                    proof {
                        assert(!record_wf(images@[j as int]));
                    }
                    return false;
                }
                proof {
                    assert(record_wf(images@[j as int]));
                }
                j = j + 1;
            }
            true
        },
    }
}

impl ImageDB {
    pub closed spec fn spec_folders(&self) -> Map<ArenaKey, FolderData> {
        self.folders@
    }

    pub closed spec fn spec_images(&self) -> Map<ArenaKey, ImageData> {
        self.images@
    }

    /// Store soundness: every folder entry is sound, and every stored image
    /// carries exactly the identifier it is stored under.
    pub open spec fn wf(&self) -> bool {
        &&& forall|k: ArenaKey|
            (#[trigger] self.spec_folders().contains_key(k)) ==> folder_entry_wf(
                self.spec_folders()[k],
                k,
                self.spec_images(),
            )
        &&& forall|k: ArenaKey|
            (#[trigger] self.spec_images().contains_key(k)) ==> self.spec_images()[k].image.id
                == Some(ImageID { key: k }) && self.spec_images()[k].wf()
    }

    pub fn new() -> (s: ImageDB)
        ensures
            s.wf(),
            s.spec_folders() == Map::<ArenaKey, FolderData>::empty(),
            s.spec_images() == Map::<ArenaKey, ImageData>::empty(),
    {
        ImageDB { images: Arena::new(), folders: Arena::new() }
    }

    pub fn get_folder(&self, id: FolderID) -> (r: Option<&FolderData>)
        ensures
            match r {
                Some(fd) => self.spec_folders().contains_key(id.key) && *fd
                    == self.spec_folders()[id.key],
                None => !self.spec_folders().contains_key(id.key),
            },
    {
        self.folders.get(id.key)
    }

    pub fn get_image(&self, id: ImageID) -> (r: Option<&ImageData>)
        ensures
            match r {
                Some(rec) => self.spec_images().contains_key(id.key) && *rec
                    == self.spec_images()[id.key],
                None => !self.spec_images().contains_key(id.key),
            },
    {
        self.images.get(id.key)
    }

    /// Register a folder: a fresh record with an empty image list, status
    /// still `Scanning`, inserted before control returns to the caller.
    pub fn add_folder(&mut self, folder_path: String) -> (id: FolderID)
        requires
            old(self).wf(),
        ensures
            final(self).wf(),
            folder_added(*old(self), *final(self), folder_path@, id),
    {
        let path_copy = folder_path.clone();
        let key = self.folders.insert(
            FolderData {
                id: FolderID { key: ArenaKey { idx: 0, generation: 0 } },
                folder_path,
                images: Vec::new(),
                status: ScanStatus::Scanning,
            },
        );
        let id = FolderID { key };
        self.folders.update_value(
            key,
            FolderData {
                id,
                folder_path: path_copy,
                images: Vec::new(),
                status: ScanStatus::Scanning,
            },
        );
        proof {
            assert(self.spec_folders()[key].images@ =~= Seq::<ImageID>::empty());
            assert forall|k: ArenaKey| #[trigger]
                self.spec_folders().contains_key(k) implies folder_entry_wf(
                self.spec_folders()[k],
                k,
                self.spec_images(),
            ) by {
                if k != key {
                    assert(old(self).spec_folders().contains_key(k));
                    assert(self.spec_folders()[k] == old(self).spec_folders()[k]);
                }
            }
        }
        id
    }

    /// Insert one scan's batch.  Every record is accepted into the image
    /// table under a fresh identifier, assigned here and never before.  If
    /// the folder still exists, the new identifiers are linked to it and its
    /// scan is complete; if not, the folder table is untouched and the new
    /// images stay orphaned.
    pub fn add_files_batch(&mut self, folder_id: FolderID, records: Vec<ImageData>) -> (ids: Vec<
        ImageID,
    >)
        requires
            old(self).wf(),
            forall|j: int| 0 <= j < records@.len() ==> record_wf(#[trigger] records@[j]),
        ensures
            final(self).wf(),
            batch_applied(*old(self), *final(self), folder_id, records@, ids@),
    {
        let ghost pre = *old(self);
        let ghost all = records@;
        let mut records = records;
        let mut ids: Vec<ImageID> = Vec::new();
        // A second copy of the fresh identifiers, to be handed to the folder.
        let mut link_ids: Vec<ImageID> = Vec::new();
        while records.len() > 0
            invariant
                ids@.len() + records@.len() == all.len(),
                records@ == all.skip(ids@.len() as int),
                link_ids@ == ids@,
                self.spec_folders() == pre.spec_folders(),
                forall|j: int|
                    0 <= j < ids@.len() ==> !pre.spec_images().contains_key(
                        (#[trigger] ids@[j]).key,
                    ),
                forall|j1: int, j2: int| 0 <= j1 < j2 < ids@.len() ==> ids@[j1].key != ids@[j2].key,
                forall|j: int|
                    0 <= j < ids@.len() ==> self.spec_images().contains_key(
                        (#[trigger] ids@[j]).key,
                    ) && self.spec_images()[ids@[j].key] == assigned(all[j], ids@[j]),
                forall|k: ArenaKey|
                    (#[trigger] pre.spec_images().contains_key(k))
                        ==> self.spec_images().contains_key(k) && self.spec_images()[k]
                        == pre.spec_images()[k],
                forall|k: ArenaKey|
                    (#[trigger] self.spec_images().contains_key(k))
                        ==> pre.spec_images().contains_key(k) || exists|j: int|
                        0 <= j < ids@.len() && (#[trigger] ids@[j]).key == k,
                pre.wf(),
                forall|j: int| 0 <= j < all.len() ==> record_wf(#[trigger] all[j]),
            decreases records@.len(),
        {
            let ghost j = ids@.len() as int;
            let ghost ids0 = ids@;
            let ghost cur = self.spec_images();
            let rec = records.remove(0);
            proof {
                assert(rec == all[j]);
                assert(all.skip(j).remove(0) =~= all.skip(j + 1));
            }
            let ImageData { folder_id: rec_folder, file_path, file_name_index, image } = rec;
            let path_copy = file_path.clone();
            let key = self.images.insert(
                ImageData { folder_id: rec_folder, file_path, file_name_index, image },
            );
            let id = ImageID { key };
            self.images.update_value(
                key,
                ImageData {
                    folder_id: rec_folder,
                    file_path: path_copy,
                    file_name_index,
                    image: Image { id: Some(id), width: image.width, height: image.height },
                },
            );
            ids.push(id);
            link_ids.push(id);
            proof {
                assert(self.spec_images() =~= cur.insert(key, assigned(all[j], id)));
                assert forall|k: ArenaKey| #[trigger]
                    self.spec_images().contains_key(k) implies pre.spec_images().contains_key(k)
                    || exists|t: int| 0 <= t < ids@.len() && (#[trigger] ids@[t]).key == k by {
                    if k == key {
                        assert(0 <= j < ids@.len() && ids@[j].key == k);
                    } else {
                        assert(cur.contains_key(k));
                        if !pre.spec_images().contains_key(k) {
                            let t0 = choose|t: int|
                                0 <= t < ids0.len() && (#[trigger] ids0[t]).key == k;
                            assert(0 <= t0 < ids@.len() && ids@[t0].key == k);
                        }
                    }
                }
            }
        }
        let has = self.folders.contains(folder_id.key);
        if has {
            let placeholder = FolderData {
                id: folder_id,
                folder_path: String::new(),
                images: Vec::new(),
                status: ScanStatus::Ready,
            };
            let fd = self.folders.replace(folder_id.key, placeholder);
            let ghost fd0 = pre.spec_folders()[folder_id.key];
            let FolderData { id: fd_id, folder_path, images: mut linked, status: _ } = fd;
            linked.append(&mut link_ids);
            self.folders.update_value(
                folder_id.key,
                FolderData {
                    id: fd_id,
                    folder_path,
                    images: linked,
                    status: ScanStatus::Ready,
                },
            );
            proof {
                assert(self.spec_folders() =~= pre.spec_folders().insert(
                    folder_id.key,
                    self.spec_folders()[folder_id.key],
                ));
                let post_fd = self.spec_folders()[folder_id.key];
                assert(post_fd.images@ == fd0.images@ + ids@);
                // Soundness of the grown folder entry.
                assert(folder_entry_wf(fd0, folder_id.key, pre.spec_images()));
                assert forall|j1: int, j2: int|
                    0 <= j1 < j2 < post_fd.images@.len() implies post_fd.images@[j1]
                    != post_fd.images@[j2] by {
                    let n0 = fd0.images@.len() as int;
                    if j1 < n0 && j2 >= n0 {
                        assert(pre.spec_images().contains_key(fd0.images@[j1].key));
                        assert(!pre.spec_images().contains_key(ids@[j2 - n0].key));
                        assert(post_fd.images@[j1].key != post_fd.images@[j2].key);
                    }
                }
                assert forall|j: int| 0 <= j < post_fd.images@.len() implies
                    self.spec_images().contains_key((#[trigger] post_fd.images@[j]).key) by {
                    let n0 = fd0.images@.len() as int;
                    if j < n0 {
                        assert(pre.spec_images().contains_key(fd0.images@[j].key));
                    } else {
                        assert(post_fd.images@[j] == ids@[j - n0]);
                    }
                }
                assert(folder_entry_wf(post_fd, folder_id.key, self.spec_images()));
                // Soundness of the untouched folder entries.
                assert forall|k: ArenaKey| #[trigger]
                    self.spec_folders().contains_key(k) implies folder_entry_wf(
                    self.spec_folders()[k],
                    k,
                    self.spec_images(),
                ) by {
                    if k != folder_id.key {
                        assert(pre.spec_folders().contains_key(k));
                        assert(folder_entry_wf(pre.spec_folders()[k], k, pre.spec_images()));
                        let fdk = self.spec_folders()[k];
                        assert forall|j: int| 0 <= j < fdk.images@.len() implies
                            self.spec_images().contains_key((#[trigger] fdk.images@[j]).key) by {
                            assert(pre.spec_images().contains_key(fdk.images@[j].key));
                        }
                    }
                }
            }
        } else {
            proof {
                assert forall|k: ArenaKey| #[trigger]
                    self.spec_folders().contains_key(k) implies folder_entry_wf(
                    self.spec_folders()[k],
                    k,
                    self.spec_images(),
                ) by {
                    assert(pre.spec_folders().contains_key(k));
                    assert(folder_entry_wf(pre.spec_folders()[k], k, pre.spec_images()));
                    let fdk = self.spec_folders()[k];
                    assert forall|j: int| 0 <= j < fdk.images@.len() implies
                        self.spec_images().contains_key((#[trigger] fdk.images@[j]).key) by {
                        assert(pre.spec_images().contains_key(fdk.images@[j].key));
                    }
                }
            }
        }
        ids
    }

    /// Apply one command, returning the folder whose scan it triggered:
    /// exactly one per `AddFolder`, none for a batch.
    pub fn apply_command(&mut self, cmd: DbCommand) -> (scan: Option<FolderID>)
        requires
            old(self).wf(),
            command_wf(cmd),
        ensures
            final(self).wf(),
            command_applied(*old(self), *final(self), cmd, scan),
    {
        match cmd {
            DbCommand::AddFolder(path) => {
                let id = self.add_folder(path);
                Some(id)
            },
            DbCommand::AddFilesBatch { folder_id, images } => {
                let ghost recs = images@;
                let ids = self.add_files_batch(folder_id, images);
                proof {
                    assert(batch_applied(*old(self), *self, folder_id, recs, ids@));
                }
                None
            },
        }
    }

    /// Drain a whole arrival sequence of commands, one at a time, each
    /// applied fully before the next.  The result is exactly the sequential
    /// application of the commands in arrival order — the linearization of
    /// everything the producers enqueued — and the returned folder
    /// identifiers are the triggered scans, in that same order.
    pub fn apply_commands(&mut self, cmds: Vec<DbCommand>) -> (scans: Vec<FolderID>)
        requires
            old(self).wf(),
            forall|j: int| 0 <= j < cmds@.len() ==> command_wf(#[trigger] cmds@[j]),
        ensures
            final(self).wf(),
            commands_applied(*old(self), *final(self), cmds@, scans@),
    {
        let ghost all = cmds@;
        let ghost pre = *old(self);
        let mut cmds = cmds;
        let mut scans: Vec<FolderID> = Vec::new();
        proof {
            assert(all.take(0) =~= Seq::<DbCommand>::empty());
        }
        while cmds.len() > 0
            invariant
                cmds@.len() <= all.len(),
                cmds@ == all.skip(all.len() - cmds@.len()),
                self.wf(),
                commands_applied(pre, *self, all.take(all.len() - cmds@.len()), scans@),
                forall|j: int| 0 <= j < all.len() ==> command_wf(#[trigger] all[j]),
            decreases cmds@.len(),
        {
            let ghost k = all.len() - cmds@.len();
            let ghost prev = *self;
            let ghost old_scans = scans@;
            let c = cmds.remove(0);
            proof {
                assert(c == all[k]);
                assert(all.skip(k).remove(0) =~= all.skip(k + 1));
            }
            let scan = self.apply_command(c);
            if let Some(id) = scan {
                scans.push(id);
            }
            proof {
                assert(all.take(k + 1).drop_last() =~= all.take(k));
                assert(all.take(k + 1).last() == all[k]);
                match all[k] {
                    DbCommand::AddFolder(_) => {
                        let id = scan->0;
                        assert(scans@ == old_scans.push(id));
                        assert(scans@.drop_last() =~= old_scans);
                        assert(commands_applied(pre, prev, all.take(k + 1).drop_last(), scans@.drop_last()));
                        assert(command_applied(prev, *self, all.take(k + 1).last(), Some(scans@.last())));
                        assert(commands_applied(pre, *self, all.take(k + 1), scans@)) by {
                            reveal_with_fuel(commands_applied, 2);
                            assert(all.take(k + 1).drop_last() =~= all.take(k));
                            assert(commands_applied(
                                pre,
                                prev,
                                all.take(k + 1).drop_last(),
                                scans@.drop_last(),
                            ) && command_applied(
                                prev,
                                *self,
                                all.take(k + 1).last(),
                                Some(scans@.last()),
                            ));
                        }
                    },
                    DbCommand::AddFilesBatch { .. } => {
                        assert(scans@ == old_scans);
                        assert(commands_applied(pre, prev, all.take(k + 1).drop_last(), scans@));
                        assert(command_applied(prev, *self, all.take(k + 1).last(), None));
                        assert(commands_applied(pre, *self, all.take(k + 1), scans@)) by {
                            reveal_with_fuel(commands_applied, 2);
                            assert(all.take(k + 1).drop_last() =~= all.take(k));
                            assert(commands_applied(pre, prev, all.take(k + 1).drop_last(), scans@)
                                && command_applied(prev, *self, all.take(k + 1).last(), None));
                        }
                    },
                }
            }
        }
        proof {
            assert(all.take(all.len() - 0) =~= all);
        }
        scans
    }
}

} // verus!

