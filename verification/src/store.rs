//! The relational model the pipeline persists into: photo rows keyed
//! by a unique path, logical-photo rows, stack rows and source-folder
//! rows, each with monotonically growing ids. Inserting an existing
//! path never duplicates the row and never overwrites its metadata;
//! stacks and logical photos are cleared and rebuilt per run, while
//! photo rows survive. The caller mirrors this model to its on-disk
//! store row for row.

use vstd::prelude::*;
use crate::model::{clone_opt_string, PhotoFormat, ScannedFile};
use crate::paths::{dir_of, file_name_of, lower_seq, split_path, stem_of};

verus! {

/// One row of the photos table.
#[derive(Debug, Clone)]
pub struct PhotoRow {
    pub id: i64,
    pub path: String,
    pub format: PhotoFormat,
    pub capture_time: Option<i64>,
    pub orientation: Option<u16>,
    pub camera_model: Option<String>,
    pub lens: Option<String>,
    pub logical_photo_id: Option<i64>,
}

impl PhotoRow {
    pub fn duplicate(&self) -> (r: PhotoRow)
        ensures
            r == *self,
    {
        PhotoRow {
            id: self.id,
            path: self.path.clone(),
            format: self.format,
            capture_time: self.capture_time,
            orientation: self.orientation,
            camera_model: clone_opt_string(&self.camera_model),
            lens: clone_opt_string(&self.lens),
            logical_photo_id: self.logical_photo_id,
        }
    }
}

/// One row of the logical-photos table.
#[derive(Debug, Clone, Copy, PartialEq, Eq, Structural)]
pub struct LogicalPhotoRow {
    pub id: i64,
    pub project_id: i64,
    pub representative_photo_id: i64,
    pub stack_id: i64,
}

/// One row of the stacks table.
#[derive(Debug, Clone, Copy, PartialEq, Eq, Structural)]
pub struct StackRow {
    pub id: i64,
    pub project_id: i64,
}

/// One row of the source-folders table.
#[derive(Debug, Clone)]
pub struct FolderRow {
    pub id: i64,
    pub project_id: i64,
    pub path: String,
}

/// A photo row with its logical-photo link replaced.
pub open spec fn with_lp(r: PhotoRow, lp: Option<i64>) -> PhotoRow {
    PhotoRow { logical_photo_id: lp, ..r }
}

/// The first photo row carrying the given id, if any.
pub open spec fn photo_with_id(photos: Seq<PhotoRow>, id: i64) -> Option<PhotoRow>
    decreases photos.len(),
{
    if photos.len() == 0 {
        None
    } else if photos[0].id == id {
        Some(photos[0])
    } else {
        photo_with_id(photos.drop_first(), id)
    }
}

/// A row with the id exists exactly when the first-match lookup
/// finds one.
pub proof fn lemma_photo_with_id_some_index(photos: Seq<PhotoRow>, id: i64)
    requires
        photo_with_id(photos, id) is Some,
    ensures
        exists|i: int| 0 <= i < photos.len() && (#[trigger] photos[i]).id == id,
    decreases photos.len(),
{
    if photos.len() > 0 {
        if photos[0].id == id {
            assert(photos[0].id == id);
        } else {
            lemma_photo_with_id_some_index(photos.drop_first(), id);
            let i = choose|i: int|
                0 <= i < photos.drop_first().len() && (#[trigger] photos.drop_first()[i]).id == id;
            assert(photos[i + 1].id == id);
        }
    }
}

/// When the first-match lookup finds nothing, no row has the id.
pub proof fn lemma_photo_with_id_none(photos: Seq<PhotoRow>, id: i64)
    requires
        photo_with_id(photos, id) is None,
    ensures
        forall|i: int| 0 <= i < photos.len() ==> (#[trigger] photos[i]).id != id,
    decreases photos.len(),
{
    if photos.len() > 0 {
        lemma_photo_with_id_none(photos.drop_first(), id);
        assert forall|i: int| 0 <= i < photos.len() implies (#[trigger] photos[i]).id != id by {
            if i >= 1 {
                assert(photos.drop_first()[i - 1].id != id);
            }
        }
    }
}

/// When some row has the id, the first-match lookup finds one.
pub proof fn lemma_photo_with_id_some(photos: Seq<PhotoRow>, id: i64)
    requires
        exists|i: int| 0 <= i < photos.len() && (#[trigger] photos[i]).id == id,
    ensures
        photo_with_id(photos, id) is Some,
    decreases photos.len(),
{
    if photos.len() > 0 && photos[0].id != id {
        let i = choose|i: int| 0 <= i < photos.len() && (#[trigger] photos[i]).id == id;
        assert(photos.drop_first()[i - 1].id == id);
        lemma_photo_with_id_some(photos.drop_first(), id);
    }
}

/// Keeps the logical-photo rows of other projects.
pub open spec fn lp_keep_pred(project_id: i64) -> spec_fn(LogicalPhotoRow) -> bool {
    |l: LogicalPhotoRow| l.project_id != project_id
}

/// Picks the logical-photo rows of one project.
pub open spec fn lp_project_pred(project_id: i64) -> spec_fn(LogicalPhotoRow) -> bool {
    |l: LogicalPhotoRow| l.project_id == project_id
}

/// Keeps the stack rows of other projects.
pub open spec fn stack_keep_pred(project_id: i64) -> spec_fn(StackRow) -> bool {
    |l: StackRow| l.project_id != project_id
}

/// Picks the stack rows of one project.
pub open spec fn stack_project_pred(project_id: i64) -> spec_fn(StackRow) -> bool {
    |l: StackRow| l.project_id == project_id
}

/// Is `lp_id` a logical photo of the given project?
pub open spec fn lp_in_project(lps: Seq<LogicalPhotoRow>, lp_id: i64, project_id: i64) -> bool {
    exists|j: int|
        0 <= j < lps.len() && (#[trigger] lps[j]).id == lp_id && lps[j].project_id == project_id
}

/// Picks the photo rows linked to a logical photo of the project.
pub open spec fn photo_linked_pred(lps: Seq<LogicalPhotoRow>, project_id: i64) -> spec_fn(
    PhotoRow,
) -> bool {
    |p: PhotoRow|
        match p.logical_photo_id {
            Some(l) => lp_in_project(lps, l, project_id),
            None => false,
        }
}

/// One returned representative entry `e` corresponds to the
/// logical-photo row at index `j`: the row belongs to the project,
/// was asked for, and `e` carries its id and its representative
/// photo's path, format and orientation.
pub open spec fn repr_entry_matches(
    lps: Seq<LogicalPhotoRow>,
    photos: Seq<PhotoRow>,
    project_id: i64,
    ids: Seq<i64>,
    e: (i64, String, PhotoFormat, Option<u16>),
    j: int,
) -> bool {
    &&& 0 <= j < lps.len()
    &&& lps[j].project_id == project_id
    &&& ids.contains(lps[j].id)
    &&& e.0 == lps[j].id
    &&& photo_with_id(photos, lps[j].representative_photo_id) is Some
    &&& e.1@ == photo_with_id(photos, lps[j].representative_photo_id)->Some_0.path@
    &&& e.2 == photo_with_id(photos, lps[j].representative_photo_id)->Some_0.format
    &&& e.3 == photo_with_id(photos, lps[j].representative_photo_id)->Some_0.orientation
}

/// `e` is a valid representative entry for some logical-photo row.
pub open spec fn is_repr_entry(
    lps: Seq<LogicalPhotoRow>,
    photos: Seq<PhotoRow>,
    project_id: i64,
    ids: Seq<i64>,
    e: (i64, String, PhotoFormat, Option<u16>),
) -> bool {
    exists|j: int| repr_entry_matches(lps, photos, project_id, ids, e, j)
}

/// The scanned-file view of a photo row: the stored fields plus the
/// pairing key recomputed from the path.
pub open spec fn scanned_of(row: PhotoRow, f: ScannedFile) -> bool {
    &&& f.path@ == row.path@
    &&& f.format == row.format
    &&& f.capture_time == row.capture_time
    &&& f.camera_model == row.camera_model
    &&& f.lens == row.lens
    &&& f.orientation == row.orientation
    &&& f.base_name@ == lower_seq(stem_of(file_name_of(row.path@)))
    &&& f.dir@ == dir_of(row.path@)
}

/// The in-memory relational store.
#[derive(Debug)]
pub struct Store {
    pub photos: Vec<PhotoRow>,
    pub logical_photos: Vec<LogicalPhotoRow>,
    pub stacks: Vec<StackRow>,
    pub source_folders: Vec<FolderRow>,
    pub next_photo_id: i64,
    pub next_logical_photo_id: i64,
    pub next_stack_id: i64,
    pub next_folder_id: i64,
}

impl Store {
    pub open spec fn photos_ok(self) -> bool {
        &&& 1 <= self.next_photo_id
        &&& forall|i: int|
            0 <= i < self.photos@.len() ==> 1 <= (#[trigger] self.photos@[i]).id
                < self.next_photo_id
        &&& forall|i: int, j: int|
            0 <= i < j < self.photos@.len() ==> (#[trigger] self.photos@[i]).id != (
            #[trigger] self.photos@[j]).id
        &&& forall|i: int, j: int|
            0 <= i < j < self.photos@.len() ==> (#[trigger] self.photos@[i]).path@ != (
            #[trigger] self.photos@[j]).path@
    }

    pub open spec fn lps_ok(self) -> bool {
        &&& 1 <= self.next_logical_photo_id
        &&& forall|i: int|
            0 <= i < self.logical_photos@.len() ==> 1 <= (#[trigger] self.logical_photos@[i]).id
                < self.next_logical_photo_id
        &&& forall|i: int, j: int|
            0 <= i < j < self.logical_photos@.len() ==> (#[trigger] self.logical_photos@[i]).id
                != (#[trigger] self.logical_photos@[j]).id
    }

    pub open spec fn stacks_ok(self) -> bool {
        &&& 1 <= self.next_stack_id
        &&& forall|i: int|
            0 <= i < self.stacks@.len() ==> 1 <= (#[trigger] self.stacks@[i]).id
                < self.next_stack_id
        &&& forall|i: int, j: int|
            0 <= i < j < self.stacks@.len() ==> (#[trigger] self.stacks@[i]).id != (
            #[trigger] self.stacks@[j]).id
    }

    pub open spec fn folders_ok(self) -> bool {
        &&& 1 <= self.next_folder_id
        &&& forall|i: int|
            0 <= i < self.source_folders@.len() ==> 1 <= (#[trigger] self.source_folders@[i]).id
                < self.next_folder_id
        &&& forall|i: int, j: int|
            0 <= i < j < self.source_folders@.len() ==> (#[trigger] self.source_folders@[i]).id
                != (#[trigger] self.source_folders@[j]).id
    }

    /// Well-formed: all ids positive, unique, and below their table's
    /// next id; photo paths unique.
    pub open spec fn wf(self) -> bool {
        &&& self.photos_ok()
        &&& self.lps_ok()
        &&& self.stacks_ok()
        &&& self.folders_ok()
    }

    /// Every logical photo's representative photo row exists.
    pub open spec fn reps_ok(self) -> bool {
        forall|j: int|
            0 <= j < self.logical_photos@.len() ==> photo_with_id(
                self.photos@,
                (#[trigger] self.logical_photos@[j]).representative_photo_id,
            ) is Some
    }

    pub open spec fn has_photo_path(self, p: Seq<char>) -> bool {
        exists|i: int| 0 <= i < self.photos@.len() && (#[trigger] self.photos@[i]).path@ == p
    }

    /// An empty store.
    pub fn new() -> (r: Store)
        ensures
            r.wf(),
            r.photos@.len() == 0,
            r.logical_photos@.len() == 0,
            r.stacks@.len() == 0,
            r.source_folders@.len() == 0,
            r.next_photo_id == 1,
            r.next_logical_photo_id == 1,
            r.next_stack_id == 1,
            r.next_folder_id == 1,
    {
        Store {
            photos: Vec::new(),
            logical_photos: Vec::new(),
            stacks: Vec::new(),
            source_folders: Vec::new(),
            next_photo_id: 1,
            next_logical_photo_id: 1,
            next_stack_id: 1,
            next_folder_id: 1,
        }
    }

    fn find_photo_by_path(&self, path: &String) -> (r: Option<usize>)
        ensures
            match r {
                Some(i) => i < self.photos@.len() && self.photos@[i as int].path@ == path@,
                None => !self.has_photo_path(path@),
            },
    {
        let n = self.photos.len();
        let mut i: usize = 0;
        while i < n
            invariant
                i <= n == self.photos@.len(),
                forall|j: int| 0 <= j < i ==> (#[trigger] self.photos@[j]).path@ != path@,
            decreases n - i,
        {
            if self.photos[i].path.eq(path) {
                return Some(i);
            }
            i = i + 1;
        }
        None
    }

    /// Returns true if a photo with the given path already exists.
    pub fn photo_exists(&self, path: &String) -> (r: bool)
        ensures
            r == self.has_photo_path(path@),
    {
        self.find_photo_by_path(path).is_some()
    }

    /// Insert-or-ignore keyed by the unique path: a new row gets the
    /// next id and no logical-photo link; an existing row is left
    /// untouched (first write wins) and its id is returned.
    pub fn insert_photo(
        &mut self,
        path: String,
        format: PhotoFormat,
        capture_time: Option<i64>,
        orientation: Option<u16>,
        camera_model: Option<String>,
        lens: Option<String>,
    ) -> (id: i64)
        requires
            old(self).wf(),
            old(self).next_photo_id < i64::MAX,
        ensures
            final(self).wf(),
            old(self).has_photo_path(path@) ==> *final(self) == *old(self) && exists|i: int|
                0 <= i < final(self).photos@.len() && (#[trigger] final(self).photos@[i]).path@
                    == path@ && final(self).photos@[i].id == id,
            !old(self).has_photo_path(path@) ==> {
                &&& id == old(self).next_photo_id
                &&& final(self).photos@ == old(self).photos@.push(
                    PhotoRow {
                        id,
                        path,
                        format,
                        capture_time,
                        orientation,
                        camera_model,
                        lens,
                        logical_photo_id: None,
                    },
                )
                &&& final(self).next_photo_id == old(self).next_photo_id + 1
                &&& final(self).logical_photos@ == old(self).logical_photos@
                &&& final(self).stacks@ == old(self).stacks@
                &&& final(self).source_folders@ == old(self).source_folders@
                &&& final(self).next_logical_photo_id == old(self).next_logical_photo_id
                &&& final(self).next_stack_id == old(self).next_stack_id
                &&& final(self).next_folder_id == old(self).next_folder_id
            },
            forall|p: Seq<char>|
                old(self).has_photo_path(p) ==> #[trigger] final(self).has_photo_path(p),
    {
        match self.find_photo_by_path(&path) {
            Some(i) => self.photos[i].id,
            None => {
                let id = self.next_photo_id;
                let row = PhotoRow {
                    id,
                    path,
                    format,
                    capture_time,
                    orientation,
                    camera_model,
                    lens,
                    logical_photo_id: None,
                };
                self.photos.push(row);
                self.next_photo_id = id + 1;
                proof {
                    let ph = self.photos@;
                    let oldph = old(self).photos@;
                    assert(!old(self).has_photo_path(path@));
                    assert(forall|i: int|
                        0 <= i < oldph.len() ==> (#[trigger] oldph[i]).path@ != path@);
                    assert forall|i: int, j: int|
                        0 <= i < j < ph.len() implies (#[trigger] ph[i]).id != (
                    #[trigger] ph[j]).id && ph[i].path@ != ph[j].path@ by {
                        if j == ph.len() - 1 {
                            assert(ph[i] == oldph[i]);
                            assert(oldph[i].id < id);
                        } else {
                            assert(ph[i] == oldph[i] && ph[j] == oldph[j]);
                        }
                    }
                    assert forall|i: int| 0 <= i < ph.len() implies 1 <= (#[trigger] ph[i]).id
                        < self.next_photo_id by {
                        if i < ph.len() - 1 {
                            assert(ph[i] == oldph[i]);
                        }
                    }
                    assert forall|p: Seq<char>|
                        old(self).has_photo_path(p) implies #[trigger] self.has_photo_path(p) by {
                        let w = choose|w: int| 0 <= w < oldph.len() && oldph[w].path@ == p;
                        assert(ph[w] == oldph[w]);
                    }
                }
                id
            },
        }
    }

    /// Insert a new stack row for the project; returns its fresh id.
    pub fn insert_stack(&mut self, project_id: i64) -> (id: i64)
        requires
            old(self).wf(),
            old(self).next_stack_id < i64::MAX,
        ensures
            final(self).wf(),
            id == old(self).next_stack_id,
            final(self).stacks@ == old(self).stacks@.push(StackRow { id, project_id }),
            final(self).next_stack_id == old(self).next_stack_id + 1,
            final(self).photos@ == old(self).photos@,
            final(self).logical_photos@ == old(self).logical_photos@,
            final(self).source_folders@ == old(self).source_folders@,
            final(self).next_photo_id == old(self).next_photo_id,
            final(self).next_logical_photo_id == old(self).next_logical_photo_id,
            final(self).next_folder_id == old(self).next_folder_id,
    {
        let id = self.next_stack_id;
        self.stacks.push(StackRow { id, project_id });
        self.next_stack_id = id + 1;
        proof {
            let st = self.stacks@;
            let oldst = old(self).stacks@;
            assert forall|i: int, j: int|
                0 <= i < j < st.len() implies (#[trigger] st[i]).id != (#[trigger] st[j]).id by {
                if j == st.len() - 1 {
                    assert(st[i] == oldst[i]);
                    assert(oldst[i].id < id);
                } else {
                    assert(st[i] == oldst[i] && st[j] == oldst[j]);
                }
            }
            assert forall|i: int| 0 <= i < st.len() implies 1 <= (#[trigger] st[i]).id
                < self.next_stack_id by {
                if i < st.len() - 1 {
                    assert(st[i] == oldst[i]);
                }
            }
        }
        id
    }

    /// Insert a new logical-photo row; returns its fresh id.
    pub fn insert_logical_photo(
        &mut self,
        project_id: i64,
        representative_photo_id: i64,
        stack_id: i64,
    ) -> (id: i64)
        requires
            old(self).wf(),
            old(self).next_logical_photo_id < i64::MAX,
        ensures
            final(self).wf(),
            id == old(self).next_logical_photo_id,
            final(self).logical_photos@ == old(self).logical_photos@.push(
                LogicalPhotoRow { id, project_id, representative_photo_id, stack_id },
            ),
            final(self).next_logical_photo_id == old(self).next_logical_photo_id + 1,
            final(self).photos@ == old(self).photos@,
            final(self).stacks@ == old(self).stacks@,
            final(self).source_folders@ == old(self).source_folders@,
            final(self).next_photo_id == old(self).next_photo_id,
            final(self).next_stack_id == old(self).next_stack_id,
            final(self).next_folder_id == old(self).next_folder_id,
    {
        let id = self.next_logical_photo_id;
        self.logical_photos.push(
            LogicalPhotoRow { id, project_id, representative_photo_id, stack_id },
        );
        self.next_logical_photo_id = id + 1;
        proof {
            let lp = self.logical_photos@;
            let oldlp = old(self).logical_photos@;
            assert forall|i: int, j: int|
                0 <= i < j < lp.len() implies (#[trigger] lp[i]).id != (#[trigger] lp[j]).id by {
                if j == lp.len() - 1 {
                    assert(lp[i] == oldlp[i]);
                    assert(oldlp[i].id < id);
                } else {
                    assert(lp[i] == oldlp[i] && lp[j] == oldlp[j]);
                }
            }
            assert forall|i: int| 0 <= i < lp.len() implies 1 <= (#[trigger] lp[i]).id
                < self.next_logical_photo_id by {
                if i < lp.len() - 1 {
                    assert(lp[i] == oldlp[i]);
                }
            }
        }
        id
    }

    /// Point the photo row with the given id at a logical photo.
    pub fn set_logical_photo_id(&mut self, photo_id: i64, logical_photo_id: i64)
        requires
            old(self).wf(),
        ensures
            final(self).wf(),
            final(self).photos@.len() == old(self).photos@.len(),
            forall|i: int|
                0 <= i < old(self).photos@.len() ==> (#[trigger] final(self).photos@[i]) == (
                if old(self).photos@[i].id == photo_id {
                    with_lp(old(self).photos@[i], Some(logical_photo_id))
                } else {
                    old(self).photos@[i]
                }),
            final(self).logical_photos@ == old(self).logical_photos@,
            final(self).stacks@ == old(self).stacks@,
            final(self).source_folders@ == old(self).source_folders@,
            final(self).next_photo_id == old(self).next_photo_id,
            final(self).next_logical_photo_id == old(self).next_logical_photo_id,
            final(self).next_stack_id == old(self).next_stack_id,
            final(self).next_folder_id == old(self).next_folder_id,
            forall|p: Seq<char>|
                old(self).has_photo_path(p) ==> #[trigger] final(self).has_photo_path(p),
    {
        let n = self.photos.len();
        let mut out: Vec<PhotoRow> = Vec::new();
        let mut i: usize = 0;
        while i < n
            invariant
                i <= n == self.photos@.len(),
                out@.len() == i,
                forall|j: int|
                    0 <= j < i ==> (#[trigger] out@[j]) == (if self.photos@[j].id == photo_id {
                        with_lp(self.photos@[j], Some(logical_photo_id))
                    } else {
                        self.photos@[j]
                    }),
            decreases n - i,
        {
            let row = self.photos[i].duplicate();
            if row.id == photo_id {
                out.push(PhotoRow { logical_photo_id: Some(logical_photo_id), ..row });
            } else {
                out.push(row);
            }
            i = i + 1;
        }
        self.photos = out;
        proof {
            assert forall|i2: int|
                0 <= i2 < self.photos@.len() implies 1 <= (#[trigger] self.photos@[i2]).id
                < self.next_photo_id by {
                assert(self.photos@[i2].id == old(self).photos@[i2].id);
            }
            assert forall|i2: int, j2: int|
                0 <= i2 < j2 < self.photos@.len() implies (#[trigger] self.photos@[i2]).id != (
            #[trigger] self.photos@[j2]).id && self.photos@[i2].path@ != self.photos@[j2].path@ by {
                assert(self.photos@[i2].id == old(self).photos@[i2].id);
                assert(self.photos@[j2].id == old(self).photos@[j2].id);
                assert(self.photos@[i2].path@ == old(self).photos@[i2].path@);
                assert(self.photos@[j2].path@ == old(self).photos@[j2].path@);
            }
            assert forall|p: Seq<char>|
                old(self).has_photo_path(p) implies #[trigger] self.has_photo_path(p) by {
                let w = choose|w: int|
                    0 <= w < old(self).photos@.len() && old(self).photos@[w].path@ == p;
                assert(self.photos@[w].path@ == old(self).photos@[w].path@);
            }
        }
    }
    /// Decide the photo table's part of well-formedness.
    pub fn check_photos_ok(&self) -> (r: bool)
        ensures
            r == self.photos_ok(),
    {
        if self.next_photo_id < 1 {
            return false;
        }
        let n = self.photos.len();
        let mut i: usize = 0;
        while i < n
            invariant
                i <= n == self.photos@.len(),
                forall|a: int| 0 <= a < i ==> 1 <= (#[trigger] self.photos@[a]).id
                    < self.next_photo_id,
                forall|a: int, b: int|
                    0 <= a < i && a < b < n ==> (#[trigger] self.photos@[a]).id != (
                    #[trigger] self.photos@[b]).id && self.photos@[a].path@
                        != self.photos@[b].path@,
            decreases n - i,
        {
            let row = &self.photos[i];
            if !(1 <= row.id && row.id < self.next_photo_id) {
                return false;
            }
            let mut j: usize = i + 1;
            while j < n
                invariant
                    i < j <= n == self.photos@.len(),
                    forall|b: int|
                        i < b < j ==> (#[trigger] self.photos@[b]).id != self.photos@[i as int].id
                            && self.photos@[b].path@ != self.photos@[i as int].path@,
                decreases n - j,
            {
                if self.photos[j].id == self.photos[i].id {
                    return false;
                }
                if self.photos[j].path.eq(&self.photos[i].path) {
                    return false;
                }
                j = j + 1;
            }
            i = i + 1;
        }
        true
    }

    /// Decide the logical-photo table's part of well-formedness.
    pub fn check_lps_ok(&self) -> (r: bool)
        ensures
            r == self.lps_ok(),
    {
        if self.next_logical_photo_id < 1 {
            return false;
        }
        let n = self.logical_photos.len();
        let mut i: usize = 0;
        while i < n
            invariant
                i <= n == self.logical_photos@.len(),
                forall|a: int| 0 <= a < i ==> 1 <= (#[trigger] self.logical_photos@[a]).id
                    < self.next_logical_photo_id,
                forall|a: int, b: int|
                    0 <= a < i && a < b < n ==> (#[trigger] self.logical_photos@[a]).id != (
                    #[trigger] self.logical_photos@[b]).id,
            decreases n - i,
        {
            let row = self.logical_photos[i];
            if !(1 <= row.id && row.id < self.next_logical_photo_id) {
                return false;
            }
            let mut j: usize = i + 1;
            while j < n
                invariant
                    i < j <= n == self.logical_photos@.len(),
                    forall|b: int|
                        i < b < j ==> (#[trigger] self.logical_photos@[b]).id
                            != self.logical_photos@[i as int].id,
                decreases n - j,
            {
                if self.logical_photos[j].id == self.logical_photos[i].id {
                    return false;
                }
                j = j + 1;
            }
            i = i + 1;
        }
        true
    }

    /// Decide the stack table's part of well-formedness.
    pub fn check_stacks_ok(&self) -> (r: bool)
        ensures
            r == self.stacks_ok(),
    {
        if self.next_stack_id < 1 {
            return false;
        }
        let n = self.stacks.len();
        let mut i: usize = 0;
        while i < n
            invariant
                i <= n == self.stacks@.len(),
                forall|a: int| 0 <= a < i ==> 1 <= (#[trigger] self.stacks@[a]).id
                    < self.next_stack_id,
                forall|a: int, b: int|
                    0 <= a < i && a < b < n ==> (#[trigger] self.stacks@[a]).id != (
                    #[trigger] self.stacks@[b]).id,
            decreases n - i,
        {
            let row = self.stacks[i];
            if !(1 <= row.id && row.id < self.next_stack_id) {
                return false;
            }
            let mut j: usize = i + 1;
            while j < n
                invariant
                    i < j <= n == self.stacks@.len(),
                    forall|b: int| i < b < j ==> (#[trigger] self.stacks@[b]).id
                        != self.stacks@[i as int].id,
                decreases n - j,
            {
                if self.stacks[j].id == self.stacks[i].id {
                    return false;
                }
                j = j + 1;
            }
            i = i + 1;
        }
        true
    }

    /// Decide the source-folder table's part of well-formedness.
    pub fn check_folders_ok(&self) -> (r: bool)
        ensures
            r == self.folders_ok(),
    {
        if self.next_folder_id < 1 {
            return false;
        }
        let n = self.source_folders.len();
        let mut i: usize = 0;
        while i < n
            invariant
                i <= n == self.source_folders@.len(),
                forall|a: int| 0 <= a < i ==> 1 <= (#[trigger] self.source_folders@[a]).id
                    < self.next_folder_id,
                forall|a: int, b: int|
                    0 <= a < i && a < b < n ==> (#[trigger] self.source_folders@[a]).id != (
                    #[trigger] self.source_folders@[b]).id,
            decreases n - i,
        {
            let row = &self.source_folders[i];
            if !(1 <= row.id && row.id < self.next_folder_id) {
                return false;
            }
            let mut j: usize = i + 1;
            while j < n
                invariant
                    i < j <= n == self.source_folders@.len(),
                    forall|b: int|
                        i < b < j ==> (#[trigger] self.source_folders@[b]).id
                            != self.source_folders@[i as int].id,
                decreases n - j,
            {
                if self.source_folders[j].id == self.source_folders[i].id {
                    return false;
                }
                j = j + 1;
            }
            i = i + 1;
        }
        true
    }

    /// Decide well-formedness, for callers that build a store from
    /// outside data before handing it to functions that require it.
    pub fn check_wf(&self) -> (r: bool)
        ensures
            r == self.wf(),
    {
        self.check_photos_ok() && self.check_lps_ok() && self.check_stacks_ok()
            && self.check_folders_ok()
    }

    /// Decide whether every logical photo's representative row exists.
    pub fn check_reps_ok(&self) -> (r: bool)
        ensures
            r == self.reps_ok(),
    {
        let n = self.logical_photos.len();
        let mut j: usize = 0;
        while j < n
            invariant
                j <= n == self.logical_photos@.len(),
                forall|a: int|
                    0 <= a < j ==> photo_with_id(
                        self.photos@,
                        (#[trigger] self.logical_photos@[a]).representative_photo_id,
                    ) is Some,
            decreases n - j,
        {
            let rep = self.logical_photos[j].representative_photo_id;
            if self.find_photo_by_id(rep).is_none() {
                return false;
            }
            j = j + 1;
        }
        true
    }

    /// Detach every photo of the project from its logical photo, then
    /// delete the project's logical-photo and stack rows. Photo rows
    /// are kept: they stand for files on disk.
    pub fn clear_stacks_and_logical_photos(&mut self, project_id: i64)
        requires
            old(self).wf(),
        ensures
            final(self).wf(),
            final(self).photos@.len() == old(self).photos@.len(),
            forall|i: int|
                0 <= i < old(self).photos@.len() ==> (#[trigger] final(self).photos@[i]) == (
                if photo_linked_pred(old(self).logical_photos@, project_id)(
                    old(self).photos@[i],
                ) {
                    with_lp(old(self).photos@[i], None)
                } else {
                    old(self).photos@[i]
                }),
            final(self).logical_photos@ == old(self).logical_photos@.filter(
                lp_keep_pred(project_id),
            ),
            final(self).stacks@ == old(self).stacks@.filter(stack_keep_pred(project_id)),
            final(self).source_folders@ == old(self).source_folders@,
            final(self).next_photo_id == old(self).next_photo_id,
            final(self).next_logical_photo_id == old(self).next_logical_photo_id,
            final(self).next_stack_id == old(self).next_stack_id,
            final(self).next_folder_id == old(self).next_folder_id,
    {
        let n = self.photos.len();
        let mut new_photos: Vec<PhotoRow> = Vec::new();
        let mut i: usize = 0;
        while i < n
            invariant
                i <= n == self.photos@.len(),
                new_photos@.len() == i,
                forall|j: int|
                    0 <= j < i ==> (#[trigger] new_photos@[j]) == (if photo_linked_pred(
                        self.logical_photos@,
                        project_id,
                    )(self.photos@[j]) {
                        with_lp(self.photos@[j], None)
                    } else {
                        self.photos@[j]
                    }),
            decreases n - i,
        {
            let row = self.photos[i].duplicate();
            let linked = match row.logical_photo_id {
                Some(l) => self.lp_member(l, project_id),
                None => false,
            };
            if linked {
                new_photos.push(PhotoRow { logical_photo_id: None, ..row });
            } else {
                new_photos.push(row);
            }
            i = i + 1;
        }
        let new_lps = filter_lps_keep(&self.logical_photos, project_id);
        let new_stacks = filter_stacks_keep(&self.stacks, project_id);
        proof {
            lemma_filter_distinct_ids(
                self.logical_photos@,
                lp_keep_pred(project_id),
                |l: LogicalPhotoRow| l.id,
            );
            lemma_filter_distinct_ids(
                self.stacks@,
                stack_keep_pred(project_id),
                |l: StackRow| l.id,
            );
        }
        self.photos = new_photos;
        self.logical_photos = new_lps;
        self.stacks = new_stacks;
        proof {
            assert forall|i2: int|
                0 <= i2 < self.photos@.len() implies 1 <= (#[trigger] self.photos@[i2]).id
                < self.next_photo_id by {
                assert(self.photos@[i2].id == old(self).photos@[i2].id);
            }
            assert forall|i2: int, j2: int|
                0 <= i2 < j2 < self.photos@.len() implies (#[trigger] self.photos@[i2]).id != (
            #[trigger] self.photos@[j2]).id && self.photos@[i2].path@
                != self.photos@[j2].path@ by {
                assert(self.photos@[i2].id == old(self).photos@[i2].id);
                assert(self.photos@[j2].id == old(self).photos@[j2].id);
                assert(self.photos@[i2].path@ == old(self).photos@[i2].path@);
                assert(self.photos@[j2].path@ == old(self).photos@[j2].path@);
            }
            let lps = self.logical_photos@;
            let oldlps = old(self).logical_photos@.filter(lp_keep_pred(project_id));
            assert forall|k: int| 0 <= k < lps.len() implies 1 <= (#[trigger] lps[k]).id
                < self.next_logical_photo_id by {
                assert(old(self).logical_photos@.contains(lps[k]));
                let j = choose|j: int|
                    0 <= j < old(self).logical_photos@.len() && old(self).logical_photos@[j]
                        == lps[k];
                assert(1 <= old(self).logical_photos@[j].id < old(self).next_logical_photo_id);
            }
            let sts = self.stacks@;
            assert forall|k: int| 0 <= k < sts.len() implies 1 <= (#[trigger] sts[k]).id
                < self.next_stack_id by {
                assert(old(self).stacks@.contains(sts[k]));
                let j = choose|j: int|
                    0 <= j < old(self).stacks@.len() && old(self).stacks@[j] == sts[k];
                assert(1 <= old(self).stacks@[j].id < old(self).next_stack_id);
            }
        }
    }

    /// Delete only the project's stack rows; logical photos keep
    /// their ids (their stack links are rewritten afterwards).
    pub fn clear_stacks_only(&mut self, project_id: i64)
        requires
            old(self).wf(),
        ensures
            final(self).wf(),
            final(self).stacks@ == old(self).stacks@.filter(stack_keep_pred(project_id)),
            final(self).photos@ == old(self).photos@,
            final(self).logical_photos@ == old(self).logical_photos@,
            final(self).source_folders@ == old(self).source_folders@,
            final(self).next_photo_id == old(self).next_photo_id,
            final(self).next_logical_photo_id == old(self).next_logical_photo_id,
            final(self).next_stack_id == old(self).next_stack_id,
            final(self).next_folder_id == old(self).next_folder_id,
    {
        let new_stacks = filter_stacks_keep(&self.stacks, project_id);
        proof {
            lemma_filter_distinct_ids(
                self.stacks@,
                stack_keep_pred(project_id),
                |l: StackRow| l.id,
            );
        }
        self.stacks = new_stacks;
        proof {
            let sts = self.stacks@;
            assert forall|k: int| 0 <= k < sts.len() implies 1 <= (#[trigger] sts[k]).id
                < self.next_stack_id by {
                assert(old(self).stacks@.contains(sts[k]));
                let j = choose|j: int|
                    0 <= j < old(self).stacks@.len() && old(self).stacks@[j] == sts[k];
                assert(1 <= old(self).stacks@[j].id < old(self).next_stack_id);
            }
        }
    }

    /// Move the logical photo with the given id into another stack.
    pub fn update_logical_photo_stack(&mut self, lp_id: i64, stack_id: i64)
        requires
            old(self).wf(),
        ensures
            final(self).wf(),
            final(self).logical_photos@.len() == old(self).logical_photos@.len(),
            forall|i: int|
                0 <= i < old(self).logical_photos@.len() ==> (
                #[trigger] final(self).logical_photos@[i]) == (
                if old(self).logical_photos@[i].id == lp_id {
                    LogicalPhotoRow { stack_id, ..old(self).logical_photos@[i] }
                } else {
                    old(self).logical_photos@[i]
                }),
            final(self).photos@ == old(self).photos@,
            final(self).stacks@ == old(self).stacks@,
            final(self).source_folders@ == old(self).source_folders@,
            final(self).next_photo_id == old(self).next_photo_id,
            final(self).next_logical_photo_id == old(self).next_logical_photo_id,
            final(self).next_stack_id == old(self).next_stack_id,
            final(self).next_folder_id == old(self).next_folder_id,
    {
        let n = self.logical_photos.len();
        let mut out: Vec<LogicalPhotoRow> = Vec::new();
        let mut i: usize = 0;
        while i < n
            invariant
                i <= n == self.logical_photos@.len(),
                out@.len() == i,
                forall|j: int|
                    0 <= j < i ==> (#[trigger] out@[j]) == (if self.logical_photos@[j].id == lp_id {
                        LogicalPhotoRow { stack_id, ..self.logical_photos@[j] }
                    } else {
                        self.logical_photos@[j]
                    }),
            decreases n - i,
        {
            let row = self.logical_photos[i];
            if row.id == lp_id {
                out.push(LogicalPhotoRow { stack_id, ..row });
            } else {
                out.push(row);
            }
            i = i + 1;
        }
        self.logical_photos = out;
        proof {
            assert forall|i2: int|
                0 <= i2 < self.logical_photos@.len() implies 1 <= (
            #[trigger] self.logical_photos@[i2]).id < self.next_logical_photo_id by {
                assert(self.logical_photos@[i2].id == old(self).logical_photos@[i2].id);
            }
            assert forall|i2: int, j2: int|
                0 <= i2 < j2 < self.logical_photos@.len() implies (
            #[trigger] self.logical_photos@[i2]).id != (#[trigger] self.logical_photos@[j2]).id by {
                assert(self.logical_photos@[i2].id == old(self).logical_photos@[i2].id);
                assert(self.logical_photos@[j2].id == old(self).logical_photos@[j2].id);
            }
        }
    }

    /// Is `lp_id` one of the project's logical photos?
    pub fn lp_member(&self, lp_id: i64, project_id: i64) -> (r: bool)
        ensures
            r == lp_in_project(self.logical_photos@, lp_id, project_id),
    {
        let n = self.logical_photos.len();
        let mut i: usize = 0;
        while i < n
            invariant
                i <= n == self.logical_photos@.len(),
                forall|j: int|
                    0 <= j < i ==> !((#[trigger] self.logical_photos@[j]).id == lp_id
                        && self.logical_photos@[j].project_id == project_id),
            decreases n - i,
        {
            let row = self.logical_photos[i];
            if row.id == lp_id && row.project_id == project_id {
                return true;
            }
            i = i + 1;
        }
        false
    }

    /// The first photo row with the given id, if any.
    fn find_photo_by_id(&self, id: i64) -> (r: Option<usize>)
        ensures
            match r {
                Some(i) => i < self.photos@.len() && photo_with_id(self.photos@, id) == Some(
                    self.photos@[i as int],
                ),
                None => photo_with_id(self.photos@, id) is None,
            },
    {
        let n = self.photos.len();
        let mut i: usize = 0;
        proof {
            assert(self.photos@.skip(0) =~= self.photos@);
        }
        while i < n
            invariant
                i <= n == self.photos@.len(),
                photo_with_id(self.photos@, id) == photo_with_id(
                    self.photos@.skip(i as int),
                    id,
                ),
            decreases n - i,
        {
            proof {
                let suf = self.photos@.skip(i as int);
                assert(suf[0] == self.photos@[i as int]);
                assert(suf.drop_first() =~= self.photos@.skip(i + 1 as int));
            }
            if self.photos[i].id == id {
                return Some(i);
            }
            i = i + 1;
        }
        proof {
            assert(self.photos@.skip(n as int) =~= Seq::<PhotoRow>::empty());
        }
        None
    }

    /// The project's logical photos with their representative's
    /// capture time, for restacking without a rescan.
    pub fn load_logical_photos_for_restack(&self, project_id: i64) -> (r: Vec<(i64, Option<i64>)>)
        ensures
            r@.len() == self.logical_photos@.filter(lp_project_pred(project_id)).len(),
            forall|k: int|
                0 <= k < r@.len() ==> (#[trigger] r@[k]).0 == self.logical_photos@.filter(
                    lp_project_pred(project_id),
                )[k].id && r@[k].1 == (match photo_with_id(
                    self.photos@,
                    self.logical_photos@.filter(
                        lp_project_pred(project_id),
                    )[k].representative_photo_id,
                ) {
                    Some(p) => p.capture_time,
                    None => None,
                }),
    {
        let n = self.logical_photos.len();
        let ghost pred = lp_project_pred(project_id);
        let mut r: Vec<(i64, Option<i64>)> = Vec::new();
        let mut i: usize = 0;
        proof {
            reveal(Seq::filter);
            assert(self.logical_photos@.take(0).filter(pred) =~= Seq::<LogicalPhotoRow>::empty());
        }
        while i < n
            invariant
                i <= n == self.logical_photos@.len(),
                r@.len() == self.logical_photos@.take(i as int).filter(pred).len(),
                pred == lp_project_pred(project_id),
                forall|k: int|
                    0 <= k < r@.len() ==> (#[trigger] r@[k]).0 == self.logical_photos@.take(
                        i as int,
                    ).filter(pred)[k].id && r@[k].1 == (match photo_with_id(
                        self.photos@,
                        self.logical_photos@.take(i as int).filter(
                            pred,
                        )[k].representative_photo_id,
                    ) {
                        Some(p) => p.capture_time,
                        None => None,
                    }),
            decreases n - i,
        {
            let ghost prefix = self.logical_photos@.take(i as int);
            proof {
                prefix.lemma_filter_push(self.logical_photos@[i as int], pred);
                assert(self.logical_photos@.take(i + 1 as int) =~= prefix.push(
                    self.logical_photos@[i as int],
                ));
            }
            let row = self.logical_photos[i];
            if row.project_id == project_id {
                let ct = match self.find_photo_by_id(row.representative_photo_id) {
                    Some(pi) => self.photos[pi].capture_time,
                    None => None,
                };
                r.push((row.id, ct));
            }
            i = i + 1;
        }
        proof {
            assert(self.logical_photos@.take(n as int) =~= self.logical_photos@);
        }
        r
    }

    /// All paths of photos linked to one of the project's logical
    /// photos: the idempotency key set of a run.
    pub fn list_photo_paths_for_project(&self, project_id: i64) -> (r: Vec<String>)
        ensures
            r@.len() == self.photos@.filter(
                photo_linked_pred(self.logical_photos@, project_id),
            ).len(),
            forall|k: int|
                0 <= k < r@.len() ==> (#[trigger] r@[k])@ == self.photos@.filter(
                    photo_linked_pred(self.logical_photos@, project_id),
                )[k].path@,
    {
        let n = self.photos.len();
        let ghost pred = photo_linked_pred(self.logical_photos@, project_id);
        let mut r: Vec<String> = Vec::new();
        let mut i: usize = 0;
        proof {
            reveal(Seq::filter);
            assert(self.photos@.take(0).filter(pred) =~= Seq::<PhotoRow>::empty());
        }
        while i < n
            invariant
                i <= n == self.photos@.len(),
                pred == photo_linked_pred(self.logical_photos@, project_id),
                r@.len() == self.photos@.take(i as int).filter(pred).len(),
                forall|k: int|
                    0 <= k < r@.len() ==> (#[trigger] r@[k])@ == self.photos@.take(
                        i as int,
                    ).filter(pred)[k].path@,
            decreases n - i,
        {
            let ghost prefix = self.photos@.take(i as int);
            proof {
                prefix.lemma_filter_push(self.photos@[i as int], pred);
                assert(self.photos@.take(i + 1 as int) =~= prefix.push(self.photos@[i as int]));
            }
            let linked = match self.photos[i].logical_photo_id {
                Some(l) => self.lp_member(l, project_id),
                None => false,
            };
            if linked {
                r.push(self.photos[i].path.clone());
            }
            i = i + 1;
        }
        proof {
            assert(self.photos@.take(n as int) =~= self.photos@);
        }
        r
    }

    /// Rebuild the scanned-file view of every photo row, for
    /// re-pairing and re-stacking alongside freshly scanned files.
    pub fn load_existing_scanned_files(&self) -> (r: Vec<ScannedFile>)
        ensures
            r@.len() == self.photos@.len(),
            forall|k: int| 0 <= k < r@.len() ==> scanned_of(self.photos@[k], #[trigger] r@[k]),
    {
        let n = self.photos.len();
        let mut r: Vec<ScannedFile> = Vec::new();
        let mut i: usize = 0;
        while i < n
            invariant
                i <= n == self.photos@.len(),
                r@.len() == i,
                forall|k: int| 0 <= k < i ==> scanned_of(self.photos@[k], #[trigger] r@[k]),
            decreases n - i,
        {
            let row = self.photos[i].duplicate();
            let (dir, base_name) = split_path(row.path.as_str());
            r.push(
                ScannedFile {
                    path: row.path,
                    format: row.format,
                    capture_time: row.capture_time,
                    camera_model: row.camera_model,
                    lens: row.lens,
                    orientation: row.orientation,
                    base_name,
                    dir,
                },
            );
            i = i + 1;
        }
        r
    }

    /// The ids of all the project's logical photos, in store order.
    pub fn list_all_lp_ids_for_project(&self, project_id: i64) -> (r: Vec<i64>)
        ensures
            r@ == self.logical_photos@.filter(lp_project_pred(project_id)).map_values(
                |l: LogicalPhotoRow| l.id,
            ),
    {
        let n = self.logical_photos.len();
        let ghost pred = lp_project_pred(project_id);
        let mut r: Vec<i64> = Vec::new();
        let mut i: usize = 0;
        proof {
            reveal(Seq::filter);
            assert(self.logical_photos@.take(0).filter(pred) =~= Seq::<LogicalPhotoRow>::empty());
            assert(r@ =~= self.logical_photos@.take(0).filter(pred).map_values(
                |l: LogicalPhotoRow| l.id,
            ));
        }
        while i < n
            invariant
                i <= n == self.logical_photos@.len(),
                pred == lp_project_pred(project_id),
                r@ == self.logical_photos@.take(i as int).filter(pred).map_values(
                    |l: LogicalPhotoRow| l.id,
                ),
            decreases n - i,
        {
            let ghost prefix = self.logical_photos@.take(i as int);
            proof {
                prefix.lemma_filter_push(self.logical_photos@[i as int], pred);
                assert(self.logical_photos@.take(i + 1 as int) =~= prefix.push(
                    self.logical_photos@[i as int],
                ));
            }
            let row = self.logical_photos[i];
            if row.project_id == project_id {
                r.push(row.id);
                proof {
                    assert(r@ =~= self.logical_photos@.take(i + 1 as int).filter(
                        pred,
                    ).map_values(|l: LogicalPhotoRow| l.id));
                }
            } else {
                proof {
                    assert(r@ =~= self.logical_photos@.take(i + 1 as int).filter(
                        pred,
                    ).map_values(|l: LogicalPhotoRow| l.id));
                }
            }
            i = i + 1;
        }
        proof {
            assert(self.logical_photos@.take(n as int) =~= self.logical_photos@);
        }
        r
    }

    /// For each listed logical photo of the project whose
    /// representative photo row exists: its id, and the
    /// representative's path, format and orientation.
    pub fn list_representative_photos_for_lp_ids(&self, project_id: i64, lp_ids: &Vec<i64>) -> (r:
        Vec<(i64, String, PhotoFormat, Option<u16>)>)
        ensures
            forall|k: int|
                0 <= k < r@.len() ==> is_repr_entry(
                    self.logical_photos@,
                    self.photos@,
                    project_id,
                    lp_ids@,
                    #[trigger] r@[k],
                ),
            forall|j: int|
                0 <= j < self.logical_photos@.len() && (#[trigger] self.logical_photos@[j]).project_id
                    == project_id && lp_ids@.contains(self.logical_photos@[j].id)
                    && photo_with_id(
                    self.photos@,
                    self.logical_photos@[j].representative_photo_id,
                ) is Some ==> exists|k: int|
                    0 <= k < r@.len() && (#[trigger] r@[k]).0 == self.logical_photos@[j].id,
        self.lps_ok() ==> forall|k1: int, k2: int|
            0 <= k1 < k2 < r@.len() ==> (#[trigger] r@[k1]).0 != (#[trigger] r@[k2]).0,
    {
        let n = self.logical_photos.len();
        let mut r: Vec<(i64, String, PhotoFormat, Option<u16>)> = Vec::new();
        let ghost mut src: Seq<int> = Seq::empty();
        let mut i: usize = 0;
        while i < n
            invariant
                i <= n == self.logical_photos@.len(),
                src.len() == r@.len(),
                forall|k: int| 0 <= k < src.len() ==> 0 <= #[trigger] src[k] < i,
                forall|k1: int, k2: int| 0 <= k1 < k2 < src.len() ==> #[trigger] src[k1]
                    < #[trigger] src[k2],
                forall|k: int|
                    0 <= k < r@.len() ==> (#[trigger] r@[k]).0
                        == self.logical_photos@[src[k]].id,
                forall|k: int|
                    0 <= k < r@.len() ==> is_repr_entry(
                        self.logical_photos@,
                        self.photos@,
                        project_id,
                        lp_ids@,
                        #[trigger] r@[k],
                    ),
                forall|j: int|
                    0 <= j < i && (#[trigger] self.logical_photos@[j]).project_id == project_id
                        && lp_ids@.contains(self.logical_photos@[j].id) && photo_with_id(
                        self.photos@,
                        self.logical_photos@[j].representative_photo_id,
                    ) is Some ==> exists|k: int|
                        0 <= k < r@.len() && (#[trigger] r@[k]).0 == self.logical_photos@[j].id,
            decreases n - i,
        {
            let ghost r0 = r@;
            let row = self.logical_photos[i];
            if row.project_id == project_id && contains_i64(lp_ids, row.id) {
                match self.find_photo_by_id(row.representative_photo_id) {
                    Some(pi) => {
                        let p = self.photos[pi].duplicate();
                        r.push((row.id, p.path, p.format, p.orientation));
                        proof {
                            src = src.push(i as int);
                            let k = r@.len() - 1;
                            assert(repr_entry_matches(
                                self.logical_photos@,
                                self.photos@,
                                project_id,
                                lp_ids@,
                                r@[k],
                                i as int,
                            ));
                            assert(is_repr_entry(
                                self.logical_photos@,
                                self.photos@,
                                project_id,
                                lp_ids@,
                                r@[k],
                            ));
                            assert(forall|k2: int|
                                0 <= k2 < r0.len() ==> (#[trigger] r0[k2]) == r@[k2]);
                            assert(forall|k2: int|
                                0 <= k2 < r0.len() ==> (#[trigger] r@[k2]) == r0[k2]);
                        }
                    },
                    None => {},
                }
            }
            i = i + 1;
        }
        proof {
            if self.lps_ok() {
                assert forall|k1: int, k2: int|
                    0 <= k1 < k2 < r@.len() implies (#[trigger] r@[k1]).0 != (
                #[trigger] r@[k2]).0 by {
                    assert(src[k1] < src[k2]);
                    assert(self.logical_photos@[src[k1]].id != self.logical_photos@[src[k2]].id);
                }
            }
        }
        r
    }

    /// Attach a source folder to the project; returns its fresh id.
    pub fn add_source_folder(&mut self, project_id: i64, path: String) -> (id: i64)
        requires
            old(self).wf(),
            old(self).next_folder_id < i64::MAX,
        ensures
            final(self).wf(),
            id == old(self).next_folder_id,
            final(self).source_folders@ == old(self).source_folders@.push(
                FolderRow { id, project_id, path },
            ),
            final(self).next_folder_id == old(self).next_folder_id + 1,
            final(self).photos@ == old(self).photos@,
            final(self).logical_photos@ == old(self).logical_photos@,
            final(self).stacks@ == old(self).stacks@,
            final(self).next_photo_id == old(self).next_photo_id,
            final(self).next_logical_photo_id == old(self).next_logical_photo_id,
            final(self).next_stack_id == old(self).next_stack_id,
    {
        let id = self.next_folder_id;
        self.source_folders.push(FolderRow { id, project_id, path });
        self.next_folder_id = id + 1;
        proof {
            let fo = self.source_folders@;
            let oldfo = old(self).source_folders@;
            assert forall|i: int, j: int|
                0 <= i < j < fo.len() implies (#[trigger] fo[i]).id != (#[trigger] fo[j]).id by {
                if j == fo.len() - 1 {
                    assert(fo[i] == oldfo[i]);
                    assert(oldfo[i].id < id);
                } else {
                    assert(fo[i] == oldfo[i] && fo[j] == oldfo[j]);
                }
            }
            assert forall|i: int| 0 <= i < fo.len() implies 1 <= (#[trigger] fo[i]).id
                < self.next_folder_id by {
                if i < fo.len() - 1 {
                    assert(fo[i] == oldfo[i]);
                }
            }
        }
        id
    }

    /// Detach the folder with the given id from the project.
    pub fn remove_source_folder(&mut self, project_id: i64, folder_id: i64)
        requires
            old(self).wf(),
        ensures
            final(self).wf(),
            final(self).source_folders@ == old(self).source_folders@.filter(
                folder_keep_pred(project_id, folder_id),
            ),
            final(self).photos@ == old(self).photos@,
            final(self).logical_photos@ == old(self).logical_photos@,
            final(self).stacks@ == old(self).stacks@,
            final(self).next_photo_id == old(self).next_photo_id,
            final(self).next_logical_photo_id == old(self).next_logical_photo_id,
            final(self).next_stack_id == old(self).next_stack_id,
            final(self).next_folder_id == old(self).next_folder_id,
    {
        let n = self.source_folders.len();
        let ghost pred = folder_keep_pred(project_id, folder_id);
        let mut out: Vec<FolderRow> = Vec::new();
        let mut i: usize = 0;
        proof {
            reveal(Seq::filter);
            assert(self.source_folders@.take(0).filter(pred) =~= Seq::<FolderRow>::empty());
        }
        while i < n
            invariant
                i <= n == self.source_folders@.len(),
                pred == folder_keep_pred(project_id, folder_id),
                out@ == self.source_folders@.take(i as int).filter(pred),
            decreases n - i,
        {
            let ghost prefix = self.source_folders@.take(i as int);
            proof {
                prefix.lemma_filter_push(self.source_folders@[i as int], pred);
                assert(self.source_folders@.take(i + 1 as int) =~= prefix.push(
                    self.source_folders@[i as int],
                ));
            }
            let row = &self.source_folders[i];
            if !(row.id == folder_id && row.project_id == project_id) {
                out.push(FolderRow { id: row.id, project_id: row.project_id, path: row.path.clone() });
            }
            i = i + 1;
        }
        proof {
            assert(self.source_folders@.take(n as int) =~= self.source_folders@);
            lemma_filter_distinct_ids(self.source_folders@, pred, |f: FolderRow| f.id);
        }
        self.source_folders = out;
        proof {
            let fo = self.source_folders@;
            assert forall|k: int| 0 <= k < fo.len() implies 1 <= (#[trigger] fo[k]).id
                < self.next_folder_id by {
                assert(old(self).source_folders@.contains(fo[k]));
                let j = choose|j: int|
                    0 <= j < old(self).source_folders@.len() && old(self).source_folders@[j]
                        == fo[k];
                assert(1 <= old(self).source_folders@[j].id < old(self).next_folder_id);
            }
        }
    }

    /// The project's source folders, in the order they were added.
    pub fn list_source_folders(&self, project_id: i64) -> (r: Vec<crate::model::SourceFolderRow>)
        ensures
            r@.len() == self.source_folders@.filter(folder_project_pred(project_id)).len(),
            forall|k: int|
                0 <= k < r@.len() ==> (#[trigger] r@[k]).id == self.source_folders@.filter(
                    folder_project_pred(project_id),
                )[k].id && r@[k].path@ == self.source_folders@.filter(
                    folder_project_pred(project_id),
                )[k].path@,
    {
        let n = self.source_folders.len();
        let ghost pred = folder_project_pred(project_id);
        let mut r: Vec<crate::model::SourceFolderRow> = Vec::new();
        let mut i: usize = 0;
        proof {
            reveal(Seq::filter);
            assert(self.source_folders@.take(0).filter(pred) =~= Seq::<FolderRow>::empty());
        }
        while i < n
            invariant
                i <= n == self.source_folders@.len(),
                pred == folder_project_pred(project_id),
                r@.len() == self.source_folders@.take(i as int).filter(pred).len(),
                forall|k: int|
                    0 <= k < r@.len() ==> (#[trigger] r@[k]).id == self.source_folders@.take(
                        i as int,
                    ).filter(pred)[k].id && r@[k].path@ == self.source_folders@.take(
                        i as int,
                    ).filter(pred)[k].path@,
            decreases n - i,
        {
            let ghost prefix = self.source_folders@.take(i as int);
            proof {
                prefix.lemma_filter_push(self.source_folders@[i as int], pred);
                assert(self.source_folders@.take(i + 1 as int) =~= prefix.push(
                    self.source_folders@[i as int],
                ));
            }
            let row = &self.source_folders[i];
            if row.project_id == project_id {
                r.push(crate::model::SourceFolderRow { id: row.id, path: row.path.clone() });
            }
            i = i + 1;
        }
        proof {
            assert(self.source_folders@.take(n as int) =~= self.source_folders@);
        }
        r
    }

    /// Is the given path already attached to the project?
    pub fn folder_already_attached(&self, project_id: i64, path: &String) -> (r: bool)
        ensures
            r == exists|i: int|
                0 <= i < self.source_folders@.len() && (#[trigger] self.source_folders@[i]).project_id
                    == project_id && self.source_folders@[i].path@ == path@,
    {
        let n = self.source_folders.len();
        let mut i: usize = 0;
        while i < n
            invariant
                i <= n == self.source_folders@.len(),
                forall|j: int|
                    0 <= j < i ==> !((#[trigger] self.source_folders@[j]).project_id == project_id
                        && self.source_folders@[j].path@ == path@),
            decreases n - i,
        {
            let row = &self.source_folders[i];
            if row.project_id == project_id && row.path.eq(path) {
                return true;
            }
            i = i + 1;
        }
        false
    }
}

/// Keeps every folder row but the one removed.
pub open spec fn folder_keep_pred(project_id: i64, folder_id: i64) -> spec_fn(FolderRow) -> bool {
    |f: FolderRow| !(f.id == folder_id && f.project_id == project_id)
}

/// Picks the folder rows of one project.
pub open spec fn folder_project_pred(project_id: i64) -> spec_fn(FolderRow) -> bool {
    |f: FolderRow| f.project_id == project_id
}

/// The cache file name a logical photo's preview lives under:
/// `<cache-dir>/<id>.jpg`.
pub open spec fn spec_thumb_path(cache_dir: Seq<char>, id: i64) -> Seq<char>
    recommends
        id >= 0,
{
    cache_dir + seq!['/'] + crate::text::dec_digits(id as nat) + seq!['.', 'j', 'p', 'g']
}

/// Resolve cached preview paths onto the summaries: a summary whose
/// id is among the cached ones gets its preview path filled in, all
/// else is left untouched.
pub fn enrich_with_thumbnails(
    summaries: &mut Vec<crate::model::LogicalPhotoSummary>,
    cached: &Vec<i64>,
    cache_dir: &str,
)
    ensures
        final(summaries)@.len() == old(summaries)@.len(),
        forall|i: int|
            #![trigger final(summaries)@[i]]
            0 <= i && i < old(summaries)@.len() ==> {
                let before = old(summaries)@[i];
                let after = final(summaries)@[i];
                &&& after.logical_photo_id == before.logical_photo_id
                &&& after.capture_time == before.capture_time
                &&& after.camera_model == before.camera_model
                &&& after.lens == before.lens
                &&& after.has_raw == before.has_raw
                &&& after.has_jpeg == before.has_jpeg
                &&& (cached@.contains(before.logical_photo_id) && before.logical_photo_id >= 0
                    ==> after.thumbnail_path is Some && after.thumbnail_path->Some_0@
                    == spec_thumb_path(cache_dir@, before.logical_photo_id))
                &&& (!(cached@.contains(before.logical_photo_id) && before.logical_photo_id >= 0)
                    ==> after.thumbnail_path == before.thumbnail_path)
            },
{
    let n = summaries.len();
    let mut out: Vec<crate::model::LogicalPhotoSummary> = Vec::new();
    let mut i: usize = 0;
    while i < n
        invariant
            i <= n == summaries@.len(),
            out@.len() == i,
            forall|j: int|
                #![trigger out@[j]]
                0 <= j && j < i ==> {
                    let before = summaries@[j];
                    let after = out@[j];
                    &&& after.logical_photo_id == before.logical_photo_id
                    &&& after.capture_time == before.capture_time
                    &&& after.camera_model == before.camera_model
                    &&& after.lens == before.lens
                    &&& after.has_raw == before.has_raw
                    &&& after.has_jpeg == before.has_jpeg
                    &&& (cached@.contains(before.logical_photo_id) && before.logical_photo_id >= 0
                        ==> after.thumbnail_path is Some && after.thumbnail_path->Some_0@
                        == spec_thumb_path(cache_dir@, before.logical_photo_id))
                    &&& (!(cached@.contains(before.logical_photo_id)
                        && before.logical_photo_id >= 0) ==> after.thumbnail_path
                        == before.thumbnail_path)
                },
        decreases n - i,
    {
        let row = &summaries[i];
        let id = row.logical_photo_id;
        let thumbnail_path = if contains_i64(cached, id) && id >= 0 {
            let mut p = String::new();
            p.append(cache_dir);
            p.append("/");
            let digits = crate::text::u64_to_dec_string(id as u64);
            p.append(digits.as_str());
            p.append(".jpg");
            proof {
                reveal_strlit("/");
                reveal_strlit(".jpg");
                assert(p@ =~= spec_thumb_path(cache_dir@, id));
            }
            Some(p)
        } else {
            crate::model::clone_opt_string(&row.thumbnail_path)
        };
        out.push(crate::model::LogicalPhotoSummary {
            logical_photo_id: row.logical_photo_id,
            thumbnail_path,
            capture_time: crate::model::clone_opt_string(&row.capture_time),
            camera_model: crate::model::clone_opt_string(&row.camera_model),
            lens: crate::model::clone_opt_string(&row.lens),
            has_raw: row.has_raw,
            has_jpeg: row.has_jpeg,
        });
        i = i + 1;
    }
    *summaries = out;
}

/// Does the vector hold the value?
pub fn contains_i64(v: &Vec<i64>, x: i64) -> (r: bool)
    ensures
        r == v@.contains(x),
{
    let n = v.len();
    let mut i: usize = 0;
    while i < n
        invariant
            i <= n == v@.len(),
            forall|j: int| 0 <= j < i ==> v@[j] != x,
        decreases n - i,
    {
        if v[i] == x {
            return true;
        }
        i = i + 1;
    }
    false
}

/// A filter of a sequence with pairwise distinct ids keeps every
/// element, and so the distinctness, of the original.
proof fn lemma_filter_distinct_ids<A>(s: Seq<A>, pred: spec_fn(A) -> bool, idf: spec_fn(A) -> i64)
    requires
        forall|a: int, b: int| 0 <= a < b < s.len() ==> idf(#[trigger] s[a]) != idf(
            #[trigger] s[b],
        ),
    ensures
        forall|k: int| 0 <= k < s.filter(pred).len() ==> s.contains(#[trigger] s.filter(pred)[k]),
        forall|a: int, b: int|
            0 <= a < b < s.filter(pred).len() ==> idf(#[trigger] s.filter(pred)[a]) != idf(
                #[trigger] s.filter(pred)[b],
            ),
    decreases s.len(),
{
    reveal(Seq::filter);
    if s.len() > 0 {
        let d = s.drop_last();
        assert forall|a: int, b: int| 0 <= a < b < d.len() implies idf(#[trigger] d[a]) != idf(
            #[trigger] d[b],
        ) by {
            assert(d[a] == s[a] && d[b] == s[b]);
        }
        lemma_filter_distinct_ids(d, pred, idf);
        assert forall|k: int| 0 <= k < d.filter(pred).len() implies s.contains(
            #[trigger] d.filter(pred)[k],
        ) by {
            assert(d.contains(d.filter(pred)[k]));
            let j = choose|j: int| 0 <= j < d.len() && d[j] == d.filter(pred)[k];
            assert(s[j] == d[j]);
        }
        if pred(s.last()) {
            let f = s.filter(pred);
            assert(f == d.filter(pred).push(s.last()));
            assert(s.contains(s.last())) by {
                assert(s[s.len() - 1] == s.last());
            }
            assert forall|a: int, b: int|
                0 <= a < b < f.len() implies idf(#[trigger] f[a]) != idf(#[trigger] f[b]) by {
                if b == f.len() - 1 {
                    assert(f[a] == d.filter(pred)[a]);
                    assert(d.contains(f[a]));
                    let j = choose|j: int| 0 <= j < d.len() && d[j] == f[a];
                    assert(s[j] == d[j]);
                    assert(idf(s[j]) != idf(s[s.len() - 1]));
                } else {
                    assert(f[a] == d.filter(pred)[a] && f[b] == d.filter(pred)[b]);
                }
            }
        }
    }
}

/// Copy of the logical-photo rows not belonging to the project.
fn filter_lps_keep(v: &Vec<LogicalPhotoRow>, project_id: i64) -> (r: Vec<LogicalPhotoRow>)
    ensures
        r@ == v@.filter(lp_keep_pred(project_id)),
{
    let n = v.len();
    let ghost pred = lp_keep_pred(project_id);
    let mut out: Vec<LogicalPhotoRow> = Vec::new();
    let mut i: usize = 0;
    proof {
        reveal(Seq::filter);
        assert(v@.take(0).filter(pred) =~= Seq::<LogicalPhotoRow>::empty());
    }
    while i < n
        invariant
            i <= n == v@.len(),
            pred == lp_keep_pred(project_id),
            out@ == v@.take(i as int).filter(pred),
        decreases n - i,
    {
        let ghost prefix = v@.take(i as int);
        proof {
            prefix.lemma_filter_push(v@[i as int], pred);
            assert(v@.take(i + 1 as int) =~= prefix.push(v@[i as int]));
        }
        let row = v[i];
        if row.project_id != project_id {
            out.push(row);
        }
        i = i + 1;
    }
    proof {
        assert(v@.take(n as int) =~= v@);
    }
    out
}

/// Copy of the stack rows not belonging to the project.
fn filter_stacks_keep(v: &Vec<StackRow>, project_id: i64) -> (r: Vec<StackRow>)
    ensures
        r@ == v@.filter(stack_keep_pred(project_id)),
{
    let n = v.len();
    let ghost pred = stack_keep_pred(project_id);
    let mut out: Vec<StackRow> = Vec::new();
    let mut i: usize = 0;
    proof {
        reveal(Seq::filter);
        assert(v@.take(0).filter(pred) =~= Seq::<StackRow>::empty());
    }
    while i < n
        invariant
            i <= n == v@.len(),
            pred == stack_keep_pred(project_id),
            out@ == v@.take(i as int).filter(pred),
        decreases n - i,
    {
        let ghost prefix = v@.take(i as int);
        proof {
            prefix.lemma_filter_push(v@[i as int], pred);
            assert(v@.take(i + 1 as int) =~= prefix.push(v@[i as int]));
        }
        let row = v[i];
        if row.project_id != project_id {
            out.push(row);
        }
        i = i + 1;
    }
    proof {
        assert(v@.take(n as int) =~= v@);
    }
    out
}

} // verus!
