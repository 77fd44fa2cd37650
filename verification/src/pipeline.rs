//! The import pipeline over the relational model: reload what is
//! already stored, pair it with the freshly extracted files, cluster
//! into burst stacks, clear the project's old structure and rebuild
//! it with fresh ids, and hand back the preview targets. The run is
//! idempotent: a path already present is never duplicated and its
//! metadata never overwritten; stacks and logical photos are rebuilt
//! from scratch so no stale id of a previous run survives.

use vstd::prelude::*;
use crate::model::{ImportStats, PhotoFormat, ScannedFile, ScannedPath};
use crate::pairs::{detect_pairs, lemma_groups_from_sound, spec_detect_pairs, LogicalGroup};
use crate::stacks::{assign_stacks_clean, member_ok};
use crate::store::{
    lp_keep_pred, lp_project_pred, photo_linked_pred, stack_keep_pred, LogicalPhotoRow, PhotoRow,
    StackRow, Store,
};
use crate::text::contains_string;

verus! {

/// A preview still to derive: logical photo id, source path, format,
/// and the orientation to apply.
pub type ThumbTarget = (i64, String, PhotoFormat, Option<u16>);

/// Metadata-stability: `b` is `a` with at most the logical-photo
/// link changed.
pub open spec fn meta_eq(a: PhotoRow, b: PhotoRow) -> bool {
    &&& a.id == b.id
    &&& a.path@ == b.path@
    &&& a.format == b.format
    &&& a.capture_time == b.capture_time
    &&& a.orientation == b.orientation
    &&& a.camera_model == b.camera_model
    &&& a.lens == b.lens
}

/// Record an error: the counter always grows, the log only up to one
/// hundred entries.
pub fn log_error(stats: &mut ImportStats, msg: String)
    requires
        old(stats).errors < usize::MAX,
    ensures
        final(stats).errors == old(stats).errors + 1,
        old(stats).error_log@.len() < 100 ==> final(stats).error_log@ == old(stats).error_log@.push(msg),
        old(stats).error_log@.len() >= 100 ==> final(stats).error_log@ == old(stats).error_log@,
        final(stats).total_files_scanned == old(stats).total_files_scanned,
        final(stats).imported == old(stats).imported,
        final(stats).skipped_existing == old(stats).skipped_existing,
        final(stats).pairs_detected == old(stats).pairs_detected,
        final(stats).stacks_generated == old(stats).stacks_generated,
        final(stats).logical_photos == old(stats).logical_photos,
        final(stats).cancelled == old(stats).cancelled,
{
    stats.errors = stats.errors + 1;
    if stats.error_log.len() < 100 {
        stats.error_log.push(msg);
    }
}

/// Split freshly scanned paths into those already known to the
/// project (skipped) and those still to extract, preserving order.
pub fn partition_new_paths(scanned: Vec<ScannedPath>, existing: &Vec<String>) -> (r: (
    Vec<ScannedPath>,
    usize,
))
    ensures
        r.0@.len() + r.1 == scanned@.len(),
        forall|k: int|
            0 <= k < r.0@.len() ==> !spec_path_known(existing@, (#[trigger] r.0@[k]).path@),
        forall|k: int|
            0 <= k < scanned@.len() && !spec_path_known(existing@, (#[trigger] scanned@[k]).path@)
                ==> exists|q: int| 0 <= q < r.0@.len() && (#[trigger] r.0@[q]).path@
                == scanned@[k].path@,
        (forall|k: int|
            0 <= k < scanned@.len() ==> spec_path_known(
                existing@,
                (#[trigger] scanned@[k]).path@,
            )) ==> r.0@.len() == 0 && r.1 == scanned@.len(),
{
    let n = scanned.len();
    let mut fresh: Vec<ScannedPath> = Vec::new();
    let mut skipped: usize = 0;
    let mut i: usize = 0;
    while i < n
        invariant
            i <= n == scanned@.len(),
            fresh@.len() + skipped == i,
            forall|k: int|
                0 <= k < fresh@.len() ==> !spec_path_known(existing@, (#[trigger] fresh@[k]).path@),
            forall|k: int|
                0 <= k < i && !spec_path_known(existing@, (#[trigger] scanned@[k]).path@) ==>
                    exists|q: int|
                    0 <= q < fresh@.len() && (#[trigger] fresh@[q]).path@ == scanned@[k].path@,
            forall|k: int|
                0 <= k < fresh@.len() ==> exists|q: int|
                    0 <= q < i && (#[trigger] fresh@[k]).path@ == scanned@[q].path@,
            skipped <= i,
        decreases n - i,
    {
        let ghost f0 = fresh@;
        let entry = &scanned[i];
        if contains_string(existing, &entry.path) {
            skipped = skipped + 1;
        } else {
            fresh.push(crate::model::ScannedPath { path: entry.path.clone(), format: entry.format });
            proof {
                assert(forall|k2: int| 0 <= k2 < f0.len() ==> (#[trigger] f0[k2]) == fresh@[k2]);
                assert(forall|k2: int| 0 <= k2 < f0.len() ==> (#[trigger] fresh@[k2]) == f0[k2]);
                assert((fresh@[fresh@.len() - 1]).path@ == scanned@[i as int].path@);
            }
        }
        i = i + 1;
    }
    proof {
        if (forall|k: int|
            0 <= k < scanned@.len() ==> spec_path_known(existing@, (#[trigger] scanned@[k]).path@))
            && fresh@.len() > 0 {
            assert(!spec_path_known(existing@, fresh@[0].path@));
            let q = choose|q: int| 0 <= q < n && fresh@[0].path@ == scanned@[q].path@;
            assert(spec_path_known(existing@, scanned@[q].path@));
        }
    }
    (fresh, skipped)
}

/// Is the path among the known ones?
pub open spec fn spec_path_known(existing: Seq<String>, p: Seq<char>) -> bool {
    exists|i: int| 0 <= i < existing.len() && (#[trigger] existing[i])@ == p
}

/// `loaded` is the scanned-file view of the photo table: one entry
/// per row, carrying its path, metadata and recomputed pairing key.
pub open spec fn stored_view(photos: Seq<PhotoRow>, loaded: Seq<ScannedFile>) -> bool {
    &&& loaded.len() == photos.len()
    &&& forall|k: int|
        0 <= k < photos.len() ==> crate::store::scanned_of(photos[k], #[trigger] loaded[k])
}

/// `known` reads exactly the paths of the photos linked to one of the
/// project's logical photos, in table order: the idempotency key set.
pub open spec fn known_view(before: Store, project_id: i64, known: Seq<String>) -> bool {
    &&& known.len() == before.photos@.filter(
        photo_linked_pred(before.logical_photos@, project_id),
    ).len()
    &&& forall|k: int|
        0 <= k < known.len() ==> (#[trigger] known[k])@ == before.photos@.filter(
            photo_linked_pred(before.logical_photos@, project_id),
        )[k].path@
}

/// How many imports one group contributes: one for its representative
/// and one for a pair's second member, each counted only when its
/// path is not among the known ones.
pub open spec fn spec_group_imports(g: LogicalGroup, known: Seq<String>) -> int {
    (if !spec_path_known(known, g.spec_representative().path@) {
        1int
    } else {
        0int
    }) + (if g.is_pair && !spec_path_known(known, g.raw->Some_0.path@) {
        1int
    } else {
        0int
    })
}

/// Some photo row carries the path and is linked to one of the
/// project's logical photos.
pub open spec fn path_linked_in(
    photos: Seq<PhotoRow>,
    lps: Seq<LogicalPhotoRow>,
    project_id: i64,
    p: Seq<char>,
) -> bool {
    exists|j: int|
        0 <= j < photos.len() && (#[trigger] photos[j]).path@ == p && photo_linked_pred(
            lps,
            project_id,
        )(photos[j])
}

/// The path belongs to a member of one of the first `upto` groups of
/// the assignment.
pub open spec fn is_member_path(
    assigned: Seq<(LogicalGroup, usize)>,
    upto: int,
    p: Seq<char>,
) -> bool {
    exists|q: int, m: int|
        0 <= q < upto && 0 <= m < ((assigned[q]).0).spec_members().len() && (#[trigger] (
        assigned[q]).0.spec_members()[m]).path@ == p
}

/// Total imports over the groups from position `i` on.
pub open spec fn imported_from(groups: Seq<LogicalGroup>, i: int, known: Seq<String>) -> int
    decreases groups.len() - i,
{
    if i < 0 || i >= groups.len() {
        0
    } else {
        spec_group_imports(groups[i], known) + imported_from(groups, i + 1, known)
    }
}

/// What an uncancelled run reports, relative to the store it started
/// from: `loaded` and `known` witness the stored files and the known
/// paths, and the statistics equal the pair detection and import
/// counts over exactly those inputs.
#[verifier::opaque]
pub open spec fn pipeline_report_ok(
    before: Store,
    project_id: i64,
    loaded: Seq<ScannedFile>,
    known: Seq<String>,
    new_files: Seq<ScannedFile>,
    stats: ImportStats,
) -> bool {
    &&& stored_view(before.photos@, loaded)
    &&& known_view(before, project_id, known)
    &&& stats.logical_photos as int == spec_detect_pairs(loaded + new_files).len()
    &&& stats.pairs_detected as int == spec_detect_pairs(loaded + new_files).filter(
        crate::pairs::pair_pred(),
    ).len()
    &&& stats.imported as int == imported_from(spec_detect_pairs(loaded + new_files), 0, known)
}

/// Every element of the sequence satisfies the predicate, so the
/// filter keeps the whole sequence.
proof fn lemma_filter_all_true<A>(s: Seq<A>, pred: spec_fn(A) -> bool)
    requires
        forall|i: int| 0 <= i < s.len() ==> pred(#[trigger] s[i]),
    ensures
        s.filter(pred) == s,
    decreases s.len(),
{
    reveal(Seq::filter);
    if s.len() > 0 {
        let d = s.drop_last();
        assert(forall|i: int| 0 <= i < d.len() ==> pred(#[trigger] d[i]));
        lemma_filter_all_true(d, pred);
        assert(s.filter(pred) =~= s);
    }
}

/// No element satisfies the predicate, so the filter is empty.
proof fn lemma_filter_all_false<A>(s: Seq<A>, pred: spec_fn(A) -> bool)
    requires
        forall|i: int| 0 <= i < s.len() ==> !pred(#[trigger] s[i]),
    ensures
        s.filter(pred).len() == 0,
    decreases s.len(),
{
    reveal(Seq::filter);
    if s.len() > 0 {
        let d = s.drop_last();
        assert(forall|i: int| 0 <= i < d.len() ==> !pred(#[trigger] d[i]));
        lemma_filter_all_false(d, pred);
    }
}

/// Insert one scanned file as a photo row, insert-or-ignore by path.
fn insert_scanned_file(store: &mut Store, file: &ScannedFile) -> (id: i64)
    requires
        old(store).wf(),
        old(store).next_photo_id < i64::MAX,
    ensures
        final(store).wf(),
        old(store).has_photo_path(file.path@) ==> *final(store) == *old(store),
        !old(store).has_photo_path(file.path@) ==> {
            &&& final(store).photos@.len() == old(store).photos@.len() + 1
            &&& final(store).photos@[old(store).photos@.len() as int].path@ == file.path@
            &&& forall|i: int|
                0 <= i < old(store).photos@.len() ==> #[trigger] final(store).photos@[i] == old(store).photos@[i]
            &&& final(store).next_photo_id == old(store).next_photo_id + 1
            &&& final(store).logical_photos@ == old(store).logical_photos@
            &&& final(store).stacks@ == old(store).stacks@
            &&& final(store).next_logical_photo_id == old(store).next_logical_photo_id
            &&& final(store).next_stack_id == old(store).next_stack_id
        },
        final(store).source_folders@ == old(store).source_folders@,
        final(store).next_photo_id <= old(store).next_photo_id + 1,
        final(store).next_photo_id >= old(store).next_photo_id,
        final(store).next_logical_photo_id == old(store).next_logical_photo_id,
        final(store).next_stack_id == old(store).next_stack_id,
        final(store).next_folder_id == old(store).next_folder_id,
        final(store).has_photo_path(file.path@),
        exists|i: int|
            0 <= i < final(store).photos@.len() && (#[trigger] final(store).photos@[i]).path@
                == file.path@ && final(store).photos@[i].id == id,
        forall|p: Seq<char>|
            old(store).has_photo_path(p) ==> #[trigger] final(store).has_photo_path(p),
{
    store.insert_photo(
        file.path.clone(),
        file.format,
        file.capture_time,
        file.orientation,
        crate::model::clone_opt_string(&file.camera_model),
        crate::model::clone_opt_string(&file.lens),
    )
}

/// Persist one logical group: upsert its members, create its
/// logical-photo row, and link every member's row to it. Photo rows
/// keep their metadata; only their logical-photo link may move to
/// the fresh row.
#[verifier::rlimit(60)]
fn persist_one_group(
    store: &mut Store,
    group: &LogicalGroup,
    project_id: i64,
    stack_db_id: i64,
) -> (lp_id: i64)
    requires
        old(store).wf(),
        group.wf(),
        old(store).next_photo_id + 2 < i64::MAX,
        old(store).next_logical_photo_id < i64::MAX,
    ensures
        final(store).wf(),
        lp_id == old(store).next_logical_photo_id,
        final(store).next_logical_photo_id == old(store).next_logical_photo_id + 1,
        final(store).next_photo_id <= old(store).next_photo_id + 2,
        final(store).next_photo_id >= old(store).next_photo_id,
        final(store).next_stack_id == old(store).next_stack_id,
        final(store).next_folder_id == old(store).next_folder_id,
        final(store).stacks@ == old(store).stacks@,
        final(store).source_folders@ == old(store).source_folders@,
        final(store).logical_photos@.len() == old(store).logical_photos@.len() + 1,
        forall|q: int|
            #![trigger final(store).logical_photos@[q]]
            0 <= q && q < old(store).logical_photos@.len() ==> final(store).logical_photos@[q]
                == old(store).logical_photos@[q],
        ({
            let lr = final(store).logical_photos@[old(store).logical_photos@.len() as int];
            lr.id == lp_id && lr.project_id == project_id && lr.stack_id == stack_db_id
        }),
        final(store).photos@.len() >= old(store).photos@.len(),
        forall|j: int|
            #![trigger final(store).photos@[j]]
            0 <= j && j < old(store).photos@.len() ==> meta_eq(
                old(store).photos@[j],
                final(store).photos@[j],
            ) && (final(store).photos@[j].logical_photo_id
                == old(store).photos@[j].logical_photo_id || final(store).photos@[j].logical_photo_id
                == Some(lp_id)),
        forall|i: int|
            #![trigger final(store).photos@[i]]
            old(store).photos@.len() <= i && i < final(store).photos@.len() ==> final(store).photos@[i].path@
                == group.spec_representative().path@ || (group.is_pair
                && final(store).photos@[i].path@ == group.raw->Some_0.path@),
        forall|m: int|
            0 <= m < group.spec_members().len() ==> path_linked_in(
                final(store).photos@,
                final(store).logical_photos@,
                project_id,
                (#[trigger] group.spec_members()[m]).path@,
            ),
        forall|p: Seq<char>|
            old(store).has_photo_path(p) ==> #[trigger] final(store).has_photo_path(p),
        (forall|m: int|
            0 <= m < group.spec_members().len() ==> old(store).has_photo_path(
                (#[trigger] group.spec_members()[m]).path@,
            )) ==> final(store).photos@.len() == old(store).photos@.len(),
{
    let ghost st_a = *store;
    let rep = group.representative();
    let rep_id = insert_scanned_file(store, rep);
    let ghost st_b = *store;
    let lp_id = store.insert_logical_photo(project_id, rep_id, stack_db_id);
    let ghost st_c = *store;
    store.set_logical_photo_id(rep_id, lp_id);
    let ghost st_d = *store;
    let ghost lp_index = st_a.logical_photos@.len() as int;
    proof {
        // The representative's row is linked now.
        let w = choose|w: int|
            0 <= w < st_b.photos@.len() && (#[trigger] st_b.photos@[w]).path@ == rep.path@
                && st_b.photos@[w].id == rep_id;
        assert(st_d.photos@[w] == crate::store::with_lp(st_c.photos@[w], Some(lp_id)));
        assert(st_d.photos@[w].path@ == rep.path@);
        assert(st_d.logical_photos@[lp_index].id == lp_id);
        assert(photo_linked_pred(st_d.logical_photos@, project_id)(st_d.photos@[w]));
        assert(path_linked_in(st_d.photos@, st_d.logical_photos@, project_id, rep.path@));
    }

    if group.is_pair {
        let partner = match &group.raw {
            Some(p) => p,
            None => vstd::pervasive::unreached(),
        };
        let other_id = insert_scanned_file(store, partner);
        let ghost st_e = *store;
        store.set_logical_photo_id(other_id, lp_id);
        proof {
            let f = *store;
            // Partner row linked.
            let w2 = choose|w2: int|
                0 <= w2 < st_e.photos@.len() && (#[trigger] st_e.photos@[w2]).path@
                    == partner.path@ && st_e.photos@[w2].id == other_id;
            assert(f.photos@[w2] == crate::store::with_lp(st_e.photos@[w2], Some(lp_id)));
            assert(f.logical_photos@[lp_index].id == lp_id);
            assert(photo_linked_pred(f.logical_photos@, project_id)(f.photos@[w2]));
            assert(path_linked_in(f.photos@, f.logical_photos@, project_id, partner.path@));
            // Representative row still linked: its link was either kept
            // or rewritten to the same fresh row.
            let w = choose|w: int|
                0 <= w < st_d.photos@.len() && (#[trigger] st_d.photos@[w]).path@ == rep.path@
                    && photo_linked_pred(st_d.logical_photos@, project_id)(st_d.photos@[w]);
            assert(st_e.photos@[w] == st_d.photos@[w]);
            assert(f.photos@[w].path@ == rep.path@);
            assert(photo_linked_pred(f.logical_photos@, project_id)(f.photos@[w])) by {
                if f.photos@[w].logical_photo_id == st_d.photos@[w].logical_photo_id {
                    let l0 = st_d.photos@[w].logical_photo_id->Some_0;
                    let v = choose|v: int|
                        0 <= v < st_d.logical_photos@.len() && (
                        #[trigger] st_d.logical_photos@[v]).id == l0
                            && st_d.logical_photos@[v].project_id == project_id;
                    assert(f.logical_photos@[v] == st_d.logical_photos@[v]);
                } else {
                    assert(f.photos@[w].logical_photo_id == Some(lp_id));
                }
            }
            assert(path_linked_in(f.photos@, f.logical_photos@, project_id, rep.path@));
            // Member linkage in both slots.
            assert(group.spec_members()[0] == *rep);
            assert(group.spec_members()[1] == *partner);
            assert forall|m: int| 0 <= m < group.spec_members().len() implies path_linked_in(
                f.photos@,
                f.logical_photos@,
                project_id,
                (#[trigger] group.spec_members()[m]).path@,
            ) by {
                if m == 0 {
                } else {
                    assert(m == 1);
                }
            }
            // Appended rows carry only member paths.
            assert forall|i: int|
                #![trigger f.photos@[i]]
                st_a.photos@.len() <= i && i < f.photos@.len() implies f.photos@[i].path@
                == group.spec_representative().path@ || (group.is_pair && f.photos@[i].path@
                == group.raw->Some_0.path@) by {
                if i < st_b.photos@.len() {
                    assert(st_b.photos@[i].path@ == rep.path@);
                    assert(f.photos@[i].path@ == rep.path@);
                } else {
                    assert(st_e.photos@[i].path@ == partner.path@);
                    assert(f.photos@[i].path@ == partner.path@);
                }
            }
            // Presence of any path survives every step.
            assert forall|p: Seq<char>| st_a.has_photo_path(p) implies f.has_photo_path(p) by {
                assert(st_b.has_photo_path(p));
                assert(st_c.has_photo_path(p));
                assert(st_d.has_photo_path(p));
                assert(st_e.has_photo_path(p));
            }
            // All members present already means nothing was appended.
            if forall|m: int|
                0 <= m < group.spec_members().len() ==> st_a.has_photo_path(
                    (#[trigger] group.spec_members()[m]).path@,
                ) {
                assert(st_a.has_photo_path(rep.path@));
                assert(st_a.has_photo_path(partner.path@));
                assert(st_b.photos@.len() == st_a.photos@.len());
                assert(st_b.has_photo_path(partner.path@));
                assert(st_c.has_photo_path(partner.path@));
                assert(st_d.has_photo_path(partner.path@));
                assert(st_e.photos@.len() == st_d.photos@.len());
            }
        }
    } else {
        proof {
            let f = *store;
            assert(group.spec_members() == seq![*rep]);
            assert forall|m: int| 0 <= m < group.spec_members().len() implies path_linked_in(
                f.photos@,
                f.logical_photos@,
                project_id,
                (#[trigger] group.spec_members()[m]).path@,
            ) by {
                assert(group.spec_members()[m] == *rep);
            }
            assert forall|i: int|
                #![trigger f.photos@[i]]
                st_a.photos@.len() <= i && i < f.photos@.len() implies f.photos@[i].path@
                == group.spec_representative().path@ || (group.is_pair && f.photos@[i].path@
                == group.raw->Some_0.path@) by {
                assert(st_b.photos@[i].path@ == rep.path@);
            }
            assert forall|p: Seq<char>| st_a.has_photo_path(p) implies f.has_photo_path(p) by {
                assert(st_b.has_photo_path(p));
                assert(st_c.has_photo_path(p));
                assert(st_d.has_photo_path(p));
            }
            if forall|m: int|
                0 <= m < group.spec_members().len() ==> st_a.has_photo_path(
                    (#[trigger] group.spec_members()[m]).path@,
                ) {
                assert(st_a.has_photo_path(rep.path@));
                assert(st_b.photos@.len() == st_a.photos@.len());
            }
        }
    }
    lp_id
}

/// Run the import pipeline over the store: reload every stored photo,
/// pair and cluster it together with the new files, clear the
/// project's structure and rebuild it with fresh ids, and return the
/// run's statistics and the preview targets.
///
/// `cancel` is the cancellation flag as observed at the persistence
/// checkpoint: when set, nothing is touched and the statistics only
/// report the cancelled scan.
#[verifier::spinoff_prover]
#[verifier::rlimit(100)]
pub fn run_pipeline(
    store: &mut Store,
    project_id: i64,
    burst_gap_secs: u64,
    new_files: Vec<ScannedFile>,
    total_files_scanned: usize,
    skipped_existing: usize,
    cancel: bool,
) -> (r: (ImportStats, Vec<ThumbTarget>, Ghost<(Seq<ScannedFile>, Seq<String>)>))
    requires
        old(store).wf(),
        old(store).next_photo_id + 2 * (old(store).photos@.len() + new_files@.len()) + 4
            < i64::MAX,
        old(store).next_logical_photo_id + old(store).photos@.len() + new_files@.len() + 4
            < i64::MAX,
        old(store).next_stack_id + old(store).photos@.len() + new_files@.len() + 4 < i64::MAX,
        2 * (old(store).photos@.len() + new_files@.len()) + 4 < usize::MAX,
    ensures
        final(store).wf(),
        r.0.total_files_scanned == total_files_scanned,
        r.0.skipped_existing == skipped_existing,
        r.0.cancelled == cancel,
        r.0.errors == 0,
        r.0.error_log@.len() == 0,
        cancel ==> *final(store) == *old(store) && r.0.stacks_generated == 0
            && r.0.logical_photos == 0 && r.0.imported == 0 && r.1@.len() == 0,
        !cancel ==> {
            // The project's structure was rebuilt: exactly the counted
            // logical photos and stacks exist for it, all with ids no
            // earlier run could have used.
            &&& r.0.logical_photos as int == final(store).logical_photos@.filter(
                lp_project_pred(project_id),
            ).len()
            &&& r.0.stacks_generated as int == final(store).stacks@.filter(
                crate::store::stack_project_pred(project_id),
            ).len()
            &&& forall|j: int|
                #![trigger final(store).logical_photos@[j]]
                0 <= j && j < final(store).logical_photos@.len() && final(store).logical_photos@[j].project_id == project_id ==> final(store).logical_photos@[j].id >= old(store).next_logical_photo_id
            &&& forall|j: int|
                #![trigger final(store).stacks@[j]]
                0 <= j && j < final(store).stacks@.len() && final(store).stacks@[j].project_id
                    == project_id ==> final(store).stacks@[j].id >= old(store).next_stack_id
            // Other projects' rows survive untouched.
            &&& final(store).logical_photos@.filter(lp_keep_pred(project_id)) == old(store).logical_photos@.filter(lp_keep_pred(project_id))
            &&& final(store).stacks@.filter(stack_keep_pred(project_id)) == old(store).stacks@.filter(stack_keep_pred(project_id))
            // Photo rows are never deleted and their metadata is never
            // overwritten: first write wins.
            &&& final(store).photos@.len() >= old(store).photos@.len()
            &&& forall|i: int|
                #![trigger final(store).photos@[i]]
                0 <= i && i < old(store).photos@.len() ==> meta_eq(
                    old(store).photos@[i],
                    final(store).photos@[i],
                )
            // Idempotency: a rerun with nothing new adds no photo row
            // and imports nothing.
            &&& new_files@.len() == 0 ==> final(store).photos@.len() == old(store).photos@.len()
            &&& (new_files@.len() == 0 && (forall|i: int|
                0 <= i < old(store).photos@.len() ==> photo_linked_pred(
                    old(store).logical_photos@,
                    project_id,
                )(#[trigger] old(store).photos@[i]))) ==> r.0.imported == 0
            &&& r.1@.len() == r.0.logical_photos
            // Every new file's path is present afterwards: nothing
            // handed to the run is lost.
            &&& forall|q: int|
                0 <= q < new_files@.len() ==> final(store).has_photo_path(
                    (#[trigger] new_files@[q]).path@,
                )

            // The statistics are the pair-detection and import counts
            // over the stored files and the new ones; the returned
            // ghost views witness the stored files and known paths.
            &&& pipeline_report_ok(*old(store), project_id, r.2@.0, r.2@.1, new_files@, r.0)
        },
{
    let mut stats = ImportStats::new();
    stats.total_files_scanned = total_files_scanned;
    stats.skipped_existing = skipped_existing;

    if cancel {
        stats.cancelled = true;
        return (stats, Vec::new(), Ghost((Seq::empty(), Seq::empty())));
    }

    let ghost store0 = *store;
    let ghost old_len = store.photos@.len() as int;
    let ghost next_lp0 = store.next_logical_photo_id as int;
    let ghost next_stack0 = store.next_stack_id as int;
    let ghost new_empty = new_files@.len() == 0;
    let ghost all_linked = forall|i: int|
        0 <= i < store0.photos@.len() ==> photo_linked_pred(store0.logical_photos@, project_id)(
            #[trigger] store0.photos@[i],
        );

    let existing_paths = store.list_photo_paths_for_project(project_id);
    let mut all_files = store.load_existing_scanned_files();
    let ghost loaded = all_files@;
    let mut incoming = new_files;
    all_files.append(&mut incoming);
    let ghost all = all_files@;
    proof {
        if new_empty {
            assert(all =~= loaded);
        }
        if new_empty && all_linked {
            lemma_filter_all_true(
                store0.photos@,
                photo_linked_pred(store0.logical_photos@, project_id),
            );
            assert(existing_paths@.len() == store0.photos@.len());
        }
    }

    let groups = detect_pairs(all_files);
    proof {
        lemma_groups_from_sound(all, 0);
        assert forall|k: int| 0 <= k < groups@.len() implies (#[trigger] groups@[k]).wf()
            && member_ok(groups@[k]) by {
            assert(groups@[k].wf());
        }
        crate::pairs::lemma_groups_len_bound(all, 0);
        assert(groups@.len() <= all.len());
    }

    let mut pairs_count: usize = 0;
    let mut gi: usize = 0;
    proof {
        reveal(Seq::filter);
        assert(groups@.take(0).filter(crate::pairs::pair_pred()) =~= Seq::<LogicalGroup>::empty());
    }
    while gi < groups.len()
        invariant
            gi <= groups@.len(),
            pairs_count == groups@.take(gi as int).filter(crate::pairs::pair_pred()).len(),
            pairs_count <= gi,
        decreases groups@.len() - gi,
    {
        proof {
            groups@.take(gi as int).lemma_filter_push(
                groups@[gi as int],
                crate::pairs::pair_pred(),
            );
            assert(groups@.take(gi + 1 as int) =~= groups@.take(gi as int).push(
                groups@[gi as int],
            ));
        }
        if groups[gi].is_pair {
            pairs_count = pairs_count + 1;
        }
        gi = gi + 1;
    }
    proof {
        assert(groups@.take(groups@.len() as int) =~= groups@);
    }
    stats.pairs_detected = pairs_count;

    // Count the imports: one per member whose path is not among the
    // known ones, walking the groups in detection order.
    let mut imported_total: usize = 0;
    let mut gj: usize = 0;
    while gj < groups.len()
        invariant
            gj <= groups@.len(),
            groups@.len() <= all.len(),
            2 * all.len() + 4 < usize::MAX,
            imported_total as int + imported_from(groups@, gj as int, existing_paths@)
                == imported_from(groups@, 0, existing_paths@),
            imported_total <= 2 * gj,
            forall|q: int|
                0 <= q < groups@.len() ==> member_ok(#[trigger] groups@[q]) && groups@[q].wf(),
            forall|q: int, m: int|
                0 <= q < groups@.len() && 0 <= m < (#[trigger] groups@[q]).spec_members().len()
                    ==> all.contains(#[trigger] groups@[q].spec_members()[m]),
            forall|q: int|
                0 <= q < loaded.len() ==> (#[trigger] loaded[q]).path@ == store0.photos@[q].path@,
            loaded.len() == store0.photos@.len(),
            new_empty ==> all == loaded,
            new_empty == (new_files@.len() == 0),
            all_linked == (forall|i: int|
                0 <= i < store0.photos@.len() ==> photo_linked_pred(
                    store0.logical_photos@,
                    project_id,
                )(#[trigger] store0.photos@[i])),
            (new_empty && all_linked) ==> existing_paths@.len() == store0.photos@.len()
                && forall|q: int|
                0 <= q < existing_paths@.len() ==> (#[trigger] existing_paths@[q])@
                    == store0.photos@[q].path@,
            (new_empty && all_linked) ==> imported_total == 0,
        decreases groups@.len() - gj,
    {
        let group = &groups[gj];
        let rep = group.representative();
        proof {
            assert(*group == groups@[gj as int]);
            assert(group.spec_members()[0] == *rep);
            assert(all.contains(groups@[gj as int].spec_members()[0]));
            assert(all.contains(*rep));
            lemma_member_known(store0, store0, loaded, all, *rep, new_empty);
            if new_empty && all_linked {
                let j = choose|j: int|
                    0 <= j < store0.photos@.len() && store0.photos@[j].path@ == rep.path@;
                assert(existing_paths@[j]@ == rep.path@);
                assert(spec_path_known(existing_paths@, rep.path@));
            }
        }
        if !contains_string(&existing_paths, &rep.path) {
            imported_total = imported_total + 1;
        }
        if group.is_pair {
            let partner = match &group.raw {
                Some(p) => p,
                None => vstd::pervasive::unreached(),
            };
            proof {
                assert(group.spec_members()[1] == *partner);
                assert(all.contains(groups@[gj as int].spec_members()[1]));
                assert(all.contains(*partner));
                lemma_member_known(store0, store0, loaded, all, *partner, new_empty);
                if new_empty && all_linked {
                    let j = choose|j: int|
                        0 <= j < store0.photos@.len() && store0.photos@[j].path@
                            == partner.path@;
                    assert(existing_paths@[j]@ == partner.path@);
                    assert(spec_path_known(existing_paths@, partner.path@));
                }
            }
            if !contains_string(&existing_paths, &partner.path) {
                imported_total = imported_total + 1;
            }
        }
        gj = gj + 1;
    }
    stats.imported = imported_total;

    let ghost groups_view = groups@;
    let assigned = assign_stacks_clean(groups, burst_gap_secs);
    proof {
        lemma_assigned_props(assigned@, groups_view, all);
    }

    proof {
        assert(assigned@.len() + 2 < usize::MAX);
    }
    let mut max_stack_idx: usize = 0;
    let mut k: usize = 0;
    while k < assigned.len()
        invariant
            k <= assigned@.len(),
            assigned@.len() + 2 < usize::MAX,
            max_stack_idx <= assigned@.len() + 1,
            forall|q: int| 0 <= q < k ==> (#[trigger] assigned@[q]).1 < max_stack_idx,
            forall|q: int| 0 <= q < assigned@.len() ==> (#[trigger] assigned@[q]).1 as int <= q + 1,
        decreases assigned@.len() - k,
    {
        if assigned[k].1 >= max_stack_idx {
            max_stack_idx = assigned[k].1 + 1;
        }
        k = k + 1;
    }
    stats.stacks_generated = max_stack_idx;
    stats.logical_photos = assigned.len();

    store.clear_stacks_and_logical_photos(project_id);
    let ghost lps_cleared = store.logical_photos@;
    let ghost stacks_cleared = store.stacks@;
    proof {
        assert(store.photos@ =~= old_photos_after_clear(store0, project_id));
        assert forall|i: int| 0 <= i < old_len implies meta_eq(
            store0.photos@[i],
            #[trigger] store.photos@[i],
        ) by {
            assert(store.photos@[i] == old_photos_after_clear(store0, project_id)[i]);
        }
        store0.logical_photos@.lemma_filter_len(lp_keep_pred(project_id));
        store0.stacks@.lemma_filter_len(stack_keep_pred(project_id));
        assert forall|q: int| 0 <= q < lps_cleared.len() implies !(
        (#[trigger] lps_cleared[q]).project_id == project_id) by {
            store0.logical_photos@.lemma_filter_pred(lp_keep_pred(project_id), q);
        }
        assert forall|q: int| 0 <= q < stacks_cleared.len() implies !(
        (#[trigger] stacks_cleared[q]).project_id == project_id) by {
            store0.stacks@.lemma_filter_pred(stack_keep_pred(project_id), q);
        }
    }

    // Pre-create one stack row per distinct stack index.
    let mut stack_id_map: Vec<i64> = Vec::new();
    let mut idx: usize = 0;
    while idx < max_stack_idx
        invariant
            idx <= max_stack_idx <= assigned@.len() + 1,
            assigned@.len() <= all.len(),
            next_stack0 + max_stack_idx + 2 < i64::MAX,
            store.wf(),
            stack_id_map@.len() == idx,
            store.photos@ == old_photos_after_clear(store0, project_id),
            store.logical_photos@ == lps_cleared,
            store.stacks@.len() == stacks_cleared.len() + idx,
            forall|q: int| 0 <= q < stacks_cleared.len() ==> #[trigger] store.stacks@[q]
                == stacks_cleared[q],
            forall|q: int|
                0 <= q < idx ==> #[trigger] store.stacks@[stacks_cleared.len() + q] == (StackRow {
                    id: (next_stack0 + q) as i64,
                    project_id,
                }),
            forall|q: int| 0 <= q < idx ==> #[trigger] stack_id_map@[q] == (next_stack0 + q) as i64,
            store.next_stack_id == next_stack0 + idx,
            store.next_photo_id == store0.next_photo_id,
            store.next_logical_photo_id == next_lp0,
            all.len() == store0.photos@.len() + new_files@.len(),
        decreases max_stack_idx - idx,
    {
        let sid = store.insert_stack(project_id);
        stack_id_map.push(sid);
        idx = idx + 1;
    }

    // Persist each logical group: upsert its members, create its
    // logical-photo row, link the members, and remember the preview
    // target.
    let mut targets: Vec<ThumbTarget> = Vec::new();
    let ghost stacks_after = store.stacks@;
    let mut g: usize = 0;
    while g < assigned.len()
        invariant
            g <= assigned@.len(),
            assigned@.len() <= all.len(),
            all.len() == store0.photos@.len() + new_files@.len(),
            store.wf(),
            targets@.len() == g,
            stack_id_map@.len() == max_stack_idx,
            forall|q: int| 0 <= q < assigned@.len() ==> (#[trigger] assigned@[q]).1
                < max_stack_idx,
            forall|q: int|
                0 <= q < assigned@.len() ==> member_ok((#[trigger] assigned@[q]).0) && (
                assigned@[q]).0.wf(),
            forall|q: int, m: int|
                0 <= q < assigned@.len() && 0 <= m < (#[trigger] assigned@[q]).0.spec_members().len()
                    ==> all.contains(#[trigger] assigned@[q].0.spec_members()[m]),
            forall|q: int|
                0 <= q < loaded.len() ==> (#[trigger] loaded[q]).path@ == store0.photos@[q].path@,
            loaded.len() == store0.photos@.len(),
            store.stacks@ == stacks_after,
            store.next_stack_id == next_stack0 + max_stack_idx,
            store.logical_photos@.len() == lps_cleared.len() + g,
            forall|q: int| 0 <= q < lps_cleared.len() ==> #[trigger] store.logical_photos@[q]
                == lps_cleared[q],
            forall|q: int|
                lps_cleared.len() <= q < store.logical_photos@.len() ==> (
                #[trigger] store.logical_photos@[q]).project_id == project_id
                    && store.logical_photos@[q].id >= next_lp0,
            store.next_logical_photo_id == next_lp0 + g,
            store.next_photo_id <= store0.next_photo_id + 2 * g,
            store0.next_photo_id + 2 * all.len() + 4 < i64::MAX,
            next_lp0 + all.len() + 4 < i64::MAX,
            2 * all.len() + 4 < usize::MAX,
            old_len == store0.photos@.len(),
            new_empty ==> all == loaded,
            new_empty == (new_files@.len() == 0),
            all_linked == (forall|i: int|
                0 <= i < store0.photos@.len() ==> photo_linked_pred(
                    store0.logical_photos@,
                    project_id,
                )(#[trigger] store0.photos@[i])),
            store.photos@.len() >= old_len,
            forall|i: int|
                0 <= i < old_len ==> meta_eq(store0.photos@[i], #[trigger] store.photos@[i]),
            new_empty ==> store.photos@.len() == old_len,
            forall|q: int, m: int|
                0 <= q < g && 0 <= m < ((#[trigger] assigned@[q]).0).spec_members().len()
                    ==> store.has_photo_path(
                    (#[trigger] (assigned@[q]).0.spec_members()[m]).path@,
                ),
            forall|q: int, m: int|
                0 <= q < g && 0 <= m < ((#[trigger] assigned@[q]).0).spec_members().len()
                    ==> path_linked_in(
                    store.photos@,
                    store.logical_photos@,
                    project_id,
                    (#[trigger] (assigned@[q]).0.spec_members()[m]).path@,
                ),
            forall|i: int|
                #![trigger store.photos@[i]]
                old_len <= i && i < store.photos@.len() ==> is_member_path(
                    assigned@,
                    g as int,
                    store.photos@[i].path@,
                ),
            stats.imported == imported_total,
            (new_empty && all_linked) ==> imported_total == 0,
            stats.errors == 0,
            stats.error_log@.len() == 0,
            stats.cancelled == false,
            stats.total_files_scanned == total_files_scanned,
            stats.skipped_existing == skipped_existing,
            stats.stacks_generated == max_stack_idx,
            stats.logical_photos == assigned@.len(),
        decreases assigned@.len() - g,
    {
        let group = assigned[g].0.duplicate();
        let stack_pos = assigned[g].1;
        let stack_db_id = stack_id_map[stack_pos];
        let rep = group.representative();
        proof {
            assert(group == assigned@[g as int].0);
            assert(*rep == group.spec_representative());
            assert(group.spec_members()[0] == *rep);
            assert(all.contains(assigned@[g as int].0.spec_members()[0]));
            assert(all.contains(*rep));
            lemma_member_known(store0, *store, loaded, all, *rep, new_empty);
        }
        proof {
            if new_empty {
                assert forall|m: int|
                    0 <= m < group.spec_members().len() implies store.has_photo_path(
                    (#[trigger] group.spec_members()[m]).path@,
                ) by {
                    assert(all.contains(assigned@[g as int].0.spec_members()[m]));
                    lemma_member_known(
                        store0,
                        *store,
                        loaded,
                        all,
                        group.spec_members()[m],
                        new_empty,
                    );
                }
            }
        }
        let ghost st_a = *store;
        let lp_id = persist_one_group(store, &group, project_id, stack_db_id);
        targets.push((lp_id, rep.path.clone(), rep.format, rep.orientation));
        proof {
            let cur = *store;
            assert forall|q: int, m: int|
                0 <= q < g + 1 && 0 <= m < ((#[trigger] assigned@[q]).0).spec_members().len()
                    implies store.has_photo_path(
                (#[trigger] (assigned@[q]).0.spec_members()[m]).path@,
            ) && path_linked_in(
                store.photos@,
                store.logical_photos@,
                project_id,
                (assigned@[q]).0.spec_members()[m].path@,
            ) by {
                let p = (assigned@[q]).0.spec_members()[m].path@;
                if q == g {
                    assert(path_linked_in(cur.photos@, cur.logical_photos@, project_id, p));
                    assert(store.has_photo_path(p));
                } else {
                    assert(path_linked_in(st_a.photos@, st_a.logical_photos@, project_id, p));
                    let j = choose|j: int|
                        0 <= j < st_a.photos@.len() && (#[trigger] st_a.photos@[j]).path@ == p
                            && photo_linked_pred(st_a.logical_photos@, project_id)(
                            st_a.photos@[j],
                        );
                    assert(cur.photos@[j].path@ == p);
                    assert(photo_linked_pred(cur.logical_photos@, project_id)(cur.photos@[j]))
                        by {
                        if cur.photos@[j].logical_photo_id == st_a.photos@[j].logical_photo_id {
                            let l0 = st_a.photos@[j].logical_photo_id->Some_0;
                            let w = choose|w: int|
                                0 <= w < st_a.logical_photos@.len() && (
                                #[trigger] st_a.logical_photos@[w]).id == l0
                                    && st_a.logical_photos@[w].project_id == project_id;
                            assert(cur.logical_photos@[w] == st_a.logical_photos@[w]);
                        } else {
                            assert(cur.photos@[j].logical_photo_id == Some(lp_id));
                            assert(cur.logical_photos@[st_a.logical_photos@.len() as int].id
                                == lp_id);
                        }
                    }
                    assert(store.has_photo_path(p));
                }
            }
            assert forall|i: int|
                #![trigger store.photos@[i]]
                old_len <= i && i < store.photos@.len() implies is_member_path(
                assigned@,
                g + 1,
                store.photos@[i].path@,
            ) by {
                if i < st_a.photos@.len() {
                    assert(is_member_path(assigned@, g as int, st_a.photos@[i].path@));
                    let (q2, m2) = choose|q2: int, m2: int|
                        0 <= q2 < g && 0 <= m2 < ((assigned@[q2]).0).spec_members().len() && (
                        #[trigger] (assigned@[q2]).0.spec_members()[m2]).path@
                            == st_a.photos@[i].path@;
                    assert(store.photos@[i].path@ == st_a.photos@[i].path@);
                    assert(((assigned@[q2]).0).spec_members()[m2].path@
                        == store.photos@[i].path@);
                } else {
                    if store.photos@[i].path@ == group.spec_representative().path@ {
                        assert(((assigned@[g as int]).0).spec_members()[0].path@
                            == store.photos@[i].path@);
                    } else {
                        assert(group.is_pair);
                        assert(((assigned@[g as int]).0).spec_members()[1].path@
                            == store.photos@[i].path@);
                    }
                }
            }
        }
        g = g + 1;
    }

    proof {
        // The project's rows are exactly the appended ones.
        let lps = store.logical_photos@;
        let added = lps.skip(lps_cleared.len() as int);
        assert(lps =~= lps_cleared + added);
        Seq::filter_distributes_over_add(lps_cleared, added, lp_project_pred(project_id));
        Seq::filter_distributes_over_add(lps_cleared, added, lp_keep_pred(project_id));
        lemma_filter_all_false(lps_cleared, lp_project_pred(project_id));
        lemma_filter_all_true(lps_cleared, lp_keep_pred(project_id));
        assert(forall|q: int|
            0 <= q < added.len() ==> (#[trigger] added[q]).project_id == project_id);
        lemma_filter_all_true(added, lp_project_pred(project_id));
        lemma_filter_all_false(added, lp_keep_pred(project_id));
        assert(lps.filter(lp_project_pred(project_id)) =~= added);
        assert(lps.filter(lp_keep_pred(project_id)) =~= lps_cleared);
        assert(lps_cleared == store0.logical_photos@.filter(lp_keep_pred(project_id)));

        let sts = store.stacks@;
        let added_st = sts.skip(stacks_cleared.len() as int);
        assert(sts =~= stacks_cleared + added_st);
        Seq::filter_distributes_over_add(
            stacks_cleared,
            added_st,
            crate::store::stack_project_pred(project_id),
        );
        Seq::filter_distributes_over_add(stacks_cleared, added_st, stack_keep_pred(project_id));
        lemma_filter_all_false(stacks_cleared, crate::store::stack_project_pred(project_id));
        lemma_filter_all_true(stacks_cleared, stack_keep_pred(project_id));
        assert forall|q: int|
            0 <= q < added_st.len() implies (#[trigger] added_st[q]).project_id == project_id
                && added_st[q].id >= next_stack0 by {
            assert(added_st[q] == sts[stacks_cleared.len() + q]);
            assert(sts[stacks_cleared.len() + q] == (StackRow {
                id: (next_stack0 + q) as i64,
                project_id,
            }));
        }
        lemma_filter_all_true(added_st, crate::store::stack_project_pred(project_id));
        lemma_filter_all_false(added_st, stack_keep_pred(project_id));
        assert(sts.filter(crate::store::stack_project_pred(project_id)) =~= added_st);
        assert(sts.filter(stack_keep_pred(project_id)) =~= stacks_cleared);

        assert(all =~= loaded + new_files@);
        assert(groups_view == spec_detect_pairs(loaded + new_files@));
        reveal(pipeline_report_ok);
        assert(pipeline_report_ok(
            store0,
            project_id,
            loaded,
            existing_paths@,
            new_files@,
            stats,
        ));

        // Every new file landed in some group, and every member of
        // every group was persisted, so its path is present.
        assert forall|q: int| 0 <= q < new_files@.len() implies store.has_photo_path(
            (#[trigger] new_files@[q]).path@,
        ) by {
            let j = loaded.len() + q;
            assert(all[j] == new_files@[q]);
            crate::pairs::lemma_every_file_grouped(all, j);
            let k = choose|k: int|
                0 <= k < spec_detect_pairs(all).len() && (
                #[trigger] spec_detect_pairs(all)[k]).spec_members().contains(all[j]);
            lemma_assigned_contains(assigned@, groups_view, groups_view[k]);
            let q2 = choose|q2: int|
                0 <= q2 < assigned@.len() && (#[trigger] assigned@[q2]).0 == groups_view[k];
            let mem = (assigned@[q2]).0.spec_members();
            let m = choose|m: int| 0 <= m < mem.len() && mem[m] == all[j];
            assert(store.has_photo_path(mem[m].path@));
        }
    }

    (stats, targets, Ghost((loaded, existing_paths@)))
}

/// The photo table right after the project's structure is cleared:
/// rows linked to the project lose their link, all else is kept.
pub open spec fn old_photos_after_clear(store0: Store, project_id: i64) -> Seq<PhotoRow> {
    Seq::new(
        store0.photos@.len(),
        |i: int|
            if photo_linked_pred(store0.logical_photos@, project_id)(store0.photos@[i]) {
                crate::store::with_lp(store0.photos@[i], None)
            } else {
                store0.photos@[i]
            },
    )
}

/// A group member loaded from the store keeps a path the store
/// already holds: when no new file came in, every member's path is
/// already present in the photo table.
proof fn lemma_member_known(
    store0: Store,
    store_now: Store,
    loaded: Seq<ScannedFile>,
    all: Seq<ScannedFile>,
    m: ScannedFile,
    new_empty: bool,
)
    requires
        all.contains(m),
        new_empty ==> all == loaded,
        loaded.len() == store0.photos@.len(),
        forall|q: int| 0 <= q < loaded.len() ==> (#[trigger] loaded[q]).path@
            == store0.photos@[q].path@,
        store_now.photos@.len() >= store0.photos@.len(),
        forall|i: int|
            0 <= i < store0.photos@.len() ==> meta_eq(
                store0.photos@[i],
                #[trigger] store_now.photos@[i],
            ),
    ensures
        new_empty ==> store_now.has_photo_path(m.path@),
        new_empty ==> exists|j: int|
            0 <= j < store0.photos@.len() && (#[trigger] store0.photos@[j]).path@ == m.path@,
{
    if new_empty {
        let j = choose|j: int| 0 <= j < all.len() && all[j] == m;
        assert(loaded[j].path@ == store0.photos@[j].path@);
        assert(meta_eq(store0.photos@[j], store_now.photos@[j]));
        assert(store_now.photos@[j].path@ == m.path@);
        assert(store0.photos@[j].path@ == m.path@);
    }
}

/// `a` is `b` with at most its stack link changed: the row's
/// identity — id, project and representative — is untouched.
pub open spec fn lp_same_mod_stack(a: LogicalPhotoRow, b: LogicalPhotoRow) -> bool {
    &&& a.id == b.id
    &&& a.project_id == b.project_id
    &&& a.representative_photo_id == b.representative_photo_id
}

/// Re-stack the project's existing logical photos without touching
/// the file system or the photo rows: only stacks are rebuilt, with
/// fresh ids, and each logical photo keeps its id — and with it any
/// preview already cached under that id.
#[verifier::rlimit(60)]
pub fn restack_from_existing_photos(store: &mut Store, project_id: i64, burst_gap_secs: u64) -> (r:
    ImportStats)
    requires
        old(store).wf(),
        old(store).next_stack_id + old(store).logical_photos@.len() + 4 < i64::MAX,
        old(store).logical_photos@.len() + 4 < usize::MAX,
    ensures
        final(store).wf(),
        r.cancelled == false,
        r.errors == 0,
        r.imported == 0,
        r.total_files_scanned == 0,
        final(store).photos@ == old(store).photos@,
        final(store).source_folders@ == old(store).source_folders@,
        final(store).next_photo_id == old(store).next_photo_id,
        final(store).next_logical_photo_id == old(store).next_logical_photo_id,
        // Identity is preserved: the same logical-photo rows, only
        // their stack links rewritten.
        final(store).logical_photos@.len() == old(store).logical_photos@.len(),
        forall|i: int|
            #![trigger final(store).logical_photos@[i]]
            0 <= i && i < old(store).logical_photos@.len() ==> lp_same_mod_stack(
                old(store).logical_photos@[i],
                final(store).logical_photos@[i],
            ),
        // Other projects' stacks survive; the project's own stacks all
        // carry ids no earlier run could have used.
        old(store).logical_photos@.filter(lp_project_pred(project_id)).len() > 0 ==> final(store).stacks@.filter(stack_keep_pred(project_id)) == old(store).stacks@.filter(
            stack_keep_pred(project_id),
        ),
        forall|j: int|
            #![trigger final(store).stacks@[j]]
            0 <= j && j < final(store).stacks@.len() && final(store).stacks@[j].project_id
                == project_id && old(store).logical_photos@.filter(
                lp_project_pred(project_id),
            ).len() > 0 ==> final(store).stacks@[j].id >= old(store).next_stack_id,
        old(store).logical_photos@.filter(lp_project_pred(project_id)).len() == 0 ==> *final(store) == *old(store) && r.logical_photos == 0 && r.stacks_generated == 0,
        r.logical_photos as int == old(store).logical_photos@.filter(
            lp_project_pred(project_id),
        ).len(),
        old(store).reps_ok() ==> final(store).reps_ok(),
{
    let mut stats = ImportStats::new();
    let ghost store0 = *store;
    let ghost next_stack0 = store.next_stack_id as int;

    let lp_rows = store.load_logical_photos_for_restack(project_id);
    proof {
        store0.logical_photos@.lemma_filter_len(lp_project_pred(project_id));
        assert(lp_rows@.len() + 4 < usize::MAX);
    }
    if lp_rows.len() == 0 {
        return stats;
    }
    stats.logical_photos = lp_rows.len();

    store.clear_stacks_only(project_id);
    let ghost stacks_cleared = store.stacks@;
    let ghost lps_after_clear = store.logical_photos@;
    proof {
        assert(lps_after_clear == store0.logical_photos@);
        store0.stacks@.lemma_filter_len(stack_keep_pred(project_id));
        assert forall|q: int| 0 <= q < stacks_cleared.len() implies !(
        (#[trigger] stacks_cleared[q]).project_id == project_id) by {
            store0.stacks@.lemma_filter_pred(stack_keep_pred(project_id), q);
        }
    }

    // Partition into timed and untimed logical photos.
    let n = lp_rows.len();
    let mut timed: Vec<(i64, i64)> = Vec::new();
    let mut untimed: Vec<i64> = Vec::new();
    let mut i: usize = 0;
    while i < n
        invariant
            i <= n == lp_rows@.len(),
            n + 4 < usize::MAX,
            timed@.len() + untimed@.len() == i,
        decreases n - i,
    {
        let row = lp_rows[i];
        match row.1 {
            Some(t) => timed.push((row.0, t)),
            None => untimed.push(row.0),
        }
        i = i + 1;
    }

    // Sort the timed ones ascending by capture time (selection sort).
    let mut work = timed;
    let ghost timed_len = work@.len() as int;
    let mut sorted: Vec<(i64, i64)> = Vec::new();
    while work.len() > 0
        invariant
            sorted@.len() + work@.len() == timed_len,
            timed_len + untimed@.len() == n,
            n + 4 < usize::MAX,
        decreases work@.len(),
    {
        let mut bi: usize = 0;
        let mut j: usize = 1;
        while j < work.len()
            invariant
                bi < work@.len(),
                j <= work@.len(),
                work@.len() > 0,
            decreases work@.len() - j,
        {
            if work[j].1 < work[bi].1 {
                bi = j;
            }
            j = j + 1;
        }
        let e = work.remove(bi);
        sorted.push(e);
    }

    // Consecutive-gap walk, then one solo stack per untimed photo.
    let mut assignments: Vec<(i64, usize)> = Vec::new();
    let mut stack_index: usize = 0;
    let mut k: usize = 0;
    while k < sorted.len()
        invariant
            k <= sorted@.len(),
            sorted@.len() + untimed@.len() <= n,
            n + 4 < usize::MAX,
            assignments@.len() == k,
            stack_index <= k,
            k == 0 ==> stack_index == 0,
            forall|q: int| 0 <= q < k ==> (#[trigger] assignments@[q]).1 <= stack_index,
        decreases sorted@.len() - k,
    {
        if k > 0 {
            let prev = sorted[k - 1].1;
            let cur = sorted[k].1;
            let diff: i128 = (cur as i128) - (prev as i128);
            if diff > (burst_gap_secs as i128) {
                stack_index = stack_index + 1;
            }
        }
        assignments.push((sorted[k].0, stack_index));
        k = k + 1;
    }
    let mut m: usize = 0;
    while m < untimed.len()
        invariant
            m <= untimed@.len(),
            sorted@.len() + untimed@.len() <= n,
            n + 4 < usize::MAX,
            assignments@.len() == sorted@.len() + m,
            stack_index <= sorted@.len() + m,
            forall|q: int| 0 <= q < assignments@.len() ==> (#[trigger] assignments@[q]).1
                <= stack_index,
        decreases untimed@.len() - m,
    {
        stack_index = stack_index + 1;
        assignments.push((untimed[m], stack_index));
        m = m + 1;
    }
    proof {
        assert(stack_index <= n);
    }
    let max_stack_idx: usize = if assignments.len() > 0 {
        stack_index + 1
    } else {
        0
    };
    stats.stacks_generated = max_stack_idx;

    // Pre-create the stack rows.
    let mut stack_id_map: Vec<i64> = Vec::new();
    let mut idx: usize = 0;
    while idx < max_stack_idx
        invariant
            idx <= max_stack_idx,
            max_stack_idx <= n + 1,
            next_stack0 + n + 4 < i64::MAX,
            store.wf(),
            stack_id_map@.len() == idx,
            store.photos@ == store0.photos@,
            store.logical_photos@ == lps_after_clear,
            store.source_folders@ == store0.source_folders@,
            store.next_photo_id == store0.next_photo_id,
            store.next_logical_photo_id == store0.next_logical_photo_id,
            store.stacks@.len() == stacks_cleared.len() + idx,
            forall|q: int| 0 <= q < stacks_cleared.len() ==> #[trigger] store.stacks@[q]
                == stacks_cleared[q],
            forall|q: int|
                stacks_cleared.len() <= q < store.stacks@.len() ==> (
                #[trigger] store.stacks@[q]).project_id == project_id && store.stacks@[q].id
                    >= next_stack0,
            store.next_stack_id == next_stack0 + idx,
        decreases max_stack_idx - idx,
    {
        let sid = store.insert_stack(project_id);
        stack_id_map.push(sid);
        idx = idx + 1;
    }

    // Rewire each logical photo to its new stack.
    let ghost stacks_built = store.stacks@;
    let mut a: usize = 0;
    while a < assignments.len()
        invariant
            a <= assignments@.len(),
            stack_id_map@.len() == max_stack_idx,
            forall|q: int| 0 <= q < assignments@.len() ==> (#[trigger] assignments@[q]).1
                < max_stack_idx || assignments@.len() == 0,
            forall|q: int| 0 <= q < assignments@.len() ==> (#[trigger] assignments@[q]).1
                <= stack_index,
            assignments@.len() > 0 ==> max_stack_idx == stack_index + 1,
            store.wf(),
            store.photos@ == store0.photos@,
            store.source_folders@ == store0.source_folders@,
            store.next_photo_id == store0.next_photo_id,
            store.next_logical_photo_id == store0.next_logical_photo_id,
            store.next_stack_id == next_stack0 + max_stack_idx,
            store.stacks@ == stacks_built,
            store.logical_photos@.len() == store0.logical_photos@.len(),
            forall|i2: int|
                #![trigger store.logical_photos@[i2]]
                0 <= i2 && i2 < store0.logical_photos@.len() ==> lp_same_mod_stack(
                    store0.logical_photos@[i2],
                    store.logical_photos@[i2],
                ),
        decreases assignments@.len() - a,
    {
        let (lp_id, sidx) = assignments[a];
        let sid = stack_id_map[sidx];
        store.update_logical_photo_stack(lp_id, sid);
        a = a + 1;
    }

    proof {
        let sts = store.stacks@;
        let added_st = sts.skip(stacks_cleared.len() as int);
        assert(sts =~= stacks_cleared + added_st);
        Seq::filter_distributes_over_add(stacks_cleared, added_st, stack_keep_pred(project_id));
        lemma_filter_all_true(stacks_cleared, stack_keep_pred(project_id));
        assert forall|q: int|
            0 <= q < added_st.len() implies (#[trigger] added_st[q]).project_id == project_id
                && added_st[q].id >= next_stack0 by {
            assert(added_st[q] == sts[stacks_cleared.len() + q]);
        }
        lemma_filter_all_false(added_st, stack_keep_pred(project_id));
        assert(sts.filter(stack_keep_pred(project_id)) =~= stacks_cleared);
        assert forall|j: int|
            0 <= j < sts.len() && sts[j].project_id == project_id implies sts[j].id
            >= next_stack0 by {
            if j < stacks_cleared.len() {
                assert(sts[j] == stacks_cleared[j]);
            } else {
                assert(sts[j] == added_st[j - stacks_cleared.len()]);
            }
        }
        if store0.reps_ok() {
            assert forall|j: int|
                0 <= j < store.logical_photos@.len() implies crate::store::photo_with_id(
                store.photos@,
                (#[trigger] store.logical_photos@[j]).representative_photo_id,
            ) is Some by {
                assert(lp_same_mod_stack(store0.logical_photos@[j], store.logical_photos@[j]));
                assert(store.photos@ == store0.photos@);
            }
        }
    }
    stats
}

/// The ids that have no cached preview yet, in order.
fn missing_ids(all_ids: &Vec<i64>, cached: &Vec<i64>) -> (r: Vec<i64>)
    ensures
        forall|k: int| 0 <= k < r@.len() ==> !cached@.contains(#[trigger] r@[k]),
        forall|q: int|
            0 <= q < all_ids@.len() && !cached@.contains(#[trigger] all_ids@[q]) ==> r@.contains(
                all_ids@[q],
            ),
{
    let mut missing: Vec<i64> = Vec::new();
    let mut i: usize = 0;
    while i < all_ids.len()
        invariant
            i <= all_ids@.len(),
            forall|k: int| 0 <= k < missing@.len() ==> !cached@.contains(#[trigger] missing@[k]),
            forall|q: int|
                0 <= q < i && !cached@.contains(#[trigger] all_ids@[q]) ==> missing@.contains(
                    all_ids@[q],
                ),
        decreases all_ids@.len() - i,
    {
        let ghost m0 = missing@;
        if !crate::store::contains_i64(cached, all_ids[i]) {
            missing.push(all_ids[i]);
            proof {
                assert(forall|k2: int| 0 <= k2 < m0.len() ==> (#[trigger] m0[k2]) == missing@[k2]);
                assert(missing@[missing@.len() - 1] == all_ids@[i as int]);
                assert forall|q: int|
                    0 <= q <= i && !cached@.contains(#[trigger] all_ids@[q]) implies missing@.contains(
                    all_ids@[q],
                ) by {
                    if q < i {
                        let w = choose|w: int| 0 <= w < m0.len() && m0[w] == all_ids@[q];
                        assert(missing@[w] == all_ids@[q]);
                    } else {
                        assert(missing@[missing@.len() - 1] == all_ids@[q]);
                    }
                }
            }
        }
        i = i + 1;
    }
    missing
}

/// A preview target for a logical photo of the project whose cached
/// preview is missing: the row at index `j` belongs to the project,
/// its id is not among the cached ones, and the entry carries its
/// representative's path, format and orientation.
pub open spec fn missing_entry_matches(
    lps: Seq<LogicalPhotoRow>,
    photos: Seq<PhotoRow>,
    project_id: i64,
    cached: Seq<i64>,
    e: ThumbTarget,
    j: int,
) -> bool {
    &&& 0 <= j < lps.len()
    &&& lps[j].project_id == project_id
    &&& !cached.contains(lps[j].id)
    &&& e.0 == lps[j].id
    &&& crate::store::photo_with_id(photos, lps[j].representative_photo_id) is Some
    &&& e.1@ == crate::store::photo_with_id(
        photos,
        lps[j].representative_photo_id,
    )->Some_0.path@
    &&& e.2 == crate::store::photo_with_id(photos, lps[j].representative_photo_id)->Some_0.format
    &&& e.3 == crate::store::photo_with_id(
        photos,
        lps[j].representative_photo_id,
    )->Some_0.orientation
}

/// Every logical photo of the project that lacks a cached preview
/// and has a stored representative appears among the targets.
pub open spec fn all_missing_listed(
    lps: Seq<LogicalPhotoRow>,
    photos: Seq<PhotoRow>,
    project_id: i64,
    cached: Seq<i64>,
    targets: Seq<ThumbTarget>,
) -> bool {
    forall|j: int|
        0 <= j < lps.len() && (#[trigger] lps[j]).project_id == project_id && !cached.contains(
            lps[j].id,
        ) && crate::store::photo_with_id(photos, lps[j].representative_photo_id) is Some
            ==> exists|k: int| 0 <= k < targets.len() && (#[trigger] targets[k]).0 == lps[j].id
}

pub open spec fn is_missing_entry(
    lps: Seq<LogicalPhotoRow>,
    photos: Seq<PhotoRow>,
    project_id: i64,
    cached: Seq<i64>,
    e: ThumbTarget,
) -> bool {
    exists|j: int| missing_entry_matches(lps, photos, project_id, cached, e, j)
}

/// Compute the previews still to derive: all the project's logical
/// photos minus those whose id already has a cached file. Returns the
/// missing targets and the total number of logical photos. Already
/// cached entries are never returned, so resuming never touches them;
/// when everything is cached the result is empty.
#[verifier::spinoff_prover]
#[verifier::rlimit(100)]
pub fn find_missing_thumbnail_targets(store: &Store, project_id: i64, cached: &Vec<i64>) -> (r: (
    Vec<ThumbTarget>,
    usize,
))
    ensures
        r.1 as int == store.logical_photos@.filter(lp_project_pred(project_id)).len(),
        forall|k: int|
            0 <= k < r.0@.len() ==> is_missing_entry(
                store.logical_photos@,
                store.photos@,
                project_id,
                cached@,
                #[trigger] r.0@[k],
            ),
        all_missing_listed(store.logical_photos@, store.photos@, project_id, cached@, r.0@),
        // With every representative row present, completeness is
        // unconditional, and under store validity no logical photo is
        // reported twice.
        store.reps_ok() ==> forall|j: int|
            0 <= j < store.logical_photos@.len() && (#[trigger] store.logical_photos@[j]).project_id
                == project_id && !cached@.contains(store.logical_photos@[j].id) ==> exists|k: int|
                0 <= k < r.0@.len() && (#[trigger] r.0@[k]).0 == store.logical_photos@[j].id,
        store.wf() ==> forall|k1: int, k2: int|
            0 <= k1 < k2 < r.0@.len() ==> (#[trigger] r.0@[k1]).0 != (#[trigger] r.0@[k2]).0,
        (forall|j: int|
            0 <= j < store.logical_photos@.len() && (#[trigger] store.logical_photos@[j]).project_id
                == project_id ==> cached@.contains(store.logical_photos@[j].id)) ==> r.0@.len()
            == 0,
{
    let all_ids = store.list_all_lp_ids_for_project(project_id);
    let total = all_ids.len();
    let ghost lps = store.logical_photos@;
    let ghost proj = lps.filter(lp_project_pred(project_id));

    let missing = missing_ids(&all_ids, cached);
    let targets = store.list_representative_photos_for_lp_ids(project_id, &missing);
    proof {
        lemma_targets_sound(lps, store.photos@, project_id, cached@, missing@, targets@);
        lemma_targets_complete(
            lps,
            store.photos@,
            project_id,
            cached@,
            all_ids@,
            missing@,
            targets@,
        );
        if store.reps_ok() {
            assert forall|j: int|
                0 <= j < lps.len() && (#[trigger] lps[j]).project_id == project_id
                    && !cached@.contains(lps[j].id) implies exists|k: int|
                0 <= k < targets@.len() && (#[trigger] targets@[k]).0 == lps[j].id by {
                assert(crate::store::photo_with_id(
                    store.photos@,
                    lps[j].representative_photo_id,
                ) is Some);
            }
        }
    }
    (targets, total)
}

/// Every entry returned for the not-yet-cached ids is a missing one,
/// and when every logical photo of the project is cached nothing at
/// all is returned.
proof fn lemma_targets_sound(
    lps: Seq<LogicalPhotoRow>,
    photos: Seq<PhotoRow>,
    project_id: i64,
    cached: Seq<i64>,
    missing: Seq<i64>,
    targets: Seq<ThumbTarget>,
)
    requires
        forall|k: int|
            0 <= k < targets.len() ==> crate::store::is_repr_entry(
                lps,
                photos,
                project_id,
                missing,
                #[trigger] targets[k],
            ),
        forall|k: int| 0 <= k < missing.len() ==> !cached.contains(#[trigger] missing[k]),
    ensures
        forall|k: int|
            0 <= k < targets.len() ==> is_missing_entry(
                lps,
                photos,
                project_id,
                cached,
                #[trigger] targets[k],
            ),
        (forall|j: int|
            0 <= j < lps.len() && (#[trigger] lps[j]).project_id == project_id ==> cached.contains(
                lps[j].id,
            )) ==> targets.len() == 0,
{
    assert forall|k: int| 0 <= k < targets.len() implies is_missing_entry(
        lps,
        photos,
        project_id,
        cached,
        #[trigger] targets[k],
    ) by {
        let j = choose|j: int|
            crate::store::repr_entry_matches(lps, photos, project_id, missing, targets[k], j);
        assert(!cached.contains(lps[j].id));
        assert(missing_entry_matches(lps, photos, project_id, cached, targets[k], j));
    }
    if (forall|j: int|
        0 <= j < lps.len() && (#[trigger] lps[j]).project_id == project_id ==> cached.contains(
            lps[j].id,
        )) && targets.len() > 0 {
        let j = choose|j: int|
            missing_entry_matches(lps, photos, project_id, cached, targets[0], j);
        assert(is_missing_entry(lps, photos, project_id, cached, targets[0]));
        assert(cached.contains(lps[j].id));
    }
}

/// Every logical photo of the project whose preview is missing and
/// whose representative photo row exists is returned.
proof fn lemma_targets_complete(
    lps: Seq<LogicalPhotoRow>,
    photos: Seq<PhotoRow>,
    project_id: i64,
    cached: Seq<i64>,
    all_ids: Seq<i64>,
    missing: Seq<i64>,
    targets: Seq<ThumbTarget>,
)
    requires
        all_ids == lps.filter(lp_project_pred(project_id)).map_values(
            |l: LogicalPhotoRow| l.id,
        ),
        forall|q: int|
            0 <= q < all_ids.len() && !cached.contains(#[trigger] all_ids[q]) ==> missing.contains(
                all_ids[q],
            ),
        forall|j: int|
            0 <= j < lps.len() && (#[trigger] lps[j]).project_id == project_id
                && missing.contains(lps[j].id) && crate::store::photo_with_id(
                photos,
                lps[j].representative_photo_id,
            ) is Some ==> exists|k: int|
                0 <= k < targets.len() && (#[trigger] targets[k]).0 == lps[j].id,
    ensures
        all_missing_listed(lps, photos, project_id, cached, targets),
{
    let proj = lps.filter(lp_project_pred(project_id));
    assert forall|j: int|
        0 <= j < lps.len() && (#[trigger] lps[j]).project_id == project_id && !cached.contains(
            lps[j].id,
        ) && crate::store::photo_with_id(photos, lps[j].representative_photo_id) is Some implies
        exists|k: int| 0 <= k < targets.len() && (#[trigger] targets[k]).0 == lps[j].id by {
        lps.lemma_filter_contains(lp_project_pred(project_id), j);
        assert(proj.contains(lps[j]));
        let m = choose|m: int| 0 <= m < proj.len() && proj[m] == lps[j];
        assert(all_ids[m] == lps[j].id);
        assert(!cached.contains(all_ids[m]));
        assert(missing.contains(lps[j].id));
    }
}

/// Law (restack preserves identity): after restacking a project that
/// had any logical photos, none of the project's previous stack ids
/// appears among its new ones — every new stack id lies at or above
/// the old high-water mark, which every old id lies below.
pub proof fn lemma_restack_stack_ids_fresh(before: Store, after: Store, project_id: i64)
    requires
        before.wf(),
        forall|j: int|
            #![trigger after.stacks@[j]]
            0 <= j && j < after.stacks@.len() && after.stacks@[j].project_id == project_id
                ==> after.stacks@[j].id >= before.next_stack_id,
    ensures
        forall|i: int, j: int|
            0 <= i < before.stacks@.len() && 0 <= j < after.stacks@.len() && (
            #[trigger] before.stacks@[i]).project_id == project_id && (
            #[trigger] after.stacks@[j]).project_id == project_id ==> before.stacks@[i].id
                != after.stacks@[j].id,
{
}

/// A detected group reappears, as a value, somewhere in the
/// assignment.
proof fn lemma_assigned_contains(
    a: Seq<(LogicalGroup, usize)>,
    gs: Seq<LogicalGroup>,
    x: LogicalGroup,
)
    requires
        crate::stacks::assigned_groups(a).to_multiset() == gs.to_multiset(),
        gs.contains(x),
    ensures
        exists|q: int| 0 <= q < a.len() && (#[trigger] a[q]).0 == x,
{
    let ag = crate::stacks::assigned_groups(a);
    ag.to_multiset_ensures();
    gs.to_multiset_ensures();
    assert(gs.to_multiset().count(x) > 0);
    assert(ag.to_multiset().count(x) > 0);
    assert(ag.contains(x));
    let w = choose|w: int| 0 <= w < ag.len() && ag[w] == x;
    assert((a[w]).0 == x);
}

/// The assignment's groups are the detected groups rearranged, so
/// each is well-formed and draws its members from the input files.
proof fn lemma_assigned_props(
    a: Seq<(LogicalGroup, usize)>,
    gs: Seq<LogicalGroup>,
    all: Seq<ScannedFile>,
)
    requires
        crate::stacks::assigned_groups(a).to_multiset() == gs.to_multiset(),
        forall|i: int| 0 <= i < gs.len() ==> (#[trigger] gs[i]).wf(),
        forall|i: int, m: int|
            0 <= i < gs.len() && 0 <= m < (#[trigger] gs[i]).spec_members().len() ==> all.contains(
                #[trigger] gs[i].spec_members()[m],
            ),
    ensures
        forall|q: int| 0 <= q < a.len() ==> ((#[trigger] a[q]).0).wf(),
        forall|q: int, m: int|
            0 <= q < a.len() && 0 <= m < ((#[trigger] a[q]).0).spec_members().len() ==> all.contains(
                #[trigger] (a[q]).0.spec_members()[m],
            ),
{
    let ag = crate::stacks::assigned_groups(a);
    assert forall|q: int| 0 <= q < a.len() implies ((#[trigger] a[q]).0).wf() && (forall|m: int|
        0 <= m < (a[q]).0.spec_members().len() ==> all.contains(
            #[trigger] (a[q]).0.spec_members()[m],
        )) by {
        assert(ag[q] == (a[q]).0);
        assert(ag.contains(ag[q]));
        ag.to_multiset_ensures();
        gs.to_multiset_ensures();
        assert(ag.to_multiset().count(ag[q]) > 0);
        assert(gs.to_multiset().count(ag[q]) > 0);
        assert(gs.contains(ag[q]));
        let i = choose|i: int| 0 <= i < gs.len() && gs[i] == ag[q];
        assert(gs[i].wf());
        assert(forall|m: int|
            0 <= m < gs[i].spec_members().len() ==> all.contains(
                #[trigger] gs[i].spec_members()[m],
            ));
    }
}

} // verus!
