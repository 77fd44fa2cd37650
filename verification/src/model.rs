//! Plain data carried through the import pipeline: file formats,
//! scanned files, run statistics, live status, and the row summaries
//! handed to the caller's user interface.

use vstd::prelude::*;

verus! {

/// The two kinds of photo file the pipeline accepts: a raster preview
/// (JPEG) or a raw sensor dump. Matched exhaustively everywhere; there
/// is deliberately no third case.
#[derive(Debug, Clone, Copy, PartialEq, Eq, Structural)]
pub enum PhotoFormat {
    Jpeg,
    Raw,
}

/// A file found during scanning together with its detected format.
#[derive(Debug, Clone)]
pub struct ScannedPath {
    pub path: String,
    pub format: PhotoFormat,
}

/// A scanned file after metadata extraction. `capture_time` is in
/// seconds relative to 1970-01-01 00:00:00; `base_name` is the
/// case-folded file stem and `dir` the prefix before the final path
/// separator — together they form the pairing key.
#[derive(Debug, Clone)]
pub struct ScannedFile {
    pub path: String,
    pub format: PhotoFormat,
    pub capture_time: Option<i64>,
    pub camera_model: Option<String>,
    pub lens: Option<String>,
    pub orientation: Option<u16>,
    pub base_name: String,
    pub dir: String,
}

/// A value-preserving copy of an optional string.
pub fn clone_opt_string(o: &Option<String>) -> (r: Option<String>)
    ensures
        r == *o,
{
    match o {
        Some(s) => Some(s.clone()),
        None => None,
    }
}

impl ScannedFile {
    /// A copy equal to the original in every field.
    pub fn duplicate(&self) -> (r: ScannedFile)
        ensures
            r == *self,
    {
        ScannedFile {
            path: self.path.clone(),
            format: self.format,
            capture_time: self.capture_time,
            camera_model: clone_opt_string(&self.camera_model),
            lens: clone_opt_string(&self.lens),
            orientation: self.orientation,
            base_name: self.base_name.clone(),
            dir: self.dir.clone(),
        }
    }
}

/// Statistics reported to the caller after every run, complete or
/// cancelled. `error_log` holds at most the first hundred messages.
#[derive(Debug, Clone)]
pub struct ImportStats {
    pub total_files_scanned: usize,
    pub imported: usize,
    pub skipped_existing: usize,
    pub skipped_unsupported: usize,
    pub errors: usize,
    pub pairs_detected: usize,
    pub stacks_generated: usize,
    pub logical_photos: usize,
    pub error_log: Vec<String>,
    pub cancelled: bool,
}

impl ImportStats {
    pub open spec fn is_zeroed(self) -> bool {
        &&& self.total_files_scanned == 0
        &&& self.imported == 0
        &&& self.skipped_existing == 0
        &&& self.skipped_unsupported == 0
        &&& self.errors == 0
        &&& self.pairs_detected == 0
        &&& self.stacks_generated == 0
        &&& self.logical_photos == 0
        &&& self.error_log@.len() == 0
        &&& self.cancelled == false
    }

    pub fn new() -> (r: ImportStats)
        ensures
            r.is_zeroed(),
    {
        ImportStats {
            total_files_scanned: 0,
            imported: 0,
            skipped_existing: 0,
            skipped_unsupported: 0,
            errors: 0,
            pairs_detected: 0,
            stacks_generated: 0,
            logical_photos: 0,
            error_log: Vec::new(),
            cancelled: false,
        }
    }
}

impl Default for ImportStats {
    fn default() -> (r: ImportStats)
        ensures
            r.is_zeroed(),
    {
        ImportStats::new()
    }
}

/// Pollable progress record shared between the caller and the worker.
#[derive(Debug, Clone)]
pub struct IndexingStatus {
    pub running: bool,
    pub thumbnails_running: bool,
    pub total: usize,
    pub processed: usize,
    pub errors: usize,
    pub cancelled: bool,
    pub paused: bool,
    pub last_stats: Option<ImportStats>,
    pub thumbnails_total: usize,
    pub thumbnails_done: usize,
}

impl IndexingStatus {
    pub open spec fn is_idle(self) -> bool {
        &&& self.running == false
        &&& self.thumbnails_running == false
        &&& self.total == 0
        &&& self.processed == 0
        &&& self.errors == 0
        &&& self.cancelled == false
        &&& self.paused == false
        &&& self.last_stats is None
        &&& self.thumbnails_total == 0
        &&& self.thumbnails_done == 0
    }

    pub fn new() -> (r: IndexingStatus)
        ensures
            r.is_idle(),
    {
        IndexingStatus {
            running: false,
            thumbnails_running: false,
            total: 0,
            processed: 0,
            errors: 0,
            cancelled: false,
            paused: false,
            last_stats: None,
            thumbnails_total: 0,
            thumbnails_done: 0,
        }
    }
}

impl Default for IndexingStatus {
    fn default() -> (r: IndexingStatus)
        ensures
            r.is_idle(),
    {
        IndexingStatus::new()
    }
}

/// One stack as listed for the grid view.
#[derive(Debug, Clone)]
pub struct StackSummary {
    pub stack_id: i64,
    pub logical_photo_count: i64,
    pub earliest_capture: Option<String>,
    pub has_raw: bool,
    pub has_jpeg: bool,
    pub thumbnail_path: Option<String>,
}

/// One logical photo as listed inside a stack.
#[derive(Debug, Clone)]
pub struct LogicalPhotoSummary {
    pub logical_photo_id: i64,
    pub thumbnail_path: Option<String>,
    pub capture_time: Option<String>,
    pub camera_model: Option<String>,
    pub lens: Option<String>,
    pub has_raw: bool,
    pub has_jpeg: bool,
}

/// A source folder attached to a project.
#[derive(Debug, Clone)]
pub struct SourceFolderRow {
    pub id: i64,
    pub path: String,
}

/// A project row.
#[derive(Debug, Clone)]
pub struct Project {
    pub id: i64,
    pub name: String,
    pub slug: String,
    pub created_at: String,
    pub last_opened_at: Option<String>,
}

/// The burst gap used when no configuration is present.
pub fn default_burst_gap() -> (r: u64)
    ensures
        r == 3,
{
    3
}

/// Application configuration.
#[derive(Debug, Clone)]
pub struct Config {
    pub last_opened_slug: Option<String>,
    pub burst_gap_secs: u64,
}

impl Default for Config {
    fn default() -> (r: Config)
        ensures
            r.last_opened_slug is None,
            r.burst_gap_secs == 3,
    {
        Config { last_opened_slug: None, burst_gap_secs: default_burst_gap() }
    }
}

/// The directory a project lives in, under the application home.
pub fn project_dir(home: &str, slug: &str) -> (r: String)
    ensures
        r@ == home@ + "/projects/"@ + slug@,
{
    let mut out = String::new();
    out.append(home);
    out.append("/projects/");
    out.append(slug);
    out
}

/// Payload of the notification sent after each thumbnail is written.
#[derive(Debug, Clone)]
pub struct ThumbnailReadyPayload {
    pub logical_photo_id: i64,
}

/// Static configuration for one pipeline run.
#[derive(Debug, Clone)]
pub struct PipelineConfig {
    pub project_id: i64,
    pub project_dir: String,
    pub folder_paths: Vec<String>,
    pub burst_gap_secs: u64,
}

} // verus!
