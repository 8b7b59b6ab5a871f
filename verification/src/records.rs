//! Plain records exchanged with the store and the user interface.
use vstd::prelude::*;

verus! {

/// A tracked file.
#[derive(Debug, Clone)]
pub struct FileRecord {
    pub id: i64,
    pub path: String,
    pub filename: String,
    pub extension: Option<String>,
    pub size: i64,
    pub mtime: String,
    pub ctime: String,
    pub hash: Option<String>,
    pub first_seen: String,
    pub last_seen: String,
    pub is_deleted: bool,
}

/// One detected change, joined with its file.
#[derive(Debug, Clone)]
pub struct ChangeRecord {
    pub id: i64,
    pub file_id: i64,
    pub file_path: String,
    pub filename: String,
    pub change_type: String,
    pub detected_at: String,
    pub previous_path: Option<String>,
    pub new_path: Option<String>,
}

/// Counts of today's changes by kind.
#[derive(Debug, Clone)]
pub struct ChangeStats {
    pub new_count: i64,
    pub modified_count: i64,
    pub deleted_count: i64,
    pub moved_count: i64,
}

impl Default for ChangeStats {
    fn default() -> (r: Self)
        ensures
            r.new_count == 0 && r.modified_count == 0 && r.deleted_count == 0 && r.moved_count
                == 0,
    {
        ChangeStats { new_count: 0, modified_count: 0, deleted_count: 0, moved_count: 0 }
    }
}

/// Size of a directory on one day.
#[derive(Debug, Clone)]
pub struct SnapshotRecord {
    pub directory: String,
    pub snapshot_date: String,
    pub total_size: i64,
    pub file_count: i64,
}

/// A group of files with identical content.
#[derive(Debug, Clone)]
pub struct DuplicateGroupRecord {
    pub id: i64,
    pub hash: String,
    pub file_size: i64,
    pub created_at: String,
    pub file_paths: Vec<String>,
    pub file_count: i64,
}

/// A folder the user asked to watch.
#[derive(Debug, Clone)]
pub struct MonitoredFolder {
    pub id: i64,
    pub path: String,
    pub enabled: bool,
    pub added_at: String,
}

/// One scan over the monitored folders.
#[derive(Debug, Clone)]
pub struct ScanBatch {
    pub id: i64,
    pub folder_count: i64,
    pub folders_scanned: String,
    pub started_at: String,
    pub completed_at: Option<String>,
    pub total_files: i64,
    pub new_files: i64,
    pub modified_files: i64,
    pub deleted_files: i64,
    pub moved_files: i64,
    pub total_size: i64,
}

/// A scan together with the changes it recorded.
#[derive(Debug, Clone)]
pub struct ScanBatchWithChanges {
    pub batch: ScanBatch,
    pub changes: Vec<ChangeRecord>,
}

/// A stored, compressed copy of a file's content.
#[derive(Debug, Clone)]
pub struct FileSnapshotRecord {
    pub id: i64,
    pub original_path: String,
    pub original_filename: String,
    pub snapshot_path: String,
    pub compressed_size: i64,
    pub original_size: i64,
    pub file_hash: Option<String>,
    pub created_at: String,
    pub scan_batch_id: Option<i64>,
}

/// The content snapshots of one file, summarised.
#[derive(Debug, Clone)]
pub struct SnapshotFileGroup {
    pub original_path: String,
    pub original_filename: String,
    pub snapshot_count: i64,
    pub total_size: i64,
    pub latest_snapshot: String,
    pub oldest_snapshot: String,
    pub file_exists: bool,
}

/// A deleted file found in the system trash.
#[derive(Debug, Clone)]
pub struct RecycleBinEntry {
    pub id: i64,
    pub original_path: String,
    pub filename: String,
    pub original_size: i64,
    pub deleted_at: String,
    pub is_recoverable: bool,
}

/// A folder kept in sync by a cloud provider.
#[derive(Debug, Clone)]
pub struct CloudFolder {
    pub id: i64,
    pub path: String,
    pub provider: String,
    pub display_name: Option<String>,
    pub is_active: bool,
    pub detected_at: String,
}

/// Counts of what can be recovered.
#[derive(Debug, Clone)]
pub struct RecoveryStats {
    pub recycle_bin_count: i64,
    pub snapshot_count: i64,
    pub total_snapshot_size: i64,
    pub cloud_folders_count: i64,
}

impl Default for RecoveryStats {
    fn default() -> (r: Self)
        ensures
            r.recycle_bin_count == 0 && r.snapshot_count == 0 && r.total_snapshot_size == 0
                && r.cloud_folders_count == 0,
    {
        RecoveryStats {
            recycle_bin_count: 0,
            snapshot_count: 0,
            total_snapshot_size: 0,
            cloud_folders_count: 0,
        }
    }
}

/// A rule for files the scanner skips in one folder.
#[derive(Debug, Clone)]
pub struct IgnorePattern {
    pub id: i64,
    pub folder_id: i64,
    pub pattern: String,
    pub pattern_type: String,
    pub created_at: String,
}

/// A label attached to a content snapshot.
#[derive(Debug, Clone)]
pub struct SnapshotTag {
    pub id: i64,
    pub snapshot_id: i64,
    pub name: String,
    pub description: Option<String>,
    pub color: String,
    pub created_at: String,
}

/// A named set of monitored folders.
#[derive(Debug, Clone)]
pub struct WorkspaceProfile {
    pub id: i64,
    pub name: String,
    pub is_active: bool,
    pub created_at: String,
    pub updated_at: String,
}

/// Number of changes on one day.
#[derive(Debug, Clone)]
pub struct HeatmapEntry {
    pub date: String,
    pub count: i64,
}

/// When and for which kinds of change the user wants to be notified.
#[derive(Debug, Clone)]
pub struct NotificationProfile {
    pub id: i64,
    pub name: String,
    pub quiet_hours_start: i64,
    pub quiet_hours_end: i64,
    pub notify_new: bool,
    pub notify_modified: bool,
    pub notify_deleted: bool,
    pub notify_moved: bool,
    pub enabled: bool,
    pub created_at: String,
}

/// A webhook target, with its (encrypted) secret.
#[derive(Debug, Clone)]
pub struct WebhookEndpoint {
    pub id: i64,
    pub name: String,
    pub url: String,
    pub events: String,
    pub secret: Option<String>,
    pub enabled: bool,
    pub last_triggered: Option<String>,
    pub last_status: Option<i64>,
    pub created_at: String,
}

/// A webhook target as shown to the user: the secret is replaced by a flag.
#[derive(Debug, Clone)]
pub struct WebhookEndpointSafe {
    pub id: i64,
    pub name: String,
    pub url: String,
    pub events: String,
    pub has_secret: bool,
    pub enabled: bool,
    pub last_triggered: Option<String>,
    pub last_status: Option<i64>,
    pub created_at: String,
}

/// The public form of an endpoint: every field but the secret, plus
/// whether a secret is set.
pub open spec fn safe_view_of(ep: WebhookEndpoint) -> WebhookEndpointSafe {
    WebhookEndpointSafe {
        id: ep.id,
        name: ep.name,
        url: ep.url,
        events: ep.events,
        has_secret: ep.secret is Some,
        enabled: ep.enabled,
        last_triggered: ep.last_triggered,
        last_status: ep.last_status,
        created_at: ep.created_at,
    }
}

impl From<WebhookEndpoint> for WebhookEndpointSafe {
    fn from(ep: WebhookEndpoint) -> (r: Self) {
        WebhookEndpointSafe {
            id: ep.id,
            name: ep.name,
            url: ep.url,
            events: ep.events,
            has_secret: ep.secret.is_some(),
            enabled: ep.enabled,
            last_triggered: ep.last_triggered,
            last_status: ep.last_status,
            created_at: ep.created_at,
        }
    }
}

impl vstd::std_specs::convert::FromSpecImpl<WebhookEndpoint> for WebhookEndpointSafe {
    open spec fn obeys_from_spec() -> bool {
        true
    }

    open spec fn from_spec(ep: WebhookEndpoint) -> Self {
        safe_view_of(ep)
    }
}

/// One line of a blamed file.
#[derive(Debug, Clone)]
pub struct BlameLine {
    pub line_number: usize,
    pub content: String,
    pub change_type: String,
    pub scan_batch_id: Option<i64>,
    pub detected_at: Option<String>,
}

/// One scan as a changelog section.
#[derive(Debug, Clone)]
pub struct ChangelogEntry {
    pub date: String,
    pub batch_id: i64,
    pub folders_scanned: String,
    pub total_files: i64,
    pub new_files: i64,
    pub modified_files: i64,
    pub deleted_files: i64,
    pub moved_files: i64,
    pub changes: Vec<ChangeRecord>,
}

/// Number and total size of tracked files with one extension.
#[derive(Debug, Clone)]
pub struct ExtensionStat {
    pub extension: String,
    pub count: i64,
    pub total_size: i64,
}

/// Changes of each kind on one day.
#[derive(Debug, Clone)]
pub struct DailyTrend {
    pub date: String,
    pub new_count: i64,
    pub modified_count: i64,
    pub deleted_count: i64,
    pub moved_count: i64,
}

/// One page of search results and the total number of hits.
#[derive(Debug, Clone)]
pub struct AdvancedSearchResult {
    pub records: Vec<ChangeRecord>,
    pub total_count: i64,
}

/// Everything a full report is built from.
#[derive(Debug, Clone)]
pub struct ExportData {
    pub generated_at: String,
    pub summary: ChangeStats,
    pub batches: Vec<ChangelogEntry>,
    pub extension_stats: Vec<ExtensionStat>,
    pub trends: Vec<DailyTrend>,
    pub snapshots: Vec<FileSnapshotRecord>,
    pub duplicate_groups: Vec<DuplicateGroupRecord>,
    pub monitored_folders: Vec<MonitoredFolder>,
}

/// Outcome of a duplicate search.
#[derive(Debug, Clone)]
pub struct DuplicateResult {
    pub groups_found: i64,
    pub wasted_bytes: i64,
}

/// Progress of a running scan, as reported to the user interface.
#[derive(Debug, Clone)]
pub struct ScanProgressEvent {
    pub current: usize,
    pub total: usize,
    pub directory: String,
    pub phase: String,
    pub progress_percent: u32,
    pub files_scanned: i64,
}

/// A scanned file that looks like malware.
#[derive(Debug, Clone)]
pub struct SuspiciousFile {
    pub path: String,
    pub severity: String,
    pub threat_category: String,
}

/// Outcome of scanning one directory.
#[derive(Debug, Clone)]
pub struct ScanResult {
    pub directory: String,
    pub files_scanned: i64,
    pub new_files: i64,
    pub modified_files: i64,
    pub total_size: i64,
    pub errors: Vec<String>,
    pub scanned_at: String,
    pub suspicious_files: Vec<SuspiciousFile>,
}

/// Size and file count of a directory on one day.
#[derive(Debug, Clone)]
pub struct DirSnapshot {
    pub directory: String,
    pub total_size: i64,
    pub file_count: i64,
    pub snapshot_date: String,
}

/// How many webhook deliveries succeeded and failed, with the reasons.
#[derive(Debug, Clone)]
pub struct WebhookFireReport {
    pub fired: u64,
    pub failed: u64,
    pub errors: Vec<String>,
}

} // verus!
