//! The data of an archive operation.

use crate::text::same_text;
use vstd::prelude::*;

verus! {

/// What becomes of the files of one calibration type.
#[derive(Debug, Clone, Copy, PartialEq, Eq, Structural)]
pub enum ArchiveDisposition {
    /// The file leaves its place once it is in the zip.
    Move,
    /// The file stays where it is as well.
    Copy,
    /// The file is left out of the archive.
    Skip,
}

impl ArchiveDisposition {
    /// The word that stands for the value.
    pub open spec fn word(self) -> Seq<char> {
        match self {
            ArchiveDisposition::Move => "move"@,
            ArchiveDisposition::Copy => "copy"@,
            ArchiveDisposition::Skip => "skip"@,
        }
    }

    /// The word that stands for the value.
    pub fn as_str(&self) -> (r: &'static str)
        ensures
            r@ == self.word(),
    {
        match self {
            ArchiveDisposition::Move => "move",
            ArchiveDisposition::Copy => "copy",
            ArchiveDisposition::Skip => "skip",
        }
    }

    /// The value that a word stands for.
    pub open spec fn of_word(s: Seq<char>) -> Option<Self> {
        if s == "move"@ {
            Some(ArchiveDisposition::Move)
        } else if s == "copy"@ {
            Some(ArchiveDisposition::Copy)
        } else if s == "skip"@ {
            Some(ArchiveDisposition::Skip)
        } else {
            None
        }
    }

    /// The value that a word stands for.
    pub fn from_str(s: &str) -> (r: Option<Self>)
        ensures
            r == Self::of_word(s@),
    {
        if same_text(s, "move") {
            Some(ArchiveDisposition::Move)
        } else if same_text(s, "copy") {
            Some(ArchiveDisposition::Copy)
        } else if same_text(s, "skip") {
            Some(ArchiveDisposition::Skip)
        } else {
            None
        }
    }
}

/// Reading the word of a value gives the value back, and no other word is read.
pub proof fn law_disposition_round_trip(d: ArchiveDisposition, s: Seq<char>)
    ensures
        ArchiveDisposition::of_word(d.word()) == Some(d),
        ArchiveDisposition::of_word(s) == Some(d) <==> s == d.word(),
{
    reveal_strlit("move");
    reveal_strlit("copy");
    reveal_strlit("skip");
    assert("move"@[0] == 'm');
    assert("copy"@[0] == 'c');
    assert("skip"@[0] == 's');
}

/// How the entries of a zip are packed.
#[derive(Debug, Clone, Copy, PartialEq, Eq, Structural)]
pub enum ArchiveCompression {
    /// As they are.
    Store,
    /// Deflated.
    Deflate,
}

impl ArchiveCompression {
    /// The word that stands for the value.
    pub open spec fn word(self) -> Seq<char> {
        match self {
            ArchiveCompression::Store => "store"@,
            ArchiveCompression::Deflate => "deflate"@,
        }
    }

    /// The word that stands for the value.
    pub fn as_str(&self) -> (r: &'static str)
        ensures
            r@ == self.word(),
    {
        match self {
            ArchiveCompression::Store => "store",
            ArchiveCompression::Deflate => "deflate",
        }
    }

    /// The value that a word stands for.
    pub open spec fn of_word(s: Seq<char>) -> Option<Self> {
        if s == "store"@ {
            Some(ArchiveCompression::Store)
        } else if s == "deflate"@ {
            Some(ArchiveCompression::Deflate)
        } else {
            None
        }
    }

    /// The value that a word stands for.
    pub fn from_str(s: &str) -> (r: Option<Self>)
        ensures
            r == Self::of_word(s@),
    {
        if same_text(s, "store") {
            Some(ArchiveCompression::Store)
        } else if same_text(s, "deflate") {
            Some(ArchiveCompression::Deflate)
        } else {
            None
        }
    }
}

/// Reading the word of a value gives the value back, and no other word is read.
pub proof fn law_compression_round_trip(d: ArchiveCompression, s: Seq<char>)
    ensures
        ArchiveCompression::of_word(d.word()) == Some(d),
        ArchiveCompression::of_word(s) == Some(d) <==> s == d.word(),
{
    reveal_strlit("store");
    reveal_strlit("deflate");
    assert("store"@[0] == 's');
    assert("deflate"@[0] == 'd');
}

/// The stages of work on one file of an operation.
#[derive(Debug, Clone, Copy, PartialEq, Eq, Structural)]
pub enum ArchiveStage {
    /// Into the staging area.
    Copy,
    /// Hash of the staged copy.
    VerifyCopy,
    /// Into the zip.
    ZipAdd,
    /// Hash of the zip entry.
    VerifyZip,
    /// Removal of the source.
    DeleteSource,
    /// Bookkeeping.
    Finalize,
    /// Rollback: removal of staged copies.
    DeleteStaging,
    /// Rollback: the source is put back.
    RestoreSource,
    /// Restore: hash of a file that is already on disk.
    VerifyRestore,
}

impl ArchiveStage {
    /// The word that stands for the value.
    pub open spec fn word(self) -> Seq<char> {
        match self {
            ArchiveStage::Copy => "copy"@,
            ArchiveStage::VerifyCopy => "verify_copy"@,
            ArchiveStage::ZipAdd => "zip_add"@,
            ArchiveStage::VerifyZip => "verify_zip"@,
            ArchiveStage::DeleteSource => "delete_source"@,
            ArchiveStage::Finalize => "finalize"@,
            ArchiveStage::DeleteStaging => "delete_staging"@,
            ArchiveStage::RestoreSource => "restore_source"@,
            ArchiveStage::VerifyRestore => "verify_restore"@,
        }
    }

    /// The word that stands for the value.
    pub fn as_str(&self) -> (r: &'static str)
        ensures
            r@ == self.word(),
    {
        match self {
            ArchiveStage::Copy => "copy",
            ArchiveStage::VerifyCopy => "verify_copy",
            ArchiveStage::ZipAdd => "zip_add",
            ArchiveStage::VerifyZip => "verify_zip",
            ArchiveStage::DeleteSource => "delete_source",
            ArchiveStage::Finalize => "finalize",
            ArchiveStage::DeleteStaging => "delete_staging",
            ArchiveStage::RestoreSource => "restore_source",
            ArchiveStage::VerifyRestore => "verify_restore",
        }
    }
}

/// How far one stage of work on one file has come.
#[derive(Debug, Clone, Copy, PartialEq, Eq, Structural)]
pub enum StepStatus {
    Pending,
    InProgress,
    Done,
    Failed,
    RolledBack,
}

impl StepStatus {
    /// The word that stands for the value.
    pub open spec fn word(self) -> Seq<char> {
        match self {
            StepStatus::Pending => "pending"@,
            StepStatus::InProgress => "in_progress"@,
            StepStatus::Done => "done"@,
            StepStatus::Failed => "failed"@,
            StepStatus::RolledBack => "rolled_back"@,
        }
    }

    /// The word that stands for the value.
    pub fn as_str(&self) -> (r: &'static str)
        ensures
            r@ == self.word(),
    {
        match self {
            StepStatus::Pending => "pending",
            StepStatus::InProgress => "in_progress",
            StepStatus::Done => "done",
            StepStatus::Failed => "failed",
            StepStatus::RolledBack => "rolled_back",
        }
    }
}

/// How far an operation has come.
#[derive(Debug, Clone, Copy, PartialEq, Eq, Structural)]
pub enum ArchiveStatus {
    Planning,
    Copying,
    Verifying,
    Zipping,
    ZipVerifying,
    DeletingSources,
    Finalizing,
    Completed,
    Cancelled,
    RollingBack,
    RolledBack,
    Failed,
}

impl ArchiveStatus {
    /// The word that stands for the value.
    pub open spec fn word(self) -> Seq<char> {
        match self {
            ArchiveStatus::Planning => "planning"@,
            ArchiveStatus::Copying => "copying"@,
            ArchiveStatus::Verifying => "verifying"@,
            ArchiveStatus::Zipping => "zipping"@,
            ArchiveStatus::ZipVerifying => "zip_verifying"@,
            ArchiveStatus::DeletingSources => "deleting_sources"@,
            ArchiveStatus::Finalizing => "finalizing"@,
            ArchiveStatus::Completed => "completed"@,
            ArchiveStatus::Cancelled => "cancelled"@,
            ArchiveStatus::RollingBack => "rolling_back"@,
            ArchiveStatus::RolledBack => "rolled_back"@,
            ArchiveStatus::Failed => "failed"@,
        }
    }

    /// The word that stands for the value.
    pub fn as_str(&self) -> (r: &'static str)
        ensures
            r@ == self.word(),
    {
        match self {
            ArchiveStatus::Planning => "planning",
            ArchiveStatus::Copying => "copying",
            ArchiveStatus::Verifying => "verifying",
            ArchiveStatus::Zipping => "zipping",
            ArchiveStatus::ZipVerifying => "zip_verifying",
            ArchiveStatus::DeletingSources => "deleting_sources",
            ArchiveStatus::Finalizing => "finalizing",
            ArchiveStatus::Completed => "completed",
            ArchiveStatus::Cancelled => "cancelled",
            ArchiveStatus::RollingBack => "rolling_back",
            ArchiveStatus::RolledBack => "rolled_back",
            ArchiveStatus::Failed => "failed",
        }
    }

    /// Whether work may still be going on.
    pub open spec fn unfinished(self) -> bool {
        self != ArchiveStatus::Completed && self != ArchiveStatus::Cancelled && self
            != ArchiveStatus::RolledBack && self != ArchiveStatus::Failed
    }

    /// Whether work may still be going on, so that the operation can be taken
    /// up again.
    pub fn is_unfinished(&self) -> (r: bool)
        ensures
            r == self.unfinished(),
    {
        match self {
            ArchiveStatus::Completed | ArchiveStatus::Cancelled | ArchiveStatus::RolledBack
            | ArchiveStatus::Failed => false,
            _ => true,
        }
    }
}

/// What a frame is for; decides which zip its file goes into.
#[derive(Debug, Clone, Copy, PartialEq, Eq, Hash, Structural)]
pub enum FrameRole {
    Light,
    Flat,
    Dark,
    Bias,
    Darkflat,
}

impl FrameRole {
    /// The word that stands for the value.
    pub open spec fn word(self) -> Seq<char> {
        match self {
            FrameRole::Light => "light"@,
            FrameRole::Flat => "flat"@,
            FrameRole::Dark => "dark"@,
            FrameRole::Bias => "bias"@,
            FrameRole::Darkflat => "darkflat"@,
        }
    }

    /// The word that stands for the value.
    pub fn as_str(&self) -> (r: &'static str)
        ensures
            r@ == self.word(),
    {
        match self {
            FrameRole::Light => "light",
            FrameRole::Flat => "flat",
            FrameRole::Dark => "dark",
            FrameRole::Bias => "bias",
            FrameRole::Darkflat => "darkflat",
        }
    }

    /// The word for the role in the name of a zip.
    pub open spec fn suffix(self) -> Seq<char> {
        match self {
            FrameRole::Light => "Lights"@,
            FrameRole::Flat => "Flats"@,
            FrameRole::Dark => "Darks"@,
            FrameRole::Bias => "Bias"@,
            FrameRole::Darkflat => "DarkFlats"@,
        }
    }

    /// The word for the role in the name of a zip.
    pub fn zip_suffix(&self) -> (r: &'static str)
        ensures
            r@ == self.suffix(),
    {
        match self {
            FrameRole::Light => "Lights",
            FrameRole::Flat => "Flats",
            FrameRole::Dark => "Darks",
            FrameRole::Bias => "Bias",
            FrameRole::Darkflat => "DarkFlats",
        }
    }

    /// The place of the role where a file has several; the lowest one wins.
    pub open spec fn rank(self) -> u8 {
        match self {
            FrameRole::Light => 0,
            FrameRole::Flat => 1,
            FrameRole::Darkflat => 2,
            FrameRole::Dark => 3,
            FrameRole::Bias => 4,
        }
    }

    /// The place of the role where a file has several; the lowest one wins:
    /// light, flat, dark flat, dark, bias.
    pub fn priority(&self) -> (r: u8)
        ensures
            r == self.rank(),
    {
        match self {
            FrameRole::Light => 0,
            FrameRole::Flat => 1,
            FrameRole::Darkflat => 2,
            FrameRole::Dark => 3,
            FrameRole::Bias => 4,
        }
    }
}

/// What to do with each calibration type; `None` where the type does not occur.
#[derive(Debug, Clone, Copy, PartialEq, Eq, Structural)]
pub struct Dispositions {
    pub flats: Option<ArchiveDisposition>,
    pub darks: Option<ArchiveDisposition>,
    pub bias: Option<ArchiveDisposition>,
    pub darkflats: Option<ArchiveDisposition>,
}

/// An archive operation on record. Its subject is a frame set or a calibration
/// set, never both.
#[derive(Debug, Clone)]
pub struct ArchiveOperation {
    pub id: i64,
    pub frames_set_id: Option<i64>,
    pub calibration_set_id: Option<i64>,
    pub archive_root_path: String,
    pub flats_disposition: Option<String>,
    pub darks_disposition: Option<String>,
    pub bias_disposition: Option<String>,
    pub darkflats_disposition: Option<String>,
    pub compression: String,
    pub status: String,
    pub started_at: String,
    pub finished_at: Option<String>,
    pub error_message: Option<String>,
}

/// A file of an archive operation. In a plan the ids are still zero.
#[derive(Debug)]
pub struct ArchiveOperationFile {
    pub id: i64,
    pub operation_id: i64,
    pub file_id: Option<i64>,
    pub source_path: String,
    pub target_zip_path: String,
    pub target_path_in_zip: String,
    pub expected_hash: String,
    pub disposition: String,
    pub frame_role: String,
    pub file_size_bytes: i64,
}

impl Clone for ArchiveOperationFile {
    fn clone(&self) -> (r: Self)
        ensures
            r == *self,
    {
        ArchiveOperationFile {
            id: self.id,
            operation_id: self.operation_id,
            file_id: self.file_id,
            source_path: self.source_path.clone(),
            target_zip_path: self.target_zip_path.clone(),
            target_path_in_zip: self.target_path_in_zip.clone(),
            expected_hash: self.expected_hash.clone(),
            disposition: self.disposition.clone(),
            frame_role: self.frame_role.clone(),
            file_size_bytes: self.file_size_bytes,
        }
    }
}

/// One stage of work on one file of an operation.
#[derive(Debug, Clone)]
pub struct ArchiveOperationStep {
    pub id: i64,
    pub operation_id: i64,
    pub operation_file_id: Option<i64>,
    pub stage: String,
    pub status: String,
    pub actual_hash: Option<String>,
    pub error_message: Option<String>,
    pub started_at: Option<String>,
    pub completed_at: Option<String>,
}

/// A zip that an operation will write.
#[derive(Debug)]
pub struct PlannedZip {
    pub zip_path: String,
    pub zip_filename: String,
    pub frame_role: FrameRole,
    pub file_count: usize,
    pub total_size_bytes: u64,
}

impl Clone for PlannedZip {
    fn clone(&self) -> (r: Self)
        ensures
            r == *self,
    {
        PlannedZip {
            zip_path: self.zip_path.clone(),
            zip_filename: self.zip_filename.clone(),
            frame_role: self.frame_role,
            file_count: self.file_count,
            total_size_bytes: self.total_size_bytes,
        }
    }
}

/// A calibration set that other frame sets, not archived yet, use as well.
#[derive(Debug, Clone)]
pub struct SharedCalibrationWarning {
    pub frame_role: FrameRole,
    pub calibration_set_id: i64,
    pub other_frames_set_ids: Vec<i64>,
}

/// A planned zip whose name is taken.
#[derive(Debug, Clone)]
pub struct ZipFilenameConflict {
    pub zip_path: String,
    pub zip_filename: String,
}

/// What an archive operation will do. The plan for a calibration set names it
/// and has zero for its frame set.
#[derive(Debug, Clone)]
pub struct ArchivePlan {
    pub frames_set_id: i64,
    pub calibration_set_id: Option<i64>,
    pub archive_root_path: String,
    pub dispositions: Dispositions,
    pub compression: ArchiveCompression,
    pub files: Vec<ArchiveOperationFile>,
    pub zips: Vec<PlannedZip>,
    pub shared_calibrations: Vec<SharedCalibrationWarning>,
    pub conflicts: Vec<ZipFilenameConflict>,
    pub total_size_bytes: u64,
}

/// What to do where the name of a zip is taken.
#[derive(Debug, Clone, Copy, PartialEq, Eq, Structural)]
pub enum ConflictResolution {
    /// The zip that is there is written over.
    Overwrite,
    /// The new zip gets a number behind its name.
    AddSuffix,
}

/// An operation as a list of operations shows it.
#[derive(Debug, Clone)]
pub struct ArchiveOperationSummary {
    pub id: i64,
    pub frames_set_id: Option<i64>,
    pub frame_set_name: Option<String>,
    pub status: String,
    pub started_at: String,
    pub finished_at: Option<String>,
    pub error_message: Option<String>,
}

/// A file on disk that is not the one that was archived. `actual_hash` is
/// absent where the file could not be read.
#[derive(Debug, Clone)]
pub struct RestoreConflict {
    pub file_id: Option<i64>,
    pub source_path: String,
    pub expected_hash: String,
    pub actual_hash: Option<String>,
}

/// What came of a restore.
#[derive(Debug, Clone)]
pub struct RestoreOutcome {
    pub conflicts: Vec<RestoreConflict>,
}

impl Default for RestoreOutcome {
    fn default() -> (r: Self)
        ensures
            r.conflicts@.len() == 0,
    {
        RestoreOutcome { conflicts: Vec::new() }
    }
}

impl RestoreOutcome {
    /// Whether a file was left alone because it is not the archived one.
    pub fn has_conflicts(&self) -> (r: bool)
        ensures
            r == (self.conflicts@.len() > 0),
    {
        self.conflicts.len() > 0
    }
}

} // verus!
