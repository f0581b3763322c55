//! The rows of archive operations and how they change.
//!
//! Reading and writing the rows happens outside; what a row holds after a
//! change is decided here.

use crate::archive::commit::NewOperation;
use crate::archive::models::{
    ArchiveOperation, ArchiveOperationFile, ArchiveOperationStep, ArchiveOperationSummary,
    ArchiveStage, ArchiveStatus, StepStatus,
};
use crate::archive::path_layout::opt;
use crate::text::same_text;
use vstd::prelude::*;

verus! {

/// Whether a field holds the new text where there is one, and is unchanged
/// where there is none.
pub open spec fn is_replaced(r: Option<String>, old_value: Option<String>, value: Option<&str>) -> bool {
    match value {
        Some(s) => r matches Some(t) && t@ == s@,
        None => r == old_value,
    }
}

/// Replaces a field where there is a new text for it.
fn replace_text(field: &mut Option<String>, value: Option<&str>)
    ensures
        is_replaced(*final(field), *old(field), value),
{
    if let Some(s) = value {
        *field = Some(s.to_owned());
    }
}

/// A new operation on record: in planning, begun now.
pub fn insert_operation(id: i64, op: NewOperation, now: &str) -> (r: ArchiveOperation)
    ensures
        r.id == id,
        r.frames_set_id == op.frames_set_id,
        r.calibration_set_id == op.calibration_set_id,
        r.archive_root_path == op.archive_root_path,
        r.flats_disposition == op.flats_disposition,
        r.darks_disposition == op.darks_disposition,
        r.bias_disposition == op.bias_disposition,
        r.darkflats_disposition == op.darkflats_disposition,
        r.compression == op.compression,
        r.status@ == ArchiveStatus::Planning.word(),
        r.started_at@ == now@,
        r.finished_at is None,
        r.error_message is None,
{
    ArchiveOperation {
        id,
        frames_set_id: op.frames_set_id,
        calibration_set_id: op.calibration_set_id,
        archive_root_path: op.archive_root_path,
        flats_disposition: op.flats_disposition,
        darks_disposition: op.darks_disposition,
        bias_disposition: op.bias_disposition,
        darkflats_disposition: op.darkflats_disposition,
        compression: op.compression,
        status: ArchiveStatus::Planning.as_str().to_owned(),
        started_at: now.to_owned(),
        finished_at: None,
        error_message: None,
    }
}

/// Whether all that names an operation is unchanged.
pub open spec fn same_operation(a: ArchiveOperation, b: ArchiveOperation) -> bool {
    &&& a.id == b.id
    &&& a.frames_set_id == b.frames_set_id
    &&& a.calibration_set_id == b.calibration_set_id
    &&& a.archive_root_path == b.archive_root_path
    &&& a.flats_disposition == b.flats_disposition
    &&& a.darks_disposition == b.darks_disposition
    &&& a.bias_disposition == b.bias_disposition
    &&& a.darkflats_disposition == b.darkflats_disposition
    &&& a.compression == b.compression
    &&& a.started_at == b.started_at
}

/// Sets the status of an operation. One that comes to its end is finished now;
/// a message replaces an earlier one.
pub fn update_operation_status(
    op: &mut ArchiveOperation,
    status: ArchiveStatus,
    error_message: Option<&str>,
    now: &str,
)
    ensures
        same_operation(*old(op), *final(op)),
        final(op).status@ == status.word(),
        is_replaced(
            final(op).finished_at,
            old(op).finished_at,
            if status.unfinished() {
                None
            } else {
                Some(now)
            },
        ),
        is_replaced(final(op).error_message, old(op).error_message, error_message),
{
    op.status = status.as_str().to_owned();
    if !status.is_unfinished() {
        replace_text(&mut op.finished_at, Some(now));
    }
    replace_text(&mut op.error_message, error_message);
}

/// A new step on record: pending.
pub fn insert_step(
    id: i64,
    operation_id: i64,
    operation_file_id: Option<i64>,
    stage: ArchiveStage,
) -> (r: ArchiveOperationStep)
    ensures
        r.id == id,
        r.operation_id == operation_id,
        r.operation_file_id == operation_file_id,
        r.stage@ == stage.word(),
        r.status@ == StepStatus::Pending.word(),
        r.actual_hash is None,
        r.error_message is None,
        r.started_at is None,
        r.completed_at is None,
{
    ArchiveOperationStep {
        id,
        operation_id,
        operation_file_id,
        stage: stage.as_str().to_owned(),
        status: StepStatus::Pending.as_str().to_owned(),
        actual_hash: None,
        error_message: None,
        started_at: None,
        completed_at: None,
    }
}

/// Whether a step with the status is over.
pub open spec fn step_is_over(status: StepStatus) -> bool {
    status == StepStatus::Done || status == StepStatus::Failed || status == StepStatus::RolledBack
}

/// Sets the status of a step. One in progress has started now, one that is
/// over is completed now; a hash and a message replace earlier ones.
pub fn update_step(
    step: &mut ArchiveOperationStep,
    status: StepStatus,
    actual_hash: Option<&str>,
    error_message: Option<&str>,
    now: &str,
)
    ensures
        final(step).id == old(step).id,
        final(step).operation_id == old(step).operation_id,
        final(step).operation_file_id == old(step).operation_file_id,
        final(step).stage == old(step).stage,
        final(step).status@ == status.word(),
        is_replaced(final(step).actual_hash, old(step).actual_hash, actual_hash),
        is_replaced(final(step).error_message, old(step).error_message, error_message),
        is_replaced(
            final(step).started_at,
            old(step).started_at,
            if status == StepStatus::InProgress {
                Some(now)
            } else {
                None
            },
        ),
        is_replaced(
            final(step).completed_at,
            old(step).completed_at,
            if step_is_over(status) {
                Some(now)
            } else {
                None
            },
        ),
{
    step.status = status.as_str().to_owned();
    replace_text(&mut step.actual_hash, actual_hash);
    replace_text(&mut step.error_message, error_message);
    match status {
        StepStatus::InProgress => {
            replace_text(&mut step.started_at, Some(now));
        },
        StepStatus::Done | StepStatus::Failed | StepStatus::RolledBack => {
            replace_text(&mut step.completed_at, Some(now));
        },
        StepStatus::Pending => {},
    }
}

/// A file of an operation as it goes on record.
pub fn insert_operation_file(id: i64, operation_id: i64, planned: &ArchiveOperationFile) -> (r:
    ArchiveOperationFile)
    ensures
        r == (ArchiveOperationFile { id, operation_id, ..*planned }),
{
    let mut r = planned.clone();
    r.id = id;
    r.operation_id = operation_id;
    r
}

/// Whether a recorded status is that of an operation that came to its end.
pub open spec fn is_final_word(status: Seq<char>) -> bool {
    status == ArchiveStatus::Completed.word() || status == ArchiveStatus::Cancelled.word() || status
        == ArchiveStatus::RolledBack.word() || status == ArchiveStatus::Failed.word()
}

/// The recorded status of an operation is final exactly if the operation is
/// not unfinished.
pub proof fn law_final_words(status: ArchiveStatus)
    ensures
        is_final_word(status.word()) == !status.unfinished(),
{
    reveal_strlit("planning");
    reveal_strlit("copying");
    reveal_strlit("verifying");
    reveal_strlit("zipping");
    reveal_strlit("zip_verifying");
    reveal_strlit("deleting_sources");
    reveal_strlit("finalizing");
    reveal_strlit("completed");
    reveal_strlit("cancelled");
    reveal_strlit("rolling_back");
    reveal_strlit("rolled_back");
    reveal_strlit("failed");
    assert("completed"@.len() == 9 && "completed"@[1] == 'o' && "completed"@[2] == 'm');
    assert("cancelled"@.len() == 9 && "cancelled"@[1] == 'a');
    assert("rolled_back"@.len() == 11);
    assert("failed"@.len() == 6);
    assert("planning"@.len() == 8);
    assert("copying"@.len() == 7);
    assert("verifying"@.len() == 9 && "verifying"@[0] == 'v');
    assert("completed"@[0] == 'c' && "cancelled"@[0] == 'c');
    assert("zipping"@.len() == 7);
    assert("zip_verifying"@.len() == 13);
    assert("deleting_sources"@.len() == 16);
    assert("finalizing"@.len() == 10);
    assert("rolling_back"@.len() == 12);
}

/// The unfinished ones of the first `n` operations.
pub open spec fn unfinished_of(ops: Seq<ArchiveOperationSummary>, n: int) -> Seq<
    ArchiveOperationSummary,
>
    decreases n,
{
    if n <= 0 {
        Seq::empty()
    } else if is_final_word(ops[n - 1].status@) {
        unfinished_of(ops, n - 1)
    } else {
        unfinished_of(ops, n - 1).push(ops[n - 1])
    }
}

fn copy_field(value: &Option<String>) -> (r: Option<String>)
    ensures
        r == *value,
{
    match value {
        Some(s) => Some(s.clone()),
        None => None,
    }
}

fn copy_summary(s: &ArchiveOperationSummary) -> (r: ArchiveOperationSummary)
    ensures
        r == *s,
{
    ArchiveOperationSummary {
        id: s.id,
        frames_set_id: s.frames_set_id,
        frame_set_name: copy_field(&s.frame_set_name),
        status: s.status.clone(),
        started_at: s.started_at.clone(),
        finished_at: copy_field(&s.finished_at),
        error_message: copy_field(&s.error_message),
    }
}

/// The operations that are not finished, in the given order.
pub fn list_unfinished_operations(ops: &Vec<ArchiveOperationSummary>) -> (r: Vec<
    ArchiveOperationSummary,
>)
    ensures
        r@ == unfinished_of(ops@, ops@.len() as int),
{
    let mut out: Vec<ArchiveOperationSummary> = Vec::new();
    let mut i: usize = 0;
    while i < ops.len()
        invariant
            i <= ops@.len(),
            out@ == unfinished_of(ops@, i as int),
        decreases ops@.len() - i,
    {
        let s = ops[i].status.as_str();
        let over = same_text(s, "completed") || same_text(s, "cancelled") || same_text(
            s,
            "rolled_back",
        ) || same_text(s, "failed");
        if !over {
            out.push(copy_summary(&ops[i]));
        }
        i = i + 1;
    }
    out
}

/// What a frame set says of its archive.
#[derive(Debug)]
pub struct FrameSetMarks {
    pub archived_at: Option<String>,
    pub archive_operation_id: Option<i64>,
    pub is_archived: bool,
}

/// The marks of a frame set that is zipped now.
pub fn mark_frame_set_archived(operation_id: i64, now: &str) -> (r: FrameSetMarks)
    ensures
        r.archived_at matches Some(t) && t@ == now@,
        r.archive_operation_id == Some(operation_id),
        r.is_archived,
{
    FrameSetMarks {
        archived_at: Some(now.to_owned()),
        archive_operation_id: Some(operation_id),
        is_archived: true,
    }
}

/// The marks of a frame set whose archive is undone.
pub fn unmark_frame_set_archived() -> (r: FrameSetMarks)
    ensures
        r.archived_at is None,
        r.archive_operation_id is None,
        !r.is_archived,
{
    FrameSetMarks { archived_at: None, archive_operation_id: None, is_archived: false }
}

/// What a file of the catalog says of its place and its archive.
#[derive(Debug)]
pub struct FileMarks {
    pub path: String,
    pub archived_in_operation: Option<i64>,
    pub archive_zip_path: Option<String>,
    pub archive_path_in_zip: Option<String>,
}

impl FileMarks {
    /// Whether the file is not archived.
    pub open spec fn is_plain(self) -> bool {
        &&& self.archived_in_operation is None
        &&& self.archive_zip_path is None
        &&& self.archive_path_in_zip is None
    }

    /// Whether the file is archived by the given operation, at the given place of
    /// the given zip.
    pub open spec fn is_archived(self, operation_id: i64, zip: Seq<char>, place: Seq<char>) -> bool {
        &&& self.archived_in_operation == Some(operation_id)
        &&& self.archive_zip_path matches Some(z) && z@ == zip
        &&& self.archive_path_in_zip matches Some(p) && p@ == place
    }

    /// Whether the file lies at the new path, or where there is none at the old
    /// one.
    pub open spec fn lies_at(self, before: FileMarks, new_path: Option<Seq<char>>) -> bool {
        match new_path {
            Some(p) => self.path@ == p,
            None => self.path == before.path,
        }
    }
}

/// Marks a file as archived; its path stays.
pub fn mark_file_archived(
    marks: &mut FileMarks,
    operation_id: i64,
    archive_zip_path: &str,
    archive_path_in_zip: &str,
)
    ensures
        final(marks).lies_at(*old(marks), None),
        final(marks).is_archived(operation_id, archive_zip_path@, archive_path_in_zip@),
{
    marks.archived_in_operation = Some(operation_id);
    marks.archive_zip_path = Some(archive_zip_path.to_owned());
    marks.archive_path_in_zip = Some(archive_path_in_zip.to_owned());
}

/// Takes the marks off a file that is back on disk, under its old path or a
/// new one.
pub fn unmark_file_archived(marks: &mut FileMarks, new_path: Option<&str>)
    ensures
        final(marks).lies_at(*old(marks), opt(new_path)),
        final(marks).is_plain(),
{
    if let Some(p) = new_path {
        marks.path = p.to_owned();
    }
    marks.archived_in_operation = None;
    marks.archive_zip_path = None;
    marks.archive_path_in_zip = None;
}

/// A file that was archived and is put back to where it was is as it was before.
pub proof fn law_a_restored_file_is_as_before(
    before: FileMarks,
    archived: FileMarks,
    after: FileMarks,
)
    requires
        before.is_plain(),
        archived.lies_at(before, None),
        after.lies_at(archived, None),
        after.is_plain(),
    ensures
        after == before,
{
}

} // verus!
