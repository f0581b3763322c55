//! What goes on record, and what a change of a record does.

use crate::archive::commit::{
    commit_plan, free_path, is_first_free, moved_to, renamed_zip, retargeted, CommittedPlan,
    NewOperation,
};
use crate::archive::db::{
    insert_operation, insert_operation_file, insert_step, list_unfinished_operations,
    mark_file_archived, mark_frame_set_archived, unfinished_of, unmark_file_archived,
    unmark_frame_set_archived, update_operation_status, update_step, FileMarks, FrameSetMarks,
};
use crate::archive::executor::{
    check_cancel, copy_verdict, delete_verdict, existing_done_steps, finalize_progress,
    group_by_zip, group_entries, is_done_step, law_members_belong, law_no_file_is_lost, members_of,
    pending_in_group, pending_members, source_needs_removal, step_is_done, stop_status,
    verify_copy_verdict, verify_zip_verdict, was_cancelled, zip_verdict, zips_of, ArchiveProgress,
    Removal, RunError, StepVerdict, ZipGroup,
};
use crate::archive::models::{
    law_compression_round_trip, law_disposition_round_trip, ArchiveCompression, ArchiveDisposition,
    ArchiveOperation, ArchiveOperationFile, ArchiveOperationStep, ArchiveOperationSummary,
    ArchivePlan, ArchiveStage, ArchiveStatus, ConflictResolution, PlannedZip, StepStatus,
};
use crate::archive::plan_error::{PlanError, PlanFailure};
use crate::host_paths::{host_file_name, Host};
use crate::text::{contains_part, decimal, holds_text, signed_decimal, stands_at};
use vstd::prelude::*;

verus! {

/// Whether a recorded word says what was asked for.
pub open spec fn says(text: Option<String>, d: Option<ArchiveDisposition>) -> bool {
    match text {
        None => d is None,
        Some(s) => match d {
            Some(ArchiveDisposition::Move) => s@ == "move"@,
            Some(ArchiveDisposition::Copy) => s@ == "copy"@,
            Some(ArchiveDisposition::Skip) => s@ == "skip"@,
            None => false,
        },
    }
}

/// A plan is committed exactly if it is about a frame set or a calibration set, and
/// not about both or neither.
pub proof fn law_a_committed_plan_has_one_subject(
    plan: ArchivePlan,
    how: ConflictResolution,
    existing: Vec<String>,
    host: Host,
    r: Result<CommittedPlan, PlanError>,
)
    requires
        call_ensures(commit_plan, (&plan, how, &existing, host), r),
    ensures
        plan.frames_set_id != 0 && plan.calibration_set_id is Some ==> r is Err,
        plan.frames_set_id == 0 && plan.calibration_set_id is None ==> r is Err,
        plan.frames_set_id != 0 && plan.calibration_set_id is None ==> r is Ok,
        plan.frames_set_id == 0 && plan.calibration_set_id is Some ==> r is Ok,
{
}

/// The record of an operation says what the plan says: each kind of frame has its own
/// disposition, and the set that the plan is not about is left open.
pub proof fn law_the_record_says_what_was_planned(
    plan: ArchivePlan,
    how: ConflictResolution,
    existing: Vec<String>,
    host: Host,
    c: CommittedPlan,
)
    requires
        call_ensures(commit_plan, (&plan, how, &existing, host), Ok(c)),
    ensures
        says(c.operation.flats_disposition, plan.dispositions.flats),
        says(c.operation.darks_disposition, plan.dispositions.darks),
        says(c.operation.bias_disposition, plan.dispositions.bias),
        says(c.operation.darkflats_disposition, plan.dispositions.darkflats),
        plan.compression is Store ==> c.operation.compression@ == "store"@,
        plan.compression is Deflate ==> c.operation.compression@ == "deflate"@,
        c.operation.archive_root_path@ == plan.archive_root_path@,
        c.operation.calibration_set_id == plan.calibration_set_id,
        plan.calibration_set_id is Some ==> c.operation.frames_set_id is None,
        plan.calibration_set_id is None ==> c.operation.frames_set_id == Some(plan.frames_set_id),
{
}

/// Where zips are written over, everything stays where the plan puts it.
pub proof fn law_overwriting_keeps_the_plan(
    plan: ArchivePlan,
    existing: Vec<String>,
    host: Host,
    c: CommittedPlan,
)
    requires
        call_ensures(commit_plan, (&plan, ConflictResolution::Overwrite, &existing, host), Ok(c)),
    ensures
        c.files@ == plan.files@,
        c.zips@ == plan.zips@,
{
}

/// Where zips get a number, no zip that is there is written over, and a zip whose path
/// is free keeps it. A zip is otherwise as planned, under the name that its path has.
pub proof fn law_numbered_zips_overwrite_nothing(
    plan: ArchivePlan,
    existing: Vec<String>,
    host: Host,
    c: CommittedPlan,
    k: int,
)
    requires
        call_ensures(commit_plan, (&plan, ConflictResolution::AddSuffix, &existing, host), Ok(c)),
        0 <= k < plan.zips@.len(),
    ensures
        c.zips@.len() == plan.zips@.len(),
        forall|j: int|
            0 <= j < existing@.len() ==> (#[trigger] existing@[j])@ != c.zips@[k].zip_path@,
        (forall|j: int| 0 <= j < existing@.len() ==> (#[trigger] existing@[j])@ != plan.zips@[k].zip_path@)
            ==> c.zips@[k].zip_path@ == plan.zips@[k].zip_path@,
        host_file_name(c.zips@[k].zip_path@, host) == Some(c.zips@[k].zip_filename@),
        c.zips@[k].frame_role == plan.zips@[k].frame_role,
        c.zips@[k].file_count == plan.zips@[k].file_count,
        c.zips@[k].total_size_bytes == plan.zips@[k].total_size_bytes,
{
    assert(renamed_zip(plan.zips@[k], c.zips@[k], existing@, host));
    assert(!holds_text(existing@, c.zips@[k].zip_path@));
    if holds_text(existing@, plan.zips@[k].zip_path@) {
        let j = choose|j: int|
            0 <= j < existing@.len() && (#[trigger] existing@[j])@ == plan.zips@[k].zip_path@;
        assert(existing@[j]@ == plan.zips@[k].zip_path@);
    }
}

proof fn lemma_retargeted_past(
    t: Seq<char>,
    before: Seq<PlannedZip>,
    after: Seq<PlannedZip>,
    from: int,
    n: int,
)
    requires
        0 <= from <= n <= before.len(),
        before.len() == after.len(),
        forall|j: int|
            from <= j < n ==> (#[trigger] before[j]).zip_path@ != retargeted(t, before, after, from),
    ensures
        retargeted(t, before, after, n) == retargeted(t, before, after, from),
    decreases n - from,
{
    if n > from {
        lemma_retargeted_past(t, before, after, from, n - 1);
        assert(before[n - 1].zip_path@ != retargeted(t, before, after, from));
    }
}

/// A file stays in its zip when the zip gets a number, and nothing else of it
/// changes. This holds where the planned paths are all different and no new path is
/// the planned path of another zip.
pub proof fn law_files_stay_in_their_zip(
    plan: ArchivePlan,
    existing: Vec<String>,
    host: Host,
    c: CommittedPlan,
    i: int,
    k: int,
)
    requires
        call_ensures(commit_plan, (&plan, ConflictResolution::AddSuffix, &existing, host), Ok(c)),
        0 <= i < plan.files@.len(),
        0 <= k < plan.zips@.len(),
        plan.files@[i].target_zip_path@ == plan.zips@[k].zip_path@,
        forall|j: int|
            0 <= j < plan.zips@.len() && j != k ==> (#[trigger] plan.zips@[j]).zip_path@
                != plan.zips@[k].zip_path@ && plan.zips@[j].zip_path@ != c.zips@[k].zip_path@,
    ensures
        c.files@.len() == plan.files@.len(),
        c.files@[i].target_zip_path@ == c.zips@[k].zip_path@,
        c.files@[i].file_id == plan.files@[i].file_id,
        c.files@[i].source_path@ == plan.files@[i].source_path@,
        c.files@[i].target_path_in_zip@ == plan.files@[i].target_path_in_zip@,
        c.files@[i].expected_hash@ == plan.files@[i].expected_hash@,
        c.files@[i].disposition@ == plan.files@[i].disposition@,
        c.files@[i].frame_role@ == plan.files@[i].frame_role@,
        c.files@[i].file_size_bytes == plan.files@[i].file_size_bytes,
{
    let t = plan.files@[i].target_zip_path@;
    let before = plan.zips@;
    let after = c.zips@;
    assert(moved_to(
        plan.files@[i],
        c.files@[i],
        retargeted(t, before, after, after.len() as int),
    ));
    lemma_retargeted_past(t, before, after, 0, k);
    assert(retargeted(t, before, after, k + 1) == after[k].zip_path@);
    lemma_retargeted_past(t, before, after, k + 1, before.len() as int);
}

/// A path that is found to be free is not taken; one that is free already is kept.
pub proof fn law_a_free_path_is_free(path: &str, existing: Vec<String>, host: Host, r: String)
    requires
        call_ensures(free_path, (path, &existing, host), r),
    ensures
        forall|j: int| 0 <= j < existing@.len() ==> (#[trigger] existing@[j])@ != r@,
        r@ != path@ ==> exists|j: int|
            0 <= j < existing@.len() && (#[trigger] existing@[j])@ == path@,
{
    assert(is_first_free(path@, existing@, host, r@));
    assert(!holds_text(existing@, r@));
    assert(holds_text(existing@, path@) == exists|j: int|
        0 <= j < existing@.len() && (#[trigger] existing@[j])@ == path@);
}

/// A new operation is in planning and neither finished nor failed; it holds what was
/// planned.
pub proof fn law_a_new_operation_is_in_planning(
    id: i64,
    op: NewOperation,
    now: &str,
    r: ArchiveOperation,
)
    requires
        call_ensures(insert_operation, (id, op, now), r),
    ensures
        r.id == id,
        r.status@ == "planning"@,
        r.started_at@ == now@,
        r.finished_at is None,
        r.error_message is None,
        r.frames_set_id == op.frames_set_id,
        r.calibration_set_id == op.calibration_set_id,
        r.archive_root_path@ == op.archive_root_path@,
        r.flats_disposition == op.flats_disposition,
        r.darks_disposition == op.darks_disposition,
        r.bias_disposition == op.bias_disposition,
        r.darkflats_disposition == op.darkflats_disposition,
        r.compression@ == op.compression@,
{
}

/// Whether a field holds a text.
pub open spec fn holds(field: Option<String>, text: Seq<char>) -> bool {
    field matches Some(s) && s@ == text
}

/// An operation is finished when it is completed, cancelled, rolled back or failed,
/// and not before. A message stays until there is another one, and what was planned
/// stays at all times.
pub proof fn law_an_operation_is_finished_once_over(
    op: &mut ArchiveOperation,
    status: ArchiveStatus,
    message: Option<&str>,
    now: &str,
)
    requires
        call_ensures(update_operation_status, (op, status, message, now), ()),
    ensures
        status is Completed || status is Cancelled || status is RolledBack || status is Failed
            ==> holds(final(op).finished_at, now@),
        !(status is Completed || status is Cancelled || status is RolledBack || status is Failed)
            ==> final(op).finished_at == old(op).finished_at,
        message is None ==> final(op).error_message == old(op).error_message,
        message matches Some(m) ==> holds(final(op).error_message, m@),
        final(op).id == old(op).id,
        final(op).started_at == old(op).started_at,
        final(op).frames_set_id == old(op).frames_set_id,
        final(op).calibration_set_id == old(op).calibration_set_id,
        final(op).archive_root_path == old(op).archive_root_path,
        final(op).flats_disposition == old(op).flats_disposition,
        final(op).darks_disposition == old(op).darks_disposition,
        final(op).bias_disposition == old(op).bias_disposition,
        final(op).darkflats_disposition == old(op).darkflats_disposition,
        final(op).compression == old(op).compression,
{
}

/// The recorded word of a status is the one that the status goes by.
pub proof fn law_an_operation_shows_its_status(
    op: &mut ArchiveOperation,
    status: ArchiveStatus,
    message: Option<&str>,
    now: &str,
)
    requires
        call_ensures(update_operation_status, (op, status, message, now), ()),
    ensures
        status is Planning ==> final(op).status@ == "planning"@,
        status is Copying ==> final(op).status@ == "copying"@,
        status is Verifying ==> final(op).status@ == "verifying"@,
        status is Zipping ==> final(op).status@ == "zipping"@,
        status is ZipVerifying ==> final(op).status@ == "zip_verifying"@,
        status is DeletingSources ==> final(op).status@ == "deleting_sources"@,
        status is Finalizing ==> final(op).status@ == "finalizing"@,
        status is Completed ==> final(op).status@ == "completed"@,
        status is Cancelled ==> final(op).status@ == "cancelled"@,
        status is RollingBack ==> final(op).status@ == "rolling_back"@,
        status is RolledBack ==> final(op).status@ == "rolled_back"@,
        status is Failed ==> final(op).status@ == "failed"@,
{
}

/// A new step waits, and is of the stage and the file that it is made for.
pub proof fn law_a_new_step_waits(
    id: i64,
    operation: i64,
    file: Option<i64>,
    stage: ArchiveStage,
    r: ArchiveOperationStep,
)
    requires
        call_ensures(insert_step, (id, operation, file, stage), r),
    ensures
        r.id == id,
        r.operation_id == operation,
        r.operation_file_id == file,
        r.status@ == "pending"@,
        r.actual_hash is None,
        r.error_message is None,
        r.started_at is None,
        r.completed_at is None,
        stage is Copy ==> r.stage@ == "copy"@,
        stage is VerifyCopy ==> r.stage@ == "verify_copy"@,
        stage is ZipAdd ==> r.stage@ == "zip_add"@,
        stage is VerifyZip ==> r.stage@ == "verify_zip"@,
        stage is DeleteSource ==> r.stage@ == "delete_source"@,
        stage is Finalize ==> r.stage@ == "finalize"@,
        stage is DeleteStaging ==> r.stage@ == "delete_staging"@,
        stage is RestoreSource ==> r.stage@ == "restore_source"@,
        stage is VerifyRestore ==> r.stage@ == "verify_restore"@,
{
}

/// A step starts when it is in progress and is completed when it is over; a change
/// leaves alone what it says nothing of.
pub proof fn law_a_step_is_timed(
    step: &mut ArchiveOperationStep,
    status: StepStatus,
    hash: Option<&str>,
    message: Option<&str>,
    now: &str,
)
    requires
        call_ensures(update_step, (step, status, hash, message, now), ()),
    ensures
        status is InProgress ==> holds(final(step).started_at, now@),
        !(status is InProgress) ==> final(step).started_at == old(step).started_at,
        status is Done || status is Failed || status is RolledBack ==> holds(
            final(step).completed_at,
            now@,
        ),
        status is Pending || status is InProgress ==> final(step).completed_at
            == old(step).completed_at,
        hash is None ==> final(step).actual_hash == old(step).actual_hash,
        hash matches Some(h) ==> holds(final(step).actual_hash, h@),
        message is None ==> final(step).error_message == old(step).error_message,
        message matches Some(m) ==> holds(final(step).error_message, m@),
        final(step).id == old(step).id,
        final(step).operation_id == old(step).operation_id,
        final(step).operation_file_id == old(step).operation_file_id,
        final(step).stage == old(step).stage,
        status is Pending ==> final(step).status@ == "pending"@,
        status is InProgress ==> final(step).status@ == "in_progress"@,
        status is Done ==> final(step).status@ == "done"@,
        status is Failed ==> final(step).status@ == "failed"@,
        status is RolledBack ==> final(step).status@ == "rolled_back"@,
{
}

/// A file goes on record as planned, under its own id and that of its operation.
pub proof fn law_a_file_goes_on_record_as_planned(
    id: i64,
    operation: i64,
    planned: ArchiveOperationFile,
    r: ArchiveOperationFile,
)
    requires
        call_ensures(insert_operation_file, (id, operation, &planned), r),
    ensures
        r.id == id,
        r.operation_id == operation,
        r.file_id == planned.file_id,
        r.source_path@ == planned.source_path@,
        r.target_zip_path@ == planned.target_zip_path@,
        r.target_path_in_zip@ == planned.target_path_in_zip@,
        r.expected_hash@ == planned.expected_hash@,
        r.disposition@ == planned.disposition@,
        r.frame_role@ == planned.frame_role@,
        r.file_size_bytes == planned.file_size_bytes,
{
}

/// Whether an operation shows that it is over.
pub open spec fn shows_over(s: ArchiveOperationSummary) -> bool {
    s.status@ == "completed"@ || s.status@ == "cancelled"@ || s.status@ == "rolled_back"@
        || s.status@ == "failed"@
}

proof fn lemma_unfinished(ops: Seq<ArchiveOperationSummary>, n: int)
    requires
        0 <= n <= ops.len(),
    ensures
        unfinished_of(ops, n) == ops.take(n).filter(|s: ArchiveOperationSummary| !shows_over(s)),
    decreases n,
{
    reveal(Seq::filter);
    if n > 0 {
        lemma_unfinished(ops, n - 1);
        assert(ops.take(n).drop_last() =~= ops.take(n - 1));
    }
}

/// The unfinished operations are exactly those that are not completed, cancelled,
/// rolled back or failed, in their order.
pub proof fn law_unfinished_operations_are_listed(
    ops: Vec<ArchiveOperationSummary>,
    r: Vec<ArchiveOperationSummary>,
)
    requires
        call_ensures(list_unfinished_operations, (&ops,), r),
    ensures
        r@ == ops@.filter(|s: ArchiveOperationSummary| !shows_over(s)),
{
    lemma_unfinished(ops@, ops@.len() as int);
    assert(ops@.take(ops@.len() as int) =~= ops@);
}

/// The marks of a frame set name the operation that archived it, and go when the
/// archive is undone.
pub proof fn law_frame_set_is_marked(
    operation: i64,
    now: &str,
    marked: FrameSetMarks,
    unmarked: FrameSetMarks,
)
    requires
        call_ensures(mark_frame_set_archived, (operation, now), marked),
        call_ensures(unmark_frame_set_archived, (), unmarked),
    ensures
        marked.is_archived,
        marked.archive_operation_id == Some(operation),
        holds(marked.archived_at, now@),
        !unmarked.is_archived,
        unmarked.archive_operation_id is None,
        unmarked.archived_at is None,
{
}

/// A file that is archived stays where it was and says in which zip it lies, and
/// where; once it is back it says nothing of an archive, and lies where it was put.
pub proof fn law_file_is_marked_and_unmarked(
    first: &mut FileMarks,
    second: &mut FileMarks,
    operation: i64,
    zip: &str,
    place: &str,
    new_path: Option<&str>,
)
    requires
        call_ensures(mark_file_archived, (first, operation, zip, place), ()),
        *old(second) == *final(first),
        call_ensures(unmark_file_archived, (second, new_path), ()),
    ensures
        final(first).path == old(first).path,
        final(first).archived_in_operation == Some(operation),
        holds(final(first).archive_zip_path, zip@),
        holds(final(first).archive_path_in_zip, place@),
        final(second).archived_in_operation is None,
        final(second).archive_zip_path is None,
        final(second).archive_path_in_zip is None,
        new_path is None ==> final(second).path == old(first).path,
        new_path matches Some(p) ==> final(second).path@ == p@,
{
}

/// A run stops where the user has asked for it and only there, and is then
/// cancelled; one that stopped for another reason has failed.
pub proof fn law_cancelled_is_not_failed(
    cancel: bool,
    r: Result<(), RunError>,
    err: RunError,
    told: bool,
    status: ArchiveStatus,
)
    requires
        call_ensures(check_cancel, (cancel,), r),
        call_ensures(was_cancelled, (&err,), told),
        call_ensures(stop_status, (&err,), status),
    ensures
        r is Err <==> cancel,
        r == Err::<(), RunError>(err) ==> told && status is Cancelled,
        told <==> contains_part(err.message@, "__archive_cancelled__"@),
        told ==> status is Cancelled,
        !told ==> status is Failed,
{
    if r == Err::<(), RunError>(err) {
        let m = err.message@;
        assert(m.subrange(0, m.len() as int) =~= m);
        assert(stands_at(m, m, 0));
    }
}

/// Only the source of a file that moves is removed, and only if it is there.
pub proof fn law_only_a_moved_source_goes(f: ArchiveOperationFile, there: bool, r: bool)
    requires
        call_ensures(source_needs_removal, (&f, there), r),
    ensures
        r ==> f.disposition@ == "move"@ && there,
        f.disposition@ == "move"@ && there ==> r,
{
}

/// Whether a file is a member of a group.
pub open spec fn has_member(g: ZipGroup, i: int) -> bool {
    exists|k: int| 0 <= k < g.members@.len() && #[trigger] g.members@[k] == i
}

proof fn lemma_members_rise(
    files: Seq<ArchiveOperationFile>,
    zip: Seq<char>,
    n: int,
    a: int,
    b: int,
)
    requires
        0 <= n <= files.len() <= usize::MAX,
        0 <= a < b < members_of(files, zip, n).len(),
    ensures
        members_of(files, zip, n)[a] < members_of(files, zip, n)[b],
    decreases n,
{
    if n > 0 {
        let rest = members_of(files, zip, n - 1);
        if b < rest.len() {
            lemma_members_rise(files, zip, n - 1, a, b);
        } else {
            law_members_belong(files, zip, n - 1, a);
        }
    }
}

/// Every file stands in one group, and that is the group of its zip; no two groups
/// are of one zip, and the members of a group are in the order of the files.
pub proof fn law_groups_are_the_zips(
    files: Vec<ArchiveOperationFile>,
    r: Vec<ZipGroup>,
    g: int,
    i: int,
)
    requires
        call_ensures(group_by_zip, (&files,), r),
        files@.len() <= usize::MAX,
        0 <= g < r@.len(),
        0 <= i < files@.len(),
    ensures
        has_member(r@[g], i) <==> files@[i].target_zip_path@ == r@[g].zip_path@,
        exists|h: int| 0 <= h < r@.len() && #[trigger] has_member(r@[h], i),
        forall|h: int| 0 <= h < r@.len() && h != g ==> (#[trigger] r@[h]).zip_path@ != r@[g].zip_path@,
        forall|a: int, b: int|
            0 <= a < b < r@[g].members@.len() ==> r@[g].members@[a] < r@[g].members@[b],
{
    let n = files@.len() as int;
    let zips = zips_of(files@, n);
    let zip = files@[i].target_zip_path@;
    let own = members_of(files@, zip, n);
    law_no_file_is_lost(files@, n, i);
    let h = choose|h: int| 0 <= h < zips.len() && zips[h] == zip;
    assert(r@[h].zip_path@ == zip);
    let k = choose|k: int| 0 <= k < own.len() && own[k] == i as usize;
    assert(r@[h].members@[k] == i);
    assert(has_member(r@[h], i));
    assert(r@[g].zip_path@ == zips[g]);
    if r@[g].zip_path@ == zip {
        assert(r@[g].members@[k] == i);
    }
    if has_member(r@[g], i) {
        let k = choose|k: int| 0 <= k < r@[g].members@.len() && #[trigger] r@[g].members@[k] == i;
        law_members_belong(files@, r@[g].zip_path@, n, k);
    }
    assert forall|h: int| 0 <= h < r@.len() && h != g implies (#[trigger] r@[h]).zip_path@
        != r@[g].zip_path@ by {
        assert(r@[h].zip_path@ == zips[h]);
    }
    assert forall|a: int, b: int| 0 <= a < b < r@[g].members@.len() implies r@[g].members@[a]
        < r@[g].members@[b] by {
        lemma_members_rise(files@, r@[g].zip_path@, n, a, b);
    }
}

proof fn lemma_pending(
    group: ZipGroup,
    files: Seq<ArchiveOperationFile>,
    done: Seq<i64>,
    n: int,
    m: usize,
)
    requires
        0 <= n <= group.members@.len(),
    ensures
        pending_members(group, files, done, n).contains(m) <==> group.members@.take(n).contains(m)
            && !done.contains(files[m as int].id),
    decreases n,
{
    if n > 0 {
        lemma_pending(group, files, done, n - 1, m);
        let now = group.members@.take(n);
        let before = group.members@.take(n - 1);
        let last = group.members@[n - 1];
        assert(now =~= before.push(last));
        let rest = pending_members(group, files, done, n - 1);
        assert(now.contains(m) <==> before.contains(m) || m == last) by {
            if before.contains(m) {
                let k = choose|k: int| 0 <= k < before.len() && before[k] == m;
                assert(now[k] == m);
            }
            if m == last {
                assert(now[n - 1] == m);
            }
        }
        if !done.contains(files[last as int].id) {
            if rest.contains(m) {
                let k = choose|k: int| 0 <= k < rest.len() && rest[k] == m;
                assert(rest.push(last)[k] == m);
            }
            if m == last {
                assert(rest.push(last)[rest.len() as int] == m);
            }
        }
    }
}

/// What is still to be done of a group is each member that is not done, and each
/// member's entry in the zip is the one that its file is to have.
pub proof fn law_group_work_is_of_its_files(
    group: ZipGroup,
    files: Vec<ArchiveOperationFile>,
    done: Vec<i64>,
    pending: Vec<usize>,
    entries: Vec<String>,
    m: usize,
)
    requires
        call_ensures(pending_in_group, (&group, &files, &done), pending),
        call_ensures(group_entries, (&group, &files), entries),
    ensures
        pending@.contains(m) <==> group.members@.contains(m) && !done@.contains(
            files@[m as int].id,
        ),
        entries@.len() == group.members@.len(),
        forall|k: int|
            0 <= k < entries@.len() ==> (#[trigger] entries@[k])@
                == files@[group.members@[k] as int].target_path_in_zip@,
{
    let n = group.members@.len() as int;
    lemma_pending(group, files@, done@, n, m);
    assert(group.members@.take(n) =~= group.members@);
}

/// Whether a step is done and the run goes on.
pub open spec fn is_done(v: StepVerdict) -> bool {
    v.status is Done && v.error_message is None && v.stop is None
}

/// Whether a step failed for the given reason and the run stops.
pub open spec fn is_failed(v: StepVerdict, why: Seq<char>) -> bool {
    v.status is Failed && holds(v.error_message, why) && v.stop is Some
}

/// A copy step is done exactly if the copy succeeded; otherwise it fails with the
/// reason, which goes on record, and the run stops.
pub proof fn law_a_failed_copy_stops_the_run(
    f: ArchiveOperationFile,
    copied: Result<(), String>,
    v: StepVerdict,
)
    requires
        call_ensures(copy_verdict, (&f, &copied), v),
    ensures
        copied is Ok ==> is_done(v),
        copied matches Err(why) ==> is_failed(v, why@),
        v.actual_hash is None,
{
}

/// A staged copy is good exactly if its hash is the one that the source had; the hash
/// that was found goes on record either way. A copy that cannot be read is not good.
pub proof fn law_a_copy_is_good_by_its_hash(
    f: ArchiveOperationFile,
    staged: &str,
    hashed: Result<String, String>,
    v: StepVerdict,
)
    requires
        call_ensures(verify_copy_verdict, (&f, staged, &hashed), v),
    ensures
        is_done(v) <==> (hashed matches Ok(h) && h@ == f.expected_hash@),
        !is_done(v) ==> v.status is Failed && v.stop is Some && v.error_message is Some,
        hashed matches Ok(h) ==> holds(v.actual_hash, h@),
        hashed matches Err(why) ==> is_failed(v, why@) && v.actual_hash is None,
{
}

/// A zip that cannot be built, or is not sound, stops the run.
pub proof fn law_a_bad_zip_stops_the_run(
    zip: &str,
    result: Result<(), String>,
    built: StepVerdict,
    checked: StepVerdict,
)
    requires
        call_ensures(zip_verdict, (zip, &result), built),
        call_ensures(verify_zip_verdict, (zip, &result), checked),
    ensures
        result is Ok ==> is_done(built) && is_done(checked),
        result matches Err(why) ==> is_failed(built, why@) && is_failed(checked, why@),
{
}

/// A source that could not be removed stops the run; one that is gone already, or
/// stays because it is only copied, does not.
pub proof fn law_a_source_that_stays_by_fault_stops_the_run(
    f: ArchiveOperationFile,
    removal: Removal,
    v: StepVerdict,
)
    requires
        call_ensures(delete_verdict, (&f, &removal), v),
    ensures
        removal matches Removal::Failed(why) ==> is_failed(v, why@),
        !(removal is Failed) ==> is_done(v),
{
}

/// What is told of the last step: it is one of one, and is told as done only once it
/// is done.
pub proof fn law_finalizing_is_one_step(
    operation: i64,
    before: ArchiveProgress,
    after: ArchiveProgress,
)
    requires
        call_ensures(finalize_progress, (operation, false), before),
        call_ensures(finalize_progress, (operation, true), after),
    ensures
        before.current == 0 && before.total == 1,
        after.current == 1 && after.total == 1,
        before.operation_id == operation && after.operation_id == operation,
        before.stage@ == "finalizing"@ && after.stage@ == "finalizing"@,
        before.message@ == "Finalizing"@ && after.message@ == "Finalized"@,
{
}

/// The files of which a stage is done are those with a step of that stage on record
/// that is done, each once.
pub proof fn law_done_files_have_a_done_step(
    steps: Vec<ArchiveOperationStep>,
    stage: ArchiveStage,
    word: &'static str,
    r: Vec<i64>,
    file: i64,
)
    requires
        call_ensures(existing_done_steps, (&steps, stage), r),
        call_ensures(ArchiveStage::as_str, (&stage,), word),
    ensures
        r@.contains(file) <==> exists|i: int|
            0 <= i < steps@.len() && (#[trigger] steps@[i]).stage@ == word@ && steps@[i].status@
                == "done"@ && steps@[i].operation_file_id == Some(file),
        r@.no_duplicates(),
{
    if step_is_done(steps@, stage, file) {
        let i = choose|i: int|
            0 <= i < steps@.len() && #[trigger] is_done_step(steps@[i], stage, file);
        assert(steps@[i].operation_file_id == Some(file));
    }
    if exists|i: int|
        0 <= i < steps@.len() && (#[trigger] steps@[i]).stage@ == word@ && steps@[i].status@
            == "done"@ && steps@[i].operation_file_id == Some(file) {
        let i = choose|i: int|
            0 <= i < steps@.len() && (#[trigger] steps@[i]).stage@ == word@ && steps@[i].status@
                == "done"@ && steps@[i].operation_file_id == Some(file);
        assert(is_done_step(steps@[i], stage, file));
    }
}

/// A word on record is read as what it was written for, and a word that stands for
/// nothing is not read.
pub proof fn law_words_are_read_back(
    d: ArchiveDisposition,
    c: ArchiveCompression,
    dw: &'static str,
    cw: &'static str,
    dr: Option<ArchiveDisposition>,
    cr: Option<ArchiveCompression>,
    other: &str,
    od: Option<ArchiveDisposition>,
    oc: Option<ArchiveCompression>,
)
    requires
        call_ensures(ArchiveDisposition::as_str, (&d,), dw),
        call_ensures(ArchiveDisposition::from_str, (dw,), dr),
        call_ensures(ArchiveCompression::as_str, (&c,), cw),
        call_ensures(ArchiveCompression::from_str, (cw,), cr),
        call_ensures(ArchiveDisposition::from_str, (other,), od),
        call_ensures(ArchiveCompression::from_str, (other,), oc),
    ensures
        dr == Some(d),
        cr == Some(c),
        od is Some ==> other@ == "move"@ || other@ == "copy"@ || other@ == "skip"@,
        oc is Some ==> other@ == "store"@ || other@ == "deflate"@,
        d is Move ==> dw@ == "move"@,
        d is Copy ==> dw@ == "copy"@,
        d is Skip ==> dw@ == "skip"@,
        c is Store ==> cw@ == "store"@,
        c is Deflate ==> cw@ == "deflate"@,
{
    law_disposition_round_trip(d, other@);
    law_compression_round_trip(c, other@);
}

/// An operation can be taken up again unless it is completed, cancelled, rolled back or
/// failed.
pub proof fn law_what_is_over_is_not_taken_up(status: ArchiveStatus, r: bool)
    requires
        call_ensures(ArchiveStatus::is_unfinished, (&status,), r),
    ensures
        status is Completed || status is Cancelled || status is RolledBack || status is Failed
            ==> !r,
        status is Planning || status is Copying || status is Verifying || status is Zipping
            || status is ZipVerifying || status is DeletingSources || status is Finalizing
            || status is RollingBack ==> r,
{
}

/// The words for a refused plan name the set, the file or the numbers that it was
/// refused for.
pub proof fn law_a_refused_plan_says_what_for(e: PlanError, r: String)
    requires
        call_ensures(PlanError::to_string, (&e,), r),
    ensures
        match e@ {
            PlanFailure::SourceMissing(p) => r@ == "source file no longer exists: "@ + p,
            PlanFailure::HashFailed(p, _) => r@ == "failed to hash "@ + p,
            PlanFailure::NoSpace(need, room) => r@
                == "insufficient disk space at archive root: need "@ + decimal(need as nat)
                + " bytes (incl. 5% margin), available "@ + decimal(room as nat),
            PlanFailure::UnsupportedType(id, t) => r@ == "calibration set "@ + signed_decimal(
                id as int,
            ) + " has unsupported imagetyp for archiving: "@ + t,
            PlanFailure::NoMembers(id) => r@ == "calibration set "@ + signed_decimal(id as int)
                + " has no member frames on record"@,
            PlanFailure::AlreadyZipped => r@ == "frame set is already zipped"@,
            _ => true,
        },
{
}

} // verus!
