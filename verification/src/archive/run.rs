//! The run of an archive operation as a whole: turn by turn it says what is to
//! be done next, takes what came of it, and goes on or stops.

use crate::archive::executor::{
    are_groups, cancel_text, check_cancel, copy_verdict, delete_verdict, done_verdict,
    existing_done_steps, finalize_progress, group_by_zip, holds_id, is_moved,
    law_cancel_is_recognised, law_members_belong, law_no_file_is_lost, members_of, mismatch_text,
    pending_in_group, pending_members, step_is_done, stop_status_of, tells_cancel, verdict_done,
    verdict_failed, verify_copy_verdict, verify_zip_verdict, was_cancelled, zip_verdict, zips_of,
    ArchiveProgress, Removal, RunError, StepVerdict, ZipGroup,
};
use crate::archive::models::{
    ArchiveCompression, ArchiveOperation, ArchiveOperationFile, ArchiveOperationStep, ArchiveStage,
    ArchiveStatus, StepStatus,
};
use crate::text::{decimal, decimal_text, same_text};
use vstd::prelude::*;
use vstd::string::*;

verus! {

/// A progress message of the form `<what> <current>/<total>`.
pub open spec fn counted(what: Seq<char>, current: nat, total: nat) -> Seq<char> {
    what + " "@ + decimal(current) + "/"@ + decimal(total)
}

fn counted_text(what: &str, current: usize, total: usize) -> (r: String)
    ensures
        r@ == counted(what@, current as nat, total as nat),
{
    let mut r: String = what.to_owned();
    r.append(" ");
    r.append(decimal_text(current as u64).as_str());
    r.append("/");
    r.append(decimal_text(total as u64).as_str());
    r
}

/// The phases of a run, in order.
#[derive(Debug, Clone, Copy, PartialEq, Eq, Structural)]
pub enum RunPhase {
    Copying,
    Verifying,
    Zipping,
    ZipVerifying,
    DeletingSources,
    Finalizing,
    Completed,
    /// The user has stopped the run before its end.
    Cancelled,
    /// The run has stopped before its end because something went wrong.
    Failed,
}

impl RunPhase {
    /// The word for the phase in progress messages.
    pub open spec fn word(self) -> Seq<char> {
        match self {
            RunPhase::Copying => "copying"@,
            RunPhase::Verifying => "verifying"@,
            RunPhase::Zipping => "zipping"@,
            RunPhase::ZipVerifying => "zip_verifying"@,
            RunPhase::DeletingSources => "deleting_sources"@,
            RunPhase::Finalizing => "finalizing"@,
            RunPhase::Completed => "completed"@,
            RunPhase::Cancelled => "cancelled"@,
            RunPhase::Failed => "failed"@,
        }
    }

    /// What a progress message says of the phase.
    pub open spec fn doing(self) -> Seq<char> {
        match self {
            RunPhase::Copying => "Copying"@,
            RunPhase::Verifying => "Verifying hashes"@,
            RunPhase::Zipping => "Building zip"@,
            RunPhase::ZipVerifying => "Verifying zip"@,
            RunPhase::DeletingSources => "Deleting sources"@,
            _ => "Finalizing"@,
        }
    }

    /// The word for the phase in progress messages.
    pub fn as_str(self) -> (r: &'static str)
        ensures
            r@ == self.word(),
    {
        match self {
            RunPhase::Copying => "copying",
            RunPhase::Verifying => "verifying",
            RunPhase::Zipping => "zipping",
            RunPhase::ZipVerifying => "zip_verifying",
            RunPhase::DeletingSources => "deleting_sources",
            RunPhase::Finalizing => "finalizing",
            RunPhase::Completed => "completed",
            RunPhase::Cancelled => "cancelled",
            RunPhase::Failed => "failed",
        }
    }

    fn doing_str(self) -> (r: &'static str)
        ensures
            r@ == self.doing(),
    {
        match self {
            RunPhase::Copying => "Copying",
            RunPhase::Verifying => "Verifying hashes",
            RunPhase::Zipping => "Building zip",
            RunPhase::ZipVerifying => "Verifying zip",
            RunPhase::DeletingSources => "Deleting sources",
            _ => "Finalizing",
        }
    }

    /// The status of the operation during the phase, or from its end on.
    pub open spec fn status_of(self) -> ArchiveStatus {
        match self {
            RunPhase::Copying => ArchiveStatus::Copying,
            RunPhase::Verifying => ArchiveStatus::Verifying,
            RunPhase::Zipping => ArchiveStatus::Zipping,
            RunPhase::ZipVerifying => ArchiveStatus::ZipVerifying,
            RunPhase::DeletingSources => ArchiveStatus::DeletingSources,
            RunPhase::Finalizing => ArchiveStatus::Finalizing,
            RunPhase::Completed => ArchiveStatus::Completed,
            RunPhase::Cancelled => ArchiveStatus::Cancelled,
            RunPhase::Failed => ArchiveStatus::Failed,
        }
    }

    /// The status of the operation during the phase, or from its end on.
    pub fn status(self) -> (r: ArchiveStatus)
        ensures
            r == self.status_of(),
    {
        match self {
            RunPhase::Copying => ArchiveStatus::Copying,
            RunPhase::Verifying => ArchiveStatus::Verifying,
            RunPhase::Zipping => ArchiveStatus::Zipping,
            RunPhase::ZipVerifying => ArchiveStatus::ZipVerifying,
            RunPhase::DeletingSources => ArchiveStatus::DeletingSources,
            RunPhase::Finalizing => ArchiveStatus::Finalizing,
            RunPhase::Completed => ArchiveStatus::Completed,
            RunPhase::Cancelled => ArchiveStatus::Cancelled,
            RunPhase::Failed => ArchiveStatus::Failed,
        }
    }

    /// The stage that the steps of the phase are of.
    pub open spec fn stage(self) -> ArchiveStage {
        match self {
            RunPhase::Copying => ArchiveStage::Copy,
            RunPhase::Verifying => ArchiveStage::VerifyCopy,
            RunPhase::Zipping => ArchiveStage::ZipAdd,
            RunPhase::ZipVerifying => ArchiveStage::VerifyZip,
            RunPhase::DeletingSources => ArchiveStage::DeleteSource,
            _ => ArchiveStage::Finalize,
        }
    }

    fn stage_of(self) -> (r: ArchiveStage)
        ensures
            r == self.stage(),
    {
        match self {
            RunPhase::Copying => ArchiveStage::Copy,
            RunPhase::Verifying => ArchiveStage::VerifyCopy,
            RunPhase::Zipping => ArchiveStage::ZipAdd,
            RunPhase::ZipVerifying => ArchiveStage::VerifyZip,
            RunPhase::DeletingSources => ArchiveStage::DeleteSource,
            _ => ArchiveStage::Finalize,
        }
    }

    fn next_phase(self) -> (r: RunPhase)
        ensures
            r == phase_after(self),
    {
        match self {
            RunPhase::Copying => RunPhase::Verifying,
            RunPhase::Verifying => RunPhase::Zipping,
            RunPhase::Zipping => RunPhase::ZipVerifying,
            RunPhase::ZipVerifying => RunPhase::DeletingSources,
            RunPhase::DeletingSources => RunPhase::Finalizing,
            RunPhase::Finalizing => RunPhase::Completed,
            RunPhase::Completed => RunPhase::Completed,
            RunPhase::Cancelled => RunPhase::Cancelled,
            RunPhase::Failed => RunPhase::Failed,
        }
    }
}

/// The phase that follows a phase.
pub open spec fn phase_after(phase: RunPhase) -> RunPhase {
    match phase {
        RunPhase::Copying => RunPhase::Verifying,
        RunPhase::Verifying => RunPhase::Zipping,
        RunPhase::Zipping => RunPhase::ZipVerifying,
        RunPhase::ZipVerifying => RunPhase::DeletingSources,
        RunPhase::DeletingSources => RunPhase::Finalizing,
        RunPhase::Finalizing => RunPhase::Completed,
        RunPhase::Completed => RunPhase::Completed,
        RunPhase::Cancelled => RunPhase::Cancelled,
        RunPhase::Failed => RunPhase::Failed,
    }
}

/// Whether a run in the phase has stopped before its end.
pub open spec fn has_stopped(phase: RunPhase) -> bool {
    phase == RunPhase::Cancelled || phase == RunPhase::Failed
}

/// The phase that an error leads to.
pub open spec fn phase_stopped_by(message: Seq<char>) -> RunPhase {
    if tells_cancel(message) {
        RunPhase::Cancelled
    } else {
        RunPhase::Failed
    }
}

/// The work on one item of a phase.
#[derive(Debug, Clone, Copy, PartialEq, Eq, Structural)]
pub enum Task {
    /// The file at this place goes into the staging area.
    Copy(usize),
    /// The staged copy of the file at this place is hashed.
    Hash(usize),
    /// The zip of this group is built from the staged copies.
    BuildZip(usize),
    /// The entries of the zip of this group are verified.
    VerifyZip(usize),
    /// The source of the file at this place is deleted, if it is still there.
    RemoveSource(usize),
    /// The source of the file at this place stays.
    KeepSource(usize),
    /// The catalog is brought up to date and the staging area cleared.
    Finalize,
}

/// The work on one item, with the steps that go on record for it as begun.
#[derive(Debug)]
pub struct Work {
    pub task: Task,
    pub stage: ArchiveStage,
    /// The file that each step is of; none for a step of the whole operation.
    pub step_files: Vec<Option<i64>>,
}

/// What a run asks for.
#[derive(Debug)]
pub enum RunTurn {
    /// The operation gets this status on record.
    Status(ArchiveStatus),
    /// The next item is on record as done; it is only told.
    Skip(ArchiveProgress),
    /// The next item is told and worked on.
    Do(ArchiveProgress, Work),
    /// The user has stopped the run. Its status is still to come.
    Stopped(RunError),
    /// There is nothing left to do.
    Over,
}

/// What came of the work on an item.
#[derive(Debug)]
pub enum Outcome {
    Copied(Result<(), String>),
    /// The staged path, and the hash of what is there.
    Hashed(String, Result<String, String>),
    /// The directory for the zip could not be made.
    NoZipDir(String),
    Zipped(Result<(), String>),
    ZipVerified(Result<(), String>),
    SourceDone(Removal),
    Finalized(Result<(), String>),
}

impl Outcome {
    /// Whether an outcome is one of the work in a phase.
    pub open spec fn is_of(self, phase: RunPhase) -> bool {
        match self {
            Outcome::Copied(_) => phase == RunPhase::Copying,
            Outcome::Hashed(_, _) => phase == RunPhase::Verifying,
            Outcome::NoZipDir(_) | Outcome::Zipped(_) => phase == RunPhase::Zipping,
            Outcome::ZipVerified(_) => phase == RunPhase::ZipVerifying,
            Outcome::SourceDone(_) => phase == RunPhase::DeletingSources,
            Outcome::Finalized(_) => phase == RunPhase::Finalizing,
        }
    }
}

/// The files whose step of each stage was on record as done when the run began.
#[derive(Debug)]
pub struct OnRecord {
    pub copied: Vec<i64>,
    pub verified: Vec<i64>,
    pub zipped: Vec<i64>,
    pub deleted: Vec<i64>,
}

/// A run of an archive operation: its phase, the item of it that is next, and
/// what was learned on the way.
#[derive(Debug)]
pub struct ArchiveRun {
    pub operation_id: i64,
    pub compression: ArchiveCompression,
    pub files: Vec<ArchiveOperationFile>,
    pub groups: Vec<ZipGroup>,
    pub on_record: OnRecord,
    pub phase: RunPhase,
    /// Whether the operation has the status of the phase on record.
    pub entered: bool,
    pub next: usize,
    /// The hash of the staged copy of each file that was verified so far; none
    /// where that was done before the run.
    pub hashes: Vec<Option<String>>,
    /// How many zips were verified so far.
    pub zips_verified: usize,
}

/// Which kind of turn comes next.
pub enum TurnKind {
    Status(RunPhase),
    Skip,
    Do,
    Cancel,
    Over,
}

impl ArchiveRun {
    /// How many items a phase has.
    pub open spec fn items(self, phase: RunPhase) -> nat {
        match phase {
            RunPhase::Copying | RunPhase::Verifying | RunPhase::DeletingSources => self.files@.len(),
            RunPhase::Zipping | RunPhase::ZipVerifying => self.groups@.len(),
            RunPhase::Finalizing => 1,
            RunPhase::Completed | RunPhase::Cancelled | RunPhase::Failed => 0,
        }
    }

    /// Whether the copy of a file is known to be sound: it had the hash that
    /// the source had when the plan was made, or was on record as verified.
    pub open spec fn copy_is_sound(self, i: int) -> bool {
        match self.hashes@[i] {
            Some(h) => h@ == self.files@[i].expected_hash@,
            None => self.on_record.verified@.contains(self.files@[i].id),
        }
    }

    /// How many copies are verified where the run stands.
    pub open spec fn copies_verified(self) -> nat {
        match self.phase {
            RunPhase::Copying => 0,
            RunPhase::Verifying => self.next as nat,
            _ => self.files@.len(),
        }
    }

    /// How many zips are verified where the run stands.
    pub open spec fn zips_done(self) -> nat {
        match self.phase {
            RunPhase::Copying | RunPhase::Verifying | RunPhase::Zipping => 0,
            RunPhase::ZipVerifying => self.next as nat,
            _ => self.groups@.len(),
        }
    }

    /// The next item is one of its phase or the one behind its last, each file
    /// is in the group of its zip, and what was verified is sound.
    pub open spec fn wf(self) -> bool {
        &&& self.next <= self.items(self.phase)
        &&& are_groups(self.groups@, self.files@, self.files@.len() as int)
        &&& !has_stopped(self.phase) ==> {
            &&& self.hashes@.len() == self.copies_verified()
            &&& self.zips_verified == self.zips_done()
            &&& forall|i: int|
                0 <= i < self.hashes@.len() ==> #[trigger] self.copy_is_sound(i)
        }
    }

    /// Whether two values are the same run, wherever it stands.
    pub open spec fn same_run(self, other: Self) -> bool {
        &&& self.operation_id == other.operation_id
        &&& self.compression == other.compression
        &&& self.files == other.files
        &&& self.groups == other.groups
        &&& self.on_record == other.on_record
    }

    /// Whether the next item is on record as done. A zip is where all of its
    /// files are; a zip is always verified anew.
    pub open spec fn next_is_on_record(self) -> bool {
        let i = self.next as int;
        match self.phase {
            RunPhase::Copying => self.on_record.copied@.contains(self.files@[i].id),
            RunPhase::Verifying => self.on_record.verified@.contains(self.files@[i].id),
            RunPhase::Zipping => self.pending(i).len() == 0,
            RunPhase::DeletingSources => self.on_record.deleted@.contains(self.files@[i].id),
            _ => false,
        }
    }

    /// The files of a zip that are not on record as zipped.
    pub open spec fn pending(self, g: int) -> Seq<usize> {
        pending_members(
            self.groups@[g],
            self.files@,
            self.on_record.zipped@,
            self.groups@[g].members@.len() as int,
        )
    }

    /// Which kind of turn comes next. The user can stop the run before each
    /// item, but not once the sources are gone. A run that has stopped still
    /// gives the operation the status that tells why.
    pub open spec fn turn_kind(self, cancel: bool) -> TurnKind {
        if !self.entered {
            TurnKind::Status(self.phase)
        } else if has_stopped(self.phase) || self.phase == RunPhase::Completed {
            TurnKind::Over
        } else if self.next == self.items(self.phase) {
            TurnKind::Status(phase_after(self.phase))
        } else if cancel && self.phase != RunPhase::Finalizing {
            TurnKind::Cancel
        } else if self.next_is_on_record() {
            TurnKind::Skip
        } else {
            TurnKind::Do
        }
    }

    /// Whether `p` tells of the next item.
    pub open spec fn is_progress(self, p: ArchiveProgress) -> bool {
        &&& p.operation_id == self.operation_id
        &&& p.stage@ == self.phase.word()
        &&& p.total == self.items(self.phase)
        &&& if self.phase == RunPhase::Finalizing {
            p.current == 0 && p.message@ == "Finalizing"@
        } else {
            p.current == self.next + 1 && p.message@ == counted(
                self.phase.doing(),
                (self.next + 1) as nat,
                self.items(self.phase),
            )
        }
    }

    /// The work on the next item. Only the source of a file that moves is
    /// deleted.
    pub open spec fn task(self) -> Task {
        match self.phase {
            RunPhase::Copying => Task::Copy(self.next),
            RunPhase::Verifying => Task::Hash(self.next),
            RunPhase::Zipping => Task::BuildZip(self.next),
            RunPhase::ZipVerifying => Task::VerifyZip(self.next),
            RunPhase::DeletingSources => if is_moved(self.files@[self.next as int]) {
                Task::RemoveSource(self.next)
            } else {
                Task::KeepSource(self.next)
            },
            _ => Task::Finalize,
        }
    }

    /// The files that the steps for the next item are of.
    pub open spec fn step_files(self) -> Seq<Option<i64>> {
        match self.phase {
            RunPhase::Copying | RunPhase::Verifying | RunPhase::DeletingSources => seq![
                Some(self.files@[self.next as int].id),
            ],
            RunPhase::Zipping => Seq::new(
                self.pending(self.next as int).len(),
                |k: int| Some(self.files@[self.pending(self.next as int)[k] as int].id),
            ),
            _ => seq![None],
        }
    }

    /// Whether `w` is the work on the next item.
    pub open spec fn is_work(self, w: Work) -> bool {
        &&& w.task == self.task()
        &&& w.stage == self.phase.stage()
        &&& w.step_files@ == self.step_files()
    }

    /// Whether the outcome lets the run go on.
    pub open spec fn is_success(self, o: Outcome) -> bool {
        match o {
            Outcome::Copied(r) => r is Ok,
            Outcome::Hashed(_, r) => r matches Ok(h) && h@
                == self.files@[self.next as int].expected_hash@,
            Outcome::NoZipDir(_) => false,
            Outcome::Zipped(r) => r is Ok,
            Outcome::ZipVerified(r) => r is Ok,
            Outcome::SourceDone(r) => !(r is Failed),
            Outcome::Finalized(r) => r is Ok,
        }
    }

    /// What becomes of the steps for the next item, and what the run stops
    /// with if it does.
    pub open spec fn is_verdict(self, o: Outcome, v: StepVerdict) -> bool {
        let i = self.next as int;
        match o {
            Outcome::Copied(Err(why)) => verdict_failed(
                v,
                None,
                why@,
                "copy failed for "@ + self.files@[i].source_path@ + ": "@ + why@,
            ),
            Outcome::Hashed(_, Ok(h)) => if h@ == self.files@[i].expected_hash@ {
                verdict_done(v, Some(h@))
            } else {
                verdict_failed(
                    v,
                    Some(h@),
                    mismatch_text(self.files@[i], h@),
                    mismatch_text(self.files@[i], h@),
                )
            },
            Outcome::Hashed(staged, Err(why)) => verdict_failed(
                v,
                None,
                why@,
                "hash failed for staged "@ + staged@ + ": "@ + why@,
            ),
            Outcome::NoZipDir(dir) => verdict_open(
                v,
                StepStatus::Pending,
                "failed to create zip dir "@ + dir@,
            ),
            Outcome::Zipped(Err(why)) => verdict_failed(
                v,
                None,
                why@,
                "zip build failed for "@ + self.groups@[i].zip_path@ + ": "@ + why@,
            ),
            Outcome::ZipVerified(Err(why)) => verdict_failed(
                v,
                None,
                why@,
                "zip verification failed for "@ + self.groups@[i].zip_path@ + ": "@ + why@,
            ),
            Outcome::SourceDone(Removal::Failed(why)) => verdict_failed(
                v,
                None,
                why@,
                "delete failed for "@ + self.files@[i].source_path@ + ": "@ + why@,
            ),
            Outcome::Finalized(Err(why)) => verdict_open(v, StepStatus::InProgress, why@),
            _ => verdict_done(v, None),
        }
    }

    /// Whether a turn gives `r` and leaves the run as `after`.
    pub open spec fn turns(self, cancel: bool, after: Self, r: RunTurn) -> bool {
        &&& after.wf()
        &&& after.same_run(self)
        &&& match self.turn_kind(cancel) {
            TurnKind::Over => r is Over && after == self,
            TurnKind::Status(p) => {
                &&& r matches RunTurn::Status(s) && s == p.status_of()
                &&& after.phase == p
                &&& after.entered
                &&& after.next == if self.entered {
                    0usize
                } else {
                    self.next
                }
            },
            TurnKind::Cancel => {
                &&& r matches RunTurn::Stopped(e) && e.message@ == cancel_text()
                &&& after.phase == RunPhase::Cancelled
                &&& !after.entered
            },
            TurnKind::Skip => {
                &&& r matches RunTurn::Skip(p) && self.is_progress(p)
                &&& after.phase == self.phase
                &&& after.entered
                &&& after.next == self.next + 1
            },
            TurnKind::Do => {
                &&& r matches RunTurn::Do(p, w) && self.is_progress(p) && self.is_work(w)
                &&& after == self
            },
        }
    }

    /// Whether the outcome of the work on the next item gives the verdict `v` and
    /// leaves the run as `after`.
    pub open spec fn finishes(self, o: Outcome, after: Self, v: StepVerdict) -> bool {
        &&& after.wf()
        &&& after.same_run(self)
        &&& self.is_verdict(o, v)
        &&& (v.stop is None) == self.is_success(o)
        &&& self.is_success(o) ==> {
            &&& after.phase == self.phase
            &&& after.entered == self.entered
            &&& after.next == self.next + 1
        }
        &&& v.stop matches Some(e) ==> {
            &&& after.phase == phase_stopped_by(e.message@)
            &&& !after.entered
        }
    }

    /// Whether nothing was done in the run yet.
    pub open spec fn is_fresh(self) -> bool {
        &&& self.wf()
        &&& self.phase == RunPhase::Copying
        &&& !self.entered
        &&& self.next == 0
    }

    /// How many items the phase has.
    fn total(&self) -> (r: usize)
        ensures
            r == self.items(self.phase),
    {
        match self.phase {
            RunPhase::Copying | RunPhase::Verifying | RunPhase::DeletingSources => self.files.len(),
            RunPhase::Zipping | RunPhase::ZipVerifying => self.groups.len(),
            RunPhase::Finalizing => 1,
            RunPhase::Completed | RunPhase::Cancelled | RunPhase::Failed => 0,
        }
    }

    /// What is told of the next item.
    fn progress(&self) -> (r: ArchiveProgress)
        requires
            self.next < self.items(self.phase),
        ensures
            self.is_progress(r),
    {
        match self.phase {
            RunPhase::Finalizing => finalize_progress(self.operation_id, false),
            _ => {
                let total = self.total();
                let current: usize = self.next + 1;
                ArchiveProgress {
                    operation_id: self.operation_id,
                    stage: self.phase.as_str().to_owned(),
                    current,
                    total,
                    message: counted_text(self.phase.doing_str(), current, total),
                }
            },
        }
    }

    /// The members of a group stand in the list of files.
    proof fn lemma_members(self, g: int)
        requires
            self.wf(),
            0 <= g < self.groups@.len(),
            self.files@.len() <= usize::MAX,
        ensures
            forall|k: int|
                0 <= k < self.groups@[g].members@.len() ==> self.groups@[g].members@[k]
                    < self.files@.len(),
    {
        let zip = self.groups@[g].zip_path@;
        let n = self.files@.len() as int;
        assert(self.groups@[g].members@ == members_of(self.files@, zip, n));
        assert forall|k: int| 0 <= k < self.groups@[g].members@.len() implies self.groups@[g].members@[k]
            < self.files@.len() by {
            law_members_belong(self.files@, zip, n, k);
        }
    }

    /// The files of a zip that are not on record as zipped.
    fn pending_of(&self, g: usize) -> (r: Vec<usize>)
        requires
            self.wf(),
            g < self.groups@.len(),
        ensures
            r@ == self.pending(g as int),
            forall|k: int| 0 <= k < r@.len() ==> r@[k] < self.files@.len(),
    {
        let count: usize = self.files.len();
        proof {
            assert(count == self.files@.len());
            self.lemma_members(g as int);
            lemma_pending_members(
                self.groups@[g as int],
                self.files@,
                self.on_record.zipped@,
                self.groups@[g as int].members@.len() as int,
            );
        }
        pending_in_group(&self.groups[g], &self.files, &self.on_record.zipped)
    }

    /// The work on the next item.
    fn work(&self) -> (w: Work)
        requires
            self.wf(),
            self.next < self.items(self.phase),
        ensures
            self.is_work(w),
    {
        let i = self.next;
        let mut step_files: Vec<Option<i64>> = Vec::new();
        let task = match self.phase {
            RunPhase::Copying => {
                step_files.push(Some(self.files[i].id));
                Task::Copy(i)
            },
            RunPhase::Verifying => {
                step_files.push(Some(self.files[i].id));
                Task::Hash(i)
            },
            RunPhase::Zipping => {
                let pending = self.pending_of(i);
                let mut k: usize = 0;
                while k < pending.len()
                    invariant
                        k <= pending@.len(),
                        forall|j: int| 0 <= j < pending@.len() ==> pending@[j] < self.files@.len(),
                        step_files@.len() == k,
                        forall|j: int|
                            0 <= j < k ==> #[trigger] step_files@[j] == Some(
                                self.files@[pending@[j] as int].id,
                            ),
                    decreases pending@.len() - k,
                {
                    step_files.push(Some(self.files[pending[k]].id));
                    k = k + 1;
                }
                Task::BuildZip(i)
            },
            RunPhase::ZipVerifying => {
                step_files.push(None);
                Task::VerifyZip(i)
            },
            RunPhase::DeletingSources => {
                step_files.push(Some(self.files[i].id));
                if same_text(self.files[i].disposition.as_str(), "move") {
                    Task::RemoveSource(i)
                } else {
                    Task::KeepSource(i)
                }
            },
            _ => {
                step_files.push(None);
                Task::Finalize
            },
        };
        assert(step_files@ =~= self.step_files());
        Work { task, stage: self.phase.stage_of(), step_files }
    }

    /// Whether the next item is on record as done.
    fn is_on_record(&self) -> (r: bool)
        requires
            self.wf(),
            self.next < self.items(self.phase),
        ensures
            r == self.next_is_on_record(),
    {
        let i = self.next;
        match self.phase {
            RunPhase::Copying => holds_id(&self.on_record.copied, self.files[i].id),
            RunPhase::Verifying => holds_id(&self.on_record.verified, self.files[i].id),
            RunPhase::Zipping => self.pending_of(i).len() == 0,
            RunPhase::DeletingSources => holds_id(&self.on_record.deleted, self.files[i].id),
            _ => false,
        }
    }

    /// Goes on to the item behind the next one.
    fn advance(&mut self, hash: Option<String>)
        requires
            old(self).wf(),
            old(self).next < old(self).items(old(self).phase),
            old(self).phase == RunPhase::Verifying ==> match hash {
                Some(h) => h@ == old(self).files@[old(self).next as int].expected_hash@,
                None => old(self).on_record.verified@.contains(
                    old(self).files@[old(self).next as int].id,
                ),
            },
        ensures
            final(self).wf(),
            final(self).same_run(*old(self)),
            final(self).phase == old(self).phase,
            final(self).entered == old(self).entered,
            final(self).next == old(self).next + 1,
    {
        let ghost before = *self;
        let total = self.total();
        assert(self.next < total);
        match self.phase {
            RunPhase::Verifying => {
                self.hashes.push(hash);
            },
            RunPhase::ZipVerifying => {
                self.zips_verified = self.zips_verified + 1;
            },
            _ => {},
        }
        self.next = self.next + 1;
        assert forall|i: int| 0 <= i < self.hashes@.len() implies #[trigger] self.copy_is_sound(
            i,
        ) by {
            if i < before.hashes@.len() {
                assert(before.copy_is_sound(i));
                assert(self.hashes@[i] == before.hashes@[i]);
            }
        }
    }

    /// The next turn of a run. The phases stand in a fixed order; a phase ends
    /// where all of its items are done, and an item that is on record as done
    /// is not worked on again.
    pub fn turn(&mut self, cancel: bool) -> (r: RunTurn)
        requires
            old(self).wf(),
        ensures
            final(self).wf(),
            old(self).turns(cancel, *final(self), r),
    {
        if !self.entered {
            let ghost before = *self;
            self.entered = true;
            assert forall|i: int|
                !has_stopped(self.phase) && 0 <= i
                    < self.hashes@.len() implies #[trigger] self.copy_is_sound(i) by {
                assert(before.copy_is_sound(i));
            }
            return RunTurn::Status(self.phase.status());
        }
        match self.phase {
            RunPhase::Completed | RunPhase::Cancelled | RunPhase::Failed => {
                return RunTurn::Over;
            },
            _ => {},
        }
        if self.next == self.total() {
            let ghost before = *self;
            self.phase = self.phase.next_phase();
            self.next = 0;
            assert forall|i: int| 0 <= i < self.hashes@.len() implies #[trigger] self.copy_is_sound(
                i,
            ) by {
                assert(before.copy_is_sound(i));
            }
            return RunTurn::Status(self.phase.status());
        }
        let finalizing = match self.phase {
            RunPhase::Finalizing => true,
            _ => false,
        };
        if !finalizing {
            if let Err(e) = check_cancel(cancel) {
                self.phase = RunPhase::Cancelled;
                self.entered = false;
                self.next = 0;
                return RunTurn::Stopped(e);
            }
        }
        let progress = self.progress();
        if self.is_on_record() {
            self.advance(None);
            return RunTurn::Skip(progress);
        }
        RunTurn::Do(progress, self.work())
    }

    /// Takes what came of the work on the next item. With success the run goes
    /// on behind it; otherwise it stops for good.
    pub fn finish(&mut self, outcome: Outcome) -> (v: StepVerdict)
        requires
            old(self).wf(),
            old(self).next < old(self).items(old(self).phase),
            outcome.is_of(old(self).phase),
        ensures
            final(self).wf(),
            old(self).finishes(outcome, *final(self), v),
    {
        let i = self.next;
        let mut hash: Option<String> = None;
        let v = match outcome {
            Outcome::Copied(r) => copy_verdict(&self.files[i], &r),
            Outcome::Hashed(staged, r) => {
                let v = verify_copy_verdict(&self.files[i], staged.as_str(), &r);
                if let Ok(h) = r {
                    hash = Some(h);
                }
                v
            },
            Outcome::NoZipDir(dir) => {
                let mut m: String = "failed to create zip dir ".to_owned();
                m.append(dir.as_str());
                open_verdict(StepStatus::Pending, m)
            },
            Outcome::Zipped(r) => zip_verdict(self.groups[i].zip_path.as_str(), &r),
            Outcome::ZipVerified(r) => verify_zip_verdict(self.groups[i].zip_path.as_str(), &r),
            Outcome::SourceDone(r) => delete_verdict(&self.files[i], &r),
            Outcome::Finalized(r) => match r {
                Ok(()) => done_verdict(),
                Err(why) => open_verdict(StepStatus::InProgress, why),
            },
        };
        match &v.stop {
            Some(e) => {
                self.phase = if was_cancelled(e) {
                    RunPhase::Cancelled
                } else {
                    RunPhase::Failed
                };
                self.entered = false;
                self.next = 0;
            },
            None => {
                self.advance(hash);
            },
        }
        v
    }
}

/// Whether a verdict leaves the step as it is and stops the run.
pub open spec fn verdict_open(v: StepVerdict, status: StepStatus, stop: Seq<char>) -> bool {
    &&& v.status == status
    &&& v.actual_hash is None
    &&& v.error_message is None
    &&& v.stop matches Some(e) && e.message@ == stop
}

fn open_verdict(status: StepStatus, message: String) -> (v: StepVerdict)
    ensures
        verdict_open(v, status, message@),
{
    StepVerdict {
        status,
        actual_hash: None,
        error_message: None,
        stop: Some(RunError { message }),
    }
}

/// The members of a group that are still to be zipped are members of it.
proof fn lemma_pending_members(
    group: ZipGroup,
    files: Seq<ArchiveOperationFile>,
    done: Seq<i64>,
    n: int,
)
    requires
        0 <= n <= group.members@.len(),
        forall|k: int| 0 <= k < group.members@.len() ==> group.members@[k] < files.len(),
    ensures
        forall|k: int|
            0 <= k < pending_members(group, files, done, n).len() ==> pending_members(
                group,
                files,
                done,
                n,
            )[k] < files.len(),
    decreases n,
{
    if n > 0 {
        lemma_pending_members(group, files, done, n - 1);
        let before = pending_members(group, files, done, n - 1);
        let now = pending_members(group, files, done, n);
        assert forall|k: int| 0 <= k < now.len() implies now[k] < files.len() by {
            if k < before.len() {
                assert(now[k] == before[k]);
            }
        }
    }
}

/// The run of an operation before its first turn; there is none where the
/// compression on record is not known.
pub fn run_operation(
    op: &ArchiveOperation,
    files: Vec<ArchiveOperationFile>,
    steps: &Vec<ArchiveOperationStep>,
) -> (r: Result<ArchiveRun, RunError>)
    ensures
        match ArchiveCompression::of_word(op.compression@) {
            Some(c) => r matches Ok(run) && {
                &&& run.is_fresh()
                &&& run.operation_id == op.id
                &&& run.compression == c
                &&& run.files == files
                &&& is_on_record_of(run.on_record, steps@)
            },
            None => r matches Err(e) && e.message@ == "invalid compression value: "@
                + op.compression@,
        },
{
    match ArchiveCompression::from_str(op.compression.as_str()) {
        None => {
            let mut m: String = "invalid compression value: ".to_owned();
            m.append(op.compression.as_str());
            Err(RunError { message: m })
        },
        Some(compression) => {
            let groups = group_by_zip(&files);
            Ok(
                ArchiveRun {
                    operation_id: op.id,
                    compression,
                    files,
                    groups,
                    on_record: OnRecord {
                        copied: existing_done_steps(steps, ArchiveStage::Copy),
                        verified: existing_done_steps(steps, ArchiveStage::VerifyCopy),
                        zipped: existing_done_steps(steps, ArchiveStage::ZipAdd),
                        deleted: existing_done_steps(steps, ArchiveStage::DeleteSource),
                    },
                    phase: RunPhase::Copying,
                    entered: false,
                    next: 0,
                    hashes: Vec::new(),
                    zips_verified: 0,
                },
            )
        },
    }
}

/// Whether `d` says of which files the steps of each stage are done.
pub open spec fn is_on_record_of(d: OnRecord, steps: Seq<ArchiveOperationStep>) -> bool {
    &&& forall|f: i64|
        d.copied@.contains(f) <==> #[trigger] step_is_done(steps, ArchiveStage::Copy, f)
    &&& forall|f: i64|
        d.verified@.contains(f) <==> #[trigger] step_is_done(steps, ArchiveStage::VerifyCopy, f)
    &&& forall|f: i64|
        d.zipped@.contains(f) <==> #[trigger] step_is_done(steps, ArchiveStage::ZipAdd, f)
    &&& forall|f: i64|
        d.deleted@.contains(f) <==> #[trigger] step_is_done(steps, ArchiveStage::DeleteSource, f)
}

/// No source is deleted before the copies of all files are known to be sound
/// and all zips, the one of the file among them, are verified.
pub proof fn law_sources_are_deleted_last(run: ArchiveRun, w: Work, i: int)
    requires
        run.wf(),
        run.files@.len() <= usize::MAX,
        run.is_work(w),
        !has_stopped(run.phase),
        w.task matches Task::RemoveSource(_),
        0 <= i < run.files@.len(),
    ensures
        run.hashes@.len() == run.files@.len(),
        run.copy_is_sound(i),
        run.zips_verified == run.groups@.len(),
        exists|g: int|
            0 <= g < run.zips_verified && (#[trigger] run.groups@[g]).zip_path@
                == run.files@[i].target_zip_path@ && run.groups@[g].members@.contains(i as usize),
{
    let n = run.files@.len() as int;
    law_no_file_is_lost(run.files@, n, i);
    let zips = zips_of(run.files@, n);
    let g = choose|g: int| 0 <= g < zips.len() && zips[g] == run.files@[i].target_zip_path@;
    assert(run.groups@[g].zip_path@ == zips[g]);
    assert(run.groups@[g].members@ == members_of(run.files@, zips[g], n));
    assert(run.copy_is_sound(i));
}

/// A run that has stopped gives its operation one more status: cancelled where
/// the user has stopped it, failed where something went wrong; the status is a
/// final one. Then there is nothing left to do.
pub proof fn law_a_stopped_run_gets_its_status(run: ArchiveRun, message: Seq<char>, cancel: bool)
    requires
        run.phase == phase_stopped_by(message),
    ensures
        !run.entered ==> run.turn_kind(cancel) == TurnKind::Status(run.phase),
        run.entered ==> run.turn_kind(cancel) == TurnKind::Over,
        run.phase.status_of() == stop_status_of(message),
        !run.phase.status_of().unfinished(),
        message == cancel_text() ==> run.phase.status_of() == ArchiveStatus::Cancelled,
{
    if message == cancel_text() {
        law_cancel_is_recognised(message);
    }
}

proof fn lemma_pending_are_not_done(
    group: ZipGroup,
    files: Seq<ArchiveOperationFile>,
    done: Seq<i64>,
    n: int,
    k: int,
)
    requires
        0 <= n <= group.members@.len(),
        0 <= k < pending_members(group, files, done, n).len(),
    ensures
        !done.contains(files[pending_members(group, files, done, n)[k] as int].id),
    decreases n,
{
    if n > 0 {
        let before = pending_members(group, files, done, n - 1);
        if k < before.len() {
            lemma_pending_are_not_done(group, files, done, n - 1, k);
            assert(pending_members(group, files, done, n)[k] == before[k]);
        }
    }
}

/// A run that is taken up again goes on where it was: no step that was on record
/// as done when it began is taken a second time.
pub proof fn law_no_step_is_taken_twice(
    run: ArchiveRun,
    steps: Seq<ArchiveOperationStep>,
    w: Work,
    k: int,
)
    requires
        run.wf(),
        is_on_record_of(run.on_record, steps),
        run.turn_kind(false) == TurnKind::Do,
        run.is_work(w),
        0 <= k < w.step_files@.len(),
        w.step_files@[k] is Some,
    ensures
        !step_is_done(steps, w.stage, w.step_files@[k]->0),
{
    if run.phase == RunPhase::Zipping {
        let g = run.next as int;
        let group = run.groups@[g];
        lemma_pending_are_not_done(
            group,
            run.files@,
            run.on_record.zipped@,
            group.members@.len() as int,
            k,
        );
    }
}

/// Only the source of a file that moves is deleted.
pub proof fn law_copied_files_keep_their_source(run: ArchiveRun, w: Work, i: usize)
    requires
        run.wf(),
        run.is_work(w),
        w.task == Task::RemoveSource(i),
    ensures
        is_moved(run.files@[i as int]),
{
}

} // verus!
