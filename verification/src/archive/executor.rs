//! Running an archive operation: what is done to which file, in which order,
//! and what becomes of the steps on record.
//!
//! Copying, hashing, zipping and deleting happen outside; each result comes
//! back as data and decides how the run goes on.

use crate::archive::models::{
    ArchiveOperationFile, ArchiveOperationStep, ArchiveStage, ArchiveStatus, StepStatus,
};
use crate::text::{contains_part, contains_text, same_text};
use vstd::prelude::*;
use vstd::string::*;

verus! {

/// How far a run has come, for whoever watches it.
#[derive(Debug, Clone)]
pub struct ArchiveProgress {
    pub operation_id: i64,
    pub stage: String,
    pub current: usize,
    pub total: usize,
    pub message: String,
}

/// Why a run stopped.
#[derive(Debug)]
pub struct RunError {
    pub message: String,
}

/// The text that marks a run stopped by the user.
pub open spec fn cancel_text() -> Seq<char> {
    "__archive_cancelled__"@
}

/// Stops the run where the user has asked for it.
pub fn check_cancel(cancel: bool) -> (r: Result<(), RunError>)
    ensures
        match r {
            Ok(()) => !cancel,
            Err(e) => cancel && e.message@ == cancel_text(),
        },
{
    if cancel {
        Err(RunError { message: "__archive_cancelled__".to_owned() })
    } else {
        Ok(())
    }
}

/// Whether an error tells that the user has stopped the run.
pub open spec fn tells_cancel(message: Seq<char>) -> bool {
    contains_part(message, cancel_text())
}

/// Whether a run was stopped by the user.
pub fn was_cancelled(err: &RunError) -> (r: bool)
    ensures
        r == tells_cancel(err.message@),
{
    contains_text(err.message.as_str(), "__archive_cancelled__")
}

/// The status that an operation gets when its run has stopped with an error.
pub open spec fn stop_status_of(message: Seq<char>) -> ArchiveStatus {
    if tells_cancel(message) {
        ArchiveStatus::Cancelled
    } else {
        ArchiveStatus::Failed
    }
}

/// The status that an operation gets when its run has stopped with an error:
/// cancelled where the user has stopped it, failed otherwise.
pub fn stop_status(err: &RunError) -> (r: ArchiveStatus)
    ensures
        r == stop_status_of(err.message@),
{
    if was_cancelled(err) {
        ArchiveStatus::Cancelled
    } else {
        ArchiveStatus::Failed
    }
}

/// A run that is stopped because the user asked for it is known as such.
pub proof fn law_cancel_is_recognised(message: Seq<char>)
    requires
        message == cancel_text(),
    ensures
        tells_cancel(message),
        stop_status_of(message) == ArchiveStatus::Cancelled,
{
    assert(message.subrange(0, message.len() as int) =~= message);
    assert(crate::text::stands_at(message, cancel_text(), 0));
}

/// What is told when the catalog is brought up to date: at first nothing is
/// done of one step, at last the one step is done.
pub fn finalize_progress(operation_id: i64, done: bool) -> (r: ArchiveProgress)
    ensures
        r.operation_id == operation_id,
        r.stage@ == "finalizing"@,
        r.current == if done {
            1usize
        } else {
            0usize
        },
        r.total == 1,
        r.message@ == if done {
            "Finalized"@
        } else {
            "Finalizing"@
        },
{
    ArchiveProgress {
        operation_id,
        stage: "finalizing".to_owned(),
        current: if done {
            1
        } else {
            0
        },
        total: 1,
        message: if done {
            "Finalized".to_owned()
        } else {
            "Finalizing".to_owned()
        },
    }
}

/// Whether some step of the given stage on a file is done.
pub open spec fn step_is_done(
    steps: Seq<ArchiveOperationStep>,
    stage: ArchiveStage,
    file: i64,
) -> bool {
    exists|i: int| 0 <= i < steps.len() && #[trigger] is_done_step(steps[i], stage, file)
}

/// Whether a step says that the given stage on a file is done.
pub open spec fn is_done_step(s: ArchiveOperationStep, stage: ArchiveStage, file: i64) -> bool {
    s.stage@ == stage.word() && s.status@ == StepStatus::Done.word() && s.operation_file_id == Some(
        file,
    )
}

/// The files of which the given stage is done, each once.
pub fn existing_done_steps(steps: &Vec<ArchiveOperationStep>, stage: ArchiveStage) -> (r: Vec<i64>)
    ensures
        forall|file: i64| r@.contains(file) <==> step_is_done(steps@, stage, file),
        r@.no_duplicates(),
{
    let mut out: Vec<i64> = Vec::new();
    let mut i: usize = 0;
    while i < steps.len()
        invariant
            i <= steps@.len(),
            forall|file: i64|
                #![trigger out@.contains(file)]
                out@.contains(file) <==> step_is_done(steps@.take(i as int), stage, file),
            out@.no_duplicates(),
        decreases steps@.len() - i,
    {
        let s = &steps[i];
        let ghost before = out@;
        let ghost seen = steps@.take(i as int);
        let ghost now = steps@.take(i + 1);
        let done = same_text(s.stage.as_str(), stage.as_str()) && same_text(
            s.status.as_str(),
            StepStatus::Done.as_str(),
        );
        let mut added: Option<i64> = None;
        if done {
            if let Some(file) = s.operation_file_id {
                if !holds_id(&out, file) {
                    out.push(file);
                }
                added = Some(file);
            }
        }
        assert forall|file: i64| out@.contains(file) <==> step_is_done(now, stage, file) by {
            if step_is_done(seen, stage, file) {
                let k = choose|k: int|
                    0 <= k < seen.len() && #[trigger] is_done_step(seen[k], stage, file);
                assert(now[k] == seen[k]);
                assert(is_done_step(now[k], stage, file));
            }
            if step_is_done(now, stage, file) {
                let k = choose|k: int|
                    0 <= k < now.len() && #[trigger] is_done_step(now[k], stage, file);
                if k < i {
                    assert(seen[k] == now[k]);
                    assert(is_done_step(seen[k], stage, file));
                }
            }
            if added == Some(file) {
                assert(is_done_step(now[i as int], stage, file));
            }
            if before.contains(file) {
                let k = choose|k: int| 0 <= k < before.len() && before[k] == file;
                assert(out@[k] == file);
            }
            if added == Some(file) && !before.contains(file) {
                assert(out@[before.len() as int] == file);
            }
        }
        i = i + 1;
    }
    assert(steps@.take(steps@.len() as int) =~= steps@);
    out
}

/// Whether an id stands in a list.
pub fn holds_id(ids: &Vec<i64>, id: i64) -> (r: bool)
    ensures
        r == ids@.contains(id),
{
    let mut i: usize = 0;
    while i < ids.len()
        invariant
            i <= ids@.len(),
            forall|k: int| 0 <= k < i ==> ids@[k] != id,
        decreases ids@.len() - i,
    {
        if ids[i] == id {
            assert(ids@[i as int] == id);
            return true;
        }
        i = i + 1;
    }
    false
}

/// What becomes of a step on record, and the error that stops the run if it
/// failed.
#[derive(Debug)]
pub struct StepVerdict {
    pub status: StepStatus,
    pub actual_hash: Option<String>,
    pub error_message: Option<String>,
    pub stop: Option<RunError>,
}

/// Whether a verdict says that the step is done, with the given hash.
pub open spec fn verdict_done(v: StepVerdict, hash: Option<Seq<char>>) -> bool {
    &&& v.status == StepStatus::Done
    &&& match hash {
        Some(h) => v.actual_hash matches Some(a) && a@ == h,
        None => v.actual_hash is None,
    }
    &&& v.error_message is None
    &&& v.stop is None
}

/// Whether a verdict says that the step failed: what goes on record, and what
/// the run stops with.
pub open spec fn verdict_failed(
    v: StepVerdict,
    hash: Option<Seq<char>>,
    recorded: Seq<char>,
    stop: Seq<char>,
) -> bool {
    &&& v.status == StepStatus::Failed
    &&& match hash {
        Some(h) => v.actual_hash matches Some(a) && a@ == h,
        None => v.actual_hash is None,
    }
    &&& v.error_message matches Some(m) && m@ == recorded
    &&& v.stop matches Some(e) && e.message@ == stop
}

pub(crate) fn done_verdict() -> (v: StepVerdict)
    ensures
        verdict_done(v, None),
{
    StepVerdict {
        status: StepStatus::Done,
        actual_hash: None,
        error_message: None,
        stop: None,
    }
}

/// A failure of the form `<what> <whom>: <why>`.
fn failed_verdict(what: &str, whom: &str, why: &str) -> (v: StepVerdict)
    ensures
        verdict_failed(v, None, why@, what@ + whom@ + ": "@ + why@),
{
    let mut stop: String = what.to_owned();
    stop.append(whom);
    stop.append(": ");
    stop.append(why);
    StepVerdict {
        status: StepStatus::Failed,
        actual_hash: None,
        error_message: Some(why.to_owned()),
        stop: Some(RunError { message: stop }),
    }
}

/// What becomes of the step that copies a file into the staging area.
pub fn copy_verdict(f: &ArchiveOperationFile, copied: &Result<(), String>) -> (v: StepVerdict)
    ensures
        match copied {
            Ok(()) => verdict_done(v, None),
            Err(why) => verdict_failed(
                v,
                None,
                why@,
                "copy failed for "@ + f.source_path@ + ": "@ + why@,
            ),
        },
{
    match copied {
        Ok(()) => done_verdict(),
        Err(why) => failed_verdict("copy failed for ", f.source_path.as_str(), why.as_str()),
    }
}

/// What is said of a hash that is not the expected one.
pub open spec fn mismatch_text(f: ArchiveOperationFile, actual: Seq<char>) -> Seq<char> {
    "hash mismatch for "@ + f.source_path@ + ": expected "@ + f.expected_hash@ + ", got "@ + actual
}

/// What becomes of the step that verifies a staged copy: the copy must have
/// the hash that the source had when the plan was made.
pub fn verify_copy_verdict(
    f: &ArchiveOperationFile,
    staged: &str,
    hashed: &Result<String, String>,
) -> (v: StepVerdict)
    ensures
        match hashed {
            Ok(actual) => if actual@ == f.expected_hash@ {
                verdict_done(v, Some(actual@))
            } else {
                verdict_failed(
                    v,
                    Some(actual@),
                    mismatch_text(*f, actual@),
                    mismatch_text(*f, actual@),
                )
            },
            Err(why) => verdict_failed(
                v,
                None,
                why@,
                "hash failed for staged "@ + staged@ + ": "@ + why@,
            ),
        },
{
    match hashed {
        Err(why) => failed_verdict("hash failed for staged ", staged, why.as_str()),
        Ok(actual) => {
            if same_text(actual.as_str(), f.expected_hash.as_str()) {
                StepVerdict {
                    status: StepStatus::Done,
                    actual_hash: Some(actual.clone()),
                    error_message: None,
                    stop: None,
                }
            } else {
                let mut m: String = "hash mismatch for ".to_owned();
                m.append(f.source_path.as_str());
                m.append(": expected ");
                m.append(f.expected_hash.as_str());
                m.append(", got ");
                m.append(actual.as_str());
                StepVerdict {
                    status: StepStatus::Failed,
                    actual_hash: Some(actual.clone()),
                    error_message: Some(m.clone()),
                    stop: Some(RunError { message: m }),
                }
            }
        },
    }
}

/// What becomes of the steps of the files that go into one zip.
pub fn zip_verdict(zip_path: &str, built: &Result<(), String>) -> (v: StepVerdict)
    ensures
        match built {
            Ok(()) => verdict_done(v, None),
            Err(why) => verdict_failed(
                v,
                None,
                why@,
                "zip build failed for "@ + zip_path@ + ": "@ + why@,
            ),
        },
{
    match built {
        Ok(()) => done_verdict(),
        Err(why) => failed_verdict("zip build failed for ", zip_path, why.as_str()),
    }
}

/// What becomes of the step that verifies one zip.
pub fn verify_zip_verdict(zip_path: &str, verified: &Result<(), String>) -> (v: StepVerdict)
    ensures
        match verified {
            Ok(()) => verdict_done(v, None),
            Err(why) => verdict_failed(
                v,
                None,
                why@,
                "zip verification failed for "@ + zip_path@ + ": "@ + why@,
            ),
        },
{
    match verified {
        Ok(()) => done_verdict(),
        Err(why) => failed_verdict("zip verification failed for ", zip_path, why.as_str()),
    }
}

/// Whether the source of a file goes away: only that of a file that moves.
pub open spec fn is_moved(f: ArchiveOperationFile) -> bool {
    f.disposition@ == "move"@
}

/// Whether the source of a file has to be removed: it moves and is still
/// there.
pub fn source_needs_removal(f: &ArchiveOperationFile, exists: bool) -> (r: bool)
    ensures
        r == (is_moved(*f) && exists),
{
    exists && same_text(f.disposition.as_str(), "move")
}

/// What came of the removal of a file.
#[derive(Debug)]
pub enum Removal {
    Removed,
    /// The file stays where it is.
    Kept,
    /// The file was gone already.
    NotFound,
    Failed(String),
}

/// What becomes of the step that deletes a source. A source that is gone
/// already counts as deleted.
pub fn delete_verdict(f: &ArchiveOperationFile, removal: &Removal) -> (v: StepVerdict)
    ensures
        match removal {
            Removal::Failed(why) => verdict_failed(
                v,
                None,
                why@,
                "delete failed for "@ + f.source_path@ + ": "@ + why@,
            ),
            _ => verdict_done(v, None),
        },
{
    match removal {
        Removal::Failed(why) => {
            failed_verdict("delete failed for ", f.source_path.as_str(), why.as_str())
        },
        _ => done_verdict(),
    }
}

/// The files of one zip, by their places in the list of files.
#[derive(Debug)]
pub struct ZipGroup {
    pub zip_path: String,
    pub members: Vec<usize>,
}

/// The places, among the first `n` files, of those that go into a zip.
pub open spec fn members_of(files: Seq<ArchiveOperationFile>, zip: Seq<char>, n: int) -> Seq<usize>
    decreases n,
{
    if n <= 0 {
        Seq::empty()
    } else if files[n - 1].target_zip_path@ == zip {
        members_of(files, zip, n - 1).push((n - 1) as usize)
    } else {
        members_of(files, zip, n - 1)
    }
}

/// The zips of the first `n` files, in the order in which they are first met.
pub open spec fn zips_of(files: Seq<ArchiveOperationFile>, n: int) -> Seq<Seq<char>>
    decreases n,
{
    if n <= 0 {
        Seq::empty()
    } else {
        let before = zips_of(files, n - 1);
        if before.contains(files[n - 1].target_zip_path@) {
            before
        } else {
            before.push(files[n - 1].target_zip_path@)
        }
    }
}

/// Whether the groups hold the first `n` files, one group for each zip.
pub open spec fn are_groups(
    groups: Seq<ZipGroup>,
    files: Seq<ArchiveOperationFile>,
    n: int,
) -> bool {
    &&& groups.len() == zips_of(files, n).len()
    &&& forall|g: int|
        0 <= g < groups.len() ==> {
            &&& (#[trigger] groups[g]).zip_path@ == zips_of(files, n)[g]
            &&& groups[g].members@ == members_of(files, groups[g].zip_path@, n)
        }
}

proof fn lemma_no_members(files: Seq<ArchiveOperationFile>, zip: Seq<char>, n: int)
    requires
        0 <= n <= files.len(),
        !zips_of(files, n).contains(zip),
    ensures
        members_of(files, zip, n) == Seq::<usize>::empty(),
    decreases n,
{
    if n > 0 {
        let before = zips_of(files, n - 1);
        let t = files[n - 1].target_zip_path@;
        if before.contains(zip) {
            let k = choose|k: int| 0 <= k < before.len() && before[k] == zip;
            assert(zips_of(files, n)[k] == zip);
        }
        if t == zip && !before.contains(t) {
            assert(zips_of(files, n)[before.len() as int] == zip);
        }
        lemma_no_members(files, zip, n - 1);
    }
}

proof fn lemma_zips_distinct(files: Seq<ArchiveOperationFile>, n: int)
    requires
        0 <= n <= files.len(),
    ensures
        zips_of(files, n).no_duplicates(),
    decreases n,
{
    if n > 0 {
        lemma_zips_distinct(files, n - 1);
    }
}

/// The files by the zips that they go into: one group for each zip, with all
/// of its files in order.
pub fn group_by_zip(files: &Vec<ArchiveOperationFile>) -> (r: Vec<ZipGroup>)
    ensures
        are_groups(r@, files@, files@.len() as int),
        zips_of(files@, files@.len() as int).no_duplicates(),
{
    let mut groups: Vec<ZipGroup> = Vec::new();
    let mut i: usize = 0;
    while i < files.len()
        invariant
            i <= files@.len(),
            are_groups(groups@, files@, i as int),
        decreases files@.len() - i,
    {
        let zip = &files[i].target_zip_path;
        let ghost before = groups@;
        let ghost zips = zips_of(files@, i as int);
        let mut g: usize = 0;
        while g < groups.len() && !same_text(groups[g].zip_path.as_str(), zip.as_str())
            invariant
                g <= groups@.len(),
                groups@ == before,
                forall|k: int| 0 <= k < g ==> (#[trigger] groups@[k]).zip_path@ != zip@,
            decreases groups@.len() - g,
        {
            g = g + 1;
        }
        if g < groups.len() {
            let mut members: Vec<usize> = Vec::new();
            members.append(&mut groups[g].members.clone());
            members.push(i);
            proof {
                lemma_zips_distinct(files@, i as int);
                assert(zips[g as int] == zip@);
                assert(zips.contains(zip@));
            }
            groups.set(g, ZipGroup { zip_path: zip.clone(), members });
            assert(groups@[g as int].members@ =~= before[g as int].members@.push(i));
            assert forall|k: int| 0 <= k < groups@.len() implies {
                &&& (#[trigger] groups@[k]).zip_path@ == zips_of(files@, i as int + 1)[k]
                &&& groups@[k].members@ == members_of(
                    files@,
                    groups@[k].zip_path@,
                    i as int + 1,
                )
            } by {
                if k != g {
                    assert(groups@[k] == before[k]);
                    assert(zips[k] != zips[g as int]);
                }
            }
        } else {
            let mut members: Vec<usize> = Vec::new();
            members.push(i);
            assert(!zips.contains(zip@)) by {
                if zips.contains(zip@) {
                    let k = choose|k: int| 0 <= k < zips.len() && zips[k] == zip@;
                    assert(before[k].zip_path@ == zip@);
                }
            }
            proof {
                lemma_no_members(files@, zip@, i as int);
            }
            groups.push(ZipGroup { zip_path: zip.clone(), members });
            assert(groups@.last().members@ =~= members_of(files@, zip@, i as int + 1));
            assert forall|k: int| 0 <= k < groups@.len() implies {
                &&& (#[trigger] groups@[k]).zip_path@ == zips_of(files@, i as int + 1)[k]
                &&& groups@[k].members@ == members_of(
                    files@,
                    groups@[k].zip_path@,
                    i as int + 1,
                )
            } by {
                if k < before.len() {
                    assert(groups@[k] == before[k]);
                    assert(before[k].zip_path@ != zip@);
                }
            }
        }
        i = i + 1;
    }
    proof {
        lemma_zips_distinct(files@, files@.len() as int);
    }
    groups
}

/// The members of a group whose step is still to be done.
pub open spec fn pending_members(
    group: ZipGroup,
    files: Seq<ArchiveOperationFile>,
    done: Seq<i64>,
    n: int,
) -> Seq<usize>
    decreases n,
{
    if n <= 0 {
        Seq::empty()
    } else if done.contains(files[group.members@[n - 1] as int].id) {
        pending_members(group, files, done, n - 1)
    } else {
        pending_members(group, files, done, n - 1).push(group.members@[n - 1])
    }
}

/// The members of a group whose step is still to be done, in order. A zip
/// without any is not built again.
pub fn pending_in_group(group: &ZipGroup, files: &Vec<ArchiveOperationFile>, done: &Vec<i64>) -> (r:
    Vec<usize>)
    requires
        forall|k: int| 0 <= k < group.members@.len() ==> group.members@[k] < files@.len(),
    ensures
        r@ == pending_members(*group, files@, done@, group.members@.len() as int),
{
    let mut out: Vec<usize> = Vec::new();
    let mut k: usize = 0;
    while k < group.members.len()
        invariant
            k <= group.members@.len(),
            forall|k: int| 0 <= k < group.members@.len() ==> group.members@[k] < files@.len(),
            out@ == pending_members(*group, files@, done@, k as int),
        decreases group.members@.len() - k,
    {
        let m = group.members[k];
        if !holds_id(done, files[m].id) {
            out.push(m);
        }
        k = k + 1;
    }
    out
}

/// Where the members of a group go in their zip.
pub fn group_entries(group: &ZipGroup, files: &Vec<ArchiveOperationFile>) -> (r: Vec<String>)
    requires
        forall|k: int| 0 <= k < group.members@.len() ==> group.members@[k] < files@.len(),
    ensures
        r@.len() == group.members@.len(),
        forall|k: int|
            0 <= k < r@.len() ==> (#[trigger] r@[k])@
                == files@[group.members@[k] as int].target_path_in_zip@,
{
    let mut out: Vec<String> = Vec::new();
    let mut k: usize = 0;
    while k < group.members.len()
        invariant
            k <= group.members@.len(),
            out@.len() == k,
            forall|k: int| 0 <= k < group.members@.len() ==> group.members@[k] < files@.len(),
            forall|j: int|
                0 <= j < k ==> (#[trigger] out@[j])@
                    == files@[group.members@[j] as int].target_path_in_zip@,
        decreases group.members@.len() - k,
    {
        out.push(files[group.members[k]].target_path_in_zip.clone());
        k = k + 1;
    }
    out
}

/// Every member of a group stands in the list of files and goes into the zip
/// of the group.
pub proof fn law_members_belong(files: Seq<ArchiveOperationFile>, zip: Seq<char>, n: int, k: int)
    requires
        0 <= n <= files.len() <= usize::MAX,
        0 <= k < members_of(files, zip, n).len(),
    ensures
        members_of(files, zip, n)[k] < n,
        files[members_of(files, zip, n)[k] as int].target_zip_path@ == zip,
    decreases n,
{
    if n > 0 {
        if k < members_of(files, zip, n - 1).len() {
            law_members_belong(files, zip, n - 1, k);
        }
    }
}

/// No file is lost: each is a member of the group of its zip.
pub proof fn law_no_file_is_lost(files: Seq<ArchiveOperationFile>, n: int, i: int)
    requires
        0 <= i < n <= files.len() <= usize::MAX,
    ensures
        zips_of(files, n).contains(files[i].target_zip_path@),
        members_of(files, files[i].target_zip_path@, n).contains(i as usize),
    decreases n,
{
    let zip = files[i].target_zip_path@;
    if i < n - 1 {
        law_no_file_is_lost(files, n - 1, i);
        let zs = zips_of(files, n - 1);
        let a = choose|a: int| 0 <= a < zs.len() && zs[a] == zip;
        assert(zips_of(files, n)[a] == zip);
        let ms = members_of(files, zip, n - 1);
        let b = choose|b: int| 0 <= b < ms.len() && ms[b] == i as usize;
        assert(members_of(files, zip, n)[b] == i as usize);
    } else {
        let zs = zips_of(files, n - 1);
        if !zs.contains(zip) {
            assert(zips_of(files, n)[zs.len() as int] == zip);
        }
        let ms = members_of(files, zip, n - 1);
        assert(members_of(files, zip, n)[ms.len() as int] == i as usize);
    }
}

/// A file of the catalog that is marked as archived.
#[derive(Debug)]
pub struct ArchivedMark {
    pub file_id: i64,
    pub archive_zip_path: String,
    pub archive_path_in_zip: String,
}

/// The places of those of the first `n` files that are marked as archived:
/// the ones that moved and that the catalog knows.
pub open spec fn marked_places(files: Seq<ArchiveOperationFile>, n: int) -> Seq<int>
    decreases n,
{
    if n <= 0 {
        Seq::empty()
    } else if is_moved(files[n - 1]) && files[n - 1].file_id is Some {
        marked_places(files, n - 1).push(n - 1)
    } else {
        marked_places(files, n - 1)
    }
}

/// Whether `m` marks the file `f`.
pub open spec fn is_mark_of(m: ArchivedMark, f: ArchiveOperationFile) -> bool {
    &&& f.file_id == Some(m.file_id)
    &&& m.archive_zip_path@ == f.target_zip_path@
    &&& m.archive_path_in_zip@ == f.target_path_in_zip@
}

/// Whether `marks` marks the files that are marked as archived, one each and in
/// their order.
pub open spec fn are_marks(marks: Seq<ArchivedMark>, files: Seq<ArchiveOperationFile>) -> bool {
    let places = marked_places(files, files.len() as int);
    &&& marks.len() == places.len()
    &&& forall|k: int| 0 <= k < marks.len() ==> is_mark_of(#[trigger] marks[k], files[places[k]])
}

/// The files that are marked as archived at the end of a run.
pub fn archived_marks(files: &Vec<ArchiveOperationFile>) -> (r: Vec<ArchivedMark>)
    ensures
        are_marks(r@, files@),
{
    let mut out: Vec<ArchivedMark> = Vec::new();
    let mut i: usize = 0;
    while i < files.len()
        invariant
            i <= files@.len(),
            out@.len() == marked_places(files@, i as int).len(),
            forall|k: int|
                0 <= k < out@.len() ==> is_mark_of(
                    #[trigger] out@[k],
                    files@[marked_places(files@, i as int)[k]],
                ),
        decreases files@.len() - i,
    {
        let f = &files[i];
        let ghost before = out@;
        if same_text(f.disposition.as_str(), "move") {
            if let Some(file_id) = f.file_id {
                out.push(
                    ArchivedMark {
                        file_id,
                        archive_zip_path: f.target_zip_path.clone(),
                        archive_path_in_zip: f.target_path_in_zip.clone(),
                    },
                );
            }
        }
        assert forall|k: int| 0 <= k < out@.len() implies is_mark_of(
            #[trigger] out@[k],
            files@[marked_places(files@, i as int + 1)[k]],
        ) by {
            if k < before.len() {
                assert(out@[k] == before[k]);
            }
        }
        i = i + 1;
    }
    out
}

} // verus!
