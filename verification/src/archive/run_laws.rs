//! What holds of every run of an archive operation, from its first turn to where
//! it stands.

use crate::archive::executor::{
    archived_marks, is_done_step, is_mark_of, law_no_file_is_lost, marked_places, pending_members,
    step_is_done, zips_of, ArchivedMark, Removal, RunError, StepVerdict, ZipGroup,
};
use crate::archive::models::{
    ArchiveCompression, ArchiveOperation, ArchiveOperationFile, ArchiveOperationStep, ArchiveStage,
    ArchiveStatus, StepStatus,
};
use crate::archive::run::{
    has_stopped, is_on_record_of, run_operation, ArchiveRun, OnRecord, Outcome, RunPhase, RunTurn,
    Task,
};
use crate::text::stands_at;
use vstd::prelude::*;

verus! {

/// What happens in a run: it is asked for its next turn, with the word whether the
/// user wants it to stop, or it is told what came of the work on an item.
pub enum RunEvent {
    Turned(bool, RunTurn),
    Finished(Outcome, StepVerdict),
}

/// Whether the event leads from one state of a run to the next.
pub open spec fn happens(before: ArchiveRun, e: RunEvent, after: ArchiveRun) -> bool {
    &&& before.wf()
    &&& match e {
        RunEvent::Turned(cancel, r) => before.turns(cancel, after, r),
        RunEvent::Finished(o, v) => {
            &&& before.next < before.items(before.phase)
            &&& o.is_of(before.phase)
            &&& before.finishes(o, after, v)
        },
    }
}

/// Whether `states` are the states that a run goes through from its beginning,
/// each led to by the event before it.
pub open spec fn is_course(states: Seq<ArchiveRun>, events: Seq<RunEvent>) -> bool {
    &&& states.len() == events.len() + 1
    &&& states[0].is_fresh()
    &&& states[0].files@.len() <= usize::MAX
    &&& forall|k: int|
        0 <= k < events.len() ==> happens(states[k], #[trigger] events[k], states[k + 1])
}

/// Asking a run for its next turn, and telling it what came of its work, are steps of
/// its course.
pub proof fn law_each_call_is_a_step(
    asked: &mut ArchiveRun,
    cancel: bool,
    r: RunTurn,
    told: &mut ArchiveRun,
    o: Outcome,
    v: StepVerdict,
)
    requires
        old(asked).wf(),
        call_ensures(ArchiveRun::turn, (asked, cancel), r),
        old(told).wf(),
        old(told).next < old(told).items(old(told).phase),
        o.is_of(old(told).phase),
        call_ensures(ArchiveRun::finish, (told, o), v),
    ensures
        happens(*old(asked), RunEvent::Turned(cancel, r), *final(asked)),
        happens(*old(told), RunEvent::Finished(o, v), *final(told)),
{
}

/// Whether an outcome tells that something went wrong.
pub open spec fn tells_error(o: Outcome) -> bool {
    match o {
        Outcome::Copied(Err(_)) => true,
        Outcome::Hashed(_, Err(_)) => true,
        Outcome::NoZipDir(_) => true,
        Outcome::Zipped(Err(_)) => true,
        Outcome::ZipVerified(Err(_)) => true,
        Outcome::SourceDone(Removal::Failed(_)) => true,
        Outcome::Finalized(Err(_)) => true,
        _ => false,
    }
}

/// What goes wrong stops the run: no step is recorded as done for it, and no turn
/// behind it asks for work. A copy with another hash than its source counts among
/// it. All else is recorded as done and lets the run go on.
pub proof fn law_an_error_stops_the_run(
    run: ArchiveRun,
    o: Outcome,
    after: ArchiveRun,
    v: StepVerdict,
    cancel: bool,
    later: ArchiveRun,
    r: RunTurn,
)
    requires
        happens(run, RunEvent::Finished(o, v), after),
        after.turns(cancel, later, r),
    ensures
        ({
            let bad_hash = o matches Outcome::Hashed(_, Ok(h)) && h@
                != run.files@[run.next as int].expected_hash@;
            if tells_error(o) || bad_hash {
                &&& v.stop is Some
                &&& v.status != StepStatus::Done
                &&& after.phase == RunPhase::Failed || after.phase == RunPhase::Cancelled
                &&& r is Status
                &&& r == RunTurn::Status(ArchiveStatus::Failed) || r == RunTurn::Status(
                    ArchiveStatus::Cancelled,
                )
            } else {
                &&& v.stop is None
                &&& v.status == StepStatus::Done
                &&& v.error_message is None
                &&& after.phase == run.phase
                &&& after.next == run.next + 1
            }
        }),
        o matches Outcome::Copied(Err(why)) ==> v.status == StepStatus::Failed && (
        v.error_message matches Some(m) && m@ == why@),
        o matches Outcome::Zipped(Err(why)) ==> v.status == StepStatus::Failed && (
        v.error_message matches Some(m) && m@ == why@),
        o matches Outcome::ZipVerified(Err(why)) ==> v.status == StepStatus::Failed && (
        v.error_message matches Some(m) && m@ == why@),
        o matches Outcome::SourceDone(Removal::Failed(why)) ==> v.status == StepStatus::Failed && (
        v.error_message matches Some(m) && m@ == why@),
        o matches Outcome::Hashed(_, Err(why)) ==> v.status == StepStatus::Failed && (
        v.error_message matches Some(m) && m@ == why@),
        o matches Outcome::Hashed(_, Ok(h)) ==> (v.actual_hash matches Some(a) && a@ == h@),
        v.stop matches Some(e) ==> {
            let i = run.next as int;
            &&& after.phase == RunPhase::Cancelled <==> exists|k: int|
                #[trigger] stands_at(e.message@, "__archive_cancelled__"@, k)
            &&& match o {
                Outcome::Copied(Err(why)) => e.message@ == "copy failed for "@
                    + run.files@[i].source_path@ + ": "@ + why@,
                Outcome::Hashed(staged, Err(why)) => e.message@ == "hash failed for staged "@
                    + staged@ + ": "@ + why@,
                Outcome::Hashed(_, Ok(h)) => e.message@ == "hash mismatch for "@
                    + run.files@[i].source_path@ + ": expected "@ + run.files@[i].expected_hash@
                    + ", got "@ + h@,
                Outcome::NoZipDir(dir) => e.message@ == "failed to create zip dir "@ + dir@,
                Outcome::Zipped(Err(why)) => e.message@ == "zip build failed for "@
                    + run.groups@[i].zip_path@ + ": "@ + why@,
                Outcome::ZipVerified(Err(why)) => e.message@ == "zip verification failed for "@
                    + run.groups@[i].zip_path@ + ": "@ + why@,
                Outcome::SourceDone(Removal::Failed(why)) => e.message@ == "delete failed for "@
                    + run.files@[i].source_path@ + ": "@ + why@,
                Outcome::Finalized(Err(why)) => e.message@ == why@,
                _ => false,
            }
        },
{
}

/// The place of a phase in the order of the phases.
pub open spec fn place(phase: RunPhase) -> int {
    match phase {
        RunPhase::Copying => 0,
        RunPhase::Verifying => 1,
        RunPhase::Zipping => 2,
        RunPhase::ZipVerifying => 3,
        RunPhase::DeletingSources => 4,
        RunPhase::Finalizing => 5,
        RunPhase::Completed => 6,
        RunPhase::Cancelled => 7,
        RunPhase::Failed => 7,
    }
}

/// Whether the event settles an item of a phase: it is done, or was on record as
/// done before.
spec fn settles(s: ArchiveRun, e: RunEvent, phase: RunPhase, i: int) -> bool {
    &&& s.phase == phase
    &&& s.next == i
    &&& match e {
        RunEvent::Turned(_, r) => r is Skip,
        RunEvent::Finished(_, v) => v.stop is None,
    }
}

spec fn is_settled(
    states: Seq<ArchiveRun>,
    events: Seq<RunEvent>,
    n: int,
    phase: RunPhase,
    i: int,
) -> bool {
    exists|k: int| 0 <= k < n && settles(states[k], #[trigger] events[k], phase, i)
}

spec fn is_behind(s: ArchiveRun, phase: RunPhase, i: int) -> bool {
    &&& place(phase) < 6
    &&& 0 <= i < s.items(phase)
    &&& place(phase) < place(s.phase) || (phase == s.phase && i < s.next)
}

proof fn lemma_course(
    states: Seq<ArchiveRun>,
    events: Seq<RunEvent>,
    n: int,
    phase: RunPhase,
    i: int,
)
    requires
        is_course(states, events),
        0 <= n < states.len(),
    ensures
        states[n].wf(),
        states[n].same_run(states[0]),
        !has_stopped(states[n].phase) && is_behind(states[n], phase, i) ==> is_settled(
            states,
            events,
            n,
            phase,
            i,
        ),
    decreases n,
{
    if n > 0 {
        lemma_course(states, events, n - 1, phase, i);
        let s = states[n - 1];
        let e = events[n - 1];
        assert(happens(s, e, states[n]));
        if !has_stopped(states[n].phase) && is_behind(states[n], phase, i) {
            if is_behind(s, phase, i) {
                let k = choose|k: int|
                    0 <= k < n - 1 && settles(states[k], #[trigger] events[k], phase, i);
                assert(settles(states[k], events[k], phase, i));
            } else {
                assert(settles(s, e, phase, i));
            }
        }
    }
}

proof fn lemma_stopped_stays(states: Seq<ArchiveRun>, events: Seq<RunEvent>, k: int, n: int)
    requires
        is_course(states, events),
        0 <= k <= n < states.len(),
        has_stopped(states[k].phase),
    ensures
        has_stopped(states[n].phase),
    decreases n - k,
{
    if k < n {
        lemma_stopped_stays(states, events, k, n - 1);
        assert(happens(states[n - 1], events[n - 1], states[n]));
    }
}

/// Whether at `k` the zip of group `g` was found to be sound.
pub open spec fn zip_found_sound(
    states: Seq<ArchiveRun>,
    events: Seq<RunEvent>,
    k: int,
    g: int,
) -> bool {
    &&& states[k].phase == RunPhase::ZipVerifying
    &&& states[k].next == g
    &&& events[k] matches RunEvent::Finished(Outcome::ZipVerified(Ok(_)), v) && v.status
        == StepStatus::Done
}

/// Whether the zip of group `g` was found to be sound before `n`.
pub open spec fn zip_is_sound(
    states: Seq<ArchiveRun>,
    events: Seq<RunEvent>,
    n: int,
    g: int,
) -> bool {
    exists|k: int| 0 <= k < n && #[trigger] zip_found_sound(states, events, k, g)
}

/// Whether at `k` the copy of file `j` was found to have the hash of its source.
pub open spec fn copy_found_sound(
    states: Seq<ArchiveRun>,
    events: Seq<RunEvent>,
    k: int,
    j: int,
) -> bool {
    &&& states[k].phase == RunPhase::Verifying
    &&& states[k].next == j
    &&& events[k] matches RunEvent::Finished(Outcome::Hashed(_, Ok(h)), v) && h@
        == states[0].files@[j].expected_hash@
}

/// A source is asked to be removed only where its file moves, and only in a run in
/// which nothing went wrong so far: every zip was opened and found to be sound, and
/// so was every copy, in this run or, as the record says, in an earlier one.
pub proof fn law_sources_go_only_on_good_results(
    states: Seq<ArchiveRun>,
    events: Seq<RunEvent>,
    n: int,
    i: usize,
)
    requires
        is_course(states, events),
        0 <= n < events.len(),
        events[n] matches RunEvent::Turned(_, RunTurn::Do(_, w)) && w.task == Task::RemoveSource(i),
    ensures
        i < states[0].files@.len(),
        states[0].files@[i as int].disposition@ == "move"@,
        forall|k: int|
            0 <= k < n ==> ((#[trigger] events[k]) matches RunEvent::Finished(o, v) ==> !tells_error(
                o,
            ) && v.status == StepStatus::Done && v.stop is None),
        forall|g: int|
            0 <= g < states[0].groups@.len() ==> #[trigger] zip_is_sound(states, events, n, g),
        forall|j: int|
            0 <= j < states[0].files@.len() ==> states[0].on_record.verified@.contains(
                #[trigger] states[0].files@[j].id,
            ) || exists|k: int| 0 <= k < n && #[trigger] copy_found_sound(states, events, k, j),
{
    let s = states[n];
    lemma_course(states, events, n, RunPhase::Copying, 0);
    assert(happens(s, events[n], states[n + 1]));
    assert forall|k: int| 0 <= k < n implies ((#[trigger] events[k]) matches RunEvent::Finished(
        o,
        v,
    ) ==> !tells_error(o) && v.status == StepStatus::Done && v.stop is None) by {
        assert(happens(states[k], events[k], states[k + 1]));
        if has_stopped(states[k + 1].phase) {
            lemma_stopped_stays(states, events, k + 1, n);
        }
    }
    assert forall|g: int| 0 <= g < states[0].groups@.len() implies #[trigger] zip_is_sound(
        states,
        events,
        n,
        g,
    ) by {
        lemma_course(states, events, n, RunPhase::ZipVerifying, g);
        assert(is_behind(s, RunPhase::ZipVerifying, g));
        let k = choose|k: int|
            0 <= k < n && settles(states[k], #[trigger] events[k], RunPhase::ZipVerifying, g);
        assert(happens(states[k], events[k], states[k + 1]));
        assert(zip_found_sound(states, events, k, g));
    }
    assert forall|j: int| 0 <= j < states[0].files@.len() implies states[0].on_record.verified@.contains(
        #[trigger] states[0].files@[j].id,
    ) || exists|k: int| 0 <= k < n && #[trigger] copy_found_sound(states, events, k, j) by {
        lemma_course(states, events, n, RunPhase::Verifying, j);
        assert(is_behind(s, RunPhase::Verifying, j));
        let k = choose|k: int|
            0 <= k < n && settles(states[k], #[trigger] events[k], RunPhase::Verifying, j);
        lemma_course(states, events, k, RunPhase::Copying, 0);
        assert(happens(states[k], events[k], states[k + 1]));
        if events[k] is Finished {
            assert(copy_found_sound(states, events, k, j));
        }
    }
}

/// Whether at `k` the work on item `i` of a phase came to a good end.
pub open spec fn went_well(
    states: Seq<ArchiveRun>,
    events: Seq<RunEvent>,
    k: int,
    phase: RunPhase,
    i: int,
) -> bool {
    &&& states[k].phase == phase
    &&& states[k].next == i
    &&& events[k] matches RunEvent::Finished(o, v) && !tells_error(o) && o.is_of(phase)
}

/// Whether file `j` went into the zip of group `g`, the one that the plan gives
/// it, in this run or as the record says, and the zip was found to be sound.
pub open spec fn is_in_sound_zip(
    states: Seq<ArchiveRun>,
    events: Seq<RunEvent>,
    n: int,
    j: int,
    g: int,
) -> bool {
    let run = states[0];
    &&& 0 <= g < run.groups@.len()
    &&& run.groups@[g].zip_path@ == run.files@[j].target_zip_path@
    &&& run.groups@[g].members@.contains(j as usize)
    &&& zip_is_sound(states, events, n, g)
    &&& run.on_record.zipped@.contains(run.files@[j].id) || exists|k: int|
        0 <= k < n && #[trigger] went_well(states, events, k, RunPhase::Zipping, g)
}

/// Whether file `j` is in a zip that was found to be sound.
pub open spec fn is_archived(
    states: Seq<ArchiveRun>,
    events: Seq<RunEvent>,
    n: int,
    j: int,
) -> bool {
    exists|g: int| #[trigger] is_in_sound_zip(states, events, n, j, g)
}

proof fn lemma_nothing_pending(
    group: ZipGroup,
    files: Seq<ArchiveOperationFile>,
    done: Seq<i64>,
    n: int,
    m: int,
)
    requires
        0 <= m < n <= group.members@.len(),
        pending_members(group, files, done, n).len() == 0,
    ensures
        done.contains(files[group.members@[m] as int].id),
    decreases n,
{
    if m < n - 1 {
        lemma_nothing_pending(group, files, done, n - 1, m);
    }
}

/// A run that completes has left nothing out: every file was copied, its copy was
/// found sound, its zip was built and found sound, its source was dealt with, and
/// the catalog was brought up to date. Only what the record said to be done before
/// the run was not done in it, and of that the zips are opened all the same.
pub proof fn law_a_completed_run_has_done_everything(
    states: Seq<ArchiveRun>,
    events: Seq<RunEvent>,
    n: int,
)
    requires
        is_course(states, events),
        0 <= n < states.len(),
        states[n].phase == RunPhase::Completed,
    ensures
        forall|j: int|
            0 <= j < states[0].files@.len() ==> {
                let id = (#[trigger] states[0].files@[j]).id;
                let was = states[0].on_record;
                &&& was.copied@.contains(id) || exists|k: int|
                    0 <= k < n && #[trigger] went_well(states, events, k, RunPhase::Copying, j)
                &&& was.verified@.contains(id) || exists|k: int|
                    0 <= k < n && #[trigger] copy_found_sound(states, events, k, j)
                &&& was.deleted@.contains(id) || exists|k: int|
                    0 <= k < n && #[trigger] went_well(
                        states,
                        events,
                        k,
                        RunPhase::DeletingSources,
                        j,
                    )
            },
        forall|j: int|
            0 <= j < states[0].files@.len() ==> #[trigger] is_archived(states, events, n, j),
        exists|k: int|
            0 <= k < n && #[trigger] went_well(states, events, k, RunPhase::Finalizing, 0),
        forall|k: int|
            0 <= k < n ==> ((#[trigger] events[k]) matches RunEvent::Finished(o, _)
                ==> !tells_error(o)),
{
    let s = states[n];
    lemma_course(states, events, n, RunPhase::Copying, 0);
    assert forall|k: int| 0 <= k < n implies ((#[trigger] events[k]) matches RunEvent::Finished(
        o,
        _,
    ) ==> !tells_error(o)) by {
        assert(happens(states[k], events[k], states[k + 1]));
        if has_stopped(states[k + 1].phase) {
            lemma_stopped_stays(states, events, k + 1, n);
        }
    }
    assert forall|j: int| 0 <= j < states[0].files@.len() implies {
        let id = (#[trigger] states[0].files@[j]).id;
        let was = states[0].on_record;
        &&& was.copied@.contains(id) || exists|k: int|
            0 <= k < n && #[trigger] went_well(states, events, k, RunPhase::Copying, j)
        &&& was.verified@.contains(id) || exists|k: int|
            0 <= k < n && #[trigger] copy_found_sound(states, events, k, j)
        &&& was.deleted@.contains(id) || exists|k: int|
            0 <= k < n && #[trigger] went_well(states, events, k, RunPhase::DeletingSources, j)
    } by {
        lemma_settled_or_on_record(states, events, n, RunPhase::Copying, j);
        lemma_settled_or_on_record(states, events, n, RunPhase::Verifying, j);
        lemma_settled_or_on_record(states, events, n, RunPhase::DeletingSources, j);
        if !states[0].on_record.verified@.contains(states[0].files@[j].id) {
            let k = choose|k: int|
                0 <= k < n && #[trigger] went_well(states, events, k, RunPhase::Verifying, j);
            lemma_course(states, events, k, RunPhase::Copying, 0);
            assert(happens(states[k], events[k], states[k + 1]));
            if has_stopped(states[k + 1].phase) {
                lemma_stopped_stays(states, events, k + 1, n);
            }
            assert(copy_found_sound(states, events, k, j));
        }
    }
    assert forall|j: int| 0 <= j < states[0].files@.len() implies #[trigger] is_archived(
        states,
        events,
        n,
        j,
    ) by {
        let files = states[0].files@;
        let groups = states[0].groups@;
        let count = files.len() as int;
        let zip = files[j].target_zip_path@;
        law_no_file_is_lost(files, count, j);
        let zips = zips_of(files, count);
        let g = choose|g: int| 0 <= g < zips.len() && zips[g] == zip;
        assert(groups[g].zip_path@ == zips[g]);
        let m = choose|m: int|
            0 <= m < groups[g].members@.len() && groups[g].members@[m] == j as usize;
        lemma_settled_or_on_record(states, events, n, RunPhase::Zipping, g);
        lemma_settled_or_on_record(states, events, n, RunPhase::ZipVerifying, g);
        let k = choose|k: int|
            0 <= k < n && #[trigger] went_well(states, events, k, RunPhase::ZipVerifying, g);
        assert(happens(states[k], events[k], states[k + 1]));
        assert(zip_found_sound(states, events, k, g));
        if states[0].pending(g).len() == 0 {
            lemma_nothing_pending(
                groups[g],
                files,
                states[0].on_record.zipped@,
                groups[g].members@.len() as int,
                m,
            );
        }
        assert(is_in_sound_zip(states, events, n, j, g));
    }
    lemma_settled_or_on_record(states, events, n, RunPhase::Finalizing, 0);
}

proof fn lemma_settled_or_on_record(
    states: Seq<ArchiveRun>,
    events: Seq<RunEvent>,
    n: int,
    phase: RunPhase,
    i: int,
)
    requires
        is_course(states, events),
        0 <= n < states.len(),
        states[n].phase == RunPhase::Completed,
        place(phase) < 6,
        0 <= i < states[0].items(phase),
    ensures
        ({
            let was = states[0].on_record;
            let id = states[0].files@[i].id;
            ||| phase == RunPhase::Copying && was.copied@.contains(id)
            ||| phase == RunPhase::Verifying && was.verified@.contains(id)
            ||| phase == RunPhase::Zipping && states[0].pending(i).len() == 0
            ||| phase == RunPhase::DeletingSources && was.deleted@.contains(id)
            ||| exists|k: int| 0 <= k < n && #[trigger] went_well(states, events, k, phase, i)
        }),
{
    lemma_course(states, events, n, phase, i);
    assert(is_behind(states[n], phase, i));
    let k = choose|k: int| 0 <= k < n && settles(states[k], #[trigger] events[k], phase, i);
    lemma_course(states, events, k, phase, i);
    assert(happens(states[k], events[k], states[k + 1]));
    if events[k] is Finished {
        assert(went_well(states, events, k, phase, i));
    }
}

/// The phases follow one another in their order. A phase is left only when all of
/// its items are behind the run, and the operation then gets the status of the
/// phase that is entered.
pub proof fn law_phases_follow_in_order(
    run: ArchiveRun,
    cancel: bool,
    after: ArchiveRun,
    r: RunTurn,
)
    requires
        run.wf(),
        run.turns(cancel, after, r),
    ensures
        after.phase != run.phase && r is Status ==> {
            &&& place(after.phase) == place(run.phase) + 1
            &&& after.phase != RunPhase::Cancelled && after.phase != RunPhase::Failed
            &&& after.next == 0
            &&& match run.phase {
                RunPhase::Copying | RunPhase::Verifying | RunPhase::DeletingSources => run.next
                    == run.files@.len(),
                RunPhase::Zipping | RunPhase::ZipVerifying => run.next == run.groups@.len(),
                _ => run.next == 1,
            }
        },
        after.phase != run.phase && !(r is Status) ==> {
            &&& cancel
            &&& r is Stopped
            &&& after.phase == RunPhase::Cancelled
            &&& place(run.phase) < place(RunPhase::Finalizing)
        },
        r matches RunTurn::Status(s) ==> match after.phase {
            RunPhase::Copying => s == ArchiveStatus::Copying,
            RunPhase::Verifying => s == ArchiveStatus::Verifying,
            RunPhase::Zipping => s == ArchiveStatus::Zipping,
            RunPhase::ZipVerifying => s == ArchiveStatus::ZipVerifying,
            RunPhase::DeletingSources => s == ArchiveStatus::DeletingSources,
            RunPhase::Finalizing => s == ArchiveStatus::Finalizing,
            RunPhase::Completed => s == ArchiveStatus::Completed,
            RunPhase::Cancelled => s == ArchiveStatus::Cancelled,
            RunPhase::Failed => s == ArchiveStatus::Failed,
        },
        cancel && r is Do ==> run.phase == RunPhase::Finalizing,
        r is Over ==> place(run.phase) >= 6,
{
}

/// What a run asks to be done is the work of its phase on the next item, with a
/// step of that stage for each file that it is about. Only a source that moves is
/// removed; of a zip only the files that are not in it on record get a step.
pub proof fn law_work_is_of_its_phase(
    run: ArchiveRun,
    cancel: bool,
    after: ArchiveRun,
    r: RunTurn,
)
    requires
        run.wf(),
        run.turns(cancel, after, r),
    ensures
        r matches RunTurn::Do(p, w) ==> {
            let i = run.next as int;
            &&& p.operation_id == run.operation_id
            &&& p.total == match run.phase {
                RunPhase::Copying | RunPhase::Verifying | RunPhase::DeletingSources =>
                    run.files@.len(),
                RunPhase::Zipping | RunPhase::ZipVerifying => run.groups@.len(),
                _ => 1,
            }
            &&& run.phase != RunPhase::Finalizing ==> p.current == run.next + 1
            &&& p.stage@ == match run.phase {
                RunPhase::Copying => "copying"@,
                RunPhase::Verifying => "verifying"@,
                RunPhase::Zipping => "zipping"@,
                RunPhase::ZipVerifying => "zip_verifying"@,
                RunPhase::DeletingSources => "deleting_sources"@,
                _ => "finalizing"@,
            }
            &&& match run.phase {
                RunPhase::Copying => {
                    &&& w.task == Task::Copy(run.next)
                    &&& w.stage == ArchiveStage::Copy
                    &&& w.step_files@ == seq![Some(run.files@[i].id)]
                    &&& !run.on_record.copied@.contains(run.files@[i].id)
                },
                RunPhase::Verifying => {
                    &&& w.task == Task::Hash(run.next)
                    &&& w.stage == ArchiveStage::VerifyCopy
                    &&& w.step_files@ == seq![Some(run.files@[i].id)]
                    &&& !run.on_record.verified@.contains(run.files@[i].id)
                },
                RunPhase::Zipping => {
                    &&& w.task == Task::BuildZip(run.next)
                    &&& w.stage == ArchiveStage::ZipAdd
                    &&& w.step_files@.len() > 0
                },
                RunPhase::ZipVerifying => {
                    &&& w.task == Task::VerifyZip(run.next)
                    &&& w.stage == ArchiveStage::VerifyZip
                    &&& w.step_files@ == seq![None::<i64>]
                },
                RunPhase::DeletingSources => {
                    &&& w.task == if run.files@[i].disposition@ == "move"@ {
                        Task::RemoveSource(run.next)
                    } else {
                        Task::KeepSource(run.next)
                    }
                    &&& w.stage == ArchiveStage::DeleteSource
                    &&& w.step_files@ == seq![Some(run.files@[i].id)]
                    &&& !run.on_record.deleted@.contains(run.files@[i].id)
                },
                _ => {
                    &&& run.phase == RunPhase::Finalizing
                    &&& w.task == Task::Finalize
                    &&& w.stage == ArchiveStage::Finalize
                    &&& w.step_files@ == seq![None::<i64>]
                },
            }
        },
{
}

proof fn lemma_done_steps(d: OnRecord, steps: Seq<ArchiveOperationStep>, file: i64)
    requires
        is_on_record_of(d, steps),
    ensures
        d.copied@.contains(file) <==> exists|i: int|
            0 <= i < steps.len() && (#[trigger] steps[i]).stage@ == "copy"@ && steps[i].status@
                == "done"@ && steps[i].operation_file_id == Some(file),
        d.verified@.contains(file) <==> exists|i: int|
            0 <= i < steps.len() && (#[trigger] steps[i]).stage@ == "verify_copy"@
                && steps[i].status@ == "done"@ && steps[i].operation_file_id == Some(file),
        d.zipped@.contains(file) <==> exists|i: int|
            0 <= i < steps.len() && (#[trigger] steps[i]).stage@ == "zip_add"@ && steps[i].status@
                == "done"@ && steps[i].operation_file_id == Some(file),
        d.deleted@.contains(file) <==> exists|i: int|
            0 <= i < steps.len() && (#[trigger] steps[i]).stage@ == "delete_source"@
                && steps[i].status@ == "done"@ && steps[i].operation_file_id == Some(file),
{
    assert forall|stage: ArchiveStage|
        #[trigger] step_is_done(steps, stage, file) <==> exists|i: int|
            0 <= i < steps.len() && (#[trigger] steps[i]).stage@ == stage.word() && steps[i].status@
                == "done"@ && steps[i].operation_file_id == Some(file) by {
        if step_is_done(steps, stage, file) {
            let i = choose|i: int|
                0 <= i < steps.len() && #[trigger] is_done_step(steps[i], stage, file);
            assert(steps[i].stage@ == stage.word());
        }
        if exists|i: int|
            0 <= i < steps.len() && (#[trigger] steps[i]).stage@ == stage.word() && steps[i].status@
                == "done"@ && steps[i].operation_file_id == Some(file) {
            let i = choose|i: int|
                0 <= i < steps.len() && (#[trigger] steps[i]).stage@ == stage.word()
                    && steps[i].status@ == "done"@ && steps[i].operation_file_id == Some(file);
            assert(is_done_step(steps[i], stage, file));
        }
    }
    assert(d.copied@.contains(file) <==> step_is_done(steps, ArchiveStage::Copy, file));
    assert(d.verified@.contains(file) <==> step_is_done(steps, ArchiveStage::VerifyCopy, file));
    assert(d.zipped@.contains(file) <==> step_is_done(steps, ArchiveStage::ZipAdd, file));
    assert(d.deleted@.contains(file) <==> step_is_done(steps, ArchiveStage::DeleteSource, file));
}

/// A run begins with the first phase, with the files of the operation and its
/// compression, which must be one of the two that there are.
pub proof fn law_a_run_begins_from_the_record(
    op: ArchiveOperation,
    files: Vec<ArchiveOperationFile>,
    recorded: Vec<ArchiveOperationStep>,
    r: Result<ArchiveRun, RunError>,
)
    requires
        call_ensures(run_operation, (&op, files, &recorded), r),
    ensures
        r is Ok <==> op.compression@ == "store"@ || op.compression@ == "deflate"@,
        r matches Err(e) ==> e.message@ == "invalid compression value: "@ + op.compression@,
        r matches Ok(run) ==> {
            &&& run.is_fresh()
            &&& run.phase == RunPhase::Copying
            &&& run.operation_id == op.id
            &&& run.files == files
            &&& run.compression == ArchiveCompression::Store <==> op.compression@ == "store"@
        },
{
    reveal_strlit("store");
    reveal_strlit("deflate");
    assert("store"@[0] == 's' && "deflate"@[0] == 'd');
}

/// A run that is taken up again trusts the record only where it says of a file, in so
/// many words, that a stage is done.
pub proof fn law_only_done_steps_are_trusted(
    op: ArchiveOperation,
    files: Vec<ArchiveOperationFile>,
    recorded: Vec<ArchiveOperationStep>,
    run: ArchiveRun,
    file: i64,
)
    requires
        call_ensures(
            run_operation,
            (&op, files, &recorded),
            Ok::<ArchiveRun, RunError>(run),
        ),
    ensures
        run.on_record.copied@.contains(file) <==> exists|i: int|
            0 <= i < recorded@.len() && (#[trigger] recorded@[i]).stage@ == "copy"@ && recorded@[i].status@
                == "done"@ && recorded@[i].operation_file_id == Some(file),
        run.on_record.verified@.contains(file) <==> exists|i: int|
            0 <= i < recorded@.len() && (#[trigger] recorded@[i]).stage@ == "verify_copy"@
                && recorded@[i].status@ == "done"@ && recorded@[i].operation_file_id == Some(file),
        run.on_record.zipped@.contains(file) <==> exists|i: int|
            0 <= i < recorded@.len() && (#[trigger] recorded@[i]).stage@ == "zip_add"@ && recorded@[i].status@
                == "done"@ && recorded@[i].operation_file_id == Some(file),
        run.on_record.deleted@.contains(file) <==> exists|i: int|
            0 <= i < recorded@.len() && (#[trigger] recorded@[i]).stage@ == "delete_source"@
                && recorded@[i].status@ == "done"@ && recorded@[i].operation_file_id == Some(file),
{
    lemma_done_steps(run.on_record, recorded@, file);
}

/// An item is passed over only where the record says that it is done, and of a zip
/// where it says so of each of its files. No zip is passed over when the zips are
/// opened, and the catalog is always brought up to date.
pub proof fn law_only_what_is_done_is_passed_over(
    run: ArchiveRun,
    cancel: bool,
    after: ArchiveRun,
    r: RunTurn,
    m: int,
)
    requires
        run.wf(),
        run.turns(cancel, after, r),
        r is Skip,
    ensures
        !cancel,
        ({
            let i = run.next as int;
            match run.phase {
                RunPhase::Copying => run.on_record.copied@.contains(run.files@[i].id),
                RunPhase::Verifying => run.on_record.verified@.contains(run.files@[i].id),
                RunPhase::Zipping => 0 <= m < run.groups@[i].members@.len()
                    ==> run.on_record.zipped@.contains(
                    run.files@[run.groups@[i].members@[m] as int].id,
                ),
                RunPhase::DeletingSources => run.on_record.deleted@.contains(run.files@[i].id),
                _ => false,
            }
        }),
{
    let i = run.next as int;
    if run.phase == RunPhase::Zipping && 0 <= m < run.groups@[i].members@.len() {
        lemma_nothing_pending(
            run.groups@[i],
            run.files@,
            run.on_record.zipped@,
            run.groups@[i].members@.len() as int,
            m,
        );
    }
}

proof fn lemma_marked(files: Seq<ArchiveOperationFile>, n: int, j: int)
    requires
        0 <= n <= files.len(),
    ensures
        marked_places(files, n).contains(j) <==> 0 <= j < n && files[j].disposition@ == "move"@
            && files[j].file_id is Some,
    decreases n,
{
    if n > 0 {
        lemma_marked(files, n - 1, j);
        let before = marked_places(files, n - 1);
        let now = marked_places(files, n);
        if before.contains(j) {
            let k = choose|k: int| 0 <= k < before.len() && before[k] == j;
            assert(now[k] == j);
        }
        if now.contains(j) {
            let k = choose|k: int| 0 <= k < now.len() && now[k] == j;
            if k < before.len() {
                assert(before[k] == j);
            }
        }
        if now != before {
            assert(now[before.len() as int] == n - 1);
        }
    }
}

/// At the end of a run the catalog is told of each file that moved where it lies
/// now, and of no other file.
pub proof fn law_moved_files_are_marked(
    all: Vec<ArchiveOperationFile>,
    r: Vec<ArchivedMark>,
    j: int,
    k: int,
)
    requires
        call_ensures(archived_marks, (&all,), r),
    ensures
        0 <= j < all@.len() && all@[j].disposition@ == "move"@ && all@[j].file_id is Some
            ==> exists|m: int|
            0 <= m < r@.len() && Some((#[trigger] r@[m]).file_id) == all@[j].file_id
                && r@[m].archive_zip_path@ == all@[j].target_zip_path@
                && r@[m].archive_path_in_zip@ == all@[j].target_path_in_zip@,
        0 <= k < r@.len() ==> exists|i: int|
            0 <= i < all@.len() && (#[trigger] all@[i]).disposition@ == "move"@
                && all@[i].file_id == Some(r@[k].file_id) && r@[k].archive_zip_path@
                == all@[i].target_zip_path@ && r@[k].archive_path_in_zip@
                == all@[i].target_path_in_zip@,
{
    let files = all@;
    let marks = r@;
    let n = files.len() as int;
    let places = marked_places(files, n);
    lemma_marked(files, n, j);
    if 0 <= j < n && files[j].disposition@ == "move"@ && files[j].file_id is Some {
        let m = choose|m: int| 0 <= m < places.len() && places[m] == j;
        assert(is_mark_of(marks[m], files[places[m]]));
    }
    if 0 <= k < marks.len() {
        lemma_marked(files, n, places[k]);
        assert(places.contains(places[k]));
        assert(is_mark_of(marks[k], files[places[k]]));
    }
}

} // verus!
