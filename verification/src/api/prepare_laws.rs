//! What holds of every package that is prepared.

use crate::api::sync::node_id::hex_of;
use crate::api::sync::rows::{Direction, OutboundRow, OutboundState};
use crate::api::sync::selection::BankedHash;
use crate::api::sync::status_laws::is_text;
use crate::api::sync::transfer_files::SyncEventRow;
use crate::api::sync_prepare::{
    are_corrected, bank_prepared_hashes, first_unplanned, generate_payload, generated_frames,
    generated_places, generates, handover, hash_at, heal_interrupted_preparations, is_corrected, is_generated, is_healed,
    kept_places, needs_generation, open_generation, planned_size, preparing_places, promote_row, spawn_prepare,
    stage_records, staged_size, still_preparing, tells_of_healing, terminalize, BankCandidate, Calibration, Ending,
    FinishedNote, GenerationFacts, Handover, HealedRow, PlannedRecord, PrepareError,
    PrepareOutcome, PrepareSource, PrepareVerdict, StageFault, StagedFile, StagedPackage,
    StagingAction, StagingRun,
};
use crate::text::signed_decimal;
use vstd::prelude::*;

verus! {

proof fn lemma_first_unplanned(plans: Seq<Result<(), String>>, i: int)
    requires
        0 <= i <= plans.len(),
    ensures
        i <= first_unplanned(plans, i) <= plans.len(),
        first_unplanned(plans, i) < plans.len() ==> plans[first_unplanned(plans, i)] is Err,
        forall|k: int| i <= k < first_unplanned(plans, i) ==> #[trigger] plans[k] is Ok,
    decreases plans.len() - i,
{
    if i < plans.len() && plans[i] is Ok {
        lemma_first_unplanned(plans, i + 1);
    }
}

/// Whether one of the first `n` files is made from the frame.
pub open spec fn is_made_from(rs: Seq<PlannedRecord>, n: int, id: i64) -> bool {
    exists|k: int|
        0 <= k < n && ((#[trigger] rs[k]).source matches PrepareSource::Generate { frame_id }
            && frame_id == id)
}

proof fn lemma_generated(rs: Seq<PlannedRecord>, n: int, id: i64, p: int)
    requires
        0 <= n <= rs.len(),
    ensures
        generated_frames(rs, n).contains(id) <==> is_made_from(rs, n, id),
        generated_places(rs, n).contains(p) <==> 0 <= p < n && rs[p].source is Generate,
    decreases n,
{
    if n > 0 {
        lemma_generated(rs, n - 1, id, p);
        let f0 = generated_frames(rs, n - 1);
        let f1 = generated_frames(rs, n);
        let p0 = generated_places(rs, n - 1);
        let p1 = generated_places(rs, n);
        if f0.contains(id) {
            let k = choose|k: int| 0 <= k < f0.len() && f0[k] == id;
            assert(f1[k] == id);
        }
        if f1.contains(id) {
            let k = choose|k: int| 0 <= k < f1.len() && f1[k] == id;
            if k < f0.len() {
                assert(f0[k] == id);
            }
        }
        if p0.contains(p) {
            let k = choose|k: int| 0 <= k < p0.len() && p0[k] == p;
            assert(p1[k] == p);
        }
        if p1.contains(p) {
            let k = choose|k: int| 0 <= k < p1.len() && p1[k] == p;
            if k < p0.len() {
                assert(p0[k] == p);
            }
        }
        if rs[n - 1].source is Generate {
            assert(f1[f0.len() as int] == rs[n - 1].source->frame_id);
            assert(p1[p0.len() as int] == n - 1);
        }
        if is_made_from(rs, n - 1, id) {
            let k = choose|k: int|
                0 <= k < n - 1 && ((
                #[trigger] rs[k]).source matches PrepareSource::Generate { frame_id } && frame_id
                    == id);
            assert(rs[k].source is Generate);
        }
    }
}

/// Lights are calibrated only with options that the user chose, only where a turn was
/// given and the catalog is there, and only where each of them can be: one light that
/// cannot be calibrated fails the package and is named. The frames that are calibrated
/// are just those that the plan makes files from.
pub proof fn law_calibrating_is_all_or_nothing(
    records: Vec<PlannedRecord>,
    gen_opts: Option<String>,
    f: GenerationFacts,
    r: Result<Vec<i64>, PrepareError>,
    id: i64,
)
    requires
        call_ensures(open_generation, (&records, &gen_opts, &f), r),
        gen_opts is Some && f.admitted && f.catalog is Ok ==> f.plans@.len() == generated_places(
            records@,
            records@.len() as int,
        ).len(),
    ensures
        r is Ok <==> gen_opts is Some && f.admitted && f.catalog is Ok && forall|k: int|
            0 <= k < f.plans@.len() ==> #[trigger] f.plans@[k] is Ok,
        r matches Ok(frames) ==> (frames@.contains(id) <==> is_made_from(records@, records@.len() as int, id)),
        r == Err::<Vec<i64>, PrepareError>(PrepareError::Cancelled) <==> gen_opts is Some
            && !f.admitted,
        r matches Err(PrepareError::Failed { reason, culprit: Some(c) }) ==> exists|p: int|
            0 <= p < records@.len() && (#[trigger] records@[p]).source is Generate && c.rel_path@
                == records@[p].record.rel_path@ && reason@ == c.rel_path@ + ": "@ + c.error@,
        gen_opts is None ==> (r matches Err(PrepareError::Failed { reason, culprit: None })
            && reason@ == "calibrated-light options missing from the plan"@),
{
    let rs = records@;
    let n = rs.len() as int;
    let at = generated_places(rs, n);
    lemma_first_unplanned(f.plans@, 0);
    lemma_generated(rs, n, id, 0);
    let k = first_unplanned(f.plans@, 0);
    if gen_opts is Some && f.admitted && f.catalog is Ok && k < f.plans@.len() {
        assert(at.contains(at[k]));
        lemma_generated(rs, n, id, at[k]);
        assert(rs[at[k]].source is Generate);
    }
}

/// The manifest says of each file what it is: the hash that it has, the size that it
/// has, and for the rest what was planned. The size of a copy is the planned one; the
/// size of a file that was made is the one that it came out with. What is told of the
/// package is the number of its files and the sum of the sizes that the manifest gives.
pub proof fn law_manifest_says_what_was_staged(run: StagingRun, package: StagedPackage, k: int)
    requires
        run.done().len() == run.plan().len(),
        call_ensures(StagingRun::corrected, (&run,), package) || call_ensures(
            StagingRun::finish,
            (run, Ok::<(), String>(())),
            Ok::<StagedPackage, PrepareError>(package),
        ),
    ensures
        package.records@.len() == run.plan().len(),
        package.stats.files == run.plan().len(),
        package.stats.bytes == planned_size(package.records@, package.records@.len() as int),
        0 <= k < run.plan().len() ==> {
            let qs = package.records@;
            let ps = run.plan();
            let staged = run.done();
            let q = qs[k].record;
            let p = ps[k].record;
            &&& q.xxh3@ == staged[k].xxh3@
            &&& ps[k].source is Copy ==> q.byte_size == p.byte_size
            &&& ps[k].source is Generate ==> q.byte_size == staged[k].byte_size
            &&& qs[k].source == ps[k].source
            &&& q.v == p.v
            &&& q.frame_uuid@ == p.frame_uuid@
            &&& q.origin_catalog_uuid@ == p.origin_catalog_uuid@
            &&& q.origin_device@ == p.origin_device@
            &&& q.payload_kind == p.payload_kind
            &&& q.rel_path@ == p.rel_path@
            &&& q.frame_meta@ == p.frame_meta@
            &&& q.analysis == p.analysis
            &&& q.app_version@ == p.app_version@
            &&& q.project == p.project
        },
{
    lemma_sizes(package.records@, run.plan(), run.done(), run.plan().len() as int);
    if 0 <= k < run.plan().len() {
        assert(is_corrected(package.records@[k], run.plan()[k], run.done()[k]));
    }
}

proof fn lemma_sizes(
    qs: Seq<PlannedRecord>,
    ps: Seq<PlannedRecord>,
    staged: Seq<StagedFile>,
    n: int,
)
    requires
        are_corrected(qs, ps, staged, ps.len() as int),
        0 <= n <= ps.len(),
    ensures
        planned_size(qs, n) == staged_size(ps, staged, n),
    decreases n,
{
    if n > 0 {
        lemma_sizes(qs, ps, staged, n - 1);
        assert(is_corrected(qs[n - 1], ps[n - 1], staged[n - 1]));
    }
}

/// Of each file that was made, and of no other, the real size is told.
pub proof fn law_real_sizes_are_told(
    run: StagingRun,
    package: StagedPackage,
    k: int,
    p: int,
)
    requires
        run.done().len() == run.plan().len(),
        call_ensures(StagingRun::corrected, (&run,), package) || call_ensures(
            StagingRun::finish,
            (run, Ok::<(), String>(())),
            Ok::<StagedPackage, PrepareError>(package),
        ),
    ensures
        0 <= k < package.generated_sizes@.len() ==> exists|q: int|
            0 <= q < run.plan().len() && (#[trigger] run.plan()[q]).source is Generate && package.generated_sizes@[k].rel_path@
                == run.plan()[q].record.rel_path@ && package.generated_sizes@[k].size == run.done()[q].byte_size,
        0 <= p < run.plan().len() && run.plan()[p].source is Generate ==> exists|j: int|
            0 <= j < package.generated_sizes@.len() && (#[trigger] package.generated_sizes@[j]).rel_path@ == run.plan()[p].record.rel_path@ && package.generated_sizes@[j].size
                == run.done()[p].byte_size,
{
    let v = package.generated_sizes@;
    let ps = run.plan();
    let staged = run.done();
    let n = ps.len() as int;
    let at = generated_places(ps, n);
    lemma_generated(ps, n, 0, p);
    if 0 <= k < v.len() {
        assert(at.contains(at[k]));
        lemma_generated(ps, n, 0, at[k]);
        assert(ps[at[k]].source is Generate);
    }
    if 0 <= p < n && ps[p].source is Generate {
        let j = choose|j: int| 0 <= j < at.len() && at[j] == p;
        assert(v[j].size == staged[p].byte_size);
    }
}

/// A file is copied from where the plan says, or made from the frame that the plan
/// says, to its place in the package, one after the other; the manifest is written when
/// all of them are there, and not before.
pub proof fn law_each_file_comes_from_its_source(run: StagingRun, a: StagingAction)
    requires
        call_ensures(StagingRun::next_action, (&run,), a),
    ensures
        a is WriteManifest <==> run.done().len() == run.plan().len(),
        run.done().len() < run.plan().len() ==> {
            let p = run.plan()[run.done().len() as int];
            &&& p.source matches PrepareSource::Copy(from) ==> (a matches StagingAction::Copy {
                path,
                rel_path,
                size,
            } && path@ == from@ && rel_path@ == p.record.rel_path@ && size == p.record.byte_size)
            &&& p.source matches PrepareSource::Generate { frame_id } ==> (
            a matches StagingAction::Generate { frame_id: id, rel_path, size } && id == frame_id
                && rel_path@ == p.record.rel_path@ && size == p.record.byte_size)
        },
{
}

/// How a preparation ends, for each way in which it can come out: what the user has
/// stopped is cancelled without a reason on record, what went wrong has failed with
/// the reason and the file that is to blame, and only what is whole is handed over.
pub proof fn law_preparation_ends_as_it_came_out(
    v: PrepareVerdict,
    claimed: bool,
    cancel_raised: bool,
    outcome: PrepareOutcome,
)
    requires
        call_ensures(spawn_prepare, (claimed, cancel_raised, outcome), v),
    ensures
        v is Discard <==> !claimed,
        v is Promote <==> claimed && outcome is Staged && !cancel_raised,
        outcome matches PrepareOutcome::Staged(stats) ==> (v matches PrepareVerdict::Promote(s) ==> s
            == stats),
        claimed && (outcome == PrepareOutcome::Stopped(PrepareError::Cancelled) || (outcome
            is Staged && cancel_raised)) ==> (v matches PrepareVerdict::End(e) && e.state
            == OutboundState::Cancelled && e.last_error is None && e.outcome@ == "cancelled"@
            && e.culprit is None),
        claimed && outcome is SlotClosed ==> (v matches PrepareVerdict::End(e) && e.state
            == OutboundState::Failed && e.outcome@ == "failed"@ && e.culprit is None && is_text(
            e.last_error,
            "preparation failed: "@ + "preparation slot closed"@,
        )),
        claimed ==> (outcome matches PrepareOutcome::Stopped(
            PrepareError::Failed { reason, culprit },
        ) ==> (v matches PrepareVerdict::End(e) && e.state == OutboundState::Failed && e.outcome@
            == "failed"@ && e.culprit == culprit && is_text(
            e.last_error,
            "preparation failed: "@ + reason@,
        ))),
        claimed ==> (outcome matches PrepareOutcome::Panicked(why) ==> (
        v matches PrepareVerdict::End(e) && e.state == OutboundState::Failed && e.outcome@
            == "failed"@ && e.culprit is None && is_text(
            e.last_error,
            "preparation failed: "@ + ("worker panicked: "@ + why@),
        ))),
{
}

/// A transfer that never got to the sender ends as it is said to: its state and the
/// reason go on record and nothing else changes, the journal tells one that was
/// cancelled from one that failed, and the user is told of that transfer.
pub proof fn law_the_end_goes_on_record(
    row: &mut OutboundRow,
    end: &Ending,
    now: &str,
    r: (SyncEventRow, FinishedNote),
)
    requires
        call_ensures(terminalize, (row, end, now), r),
    ensures
        final(row).state == end.state,
        final(row).last_error == end.last_error,
        final(row).id == old(row).id,
        final(row).peer == old(row).peer,
        final(row).package_ref@ == old(row).package_ref@,
        final(row).attempts == old(row).attempts,
        end.state == OutboundState::Cancelled ==> r.0.kind@ == "cancelled"@,
        end.state == OutboundState::Failed ==> r.0.kind@ == "prepare_failed"@,
        r.0.detail == end.last_error,
        r.0.ts@ == now@,
        r.0.direction == Direction::Sent,
        r.0.batch_key@ == signed_decimal(old(row).id as int),
        r.1.package_id@ == signed_decimal(old(row).id as int),
        r.1.direction == Direction::Sent,
        r.1.outcome@ == end.outcome@,
        r.1.peer_device@ == hex_of(old(row).peer@),
{
}

/// A transfer is handed to the sender once: only while it is being prepared, and then
/// it is queued and not being prepared any more. What came of the writing decides what
/// is done.
pub proof fn law_a_transfer_is_handed_over_once(
    row: &mut OutboundRow,
    r: Handover,
    written: Result<bool, String>,
    h: Handover,
)
    requires
        call_ensures(promote_row, (row,), r),
        call_ensures(handover, (written,), h),
    ensures
        r == Handover::Drive <==> old(row).state == OutboundState::Preparing,
        r == Handover::Discard <==> old(row).state != OutboundState::Preparing,
        old(row).state == OutboundState::Preparing ==> final(row).state == OutboundState::Queued,
        old(row).state != OutboundState::Preparing ==> *final(row) == *old(row),
        final(row).id == old(row).id,
        final(row).package_ref@ == old(row).package_ref@,
        written == Ok::<bool, String>(true) <==> h == Handover::Drive,
        written == Ok::<bool, String>(false) <==> h == Handover::Discard,
        written is Err <==> h == Handover::GiveUp,
{
}

/// A transfer is the preparation's to speak for just where its record can be read and
/// says that it is being prepared.
pub proof fn law_only_a_known_preparation_is_spoken_for(
    row: Result<Option<OutboundRow>, String>,
    r: bool,
)
    requires
        call_ensures(still_preparing, (&row,), r),
    ensures
        r <==> (row matches Ok(Some(x)) && x.state == OutboundState::Preparing),
{
}

/// A file that was made goes into the package only with a plan, only where calibrating
/// it went well, and only with the hash of what came out; whatever was wrong is told.
pub proof fn law_only_a_hashed_light_goes(
    frame_id: i64,
    planned: bool,
    calibration: Calibration,
    hash: Result<String, String>,
    r: Result<StagedFile, PrepareError>,
)
    requires
        call_ensures(generate_payload, (frame_id, planned, calibration, hash), r),
    ensures
        r is Ok <==> planned && calibration is Done && hash is Ok,
        r matches Ok(f) ==> {
            &&& hash matches Ok(h) && f.xxh3@ == h@
            &&& calibration matches Calibration::Done { byte_size } && f.byte_size == byte_size
        },
        r == Err::<StagedFile, PrepareError>(PrepareError::Cancelled) <==> planned && calibration
            is Cancelled,
        planned ==> (calibration matches Calibration::Failed(why) ==> (
        r matches Err(PrepareError::Failed { reason, culprit: None }) && reason@ == why@)),
{
}

/// A file that is there is taken down with what it came out as, and no file before it
/// changes; a file that could not be had fails the package and is the one that is
/// named, unless the user has stopped it.
pub proof fn law_the_failing_file_is_named(
    run: &mut StagingRun,
    outcome: Result<StagedFile, StageFault>,
    r: Result<(), PrepareError>,
)
    requires
        old(run).done().len() < old(run).plan().len(),
        call_ensures(StagingRun::file_done, (run, outcome), r),
    ensures
        final(run).plan() == old(run).plan(),
        outcome matches Ok(f) ==> r is Ok && final(run).done() == old(run).done().push(f),
        outcome is Err ==> r is Err && final(run).done() == old(run).done(),
        outcome == Err::<StagedFile, StageFault>(StageFault::Cancelled) ==> r == Err::<
            (),
            PrepareError,
        >(PrepareError::Cancelled),
        outcome matches Err(StageFault::Failed(why)) ==> (r matches Err(
            PrepareError::Failed { reason, culprit: Some(c) },
        ) && c.error@ == why@ && c.rel_path@ == old(run).plan()[old(
            run,
        ).done().len() as int].record.rel_path@ && reason@ == c.rel_path@ + ": "@ + why@),
{
}

proof fn lemma_preparing(rows: Seq<OutboundRow>, n: int, p: int)
    requires
        0 <= n <= rows.len(),
    ensures
        preparing_places(rows, n).contains(p) <==> 0 <= p < n && rows[p].state
            == OutboundState::Preparing,
    decreases n,
{
    if n > 0 {
        lemma_preparing(rows, n - 1, p);
        let before = preparing_places(rows, n - 1);
        let now = preparing_places(rows, n);
        if before.contains(p) {
            let k = choose|k: int| 0 <= k < before.len() && before[k] == p;
            assert(now[k] == p);
        }
        if now.contains(p) {
            let k = choose|k: int| 0 <= k < now.len() && now[k] == p;
            if k < before.len() {
                assert(before[k] == p);
            }
        }
        if rows[n - 1].state == OutboundState::Preparing {
            assert(now[before.len() as int] == n - 1);
        }
    }
}

/// A restart fails just the transfers that were being prepared, each with the same
/// reason, leaves all others as they were, and gives back just the directories of
/// those that it failed.
pub proof fn law_restart_fails_only_preparations(
    all: &mut Vec<OutboundRow>,
    ts: &str,
    told: Vec<HealedRow>,
    p: int,
    k: int,
)
    requires
        call_ensures(heal_interrupted_preparations, (all, ts), told),
        0 <= p < old(all)@.len(),
    ensures
        final(all)@.len() == old(all)@.len(),
        old(all)@[p].state == OutboundState::Preparing ==> {
            &&& final(all)@[p].state == OutboundState::Failed
            &&& is_text(final(all)@[p].last_error, "preparation interrupted by a restart — send again"@)
            &&& final(all)@[p].attempts == old(all)@[p].attempts
            &&& final(all)@[p].peer == old(all)@[p].peer
            &&& final(all)@[p].package_ref@ == old(all)@[p].package_ref@
            &&& exists|j: int|
                0 <= j < told@.len() && (#[trigger] told@[j]).pkg_dir@ == old(all)@[p].package_ref@
        },
        old(all)@[p].state != OutboundState::Preparing ==> final(all)@[p] == old(all)@[p],
        0 <= k < told@.len() ==> exists|q: int|
            0 <= q < old(all)@.len() && (#[trigger] old(all)@[q]).state == OutboundState::Preparing
                && told@[k].pkg_dir@ == old(all)@[q].package_ref@ && told@[k].event.kind@
                == "prepare_failed"@ && told@[k].event.ts@ == ts@,
{
    let rows = old(all)@;
    let hs = told@;
    assert(is_healed(final(all)@[p], rows[p]));
    let n = rows.len() as int;
    let at = preparing_places(rows, n);
    lemma_preparing(rows, n, p);
    if rows[p].state == OutboundState::Preparing {
        let j = choose|j: int| 0 <= j < at.len() && at[j] == p;
        assert(tells_of_healing(hs[j], rows[at[j]], ts@));
    }
    if 0 <= k < hs.len() {
        assert(at.contains(at[k]));
        lemma_preparing(rows, n, at[k]);
        assert(tells_of_healing(hs[k], rows[at[k]], ts@));
    }
}

proof fn lemma_hash_at(rs: Seq<PlannedRecord>, rel_path: Seq<char>, n: int)
    requires
        0 <= n <= rs.len(),
    ensures
        match hash_at(rs, rel_path, n) {
            Some(h) => exists|k: int|
                0 <= k < n && (#[trigger] rs[k]).record.rel_path@ == rel_path && rs[k].record.xxh3
                    == h,
            None => forall|k: int|
                0 <= k < n ==> (#[trigger] rs[k]).record.rel_path@ != rel_path,
        },
    decreases n,
{
    if n > 0 {
        lemma_hash_at(rs, rel_path, n - 1);
        if rs[n - 1].record.rel_path@ != rel_path && hash_at(rs, rel_path, n - 1) is Some {
            let h = hash_at(rs, rel_path, n - 1)->0;
            let k = choose|k: int|
                0 <= k < n - 1 && (#[trigger] rs[k]).record.rel_path@ == rel_path
                    && rs[k].record.xxh3 == h;
            assert(rs[k].record.xxh3 == h);
        }
    }
}

proof fn lemma_kept(
    cs: Seq<BankCandidate>,
    rs: Seq<PlannedRecord>,
    disk_matches: Seq<bool>,
    n: int,
    p: int,
)
    requires
        0 <= n <= cs.len(),
    ensures
        kept_places(cs, rs, disk_matches, n).contains(p) <==> 0 <= p < n && disk_matches[p]
            && hash_at(rs, cs[p].rel_path@, rs.len() as int) is Some,
    decreases n,
{
    if n > 0 {
        lemma_kept(cs, rs, disk_matches, n - 1, p);
        let before = kept_places(cs, rs, disk_matches, n - 1);
        let now = kept_places(cs, rs, disk_matches, n);
        if before.contains(p) {
            let k = choose|k: int| 0 <= k < before.len() && before[k] == p;
            assert(now[k] == p);
        }
        if now.contains(p) {
            let k = choose|k: int| 0 <= k < now.len() && now[k] == p;
            if k < before.len() {
                assert(before[k] == p);
            }
        }
        if now.len() > before.len() {
            assert(now[before.len() as int] == n - 1);
        }
    }
}

/// A hash is kept of a file just where the file went into the package and is still
/// the one of the catalog, and it is the hash of the file that stands at its place in
/// the package.
pub proof fn law_kept_hash_is_of_its_file(
    records: Vec<PlannedRecord>,
    candidates: Vec<BankCandidate>,
    matching: Vec<bool>,
    r: Vec<BankedHash>,
    k: int,
    p: int,
)
    requires
        call_ensures(bank_prepared_hashes, (&records, &candidates, &matching), r),
        matching@.len() == candidates@.len(),
    ensures
        0 <= k < r@.len() ==> exists|q: int, m: int|
            0 <= q < candidates@.len() && 0 <= m < records@.len() && matching@[q] && r@[k].file_id == (
            #[trigger] candidates@[q]).file_id && (#[trigger] records@[m]).record.rel_path@ == candidates@[q].rel_path@
                && r@[k].hash@ == records@[m].record.xxh3@,
        0 <= p < candidates@.len() && matching@[p] && (exists|m: int|
            0 <= m < records@.len() && (#[trigger] records@[m]).record.rel_path@ == candidates@[p].rel_path@)
            ==> exists|j: int| 0 <= j < r@.len() && (#[trigger] r@[j]).file_id == candidates@[p].file_id,
{
    let v = r@;
    let cs = candidates@;
    let rs = records@;
    let disk_matches = matching@;
    let n = cs.len() as int;
    let at = kept_places(cs, rs, disk_matches, n);
    lemma_kept(cs, rs, disk_matches, n, p);
    if 0 <= k < v.len() {
        let q = at[k];
        assert(at.contains(q));
        lemma_kept(cs, rs, disk_matches, n, q);
        lemma_hash_at(rs, cs[q].rel_path@, rs.len() as int);
        assert(v[k].file_id == cs[q].file_id);
        let h = hash_at(rs, cs[q].rel_path@, rs.len() as int)->0;
        let m = choose|m: int|
            0 <= m < rs.len() && (#[trigger] rs[m]).record.rel_path@ == cs[q].rel_path@
                && rs[m].record.xxh3 == h;
        assert(cs[q].file_id == v[k].file_id && rs[m].record.xxh3@ == v[k].hash@);
    }
    if 0 <= p < n {
        lemma_hash_at(rs, cs[p].rel_path@, rs.len() as int);
        if at.contains(p) {
            let j = choose|j: int| 0 <= j < at.len() && at[j] == p;
            assert(v[j].file_id == cs[p].file_id);
        }
    }
}

/// Calibrating is got ready exactly if some file is made.
pub proof fn law_calibrating_is_for_files_that_are_made(rs: Vec<PlannedRecord>, r: bool)
    requires
        call_ensures(needs_generation, (&rs,), r),
    ensures
        r <==> exists|k: int| 0 <= k < rs@.len() && (#[trigger] rs@[k]).source is Generate,
{
    if r {
        let k = choose|k: int| 0 <= k < rs@.len() && is_generated(#[trigger] rs@[k]);
        assert(rs@[k].source is Generate);
    }
    if exists|k: int| 0 <= k < rs@.len() && (#[trigger] rs@[k]).source is Generate {
        let k = choose|k: int| 0 <= k < rs@.len() && (#[trigger] rs@[k]).source is Generate;
        assert(is_generated(rs@[k]));
    }
}

/// A package is put together only in a directory that could be made, and files are made
/// only with options that the user chose; it begins with all of its files to do.
pub proof fn law_a_package_begins_with_everything_to_do(
    dir: &str,
    created: Result<(), String>,
    records: Vec<PlannedRecord>,
    options: Option<String>,
    facts: GenerationFacts,
    r: Result<StagingRun, PrepareError>,
    k: int,
)
    requires
        call_ensures(stage_records, (dir, created, records, &options, &facts), r),
    ensures
        created is Err ==> r is Err,
        r matches Ok(run) ==> run.plan() == records@ && run.done().len() == 0,
        r is Ok && 0 <= k < records@.len() && records@[k].source is Generate ==> options is Some
            && facts.admitted && facts.catalog is Ok,
        created is Ok && (forall|j: int|
            0 <= j < records@.len() ==> !((#[trigger] records@[j]).source is Generate)) ==> r is Ok,
{
    if 0 <= k < records@.len() && records@[k].source is Generate {
        assert(is_generated(records@[k]));
    }
    if generates(records@) {
        let j = choose|j: int| 0 <= j < records@.len() && is_generated(#[trigger] records@[j]);
        assert(records@[j].source is Generate);
    }
}

/// What is done of a package is never more than the whole, and is the whole once all
/// of its files are there.
pub proof fn law_the_bar_ends_at_the_whole(run: StagingRun, done: u64, total: u64)
    requires
        call_ensures(StagingRun::bytes_done, (&run,), done),
        call_ensures(StagingRun::total, (&run,), total),
    ensures
        done <= total,
        run.done().len() == run.plan().len() ==> done == total,
        run.done().len() == 0 ==> done == 0,
{
}

/// A preparation that was cancelled is told as such, a failed one by its reason.
pub proof fn law_a_preparation_is_told_by_its_reason(e: PrepareError, r: String)
    requires
        call_ensures(PrepareError::describe, (&e,), r),
    ensures
        e is Cancelled ==> r@ == "cancelled"@,
        e matches PrepareError::Failed { reason, culprit: _ } ==> r@ == reason@,
{
}

} // verus!
