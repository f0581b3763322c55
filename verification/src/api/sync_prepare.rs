//! Preparing a package: its files are put together, the manifest is written
//! last, and the transfer is handed to the sender; or it ends, with the reason
//! on record.

use crate::api::sync::manifest::ManifestRecord;
use crate::api::sync::node_id::{hex_of, node_id_hex, NodeId};
use crate::api::sync::rows::{copy_opt, opt_text, Direction, OutboundRow, OutboundState};
use crate::api::sync::selection::BankedHash;
use crate::api::sync::transfer_files::SyncEventRow;
use crate::text::{decimal, decimal_text, same_text, signed_decimal, signed_decimal_text};
use vstd::prelude::*;
use vstd::string::*;

verus! {

/// Where a file of a package comes from.
#[derive(Debug)]
pub enum PrepareSource {
    /// It is a copy of the file at this path.
    Copy(String),
    /// It is made by calibrating this frame.
    Generate { frame_id: i64 },
}

/// A file of the catalog whose hash can be kept once it has been read.
#[derive(Debug)]
pub struct BankCandidate {
    pub file_id: i64,
    pub path: String,
    pub size: i64,
    pub modified_at: String,
    /// Where the file stands in the package.
    pub rel_path: String,
}

/// A file of a package that is planned; its hash is not known yet, and the
/// size of one that is made is a guess.
#[derive(Debug)]
pub struct PlannedRecord {
    pub source: PrepareSource,
    pub record: ManifestRecord,
}

/// Everything that preparing a package takes.
#[derive(Debug)]
pub struct PrepareJob {
    pub id: i64,
    pub peer: NodeId,
    pub pkg_dir: String,
    pub records: Vec<PlannedRecord>,
    /// How lights are calibrated, in JSON, where any are to be.
    pub gen_opts: Option<String>,
    pub bank: Vec<BankCandidate>,
}

/// How many files were put together, and how large they are.
#[derive(Debug, Clone, Copy, PartialEq, Eq, Structural)]
pub struct PrepareStats {
    pub files: usize,
    pub bytes: u64,
}

/// The file that is to blame, and what is wrong with it.
#[derive(Debug)]
pub struct Culprit {
    pub rel_path: String,
    pub error: String,
}

/// Why a preparation stopped short: because the user wanted it, or because
/// something went wrong.
#[derive(Debug)]
pub enum PrepareError {
    Cancelled,
    Failed { reason: String, culprit: Option<Culprit> },
}

impl PrepareError {
    /// What the preparation stopped short of, in a line.
    pub fn describe(&self) -> (r: String)
        ensures
            r@ == match *self {
                PrepareError::Cancelled => "cancelled"@,
                PrepareError::Failed { reason, .. } => reason@,
            },
    {
        match self {
            PrepareError::Cancelled => "cancelled".to_owned(),
            PrepareError::Failed { reason, .. } => reason.clone(),
        }
    }
}

/// Whether the preparation failed for a reason that no single file has.
pub open spec fn is_failure(e: PrepareError, why: Seq<char>) -> bool {
    e matches PrepareError::Failed { reason, culprit: None } && reason@ == why
}

/// Whether the preparation failed for a reason that one file has.
pub open spec fn is_failure_of(e: PrepareError, rel_path: Seq<char>, why: Seq<char>) -> bool {
    &&& e matches PrepareError::Failed { reason, culprit: Some(c) }
    &&& reason@ == rel_path + ": "@ + why
    &&& c.rel_path@ == rel_path
    &&& c.error@ == why
}

fn failure(what: &str, why: &str) -> (e: PrepareError)
    ensures
        is_failure(e, what@ + why@),
{
    let mut reason: String = what.to_owned();
    reason.append(why);
    PrepareError::Failed { reason, culprit: None }
}

fn failure_of(rel_path: &str, why: &str) -> (e: PrepareError)
    ensures
        is_failure_of(e, rel_path@, why@),
{
    let mut reason: String = rel_path.to_owned();
    reason.append(": ");
    reason.append(why);
    PrepareError::Failed {
        reason,
        culprit: Some(Culprit { rel_path: rel_path.to_owned(), error: why.to_owned() }),
    }
}

/// Whether a file is made.
pub open spec fn is_generated(p: PlannedRecord) -> bool {
    p.source is Generate
}

/// Whether any of the files is made.
pub open spec fn generates(rs: Seq<PlannedRecord>) -> bool {
    exists|k: int| 0 <= k < rs.len() && is_generated(#[trigger] rs[k])
}

/// Whether any of the files is made, so that calibrating has to be got ready.
pub fn needs_generation(rs: &Vec<PlannedRecord>) -> (r: bool)
    ensures
        r == generates(rs@),
{
    let mut i: usize = 0;
    while i < rs.len()
        invariant
            i <= rs@.len(),
            forall|k: int| 0 <= k < i ==> !is_generated(#[trigger] rs@[k]),
        decreases rs@.len() - i,
    {
        match &rs[i].source {
            PrepareSource::Generate { .. } => {
                assert(is_generated(rs@[i as int]));
                return true;
            },
            PrepareSource::Copy(_) => {},
        }
        i = i + 1;
    }
    false
}

/// The places of the files that are made, among the first `n`.
pub open spec fn generated_places(rs: Seq<PlannedRecord>, n: int) -> Seq<int>
    decreases n,
{
    if n <= 0 {
        Seq::empty()
    } else {
        let before = generated_places(rs, n - 1);
        if is_generated(rs[n - 1]) {
            before.push(n - 1)
        } else {
            before
        }
    }
}

/// What was found out before calibrating: whether a turn was given, whether
/// the catalog is there, and for each file that is made whether it can be.
#[derive(Debug)]
pub struct GenerationFacts {
    /// No turn is given where the preparation was cancelled meanwhile.
    pub admitted: bool,
    pub catalog: Result<(), String>,
    pub plans: Vec<Result<(), String>>,
}

/// The first place at or behind `i` where there is no plan.
pub open spec fn first_unplanned(plans: Seq<Result<(), String>>, i: int) -> int
    decreases plans.len() - i,
{
    if i >= plans.len() {
        plans.len() as int
    } else if plans[i] is Err {
        i
    } else {
        first_unplanned(plans, i + 1)
    }
}

/// The frames that are calibrated, of the first `n` files.
pub open spec fn generated_frames(rs: Seq<PlannedRecord>, n: int) -> Seq<i64>
    decreases n,
{
    if n <= 0 {
        Seq::empty()
    } else {
        let before = generated_frames(rs, n - 1);
        match rs[n - 1].source {
            PrepareSource::Generate { frame_id } => before.push(frame_id),
            PrepareSource::Copy(_) => before,
        }
    }
}

/// Whether `r` is how calibrating is got ready: nothing is calibrated with
/// options that the user did not choose, and one light without a plan fails
/// the whole package, for a package that is a file short cannot be told from a
/// whole one.
pub open spec fn opens_generation(
    rs: Seq<PlannedRecord>,
    gen_opts: Option<String>,
    f: GenerationFacts,
    r: Result<Vec<i64>, PrepareError>,
) -> bool {
    let at = generated_places(rs, rs.len() as int);
    let k = first_unplanned(f.plans@, 0);
    if gen_opts is None {
        r matches Err(e) && is_failure(e, "calibrated-light options missing from the plan"@)
    } else if !f.admitted {
        r matches Err(PrepareError::Cancelled)
    } else if f.catalog is Err {
        r matches Err(e) && is_failure(e, "catalog unavailable: "@ + f.catalog->Err_0@)
    } else if k < f.plans@.len() {
        r matches Err(e) && is_failure_of(
            e,
            rs[at[k]].record.rel_path@,
            f.plans@[k]->Err_0@,
        )
    } else {
        r matches Ok(frames) && frames@ == generated_frames(rs, rs.len() as int)
    }
}

proof fn lemma_generated_places(rs: Seq<PlannedRecord>, n: int)
    requires
        0 <= n <= rs.len(),
    ensures
        generated_places(rs, n).len() == generated_frames(rs, n).len(),
        forall|m: int|
            n <= m <= rs.len() ==> generated_places(rs, n).len() <= #[trigger] generated_places(
                rs,
                m,
            ).len(),
        forall|m: int, k: int|
            n <= m <= rs.len() && 0 <= k < generated_places(rs, n).len() ==> generated_places(
                rs,
                n,
            )[k] == #[trigger] generated_places(rs, m)[k],
    decreases rs.len() - n,
{
    lemma_same_lengths(rs, n);
    if n < rs.len() {
        lemma_generated_places(rs, n + 1);
        let now = generated_places(rs, n);
        let next = generated_places(rs, n + 1);
        assert forall|m: int| n <= m <= rs.len() implies now.len() <= #[trigger] generated_places(
            rs,
            m,
        ).len() by {
            if m > n {
                assert(next.len() <= generated_places(rs, m).len());
            }
        }
        assert forall|m: int, k: int| n <= m <= rs.len() && 0 <= k < now.len() implies now[k]
            == #[trigger] generated_places(rs, m)[k] by {
            if m > n {
                assert(next[k] == generated_places(rs, m)[k]);
                assert(next[k] == now[k]);
            }
        }
    }
}

proof fn lemma_same_lengths(rs: Seq<PlannedRecord>, n: int)
    requires
        0 <= n <= rs.len(),
    ensures
        generated_places(rs, n).len() == generated_frames(rs, n).len(),
    decreases n,
{
    if n > 0 {
        lemma_same_lengths(rs, n - 1);
    }
}

/// Gets calibrating ready: the frames that are calibrated, in order. `f.plans`
/// holds one entry for each file that is made, once it comes to that.
pub fn open_generation(rs: &Vec<PlannedRecord>, gen_opts: &Option<String>, f: &GenerationFacts) -> (r:
    Result<Vec<i64>, PrepareError>)
    requires
        gen_opts is Some && f.admitted && f.catalog is Ok ==> f.plans@.len() == generated_places(
            rs@,
            rs@.len() as int,
        ).len(),
    ensures
        opens_generation(rs@, *gen_opts, *f, r),
{
    if gen_opts.is_none() {
        let e = failure("calibrated-light options missing from the plan", "");
        assert("calibrated-light options missing from the plan"@ + ""@
            =~= "calibrated-light options missing from the plan"@) by {
            reveal_strlit("");
        }
        return Err(e);
    }
    if !f.admitted {
        return Err(PrepareError::Cancelled);
    }
    match &f.catalog {
        Err(why) => {
            return Err(failure("catalog unavailable: ", why.as_str()));
        },
        Ok(_) => {},
    }
    let mut frames: Vec<i64> = Vec::new();
    let mut i: usize = 0;
    while i < rs.len()
        invariant
            i <= rs@.len(),
            f.plans@.len() == generated_places(rs@, rs@.len() as int).len(),
            frames@ == generated_frames(rs@, i as int),
            first_unplanned(f.plans@, 0) == first_unplanned(f.plans@, frames@.len() as int),
            gen_opts is Some,
            f.admitted,
            f.catalog is Ok,
        decreases rs@.len() - i,
    {
        match &rs[i].source {
            PrepareSource::Generate { frame_id } => {
                let k = frames.len();
                proof {
                    lemma_generated_places(rs@, i + 1);
                    lemma_same_lengths(rs@, i as int);
                    let now = generated_places(rs@, i as int);
                    let next = generated_places(rs@, i + 1);
                    assert(next == now.push(i as int));
                    assert(next.len() <= generated_places(rs@, rs@.len() as int).len());
                    assert(next[k as int] == generated_places(rs@, rs@.len() as int)[k as int]);
                }
                match &f.plans[k] {
                    Err(why) => {
                        return Err(failure_of(rs[i].record.rel_path.as_str(), why.as_str()));
                    },
                    Ok(_) => {},
                }
                frames.push(*frame_id);
            },
            PrepareSource::Copy(_) => {},
        }
        i = i + 1;
    }
    proof {
        lemma_same_lengths(rs@, rs@.len() as int);
    }
    Ok(frames)
}

/// What the calibrating of a frame gave: the size of the file, or that it was
/// cancelled, or what went wrong.
#[derive(Debug)]
pub enum Calibration {
    Done { byte_size: u64 },
    Cancelled,
    Failed(String),
}

/// The hash of a file that was put together, and its size.
#[derive(Debug)]
pub struct StagedFile {
    pub xxh3: String,
    pub byte_size: u64,
}

/// A file that was made, with the hash of the whole of it, which is what the
/// receiver holds it to.
pub fn generate_payload(
    frame_id: i64,
    planned: bool,
    calibration: Calibration,
    hash: Result<String, String>,
) -> (r: Result<StagedFile, PrepareError>)
    ensures
        if !planned {
            r matches Err(e) && is_failure(
                e,
                "no calibration plan resolved for frame "@ + signed_decimal(frame_id as int),
            )
        } else {
            match calibration {
                Calibration::Cancelled => r matches Err(PrepareError::Cancelled),
                Calibration::Failed(why) => r matches Err(e) && is_failure(e, why@),
                Calibration::Done { byte_size } => match hash {
                    Err(why) => r matches Err(e) && is_failure(
                        e,
                        "hash generated payload: "@ + why@,
                    ),
                    Ok(h) => r matches Ok(s) && s.xxh3 == h && s.byte_size == byte_size,
                },
            }
        },
{
    if !planned {
        return Err(
            failure(
                "no calibration plan resolved for frame ",
                signed_decimal_text(frame_id).as_str(),
            ),
        );
    }
    match calibration {
        Calibration::Cancelled => Err(PrepareError::Cancelled),
        Calibration::Failed(why) => Err(PrepareError::Failed { reason: why, culprit: None }),
        Calibration::Done { byte_size } => match hash {
            Err(why) => Err(failure("hash generated payload: ", why.as_str())),
            Ok(xxh3) => Ok(StagedFile { xxh3, byte_size }),
        },
    }
}

/// The planned size of the first `n` files.
pub open spec fn planned_size(rs: Seq<PlannedRecord>, n: int) -> nat
    decreases n,
{
    if n <= 0 {
        0
    } else {
        planned_size(rs, n - 1) + rs[n - 1].record.byte_size as nat
    }
}

proof fn lemma_planned_size_grows(rs: Seq<PlannedRecord>, m: int, n: int)
    requires
        0 <= m <= n,
    ensures
        planned_size(rs, m) <= planned_size(rs, n),
    decreases n - m,
{
    if m < n {
        lemma_planned_size_grows(rs, m, n - 1);
    }
}

/// The size that a file has once it is put together: a copy has the planned
/// one, and for one that is made the plan could only guess.
pub open spec fn real_size(p: PlannedRecord, s: StagedFile) -> u64 {
    if is_generated(p) {
        s.byte_size
    } else {
        p.record.byte_size
    }
}

/// The real size of the first `n` files.
pub open spec fn staged_size(rs: Seq<PlannedRecord>, staged: Seq<StagedFile>, n: int) -> nat
    decreases n,
{
    if n <= 0 {
        0
    } else {
        staged_size(rs, staged, n - 1) + real_size(rs[n - 1], staged[n - 1]) as nat
    }
}

proof fn lemma_staged_size_grows(
    rs: Seq<PlannedRecord>,
    staged: Seq<StagedFile>,
    m: int,
    n: int,
)
    requires
        0 <= m <= n,
    ensures
        staged_size(rs, staged, m) <= staged_size(rs, staged, n),
    decreases n - m,
{
    if m < n {
        lemma_staged_size_grows(rs, staged, m, n - 1);
    }
}

/// The putting together of a package, file by file.
#[derive(Debug)]
pub struct StagingRun {
    records: Vec<PlannedRecord>,
    staged: Vec<StagedFile>,
    done_before: u64,
    total: u64,
}

/// What is to be done next.
#[derive(Debug)]
pub enum StagingAction {
    /// The file at the path is copied to its place in the package.
    Copy { path: String, rel_path: String, size: u64 },
    /// The frame is calibrated to its place in the package.
    Generate { frame_id: i64, rel_path: String, size: u64 },
    /// All files are there: the manifest is written.
    WriteManifest,
}

/// Whether `a` is what is to be done for a file.
pub open spec fn is_action_for(a: StagingAction, p: PlannedRecord) -> bool {
    match p.source {
        PrepareSource::Copy(from) => {
            &&& a matches StagingAction::Copy { path, rel_path, size }
            &&& path == from
            &&& rel_path == p.record.rel_path
            &&& size == p.record.byte_size
        },
        PrepareSource::Generate { frame_id: id } => {
            &&& a matches StagingAction::Generate { frame_id, rel_path, size }
            &&& frame_id == id
            &&& rel_path == p.record.rel_path
            &&& size == p.record.byte_size
        },
    }
}

/// How the copying of a file failed: because the user wanted it, or because
/// something went wrong.
#[derive(Debug)]
pub enum StageFault {
    Cancelled,
    Failed(String),
}

/// Whether `e` is the fault of a file.
pub open spec fn is_fault_of(e: PrepareError, p: PlannedRecord, f: StageFault) -> bool {
    match f {
        StageFault::Cancelled => e is Cancelled,
        StageFault::Failed(why) => is_failure_of(e, p.record.rel_path@, why@),
    }
}

/// A package that is put together: its records as they go into the manifest,
/// the real sizes of the files that were made, and how much it is.
#[derive(Debug)]
pub struct StagedPackage {
    pub records: Vec<PlannedRecord>,
    pub generated_sizes: Vec<GeneratedSize>,
    pub stats: PrepareStats,
}

/// The real size of a file that was made.
#[derive(Debug)]
pub struct GeneratedSize {
    pub rel_path: String,
    pub size: u64,
}

/// Whether `q` is a planned file with the hash and the size that it got.
pub open spec fn is_corrected(q: PlannedRecord, p: PlannedRecord, s: StagedFile) -> bool {
    &&& q.source == p.source
    &&& q.record == (ManifestRecord {
        xxh3: s.xxh3,
        byte_size: real_size(p, s),
        ..p.record
    })
}

/// Whether the files have the hashes and the sizes that they got.
pub open spec fn are_corrected(
    qs: Seq<PlannedRecord>,
    ps: Seq<PlannedRecord>,
    staged: Seq<StagedFile>,
    n: int,
) -> bool {
    qs.len() == n && forall|k: int| 0 <= k < n ==> is_corrected(#[trigger] qs[k], ps[k], staged[k])
}

/// Whether the sizes are those of the files that were made.
pub open spec fn are_generated_sizes(
    v: Seq<GeneratedSize>,
    ps: Seq<PlannedRecord>,
    staged: Seq<StagedFile>,
    n: int,
) -> bool {
    let at = generated_places(ps, n);
    v.len() == at.len() && forall|k: int|
        0 <= k < v.len() ==> (#[trigger] v[k]).rel_path == ps[at[k]].record.rel_path && v[k].size
            == staged[at[k]].byte_size
}

impl StagingRun {
    /// The files that are planned.
    pub closed spec fn plan(&self) -> Seq<PlannedRecord> {
        self.records@
    }

    /// The files that are put together so far.
    pub closed spec fn done(&self) -> Seq<StagedFile> {
        self.staged@
    }

    #[verifier::type_invariant]
    spec fn inv(&self) -> bool {
        &&& self.staged@.len() <= self.records@.len()
        &&& self.done_before == planned_size(self.records@, self.staged@.len() as int)
        &&& self.total == planned_size(self.records@, self.records@.len() as int)
    }

    /// Begins to put a package together.
    pub fn new(records: Vec<PlannedRecord>) -> (r: Self)
        requires
            planned_size(records@, records@.len() as int) <= u64::MAX,
        ensures
            r.plan() == records@,
            r.done().len() == 0,
    {
        let mut total: u64 = 0;
        let mut i: usize = 0;
        while i < records.len()
            invariant
                i <= records@.len(),
                planned_size(records@, records@.len() as int) <= u64::MAX,
                total == planned_size(records@, i as int),
            decreases records@.len() - i,
        {
            proof {
                lemma_planned_size_grows(records@, i + 1, records@.len() as int);
            }
            total = total + records[i].record.byte_size;
            i = i + 1;
        }
        StagingRun { records, staged: Vec::new(), done_before: 0, total }
    }

    /// The size of the whole package, as it was planned: a total that changed
    /// on the way would make the bar jump.
    pub fn total(&self) -> (r: u64)
        ensures
            r == planned_size(self.plan(), self.plan().len() as int),
    {
        proof {
            use_type_invariant(self);
        }
        self.total
    }

    /// How much of the package is there, by the plan.
    pub fn bytes_done(&self) -> (r: u64)
        ensures
            r == planned_size(self.plan(), self.done().len() as int),
            r <= planned_size(self.plan(), self.plan().len() as int),
            self.done().len() == self.plan().len() ==> r == planned_size(
                self.plan(),
                self.plan().len() as int,
            ),
    {
        proof {
            use_type_invariant(self);
            lemma_planned_size_grows(
                self.records@,
                self.staged@.len() as int,
                self.records@.len() as int,
            );
        }
        self.done_before
    }

    /// What is to be done next: the next file, and the manifest last.
    pub fn next_action(&self) -> (a: StagingAction)
        ensures
            self.done().len() <= self.plan().len(),
            if self.done().len() < self.plan().len() {
                is_action_for(a, self.plan()[self.done().len() as int])
            } else {
                a is WriteManifest
            },
    {
        proof {
            use_type_invariant(self);
        }
        let i = self.staged.len();
        if i >= self.records.len() {
            return StagingAction::WriteManifest;
        }
        let m = &self.records[i].record;
        match &self.records[i].source {
            PrepareSource::Copy(path) => StagingAction::Copy {
                path: path.clone(),
                rel_path: m.rel_path.clone(),
                size: m.byte_size,
            },
            PrepareSource::Generate { frame_id } => StagingAction::Generate {
                frame_id: *frame_id,
                rel_path: m.rel_path.clone(),
                size: m.byte_size,
            },
        }
    }

    /// Takes note of what came of the next file. The first one that fails
    /// fails the package, and is named.
    pub fn file_done(&mut self, outcome: Result<StagedFile, StageFault>) -> (r: Result<
        (),
        PrepareError,
    >)
        requires
            old(self).done().len() < old(self).plan().len(),
        ensures
            final(self).plan() == old(self).plan(),
            match outcome {
                Ok(s) => r is Ok && final(self).done() == old(self).done().push(s),
                Err(f) => final(self).done() == old(self).done() && (r matches Err(e)
                    && is_fault_of(e, old(self).plan()[old(self).done().len() as int], f)),
            },
    {
        proof {
            use_type_invariant(&*self);
        }
        let i = self.staged.len();
        match outcome {
            Ok(s) => {
                proof {
                    lemma_planned_size_grows(self.records@, i + 1, self.records@.len() as int);
                }
                let mut run = StagingRun {
                    records: Vec::new(),
                    staged: Vec::new(),
                    done_before: 0,
                    total: 0,
                };
                std::mem::swap(self, &mut run);
                let records = run.records;
                let mut staged = run.staged;
                let total = run.total;
                let mut done_before = run.done_before;
                done_before = done_before + records[i].record.byte_size;
                staged.push(s);
                *self = StagingRun { records, staged, done_before, total };
                Ok(())
            },
            Err(f) => match f {
                StageFault::Cancelled => Err(PrepareError::Cancelled),
                StageFault::Failed(why) => Err(
                    failure_of(self.records[i].record.rel_path.as_str(), why.as_str()),
                ),
            },
        }
    }

    /// Takes note of what came of the manifest, once all files are there. The
    /// records get the hashes of the files, and those that were made get their
    /// real sizes, for the manifest is what the receiver holds the files to.
    pub fn finish(self, manifest: Result<(), String>) -> (r: Result<StagedPackage, PrepareError>)
        requires
            self.done().len() == self.plan().len(),
            staged_size(self.plan(), self.done(), self.plan().len() as int) <= u64::MAX,
        ensures
            match manifest {
                Err(why) => r matches Err(e) && is_failure(e, "manifest: "@ + why@),
                Ok(_) => {
                    &&& r matches Ok(p)
                    &&& are_corrected(
                        p.records@,
                        self.plan(),
                        self.done(),
                        self.plan().len() as int,
                    )
                    &&& are_generated_sizes(
                        p.generated_sizes@,
                        self.plan(),
                        self.done(),
                        self.plan().len() as int,
                    )
                    &&& p.stats.files == self.plan().len()
                    &&& p.stats.bytes == staged_size(
                        self.plan(),
                        self.done(),
                        self.plan().len() as int,
                    )
                },
            },
    {
        match manifest {
            Err(why) => Err(failure("manifest: ", why.as_str())),
            Ok(_) => Ok(self.corrected()),
        }
    }

    /// The records of the files, with their hashes and their real sizes, as
    /// they go into the manifest.
    pub fn corrected(&self) -> (p: StagedPackage)
        requires
            self.done().len() == self.plan().len(),
            staged_size(self.plan(), self.done(), self.plan().len() as int) <= u64::MAX,
        ensures
            are_corrected(p.records@, self.plan(), self.done(), self.plan().len() as int),
            are_generated_sizes(
                p.generated_sizes@,
                self.plan(),
                self.done(),
                self.plan().len() as int,
            ),
            p.stats.files == self.plan().len(),
            p.stats.bytes == staged_size(self.plan(), self.done(), self.plan().len() as int),
    {
        let ghost plan = self.records@;
        let ghost staged = self.staged@;
        let n = self.records.len();
        let mut records: Vec<PlannedRecord> = Vec::new();
        let mut generated_sizes: Vec<GeneratedSize> = Vec::new();
        let mut bytes: u64 = 0;
        let mut i: usize = 0;
        while i < n
            invariant
                i <= n,
                n == self.records@.len(),
                self.staged@.len() == n,
                plan == self.records@,
                staged == self.staged@,
                staged_size(plan, staged, n as int) <= u64::MAX,
                are_corrected(records@, plan, staged, i as int),
                are_generated_sizes(generated_sizes@, plan, staged, i as int),
                bytes == staged_size(plan, staged, i as int),
            decreases n - i,
        {
            let ghost records0 = records@;
            let ghost sizes0 = generated_sizes@;
            proof {
                lemma_staged_size_grows(plan, staged, i + 1, n as int);
            }
            let p = &self.records[i];
            let s = &self.staged[i];
            let mut record = copy_record(&p.record);
            record.xxh3 = s.xxh3.clone();
            let source = match &p.source {
                PrepareSource::Copy(path) => PrepareSource::Copy(path.clone()),
                PrepareSource::Generate { frame_id } => {
                    record.byte_size = s.byte_size;
                    generated_sizes.push(
                        GeneratedSize { rel_path: p.record.rel_path.clone(), size: s.byte_size },
                    );
                    PrepareSource::Generate { frame_id: *frame_id }
                },
            };
            bytes = bytes + record.byte_size;
            records.push(PlannedRecord { source, record });
            proof {
                assert(are_corrected(records@, plan, staged, i + 1)) by {
                    assert forall|k: int| 0 <= k < i + 1 implies is_corrected(
                        #[trigger] records@[k],
                        plan[k],
                        staged[k],
                    ) by {
                        if k < i {
                            assert(records@[k] == records0[k]);
                        }
                    }
                }
                assert(are_generated_sizes(generated_sizes@, plan, staged, i + 1)) by {
                    let at = generated_places(plan, i + 1);
                    assert forall|k: int| 0 <= k < generated_sizes@.len() implies (
                    #[trigger] generated_sizes@[k]).rel_path == plan[at[k]].record.rel_path
                        && generated_sizes@[k].size == staged[at[k]].byte_size by {
                        if k < sizes0.len() {
                            assert(generated_sizes@[k] == sizes0[k]);
                        }
                    }
                }
            }
            i = i + 1;
        }
        StagedPackage { records, generated_sizes, stats: PrepareStats { files: n, bytes } }
    }
}

fn copy_record(m: &ManifestRecord) -> (r: ManifestRecord)
    ensures
        r == *m,
{
    ManifestRecord {
        v: m.v,
        frame_uuid: m.frame_uuid.clone(),
        origin_catalog_uuid: m.origin_catalog_uuid.clone(),
        origin_device: m.origin_device.clone(),
        payload_kind: m.payload_kind,
        rel_path: m.rel_path.clone(),
        byte_size: m.byte_size,
        xxh3: m.xxh3.clone(),
        frame_meta: m.frame_meta.clone(),
        analysis: copy_opt(&m.analysis),
        app_version: m.app_version.clone(),
        project: copy_opt(&m.project),
    }
}

/// Begins to put a package together, once its directory was made and, where
/// files are to be made, calibrating was got ready.
pub fn stage_records(
    pkg_dir: &str,
    created: Result<(), String>,
    records: Vec<PlannedRecord>,
    gen_opts: &Option<String>,
    facts: &GenerationFacts,
) -> (r: Result<StagingRun, PrepareError>)
    requires
        created is Ok && generates(records@) && gen_opts is Some && facts.admitted
            && facts.catalog is Ok ==> facts.plans@.len() == generated_places(
            records@,
            records@.len() as int,
        ).len(),
        planned_size(records@, records@.len() as int) <= u64::MAX,
    ensures
        match created {
            Err(why) => r matches Err(e) && is_failure(e, "create "@ + pkg_dir@ + ": "@ + why@),
            Ok(_) => {
                ||| exists|e: PrepareError|
                    generates(records@) && opens_generation(
                        records@,
                        *gen_opts,
                        *facts,
                        Err(e),
                    ) && r == Err::<StagingRun, PrepareError>(e)
                ||| {
                    &&& generates(records@) ==> gen_opts is Some && facts.admitted
                        && facts.catalog is Ok && first_unplanned(facts.plans@, 0)
                        >= facts.plans@.len()
                    &&& r matches Ok(run)
                    &&& run.plan() == records@
                    &&& run.done().len() == 0
                }
            },
        },
{
    match created {
        Err(why) => {
            let mut what: String = "create ".to_owned();
            what.append(pkg_dir);
            what.append(": ");
            return Err(failure(what.as_str(), why.as_str()));
        },
        Ok(_) => {},
    }
    if needs_generation(&records) {
        match open_generation(&records, gen_opts, facts) {
            Err(e) => {
                return Err(e);
            },
            Ok(_) => {},
        }
    }
    Ok(StagingRun::new(records))
}

/// What the journal says of a package that is ready.
pub fn prepared_detail(stats: &PrepareStats, duration_ms: u64) -> (r: String)
    ensures
        r@ == "files="@ + decimal(stats.files as nat) + " bytes="@ + decimal(stats.bytes as nat)
            + " duration_ms="@ + decimal(duration_ms as nat),
{
    let mut r: String = "files=".to_owned();
    r.append(decimal_text(stats.files as u64).as_str());
    r.append(" bytes=");
    r.append(decimal_text(stats.bytes).as_str());
    r.append(" duration_ms=");
    r.append(decimal_text(duration_ms).as_str());
    r
}

/// Whether the transfer is still the preparation's to speak for: what cannot
/// be read is not.
pub open spec fn is_preparing(row: Result<Option<OutboundRow>, String>) -> bool {
    row matches Ok(Some(r)) && r.state == OutboundState::Preparing
}

/// Whether the transfer is still the preparation's to speak for.
pub fn still_preparing(row: &Result<Option<OutboundRow>, String>) -> (r: bool)
    ensures
        r == is_preparing(*row),
{
    match row {
        Ok(Some(r)) => r.state == OutboundState::Preparing,
        _ => false,
    }
}

/// How a preparation came out.
#[derive(Debug)]
pub enum PrepareOutcome {
    /// There was no turn for it any more.
    SlotClosed,
    Staged(PrepareStats),
    Stopped(PrepareError),
    Panicked(String),
}

/// How a transfer ends that never got to the sender: its state, the reason,
/// the word for its files, and the file that is to blame.
#[derive(Debug)]
pub struct Ending {
    pub state: OutboundState,
    pub last_error: Option<String>,
    pub outcome: String,
    pub culprit: Option<Culprit>,
}

/// What is done with a preparation that came out.
#[derive(Debug)]
pub enum PrepareVerdict {
    /// Somebody else has settled the transfer: what was put together goes, and
    /// nothing is said.
    Discard,
    /// The transfer ends.
    End(Ending),
    /// The transfer is handed to the sender.
    Promote(PrepareStats),
}

/// Whether `e` ends a transfer that the user cancelled.
pub open spec fn is_cancelled_ending(e: Ending) -> bool {
    &&& e.state == OutboundState::Cancelled
    &&& e.last_error is None
    &&& e.outcome@ == "cancelled"@
    &&& e.culprit is None
}

/// Whether `e` ends a transfer whose preparation failed.
pub open spec fn is_failed_ending(e: Ending, why: Seq<char>, culprit: Option<Culprit>) -> bool {
    &&& e.state == OutboundState::Failed
    &&& opt_text(e.last_error) == Some("preparation failed: "@ + why)
    &&& e.outcome@ == "failed"@
    &&& e.culprit == culprit
}

/// Whether `v` is what is done with a preparation that came out.
pub open spec fn is_prepare_verdict(
    v: PrepareVerdict,
    claimed: bool,
    cancel_raised: bool,
    outcome: PrepareOutcome,
) -> bool {
    if !claimed {
        v is Discard
    } else {
        match outcome {
            PrepareOutcome::SlotClosed => v matches PrepareVerdict::End(e) && is_failed_ending(
                e,
                "preparation slot closed"@,
                None,
            ),
            PrepareOutcome::Staged(stats) => if cancel_raised {
                v matches PrepareVerdict::End(e) && is_cancelled_ending(e)
            } else {
                v == PrepareVerdict::Promote(stats)
            },
            PrepareOutcome::Stopped(PrepareError::Cancelled) => {
                v matches PrepareVerdict::End(e) && is_cancelled_ending(e)
            },
            PrepareOutcome::Stopped(PrepareError::Failed { reason, culprit }) => {
                v matches PrepareVerdict::End(e) && is_failed_ending(e, reason@, culprit)
            },
            PrepareOutcome::Panicked(why) => v matches PrepareVerdict::End(e) && is_failed_ending(
                e,
                "worker panicked: "@ + why@,
                None,
            ),
        }
    }
}

fn cancelled_ending() -> (e: Ending)
    ensures
        is_cancelled_ending(e),
{
    Ending {
        state: OutboundState::Cancelled,
        last_error: None,
        outcome: "cancelled".to_owned(),
        culprit: None,
    }
}

fn failed_ending(why: &str, culprit: Option<Culprit>) -> (e: Ending)
    ensures
        is_failed_ending(e, why@, culprit),
{
    let mut m: String = "preparation failed: ".to_owned();
    m.append(why);
    Ending {
        state: OutboundState::Failed,
        last_error: Some(m),
        outcome: "failed".to_owned(),
        culprit,
    }
}

/// What is done with a preparation that came out. `claimed` says whether the
/// transfer is still the preparation's to speak for, and `cancel_raised`
/// whether the user has cancelled it, read after the last file: a package that
/// the user has stopped is never announced.
pub fn spawn_prepare(claimed: bool, cancel_raised: bool, outcome: PrepareOutcome) -> (v:
    PrepareVerdict)
    ensures
        is_prepare_verdict(v, claimed, cancel_raised, outcome),
{
    if !claimed {
        return PrepareVerdict::Discard;
    }
    match outcome {
        PrepareOutcome::SlotClosed => PrepareVerdict::End(
            failed_ending("preparation slot closed", None),
        ),
        PrepareOutcome::Staged(stats) => {
            if cancel_raised {
                PrepareVerdict::End(cancelled_ending())
            } else {
                PrepareVerdict::Promote(stats)
            }
        },
        PrepareOutcome::Stopped(e) => match e {
            PrepareError::Cancelled => PrepareVerdict::End(cancelled_ending()),
            PrepareError::Failed { reason, culprit } => PrepareVerdict::End(
                failed_ending(reason.as_str(), culprit),
            ),
        },
        PrepareOutcome::Panicked(why) => {
            let mut m: String = "worker panicked: ".to_owned();
            m.append(why.as_str());
            PrepareVerdict::End(failed_ending(m.as_str(), None))
        },
    }
}

/// What is done once the handing over was written, or not.
#[derive(Debug, Clone, Copy, PartialEq, Eq, Structural)]
pub enum Handover {
    /// The sender takes the transfer.
    Drive,
    /// The transfer was settled meanwhile: what was put together goes.
    Discard,
    /// It could not be written: nothing is done.
    GiveUp,
}

/// Hands a transfer to the sender, if it is still being prepared: the state is
/// read and written in one.
pub fn promote_row(row: &mut OutboundRow) -> (r: Handover)
    ensures
        old(row).state == OutboundState::Preparing ==> r == Handover::Drive && *final(row) == (
        OutboundRow { state: OutboundState::Queued, ..*old(row) }),
        old(row).state != OutboundState::Preparing ==> r == Handover::Discard && *final(row)
            == *old(row),
{
    if row.state == OutboundState::Preparing {
        row.state = OutboundState::Queued;
        Handover::Drive
    } else {
        Handover::Discard
    }
}

/// What is done once the handing over was written, or not: `Ok(false)` says
/// that the transfer was not being prepared any more.
pub fn handover(written: Result<bool, String>) -> (r: Handover)
    ensures
        r == match written {
            Ok(true) => Handover::Drive,
            Ok(false) => Handover::Discard,
            Err(_) => Handover::GiveUp,
        },
{
    match written {
        Ok(true) => Handover::Drive,
        Ok(false) => Handover::Discard,
        Err(_) => Handover::GiveUp,
    }
}

/// What is told of a transfer that has come to its end.
#[derive(Debug)]
pub struct FinishedNote {
    pub package_id: String,
    pub direction: Direction,
    pub outcome: String,
    pub peer_device: String,
}

/// The word in the journal for the end of a preparation.
pub open spec fn ending_kind(state: OutboundState) -> Seq<char> {
    if state == OutboundState::Cancelled {
        "cancelled"@
    } else {
        "prepare_failed"@
    }
}

/// Ends a transfer that never got to the sender: its state and the reason go
/// on record, the journal says so, and the user is told.
pub fn terminalize(row: &mut OutboundRow, end: &Ending, now: &str) -> (r: (
    SyncEventRow,
    FinishedNote,
))
    ensures
        *final(row) == (OutboundRow {
            state: end.state,
            last_error: end.last_error,
            ..*old(row)
        }),
        r.0.direction == Direction::Sent,
        r.0.batch_key@ == signed_decimal(old(row).id as int),
        r.0.ts@ == now@,
        r.0.kind@ == ending_kind(end.state),
        r.0.detail == end.last_error,
        r.1.package_id@ == signed_decimal(old(row).id as int),
        r.1.direction == Direction::Sent,
        r.1.outcome == end.outcome,
        r.1.peer_device@ == hex_of(old(row).peer@),
{
    let key = signed_decimal_text(row.id);
    let kind = if end.state == OutboundState::Cancelled {
        "cancelled".to_owned()
    } else {
        "prepare_failed".to_owned()
    };
    row.state = end.state;
    row.last_error = copy_opt(&end.last_error);
    let event = SyncEventRow {
        direction: Direction::Sent,
        batch_key: key.clone(),
        ts: now.to_owned(),
        kind,
        detail: copy_opt(&end.last_error),
    };
    let note = FinishedNote {
        package_id: key,
        direction: Direction::Sent,
        outcome: end.outcome.clone(),
        peer_device: node_id_hex(&row.peer),
    };
    (event, note)
}

/// A transfer whose preparation did not live through a restart: the directory
/// that goes, and what the journal says.
#[derive(Debug)]
pub struct HealedRow {
    pub pkg_dir: String,
    pub event: SyncEventRow,
}

/// The places, among the first `n` transfers, of those that are being
/// prepared.
pub open spec fn preparing_places(rows: Seq<OutboundRow>, n: int) -> Seq<int>
    decreases n,
{
    if n <= 0 {
        Seq::empty()
    } else {
        let before = preparing_places(rows, n - 1);
        if rows[n - 1].state == OutboundState::Preparing {
            before.push(n - 1)
        } else {
            before
        }
    }
}

/// Whether `now` is a transfer after a restart: one that was being prepared
/// has failed, and any other is as it was.
pub open spec fn is_healed(now: OutboundRow, before: OutboundRow) -> bool {
    if before.state == OutboundState::Preparing {
        &&& opt_text(now.last_error) == Some(
            "preparation interrupted by a restart — send again"@,
        )
        &&& now == (OutboundRow {
            state: OutboundState::Failed,
            last_error: now.last_error,
            ..before
        })
    } else {
        now == before
    }
}

/// Whether `h` tells of a transfer whose preparation did not live through a
/// restart.
pub open spec fn tells_of_healing(h: HealedRow, row: OutboundRow, now: Seq<char>) -> bool {
    &&& h.pkg_dir == row.package_ref
    &&& h.event.direction == Direction::Sent
    &&& h.event.batch_key@ == signed_decimal(row.id as int)
    &&& h.event.ts@ == now
    &&& h.event.kind@ == "prepare_failed"@
    &&& opt_text(h.event.detail) == Some("preparation interrupted by a restart — send again"@)
}

/// Whether the transfers of the first `n` places are told of.
pub open spec fn are_healed(
    hs: Seq<HealedRow>,
    rows: Seq<OutboundRow>,
    now: Seq<char>,
    n: int,
) -> bool {
    let at = preparing_places(rows, n);
    hs.len() == at.len() && forall|k: int|
        0 <= k < hs.len() ==> tells_of_healing(#[trigger] hs[k], rows[at[k]], now)
}

/// After a restart every transfer that was being prepared has failed, for its
/// preparation is gone; it can be sent again. Gives back which ones these are,
/// with the directories that go.
pub fn heal_interrupted_preparations(rows: &mut Vec<OutboundRow>, now: &str) -> (r: Vec<HealedRow>)
    ensures
        final(rows)@.len() == old(rows)@.len(),
        forall|k: int|
            0 <= k < old(rows)@.len() ==> is_healed(#[trigger] final(rows)@[k], old(rows)@[k]),
        are_healed(r@, old(rows)@, now@, old(rows)@.len() as int),
{
    let ghost before = rows@;
    let mut out: Vec<HealedRow> = Vec::new();
    let mut i: usize = 0;
    while i < rows.len()
        invariant
            i <= rows@.len(),
            rows@.len() == before.len(),
            forall|k: int| 0 <= k < i ==> is_healed(#[trigger] rows@[k], before[k]),
            forall|k: int| i <= k < rows@.len() ==> #[trigger] rows@[k] == before[k],
            are_healed(out@, before, now@, i as int),
        decreases rows@.len() - i,
    {
        let ghost out0 = out@;
        let ghost rows0 = rows@;
        if rows[i].state == OutboundState::Preparing {
            let mut row = rows[i].clone();
            let pkg_dir = row.package_ref.clone();
            let end = Ending {
                state: OutboundState::Failed,
                last_error: Some("preparation interrupted by a restart — send again".to_owned()),
                outcome: "failed".to_owned(),
                culprit: None,
            };
            let (event, _) = terminalize(&mut row, &end, now);
            rows.set(i, row);
            out.push(HealedRow { pkg_dir, event });
        }
        proof {
            assert forall|k: int| 0 <= k < i + 1 implies is_healed(
                #[trigger] rows@[k],
                before[k],
            ) by {
                if k < i {
                    assert(rows@[k] == rows0[k]);
                }
            }
            assert forall|k: int| i + 1 <= k < rows@.len() implies #[trigger] rows@[k]
                == before[k] by {
                assert(rows@[k] == rows0[k]);
            }
            assert(are_healed(out@, before, now@, i + 1)) by {
                let at = preparing_places(before, i + 1);
                assert forall|k: int| 0 <= k < out@.len() implies tells_of_healing(
                    #[trigger] out@[k],
                    before[at[k]],
                    now@,
                ) by {
                    if k < out0.len() {
                        assert(out@[k] == out0[k]);
                    }
                }
            }
        }
        i = i + 1;
    }
    out
}

/// The hash of the last of the first `n` files with the given place in the
/// package.
pub open spec fn hash_at(rs: Seq<PlannedRecord>, rel_path: Seq<char>, n: int) -> Option<String>
    decreases n,
{
    if n <= 0 {
        None
    } else if rs[n - 1].record.rel_path@ == rel_path {
        Some(rs[n - 1].record.xxh3)
    } else {
        hash_at(rs, rel_path, n - 1)
    }
}

fn find_hash(rs: &Vec<PlannedRecord>, rel_path: &str) -> (r: Option<String>)
    ensures
        r == hash_at(rs@, rel_path@, rs@.len() as int),
{
    let mut n: usize = rs.len();
    while n > 0
        invariant
            n <= rs@.len(),
            hash_at(rs@, rel_path@, rs@.len() as int) == hash_at(rs@, rel_path@, n as int),
        decreases n,
    {
        if same_text(rs[n - 1].record.rel_path.as_str(), rel_path) {
            return Some(rs[n - 1].record.xxh3.clone());
        }
        n = n - 1;
    }
    None
}

/// The places, among the first `n` files of the catalog, of those whose hash
/// is kept: they went into the package, and the file on disk is still the one
/// that the catalog describes.
pub open spec fn kept_places(
    cs: Seq<BankCandidate>,
    rs: Seq<PlannedRecord>,
    disk_matches: Seq<bool>,
    n: int,
) -> Seq<int>
    decreases n,
{
    if n <= 0 {
        Seq::empty()
    } else {
        let before = kept_places(cs, rs, disk_matches, n - 1);
        if hash_at(rs, cs[n - 1].rel_path@, rs.len() as int) is Some && disk_matches[n - 1] {
            before.push(n - 1)
        } else {
            before
        }
    }
}

/// Whether the hashes are those that are kept.
pub open spec fn are_kept(
    v: Seq<BankedHash>,
    cs: Seq<BankCandidate>,
    rs: Seq<PlannedRecord>,
    disk_matches: Seq<bool>,
    n: int,
) -> bool {
    let at = kept_places(cs, rs, disk_matches, n);
    v.len() == at.len() && forall|k: int|
        0 <= k < v.len() ==> (#[trigger] v[k]).file_id == cs[at[k]].file_id && Some(v[k].hash)
            == hash_at(rs, cs[at[k]].rel_path@, rs.len() as int)
}

/// The hashes that are kept of the files that were read, where `disk_matches`
/// says of each whether the file on disk is still the one that the catalog
/// describes.
pub fn bank_prepared_hashes(
    rs: &Vec<PlannedRecord>,
    cs: &Vec<BankCandidate>,
    disk_matches: &Vec<bool>,
) -> (r: Vec<BankedHash>)
    requires
        disk_matches@.len() == cs@.len(),
    ensures
        are_kept(r@, cs@, rs@, disk_matches@, cs@.len() as int),
{
    let mut out: Vec<BankedHash> = Vec::new();
    let mut i: usize = 0;
    while i < cs.len()
        invariant
            i <= cs@.len(),
            disk_matches@.len() == cs@.len(),
            are_kept(out@, cs@, rs@, disk_matches@, i as int),
        decreases cs@.len() - i,
    {
        let ghost out0 = out@;
        match find_hash(rs, cs[i].rel_path.as_str()) {
            Some(hash) => {
                if disk_matches[i] {
                    out.push(BankedHash { file_id: cs[i].file_id, hash });
                }
            },
            None => {},
        }
        assert(are_kept(out@, cs@, rs@, disk_matches@, i + 1)) by {
            let at = kept_places(cs@, rs@, disk_matches@, i + 1);
            assert forall|k: int| 0 <= k < out@.len() implies (#[trigger] out@[k]).file_id
                == cs@[at[k]].file_id && Some(out@[k].hash) == hash_at(
                rs@,
                cs@[at[k]].rel_path@,
                rs@.len() as int,
            ) by {
                if k < out0.len() {
                    assert(out@[k] == out0[k]);
                }
            }
        }
        i = i + 1;
    }
    out
}

/// A package is handed to the sender only where it is whole, where the user
/// has not cancelled it, and where nobody else has settled the transfer.
pub proof fn law_only_a_whole_wanted_package_is_sent(
    v: PrepareVerdict,
    claimed: bool,
    cancel_raised: bool,
    outcome: PrepareOutcome,
)
    requires
        is_prepare_verdict(v, claimed, cancel_raised, outcome),
    ensures
        v is Promote ==> claimed && !cancel_raised && outcome is Staged,
        !claimed ==> v is Discard,
        claimed ==> !(v is Discard),
        v matches PrepareVerdict::End(e) ==> e.state.terminal() && (e.last_error is Some <==> e.state
            == OutboundState::Failed),
{
}

/// The bar of a preparation never runs past its end, and it is full when the
/// last file is there.
pub proof fn law_progress_stays_within_the_plan(rs: Seq<PlannedRecord>, i: int, part: int)
    requires
        0 <= i < rs.len(),
        0 <= part <= rs[i].record.byte_size,
    ensures
        planned_size(rs, i) + part <= planned_size(rs, rs.len() as int),
        planned_size(rs, i) + rs[i].record.byte_size == planned_size(rs, i + 1),
{
    lemma_planned_size_grows(rs, i + 1, rs.len() as int);
}

/// No transfer is left being prepared after a restart.
pub proof fn law_no_preparation_outlives_a_restart(now: OutboundRow, before: OutboundRow)
    requires
        is_healed(now, before),
    ensures
        now.state != OutboundState::Preparing,
        now.id == before.id,
        now.package_ref == before.package_ref,
{
}

} // verus!
