//! What holds of every plan: which files it takes in, from where, and whereto.

use crate::archive::models::{
    ArchiveDisposition, ArchiveOperationFile, ArchivePlan, Dispositions, FrameRole, PlannedZip,
    SharedCalibrationWarning,
};
use crate::archive::plan_error::{PlanError, PlanFailure};
use crate::archive::planner::{
    admit_calibration_set, archived_paths, are_conflicts, build_calibration_set_plan, build_plan,
    bytes_needed, calibration_role, candidates_of, collected, covers,
    deduped, files_distinct, first_fault, found_place, is_calibration_plan,
    is_candidates, is_frame_set_plan, is_role_zip, law_each_file_once_in_its_best_role,
    layout_places, plan_candidates, role_at, role_bytes, role_count, roles_in_use, source_fault,
    taken_places, total_bytes, wanted, CalibrationSetRequest, CandidateFile, CatalogFile,
    DiskFacts, FoundSource, FrameSetFiles, FrameSetRequest, MemberFile,
};
use crate::host_paths::host_joined;
use crate::text::{holds_text, lowercase, texts};
use vstd::prelude::*;

verus! {

/// Whether an entry is of a file in the list.
pub open spec fn is_from(c: CandidateFile, list: Seq<CatalogFile>) -> bool {
    exists|k: int|
        0 <= k < list.len() && (#[trigger] list[k]).file_id == c.file_id && list[k].path
            == c.file_path && list[k].size == c.file_size
}

/// Whether a list holds the file with the id.
pub open spec fn holds(list: Seq<CatalogFile>, id: i64) -> bool {
    exists|k: int| 0 <= k < list.len() && (#[trigger] list[k]).file_id == id
}

/// Whether the files of a type are to be archived.
pub open spec fn is_asked(d: Option<ArchiveDisposition>) -> bool {
    d == Some(ArchiveDisposition::Move) || d == Some(ArchiveDisposition::Copy)
}

/// Whether the file with the id is among the entries, in the given role and with
/// the given disposition.
pub open spec fn is_entered(
    r: Seq<CandidateFile>,
    id: i64,
    role: FrameRole,
    d: Option<ArchiveDisposition>,
) -> bool {
    exists|i: int|
        0 <= i < r.len() && (#[trigger] r[i]).file_id == id && r[i].role == role && Some(
            r[i].disposition,
        ) == d
}

/// Whether an entry is of a file that was asked for in its role, with the
/// disposition for that role.
pub open spec fn is_asked_for(c: CandidateFile, f: FrameSetFiles, d: Dispositions) -> bool {
    match c.role {
        FrameRole::Light => is_from(c, f.lights@) && c.disposition == ArchiveDisposition::Move,
        FrameRole::Flat => is_from(c, f.flats@) && is_asked(d.flats) && d.flats == Some(
            c.disposition,
        ),
        FrameRole::Dark => is_from(c, f.darks@) && is_asked(d.darks) && d.darks == Some(
            c.disposition,
        ),
        FrameRole::Bias => is_from(c, f.bias@) && is_asked(d.bias) && d.bias == Some(
            c.disposition,
        ),
        FrameRole::Darkflat => is_from(c, f.darkflats@) && is_asked(d.darkflats) && d.darkflats
            == Some(c.disposition),
    }
}

proof fn lemma_wanted(
    list: Seq<CatalogFile>,
    role: FrameRole,
    d: Option<ArchiveDisposition>,
    k: int,
)
    ensures
        0 <= k < wanted(list, role, d).len() ==> {
            let c = wanted(list, role, d)[k];
            is_asked(d) && d == Some(c.disposition) && c.role == role && is_from(c, list)
        },
        is_asked(d) ==> wanted(list, role, d) == candidates_of(list, role, d->0),
{
    if 0 <= k < wanted(list, role, d).len() {
        let c = wanted(list, role, d)[k];
        assert(list[k].file_id == c.file_id);
    }
}

proof fn lemma_collected(f: FrameSetFiles, d: Dispositions, p: int)
    requires
        0 <= p < collected(f, d).len(),
    ensures
        is_asked_for(collected(f, d)[p], f, d),
{
    let all = collected(f, d);
    let l = candidates_of(f.lights@, FrameRole::Light, ArchiveDisposition::Move);
    let a = wanted(f.flats@, FrameRole::Flat, d.flats);
    let b = wanted(f.darks@, FrameRole::Dark, d.darks);
    let c = wanted(f.bias@, FrameRole::Bias, d.bias);
    let e = wanted(f.darkflats@, FrameRole::Darkflat, d.darkflats);
    if p < l.len() {
        assert(all[p] == l[p]);
        assert(f.lights@[p].file_id == l[p].file_id);
    } else if p < l.len() + a.len() {
        let k = p - l.len();
        lemma_wanted(f.flats@, FrameRole::Flat, d.flats, k);
        assert(all[p] == a[k]);
    } else if p < l.len() + a.len() + b.len() {
        let k = p - l.len() - a.len();
        lemma_wanted(f.darks@, FrameRole::Dark, d.darks, k);
        assert(all[p] == b[k]);
    } else if p < l.len() + a.len() + b.len() + c.len() {
        let k = p - l.len() - a.len() - b.len();
        lemma_wanted(f.bias@, FrameRole::Bias, d.bias, k);
        assert(all[p] == c[k]);
    } else {
        let k = p - l.len() - a.len() - b.len() - c.len();
        lemma_wanted(f.darkflats@, FrameRole::Darkflat, d.darkflats, k);
        assert(all[p] == e[k]);
    }
}

/// The files that come into question for a role, and what is to become of them.
pub open spec fn asked_list(f: FrameSetFiles, role: FrameRole) -> Seq<CatalogFile> {
    match role {
        FrameRole::Light => f.lights@,
        FrameRole::Flat => f.flats@,
        FrameRole::Dark => f.darks@,
        FrameRole::Bias => f.bias@,
        FrameRole::Darkflat => f.darkflats@,
    }
}

proof fn lemma_in_collected(f: FrameSetFiles, d: Dispositions, role: FrameRole, k: int) -> (p: int)
    requires
        0 <= k < asked_list(f, role).len(),
        match role {
            FrameRole::Light => true,
            FrameRole::Flat => is_asked(d.flats),
            FrameRole::Dark => is_asked(d.darks),
            FrameRole::Bias => is_asked(d.bias),
            FrameRole::Darkflat => is_asked(d.darkflats),
        },
    ensures
        0 <= p < collected(f, d).len(),
        collected(f, d)[p].file_id == asked_list(f, role)[k].file_id,
        collected(f, d)[p].role == role,
{
    let l = candidates_of(f.lights@, FrameRole::Light, ArchiveDisposition::Move);
    let a = wanted(f.flats@, FrameRole::Flat, d.flats);
    let b = wanted(f.darks@, FrameRole::Dark, d.darks);
    let c = wanted(f.bias@, FrameRole::Bias, d.bias);
    let all = collected(f, d);
    lemma_wanted(f.flats@, FrameRole::Flat, d.flats, k);
    lemma_wanted(f.darks@, FrameRole::Dark, d.darks, k);
    lemma_wanted(f.bias@, FrameRole::Bias, d.bias, k);
    lemma_wanted(f.darkflats@, FrameRole::Darkflat, d.darkflats, k);
    let p = match role {
        FrameRole::Light => k,
        FrameRole::Flat => l.len() + k,
        FrameRole::Dark => l.len() + a.len() + k,
        FrameRole::Bias => l.len() + a.len() + b.len() + k,
        FrameRole::Darkflat => l.len() + a.len() + b.len() + c.len() + k,
    };
    match role {
        FrameRole::Light => {
            assert(all[p] == l[k]);
        },
        FrameRole::Flat => {
            assert(all[p] == a[k]);
        },
        FrameRole::Dark => {
            assert(all[p] == b[k]);
        },
        FrameRole::Bias => {
            assert(all[p] == c[k]);
        },
        FrameRole::Darkflat => {
            assert(all[p] == wanted(f.darkflats@, FrameRole::Darkflat, d.darkflats)[k]);
        },
    }
    p
}

proof fn lemma_entered(f: FrameSetFiles, d: Dispositions, role: FrameRole, k: int) -> (i: int)
    requires
        0 <= k < asked_list(f, role).len(),
        match role {
            FrameRole::Light => true,
            FrameRole::Flat => is_asked(d.flats),
            FrameRole::Dark => is_asked(d.darks),
            FrameRole::Bias => is_asked(d.bias),
            FrameRole::Darkflat => is_asked(d.darkflats),
        },
    ensures
        ({
            let all = collected(f, d);
            let r = deduped(all, all.len() as int);
            &&& 0 <= i < r.len()
            &&& r[i].file_id == asked_list(f, role)[k].file_id
            &&& r[i].role.rank() <= role.rank()
            &&& is_asked_for(r[i], f, d)
        }),
{
    let all = collected(f, d);
    let n = all.len() as int;
    let r = deduped(all, n);
    let p = lemma_in_collected(f, d, role, k);
    law_each_file_once_in_its_best_role(all, n);
    assert(covers(r, all[p]));
    let i = choose|i: int|
        0 <= i < r.len() && (#[trigger] r[i]).file_id == all[p].file_id && r[i].role.rank()
            <= all[p].role.rank();
    assert(all.contains(r[i]));
    let q = choose|q: int| 0 <= q < n && all[q] == r[i];
    lemma_collected(f, d, q);
    i
}

/// Whether the entries are just the files that are asked for: looked at for one entry
/// and for one file.
pub open spec fn takes_what_is_asked(
    r: Seq<CandidateFile>,
    f: FrameSetFiles,
    d: Dispositions,
    i: int,
    id: i64,
) -> bool {
    let light = holds(f.lights@, id);
    let flat = is_asked(d.flats) && holds(f.flats@, id);
    let darkflat = is_asked(d.darkflats) && holds(f.darkflats@, id);
    let dark = is_asked(d.darks) && holds(f.darks@, id);
    let bias = is_asked(d.bias) && holds(f.bias@, id);
    &&& files_distinct(r)
    &&& 0 <= i < r.len() ==> is_asked_for(r[i], f, d)
    &&& light ==> is_entered(r, id, FrameRole::Light, Some(ArchiveDisposition::Move))
    &&& flat && !light ==> is_entered(r, id, FrameRole::Flat, d.flats)
    &&& darkflat && !flat && !light ==> is_entered(r, id, FrameRole::Darkflat, d.darkflats)
    &&& dark && !darkflat && !flat && !light ==> is_entered(r, id, FrameRole::Dark, d.darks)
    &&& bias && !dark && !darkflat && !flat && !light ==> is_entered(
        r,
        id,
        FrameRole::Bias,
        d.bias,
    )
}

/// A plan for a frame set takes in exactly what is asked for. Every light is taken
/// and moves. A calibration file is taken in a role if and only if it is listed for
/// that role and the disposition for that very role is to move or to copy, and that
/// disposition is its own; where it is listed for several roles that are asked for,
/// light goes before flat, flat before dark flat, dark flat before dark, and dark
/// before bias. No file is taken twice.
pub proof fn law_plan_takes_what_is_asked_for(
    f: FrameSetFiles,
    d: Dispositions,
    r: Vec<CandidateFile>,
    i: int,
    id: i64,
)
    requires
        call_ensures(plan_candidates, (&f, &d), r),
    ensures
        takes_what_is_asked(r@, f, d, i, id),
{
    lemma_takes_what_is_asked_for(f, d, r@, i, id);
}

proof fn lemma_takes_what_is_asked_for(
    f: FrameSetFiles,
    d: Dispositions,
    r: Seq<CandidateFile>,
    i: int,
    id: i64,
)
    requires
        is_candidates(r, f, d),
    ensures
        takes_what_is_asked(r, f, d, i, id),
{
    let all = collected(f, d);
    let n = all.len() as int;
    law_each_file_once_in_its_best_role(all, n);
    if 0 <= i < r.len() {
        assert(all.contains(r[i]));
        let q = choose|q: int| 0 <= q < n && all[q] == r[i];
        lemma_collected(f, d, q);
    }
    lemma_entered_best(f, d, r, FrameRole::Light, id);
    lemma_entered_best(f, d, r, FrameRole::Flat, id);
    lemma_entered_best(f, d, r, FrameRole::Dark, id);
    lemma_entered_best(f, d, r, FrameRole::Bias, id);
    lemma_entered_best(f, d, r, FrameRole::Darkflat, id);
}

proof fn lemma_entered_best(
    f: FrameSetFiles,
    d: Dispositions,
    r: Seq<CandidateFile>,
    role: FrameRole,
    id: i64,
)
    requires
        is_candidates(r, f, d),
    ensures
        ({
            let light = holds(f.lights@, id);
            let flat = is_asked(d.flats) && holds(f.flats@, id);
            let darkflat = is_asked(d.darkflats) && holds(f.darkflats@, id);
            let dark = is_asked(d.darks) && holds(f.darks@, id);
            let bias = is_asked(d.bias) && holds(f.bias@, id);
            match role {
                FrameRole::Light => light ==> is_entered(
                    r,
                    id,
                    role,
                    Some(ArchiveDisposition::Move),
                ),
                FrameRole::Flat => flat && !light ==> is_entered(r, id, role, d.flats),
                FrameRole::Darkflat => darkflat && !flat && !light ==> is_entered(
                    r,
                    id,
                    role,
                    d.darkflats,
                ),
                FrameRole::Dark => dark && !darkflat && !flat && !light ==> is_entered(
                    r,
                    id,
                    role,
                    d.darks,
                ),
                FrameRole::Bias => bias && !dark && !darkflat && !flat && !light ==> is_entered(
                    r,
                    id,
                    role,
                    d.bias,
                ),
            }
        }),
{
    let list = asked_list(f, role);
    let asked = match role {
        FrameRole::Light => true,
        FrameRole::Flat => is_asked(d.flats),
        FrameRole::Dark => is_asked(d.darks),
        FrameRole::Bias => is_asked(d.bias),
        FrameRole::Darkflat => is_asked(d.darkflats),
    };
    if asked && holds(list, id) {
        let k = choose|k: int| 0 <= k < list.len() && (#[trigger] list[k]).file_id == id;
        let i = lemma_entered(f, d, role, k);
        let c = r[i];
        assert(c.file_id == id);
        assert(is_from(c, asked_list(f, c.role)));
        let own = asked_list(f, c.role);
        let m = choose|m: int|
            0 <= m < own.len() && (#[trigger] own[m]).file_id == c.file_id && own[m].path
                == c.file_path && own[m].size == c.file_size;
        assert(holds(own, id));
    }
}

/// Whether a word stands for a role.
pub open spec fn names_role(word: Seq<char>, role: FrameRole) -> bool {
    match role {
        FrameRole::Light => word == "light"@,
        FrameRole::Flat => word == "flat"@,
        FrameRole::Dark => word == "dark"@,
        FrameRole::Bias => word == "bias"@,
        FrameRole::Darkflat => word == "darkflat"@,
    }
}

/// Whether a word stands for what is to become of a type.
pub open spec fn names_disposition(word: Seq<char>, d: Option<ArchiveDisposition>) -> bool {
    ||| word == "move"@ && d == Some(ArchiveDisposition::Move)
    ||| word == "copy"@ && d == Some(ArchiveDisposition::Copy)
}

/// Different roles have different words.
proof fn lemma_role_words(a: FrameRole, b: FrameRole)
    ensures
        a.word() == b.word() ==> a == b,
{
    reveal_strlit("light");
    reveal_strlit("flat");
    reveal_strlit("dark");
    reveal_strlit("bias");
    reveal_strlit("darkflat");
    assert("light"@.len() == 5 && "flat"@.len() == 4 && "dark"@.len() == 4 && "bias"@.len() == 4
        && "darkflat"@.len() == 8);
    assert("flat"@[0] == 'f' && "dark"@[0] == 'd' && "bias"@[0] == 'b');
}

/// Whether a file of a plan is one of the list: the same file, with its path and
/// its size.
pub open spec fn is_listed(f: ArchiveOperationFile, list: Seq<CatalogFile>) -> bool {
    exists|k: int|
        0 <= k < list.len() && f.file_id == Some((#[trigger] list[k]).file_id) && f.source_path@
            == list[k].path@ && f.file_size_bytes == list[k].size
}

/// Whether a file of a plan was asked for in the role that it has in the plan, and
/// goes as the disposition for that role says.
pub open spec fn goes_as_asked(
    f: ArchiveOperationFile,
    files: FrameSetFiles,
    d: Dispositions,
) -> bool {
    ||| f.frame_role@ == "light"@ && is_listed(f, files.lights@) && f.disposition@ == "move"@
    ||| f.frame_role@ == "flat"@ && is_listed(f, files.flats@) && names_disposition(
        f.disposition@,
        d.flats,
    )
    ||| f.frame_role@ == "dark"@ && is_listed(f, files.darks@) && names_disposition(
        f.disposition@,
        d.darks,
    )
    ||| f.frame_role@ == "bias"@ && is_listed(f, files.bias@) && names_disposition(
        f.disposition@,
        d.bias,
    )
    ||| f.frame_role@ == "darkflat"@ && is_listed(f, files.darkflats@) && names_disposition(
        f.disposition@,
        d.darkflats,
    )
}

/// Whether the hash of a file of a plan is the one that its source was found with.
pub open spec fn has_found_hash(f: ArchiveOperationFile, found: Seq<FoundSource>) -> bool {
    exists|k: int|
        0 <= k < found.len() && (#[trigger] found[k]).path@ == f.source_path@ && (
        found[k].hash matches Ok(h) && h@ == f.expected_hash@)
}

proof fn lemma_found(found: Seq<FoundSource>, path: Seq<char>, i: int)
    requires
        0 <= i <= found.len(),
    ensures
        i <= found_place(found, path, i) <= found.len(),
        found_place(found, path, i) < found.len() ==> found[found_place(found, path, i)].path@
            == path,
        forall|k: int|
            i <= k < found_place(found, path, i) ==> (#[trigger] found[k]).path@ != path,
    decreases found.len() - i,
{
    if i < found.len() && found[i].path@ != path {
        lemma_found(found, path, i + 1);
    }
}

proof fn lemma_no_fault(cs: Seq<CandidateFile>, found: Seq<FoundSource>, n: int, i: int)
    requires
        0 <= i < n <= cs.len(),
        first_fault(cs, found, n) is None,
    ensures
        ({
            let k = found_place(found, cs[i].file_path@, 0);
            &&& 0 <= k < found.len()
            &&& found[k].path@ == cs[i].file_path@
            &&& found[k].hash is Ok
        }),
    decreases n,
{
    if i < n - 1 {
        lemma_no_fault(cs, found, n - 1, i);
    } else {
        lemma_found(found, cs[i].file_path@, 0);
    }
}

/// The bytes of the first `n` files of a plan.
pub open spec fn bytes_of(files: Seq<ArchiveOperationFile>, n: int) -> nat
    decreases n,
{
    if n <= 0 {
        0
    } else {
        bytes_of(files, n - 1) + (files[n - 1].file_size_bytes as u64) as nat
    }
}

/// The bytes of those of the first `n` files of a plan that have the role, and how
/// many they are.
pub open spec fn sums_of_role(
    files: Seq<ArchiveOperationFile>,
    role: FrameRole,
    n: int,
) -> (nat, nat)
    decreases n,
{
    if n <= 0 {
        (0, 0)
    } else {
        let before = sums_of_role(files, role, n - 1);
        if names_role(files[n - 1].frame_role@, role) {
            (
                before.0 + (files[n - 1].file_size_bytes as u64) as nat,
                before.1 + 1,
            )
        } else {
            before
        }
    }
}

proof fn lemma_sums(
    files: Seq<ArchiveOperationFile>,
    cs: Seq<CandidateFile>,
    role: FrameRole,
    n: int,
)
    requires
        0 <= n <= files.len(),
        files.len() == cs.len(),
        forall|i: int|
            0 <= i < files.len() ==> (#[trigger] files[i]).frame_role@ == cs[i].role.word()
                && files[i].file_size_bytes == cs[i].file_size,
    ensures
        bytes_of(files, n) == total_bytes(cs, n),
        sums_of_role(files, role, n).0 == role_bytes(cs, role, n),
        sums_of_role(files, role, n).1 == role_count(cs, role, n),
    decreases n,
{
    if n > 0 {
        lemma_sums(files, cs, role, n - 1);
        lemma_role_words(role, cs[n - 1].role);
        assert(files[n - 1].frame_role@ == cs[n - 1].role.word());
    }
}

proof fn lemma_role_counted(cs: Seq<CandidateFile>, n: int, i: int)
    requires
        0 <= i < n <= cs.len(),
    ensures
        role_count(cs, cs[i].role, n) > 0,
    decreases n,
{
    if i < n - 1 {
        lemma_role_counted(cs, n - 1, i);
    }
}

proof fn lemma_role_in_use(cs: Seq<CandidateFile>, role: FrameRole, k: int) -> (z: int)
    requires
        0 <= k <= 5,
        role_count(cs, role, cs.len() as int) > 0,
        exists|j: int| 0 <= j < k && #[trigger] role_at(j) == role,
    ensures
        0 <= z < roles_in_use(cs, k).len(),
        roles_in_use(cs, k)[z] == role,
    decreases k,
{
    if role_at(k - 1) == role {
        roles_in_use(cs, k - 1).len() as int
    } else {
        let j = choose|j: int| 0 <= j < k && #[trigger] role_at(j) == role;
        assert(j < k - 1);
        lemma_role_in_use(cs, role, k - 1)
    }
}

/// The zip of a plan that a file goes into: it is the one for the role of the file.
pub open spec fn goes_into(f: ArchiveOperationFile, z: PlannedZip) -> bool {
    f.target_zip_path@ == z.zip_path@ && names_role(f.frame_role@, z.frame_role)
}

/// What a plan for a frame set says of each of its files is so: the file was asked
/// for, in that role and with that disposition; its hash is the one that the source
/// on disk has; and it goes into the zip of the plan that is for its role. No two
/// files have one place in the zips.
pub proof fn law_planned_file_is_as_asked(
    q: FrameSetRequest,
    disk: DiskFacts,
    shared: Vec<SharedCalibrationWarning>,
    plan: ArchivePlan,
    i: int,
    j: int,
)
    requires
        call_ensures(build_plan, (&q, &disk, shared), Ok::<ArchivePlan, PlanError>(plan)),
        0 <= i < plan.files@.len(),
    ensures
        goes_as_asked(plan.files@[i], q.files, q.dispositions),
        has_found_hash(plan.files@[i], disk.found@),
        exists|z: int|
            0 <= z < plan.zips@.len() && #[trigger] goes_into(plan.files@[i], plan.zips@[z]),
        0 <= j < plan.files@.len() && i != j ==> {
            &&& plan.files@[i].file_id != plan.files@[j].file_id
            &&& lowercase(plan.files@[i].target_path_in_zip@) != lowercase(
                plan.files@[j].target_path_in_zip@,
            )
        },
{
    let cs = q.candidates();
    let f = plan.files@[i];
    let c = cs[i];
    assert(is_candidates(cs, q.files, q.dispositions));
    lemma_takes_what_is_asked_for(q.files, q.dispositions, cs, i, 0);
    lemma_no_fault(cs, disk.found@, cs.len() as int, i);
    let list = asked_list(q.files, c.role);
    let k = choose|k: int|
        0 <= k < list.len() && (#[trigger] list[k]).file_id == c.file_id && list[k].path
            == c.file_path && list[k].size == c.file_size;
    assert(f.file_id == Some(list[k].file_id));
    assert(is_listed(f, list));
    let at = found_place(disk.found@, c.file_path@, 0);
    assert(disk.found@[at].path@ == f.source_path@);
    lemma_role_counted(cs, cs.len() as int, i);
    assert(role_at(0) == FrameRole::Light && role_at(1) == FrameRole::Flat && role_at(2)
        == FrameRole::Dark && role_at(3) == FrameRole::Bias && role_at(4) == FrameRole::Darkflat);
    let z = lemma_role_in_use(cs, c.role, 5);
    assert(is_role_zip(
        plan.zips@[z],
        roles_in_use(cs, 5)[z],
        cs,
        q.archive_root_path@,
        q.metadata,
        q.host,
    ));
    assert(goes_into(f, plan.zips@[z]));
    if 0 <= j < plan.files@.len() && i != j {
        let places = layout_places(cs, texts(q.scan_roots@), q.host);
        assert(plan.files@[j].file_id == Some(cs[j].file_id));
        assert(plan.files@[j].target_path_in_zip@ == places[j]);
        assert(f.target_path_in_zip@ == places[i]);
        assert(lowercase(places[i]) != lowercase(places[j]));
        if i < j {
            assert(cs[i].file_id != cs[j].file_id);
        } else {
            assert(cs[j].file_id != cs[i].file_id);
        }
    }
}

/// Whether the file with the id is in the plan, in the role and with the
/// disposition that the words name.
pub open spec fn is_planned(
    plan: ArchivePlan,
    id: i64,
    role: Seq<char>,
    d: Option<ArchiveDisposition>,
) -> bool {
    exists|i: int|
        0 <= i < plan.files@.len() && (#[trigger] plan.files@[i]).file_id == Some(id)
            && plan.files@[i].frame_role@ == role && names_disposition(
            plan.files@[i].disposition@,
            d,
        )
}

proof fn lemma_planned(
    q: FrameSetRequest,
    disk: DiskFacts,
    shared: Seq<SharedCalibrationWarning>,
    plan: ArchivePlan,
    id: i64,
    role: FrameRole,
    d: Option<ArchiveDisposition>,
)
    requires
        is_frame_set_plan(q, disk, shared, plan),
        is_asked(d),
    ensures
        is_entered(q.candidates(), id, role, d) ==> is_planned(plan, id, role.word(), d),
{
    let cs = q.candidates();
    if is_entered(cs, id, role, d) {
        let i = choose|i: int|
            0 <= i < cs.len() && (#[trigger] cs[i]).file_id == id && cs[i].role == role && Some(
                cs[i].disposition,
            ) == d;
        assert(plan.files@[i].file_id == Some(id));
    }
}

/// A plan for a frame set leaves out nothing that was asked for: every light is in
/// it and moves, and every calibration file of a type that is to be moved or copied
/// is in it as that type, unless it is there in a role that goes before.
pub proof fn law_nothing_asked_for_is_left_out(
    q: FrameSetRequest,
    disk: DiskFacts,
    shared: Vec<SharedCalibrationWarning>,
    plan: ArchivePlan,
    id: i64,
)
    requires
        call_ensures(build_plan, (&q, &disk, shared), Ok::<ArchivePlan, PlanError>(plan)),
    ensures
        ({
            let f = q.files;
            let d = q.dispositions;
            let light = holds(f.lights@, id);
            let flat = is_asked(d.flats) && holds(f.flats@, id);
            let darkflat = is_asked(d.darkflats) && holds(f.darkflats@, id);
            let dark = is_asked(d.darks) && holds(f.darks@, id);
            let bias = is_asked(d.bias) && holds(f.bias@, id);
            &&& light ==> is_planned(plan, id, "light"@, Some(ArchiveDisposition::Move))
            &&& flat && !light ==> is_planned(plan, id, "flat"@, d.flats)
            &&& darkflat && !flat && !light ==> is_planned(plan, id, "darkflat"@, d.darkflats)
            &&& dark && !darkflat && !flat && !light ==> is_planned(plan, id, "dark"@, d.darks)
            &&& bias && !dark && !darkflat && !flat && !light ==> is_planned(
                plan,
                id,
                "bias"@,
                d.bias,
            )
        }),
{
    let cs = q.candidates();
    let d = q.dispositions;
    assert(is_candidates(cs, q.files, d));
    lemma_takes_what_is_asked_for(q.files, d, cs, 0, id);
    lemma_planned(q, disk, shared@, plan, id, FrameRole::Light, Some(ArchiveDisposition::Move));
    if is_asked(d.flats) {
        lemma_planned(q, disk, shared@, plan, id, FrameRole::Flat, d.flats);
    }
    if is_asked(d.darkflats) {
        lemma_planned(q, disk, shared@, plan, id, FrameRole::Darkflat, d.darkflats);
    }
    if is_asked(d.darks) {
        lemma_planned(q, disk, shared@, plan, id, FrameRole::Dark, d.darks);
    }
    if is_asked(d.bias) {
        lemma_planned(q, disk, shared@, plan, id, FrameRole::Bias, d.bias);
    }
}

/// The numbers of a plan for a frame set add up: the whole is the sum of its files,
/// each zip counts the files of its role and their bytes, and there is room for the
/// whole with a margin of five per cent where the room is known. The plan is for
/// what it was asked for, and of its zips it names just those whose paths are taken.
pub proof fn law_plan_adds_up(
    q: FrameSetRequest,
    disk: DiskFacts,
    shared: Vec<SharedCalibrationWarning>,
    plan: ArchivePlan,
    z: int,
)
    requires
        call_ensures(build_plan, (&q, &disk, shared), Ok::<ArchivePlan, PlanError>(plan)),
    ensures
        q.is_archived,
        q.archived_at is None,
        plan.frames_set_id == q.frames_set_id,
        plan.calibration_set_id is None,
        plan.archive_root_path@ == q.archive_root_path@,
        plan.dispositions == q.dispositions,
        plan.compression == q.compression,
        plan.shared_calibrations@ == shared@,
        plan.total_size_bytes == bytes_of(plan.files@, plan.files@.len() as int),
        disk.available matches Some(a) ==> a >= plan.total_size_bytes + plan.total_size_bytes / 20,
        0 <= z < plan.zips@.len() ==> {
            let zip = plan.zips@[z];
            let sums = sums_of_role(plan.files@, zip.frame_role, plan.files@.len() as int);
            &&& zip.total_size_bytes == sums.0
            &&& zip.file_count == sums.1
            &&& zip.file_count > 0
            &&& zip.zip_path@ == host_joined(q.archive_root_path@, zip.zip_filename@, q.host)
            &&& holds_text(disk.existing@, zip.zip_path@) <==> exists|k: int|
                0 <= k < plan.conflicts@.len() && (#[trigger] plan.conflicts@[k]).zip_path@
                    == zip.zip_path@
        },
{
    let cs = q.candidates();
    let n = cs.len() as int;
    assert forall|i: int| 0 <= i < plan.files@.len() implies (
    #[trigger] plan.files@[i]).frame_role@ == cs[i].role.word() && plan.files@[i].file_size_bytes
        == cs[i].file_size by {}
    lemma_sums(plan.files@, cs, FrameRole::Light, n);
    if 0 <= z < plan.zips@.len() {
        let zip = plan.zips@[z];
        let role = roles_in_use(cs, 5)[z];
        assert(is_role_zip(zip, role, cs, q.archive_root_path@, q.metadata, q.host));
        lemma_sums(plan.files@, cs, zip.frame_role, n);
        lemma_roles_are_used(cs, 5, z);
        lemma_conflicts(plan, disk.existing@, z);
    }
}

proof fn lemma_roles_are_used(cs: Seq<CandidateFile>, k: int, z: int)
    requires
        0 <= z < roles_in_use(cs, k).len(),
    ensures
        role_count(cs, roles_in_use(cs, k)[z], cs.len() as int) > 0,
    decreases k,
{
    if k > 0 && z < roles_in_use(cs, k - 1).len() {
        lemma_roles_are_used(cs, k - 1, z);
        assert(roles_in_use(cs, k)[z] == roles_in_use(cs, k - 1)[z]);
    }
}

proof fn lemma_taken(zips: Seq<PlannedZip>, existing: Seq<String>, n: int, z: int)
    requires
        0 <= n <= zips.len(),
    ensures
        taken_places(zips, existing, n).contains(z) <==> 0 <= z < n && holds_text(
            existing,
            zips[z].zip_path@,
        ),
    decreases n,
{
    if n > 0 {
        lemma_taken(zips, existing, n - 1, z);
        let before = taken_places(zips, existing, n - 1);
        let now = taken_places(zips, existing, n);
        if before.contains(z) {
            let k = choose|k: int| 0 <= k < before.len() && before[k] == z;
            assert(now[k] == z);
        }
        if now.contains(z) {
            let k = choose|k: int| 0 <= k < now.len() && now[k] == z;
            if k < before.len() {
                assert(before[k] == z);
            }
        }
        if holds_text(existing, zips[n - 1].zip_path@) {
            assert(now[before.len() as int] == n - 1);
        }
    }
}

proof fn lemma_conflicts(plan: ArchivePlan, existing: Seq<String>, z: int)
    requires
        0 <= z < plan.zips@.len(),
        are_conflicts(
            plan.conflicts@,
            plan.zips@,
            taken_places(plan.zips@, existing, plan.zips@.len() as int),
        ),
    ensures
        holds_text(existing, plan.zips@[z].zip_path@) <==> exists|k: int|
            0 <= k < plan.conflicts@.len() && (#[trigger] plan.conflicts@[k]).zip_path@
                == plan.zips@[z].zip_path@,
{
    let zips = plan.zips@;
    let n = zips.len() as int;
    let places = taken_places(zips, existing, n);
    lemma_taken(zips, existing, n, z);
    if holds_text(existing, zips[z].zip_path@) {
        let k = choose|k: int| 0 <= k < places.len() && places[k] == z;
        assert(plan.conflicts@[k].zip_path@ == zips[z].zip_path@);
    }
    if exists|k: int|
        0 <= k < plan.conflicts@.len() && (#[trigger] plan.conflicts@[k]).zip_path@
            == zips[z].zip_path@ {
        let k = choose|k: int|
            0 <= k < plan.conflicts@.len() && (#[trigger] plan.conflicts@[k]).zip_path@
                == zips[z].zip_path@;
        assert(places.contains(places[k]));
        lemma_taken(zips, existing, n, places[k]);
    }
}

proof fn lemma_image_types()
    ensures
        "Dark"@ != "Flat"@,
        "Dark"@ != "Bias"@,
        "Dark"@ != "DarkFlat"@,
        "Flat"@ != "Bias"@,
        "Flat"@ != "DarkFlat"@,
        "Bias"@ != "DarkFlat"@,
{
    reveal_strlit("Dark");
    reveal_strlit("Flat");
    reveal_strlit("Bias");
    reveal_strlit("DarkFlat");
    assert("Dark"@.len() == 4 && "Flat"@.len() == 4 && "Bias"@.len() == 4 && "DarkFlat"@.len()
        == 8);
    assert("Dark"@[0] == 'D' && "Flat"@[0] == 'F' && "Bias"@[0] == 'B');
}

/// The frames of a calibration set have the role that their type names, and a set
/// of any other type has none; so sets of different types have different roles.
pub proof fn law_role_is_named_by_the_type(imagetyp: Seq<char>, other: Seq<char>)
    ensures
        imagetyp == "Dark"@ <==> calibration_role(imagetyp) == Some(FrameRole::Dark),
        imagetyp == "Flat"@ <==> calibration_role(imagetyp) == Some(FrameRole::Flat),
        imagetyp == "Bias"@ <==> calibration_role(imagetyp) == Some(FrameRole::Bias),
        imagetyp == "DarkFlat"@ <==> calibration_role(imagetyp) == Some(FrameRole::Darkflat),
        calibration_role(imagetyp) is Some && calibration_role(imagetyp) == calibration_role(other)
            ==> imagetyp == other,
{
    lemma_image_types();
}

/// Whether a plan for a calibration set is one for frames of the given role, and
/// for no other.
pub open spec fn is_all_of_role(plan: ArchivePlan, role: FrameRole) -> bool {
    let m = Some(ArchiveDisposition::Move);
    &&& plan.dispositions.flats == if role == FrameRole::Flat {
        m
    } else {
        None
    }
    &&& plan.dispositions.darks == if role == FrameRole::Dark {
        m
    } else {
        None
    }
    &&& plan.dispositions.bias == if role == FrameRole::Bias {
        m
    } else {
        None
    }
    &&& plan.dispositions.darkflats == if role == FrameRole::Darkflat {
        m
    } else {
        None
    }
    &&& plan.zips@.len() == 1
    &&& plan.zips@[0].frame_role == role
    &&& forall|i: int|
        0 <= i < plan.files@.len() ==> names_role((#[trigger] plan.files@[i]).frame_role@, role)
}

/// A plan for a calibration set is about frames of the type that the set names: its
/// files, its zip and its dispositions all say that type.
pub proof fn law_calibration_plan_is_of_its_type(
    q: CalibrationSetRequest,
    disk: DiskFacts,
    plan: ArchivePlan,
)
    requires
        call_ensures(
            build_calibration_set_plan,
            (&q, &disk),
            Ok::<ArchivePlan, PlanError>(plan),
        ),
    ensures
        q.imagetyp@ == "Dark"@ ==> is_all_of_role(plan, FrameRole::Dark),
        q.imagetyp@ == "Flat"@ ==> is_all_of_role(plan, FrameRole::Flat),
        q.imagetyp@ == "Bias"@ ==> is_all_of_role(plan, FrameRole::Bias),
        q.imagetyp@ == "DarkFlat"@ ==> is_all_of_role(plan, FrameRole::Darkflat),
        q.imagetyp@ == "Dark"@ || q.imagetyp@ == "Flat"@ || q.imagetyp@ == "Bias"@ || q.imagetyp@
            == "DarkFlat"@,
{
    let role = choose|role: FrameRole| is_calibration_plan(q, disk, role, plan);
    lemma_image_types();
    law_role_is_named_by_the_type(q.imagetyp@, q.imagetyp@);
    let cs = q.candidates(role);
    assert forall|i: int| 0 <= i < plan.files@.len() implies names_role(
        (#[trigger] plan.files@[i]).frame_role@,
        role,
    ) by {
        assert(cs[i].role == role);
    }
}

/// A plan for a calibration set moves each of its files, with the hash that its
/// source on disk has, into the one zip of the plan, and its numbers add up. It is
/// made only of a set that a master has superseded and that has files, none of which
/// is archived.
pub proof fn law_calibration_plan_moves_the_whole_set(
    q: CalibrationSetRequest,
    disk: DiskFacts,
    plan: ArchivePlan,
    i: int,
    j: int,
)
    requires
        call_ensures(
            build_calibration_set_plan,
            (&q, &disk),
            Ok::<ArchivePlan, PlanError>(plan),
        ),
    ensures
        q.superseded_by_set_id is Some,
        q.members@.len() > 0,
        plan.frames_set_id == 0,
        plan.calibration_set_id == Some(q.calibration_set_id),
        plan.archive_root_path@ == q.archive_root_path@,
        plan.compression == q.compression,
        plan.files@.len() == q.members@.len(),
        plan.zips@.len() == 1,
        plan.zips@[0].file_count == q.members@.len(),
        plan.total_size_bytes == bytes_of(plan.files@, plan.files@.len() as int),
        plan.zips@[0].total_size_bytes == plan.total_size_bytes,
        holds_text(disk.existing@, plan.zips@[0].zip_path@) <==> exists|k: int|
            0 <= k < plan.conflicts@.len() && (#[trigger] plan.conflicts@[k]).zip_path@
                == plan.zips@[0].zip_path@,
        0 <= i < plan.files@.len() ==> {
            let f = plan.files@[i];
            let m = q.members@[i];
            &&& m.archived_in_operation is None
            &&& f.file_id == Some(m.file_id)
            &&& f.source_path@ == m.path@
            &&& f.file_size_bytes == m.size
            &&& f.disposition@ == "move"@
            &&& f.target_zip_path@ == plan.zips@[0].zip_path@
            &&& has_found_hash(f, disk.found@)
        },
        0 <= i < j < plan.files@.len() ==> lowercase(plan.files@[i].target_path_in_zip@)
            != lowercase(plan.files@[j].target_path_in_zip@),
{
    let role = choose|role: FrameRole| is_calibration_plan(q, disk, role, plan);
    let cs = q.candidates(role);
    let n = cs.len() as int;
    assert forall|i: int| 0 <= i < plan.files@.len() implies (
    #[trigger] plan.files@[i]).frame_role@ == cs[i].role.word() && plan.files@[i].file_size_bytes
        == cs[i].file_size by {}
    lemma_sums(plan.files@, cs, role, n);
    lemma_conflicts(plan, disk.existing@, 0);
    if 0 <= i < n {
        lemma_no_fault(cs, disk.found@, n, i);
        lemma_none_archived(q.members@, n, i);
        let at = found_place(disk.found@, cs[i].file_path@, 0);
        assert(disk.found@[at].path@ == plan.files@[i].source_path@);
    }
    if 0 <= i < j < n {
        let places = layout_places(cs, texts(q.scan_roots@), q.host);
        assert(plan.files@[i].target_path_in_zip@ == places[i]);
        assert(plan.files@[j].target_path_in_zip@ == places[j]);
        assert(lowercase(places[i]) != lowercase(places[j]));
    }
}

proof fn lemma_none_archived(members: Seq<MemberFile>, n: int, i: int)
    requires
        0 <= i < n <= members.len(),
        archived_paths(members, n).len() == 0,
    ensures
        members[i].archived_in_operation is None,
    decreases n,
{
    if i < n - 1 {
        lemma_none_archived(members, n - 1, i);
    }
}

proof fn lemma_some_archived(members: Seq<MemberFile>, n: int)
    requires
        0 <= n <= members.len(),
    ensures
        forall|k: int|
            0 <= k < archived_paths(members, n).len() ==> exists|i: int|
                0 <= i < n && (#[trigger] members[i]).archived_in_operation is Some
                    && members[i].path@ == #[trigger] archived_paths(members, n)[k],
    decreases n,
{
    if n > 0 {
        lemma_some_archived(members, n - 1);
        let before = archived_paths(members, n - 1);
        let now = archived_paths(members, n);
        assert forall|k: int| 0 <= k < now.len() implies exists|i: int|
            0 <= i < n && (#[trigger] members[i]).archived_in_operation is Some && members[i].path@
                == #[trigger] now[k] by {
            if k < before.len() {
                assert(now[k] == before[k]);
                let i = choose|i: int|
                    0 <= i < n - 1 && (#[trigger] members[i]).archived_in_operation is Some
                        && members[i].path@ == before[k];
                assert(members[i].path@ == now[k]);
            } else {
                assert(members[n - 1].path@ == now[k]);
            }
        }
    }
}

/// A calibration set is refused for what is the matter with it: it is not
/// superseded, its type is not one that is archived, it has no files, or some of
/// them are archived already, and these are named. The first of them counts.
pub proof fn law_calibration_set_is_refused_for_its_reason(
    q: CalibrationSetRequest,
    r: Result<FrameRole, PlanError>,
)
    requires
        call_ensures(admit_calibration_set, (&q,), r),
    ensures
        r matches Ok(role) ==> match role {
            FrameRole::Dark => q.imagetyp@ == "Dark"@,
            FrameRole::Flat => q.imagetyp@ == "Flat"@,
            FrameRole::Bias => q.imagetyp@ == "Bias"@,
            FrameRole::Darkflat => q.imagetyp@ == "DarkFlat"@,
            FrameRole::Light => false,
        },
        ({
            let id = q.calibration_set_id;
            let t = q.imagetyp@;
            let known = t == "Dark"@ || t == "Flat"@ || t == "Bias"@ || t == "DarkFlat"@;
            let some_archived = exists|i: int|
                0 <= i < q.members@.len() && (
                #[trigger] q.members@[i]).archived_in_operation is Some;
            match (match r {
                Ok(_) => None,
                Err(e) => Some(e@),
            }) {
                Some(PlanFailure::NotSuperseded(i)) => i == id && q.superseded_by_set_id is None,
                Some(PlanFailure::UnsupportedType(i, word)) => i == id && word == t && !known
                    && q.superseded_by_set_id is Some,
                Some(PlanFailure::NoMembers(i)) => i == id && q.members@.len() == 0 && known
                    && q.superseded_by_set_id is Some,
                Some(PlanFailure::MembersArchived(i, paths)) => {
                    &&& i == id
                    &&& known
                    &&& q.superseded_by_set_id is Some
                    &&& some_archived
                    &&& paths.len() > 0
                    &&& forall|k: int|
                        0 <= k < paths.len() ==> exists|m: int|
                            0 <= m < q.members@.len() && (
                            #[trigger] q.members@[m]).archived_in_operation is Some
                                && q.members@[m].path@ == #[trigger] paths[k]
                },
                Some(_) => false,
                None => {
                    &&& q.superseded_by_set_id is Some
                    &&& known
                    &&& q.members@.len() > 0
                    &&& !some_archived
                },
            }
        }),
{
    let n = q.members@.len() as int;
    law_role_is_named_by_the_type(q.imagetyp@, q.imagetyp@);
    lemma_some_archived(q.members@, n);
    let gone = archived_paths(q.members@, n);
    if gone.len() > 0 {
        assert(gone[0] == gone[0]);
    } else {
        assert forall|i: int| 0 <= i < n implies (
        #[trigger] q.members@[i]).archived_in_operation is None by {
            lemma_none_archived(q.members@, n, i);
        }
    }
}

proof fn lemma_fault(cs: Seq<CandidateFile>, found: Seq<FoundSource>, n: int) -> (i: int)
    requires
        0 <= n <= cs.len(),
        first_fault(cs, found, n) is Some,
    ensures
        0 <= i < n,
        first_fault(cs, found, n) == source_fault(found, cs[i].file_path@),
    decreases n,
{
    if first_fault(cs, found, n - 1) is Some {
        lemma_fault(cs, found, n - 1)
    } else {
        n - 1
    }
}

/// Whether a source is among those that were found.
pub open spec fn is_found(found: Seq<FoundSource>, path: Seq<char>) -> bool {
    exists|k: int| 0 <= k < found.len() && (#[trigger] found[k]).path@ == path
}

/// A plan for a frame set is refused for what is the matter: the set is not in the
/// archive section or is zipped already, a file that was asked for is not on disk or
/// cannot be hashed, two of them have one place, or there is not enough room.
pub proof fn law_frame_set_is_refused_for_its_reason(
    q: FrameSetRequest,
    disk: DiskFacts,
    shared: Vec<SharedCalibrationWarning>,
    e: PlanError,
)
    requires
        call_ensures(build_plan, (&q, &disk, shared), Err::<ArchivePlan, PlanError>(e)),
        disk.available is Some ==> bytes_needed(
            total_bytes(q.candidates(), q.candidates().len() as int),
        ) <= u64::MAX,
    ensures
        !q.is_archived <==> e is NotInArchiveSection,
        q.is_archived && q.archived_at is Some <==> e is AlreadyZipped,
        e matches PlanError::SourceMissing(path) ==> {
            &&& !is_found(disk.found@, path@)
            &&& exists|i: int|
                0 <= i < q.candidates().len() && (#[trigger] q.candidates()[i]).file_path@ == path@
                    && is_asked_for(q.candidates()[i], q.files, q.dispositions)
        },
        e matches PlanError::HashFailed(path, cause) ==> exists|k: int|
            0 <= k < disk.found@.len() && (#[trigger] disk.found@[k]).path@ == path@ && (
            disk.found@[k].hash matches Err(why) && why@ == cause@),
        e matches PlanError::NoSpace(needed, room) ==> {
            let total = total_bytes(q.candidates(), q.candidates().len() as int);
            &&& disk.available == Some(room)
            &&& room < needed
            &&& needed == total + total / 20
        },
        e is NotInArchiveSection || e is AlreadyZipped || e is SourceMissing || e is HashFailed || e
            is SamePlace || e is NoSpace,
{
    let cs = q.candidates();
    let n = cs.len() as int;
    if q.is_archived && q.archived_at is None && first_fault(cs, disk.found@, n) is Some {
        let i = lemma_fault(cs, disk.found@, n);
        lemma_found(disk.found@, cs[i].file_path@, 0);
        assert(is_candidates(cs, q.files, q.dispositions));
        lemma_takes_what_is_asked_for(q.files, q.dispositions, cs, i, 0);
        let k = found_place(disk.found@, cs[i].file_path@, 0);
        if k < disk.found@.len() {
            assert(disk.found@[k].path@ == cs[i].file_path@);
        }
    }
}

} // verus!
