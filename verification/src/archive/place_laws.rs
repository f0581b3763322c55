//! Where a plan puts its zips, and where its files go in them.

use crate::archive::models::{
    ArchiveOperationFile, ArchivePlan, FrameRole, SharedCalibrationWarning,
};
use crate::archive::path_layout::{
    calibration_zip_dir, calibration_zip_filename, free_base, is_free_base_number,
    lemma_root_name, names_given, numbered_base, path_in_zip, resolve_scan_root_prefixes,
    root_base, root_base_name, root_names, under_root, zip_filename,
};
use crate::archive::plan_error::{PlanError, PlanFailure};
use crate::archive::planner::{
    build_calibration_set_plan, build_plan, ensure_unique_in_zip, first_root,
    is_calibration_plan, is_frame_set_plan, is_role_zip, role_zip_filename, roles_in_use,
    source_paths, zip_places, CalibrationSetRequest, DiskFacts, FrameSetMetadata, FrameSetRequest,
};
use crate::host_paths::{host_join, host_parent_of, Host};
use crate::text::{decimal, lowercase, texts};
use crate::text_map::TextMap;
use vstd::prelude::*;

verus! {

/// Whether an optional text is handed on as it is.
pub open spec fn is_handed_on(value: Option<String>, given: Option<&str>) -> bool {
    match value {
        Some(s) => given matches Some(t) && t@ == s@,
        None => given is None,
    }
}

/// The zip of a role is named by what the frame set says of itself, each part in its
/// own place.
pub proof fn law_a_zip_is_named_by_its_frame_set(
    meta: FrameSetMetadata,
    role: FrameRole,
    object: Option<&str>,
    start: Option<&str>,
    end: Option<&str>,
    telescope: Option<&str>,
    camera: Option<&str>,
    r: String,
    q: String,
)
    requires
        call_ensures(role_zip_filename, (&meta, role), r),
        call_ensures(zip_filename, (object, start, end, telescope, camera, role), q),
        is_handed_on(meta.object, object),
        is_handed_on(meta.start_date, start),
        is_handed_on(meta.end_date, end),
        is_handed_on(meta.telescope, telescope),
        is_handed_on(meta.camera, camera),
    ensures
        r@ == q@,
{
}

/// Each zip of a plan for a frame set lies in the archive root, under the name that
/// its role has there.
pub proof fn law_zips_lie_in_the_archive_root(
    q: FrameSetRequest,
    disk: DiskFacts,
    shared: Vec<SharedCalibrationWarning>,
    plan: ArchivePlan,
    z: int,
    root: &str,
    name: String,
    file: &str,
    path: String,
)
    requires
        call_ensures(build_plan, (&q, &disk, shared), Ok::<ArchivePlan, PlanError>(plan)),
        0 <= z < plan.zips@.len(),
        root@ == q.archive_root_path@,
        call_ensures(role_zip_filename, (&q.metadata, plan.zips@[z].frame_role), name),
        file@ == name@,
        call_ensures(host_join, (root, file, q.host), path),
    ensures
        plan.zips@[z].zip_filename@ == name@,
        plan.zips@[z].zip_path@ == path@,
{
    assert(is_frame_set_plan(q, disk, shared@, plan));
    let cs = q.candidates();
    assert(is_role_zip(
        plan.zips@[z],
        roles_in_use(cs, 5)[z],
        cs,
        q.archive_root_path@,
        q.metadata,
        q.host,
    ));
}

/// The zip of a plan for a calibration set lies in the directory of its camera and
/// date below the archive root, under a name made of what the set says of itself.
pub proof fn law_calibration_zip_lies_in_its_directory(
    q: CalibrationSetRequest,
    disk: DiskFacts,
    plan: ArchivePlan,
    root: &str,
    camera: Option<&str>,
    kind: &str,
    exposure: Option<&str>,
    start: &str,
    end: &str,
    below: String,
    below_text: &str,
    dir: String,
    dir_text: &str,
    name: String,
    name_text: &str,
    path: String,
)
    requires
        call_ensures(
            build_calibration_set_plan,
            (&q, &disk),
            Ok::<ArchivePlan, PlanError>(plan),
        ),
        root@ == q.archive_root_path@,
        is_handed_on(q.instrume, camera),
        is_handed_on(q.exptime, exposure),
        kind@ == q.imagetyp@,
        q.date_start matches Some(d) && d@ == start@,
        q.date_end matches Some(d) && d@ == end@,
        call_ensures(calibration_zip_dir, (camera, start, q.host), below),
        below_text@ == below@,
        call_ensures(host_join, (root, below_text, q.host), dir),
        dir_text@ == dir@,
        call_ensures(calibration_zip_filename, (camera, kind, q.gain, exposure, start, end), name),
        name_text@ == name@,
        call_ensures(host_join, (dir_text, name_text, q.host), path),
    ensures
        plan.zips@.len() == 1,
        plan.zips@[0].zip_filename@ == name@,
        plan.zips@[0].zip_path@ == path@,
{
    let role = choose|role: FrameRole| is_calibration_plan(q, disk, role, plan);
}

proof fn lemma_first_root(
    path: Seq<char>,
    roots: Seq<Seq<char>>,
    host: Host,
    i: int,
    k: int,
)
    requires
        0 <= i <= k <= roots.len(),
        k < roots.len() ==> under_root(path, roots[k], host),
        forall|j: int| i <= j < k ==> !under_root(path, #[trigger] roots[j], host),
    ensures
        first_root(path, roots, host, i) == if k < roots.len() {
            Some(roots[k])
        } else {
            None
        },
    decreases k - i,
{
    if i < k {
        lemma_first_root(path, roots, host, i + 1, k);
    }
}

/// Whether a file has its place below the first scan root that it lies under, by the
/// name that this root goes by.
pub open spec fn is_placed_under(
    f: ArchiveOperationFile,
    roots: Seq<String>,
    names: Map<Seq<char>, Seq<char>>,
    k: int,
    source: &str,
    root: &str,
    name: &str,
    host: Host,
) -> bool {
    &&& 0 <= k < roots.len()
    &&& source@ == f.source_path@
    &&& root@ == roots[k]@
    &&& under_root(source@, root@, host)
    &&& forall|j: int| 0 <= j < k ==> !under_root(source@, #[trigger] texts(roots)[j], host)
    &&& names.contains_key(root@)
    &&& name@ == names[root@]
}

/// A file of a plan for a frame set goes below the name of the first scan root that it
/// lies under, as it lies below that root.
pub proof fn law_a_file_goes_below_its_scan_root(
    q: FrameSetRequest,
    disk: DiskFacts,
    shared: Vec<SharedCalibrationWarning>,
    plan: ArchivePlan,
    i: int,
    names: TextMap,
    k: int,
    source: &str,
    root: &str,
    name: &str,
    place: String,
)
    requires
        call_ensures(build_plan, (&q, &disk, shared), Ok::<ArchivePlan, PlanError>(plan)),
        0 <= i < plan.files@.len(),
        call_ensures(resolve_scan_root_prefixes, (&q.scan_roots, q.host), names),
        is_placed_under(plan.files@[i], q.scan_roots@, names@, k, source, root, name, q.host),
        call_ensures(path_in_zip, (name, root, source, q.host), place),
    ensures
        plan.files@[i].target_path_in_zip@ == place@,
{
    assert(is_frame_set_plan(q, disk, shared@, plan));
    let roots = texts(q.scan_roots@);
    assert(plan.files@[i].source_path@ == q.candidates()[i].file_path@);
    lemma_first_root(source@, roots, q.host, 0, k);
}

/// A file of a plan for a calibration set goes below the name of the first scan root
/// that it lies under, as it lies below that root.
pub proof fn law_a_calibration_file_goes_below_its_scan_root(
    q: CalibrationSetRequest,
    disk: DiskFacts,
    plan: ArchivePlan,
    i: int,
    names: TextMap,
    k: int,
    source: &str,
    root: &str,
    name: &str,
    place: String,
)
    requires
        call_ensures(
            build_calibration_set_plan,
            (&q, &disk),
            Ok::<ArchivePlan, PlanError>(plan),
        ),
        0 <= i < plan.files@.len(),
        call_ensures(resolve_scan_root_prefixes, (&q.scan_roots, q.host), names),
        is_placed_under(plan.files@[i], q.scan_roots@, names@, k, source, root, name, q.host),
        call_ensures(path_in_zip, (name, root, source, q.host), place),
    ensures
        plan.files@[i].target_path_in_zip@ == place@,
{
    let role = choose|role: FrameRole| is_calibration_plan(q, disk, role, plan);
    let roots = texts(q.scan_roots@);
    assert(plan.files@[i].source_path@ == q.candidates(role)[i].file_path@);
    lemma_first_root(source@, roots, q.host, 0, k);
}

/// A file outside every scan root goes below the name of the directory that it lies in.
pub proof fn law_a_file_outside_goes_below_its_directory(
    q: FrameSetRequest,
    disk: DiskFacts,
    shared: Vec<SharedCalibrationWarning>,
    plan: ArchivePlan,
    i: int,
    source: &str,
    dir: Option<String>,
    dir_text: &str,
    name: String,
    name_text: &str,
    place: String,
)
    requires
        call_ensures(build_plan, (&q, &disk, shared), Ok::<ArchivePlan, PlanError>(plan)),
        0 <= i < plan.files@.len(),
        source@ == plan.files@[i].source_path@,
        forall|j: int|
            0 <= j < q.scan_roots@.len() ==> !under_root(
                source@,
                #[trigger] texts(q.scan_roots@)[j],
                q.host,
            ),
        call_ensures(host_parent_of, (source, q.host), dir),
        dir matches Some(d) && d@ == dir_text@,
        !root_names(texts(q.scan_roots@), q.host, q.scan_roots@.len() as int).contains_key(
            dir_text@,
        ),
        call_ensures(root_base_name, (dir_text, q.host), name),
        name_text@ == name@,
        call_ensures(path_in_zip, (name_text, dir_text, source, q.host), place),
    ensures
        plan.files@[i].target_path_in_zip@ == place@,
{
    assert(is_frame_set_plan(q, disk, shared@, plan));
    let roots = texts(q.scan_roots@);
    assert(plan.files@[i].source_path@ == q.candidates()[i].file_path@);
    lemma_first_root(source@, roots, q.host, 0, roots.len() as int);
}

/// A plan has no two files with one place up to case; a refusal names the place and
/// the two sources that share it.
pub proof fn law_files_that_share_a_place_are_named(
    files: Vec<ArchiveOperationFile>,
    r: Result<(), PlanError>,
    a: int,
    b: int,
)
    requires
        call_ensures(ensure_unique_in_zip, (&files,), r),
    ensures
        r is Ok && 0 <= a < b < files@.len() ==> lowercase(files@[a].target_path_in_zip@)
            != lowercase(files@[b].target_path_in_zip@),
        r matches Err(e) ==> exists|i: int, j: int|
            #![trigger files@[i], files@[j]]
            0 <= i < j < files@.len() && lowercase(files@[i].target_path_in_zip@) == lowercase(
                files@[j].target_path_in_zip@,
            ) && e@ == PlanFailure::SamePlace(
                files@[j].target_path_in_zip@,
                files@[i].source_path@,
                files@[j].source_path@,
            ),
{
    let places = zip_places(files@);
    let sources = source_paths(files@);
    if r is Ok && 0 <= a < b < files@.len() {
        assert(places[a] == files@[a].target_path_in_zip@);
        assert(places[b] == files@[b].target_path_in_zip@);
    }
    if let Err(e) = r {
        let (i, j) = choose|i: int, j: int|
            0 <= i < j < places.len() && lowercase(#[trigger] places[i]) == lowercase(
                #[trigger] places[j],
            ) && e@ == PlanFailure::SamePlace(places[j], sources[i], sources[j]);
        assert(files@[i].target_path_in_zip@ == places[i]);
        assert(files@[j].target_path_in_zip@ == places[j]);
    }
}

/// Whether a name is a base, or the base with a number.
pub open spec fn is_base_or_numbered(name: Seq<char>, base: Seq<char>) -> bool {
    name == base || exists|n: nat| n >= 2 && name == base + "_"@ + #[trigger] decimal(n)
}

proof fn lemma_given_name(paths: Seq<Seq<char>>, host: Host, n: int, k: int, base: Seq<char>)
    requires
        0 <= k < n <= paths.len(),
        base == root_base(paths[k], host),
    ensures
        names_given(paths, host, n).len() == n,
        is_base_or_numbered(names_given(paths, host, n)[k], base),
    decreases n,
{
    let before = names_given(paths, host, n - 1);
    if k < n - 1 {
        lemma_given_name(paths, host, n - 1, k, base);
    } else {
        lemma_given_len(paths, host, n - 1);
        let m = choose|m: nat| is_free_base_number(before, base, m);
        assert(free_base(before, base) == numbered_base(base, m));
        if m >= 2 {
            assert(free_base(before, base) == base + "_"@ + decimal(m));
        }
    }
}

proof fn lemma_given_len(paths: Seq<Seq<char>>, host: Host, n: int)
    requires
        0 <= n,
    ensures
        names_given(paths, host, n).len() == n,
    decreases n,
{
    if n > 0 {
        lemma_given_len(paths, host, n - 1);
    }
}

/// Each scan root goes by the name of its directory, with a number where that name is
/// taken; different roots go by different names.
pub proof fn law_scan_roots_go_by_their_directories(
    roots: Vec<String>,
    host: Host,
    r: TextMap,
    k: int,
    path: &str,
    base: String,
)
    requires
        call_ensures(resolve_scan_root_prefixes, (&roots, host), r),
        0 <= k < roots@.len(),
        path@ == roots@[k]@,
        call_ensures(root_base_name, (path, host), base),
    ensures
        r@.contains_key(roots@[k]@),
        is_base_or_numbered(r@[roots@[k]@], base@),
        forall|j: int|
            0 <= j < roots@.len() && (#[trigger] roots@[j])@ != roots@[k]@ ==> r@[roots@[j]@]
                != r@[roots@[k]@],
{
    let all = texts(roots@);
    assert(all[k] == path@);
    let n = roots@.len() as int;
    let at = lemma_root_name(all, host, path@, n);
    lemma_given_name(all, host, n, at, base@);
    assert forall|j: int| 0 <= j < roots@.len() && (#[trigger] roots@[j])@
        != roots@[k]@ implies r@[roots@[j]@] != r@[roots@[k]@] by {
        if j < k {
            assert(r@[roots@[j]@] != r@[roots@[k]@]);
        } else {
            assert(r@[roots@[k]@] != r@[roots@[j]@]);
        }
    }
}

} // verus!
