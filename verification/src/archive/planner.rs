//! Plans of archive operations: which file goes into which zip, and where.
//!
//! What is on record and what is on disk comes as data; a plan is a function
//! of it.

use crate::archive::models::{
    ArchiveCompression, ArchiveDisposition, ArchiveOperationFile, ArchivePlan, Dispositions,
    FrameRole, PlannedZip, SharedCalibrationWarning, ZipFilenameConflict,
};
use crate::archive::path_layout::{
    calibration_dir, calibration_zip_dir, calibration_zip_filename, calibration_zip_name, in_zip,
    path_in_zip, path_starts_with_fold, resolve_scan_root_prefixes, root_base, root_base_name,
    root_names, under_root, zip_filename, zip_name,
};
use crate::archive::plan_error::{PlanError, PlanFailure};
use crate::host_paths::{host_join, host_joined, host_parent, host_parent_of, Host};
use crate::text::{holds_text, list_holds, lowercase, lowercase_text, same_text, texts};
use crate::text_map::TextMap;
use vstd::prelude::*;

verus! {

/// A file that the catalog knows.
pub struct CatalogFile {
    pub file_id: i64,
    pub path: String,
    pub size: i64,
}

/// The files that a frame set reaches, by what they are for.
pub struct FrameSetFiles {
    pub lights: Vec<CatalogFile>,
    pub flats: Vec<CatalogFile>,
    pub darks: Vec<CatalogFile>,
    pub bias: Vec<CatalogFile>,
    pub darkflats: Vec<CatalogFile>,
}

/// A file that a plan takes in.
#[derive(Debug)]
pub struct CandidateFile {
    pub file_id: i64,
    pub file_path: String,
    pub file_size: i64,
    pub role: FrameRole,
    pub disposition: ArchiveDisposition,
}

impl Clone for CandidateFile {
    fn clone(&self) -> (r: Self)
        ensures
            r == *self,
    {
        CandidateFile {
            file_id: self.file_id,
            file_path: self.file_path.clone(),
            file_size: self.file_size,
            role: self.role,
            disposition: self.disposition,
        }
    }
}

/// What the frames of a set say of themselves.
pub struct FrameSetMetadata {
    pub object: Option<String>,
    pub start_date: Option<String>,
    pub end_date: Option<String>,
    pub telescope: Option<String>,
    pub camera: Option<String>,
}

/// A source file that was found on disk, with its hash or why it has none.
pub struct FoundSource {
    pub path: String,
    pub hash: Result<String, String>,
}

/// The files of one kind as candidates.
pub open spec fn candidates_of(
    files: Seq<CatalogFile>,
    role: FrameRole,
    disposition: ArchiveDisposition,
) -> Seq<CandidateFile> {
    Seq::new(
        files.len(),
        |i: int|
            CandidateFile {
                file_id: files[i].file_id,
                file_path: files[i].path,
                file_size: files[i].size,
                role,
                disposition,
            },
    )
}

/// The files of a calibration type as candidates, where they are wanted.
pub open spec fn wanted(
    files: Seq<CatalogFile>,
    role: FrameRole,
    disposition: Option<ArchiveDisposition>,
) -> Seq<CandidateFile> {
    match disposition {
        Some(d) => if d == ArchiveDisposition::Skip {
            Seq::empty()
        } else {
            candidates_of(files, role, d)
        },
        None => Seq::empty(),
    }
}

/// All candidates: the lights, which always move, then each calibration type
/// that is wanted.
pub open spec fn collected(files: FrameSetFiles, d: Dispositions) -> Seq<CandidateFile> {
    candidates_of(files.lights@, FrameRole::Light, ArchiveDisposition::Move) + wanted(
        files.flats@,
        FrameRole::Flat,
        d.flats,
    ) + wanted(files.darks@, FrameRole::Dark, d.darks) + wanted(
        files.bias@,
        FrameRole::Bias,
        d.bias,
    ) + wanted(files.darkflats@, FrameRole::Darkflat, d.darkflats)
}

/// The first place at or behind `i` with the given file, or the length.
pub open spec fn place_of_file(cs: Seq<CandidateFile>, file_id: i64, i: int) -> int
    decreases cs.len() - i,
{
    if i >= cs.len() {
        cs.len() as int
    } else if cs[i].file_id == file_id {
        i
    } else {
        place_of_file(cs, file_id, i + 1)
    }
}

/// A list of candidates with one more: a file that is there already keeps its
/// place, in the role that ranks first.
pub open spec fn merged(cs: Seq<CandidateFile>, c: CandidateFile) -> Seq<CandidateFile> {
    let i = place_of_file(cs, c.file_id, 0);
    if i >= cs.len() {
        cs.push(c)
    } else if c.role.rank() < cs[i].role.rank() {
        cs.update(i, c)
    } else {
        cs
    }
}

/// The first `n` candidates, each file once.
pub open spec fn deduped(cs: Seq<CandidateFile>, n: int) -> Seq<CandidateFile>
    decreases n,
{
    if n <= 0 {
        Seq::empty()
    } else {
        merged(deduped(cs, n - 1), cs[n - 1])
    }
}

proof fn lemma_place_of_file(cs: Seq<CandidateFile>, file_id: i64, i: int)
    requires
        0 <= i <= cs.len(),
    ensures
        i <= place_of_file(cs, file_id, i) <= cs.len(),
        place_of_file(cs, file_id, i) < cs.len() ==> cs[place_of_file(cs, file_id, i)].file_id
            == file_id,
        forall|k: int|
            i <= k < place_of_file(cs, file_id, i) ==> (#[trigger] cs[k]).file_id != file_id,
    decreases cs.len() - i,
{
    if i < cs.len() && cs[i].file_id != file_id {
        lemma_place_of_file(cs, file_id, i + 1);
    }
}

/// No file stands twice.
pub open spec fn files_distinct(cs: Seq<CandidateFile>) -> bool {
    forall|i: int, j: int|
        0 <= i < j < cs.len() ==> (#[trigger] cs[i]).file_id != (#[trigger] cs[j]).file_id
}

/// Whether the file of `c` stands in the list, in a role that ranks no lower.
pub open spec fn covers(cs: Seq<CandidateFile>, c: CandidateFile) -> bool {
    exists|i: int|
        0 <= i < cs.len() && (#[trigger] cs[i]).file_id == c.file_id && cs[i].role.rank()
            <= c.role.rank()
}

/// Of each candidate file a plan takes exactly one entry: the entries are
/// among the candidates, no file has two, and the entry of a file has the role
/// that ranks first.
pub proof fn law_each_file_once_in_its_best_role(cs: Seq<CandidateFile>, n: int)
    requires
        0 <= n <= cs.len(),
    ensures
        files_distinct(deduped(cs, n)),
        forall|i: int| 0 <= i < deduped(cs, n).len() ==> cs.contains(#[trigger] deduped(cs, n)[i]),
        forall|k: int| 0 <= k < n ==> covers(deduped(cs, n), #[trigger] cs[k]),
    decreases n,
{
    if n > 0 {
        law_each_file_once_in_its_best_role(cs, n - 1);
        let d = deduped(cs, n - 1);
        let c = cs[n - 1];
        let e = merged(d, c);
        let p = place_of_file(d, c.file_id, 0);
        lemma_place_of_file(d, c.file_id, 0);
        assert forall|k: int| 0 <= k < n implies covers(e, #[trigger] cs[k]) by {
            if k < n - 1 {
                let i = choose|i: int|
                    0 <= i < d.len() && (#[trigger] d[i]).file_id == cs[k].file_id
                        && d[i].role.rank() <= cs[k].role.rank();
                assert(covers(d, cs[k]));
                assert(e[i].file_id == cs[k].file_id && e[i].role.rank() <= cs[k].role.rank());
            } else if p >= d.len() {
                assert(e[d.len() as int] == c);
            } else {
                assert(e[p].file_id == c.file_id);
            }
        }
        assert forall|i: int| 0 <= i < e.len() implies cs.contains(#[trigger] e[i]) by {
            if i < d.len() && e[i] == d[i] {
                assert(cs.contains(d[i]));
            }
        }
    }
}

/// Puts the files of one kind behind the candidates.
fn push_candidates(
    all: &mut Vec<CandidateFile>,
    files: &Vec<CatalogFile>,
    role: FrameRole,
    disposition: ArchiveDisposition,
)
    ensures
        final(all)@ == old(all)@ + candidates_of(files@, role, disposition),
{
    let ghost before = all@;
    let ghost more = candidates_of(files@, role, disposition);
    let mut i: usize = 0;
    assert(all@ =~= before + more.take(0));
    while i < files.len()
        invariant
            i <= files@.len(),
            more == candidates_of(files@, role, disposition),
            all@ == before + more.take(i as int),
        decreases files@.len() - i,
    {
        let f = &files[i];
        all.push(
            CandidateFile {
                file_id: f.file_id,
                file_path: f.path.clone(),
                file_size: f.size,
                role,
                disposition,
            },
        );
        i = i + 1;
        assert(all@ =~= before + more.take(i as int));
    }
    assert(more.take(files@.len() as int) =~= more);
}

/// Puts the files of a calibration type behind the candidates, where they are
/// wanted.
fn push_wanted(
    all: &mut Vec<CandidateFile>,
    files: &Vec<CatalogFile>,
    role: FrameRole,
    disposition: Option<ArchiveDisposition>,
)
    ensures
        final(all)@ == old(all)@ + wanted(files@, role, disposition),
{
    match disposition {
        Some(d) => {
            if d != ArchiveDisposition::Skip {
                push_candidates(all, files, role, d);
            } else {
                assert(all@ =~= all@ + Seq::<CandidateFile>::empty());
            }
        },
        None => {
            assert(all@ =~= all@ + Seq::<CandidateFile>::empty());
        },
    }
}

/// Whether `r` are the files that a plan for a frame set takes in.
pub open spec fn is_candidates(
    r: Seq<CandidateFile>,
    files: FrameSetFiles,
    d: Dispositions,
) -> bool {
    r == deduped(collected(files, d), collected(files, d).len() as int)
}

/// The files that a plan for a frame set takes in, each once, in the order in
/// which they are first met.
pub fn plan_candidates(files: &FrameSetFiles, dispositions: &Dispositions) -> (r: Vec<
    CandidateFile,
>)
    ensures
        is_candidates(r@, *files, *dispositions),
{
    let mut all: Vec<CandidateFile> = Vec::new();
    push_candidates(&mut all, &files.lights, FrameRole::Light, ArchiveDisposition::Move);
    assert(all@ =~= candidates_of(files.lights@, FrameRole::Light, ArchiveDisposition::Move));
    push_wanted(&mut all, &files.flats, FrameRole::Flat, dispositions.flats);
    push_wanted(&mut all, &files.darks, FrameRole::Dark, dispositions.darks);
    push_wanted(&mut all, &files.bias, FrameRole::Bias, dispositions.bias);
    push_wanted(&mut all, &files.darkflats, FrameRole::Darkflat, dispositions.darkflats);
    let mut out: Vec<CandidateFile> = Vec::new();
    let mut i: usize = 0;
    while i < all.len()
        invariant
            i <= all@.len(),
            out@ == deduped(all@, i as int),
        decreases all@.len() - i,
    {
        let c = all[i].clone();
        let mut k: usize = 0;
        while k < out.len() && out[k].file_id != c.file_id
            invariant
                k <= out@.len(),
                place_of_file(out@, c.file_id, 0) == place_of_file(out@, c.file_id, k as int),
            decreases out@.len() - k,
        {
            k = k + 1;
        }
        if k == out.len() {
            out.push(c);
        } else if c.role.priority() < out[k].role.priority() {
            out.set(k, c);
        }
        i = i + 1;
    }
    out
}

/// The first scan root at or behind `i` that a path lies under.
pub open spec fn first_root(
    path: Seq<char>,
    roots: Seq<Seq<char>>,
    host: Host,
    i: int,
) -> Option<Seq<char>>
    decreases roots.len() - i,
{
    if i >= roots.len() {
        None
    } else if under_root(path, roots[i], host) {
        Some(roots[i])
    } else {
        first_root(path, roots, host, i + 1)
    }
}

/// The directory that the place of a file in a zip is told from: the first
/// scan root that it lies under, or else the directory that it lies in.
pub open spec fn layout_root(path: Seq<char>, roots: Seq<Seq<char>>, host: Host) -> Seq<char> {
    match first_root(path, roots, host, 0) {
        Some(r) => r,
        None => match host_parent(path, host) {
            Some(p) => p,
            None => Seq::empty(),
        },
    }
}

/// The place of a file in a zip.
pub open spec fn layout_path(path: Seq<char>, roots: Seq<Seq<char>>, host: Host) -> Seq<char> {
    let root = layout_root(path, roots, host);
    let names = root_names(roots, host, roots.len() as int);
    let label = if names.contains_key(root) {
        names[root]
    } else {
        root_base(root, host)
    };
    in_zip(label, root, path, host)
}

/// The place of `path` in a zip.
fn place_in_zip(path: &str, roots: &Vec<String>, names: &TextMap, host: Host) -> (r: String)
    requires
        names@ == root_names(texts(roots@), host, roots@.len() as int),
    ensures
        r@ == layout_path(path@, texts(roots@), host),
{
    let ghost all = texts(roots@);
    let mut i: usize = 0;
    while i < roots.len() && !path_starts_with_fold(path, roots[i].as_str(), host)
        invariant
            i <= roots@.len(),
            all == texts(roots@),
            first_root(path@, all, host, 0) == first_root(path@, all, host, i as int),
        decreases roots@.len() - i,
    {
        i = i + 1;
    }
    let root = if i < roots.len() {
        roots[i].clone()
    } else {
        match host_parent_of(path, host) {
            Some(p) => p,
            None => String::new(),
        }
    };
    assert(root@ =~= layout_root(path@, all, host));
    let label = match names.get(root.as_str()) {
        Some(n) => n.clone(),
        None => root_base_name(root.as_str(), host),
    };
    path_in_zip(label.as_str(), root.as_str(), path, host)
}

/// The first place at or behind `i` where a path was found, or the length.
pub open spec fn found_place(found: Seq<FoundSource>, path: Seq<char>, i: int) -> int
    decreases found.len() - i,
{
    if i >= found.len() {
        found.len() as int
    } else if found[i].path@ == path {
        i
    } else {
        found_place(found, path, i + 1)
    }
}

/// What is wrong with a source: it is not on disk, or it could not be hashed.
pub open spec fn source_fault(found: Seq<FoundSource>, path: Seq<char>) -> Option<PlanFailure> {
    let i = found_place(found, path, 0);
    if i >= found.len() {
        Some(PlanFailure::SourceMissing(path))
    } else {
        match found[i].hash {
            Ok(_) => None,
            Err(cause) => Some(PlanFailure::HashFailed(path, cause@)),
        }
    }
}

/// What is wrong with the first faulty one of the first `n` candidates.
pub open spec fn first_fault(
    cs: Seq<CandidateFile>,
    found: Seq<FoundSource>,
    n: int,
) -> Option<PlanFailure>
    decreases n,
{
    if n <= 0 {
        None
    } else {
        match first_fault(cs, found, n - 1) {
            Some(f) => Some(f),
            None => source_fault(found, cs[n - 1].file_path@),
        }
    }
}

/// The hash of a source that has one.
pub open spec fn source_hash(found: Seq<FoundSource>, path: Seq<char>) -> Seq<char> {
    found[found_place(found, path, 0)].hash->Ok_0@
}

/// Whether `f` is the entry of a plan for the candidate `c`.
pub open spec fn is_entry(
    f: ArchiveOperationFile,
    c: CandidateFile,
    zip: Seq<char>,
    place: Seq<char>,
    hash: Seq<char>,
) -> bool {
    &&& f.id == 0
    &&& f.operation_id == 0
    &&& f.file_id == Some(c.file_id)
    &&& f.source_path@ == c.file_path@
    &&& f.target_zip_path@ == zip
    &&& f.target_path_in_zip@ == place
    &&& f.expected_hash@ == hash
    &&& f.disposition@ == c.disposition.word()
    &&& f.frame_role@ == c.role.word()
    &&& f.file_size_bytes == c.file_size
}

/// Whether `files` are the entries of a plan for the candidates, one each.
pub open spec fn are_entries(
    files: Seq<ArchiveOperationFile>,
    cs: Seq<CandidateFile>,
    zips: Seq<Seq<char>>,
    found: Seq<FoundSource>,
    roots: Seq<Seq<char>>,
    host: Host,
) -> bool {
    &&& files.len() == cs.len()
    &&& forall|i: int|
        0 <= i < files.len() ==> is_entry(
            #[trigger] files[i],
            cs[i],
            zips[i],
            layout_path(cs[i].file_path@, roots, host),
            source_hash(found, cs[i].file_path@),
        )
}

/// Where the candidates go in their zips.
pub open spec fn layout_places(
    cs: Seq<CandidateFile>,
    roots: Seq<Seq<char>>,
    host: Host,
) -> Seq<Seq<char>> {
    Seq::new(cs.len(), |i: int| layout_path(cs[i].file_path@, roots, host))
}

/// Where the candidates come from.
pub open spec fn candidate_paths(cs: Seq<CandidateFile>) -> Seq<Seq<char>> {
    Seq::new(cs.len(), |i: int| cs[i].file_path@)
}

/// The entries of a plan, one for each candidate; `zips` holds the path of the
/// zip of each.
fn plan_files(
    cs: &Vec<CandidateFile>,
    zips: &Vec<String>,
    found: &Vec<FoundSource>,
    roots: &Vec<String>,
    host: Host,
) -> (r: Result<Vec<ArchiveOperationFile>, PlanError>)
    requires
        zips@.len() == cs@.len(),
    ensures
        match r {
            Ok(files) => {
                &&& first_fault(cs@, found@, cs@.len() as int) is None
                &&& are_entries(files@, cs@, texts(zips@), found@, texts(roots@), host)
            },
            Err(e) => first_fault(cs@, found@, cs@.len() as int) == Some(e@),
        },
{
    let names = resolve_scan_root_prefixes(roots, host);
    let mut files: Vec<ArchiveOperationFile> = Vec::new();
    let mut i: usize = 0;
    while i < cs.len()
        invariant
            i <= cs@.len(),
            zips@.len() == cs@.len(),
            names@ == root_names(texts(roots@), host, roots@.len() as int),
            first_fault(cs@, found@, i as int) is None,
            are_entries(
                files@,
                cs@.take(i as int),
                texts(zips@),
                found@,
                texts(roots@),
                host,
            ),
        decreases cs@.len() - i,
    {
        let c = &cs[i];
        let mut k: usize = 0;
        while k < found.len() && !same_text(found[k].path.as_str(), c.file_path.as_str())
            invariant
                k <= found@.len(),
                found_place(found@, c.file_path@, 0) == found_place(
                    found@,
                    c.file_path@,
                    k as int,
                ),
            decreases found@.len() - k,
        {
            k = k + 1;
        }
        if k == found.len() {
            let e = PlanError::SourceMissing(c.file_path.clone());
            proof {
                lemma_first_fault(cs@, found@, i as int + 1, cs@.len() as int);
            }
            return Err(e);
        }
        match &found[k].hash {
            Err(cause) => {
                let e = PlanError::HashFailed(c.file_path.clone(), cause.clone());
                proof {
                    lemma_first_fault(cs@, found@, i as int + 1, cs@.len() as int);
                }
                return Err(e);
            },
            Ok(hash) => {
                let f = ArchiveOperationFile {
                    id: 0,
                    operation_id: 0,
                    file_id: Some(c.file_id),
                    source_path: c.file_path.clone(),
                    target_zip_path: zips[i].clone(),
                    target_path_in_zip: place_in_zip(c.file_path.as_str(), roots, &names, host),
                    expected_hash: hash.clone(),
                    disposition: c.disposition.as_str().to_owned(),
                    frame_role: c.role.as_str().to_owned(),
                    file_size_bytes: c.file_size,
                };
                let ghost before = files@;
                files.push(f);
                assert forall|j: int| 0 <= j < files@.len() implies is_entry(
                    #[trigger] files@[j],
                    cs@.take(i + 1)[j],
                    texts(zips@)[j],
                    layout_path(cs@.take(i + 1)[j].file_path@, texts(roots@), host),
                    source_hash(found@, cs@.take(i + 1)[j].file_path@),
                ) by {
                    if j < i {
                        assert(files@[j] == before[j]);
                        assert(cs@.take(i as int)[j] == cs@[j]);
                    }
                }
            },
        }
        i = i + 1;
    }
    assert(cs@.take(cs@.len() as int) =~= cs@);
    Ok(files)
}

proof fn lemma_first_fault(cs: Seq<CandidateFile>, found: Seq<FoundSource>, m: int, n: int)
    requires
        0 <= m <= n,
        first_fault(cs, found, m) is Some,
    ensures
        first_fault(cs, found, n) == first_fault(cs, found, m),
    decreases n - m,
{
    if m < n {
        lemma_first_fault(cs, found, m, n - 1);
    }
}

/// Where the files go in their zips.
pub open spec fn zip_places(files: Seq<ArchiveOperationFile>) -> Seq<Seq<char>> {
    Seq::new(files.len(), |i: int| files[i].target_path_in_zip@)
}

/// Where the files come from.
pub open spec fn source_paths(files: Seq<ArchiveOperationFile>) -> Seq<Seq<char>> {
    Seq::new(files.len(), |i: int| files[i].source_path@)
}

/// No two of the first `n` places are one, not even up to case.
pub open spec fn places_distinct(places: Seq<Seq<char>>, n: int) -> bool {
    forall|i: int, j: int|
        0 <= i < j < n ==> lowercase(#[trigger] places[i]) != lowercase(#[trigger] places[j])
}

/// Whether `f` names the first two files with one place in the zip.
pub open spec fn is_first_clash(
    places: Seq<Seq<char>>,
    sources: Seq<Seq<char>>,
    f: PlanFailure,
) -> bool {
    exists|i: int, j: int|
        {
            &&& 0 <= i < j < places.len()
            &&& lowercase(#[trigger] places[i]) == lowercase(#[trigger] places[j])
            &&& places_distinct(places, j)
            &&& f == PlanFailure::SamePlace(places[j], sources[i], sources[j])
        }
}

/// Refuses two files with one place in the zip, whichever zips they go into:
/// all files of an operation are staged in one directory. Places that differ
/// only in case are one.
pub fn ensure_unique_in_zip(files: &Vec<ArchiveOperationFile>) -> (r: Result<(), PlanError>)
    ensures
        match r {
            Ok(()) => places_distinct(zip_places(files@), files@.len() as int),
            Err(e) => is_first_clash(zip_places(files@), source_paths(files@), e@),
        },
{
    let ghost places = zip_places(files@);
    let mut keys: Vec<String> = Vec::new();
    let mut j: usize = 0;
    while j < files.len()
        invariant
            j <= files@.len(),
            places == zip_places(files@),
            keys@.len() == j,
            forall|k: int| 0 <= k < j ==> (#[trigger] keys@[k])@ == lowercase(places[k]),
            places_distinct(places, j as int),
        decreases files@.len() - j,
    {
        let key = lowercase_text(files[j].target_path_in_zip.as_str());
        let mut i: usize = 0;
        while i < j
            invariant
                i <= j < files@.len(),
                places == zip_places(files@),
                keys@.len() == j,
                key@ == lowercase(places[j as int]),
                forall|k: int| 0 <= k < j ==> (#[trigger] keys@[k])@ == lowercase(places[k]),
                forall|k: int|
                    0 <= k < i ==> lowercase(#[trigger] places[k]) != lowercase(places[j as int]),
                places_distinct(places, j as int),
            decreases j - i,
        {
            if keys[i] == key {
                let e = PlanError::SamePlace(
                    files[j].target_path_in_zip.clone(),
                    files[i].source_path.clone(),
                    files[j].source_path.clone(),
                );
                assert(lowercase(places[i as int]) == lowercase(places[j as int]));
                return Err(e);
            }
            i = i + 1;
        }
        keys.push(key);
        j = j + 1;
    }
    Ok(())
}

/// The bytes that a recorded size stands for.
pub open spec fn byte_count(size: i64) -> nat {
    (size as u64) as nat
}

/// The bytes of the first `n` candidates.
pub open spec fn total_bytes(cs: Seq<CandidateFile>, n: int) -> nat
    decreases n,
{
    if n <= 0 {
        0
    } else {
        total_bytes(cs, n - 1) + byte_count(cs[n - 1].file_size)
    }
}

/// The bytes of those of the first `n` candidates that have the given role.
pub open spec fn role_bytes(cs: Seq<CandidateFile>, role: FrameRole, n: int) -> nat
    decreases n,
{
    if n <= 0 {
        0
    } else {
        role_bytes(cs, role, n - 1) + if cs[n - 1].role == role {
            byte_count(cs[n - 1].file_size)
        } else {
            0
        }
    }
}

/// How many of the first `n` candidates have the given role.
pub open spec fn role_count(cs: Seq<CandidateFile>, role: FrameRole, n: int) -> nat
    decreases n,
{
    if n <= 0 {
        0
    } else {
        role_count(cs, role, n - 1) + if cs[n - 1].role == role {
            1nat
        } else {
            0nat
        }
    }
}

proof fn lemma_role_sums(cs: Seq<CandidateFile>, role: FrameRole, m: int, n: int)
    requires
        0 <= m <= n,
    ensures
        role_bytes(cs, role, n) <= total_bytes(cs, n),
        role_count(cs, role, n) <= n,
        total_bytes(cs, m) <= total_bytes(cs, n),
    decreases n,
{
    if n > 0 {
        if m < n {
            lemma_role_sums(cs, role, m, n - 1);
        } else {
            lemma_role_sums(cs, role, n - 1, n - 1);
        }
    }
}

/// The optional text of a field.
pub open spec fn field(value: Option<String>) -> Option<Seq<char>> {
    match value {
        Some(s) => Some(s@),
        None => None,
    }
}

fn field_str(value: &Option<String>) -> (r: Option<&str>)
    ensures
        crate::archive::path_layout::opt(r) == field(*value),
{
    match value {
        Some(s) => Some(s.as_str()),
        None => None,
    }
}

/// The name of the zip for one role of a frame set.
pub open spec fn role_zip_name(meta: FrameSetMetadata, role: FrameRole) -> Seq<char> {
    zip_name(
        field(meta.object),
        field(meta.start_date),
        field(meta.end_date),
        field(meta.telescope),
        field(meta.camera),
        role,
    )
}

/// The path of the zip for one role of a frame set.
pub open spec fn role_zip_path(
    root: Seq<char>,
    meta: FrameSetMetadata,
    role: FrameRole,
    host: Host,
) -> Seq<char> {
    host_joined(root, role_zip_name(meta, role), host)
}

/// The name of the zip for one role of a frame set.
pub fn role_zip_filename(meta: &FrameSetMetadata, role: FrameRole) -> (r: String)
    ensures
        r@ == role_zip_name(*meta, role),
{
    zip_filename(
        field_str(&meta.object),
        field_str(&meta.start_date),
        field_str(&meta.end_date),
        field_str(&meta.telescope),
        field_str(&meta.camera),
        role,
    )
}

/// The roles in the order in which their zips stand in a plan.
pub open spec fn role_at(k: int) -> FrameRole {
    if k == 0 {
        FrameRole::Light
    } else if k == 1 {
        FrameRole::Flat
    } else if k == 2 {
        FrameRole::Dark
    } else if k == 3 {
        FrameRole::Bias
    } else {
        FrameRole::Darkflat
    }
}

/// Those of the first `k` roles that some candidate has.
pub open spec fn roles_in_use(cs: Seq<CandidateFile>, k: int) -> Seq<FrameRole>
    decreases k,
{
    if k <= 0 {
        Seq::empty()
    } else if role_count(cs, role_at(k - 1), cs.len() as int) > 0 {
        roles_in_use(cs, k - 1).push(role_at(k - 1))
    } else {
        roles_in_use(cs, k - 1)
    }
}

/// Whether `z` is the zip of a plan for one role.
pub open spec fn is_role_zip(
    z: PlannedZip,
    role: FrameRole,
    cs: Seq<CandidateFile>,
    root: Seq<char>,
    meta: FrameSetMetadata,
    host: Host,
) -> bool {
    &&& z.zip_filename@ == role_zip_name(meta, role)
    &&& z.zip_path@ == role_zip_path(root, meta, role, host)
    &&& z.frame_role == role
    &&& z.file_count == role_count(cs, role, cs.len() as int)
    &&& z.total_size_bytes == role_bytes(cs, role, cs.len() as int)
}

/// Whether `zips` are the zips of a plan: one for each role that occurs.
pub open spec fn are_role_zips(
    zips: Seq<PlannedZip>,
    roles: Seq<FrameRole>,
    cs: Seq<CandidateFile>,
    root: Seq<char>,
    meta: FrameSetMetadata,
    host: Host,
) -> bool {
    &&& zips.len() == roles.len()
    &&& forall|i: int|
        0 <= i < zips.len() ==> is_role_zip(#[trigger] zips[i], roles[i], cs, root, meta, host)
}

/// The zips of a plan: one for each role that occurs.
fn plan_zips(cs: &Vec<CandidateFile>, root: &str, meta: &FrameSetMetadata, host: Host) -> (r: Vec<
    PlannedZip,
>)
    requires
        total_bytes(cs@, cs@.len() as int) <= u64::MAX,
    ensures
        are_role_zips(r@, roles_in_use(cs@, 5), cs@, root@, *meta, host),
{
    let mut zips: Vec<PlannedZip> = Vec::new();
    let mut k: usize = 0;
    while k < 5
        invariant
            k <= 5,
            total_bytes(cs@, cs@.len() as int) <= u64::MAX,
            are_role_zips(zips@, roles_in_use(cs@, k as int), cs@, root@, *meta, host),
        decreases 5 - k,
    {
        let role = match k {
            0 => FrameRole::Light,
            1 => FrameRole::Flat,
            2 => FrameRole::Dark,
            3 => FrameRole::Bias,
            _ => FrameRole::Darkflat,
        };
        let mut count: usize = 0;
        let mut bytes: u64 = 0;
        let mut i: usize = 0;
        while i < cs.len()
            invariant
                i <= cs.len(),
                total_bytes(cs@, cs@.len() as int) <= u64::MAX,
                count == role_count(cs@, role, i as int),
                count <= i,
                bytes == role_bytes(cs@, role, i as int),
            decreases cs@.len() - i,
        {
            proof {
                lemma_role_sums(cs@, role, i as int + 1, cs@.len() as int);
                lemma_role_sums(cs@, role, i as int + 1, i as int + 1);
            }
            if cs[i].role == role {
                count = count + 1;
                bytes = bytes + (cs[i].file_size as u64);
            }
            i = i + 1;
        }
        let ghost before = zips@;
        if count > 0 {
            let name = role_zip_filename(meta, role);
            let path = host_join(root, name.as_str(), host);
            zips.push(
                PlannedZip {
                    zip_path: path,
                    zip_filename: name,
                    frame_role: role,
                    file_count: count,
                    total_size_bytes: bytes,
                },
            );
            assert forall|j: int| 0 <= j < zips@.len() implies is_role_zip(
                #[trigger] zips@[j],
                roles_in_use(cs@, k as int + 1)[j],
                cs@,
                root@,
                *meta,
                host,
            ) by {
                if j < before.len() {
                    assert(zips@[j] == before[j]);
                }
            }
        }
        k = k + 1;
    }
    zips
}

/// The places of those of the first `n` zips whose paths are taken.
pub open spec fn taken_places(zips: Seq<PlannedZip>, existing: Seq<String>, n: int) -> Seq<int>
    decreases n,
{
    if n <= 0 {
        Seq::empty()
    } else if holds_text(existing, zips[n - 1].zip_path@) {
        taken_places(zips, existing, n - 1).push(n - 1)
    } else {
        taken_places(zips, existing, n - 1)
    }
}

/// Whether `conflicts` names the zips whose paths are taken.
pub open spec fn are_conflicts(
    conflicts: Seq<ZipFilenameConflict>,
    zips: Seq<PlannedZip>,
    places: Seq<int>,
) -> bool {
    &&& conflicts.len() == places.len()
    &&& forall|i: int|
        0 <= i < conflicts.len() ==> {
            &&& (#[trigger] conflicts[i]).zip_path@ == zips[places[i]].zip_path@
            &&& conflicts[i].zip_filename@ == zips[places[i]].zip_filename@
        }
}

/// The zips whose paths are taken.
fn plan_conflicts(zips: &Vec<PlannedZip>, existing: &Vec<String>) -> (r: Vec<ZipFilenameConflict>)
    ensures
        are_conflicts(r@, zips@, taken_places(zips@, existing@, zips@.len() as int)),
{
    let mut out: Vec<ZipFilenameConflict> = Vec::new();
    let mut i: usize = 0;
    while i < zips.len()
        invariant
            i <= zips@.len(),
            are_conflicts(out@, zips@, taken_places(zips@, existing@, i as int)),
        decreases zips@.len() - i,
    {
        let z = &zips[i];
        if list_holds(existing, z.zip_path.as_str()) {
            let ghost before = out@;
            out.push(
                ZipFilenameConflict {
                    zip_path: z.zip_path.clone(),
                    zip_filename: z.zip_filename.clone(),
                },
            );
            let ghost places = taken_places(zips@, existing@, i as int + 1);
            assert forall|j: int| 0 <= j < out@.len() implies {
                &&& (#[trigger] out@[j]).zip_path@ == zips@[places[j]].zip_path@
                &&& out@[j].zip_filename@ == zips@[places[j]].zip_filename@
            } by {
                if j < before.len() {
                    assert(out@[j] == before[j]);
                }
            }
        }
        i = i + 1;
    }
    out
}

/// The bytes of all candidates.
fn sum_bytes(cs: &Vec<CandidateFile>) -> (r: u64)
    requires
        total_bytes(cs@, cs@.len() as int) <= u64::MAX,
    ensures
        r == total_bytes(cs@, cs@.len() as int),
{
    let mut total: u64 = 0;
    let mut i: usize = 0;
    while i < cs.len()
        invariant
            i <= cs@.len(),
            total_bytes(cs@, cs@.len() as int) <= u64::MAX,
            total == total_bytes(cs@, i as int),
        decreases cs@.len() - i,
    {
        proof {
            lemma_role_sums(cs@, FrameRole::Light, i as int + 1, cs@.len() as int);
        }
        total = total + (cs[i].file_size as u64);
        i = i + 1;
    }
    total
}

/// The bytes that a plan needs on disk, with a margin of five per cent.
pub open spec fn bytes_needed(total: nat) -> nat {
    total + total / 20
}

/// What a plan for a frame set is made from.
pub struct FrameSetRequest {
    pub frames_set_id: i64,
    /// Whether the frame set is in the archive section.
    pub is_archived: bool,
    /// When the frame set was zipped.
    pub archived_at: Option<String>,
    pub metadata: FrameSetMetadata,
    pub files: FrameSetFiles,
    pub scan_roots: Vec<String>,
    pub archive_root_path: String,
    pub dispositions: Dispositions,
    pub compression: ArchiveCompression,
    pub host: Host,
}

/// What the disk says: which sources are there, which zips are there, and how
/// much room there is where that is known.
pub struct DiskFacts {
    pub found: Vec<FoundSource>,
    pub existing: Vec<String>,
    pub available: Option<u64>,
}

impl FrameSetRequest {
    /// The candidates of the plan.
    pub open spec fn candidates(self) -> Seq<CandidateFile> {
        let all = collected(self.files, self.dispositions);
        deduped(all, all.len() as int)
    }

    /// The path of the zip of each candidate.
    pub open spec fn zip_paths(self) -> Seq<Seq<char>> {
        let cs = self.candidates();
        Seq::new(
            cs.len(),
            |i: int| role_zip_path(self.archive_root_path@, self.metadata, cs[i].role, self.host),
        )
    }
}

/// Whether a plan for a frame set fails with `f`. The frame set is looked at
/// first, then the sources one by one, then their places in the zips, and last
/// the room on disk.
pub open spec fn frame_set_plan_fails(
    q: FrameSetRequest,
    disk: DiskFacts,
    f: PlanFailure,
) -> bool {
    let cs = q.candidates();
    let total = total_bytes(cs, cs.len() as int);
    if !q.is_archived {
        f == PlanFailure::NotInArchiveSection
    } else if q.archived_at is Some {
        f == PlanFailure::AlreadyZipped
    } else if first_fault(cs, disk.found@, cs.len() as int) is Some {
        first_fault(cs, disk.found@, cs.len() as int) == Some(f)
    } else {
        let places = layout_places(cs, texts(q.scan_roots@), q.host);
        if !places_distinct(places, places.len() as int) {
            is_first_clash(places, candidate_paths(cs), f)
        } else {
            &&& disk.available matches Some(a)
            &&& a < bytes_needed(total)
            &&& f == PlanFailure::NoSpace(bytes_needed(total) as u64, a)
        }
    }
}

/// Whether `plan` is the plan for a frame set.
pub open spec fn is_frame_set_plan(
    q: FrameSetRequest,
    disk: DiskFacts,
    shared: Seq<SharedCalibrationWarning>,
    plan: ArchivePlan,
) -> bool {
    let cs = q.candidates();
    let total = total_bytes(cs, cs.len() as int);
    &&& q.is_archived
    &&& q.archived_at is None
    &&& first_fault(cs, disk.found@, cs.len() as int) is None
    &&& disk.available matches Some(a) ==> a >= bytes_needed(total)
    &&& plan.frames_set_id == q.frames_set_id
    &&& plan.calibration_set_id is None
    &&& plan.archive_root_path@ == q.archive_root_path@
    &&& plan.dispositions == q.dispositions
    &&& plan.compression == q.compression
    &&& are_entries(
        plan.files@,
        cs,
        q.zip_paths(),
        disk.found@,
        texts(q.scan_roots@),
        q.host,
    )
    &&& places_distinct(layout_places(cs, texts(q.scan_roots@), q.host), cs.len() as int)
    &&& are_role_zips(
        plan.zips@,
        roles_in_use(cs, 5),
        cs,
        q.archive_root_path@,
        q.metadata,
        q.host,
    )
    &&& are_conflicts(
        plan.conflicts@,
        plan.zips@,
        taken_places(plan.zips@, disk.existing@, plan.zips@.len() as int),
    )
    &&& plan.shared_calibrations@ == shared
    &&& plan.total_size_bytes == total
}

/// The path of the zip of each candidate.
fn candidate_zips(
    cs: &Vec<CandidateFile>,
    root: &str,
    meta: &FrameSetMetadata,
    host: Host,
) -> (r: Vec<String>)
    ensures
        r@.len() == cs@.len(),
        forall|i: int|
            0 <= i < r@.len() ==> (#[trigger] r@[i])@ == role_zip_path(root@, *meta, cs@[i].role, host),
{
    let mut out: Vec<String> = Vec::new();
    let mut i: usize = 0;
    while i < cs.len()
        invariant
            i <= cs@.len(),
            out@.len() == i,
            forall|k: int|
                0 <= k < i ==> (#[trigger] out@[k])@ == role_zip_path(root@, *meta, cs@[k].role, host),
        decreases cs@.len() - i,
    {
        let name = role_zip_filename(meta, cs[i].role);
        out.push(host_join(root, name.as_str(), host));
        i = i + 1;
    }
    out
}

/// Plans the archiving of a frame set. Nothing is written.
///
/// The lights always move; each calibration type is moved, copied or left out
/// as the dispositions say; a file with several roles is taken once, in the
/// role that ranks first. Each role has a zip of its own.
pub fn build_plan(
    q: &FrameSetRequest,
    disk: &DiskFacts,
    shared: Vec<SharedCalibrationWarning>,
) -> (r: Result<ArchivePlan, PlanError>)
    requires
        q.is_archived && q.archived_at is None ==> total_bytes(
            q.candidates(),
            q.candidates().len() as int,
        ) <= u64::MAX,
        q.is_archived && q.archived_at is None && disk.available is Some ==> bytes_needed(
            total_bytes(q.candidates(), q.candidates().len() as int),
        ) <= u64::MAX,
    ensures
        match r {
            Ok(plan) => is_frame_set_plan(*q, *disk, shared@, plan),
            Err(e) => frame_set_plan_fails(*q, *disk, e@),
        },
{
    if !q.is_archived {
        return Err(PlanError::NotInArchiveSection);
    }
    if q.archived_at.is_some() {
        return Err(PlanError::AlreadyZipped);
    }
    let cs = plan_candidates(&q.files, &q.dispositions);
    let zip_paths = candidate_zips(&cs, q.archive_root_path.as_str(), &q.metadata, q.host);
    assert(texts(zip_paths@) =~= q.zip_paths());
    let files = match plan_files(&cs, &zip_paths, &disk.found, &q.scan_roots, q.host) {
        Ok(files) => files,
        Err(e) => {
            return Err(e);
        },
    };
    proof {
        assert(zip_places(files@) =~= layout_places(cs@, texts(q.scan_roots@), q.host));
        assert(source_paths(files@) =~= candidate_paths(cs@));
    }
    match ensure_unique_in_zip(&files) {
        Ok(()) => {},
        Err(e) => {
            return Err(e);
        },
    }
    let zips = plan_zips(&cs, q.archive_root_path.as_str(), &q.metadata, q.host);
    let conflicts = plan_conflicts(&zips, &disk.existing);
    let total = sum_bytes(&cs);
    if let Some(available) = disk.available {
        let needed: u64 = total + total / 20;
        if available < needed {
            return Err(PlanError::NoSpace(needed, available));
        }
    }
    Ok(
        ArchivePlan {
            frames_set_id: q.frames_set_id,
            calibration_set_id: None,
            archive_root_path: q.archive_root_path.clone(),
            dispositions: q.dispositions,
            compression: q.compression,
            files,
            zips,
            shared_calibrations: shared,
            conflicts,
            total_size_bytes: total,
        },
    )
}

/// A file of a calibration set.
pub struct MemberFile {
    pub file_id: i64,
    pub path: String,
    pub size: i64,
    pub archived_in_operation: Option<i64>,
}

/// What a plan for a calibration set is made from. The gain comes rounded and
/// the exposure time as it is written.
pub struct CalibrationSetRequest {
    pub calibration_set_id: i64,
    pub imagetyp: String,
    pub instrume: Option<String>,
    pub gain: Option<i64>,
    pub exptime: Option<String>,
    pub date_start: Option<String>,
    pub date_end: Option<String>,
    pub superseded_by_set_id: Option<i64>,
    pub members: Vec<MemberFile>,
    pub scan_roots: Vec<String>,
    pub archive_root_path: String,
    pub compression: ArchiveCompression,
    pub host: Host,
}

/// The role of the frames of a calibration set.
pub open spec fn calibration_role(imagetyp: Seq<char>) -> Option<FrameRole> {
    if imagetyp == "Dark"@ {
        Some(FrameRole::Dark)
    } else if imagetyp == "Flat"@ {
        Some(FrameRole::Flat)
    } else if imagetyp == "Bias"@ {
        Some(FrameRole::Bias)
    } else if imagetyp == "DarkFlat"@ {
        Some(FrameRole::Darkflat)
    } else {
        None
    }
}

/// The role of the frames of a calibration set.
fn role_of_type(imagetyp: &str) -> (r: Option<FrameRole>)
    ensures
        r == calibration_role(imagetyp@),
{
    if same_text(imagetyp, "Dark") {
        Some(FrameRole::Dark)
    } else if same_text(imagetyp, "Flat") {
        Some(FrameRole::Flat)
    } else if same_text(imagetyp, "Bias") {
        Some(FrameRole::Bias)
    } else if same_text(imagetyp, "DarkFlat") {
        Some(FrameRole::Darkflat)
    } else {
        None
    }
}

/// The paths of those of the first `n` members that are archived already.
pub open spec fn archived_paths(members: Seq<MemberFile>, n: int) -> Seq<Seq<char>>
    decreases n,
{
    if n <= 0 {
        Seq::empty()
    } else if members[n - 1].archived_in_operation is Some {
        archived_paths(members, n - 1).push(members[n - 1].path@)
    } else {
        archived_paths(members, n - 1)
    }
}

/// The members of a calibration set as candidates: all of them move.
pub open spec fn member_candidates(members: Seq<MemberFile>, role: FrameRole) -> Seq<
    CandidateFile,
> {
    Seq::new(
        members.len(),
        |i: int|
            CandidateFile {
                file_id: members[i].file_id,
                file_path: members[i].path,
                file_size: members[i].size,
                role,
                disposition: ArchiveDisposition::Move,
            },
    )
}

/// A field, or nothing where it is not known.
pub open spec fn field_or_empty(value: Option<String>) -> Seq<char> {
    match value {
        Some(s) => s@,
        None => Seq::empty(),
    }
}

fn field_or_empty_str(value: &Option<String>) -> (r: &str)
    ensures
        r@ == field_or_empty(*value),
{
    match value {
        Some(s) => s.as_str(),
        None => {
            proof {
                reveal_strlit("");
                assert(""@ =~= Seq::<char>::empty());
            }
            ""
        },
    }
}

impl CalibrationSetRequest {
    /// The name of the zip.
    pub open spec fn zip_name(self) -> Seq<char> {
        calibration_zip_name(
            field(self.instrume),
            self.imagetyp@,
            self.gain,
            field(self.exptime),
            field_or_empty(self.date_start),
            field_or_empty(self.date_end),
        )
    }

    /// The directory of the zip.
    pub open spec fn zip_dir(self) -> Seq<char> {
        host_joined(
            self.archive_root_path@,
            calibration_dir(field(self.instrume), field_or_empty(self.date_start), self.host),
            self.host,
        )
    }

    /// The path of the zip.
    pub open spec fn zip_path(self) -> Seq<char> {
        host_joined(self.zip_dir(), self.zip_name(), self.host)
    }

    /// The candidates of the plan.
    pub open spec fn candidates(self, role: FrameRole) -> Seq<CandidateFile> {
        member_candidates(self.members@, role)
    }
}

/// Why no plan is made for a calibration set, whatever is on disk: it must be
/// superseded by a master, of a type that is archived, not empty and without
/// archived files.
pub open spec fn set_refusal(q: CalibrationSetRequest) -> Option<PlanFailure> {
    let id = q.calibration_set_id;
    let gone = archived_paths(q.members@, q.members@.len() as int);
    if q.superseded_by_set_id is None {
        Some(PlanFailure::NotSuperseded(id))
    } else if calibration_role(q.imagetyp@) is None {
        Some(PlanFailure::UnsupportedType(id, q.imagetyp@))
    } else if q.members@.len() == 0 {
        Some(PlanFailure::NoMembers(id))
    } else if gone.len() > 0 {
        Some(PlanFailure::MembersArchived(id, gone))
    } else {
        None
    }
}

/// Whether a plan for a calibration set fails with `f`. The set is looked at
/// first; then the sources one by one; then their places in the zip.
pub open spec fn calibration_plan_fails(
    q: CalibrationSetRequest,
    disk: DiskFacts,
    f: PlanFailure,
) -> bool {
    match set_refusal(q) {
        Some(why) => f == why,
        None => {
            let cs = q.candidates(calibration_role(q.imagetyp@)->0);
            let places = layout_places(cs, texts(q.scan_roots@), q.host);
            if first_fault(cs, disk.found@, cs.len() as int) is Some {
                first_fault(cs, disk.found@, cs.len() as int) == Some(f)
            } else {
                &&& !places_distinct(places, places.len() as int)
                &&& is_first_clash(places, candidate_paths(cs), f)
            }
        },
    }
}

/// The dispositions with a single type that moves.
pub open spec fn only_moves(role: FrameRole) -> Dispositions {
    let m = Some(ArchiveDisposition::Move);
    Dispositions {
        flats: if role == FrameRole::Flat {
            m
        } else {
            None
        },
        darks: if role == FrameRole::Dark {
            m
        } else {
            None
        },
        bias: if role == FrameRole::Bias {
            m
        } else {
            None
        },
        darkflats: if role == FrameRole::Darkflat {
            m
        } else {
            None
        },
    }
}

/// Whether `plan` is the plan for a calibration set.
pub open spec fn is_calibration_plan(
    q: CalibrationSetRequest,
    disk: DiskFacts,
    role: FrameRole,
    plan: ArchivePlan,
) -> bool {
    let cs = q.candidates(role);
    let total = total_bytes(cs, cs.len() as int);
    &&& set_refusal(q) is None
    &&& calibration_role(q.imagetyp@) == Some(role)
    &&& first_fault(cs, disk.found@, cs.len() as int) is None
    &&& plan.frames_set_id == 0
    &&& plan.calibration_set_id == Some(q.calibration_set_id)
    &&& plan.archive_root_path@ == q.archive_root_path@
    &&& plan.dispositions == only_moves(role)
    &&& plan.compression == q.compression
    &&& are_entries(
        plan.files@,
        cs,
        Seq::new(cs.len(), |i: int| q.zip_path()),
        disk.found@,
        texts(q.scan_roots@),
        q.host,
    )
    &&& places_distinct(layout_places(cs, texts(q.scan_roots@), q.host), cs.len() as int)
    &&& plan.zips@.len() == 1
    &&& plan.zips@[0].zip_path@ == q.zip_path()
    &&& plan.zips@[0].zip_filename@ == q.zip_name()
    &&& plan.zips@[0].frame_role == role
    &&& plan.zips@[0].file_count == cs.len()
    &&& plan.zips@[0].total_size_bytes == total
    &&& are_conflicts(
        plan.conflicts@,
        plan.zips@,
        taken_places(plan.zips@, disk.existing@, plan.zips@.len() as int),
    )
    &&& plan.shared_calibrations@.len() == 0
    &&& plan.total_size_bytes == total
}

/// The paths of the members that are archived already.
fn find_archived(members: &Vec<MemberFile>) -> (r: Vec<String>)
    ensures
        texts(r@) == archived_paths(members@, members@.len() as int),
{
    let mut out: Vec<String> = Vec::new();
    let mut i: usize = 0;
    assert(texts(out@) =~= archived_paths(members@, 0));
    while i < members.len()
        invariant
            i <= members@.len(),
            texts(out@) == archived_paths(members@, i as int),
        decreases members@.len() - i,
    {
        if members[i].archived_in_operation.is_some() {
            let ghost before = texts(out@);
            out.push(members[i].path.clone());
            assert(texts(out@) =~= before.push(members@[i as int].path@));
        }
        i = i + 1;
    }
    out
}

/// The members as candidates.
fn members_as_candidates(members: &Vec<MemberFile>, role: FrameRole) -> (r: Vec<CandidateFile>)
    ensures
        r@ == member_candidates(members@, role),
{
    let mut out: Vec<CandidateFile> = Vec::new();
    let mut i: usize = 0;
    while i < members.len()
        invariant
            i <= members@.len(),
            out@ == member_candidates(members@, role).take(i as int),
        decreases members@.len() - i,
    {
        out.push(
            CandidateFile {
                file_id: members[i].file_id,
                file_path: members[i].path.clone(),
                file_size: members[i].size,
                role,
                disposition: ArchiveDisposition::Move,
            },
        );
        i = i + 1;
        assert(out@ =~= member_candidates(members@, role).take(i as int));
    }
    assert(out@ =~= member_candidates(members@, role));
    out
}

/// The same path `n` times.
fn repeated(path: &String, n: usize) -> (r: Vec<String>)
    ensures
        texts(r@) == Seq::new(n as nat, |i: int| path@),
{
    let mut out: Vec<String> = Vec::new();
    while out.len() < n
        invariant
            out@.len() <= n,
            forall|i: int| 0 <= i < out@.len() ==> (#[trigger] out@[i])@ == path@,
        decreases n - out@.len(),
    {
        out.push(path.clone());
    }
    assert(texts(out@) =~= Seq::new(n as nat, |i: int| path@));
    out
}

/// The role in which the files of a calibration set are archived, unless the set
/// is refused.
pub fn admit_calibration_set(q: &CalibrationSetRequest) -> (r: Result<FrameRole, PlanError>)
    ensures
        match r {
            Ok(role) => set_refusal(*q) is None && calibration_role(q.imagetyp@) == Some(role),
            Err(e) => set_refusal(*q) == Some(e@),
        },
{
    if q.superseded_by_set_id.is_none() {
        return Err(PlanError::NotSuperseded(q.calibration_set_id));
    }
    let role = match role_of_type(q.imagetyp.as_str()) {
        Some(role) => role,
        None => {
            return Err(PlanError::UnsupportedType(q.calibration_set_id, q.imagetyp.clone()));
        },
    };
    if q.members.len() == 0 {
        return Err(PlanError::NoMembers(q.calibration_set_id));
    }
    let gone = find_archived(&q.members);
    assert(gone@.len() == texts(gone@).len());
    if gone.len() > 0 {
        return Err(PlanError::MembersArchived(q.calibration_set_id, gone));
    }
    Ok(role)
}

/// Plans the archiving of the files of a calibration set that a master has
/// superseded. All of them move into one zip. Nothing is written.
pub fn build_calibration_set_plan(q: &CalibrationSetRequest, disk: &DiskFacts) -> (r: Result<
    ArchivePlan,
    PlanError,
>)
    requires
        set_refusal(*q) is None ==> forall|role: FrameRole|
            total_bytes(#[trigger] q.candidates(role), q.candidates(role).len() as int)
                <= u64::MAX,
    ensures
        match r {
            Ok(plan) => exists|role: FrameRole| is_calibration_plan(*q, *disk, role, plan),
            Err(e) => calibration_plan_fails(*q, *disk, e@),
        },
{
    let role = match admit_calibration_set(q) {
        Ok(role) => role,
        Err(e) => {
            return Err(e);
        },
    };
    let dir = calibration_zip_dir(
        field_str(&q.instrume),
        field_or_empty_str(&q.date_start),
        q.host,
    );
    let name = calibration_zip_filename(
        field_str(&q.instrume),
        q.imagetyp.as_str(),
        q.gain,
        field_str(&q.exptime),
        field_or_empty_str(&q.date_start),
        field_or_empty_str(&q.date_end),
    );
    let zip_dir = host_join(q.archive_root_path.as_str(), dir.as_str(), q.host);
    let zip_path = host_join(zip_dir.as_str(), name.as_str(), q.host);
    let cs = members_as_candidates(&q.members, role);
    let zip_paths = repeated(&zip_path, cs.len());
    assert(zip_paths@.len() == texts(zip_paths@).len());
    let files = match plan_files(&cs, &zip_paths, &disk.found, &q.scan_roots, q.host) {
        Ok(files) => files,
        Err(e) => {
            return Err(e);
        },
    };
    proof {
        assert(zip_places(files@) =~= layout_places(cs@, texts(q.scan_roots@), q.host));
        assert(source_paths(files@) =~= candidate_paths(cs@));
        assert(texts(zip_paths@) =~= Seq::new(cs@.len(), |i: int| q.zip_path()));
    }
    match ensure_unique_in_zip(&files) {
        Ok(()) => {},
        Err(e) => {
            return Err(e);
        },
    }
    assert(cs@ == q.candidates(role));
    let total = sum_bytes(&cs);
    let mut zips: Vec<PlannedZip> = Vec::new();
    zips.push(
        PlannedZip {
            zip_path,
            zip_filename: name,
            frame_role: role,
            file_count: files.len(),
            total_size_bytes: total,
        },
    );
    let conflicts = plan_conflicts(&zips, &disk.existing);
    let moves = Some(ArchiveDisposition::Move);
    let mut dispositions = Dispositions { flats: None, darks: None, bias: None, darkflats: None };
    match role {
        FrameRole::Flat => {
            dispositions.flats = moves;
        },
        FrameRole::Dark => {
            dispositions.darks = moves;
        },
        FrameRole::Bias => {
            dispositions.bias = moves;
        },
        FrameRole::Darkflat => {
            dispositions.darkflats = moves;
        },
        FrameRole::Light => {},
    }
    let plan = ArchivePlan {
        frames_set_id: 0,
        calibration_set_id: Some(q.calibration_set_id),
        archive_root_path: q.archive_root_path.clone(),
        dispositions,
        compression: q.compression,
        files,
        zips,
        shared_calibrations: Vec::new(),
        conflicts,
        total_size_bytes: total,
    };
    assert(is_calibration_plan(*q, *disk, role, plan));
    Ok(plan)
}

} // verus!
