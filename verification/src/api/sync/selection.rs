//! From a selection of frames to a package: which of them can be sent, and
//! what the package says of each.

use crate::api::sync::layout::{
    ancestor, assign_rel_path, common_ancestor, dedup_in_dir, given_name, payload_dir,
    payload_name, place, placed, resolve_batch_name, BatchNaming, Placing, RelPathLayout, Taken,
    UsedNames,
};
use crate::api::sync::manifest::{ManifestRecord, PayloadKind};
use crate::api::sync::rows::{copy_opt, opt_text, PackageLayout};
use crate::api::sync::transfer_files::{base_name, last_slash};
use crate::paths::{join_paths, joined};
use crate::text::{chars_of, slice_text, texts};
use std::collections::HashMap;
use vstd::prelude::*;
use vstd::string::*;

verus! {

/// A frame that cannot be sent, and why.
#[derive(Debug, Clone)]
pub struct IneligibleFrame {
    pub frame_id: i64,
    pub reason: String,
}

/// A file to go into a package.
#[derive(Debug)]
pub struct PayloadEntry {
    pub frame_id: i64,
    pub source_path: String,
    pub rel_path: String,
    pub kind: PayloadKind,
}

/// What a package is built from: the files to go into it, the frames that are
/// already known not to, the directory that all files lie in, and how many
/// frames were asked for.
#[derive(Debug)]
pub struct SelectionInput {
    pub entries: Vec<PayloadEntry>,
    pub ineligible: Vec<IneligibleFrame>,
    pub ancestor: Option<String>,
    pub total: usize,
}

/// A file of the catalog with its frame.
#[derive(Debug)]
pub struct CatalogRow {
    pub frame_id: Option<i64>,
    pub path: String,
    pub filename: String,
    /// Whether the catalog holds the frame to be a master.
    pub is_master: bool,
    /// Whether the frame's type is one of a master.
    pub type_is_master: bool,
}

/// The ids among the first `n`, each once, in the order in which they first
/// come.
pub open spec fn distinct_ids(ids: Seq<i64>, n: int) -> Seq<i64>
    decreases n,
{
    if n <= 0 {
        Seq::empty()
    } else {
        let before = distinct_ids(ids, n - 1);
        if before.contains(ids[n - 1]) {
            before
        } else {
            before.push(ids[n - 1])
        }
    }
}

fn contains_id(ids: &Vec<i64>, id: i64) -> (r: bool)
    ensures
        r == ids@.contains(id),
{
    let mut i: usize = 0;
    while i < ids.len()
        invariant
            i <= ids@.len(),
            forall|k: int| 0 <= k < i ==> ids@[k] != id,
        decreases ids@.len() - i,
    {
        if ids[i] == id {
            return true;
        }
        i = i + 1;
    }
    false
}

/// The frames that a selection asks for, each once, in the order in which they
/// first come.
pub fn requested_ids(ids: &Vec<i64>) -> (r: Vec<i64>)
    ensures
        r@ == distinct_ids(ids@, ids@.len() as int),
{
    let mut out: Vec<i64> = Vec::new();
    let mut i: usize = 0;
    while i < ids.len()
        invariant
            i <= ids@.len(),
            out@ == distinct_ids(ids@, i as int),
        decreases ids@.len() - i,
    {
        if !contains_id(&out, ids[i]) {
            out.push(ids[i]);
        }
        i = i + 1;
    }
    out
}

/// The places, among the first `n` rows, of those with a frame.
pub open spec fn framed_places(rows: Seq<CatalogRow>, n: int) -> Seq<int>
    decreases n,
{
    if n <= 0 {
        Seq::empty()
    } else {
        let before = framed_places(rows, n - 1);
        if rows[n - 1].frame_id is Some {
            before.push(n - 1)
        } else {
            before
        }
    }
}

/// The paths of the first `n` rows, of those with a frame.
pub open spec fn framed_paths(rows: Seq<CatalogRow>, n: int) -> Seq<Seq<char>>
    decreases n,
{
    if n <= 0 {
        Seq::empty()
    } else {
        let before = framed_paths(rows, n - 1);
        if rows[n - 1].frame_id is Some {
            before.push(rows[n - 1].path@)
        } else {
            before
        }
    }
}

/// The frames of the first `n` rows.
pub open spec fn framed_ids(rows: Seq<CatalogRow>, n: int) -> Seq<i64>
    decreases n,
{
    if n <= 0 {
        Seq::empty()
    } else {
        let before = framed_ids(rows, n - 1);
        match rows[n - 1].frame_id {
            Some(id) => before.push(id),
            None => before,
        }
    }
}

/// The place in the package that a row gets when the given names are taken.
pub open spec fn row_taken(row: CatalogRow, placing: Placing, used: Set<Taken>) -> Taken {
    let id = row.frame_id->Some_0;
    let dir = payload_dir(placing, id, row.path@);
    (dir, given_name(used, dir, payload_name(id, row.filename@)))
}

/// The names that are taken once the first `n` rows have got theirs.
pub open spec fn rows_taken(rows: Seq<CatalogRow>, placing: Placing, n: int) -> Set<Taken>
    decreases n,
{
    if n <= 0 {
        Set::empty()
    } else {
        let before = rows_taken(rows, placing, n - 1);
        if rows[n - 1].frame_id is Some {
            before.insert(row_taken(rows[n - 1], placing, before))
        } else {
            before
        }
    }
}

/// The kind of a row's file: a master where the catalog or the frame's type
/// says so, for a master must never be taken for a frame that can go.
pub open spec fn row_kind(row: CatalogRow) -> PayloadKind {
    if row.is_master || row.type_is_master {
        PayloadKind::Master
    } else {
        PayloadKind::RawFrame
    }
}

/// Whether `e` is the entry of a row.
pub open spec fn is_row_entry(
    e: PayloadEntry,
    row: CatalogRow,
    placing: Placing,
    used: Set<Taken>,
) -> bool {
    let t = row_taken(row, placing, used);
    &&& Some(e.frame_id) == row.frame_id
    &&& e.source_path == row.path
    &&& e.rel_path@ == placed(t.0, t.1)
    &&& e.kind == row_kind(row)
}

/// The frames among the first `n` that were asked for and are not in the
/// catalog.
pub open spec fn unknown_ids(asked: Seq<i64>, known: Seq<i64>, n: int) -> Seq<i64>
    decreases n,
{
    if n <= 0 {
        Seq::empty()
    } else {
        let before = unknown_ids(asked, known, n - 1);
        if known.contains(asked[n - 1]) {
            before
        } else {
            before.push(asked[n - 1])
        }
    }
}

/// How the files of a selection are laid out: as stacking wants them, where
/// that is known, and else as they lie on disk.
pub open spec fn selection_placing(
    rows: Seq<CatalogRow>,
    placements: Option<Map<i64, Seq<char>>>,
) -> Placing {
    match placements {
        Some(m) => Placing::Wbpp(m),
        None => Placing::SourceRelative(ancestor(framed_paths(rows, rows.len() as int))),
    }
}

/// Whether each is a frame that is not in the catalog.
pub open spec fn are_unknown(v: Seq<IneligibleFrame>, ids: Seq<i64>) -> bool {
    v.len() == ids.len() && forall|k: int|
        0 <= k < v.len() ==> (#[trigger] v[k]).frame_id == ids[k] && v[k].reason@
            == "frame not found in catalog"@
}

/// Whether the entries are those of the rows with a frame.
pub open spec fn are_row_entries(
    entries: Seq<PayloadEntry>,
    rows: Seq<CatalogRow>,
    placing: Placing,
    n: int,
) -> bool {
    let places = framed_places(rows, n);
    entries.len() == places.len() && forall|k: int|
        0 <= k < entries.len() ==> is_row_entry(
            #[trigger] entries[k],
            rows[places[k]],
            placing,
            rows_taken(rows, placing, places[k]),
        )
}

/// Whether `r` is the selection: one file for each row with a frame, and the
/// frames that have none.
pub open spec fn is_selection(
    r: SelectionInput,
    asked: Seq<i64>,
    rows: Seq<CatalogRow>,
    placements: Option<Map<i64, Seq<char>>>,
) -> bool {
    let n = rows.len() as int;
    &&& r.total == asked.len()
    &&& opt_text(r.ancestor) == ancestor(framed_paths(rows, n))
    &&& are_row_entries(r.entries@, rows, selection_placing(rows, placements), n)
    &&& are_unknown(
        r.ineligible@,
        unknown_ids(asked, framed_ids(rows, n), asked.len() as int),
    )
}

/// The directories of a placement as text.
pub open spec fn placement_view(m: Option<HashMap<i64, String>>) -> Option<Map<i64, Seq<char>>> {
    match m {
        Some(m) => Some(m@.map_values(|d: String| d@)),
        None => None,
    }
}

/// The files of a selection: `requested` are the frames asked for, each once,
/// and `rows` what the catalog holds of them. `placements` says where stacking
/// wants the frames, where that is known.
pub fn selection_entries(
    requested: &Vec<i64>,
    rows: &Vec<CatalogRow>,
    placements: Option<HashMap<i64, String>>,
) -> (r: SelectionInput)
    ensures
        is_selection(r, requested@, rows@, placement_view(placements)),
{
    let mut paths: Vec<String> = Vec::new();
    let mut known: Vec<i64> = Vec::new();
    let mut i: usize = 0;
    assert(texts(paths@) =~= Seq::<Seq<char>>::empty());
    while i < rows.len()
        invariant
            i <= rows@.len(),
            texts(paths@) == framed_paths(rows@, i as int),
            known@ == framed_ids(rows@, i as int),
        decreases rows@.len() - i,
    {
        let ghost before = texts(paths@);
        match rows[i].frame_id {
            Some(id) => {
                paths.push(rows[i].path.clone());
                known.push(id);
                assert(texts(paths@) =~= before.push(rows@[i as int].path@));
            },
            None => {},
        }
        i = i + 1;
    }
    let above = common_ancestor(&paths);
    let ghost view = placement_view(placements);
    let layout = match placements {
        Some(m) => RelPathLayout::Wbpp(m),
        None => RelPathLayout::SourceRelative(copy_opt(&above)),
    };
    let ghost placing = selection_placing(rows@, view);
    assert(layout@ == placing);
    let mut used = UsedNames::new();
    let mut entries: Vec<PayloadEntry> = Vec::new();
    let mut i: usize = 0;
    while i < rows.len()
        invariant
            i <= rows@.len(),
            layout@ == placing,
            used@ == rows_taken(rows@, placing, i as int),
            are_row_entries(entries@, rows@, placing, i as int),
        decreases rows@.len() - i,
    {
        let row = &rows[i];
        let ghost before = entries@;
        match row.frame_id {
            Some(id) => {
                let rel_path = assign_rel_path(
                    &layout,
                    id,
                    row.path.as_str(),
                    row.filename.as_str(),
                    &mut used,
                );
                let kind = if row.is_master || row.type_is_master {
                    PayloadKind::Master
                } else {
                    PayloadKind::RawFrame
                };
                entries.push(
                    PayloadEntry { frame_id: id, source_path: row.path.clone(), rel_path, kind },
                );
            },
            None => {},
        }
        assert(are_row_entries(entries@, rows@, placing, i + 1)) by {
            let places = framed_places(rows@, i + 1);
            assert forall|k: int| 0 <= k < entries@.len() implies is_row_entry(
                #[trigger] entries@[k],
                rows@[places[k]],
                placing,
                rows_taken(rows@, placing, places[k]),
            ) by {
                if k < before.len() {
                    assert(entries@[k] == before[k]);
                    assert(places[k] == framed_places(rows@, i as int)[k]);
                }
            }
        }
        i = i + 1;
    }
    let mut ineligible: Vec<IneligibleFrame> = Vec::new();
    let mut i: usize = 0;
    while i < requested.len()
        invariant
            i <= requested@.len(),
            known@ == framed_ids(rows@, rows@.len() as int),
            are_unknown(ineligible@, unknown_ids(requested@, known@, i as int)),
        decreases requested@.len() - i,
    {
        let ghost before = ineligible@;
        if !contains_id(&known, requested[i]) {
            ineligible.push(
                IneligibleFrame {
                    frame_id: requested[i],
                    reason: "frame not found in catalog".to_owned(),
                },
            );
        }
        assert(are_unknown(ineligible@, unknown_ids(requested@, known@, i + 1))) by {
            assert forall|k: int| 0 <= k < ineligible@.len() implies (
            #[trigger] ineligible@[k]).frame_id == unknown_ids(requested@, known@, i + 1)[k]
                && ineligible@[k].reason@ == "frame not found in catalog"@ by {
                if k < before.len() {
                    assert(ineligible@[k] == before[k]);
                }
            }
        }
        i = i + 1;
    }
    SelectionInput { entries, ineligible, ancestor: above, total: requested.len() }
}

/// Size and time of change of a file on disk.
#[derive(Debug, Clone, Copy)]
pub struct FileStat {
    pub byte_size: u64,
    pub mtime_ms: i64,
}

/// What the catalog holds of the frame of an entry.
#[derive(Debug)]
pub struct EntryFrame {
    pub file_id: i64,
    pub path: String,
    pub uuid: Option<String>,
}

/// What is found out about an entry before it goes into a package.
#[derive(Debug)]
pub struct EntryFacts {
    /// Its frame, where the catalog has it.
    pub frame: Option<EntryFrame>,
    /// Whether its file is on disk.
    pub exists: bool,
    pub stat: Result<FileStat, String>,
    /// The hash of the whole file, or why it cannot be read.
    pub hash: Result<String, String>,
    /// Whether the file on disk is still the one that the catalog describes.
    pub disk_matches: bool,
    /// What the catalog knows of the frame, in JSON.
    pub frame_meta: Result<String, String>,
    /// The analysis of the frame, in JSON.
    pub analysis: Option<String>,
    /// An identity that nothing has yet.
    pub fresh_uuid: String,
}

/// Why an entry cannot be sent; none where it can.
pub open spec fn fault(f: EntryFacts) -> Option<Seq<char>> {
    if f.frame is None {
        Some("frame not found in catalog"@)
    } else if !f.exists {
        Some("file missing on disk"@)
    } else if f.stat is Err {
        Some("cannot stat file: "@ + f.stat->Err_0@)
    } else if f.hash is Err {
        Some("cannot read file: "@ + f.hash->Err_0@)
    } else if f.frame_meta is Err {
        Some("serialize frame_meta: "@ + f.frame_meta->Err_0@)
    } else {
        None
    }
}

fn because(what: &str, why: &str) -> (r: String)
    ensures
        r@ == what@ + why@,
{
    let mut r: String = what.to_owned();
    r.append(why);
    r
}

/// Whether the hash of an entry is worth keeping: the file was read, and it is
/// the one that the catalog describes.
pub open spec fn hash_is_kept(e: PayloadEntry, f: EntryFacts) -> bool {
    &&& f.frame is Some
    &&& f.exists
    &&& f.stat is Ok
    &&& f.hash is Ok
    &&& e.kind != PayloadKind::CalibratedLight
    &&& f.disk_matches
}

/// The directory of a path within a package.
pub open spec fn dir_name(rel_path: Seq<char>) -> Seq<char> {
    match last_slash(rel_path, rel_path.len() as int) {
        Some(i) => rel_path.take(i),
        None => Seq::empty(),
    }
}

/// A path within a package cut into its directory and its name.
pub fn split_rel_path(rel_path: &str) -> (r: (String, String))
    ensures
        r.0@ == dir_name(rel_path@),
        r.1@ == base_name(rel_path@),
{
    let v = chars_of(rel_path);
    let mut n: usize = v.len();
    while n > 0 && v[n - 1] != '/'
        invariant
            n <= v@.len(),
            last_slash(v@, v@.len() as int) == last_slash(v@, n as int),
        decreases n,
    {
        n = n - 1;
    }
    if n == 0 {
        let dir = String::new();
        assert(dir@ =~= Seq::<char>::empty());
        (dir, rel_path.to_owned())
    } else {
        assert(v@.subrange(0, n - 1) =~= v@.take(n - 1));
        assert(v@.subrange(n as int, v@.len() as int) =~= v@.skip(n as int));
        (slice_text(&v, 0, n - 1), slice_text(&v, n, v.len()))
    }
}

/// The place in the package that an entry gets when the given names are taken.
pub open spec fn entry_taken(e: PayloadEntry, used: Set<Taken>) -> Taken {
    let dir = dir_name(e.rel_path@);
    (dir, given_name(used, dir, base_name(e.rel_path@)))
}

/// The names that are taken once the first `n` entries have got theirs.
pub open spec fn entries_taken(es: Seq<PayloadEntry>, fs: Seq<EntryFacts>, n: int) -> Set<Taken>
    decreases n,
{
    if n <= 0 {
        Set::empty()
    } else {
        let before = entries_taken(es, fs, n - 1);
        if fault(fs[n - 1]) is None {
            before.insert(entry_taken(es[n - 1], before))
        } else {
            before
        }
    }
}

/// The places, among the first `n` entries, of those that can be sent.
pub open spec fn sent_places(fs: Seq<EntryFacts>, n: int) -> Seq<int>
    decreases n,
{
    if n <= 0 {
        Seq::empty()
    } else {
        let before = sent_places(fs, n - 1);
        if fault(fs[n - 1]) is None {
            before.push(n - 1)
        } else {
            before
        }
    }
}

/// The places, among the first `n` entries, of those that cannot be sent.
pub open spec fn refused_places(fs: Seq<EntryFacts>, n: int) -> Seq<int>
    decreases n,
{
    if n <= 0 {
        Seq::empty()
    } else {
        let before = refused_places(fs, n - 1);
        if fault(fs[n - 1]) is None {
            before
        } else {
            before.push(n - 1)
        }
    }
}

/// The places, among the first `n` entries, whose hashes are kept.
pub open spec fn banked_places(es: Seq<PayloadEntry>, fs: Seq<EntryFacts>, n: int) -> Seq<int>
    decreases n,
{
    if n <= 0 {
        Seq::empty()
    } else {
        let before = banked_places(es, fs, n - 1);
        if hash_is_kept(es[n - 1], fs[n - 1]) {
            before.push(n - 1)
        } else {
            before
        }
    }
}

/// The places, among the first `n` entries, whose files may go once they have
/// arrived: frames as they came from the camera that were sent.
pub open spec fn linked_places(es: Seq<PayloadEntry>, fs: Seq<EntryFacts>, n: int) -> Seq<int>
    decreases n,
{
    if n <= 0 {
        Seq::empty()
    } else {
        let before = linked_places(es, fs, n - 1);
        if fault(fs[n - 1]) is None && es[n - 1].kind == PayloadKind::RawFrame {
            before.push(n - 1)
        } else {
            before
        }
    }
}

/// What is the same for every file of a package, and where the package goes.
#[derive(Debug)]
pub struct PackageOrigin {
    pub manifest_version: u32,
    pub origin_device: String,
    pub app_version: String,
    /// The directory that holds the packages.
    pub packages_dir: String,
    /// The name of the directory of this one; nothing has it yet.
    pub package_uuid: String,
}

/// A file that goes into a package, with its record.
#[derive(Debug)]
pub struct PackedFile {
    pub source_path: String,
    pub record: ManifestRecord,
}

/// The identity of an entry: its frame's own. A calibrated light is another
/// file than its frame's, so it has an identity of its own; so has a frame
/// without one.
pub open spec fn entry_uuid(e: PayloadEntry, f: EntryFacts) -> Seq<char> {
    match (e.kind, f.frame->Some_0.uuid) {
        (PayloadKind::CalibratedLight, _) => f.fresh_uuid@,
        (_, Some(u)) if u@.len() > 0 => u@,
        _ => f.fresh_uuid@,
    }
}

/// Whether `p` is the file of an entry with its record.
pub open spec fn is_packed(
    p: PackedFile,
    o: PackageOrigin,
    e: PayloadEntry,
    f: EntryFacts,
    used: Set<Taken>,
) -> bool {
    let t = entry_taken(e, used);
    &&& p.source_path == e.source_path
    &&& p.record.v == o.manifest_version
    &&& p.record.frame_uuid@ == entry_uuid(e, f)
    &&& p.record.origin_catalog_uuid@ == entry_uuid(e, f)
    &&& p.record.origin_device == o.origin_device
    &&& p.record.payload_kind == e.kind
    &&& p.record.rel_path@ == placed(t.0, t.1)
    &&& p.record.byte_size == f.stat->Ok_0.byte_size
    &&& p.record.xxh3 == f.hash->Ok_0
    &&& p.record.frame_meta == f.frame_meta->Ok_0
    &&& p.record.analysis == if e.kind == PayloadKind::CalibratedLight {
        None
    } else {
        f.analysis
    }
    &&& p.record.app_version == o.app_version
    &&& p.record.project is None
}

/// A hash that is kept for a file of the catalog.
#[derive(Debug)]
pub struct BankedHash {
    pub file_id: i64,
    pub hash: String,
}

/// A file that may go once the package has arrived, as it was when it was
/// sent.
#[derive(Debug)]
pub struct SourceLink {
    pub file_id: i64,
    pub path: String,
    pub byte_size: u64,
    pub mtime_ms: i64,
}

/// A file of a package, as it is announced.
#[derive(Debug, Clone)]
pub struct AnnounceFileEntry {
    pub rel_path: String,
    pub byte_size: u64,
    pub frame_uuid: String,
}

/// A package that is ready to be written.
#[derive(Debug)]
pub struct BuiltSelection {
    /// The directory of the package; none where nothing can be sent.
    pub pkg_dir: Option<String>,
    pub records: Vec<PackedFile>,
    pub eligible: Vec<i64>,
    pub ineligible: Vec<IneligibleFrame>,
    pub total: usize,
    /// The name of the batch; none where nothing can be sent.
    pub display_name: Option<String>,
    pub files: Vec<AnnounceFileEntry>,
    pub bank: Vec<BankedHash>,
    pub source_links: Vec<SourceLink>,
}

/// Whether the records are those of the entries that can be sent.
pub open spec fn are_packed(
    v: Seq<PackedFile>,
    o: PackageOrigin,
    es: Seq<PayloadEntry>,
    fs: Seq<EntryFacts>,
    n: int,
) -> bool {
    let at = sent_places(fs, n);
    v.len() == at.len() && forall|k: int|
        0 <= k < v.len() ==> is_packed(
            #[trigger] v[k],
            o,
            es[at[k]],
            fs[at[k]],
            entries_taken(es, fs, at[k]),
        )
}

/// Whether the ids are those of the entries that can be sent.
pub open spec fn are_eligible(
    v: Seq<i64>,
    es: Seq<PayloadEntry>,
    fs: Seq<EntryFacts>,
    n: int,
) -> bool {
    let at = sent_places(fs, n);
    v.len() == at.len() && forall|k: int|
        0 <= k < v.len() ==> #[trigger] v[k] == es[at[k]].frame_id
}

/// Whether the frames are those that were known not to go, and behind them
/// those of the entries that cannot be sent, with the reason.
pub open spec fn are_refused(
    v: Seq<IneligibleFrame>,
    known: Seq<IneligibleFrame>,
    es: Seq<PayloadEntry>,
    fs: Seq<EntryFacts>,
    n: int,
) -> bool {
    let at = refused_places(fs, n);
    &&& v.len() == known.len() + at.len()
    &&& forall|k: int| 0 <= k < known.len() ==> #[trigger] v[k] == known[k]
    &&& forall|k: int|
        0 <= k < at.len() ==> (#[trigger] v[known.len() + k]).frame_id == es[at[k]].frame_id && Some(
            v[known.len() + k].reason@,
        ) == fault(fs[at[k]])
}

/// Whether the hashes are those that are kept.
pub open spec fn are_banked(
    v: Seq<BankedHash>,
    es: Seq<PayloadEntry>,
    fs: Seq<EntryFacts>,
    n: int,
) -> bool {
    let at = banked_places(es, fs, n);
    v.len() == at.len() && forall|k: int|
        0 <= k < v.len() ==> (#[trigger] v[k]).file_id == fs[at[k]].frame->Some_0.file_id
            && v[k].hash == fs[at[k]].hash->Ok_0
}

/// Whether `l` is the file of an entry as it was when it was sent.
pub open spec fn is_link(l: SourceLink, f: EntryFacts) -> bool {
    &&& l.file_id == f.frame->Some_0.file_id
    &&& l.path == f.frame->Some_0.path
    &&& l.byte_size == f.stat->Ok_0.byte_size
    &&& l.mtime_ms == f.stat->Ok_0.mtime_ms
}

/// Whether the links are those of the frames that were sent as they came from
/// the camera.
pub open spec fn are_links(
    v: Seq<SourceLink>,
    es: Seq<PayloadEntry>,
    fs: Seq<EntryFacts>,
    n: int,
) -> bool {
    let at = linked_places(es, fs, n);
    v.len() == at.len() && forall|k: int| 0 <= k < v.len() ==> is_link(#[trigger] v[k], fs[at[k]])
}

/// Whether the files are announced as their records say.
pub open spec fn are_announced(v: Seq<AnnounceFileEntry>, records: Seq<PackedFile>) -> bool {
    v.len() == records.len() && forall|k: int|
        0 <= k < v.len() ==> (#[trigger] v[k]).rel_path == records[k].record.rel_path
            && v[k].byte_size == records[k].record.byte_size && v[k].frame_uuid
            == records[k].record.frame_uuid
}

/// No two files stand at the same place of a package.
pub open spec fn places_distinct(records: Seq<PackedFile>) -> bool {
    forall|i: int, j: int|
        0 <= i < j < records.len() ==> (#[trigger] records[i]).record.rel_path@ != (
        #[trigger] records[j]).record.rel_path@
}

/// Whether `r` is the package that the entries make.
pub open spec fn is_built(
    r: BuiltSelection,
    o: PackageOrigin,
    input: SelectionInput,
    fs: Seq<EntryFacts>,
    naming: BatchNaming,
) -> bool {
    let es = input.entries@;
    let n = es.len() as int;
    &&& are_packed(r.records@, o, es, fs, n)
    &&& are_eligible(r.eligible@, es, fs, n)
    &&& are_refused(r.ineligible@, input.ineligible@, es, fs, n)
    &&& are_banked(r.bank@, es, fs, n)
    &&& are_links(r.source_links@, es, fs, n)
    &&& are_announced(r.files@, r.records@)
    &&& r.total == input.total
    &&& opt_text(r.pkg_dir) == if sent_places(fs, n).len() == 0 {
        None
    } else {
        Some(joined(o.packages_dir@, o.package_uuid@))
    }
    &&& opt_text(r.display_name) == if sent_places(fs, n).len() == 0 {
        None
    } else {
        Some(naming.name(opt_text(input.ancestor), sent_places(fs, n).len()))
    }
}

fn fault_of(f: &EntryFacts) -> (r: Option<String>)
    ensures
        opt_text(r) == fault(*f),
{
    if f.frame.is_none() {
        return Some("frame not found in catalog".to_owned());
    }
    if !f.exists {
        return Some("file missing on disk".to_owned());
    }
    match &f.stat {
        Err(e) => {
            return Some(because("cannot stat file: ", e.as_str()));
        },
        Ok(_) => {},
    }
    match &f.hash {
        Err(e) => {
            return Some(because("cannot read file: ", e.as_str()));
        },
        Ok(_) => {},
    }
    match &f.frame_meta {
        Err(e) => Some(because("serialize frame_meta: ", e.as_str())),
        Ok(_) => None,
    }
}

fn banked_hash(e: &PayloadEntry, f: &EntryFacts) -> (r: Option<BankedHash>)
    ensures
        hash_is_kept(*e, *f) ==> (r matches Some(b) && b.file_id == f.frame->Some_0.file_id
            && b.hash == f.hash->Ok_0),
        !hash_is_kept(*e, *f) ==> r is None,
{
    let is_catalog_file = match e.kind {
        PayloadKind::CalibratedLight => false,
        _ => true,
    };
    if !(is_catalog_file && f.exists && f.disk_matches && f.stat.is_ok()) {
        return None;
    }
    match (&f.frame, &f.hash) {
        (Some(fr), Ok(h)) => Some(BankedHash { file_id: fr.file_id, hash: h.clone() }),
        _ => None,
    }
}

fn uuid_of(e: &PayloadEntry, f: &EntryFacts, fr: &EntryFrame) -> (r: String)
    requires
        f.frame == Some(*fr),
    ensures
        r@ == entry_uuid(*e, *f),
{
    match e.kind {
        PayloadKind::CalibratedLight => f.fresh_uuid.clone(),
        _ => match &fr.uuid {
            Some(u) => {
                if u.as_str().is_empty() {
                    f.fresh_uuid.clone()
                } else {
                    u.clone()
                }
            },
            None => f.fresh_uuid.clone(),
        },
    }
}

fn pack(
    o: &PackageOrigin,
    e: &PayloadEntry,
    f: &EntryFacts,
    used: &mut UsedNames,
) -> (r: PackedFile)
    requires
        fault(*f) is None,
    ensures
        is_packed(r, *o, *e, *f, old(used)@),
        final(used)@ == old(used)@.insert(entry_taken(*e, old(used)@)),
{
    let (dir, base) = split_rel_path(e.rel_path.as_str());
    let name = dedup_in_dir(dir.as_str(), base.as_str(), used);
    let rel_path = place(dir.as_str(), name.as_str());
    let analysis = match e.kind {
        PayloadKind::CalibratedLight => None,
        _ => copy_opt(&f.analysis),
    };
    let (frame_uuid, byte_size, xxh3, frame_meta) = match (&f.frame, &f.stat, &f.hash, &f.frame_meta) {
        (Some(fr), Ok(st), Ok(h), Ok(m)) => (uuid_of(e, f, fr), st.byte_size, h.clone(), m.clone()),
        _ => {
            assert(false);
            (String::new(), 0u64, String::new(), String::new())
        },
    };
    PackedFile {
        source_path: e.source_path.clone(),
        record: ManifestRecord {
            v: o.manifest_version,
            frame_uuid: frame_uuid.clone(),
            origin_catalog_uuid: frame_uuid,
            origin_device: o.origin_device.clone(),
            payload_kind: e.kind,
            rel_path,
            byte_size,
            xxh3,
            frame_meta,
            analysis,
            app_version: o.app_version.clone(),
            project: None,
        },
    }
}

fn source_link(e: &PayloadEntry, f: &EntryFacts) -> (r: Option<SourceLink>)
    requires
        fault(*f) is None,
    ensures
        e.kind == PayloadKind::RawFrame ==> (r matches Some(l) && is_link(l, *f)),
        e.kind != PayloadKind::RawFrame ==> r is None,
{
    match e.kind {
        PayloadKind::RawFrame => match (&f.frame, &f.stat) {
            (Some(fr), Ok(st)) => Some(
                SourceLink {
                    file_id: fr.file_id,
                    path: fr.path.clone(),
                    byte_size: st.byte_size,
                    mtime_ms: st.mtime_ms,
                },
            ),
            _ => None,
        },
        _ => None,
    }
}

fn announce_files(records: &Vec<PackedFile>) -> (r: Vec<AnnounceFileEntry>)
    ensures
        are_announced(r@, records@),
{
    let mut out: Vec<AnnounceFileEntry> = Vec::new();
    let mut i: usize = 0;
    while i < records.len()
        invariant
            i <= records@.len(),
            out@.len() == i,
            forall|k: int|
                0 <= k < i ==> (#[trigger] out@[k]).rel_path == records@[k].record.rel_path
                    && out@[k].byte_size == records@[k].record.byte_size && out@[k].frame_uuid
                    == records@[k].record.frame_uuid,
        decreases records@.len() - i,
    {
        let m = &records[i].record;
        out.push(
            AnnounceFileEntry {
                rel_path: m.rel_path.clone(),
                byte_size: m.byte_size,
                frame_uuid: m.frame_uuid.clone(),
            },
        );
        i = i + 1;
    }
    out
}

/// The package that the entries make, where `facts` says of each what was
/// found out about it. Every entry either goes into the package or is told of
/// with the reason why it cannot.
pub fn build_selection_package(
    origin: &PackageOrigin,
    input: SelectionInput,
    facts: &Vec<EntryFacts>,
    naming: &BatchNaming,
) -> (r: BuiltSelection)
    requires
        facts@.len() == input.entries@.len(),
    ensures
        is_built(r, *origin, input, facts@, *naming),
{
    let ghost es = input.entries@;
    let ghost fs = facts@;
    let ghost known = input.ineligible@;
    let entries = input.entries;
    let mut ineligible: Vec<IneligibleFrame> = input.ineligible;
    let mut eligible: Vec<i64> = Vec::new();
    let mut records: Vec<PackedFile> = Vec::new();
    let mut source_links: Vec<SourceLink> = Vec::new();
    let mut bank: Vec<BankedHash> = Vec::new();
    let mut used = UsedNames::new();
    let mut i: usize = 0;
    while i < entries.len()
        invariant
            i <= es.len(),
            entries@ == es,
            facts@ == fs,
            fs.len() == es.len(),
            used@ == entries_taken(es, fs, i as int),
            are_packed(records@, *origin, es, fs, i as int),
            are_eligible(eligible@, es, fs, i as int),
            are_refused(ineligible@, known, es, fs, i as int),
            are_banked(bank@, es, fs, i as int),
            are_links(source_links@, es, fs, i as int),
        decreases es.len() - i,
    {
        let e = &entries[i];
        let f = &facts[i];
        let ghost records0 = records@;
        let ghost eligible0 = eligible@;
        let ghost ineligible0 = ineligible@;
        let ghost bank0 = bank@;
        let ghost links0 = source_links@;
        match banked_hash(e, f) {
            Some(b) => {
                bank.push(b);
            },
            None => {},
        }
        match fault_of(f) {
            Some(reason) => {
                ineligible.push(IneligibleFrame { frame_id: e.frame_id, reason });
            },
            None => {
                let p = pack(origin, e, f, &mut used);
                records.push(p);
                eligible.push(e.frame_id);
                match source_link(e, f) {
                    Some(l) => {
                        source_links.push(l);
                    },
                    None => {},
                }
            },
        }
        proof {
            let n = i as int;
            assert(are_packed(records@, *origin, es, fs, n + 1)) by {
                let at = sent_places(fs, n + 1);
                assert forall|k: int| 0 <= k < records@.len() implies is_packed(
                    #[trigger] records@[k],
                    *origin,
                    es[at[k]],
                    fs[at[k]],
                    entries_taken(es, fs, at[k]),
                ) by {
                    if k < records0.len() {
                        assert(records@[k] == records0[k]);
                    }
                }
            }
            assert(are_eligible(eligible@, es, fs, n + 1)) by {
                let at = sent_places(fs, n + 1);
                assert forall|k: int| 0 <= k < eligible@.len() implies #[trigger] eligible@[k]
                    == es[at[k]].frame_id by {
                    if k < eligible0.len() {
                        assert(eligible@[k] == eligible0[k]);
                    }
                }
            }
            assert(are_refused(ineligible@, known, es, fs, n + 1)) by {
                let at = refused_places(fs, n + 1);
                assert forall|k: int| 0 <= k < known.len() implies #[trigger] ineligible@[k]
                    == known[k] by {
                    assert(ineligible@[k] == ineligible0[k]);
                }
                assert forall|k: int| 0 <= k < at.len() implies (#[trigger] ineligible@[known.len()
                    + k]).frame_id == es[at[k]].frame_id && Some(
                    ineligible@[known.len() + k].reason@,
                ) == fault(fs[at[k]]) by {
                    if known.len() + k < ineligible0.len() {
                        assert(ineligible@[known.len() + k] == ineligible0[known.len() + k]);
                    }
                }
            }
            assert(are_banked(bank@, es, fs, n + 1)) by {
                let at = banked_places(es, fs, n + 1);
                assert forall|k: int| 0 <= k < bank@.len() implies (#[trigger] bank@[k]).file_id
                    == fs[at[k]].frame->Some_0.file_id && bank@[k].hash == fs[at[k]].hash->Ok_0 by {
                    if k < bank0.len() {
                        assert(bank@[k] == bank0[k]);
                    }
                }
            }
            assert(are_links(source_links@, es, fs, n + 1)) by {
                let at = linked_places(es, fs, n + 1);
                assert forall|k: int| 0 <= k < source_links@.len() implies is_link(
                    #[trigger] source_links@[k],
                    fs[at[k]],
                ) by {
                    if k < links0.len() {
                        assert(source_links@[k] == links0[k]);
                    }
                }
            }
        }
        i = i + 1;
    }
    let total = input.total;
    let display_name = if records.len() == 0 {
        None
    } else {
        Some(resolve_batch_name(naming, &input.ancestor, records.len()))
    };
    let pkg_dir = if records.len() == 0 {
        None
    } else {
        Some(join_paths(origin.packages_dir.as_str(), origin.package_uuid.as_str()))
    };
    let files = announce_files(&records);
    BuiltSelection {
        pkg_dir,
        records,
        eligible,
        ineligible,
        total,
        display_name,
        files,
        bank,
        source_links,
    }
}

/// What came of a selection: how many frames were sent, how many could be, how
/// many were asked for, and which could not.
#[derive(Debug, Clone)]
pub struct EnqueueSelectionResult {
    pub enqueued_count: u32,
    pub eligible_count: u32,
    pub total_count: u32,
    pub ineligible: Vec<IneligibleFrame>,
}

/// A package as it is handed to the sender.
#[derive(Debug)]
pub struct EnqueueOrder {
    pub dir: String,
    pub display_name: Option<String>,
    pub files: Vec<AnnounceFileEntry>,
    pub layout: PackageLayout,
}

/// The package that is handed to the sender, if there is one, and what is told
/// once that is done. A selection lands in a folder of its own.
pub fn build_and_enqueue_selection(built: BuiltSelection) -> (r: (
    Option<EnqueueOrder>,
    EnqueueSelectionResult,
))
    requires
        built.eligible@.len() <= u32::MAX,
        built.total <= u32::MAX,
    ensures
        match built.pkg_dir {
            Some(dir) => r.0 == Some(
                EnqueueOrder {
                    dir,
                    display_name: built.display_name,
                    files: built.files,
                    layout: PackageLayout::Batch,
                },
            ),
            None => r.0 is None,
        },
        r.1.enqueued_count == built.eligible@.len(),
        r.1.eligible_count == built.eligible@.len(),
        r.1.total_count == built.total,
        r.1.ineligible == built.ineligible,
{
    let n: u32 = built.eligible.len() as u32;
    let total: u32 = built.total as u32;
    let order = match built.pkg_dir {
        Some(dir) => Some(
            EnqueueOrder {
                dir,
                display_name: built.display_name,
                files: built.files,
                layout: PackageLayout::Batch,
            },
        ),
        None => None,
    };
    (
        order,
        EnqueueSelectionResult {
            enqueued_count: n,
            eligible_count: n,
            total_count: total,
            ineligible: built.ineligible,
        },
    )
}

/// What a send does before anything else: nothing at all where no frame was
/// asked for, so that no sender is started for it.
pub fn enqueue_sync_selection(frame_ids: &Vec<i64>) -> (r: Option<EnqueueSelectionResult>)
    ensures
        match r {
            Some(done) => frame_ids@.len() == 0 && done.enqueued_count == 0
                && done.eligible_count == 0 && done.total_count == 0
                && done.ineligible@.len() == 0,
            None => frame_ids@.len() > 0,
        },
{
    if frame_ids.len() > 0 {
        return None;
    }
    Some(
        EnqueueSelectionResult {
            enqueued_count: 0,
            eligible_count: 0,
            total_count: 0,
            ineligible: Vec::new(),
        },
    )
}

} // verus!
