//! What a package says of the files in it, and what is told of the others.

use crate::api::sync::layout::{resolve_batch_name, BatchNaming};
use crate::api::sync::manifest::PayloadKind;
use crate::api::sync::selection::{
    are_banked, are_links, banked_places, build_selection_package, distinct_ids, entries_taken,
    fault, framed_places, is_built, is_packed, linked_places, refused_places, requested_ids,
    selection_entries, sent_places, AnnounceFileEntry, BuiltSelection, CatalogRow, EntryFacts,
    PackageOrigin, PackedFile, PayloadEntry, SelectionInput,
};
use crate::api::sync::selection_laws::law_every_entry_is_sent_or_refused;
use crate::paths::join_paths;
use std::collections::HashMap;
use vstd::prelude::*;

verus! {

/// Whether nothing stands against sending an entry: the catalog has its frame, its
/// file is there and can be read, and what the catalog knows of it can be written.
pub open spec fn can_go(f: EntryFacts) -> bool {
    f.frame is Some && f.exists && f.stat is Ok && f.hash is Ok && f.frame_meta is Ok
}

/// Whether an entry has the identity that the catalog gives its frame.
pub open spec fn has_catalog_identity(e: PayloadEntry, f: EntryFacts) -> bool {
    &&& e.kind == PayloadKind::RawFrame || e.kind == PayloadKind::Master
    &&& f.frame matches Some(fr) && fr.uuid matches Some(u) && u@.len() > 0
}

/// Whether a record, with what is announced of it, is the one of an entry.
pub open spec fn tells_of(
    p: PackedFile,
    a: AnnounceFileEntry,
    o: PackageOrigin,
    e: PayloadEntry,
    f: EntryFacts,
) -> bool {
    let id = if has_catalog_identity(e, f) {
        f.frame->Some_0.uuid->Some_0@
    } else {
        f.fresh_uuid@
    };
    &&& can_go(f)
    &&& p.source_path@ == e.source_path@
    &&& p.record.payload_kind == e.kind
    &&& p.record.frame_uuid@ == id
    &&& p.record.origin_catalog_uuid@ == id
    &&& a.frame_uuid@ == id
    &&& a.rel_path@ == p.record.rel_path@
    &&& p.record.byte_size == f.stat->Ok_0.byte_size
    &&& a.byte_size == f.stat->Ok_0.byte_size
    &&& p.record.xxh3@ == f.hash->Ok_0@
    &&& p.record.frame_meta@ == f.frame_meta->Ok_0@
    &&& e.kind == PayloadKind::CalibratedLight ==> p.record.analysis is None
    &&& e.kind != PayloadKind::CalibratedLight ==> p.record.analysis == f.analysis
    &&& p.record.origin_device@ == o.origin_device@
    &&& p.record.app_version@ == o.app_version@
    &&& p.record.v == o.manifest_version
    &&& p.record.project is None
}

proof fn lemma_sent(fs: Seq<EntryFacts>, n: int, p: int)
    requires
        0 <= n <= fs.len(),
    ensures
        sent_places(fs, n).contains(p) <==> 0 <= p < n && can_go(fs[p]),
        refused_places(fs, n).contains(p) <==> 0 <= p < n && !can_go(fs[p]),
    decreases n,
{
    if n > 0 {
        lemma_sent(fs, n - 1, p);
        let s0 = sent_places(fs, n - 1);
        let s1 = sent_places(fs, n);
        let r0 = refused_places(fs, n - 1);
        let r1 = refused_places(fs, n);
        if s0.contains(p) {
            let k = choose|k: int| 0 <= k < s0.len() && s0[k] == p;
            assert(s1[k] == p);
        }
        if s1.contains(p) {
            let k = choose|k: int| 0 <= k < s1.len() && s1[k] == p;
            if k < s0.len() {
                assert(s0[k] == p);
            }
        }
        if r0.contains(p) {
            let k = choose|k: int| 0 <= k < r0.len() && r0[k] == p;
            assert(r1[k] == p);
        }
        if r1.contains(p) {
            let k = choose|k: int| 0 <= k < r1.len() && r1[k] == p;
            if k < r0.len() {
                assert(r0[k] == p);
            }
        }
        if can_go(fs[n - 1]) {
            assert(s1[s0.len() as int] == n - 1);
        } else {
            assert(r1[r0.len() as int] == n - 1);
        }
    }
}

/// A package holds a record for each entry that can go, and for no other, and the
/// record says of the entry what is so. A frame from the camera or a master goes
/// under the identity that the catalog gives it; a calibrated light, or a frame to
/// which the catalog gives none, under a fresh one.
pub proof fn law_records_tell_of_their_entries(
    r: BuiltSelection,
    o: PackageOrigin,
    input: SelectionInput,
    facts: Vec<EntryFacts>,
    naming: BatchNaming,
    k: int,
    p: int,
)
    requires
        call_ensures(build_selection_package, (&o, input, &facts, &naming), r),
        facts@.len() == input.entries@.len(),
    ensures
        r.eligible@.len() == r.records@.len(),
        r.files@.len() == r.records@.len(),
        r.total == input.total,
        0 <= k < r.records@.len() ==> exists|q: int|
            0 <= q < facts@.len() && #[trigger] tells_of(
                r.records@[k],
                r.files@[k],
                o,
                input.entries@[q],
                facts@[q],
            ) && r.eligible@[k] == input.entries@[q].frame_id,
        0 <= p < facts@.len() && can_go(facts@[p]) ==> exists|j: int|
            0 <= j < r.records@.len() && #[trigger] tells_of(
                r.records@[j],
                r.files@[j],
                o,
                input.entries@[p],
                facts@[p],
            ) && r.eligible@[j] == input.entries@[p].frame_id,
{
    let fs = facts@;
    let n = fs.len() as int;
    let es = input.entries@;
    let at = sent_places(fs, n);
    if 0 <= k < r.records@.len() {
        let q = at[k];
        assert(at.contains(q));
        lemma_sent(fs, n, q);
        lemma_told(r, o, input, fs, naming, k);
        assert(r.eligible@[k] == es[q].frame_id);
    }
    if 0 <= p < n && can_go(fs[p]) {
        lemma_sent(fs, n, p);
        let j = choose|j: int| 0 <= j < at.len() && at[j] == p;
        lemma_told(r, o, input, fs, naming, j);
        assert(r.eligible@[j] == es[p].frame_id);
    }
}

proof fn lemma_told(
    r: BuiltSelection,
    o: PackageOrigin,
    input: SelectionInput,
    fs: Seq<EntryFacts>,
    naming: BatchNaming,
    k: int,
)
    requires
        is_built(r, o, input, fs, naming),
        fs.len() == input.entries@.len(),
        0 <= k < r.records@.len(),
    ensures
        ({
            let q = sent_places(fs, fs.len() as int)[k];
            tells_of(r.records@[k], r.files@[k], o, input.entries@[q], fs[q])
        }),
{
    let n = fs.len() as int;
    let at = sent_places(fs, n);
    let q = at[k];
    assert(at.contains(q));
    lemma_sent(fs, n, q);
    assert(r.files@[k].rel_path == r.records@[k].record.rel_path);
    assert(is_packed(
        r.records@[k],
        o,
        input.entries@[q],
        fs[q],
        entries_taken(input.entries@, fs, q),
    ));
}

/// Two sends of one file of the catalog carry one identity, whatever fresh identities
/// there were for them and in whatever packages they go.
pub proof fn law_two_sends_carry_one_identity(
    a: BuiltSelection,
    b: BuiltSelection,
    oa: PackageOrigin,
    ob: PackageOrigin,
    ia: SelectionInput,
    ib: SelectionInput,
    fa: Vec<EntryFacts>,
    fb: Vec<EntryFacts>,
    na: BatchNaming,
    nb: BatchNaming,
    p: int,
    q: int,
)
    requires
        call_ensures(build_selection_package, (&oa, ia, &fa, &na), a),
        call_ensures(build_selection_package, (&ob, ib, &fb, &nb), b),
        fa@.len() == ia.entries@.len(),
        fb@.len() == ib.entries@.len(),
        0 <= p < fa@.len(),
        0 <= q < fb@.len(),
        can_go(fa@[p]),
        can_go(fb@[q]),
        has_catalog_identity(ia.entries@[p], fa@[p]),
        has_catalog_identity(ib.entries@[q], fb@[q]),
        fa@[p].frame->Some_0.uuid->Some_0@ == fb@[q].frame->Some_0.uuid->Some_0@,
    ensures
        exists|j: int, k: int|
            0 <= j < a.files@.len() && 0 <= k < b.files@.len() && (
            #[trigger] a.files@[j]).frame_uuid@ == fa@[p].frame->Some_0.uuid->Some_0@ && (
            #[trigger] b.files@[k]).frame_uuid@ == a.files@[j].frame_uuid@
                && a.records@[j].record.frame_uuid@ == b.records@[k].record.frame_uuid@
                && a.eligible@[j] == ia.entries@[p].frame_id && b.eligible@[k]
                == ib.entries@[q].frame_id,
{
    law_records_tell_of_their_entries(a, oa, ia, fa, na, 0, p);
    law_records_tell_of_their_entries(b, ob, ib, fb, nb, 0, q);
    let j = choose|j: int|
        0 <= j < a.records@.len() && #[trigger] tells_of(
            a.records@[j],
            a.files@[j],
            oa,
            ia.entries@[p],
            fa@[p],
        ) && a.eligible@[j] == ia.entries@[p].frame_id;
    let k = choose|k: int|
        0 <= k < b.records@.len() && #[trigger] tells_of(
            b.records@[k],
            b.files@[k],
            ob,
            ib.entries@[q],
            fb@[q],
        ) && b.eligible@[k] == ib.entries@[q].frame_id;
    assert(a.files@[j].frame_uuid@ == b.files@[k].frame_uuid@);
}

/// Why an entry cannot go, in the order in which it is looked at.
pub open spec fn is_reason(f: EntryFacts, reason: Seq<char>) -> bool {
    if f.frame is None {
        reason == "frame not found in catalog"@
    } else if !f.exists {
        reason == "file missing on disk"@
    } else {
        match (f.stat, f.hash, f.frame_meta) {
            (Err(why), _, _) => reason == "cannot stat file: "@ + why@,
            (_, Err(why), _) => reason == "cannot read file: "@ + why@,
            (_, _, Err(why)) => reason == "serialize frame_meta: "@ + why@,
            _ => false,
        }
    }
}

/// Every entry that cannot go is told of with its own reason, behind the frames that
/// were known not to go; and no entry that can go is told of there.
pub proof fn law_refused_entries_are_told_of(
    r: BuiltSelection,
    o: PackageOrigin,
    input: SelectionInput,
    facts: Vec<EntryFacts>,
    naming: BatchNaming,
    k: int,
    p: int,
)
    requires
        call_ensures(build_selection_package, (&o, input, &facts, &naming), r),
        facts@.len() == input.entries@.len(),
    ensures
        r.ineligible@.len() + r.records@.len() == input.ineligible@.len() + facts@.len(),
        0 <= k < input.ineligible@.len() ==> r.ineligible@[k] == input.ineligible@[k],
        input.ineligible@.len() <= k < r.ineligible@.len() ==> exists|q: int|
            0 <= q < facts@.len() && r.ineligible@[k].frame_id == input.entries@[q].frame_id
                && #[trigger] is_reason(facts@[q], r.ineligible@[k].reason@),
        0 <= p < facts@.len() && !can_go(facts@[p]) ==> exists|j: int|
            0 <= j < r.ineligible@.len() && (#[trigger] r.ineligible@[j]).frame_id
                == input.entries@[p].frame_id && is_reason(facts@[p], r.ineligible@[j].reason@),
{
    let fs = facts@;
    let n = fs.len() as int;
    let es = input.entries@;
    let known = input.ineligible@.len() as int;
    let at = refused_places(fs, n);
    if n > 0 {
        law_every_entry_is_sent_or_refused(fs, n, 0);
    }
    if known <= k < r.ineligible@.len() {
        let m = k - known;
        let q = at[m];
        assert(at.contains(q));
        lemma_sent(fs, n, q);
        assert(r.ineligible@[known + m].frame_id == es[q].frame_id);
        assert(Some(r.ineligible@[known + m].reason@) == fault(fs[q]));
        assert(is_reason(fs[q], r.ineligible@[k].reason@));
    }
    if 0 <= p < n && !can_go(fs[p]) {
        lemma_sent(fs, n, p);
        let m = choose|m: int| 0 <= m < at.len() && at[m] == p;
        assert(r.ineligible@[known + m].frame_id == es[p].frame_id);
        assert(Some(r.ineligible@[known + m].reason@) == fault(fs[p]));
    }
}

proof fn lemma_linked(es: Seq<PayloadEntry>, fs: Seq<EntryFacts>, n: int, p: int)
    requires
        0 <= n <= fs.len(),
        fs.len() == es.len(),
    ensures
        linked_places(es, fs, n).contains(p) <==> 0 <= p < n && can_go(fs[p]) && es[p].kind
            == PayloadKind::RawFrame,
        banked_places(es, fs, n).contains(p) <==> 0 <= p < n && fs[p].frame is Some
            && fs[p].exists && fs[p].stat is Ok && fs[p].hash is Ok && fs[p].disk_matches
            && es[p].kind != PayloadKind::CalibratedLight,
    decreases n,
{
    if n > 0 {
        lemma_linked(es, fs, n - 1, p);
        let a0 = linked_places(es, fs, n - 1);
        let a1 = linked_places(es, fs, n);
        let b0 = banked_places(es, fs, n - 1);
        let b1 = banked_places(es, fs, n);
        if a0.contains(p) {
            let k = choose|k: int| 0 <= k < a0.len() && a0[k] == p;
            assert(a1[k] == p);
        }
        if a1.contains(p) {
            let k = choose|k: int| 0 <= k < a1.len() && a1[k] == p;
            if k < a0.len() {
                assert(a0[k] == p);
            }
        }
        if b0.contains(p) {
            let k = choose|k: int| 0 <= k < b0.len() && b0[k] == p;
            assert(b1[k] == p);
        }
        if b1.contains(p) {
            let k = choose|k: int| 0 <= k < b1.len() && b1[k] == p;
            if k < b0.len() {
                assert(b0[k] == p);
            }
        }
        if a1.len() > a0.len() {
            assert(a1[a0.len() as int] == n - 1);
        }
        if b1.len() > b0.len() {
            assert(b1[b0.len() as int] == n - 1);
        }
    }
}

/// The files that may go once a package has arrived are just those frames from the
/// camera that are in it, each noted with its own path, size and time; and the
/// hashes that are kept are just those of files that were read and are still the
/// ones of the catalog, each for its own file.
pub proof fn law_links_and_hashes_are_of_their_files(
    r: BuiltSelection,
    o: PackageOrigin,
    input: SelectionInput,
    facts: Vec<EntryFacts>,
    naming: BatchNaming,
    k: int,
    p: int,
)
    requires
        call_ensures(build_selection_package, (&o, input, &facts, &naming), r),
        facts@.len() == input.entries@.len(),
    ensures
        0 <= k < r.source_links@.len() ==> exists|q: int|
            0 <= q < facts@.len() && #[trigger] can_go(facts@[q]) && input.entries@[q].kind
                == PayloadKind::RawFrame && r.source_links@[k].file_id
                == facts@[q].frame->Some_0.file_id && r.source_links@[k].path@
                == facts@[q].frame->Some_0.path@ && r.source_links@[k].byte_size
                == facts@[q].stat->Ok_0.byte_size && r.source_links@[k].mtime_ms
                == facts@[q].stat->Ok_0.mtime_ms,
        0 <= p < facts@.len() && can_go(facts@[p]) && input.entries@[p].kind == PayloadKind::RawFrame
            ==> exists|j: int|
            0 <= j < r.source_links@.len() && (#[trigger] r.source_links@[j]).file_id
                == facts@[p].frame->Some_0.file_id && r.source_links@[j].path@
                == facts@[p].frame->Some_0.path@,
        0 <= k < r.bank@.len() ==> exists|q: int|
            0 <= q < facts@.len() && (#[trigger] facts@[q]).frame is Some && facts@[q].exists
                && facts@[q].disk_matches && input.entries@[q].kind != PayloadKind::CalibratedLight
                && r.bank@[k].file_id == facts@[q].frame->Some_0.file_id && facts@[q].hash is Ok
                && r.bank@[k].hash@ == facts@[q].hash->Ok_0@,
        0 <= p < facts@.len() && facts@[p].frame is Some && facts@[p].exists && facts@[p].stat is Ok
            && facts@[p].hash is Ok && facts@[p].disk_matches && input.entries@[p].kind
            != PayloadKind::CalibratedLight ==> exists|j: int|
            0 <= j < r.bank@.len() && (#[trigger] r.bank@[j]).file_id
                == facts@[p].frame->Some_0.file_id && r.bank@[j].hash@ == facts@[p].hash->Ok_0@,
{
    let fs = facts@;
    let n = fs.len() as int;
    let es = input.entries@;
    let a = linked_places(es, fs, n);
    let b = banked_places(es, fs, n);
    assert(are_links(r.source_links@, es, fs, n));
    assert(are_banked(r.bank@, es, fs, n));
    lemma_linked(es, fs, n, p);
    if 0 <= k < r.source_links@.len() {
        assert(a.contains(a[k]));
        lemma_linked(es, fs, n, a[k]);
        assert(can_go(fs[a[k]]));
    }
    if 0 <= k < r.bank@.len() {
        assert(b.contains(b[k]));
        lemma_linked(es, fs, n, b[k]);
        assert(fs[b[k]].frame is Some);
    }
    if a.contains(p) {
        let j = choose|j: int| 0 <= j < a.len() && a[j] == p;
        assert(r.source_links@[j].file_id == fs[p].frame->Some_0.file_id);
    }
    if b.contains(p) {
        let j = choose|j: int| 0 <= j < b.len() && b[j] == p;
        assert(r.bank@[j].file_id == fs[p].frame->Some_0.file_id);
    }
}

proof fn lemma_distinct(ids: Seq<i64>, n: int, id: i64)
    requires
        0 <= n <= ids.len(),
    ensures
        distinct_ids(ids, n).no_duplicates(),
        distinct_ids(ids, n).contains(id) <==> exists|i: int| 0 <= i < n && ids[i] == id,
    decreases n,
{
    if n > 0 {
        lemma_distinct(ids, n - 1, id);
        let before = distinct_ids(ids, n - 1);
        let now = distinct_ids(ids, n);
        if before.contains(id) {
            let k = choose|k: int| 0 <= k < before.len() && before[k] == id;
            assert(now[k] == id);
        }
        if now.contains(id) {
            let k = choose|k: int| 0 <= k < now.len() && now[k] == id;
            if k < before.len() {
                assert(before[k] == id);
            } else {
                assert(ids[n - 1] == id);
            }
        }
        if !before.contains(ids[n - 1]) {
            assert(now[before.len() as int] == ids[n - 1]);
        }
    }
}

/// What is asked for is asked for once: the list holds the frames of the selection,
/// no other, and none twice.
pub proof fn law_each_frame_is_asked_for_once(asked: Vec<i64>, r: Vec<i64>, id: i64)
    requires
        call_ensures(requested_ids, (&asked,), r),
    ensures
        r@.no_duplicates(),
        r@.contains(id) <==> asked@.contains(id),
{
    let ids = asked@;
    lemma_distinct(ids, ids.len() as int, id);
    if ids.contains(id) {
        let i = choose|i: int| 0 <= i < ids.len() && ids[i] == id;
        assert(ids[i] == id);
    }
}

proof fn lemma_framed_place(rows: Seq<CatalogRow>, n: int, p: int)
    requires
        0 <= n <= rows.len(),
    ensures
        framed_places(rows, n).contains(p) <==> 0 <= p < n && rows[p].frame_id is Some,
    decreases n,
{
    if n > 0 {
        lemma_framed_place(rows, n - 1, p);
        let before = framed_places(rows, n - 1);
        let now = framed_places(rows, n);
        if before.contains(p) {
            let k = choose|k: int| 0 <= k < before.len() && before[k] == p;
            assert(now[k] == p);
        }
        if now.contains(p) {
            let k = choose|k: int| 0 <= k < now.len() && now[k] == p;
            if k < before.len() {
                assert(before[k] == p);
            }
        }
        if rows[n - 1].frame_id is Some {
            assert(now[before.len() as int] == n - 1);
        }
    }
}

/// Whether an entry of a selection is the one of a row of the catalog: its frame and
/// its file, and a master just where the catalog or the frame's type says so.
pub open spec fn is_of_row(e: PayloadEntry, row: CatalogRow) -> bool {
    &&& row.frame_id == Some(e.frame_id)
    &&& e.source_path@ == row.path@
    &&& e.kind == PayloadKind::Master <==> row.is_master || row.type_is_master
    &&& e.kind == PayloadKind::RawFrame <==> !row.is_master && !row.type_is_master
}

/// A selection has an entry for each file of the catalog that has a frame, and no
/// other entry.
pub proof fn law_selection_is_what_the_catalog_has(
    input: SelectionInput,
    asked: Vec<i64>,
    catalog: Vec<CatalogRow>,
    placements: Option<HashMap<i64, String>>,
    k: int,
    p: int,
)
    requires
        call_ensures(selection_entries, (&asked, &catalog, placements), input),
    ensures
        input.total == asked@.len(),
        0 <= k < input.entries@.len() ==> exists|q: int|
            0 <= q < catalog@.len() && #[trigger] is_of_row(input.entries@[k], catalog@[q]),
        0 <= p < catalog@.len() && catalog@[p].frame_id is Some ==> exists|j: int|
            0 <= j < input.entries@.len() && #[trigger] is_of_row(input.entries@[j], catalog@[p]),
{
    let rows = catalog@;
    let n = rows.len() as int;
    let at = framed_places(rows, n);
    lemma_framed_place(rows, n, p);
    if 0 <= k < input.entries@.len() {
        assert(at.contains(at[k]));
        lemma_framed_place(rows, n, at[k]);
        assert(is_of_row(input.entries@[k], rows[at[k]]));
    }
    if 0 <= p < n && rows[p].frame_id is Some {
        let j = choose|j: int| 0 <= j < at.len() && at[j] == p;
        assert(is_of_row(input.entries@[j], rows[p]));
    }
}

/// A package is made exactly if some file goes. It lies in a directory of its own among
/// the packages and goes by the name that its batch has for so many files.
pub proof fn law_a_package_is_made_of_what_goes(
    r: BuiltSelection,
    o: PackageOrigin,
    input: SelectionInput,
    facts: Vec<EntryFacts>,
    naming: BatchNaming,
    packages: &str,
    uuid: &str,
    dir: String,
    files: usize,
    name: String,
)
    requires
        call_ensures(build_selection_package, (&o, input, &facts, &naming), r),
        facts@.len() == input.entries@.len(),
        packages@ == o.packages_dir@,
        uuid@ == o.package_uuid@,
        call_ensures(join_paths, (packages, uuid), dir),
        files == r.records@.len(),
        call_ensures(resolve_batch_name, (&naming, &input.ancestor, files), name),
    ensures
        r.pkg_dir is Some <==> r.records@.len() > 0,
        r.pkg_dir matches Some(d) ==> d@ == dir@,
        r.display_name is Some <==> r.records@.len() > 0,
        r.display_name matches Some(n) ==> n@ == name@,
{
    assert(is_built(r, o, input, facts@, naming));
}

} // verus!
