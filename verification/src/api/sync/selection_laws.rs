//! What holds of every selection and of every package.

use crate::api::sync::layout::{
    given_name, law_given_name_is_free, numbered, payload_name, placed, stem_ext, BatchNaming,
    Placing, Taken,
};
use crate::api::sync::manifest::PayloadKind;
use crate::api::sync::selection::{
    are_packed, banked_places, dir_name, entries_taken, entry_taken, fault, framed_ids,
    framed_places, hash_is_kept, is_built, is_selection, linked_places, places_distinct,
    refused_places, row_taken, rows_taken, selection_placing, sent_places, unknown_ids,
    BuiltSelection, CatalogRow, EntryFacts, PackageOrigin, PackedFile, PayloadEntry,
    SelectionInput,
};
use crate::api::sync::transfer_files::{base_name, last_slash};
use crate::archive::path_layout::last_dot;
use crate::paths::{components, file_name, lemma_component};
use crate::text::{decimal, signed_decimal};
use vstd::prelude::*;

verus! {

/// No slash stands in a text.
pub open spec fn has_no_slash(s: Seq<char>) -> bool {
    forall|k: int| 0 <= k < s.len() ==> #[trigger] s[k] != '/'
}

proof fn lemma_decimal_has_no_slash(n: nat)
    ensures
        has_no_slash(decimal(n)),
    decreases n,
{
    if n >= 10 {
        lemma_decimal_has_no_slash(n / 10);
    }
}

proof fn lemma_last_slash(s: Seq<char>, n: int)
    requires
        0 <= n <= s.len(),
    ensures
        match last_slash(s, n) {
            Some(i) => 0 <= i < n && s[i] == '/' && forall|k: int| i < k < n ==> s[k] != '/',
            None => forall|k: int| 0 <= k < n ==> s[k] != '/',
        },
    decreases n,
{
    if n > 0 {
        lemma_last_slash(s, n - 1);
    }
}

proof fn lemma_last_dot(s: Seq<char>, n: int)
    requires
        0 <= n <= s.len(),
    ensures
        last_dot(s, n) matches Some(i) ==> 0 <= i < n,
    decreases n,
{
    if n > 0 {
        lemma_last_dot(s, n - 1);
    }
}

proof fn lemma_numbered_has_no_slash(filename: Seq<char>, n: nat)
    requires
        has_no_slash(filename),
    ensures
        has_no_slash(numbered(filename, n)),
{
    lemma_decimal_has_no_slash(n);
    reveal_strlit("_");
    reveal_strlit(".");
    match file_name(filename) {
        Some(c) => {
            let cs = components(filename);
            lemma_component(filename, cs.len() - 1);
            assert(has_no_slash(c));
            lemma_last_dot(c, c.len() as int);
            assert(has_no_slash(stem_ext(filename).0));
            match stem_ext(filename).1 {
                Some(e) => {
                    assert(has_no_slash(e));
                },
                None => {},
            }
        },
        None => {},
    }
}

/// The name that a file gets holds no slash where its own holds none.
proof fn lemma_given_name_has_no_slash(used: Set<Taken>, dir: Seq<char>, filename: Seq<char>)
    requires
        has_no_slash(filename),
    ensures
        has_no_slash(given_name(used, dir, filename)),
{
    if used.contains((dir, filename)) {
        let n = choose|n: nat| crate::api::sync::layout::is_free_number(used, dir, filename, n);
        lemma_numbered_has_no_slash(filename, n);
    }
}

proof fn lemma_base_name_has_no_slash(rel_path: Seq<char>)
    ensures
        has_no_slash(base_name(rel_path)),
{
    lemma_last_slash(rel_path, rel_path.len() as int);
}

/// Two places of a package are the same only where directory and name are.
proof fn lemma_placed_injective(a: Taken, b: Taken)
    requires
        has_no_slash(a.1),
        has_no_slash(b.1),
        placed(a.0, a.1) == placed(b.0, b.1),
    ensures
        a == b,
{
    reveal_strlit("/");
    let x = placed(a.0, a.1);
    let y = placed(b.0, b.1);
    if a.0.len() > 0 {
        assert(x[a.0.len() as int] == '/');
    }
    if b.0.len() > 0 {
        assert(y[b.0.len() as int] == '/');
    }
    if a.0.len() == 0 && b.0.len() > 0 {
        assert(a.1[b.0.len() as int] == '/');
    }
    if b.0.len() == 0 && a.0.len() > 0 {
        assert(b.1[a.0.len() as int] == '/');
    }
    if a.0.len() > 0 && b.0.len() > 0 {
        assert("/"@ =~= seq!['/']);
        assert(x.len() == a.0.len() + 1 + a.1.len());
        assert(y.len() == b.0.len() + 1 + b.1.len());
        if a.0.len() < b.0.len() {
            assert(x[b.0.len() as int] == a.1[b.0.len() - a.0.len() - 1]);
        } else if b.0.len() < a.0.len() {
            assert(y[a.0.len() as int] == b.1[a.0.len() - b.0.len() - 1]);
        }
        assert(a.0.len() == b.0.len());
        assert(x.take(a.0.len() as int) =~= a.0);
        assert(y.take(b.0.len() as int) =~= b.0);
        assert(x.skip(a.0.len() as int + 1) =~= a.1);
        assert(y.skip(b.0.len() as int + 1) =~= b.1);
    } else {
        assert(a.0 =~= b.0);
    }
}

proof fn lemma_taken_grows(es: Seq<PayloadEntry>, fs: Seq<EntryFacts>, m: int, n: int)
    requires
        0 <= m <= n,
    ensures
        entries_taken(es, fs, m).subset_of(entries_taken(es, fs, n)),
        entries_taken(es, fs, n).finite(),
    decreases n,
{
    if n > 0 {
        if m < n {
            lemma_taken_grows(es, fs, m, n - 1);
        } else {
            lemma_taken_grows(es, fs, n - 1, n - 1);
        }
    }
}

proof fn lemma_sent_places(fs: Seq<EntryFacts>, n: int)
    requires
        0 <= n <= fs.len(),
    ensures
        forall|k: int|
            #![trigger sent_places(fs, n)[k]]
            0 <= k < sent_places(fs, n).len() ==> 0 <= sent_places(fs, n)[k] < n && fault(
                fs[sent_places(fs, n)[k]],
            ) is None,
        forall|j: int, k: int|
            #![trigger sent_places(fs, n)[j], sent_places(fs, n)[k]]
            0 <= j < k < sent_places(fs, n).len() ==> sent_places(fs, n)[j] < sent_places(fs, n)[k],
    decreases n,
{
    if n > 0 {
        lemma_sent_places(fs, n - 1);
        let before = sent_places(fs, n - 1);
        let now = sent_places(fs, n);
        assert forall|k: int| #![trigger now[k]] 0 <= k < now.len() implies 0 <= now[k] < n && fault(
            fs[now[k]],
        ) is None by {
            if k < before.len() {
                assert(now[k] == before[k]);
            }
        }
        assert forall|j: int, k: int|
            #![trigger now[j], now[k]]
            0 <= j < k < now.len() implies now[j] < now[k] by {
            assert(now[j] == before[j]);
            if k < before.len() {
                assert(now[k] == before[k]);
            }
        }
    }
}

/// No two files of a package stand at the same place, so none overwrites
/// another.
pub proof fn law_no_file_overwrites_another(
    v: Seq<PackedFile>,
    o: PackageOrigin,
    es: Seq<PayloadEntry>,
    fs: Seq<EntryFacts>,
    n: int,
)
    requires
        0 <= n <= es.len(),
        fs.len() == es.len(),
        are_packed(v, o, es, fs, n),
    ensures
        places_distinct(v),
{
    lemma_sent_places(fs, n);
    let at = sent_places(fs, n);
    assert forall|i: int, j: int| 0 <= i < j < v.len() implies (#[trigger] v[i]).record.rel_path@
        != (#[trigger] v[j]).record.rel_path@ by {
        let p = at[i];
        let q = at[j];
        assert(p < q);
        let a = entry_taken(es[p], entries_taken(es, fs, p));
        let used = entries_taken(es, fs, q);
        let b = entry_taken(es[q], used);
        assert(fault(fs[p]) is None);
        assert(entries_taken(es, fs, p + 1).contains(a));
        lemma_taken_grows(es, fs, p + 1, q);
        assert(used.contains(a));
        law_given_name_is_free(used, dir_name(es[q].rel_path@), base_name(es[q].rel_path@));
        assert(a != b);
        lemma_base_name_has_no_slash(es[p].rel_path@);
        lemma_base_name_has_no_slash(es[q].rel_path@);
        lemma_given_name_has_no_slash(
            entries_taken(es, fs, p),
            dir_name(es[p].rel_path@),
            base_name(es[p].rel_path@),
        );
        lemma_given_name_has_no_slash(used, dir_name(es[q].rel_path@), base_name(es[q].rel_path@));
        if placed(a.0, a.1) == placed(b.0, b.1) {
            lemma_placed_injective(a, b);
        }
    }
}

proof fn lemma_rows_taken_grow(rows: Seq<CatalogRow>, placing: Placing, m: int, n: int)
    requires
        0 <= m <= n,
    ensures
        rows_taken(rows, placing, m).subset_of(rows_taken(rows, placing, n)),
        rows_taken(rows, placing, n).finite(),
    decreases n,
{
    if n > 0 {
        if m < n {
            lemma_rows_taken_grow(rows, placing, m, n - 1);
        } else {
            lemma_rows_taken_grow(rows, placing, n - 1, n - 1);
        }
    }
}

proof fn lemma_framed_places(rows: Seq<CatalogRow>, n: int)
    requires
        0 <= n <= rows.len(),
    ensures
        forall|k: int|
            #![trigger framed_places(rows, n)[k]]
            0 <= k < framed_places(rows, n).len() ==> 0 <= framed_places(rows, n)[k] < n
                && rows[framed_places(rows, n)[k]].frame_id is Some,
        forall|j: int, k: int|
            #![trigger framed_places(rows, n)[j], framed_places(rows, n)[k]]
            0 <= j < k < framed_places(rows, n).len() ==> framed_places(rows, n)[j]
                < framed_places(rows, n)[k],
    decreases n,
{
    if n > 0 {
        lemma_framed_places(rows, n - 1);
        let before = framed_places(rows, n - 1);
        let now = framed_places(rows, n);
        assert forall|k: int| #![trigger now[k]] 0 <= k < now.len() implies 0 <= now[k] < n
            && rows[now[k]].frame_id is Some by {
            if k < before.len() {
                assert(now[k] == before[k]);
            }
        }
        assert forall|j: int, k: int|
            #![trigger now[j], now[k]]
            0 <= j < k < now.len() implies now[j] < now[k] by {
            assert(now[j] == before[j]);
            if k < before.len() {
                assert(now[k] == before[k]);
            }
        }
    }
}

proof fn lemma_row_name_has_no_slash(row: CatalogRow, placing: Placing, used: Set<Taken>)
    requires
        has_no_slash(row.filename@),
    ensures
        has_no_slash(row_taken(row, placing, used).1),
{
    let id = row.frame_id->Some_0;
    let name = payload_name(id, row.filename@);
    reveal_strlit("frame_");
    reveal_strlit(".fits");
    if id < 0 {
        lemma_decimal_has_no_slash((-(id as int)) as nat);
    } else {
        lemma_decimal_has_no_slash(id as nat);
    }
    assert(has_no_slash(signed_decimal(id as int)));
    assert(has_no_slash(name));
    lemma_given_name_has_no_slash(used, row_taken(row, placing, used).0, name);
}

/// No two files of a selection, sent or not, stand at the same place: they
/// differ in directory or in name. Where no slash stands in the names that the
/// catalog gives them, their paths in the package differ.
pub proof fn law_selected_files_stand_apart(
    input: SelectionInput,
    asked: Seq<i64>,
    rows: Seq<CatalogRow>,
    placements: Option<Map<i64, Seq<char>>>,
    i: int,
    j: int,
)
    requires
        is_selection(input, asked, rows, placements),
        0 <= i < j < input.entries@.len(),
    ensures
        ({
            let placing = selection_placing(rows, placements);
            let p = framed_places(rows, rows.len() as int)[i];
            let q = framed_places(rows, rows.len() as int)[j];
            let a = row_taken(rows[p], placing, rows_taken(rows, placing, p));
            let b = row_taken(rows[q], placing, rows_taken(rows, placing, q));
            &&& a != b
            &&& input.entries@[i].rel_path@ == placed(a.0, a.1)
            &&& input.entries@[j].rel_path@ == placed(b.0, b.1)
            &&& has_no_slash(rows[p].filename@) && has_no_slash(rows[q].filename@)
                ==> input.entries@[i].rel_path@ != input.entries@[j].rel_path@
        }),
{
    let n = rows.len() as int;
    let placing = selection_placing(rows, placements);
    lemma_framed_places(rows, n);
    let p = framed_places(rows, n)[i];
    let q = framed_places(rows, n)[j];
    assert(p < q);
    let used = rows_taken(rows, placing, q);
    let a = row_taken(rows[p], placing, rows_taken(rows, placing, p));
    let b = row_taken(rows[q], placing, used);
    assert(rows[p].frame_id is Some);
    assert(rows_taken(rows, placing, p + 1).contains(a));
    lemma_rows_taken_grow(rows, placing, p + 1, q);
    law_given_name_is_free(
        used,
        b.0,
        payload_name(rows[q].frame_id->Some_0, rows[q].filename@),
    );
    assert(input.entries@[i].rel_path@ == placed(a.0, a.1));
    assert(input.entries@[j].rel_path@ == placed(b.0, b.1));
    if has_no_slash(rows[p].filename@) && has_no_slash(rows[q].filename@) {
        lemma_row_name_has_no_slash(rows[p], placing, rows_taken(rows, placing, p));
        lemma_row_name_has_no_slash(rows[q], placing, used);
        if placed(a.0, a.1) == placed(b.0, b.1) {
            lemma_placed_injective(a, b);
        }
    }
}

/// Every entry is told of: it is sent or it is refused, and never both.
pub proof fn law_every_entry_is_sent_or_refused(fs: Seq<EntryFacts>, n: int, i: int)
    requires
        0 <= i < n <= fs.len(),
    ensures
        sent_places(fs, n).contains(i) == (fault(fs[i]) is None),
        refused_places(fs, n).contains(i) == (fault(fs[i]) is Some),
        sent_places(fs, n).len() + refused_places(fs, n).len() == n,
    decreases n,
{
    lemma_places_in_range(fs, n);
    if n > 1 {
        if i < n - 1 {
            law_every_entry_is_sent_or_refused(fs, n - 1, i);
        } else {
            law_every_entry_is_sent_or_refused(fs, n - 1, 0);
        }
    } else {
        assert(sent_places(fs, 0).len() == 0);
        assert(refused_places(fs, 0).len() == 0);
    }
    lemma_places_in_range(fs, n - 1);
    let s0 = sent_places(fs, n - 1);
    let s1 = sent_places(fs, n);
    let r0 = refused_places(fs, n - 1);
    let r1 = refused_places(fs, n);
    if i < n - 1 {
        if s0.contains(i) {
            let k = choose|k: int| 0 <= k < s0.len() && s0[k] == i;
            assert(s1[k] == i);
        }
        if r0.contains(i) {
            let k = choose|k: int| 0 <= k < r0.len() && r0[k] == i;
            assert(r1[k] == i);
        }
        if s1.contains(i) {
            let k = choose|k: int| 0 <= k < s1.len() && s1[k] == i;
            assert(s0[k] == i);
        }
        if r1.contains(i) {
            let k = choose|k: int| 0 <= k < r1.len() && r1[k] == i;
            assert(r0[k] == i);
        }
    } else {
        if fault(fs[i]) is None {
            assert(s1[s0.len() as int] == i);
        } else {
            assert(r1[r0.len() as int] == i);
        }
    }
}

proof fn lemma_places_in_range(fs: Seq<EntryFacts>, n: int)
    requires
        0 <= n <= fs.len(),
    ensures
        forall|k: int|
            #![trigger sent_places(fs, n)[k]]
            0 <= k < sent_places(fs, n).len() ==> 0 <= sent_places(fs, n)[k] < n,
        forall|k: int|
            #![trigger refused_places(fs, n)[k]]
            0 <= k < refused_places(fs, n).len() ==> 0 <= refused_places(fs, n)[k] < n,
    decreases n,
{
    if n > 0 {
        lemma_places_in_range(fs, n - 1);
        let s0 = sent_places(fs, n - 1);
        let s1 = sent_places(fs, n);
        let r0 = refused_places(fs, n - 1);
        let r1 = refused_places(fs, n);
        assert forall|k: int| #![trigger s1[k]] 0 <= k < s1.len() implies 0 <= s1[k] < n by {
            if k < s0.len() {
                assert(s1[k] == s0[k]);
            }
        }
        assert forall|k: int| #![trigger r1[k]] 0 <= k < r1.len() implies 0 <= r1[k] < n by {
            if k < r0.len() {
                assert(r1[k] == r0[k]);
            }
        }
    }
}

/// A file is marked as one that may go only where it was sent, and only where
/// it is a frame as it came from the camera: never a master, never a
/// calibrated light.
pub proof fn law_only_sent_raw_frames_may_go(
    es: Seq<PayloadEntry>,
    fs: Seq<EntryFacts>,
    n: int,
    k: int,
)
    requires
        0 <= n <= es.len(),
        fs.len() == es.len(),
        0 <= k < linked_places(es, fs, n).len(),
    ensures
        0 <= linked_places(es, fs, n)[k] < n,
        es[linked_places(es, fs, n)[k]].kind == PayloadKind::RawFrame,
        fault(fs[linked_places(es, fs, n)[k]]) is None,
    decreases n,
{
    if n > 0 {
        let before = linked_places(es, fs, n - 1);
        if k < before.len() {
            law_only_sent_raw_frames_may_go(es, fs, n - 1, k);
            assert(linked_places(es, fs, n)[k] == before[k]);
        }
    }
}

/// A hash is kept only for a file that the catalog describes as it is on disk:
/// never for a calibrated light.
pub proof fn law_only_catalog_files_are_banked(
    es: Seq<PayloadEntry>,
    fs: Seq<EntryFacts>,
    n: int,
    k: int,
)
    requires
        0 <= n <= es.len(),
        fs.len() == es.len(),
        0 <= k < banked_places(es, fs, n).len(),
    ensures
        0 <= banked_places(es, fs, n)[k] < n,
        hash_is_kept(es[banked_places(es, fs, n)[k]], fs[banked_places(es, fs, n)[k]]),
    decreases n,
{
    if n > 0 {
        let before = banked_places(es, fs, n - 1);
        if k < before.len() {
            law_only_catalog_files_are_banked(es, fs, n - 1, k);
            assert(banked_places(es, fs, n)[k] == before[k]);
        }
    }
}

proof fn lemma_unknown_ids(asked: Seq<i64>, known: Seq<i64>, n: int, id: i64)
    requires
        0 <= n <= asked.len(),
        asked.take(n).contains(id),
        !known.contains(id),
    ensures
        unknown_ids(asked, known, n).contains(id),
    decreases n,
{
    let i = choose|i: int| 0 <= i < n && asked.take(n)[i] == id;
    let now = unknown_ids(asked, known, n);
    let before = unknown_ids(asked, known, n - 1);
    if i < n - 1 {
        assert(asked.take(n - 1)[i] == id);
        lemma_unknown_ids(asked, known, n - 1, id);
        let k = choose|k: int| 0 <= k < before.len() && before[k] == id;
        assert(now[k] == id);
    } else {
        assert(now[before.len() as int] == id);
    }
}

proof fn lemma_framed(rows: Seq<CatalogRow>, n: int, id: i64)
    requires
        0 <= n <= rows.len(),
        framed_ids(rows, n).contains(id),
    ensures
        exists|k: int|
            0 <= k < framed_places(rows, n).len() && rows[#[trigger] framed_places(
                rows,
                n,
            )[k]].frame_id == Some(id),
    decreases n,
{
    if n > 0 {
        let ids = framed_ids(rows, n);
        let now = framed_places(rows, n);
        let before = framed_places(rows, n - 1);
        let i = choose|i: int| 0 <= i < ids.len() && ids[i] == id;
        if rows[n - 1].frame_id == Some(id) {
            assert(now[before.len() as int] == n - 1);
        } else {
            assert(framed_ids(rows, n - 1)[i] == id);
            lemma_framed(rows, n - 1, id);
            let k = choose|k: int|
                0 <= k < before.len() && rows[#[trigger] framed_places(rows, n - 1)[k]].frame_id
                    == Some(id);
            assert(now[k] == before[k]);
        }
    }
}

/// Every frame that was asked for comes back: among those that are sent or
/// among those that cannot be. None is dropped in silence.
pub proof fn law_no_frame_is_dropped_in_silence(
    asked: Seq<i64>,
    rows: Seq<CatalogRow>,
    placements: Option<Map<i64, Seq<char>>>,
    input: SelectionInput,
    o: PackageOrigin,
    fs: Seq<EntryFacts>,
    naming: BatchNaming,
    r: BuiltSelection,
    id: i64,
)
    requires
        is_selection(input, asked, rows, placements),
        fs.len() == input.entries@.len(),
        is_built(r, o, input, fs, naming),
        asked.contains(id),
    ensures
        r.eligible@.contains(id) || exists|k: int|
            0 <= k < r.ineligible@.len() && (#[trigger] r.ineligible@[k]).frame_id == id,
{
    let n = rows.len() as int;
    let es = input.entries@;
    let known = framed_ids(rows, n);
    assert(asked.take(asked.len() as int) =~= asked);
    if !known.contains(id) {
        lemma_unknown_ids(asked, known, asked.len() as int, id);
        let ids = unknown_ids(asked, known, asked.len() as int);
        let k = choose|k: int| 0 <= k < ids.len() && ids[k] == id;
        assert(input.ineligible@[k].frame_id == id);
        assert(r.ineligible@[k] == input.ineligible@[k]);
    } else {
        lemma_framed(rows, n, id);
        let k = choose|k: int|
            0 <= k < framed_places(rows, n).len() && rows[#[trigger] framed_places(
                rows,
                n,
            )[k]].frame_id == Some(id);
        assert(es[k].frame_id == id);
        law_every_entry_is_sent_or_refused(fs, es.len() as int, k);
        if fault(fs[k]) is None {
            let at = sent_places(fs, es.len() as int);
            let m = choose|m: int| 0 <= m < at.len() && at[m] == k;
            assert(r.eligible@[m] == id);
        } else {
            let at = refused_places(fs, es.len() as int);
            let m = choose|m: int| 0 <= m < at.len() && at[m] == k;
            assert(r.ineligible@[input.ineligible@.len() + m].frame_id == id);
        }
    }
}

/// What the catalog or the frame's type calls a master is never marked as a
/// file that may go.
pub proof fn law_masters_never_go(
    rows: Seq<CatalogRow>,
    placements: Option<Map<i64, Seq<char>>>,
    asked: Seq<i64>,
    input: SelectionInput,
    fs: Seq<EntryFacts>,
    k: int,
)
    requires
        is_selection(input, asked, rows, placements),
        fs.len() == input.entries@.len(),
        0 <= k < linked_places(input.entries@, fs, input.entries@.len() as int).len(),
    ensures
        ({
            let i = linked_places(input.entries@, fs, input.entries@.len() as int)[k];
            let row = rows[framed_places(rows, rows.len() as int)[i]];
            !row.is_master && !row.type_is_master
        }),
{
    let es = input.entries@;
    law_only_sent_raw_frames_may_go(es, fs, es.len() as int, k);
    let i = linked_places(es, fs, es.len() as int)[k];
    assert(es[i].kind == PayloadKind::RawFrame);
}

} // verus!
