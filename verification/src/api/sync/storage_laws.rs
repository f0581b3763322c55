//! What of the disk space is given back, and what is kept.

use crate::api::sync::rows::{InboundRow, InboundState};
use crate::api::sync::status_laws::{has_ended, is_over};
use crate::api::sync::storage::{
    cleanup_finished_transfers, dir_age, dir_size_bytes, dirs_count, dirs_size,
    get_transfer_storage, idle_tags, is_awaited, is_fetched, is_left_over, is_manifest, is_orphan,
    is_payload, is_whole_package, law_cleanup_takes_only_finished_payloads, left_over_paths,
    newest_change, orphan_paths, package_has_payload, reclaimed, ref_keys, referenced_package_keys,
    release_orphan_in_flight_tags, remove_terminal_payload_dirs, remove_terminal_staging_dirs,
    removed_count, removed_size, sweep_orphan_payload_dirs, sweep_transfer_orphans, walked_size,
    DirAge, DirFact, OrphanSweep, PackageEntry, Reclaimed, RefState, Removal, SizedDir,
    TransferCleanup, TransferStorage, WalkedEntry,
};
use crate::api::sync::summaries::package_key;
use crate::paths::file_name;
use crate::text::{holds_text, texts};
use vstd::prelude::*;

verus! {

proof fn lemma_newest(walk: Seq<WalkedEntry>, n: int)
    requires
        0 <= n <= walk.len(),
    ensures
        match newest_change(walk, n) {
            Some(t) => {
                &&& exists|k: int| 0 <= k < n && (#[trigger] walk[k]).changed_at == Some(t)
                &&& forall|k: int|
                    0 <= k < n ==> ((#[trigger] walk[k]).changed_at matches Some(u) ==> u <= t)
            },
            None => forall|k: int| 0 <= k < n ==> (#[trigger] walk[k]).changed_at is None,
        },
    decreases n,
{
    if n > 0 {
        lemma_newest(walk, n - 1);
        if newest_change(walk, n) is Some {
            let t = newest_change(walk, n)->0;
            if newest_change(walk, n - 1) == Some(t) {
                let k = choose|k: int| 0 <= k < n - 1 && (#[trigger] walk[k]).changed_at == Some(t);
                assert(walk[k].changed_at == Some(t));
            } else {
                assert(walk[n - 1].changed_at == Some(t));
            }
        }
    }
}

/// A directory counts as old just where the time of some change in it is known and
/// every such time lies at least five minutes back; where none is known, or one lies
/// ahead, nothing is said of its age.
pub proof fn law_only_an_untouched_directory_is_old(
    walked: Vec<WalkedEntry>,
    now: i128,
    age: DirAge,
)
    requires
        call_ensures(dir_age, (&walked, now), age),
    ensures
        ({
            let known = exists|k: int|
                0 <= k < walked@.len() && (#[trigger] walked@[k]).changed_at is Some;
            let ahead = exists|k: int|
                0 <= k < walked@.len() && ((#[trigger] walked@[k]).changed_at matches Some(t) && t > now);
            let recent = exists|k: int|
                0 <= k < walked@.len() && ((#[trigger] walked@[k]).changed_at matches Some(t) && now - t
                    < 5 * 60 * 1_000_000_000);
            &&& age == DirAge::Unknown <==> !known || ahead
            &&& age == DirAge::Young <==> known && !ahead && recent
            &&& age == DirAge::Old <==> known && !recent
        }),
{
    let walk = walked@;
    lemma_newest(walk, walk.len() as int);
    if newest_change(walk, walk.len() as int) is Some {
        let t = newest_change(walk, walk.len() as int)->0;
        let k = choose|k: int| 0 <= k < walk.len() && (#[trigger] walk[k]).changed_at == Some(t);
        assert(walk[k].changed_at == Some(t));
    }
}

/// A directory is as large as the files in it, as far as their sizes are known:
/// another entry adds its size where it is a file, and nothing otherwise.
pub proof fn law_only_files_take_space(
    walk: Vec<WalkedEntry>,
    longer: Vec<WalkedEntry>,
    e: WalkedEntry,
    size: u64,
    more: u64,
)
    requires
        call_ensures(dir_size_bytes, (&walk,), size),
        call_ensures(dir_size_bytes, (&longer,), more),
        longer@ == walk@.push(e),
    ensures
        more == size
            + if e.is_file && e.size is Some {
            e.size->0 as nat
        } else {
            0
        },
        walk@.len() == 0 ==> size == 0,

{
    lemma_walked_prefix(walk@, e, walk@.len() as int);
}

proof fn lemma_walked_prefix(walk: Seq<WalkedEntry>, e: WalkedEntry, n: int)
    requires
        0 <= n <= walk.len(),
    ensures
        walked_size(walk.push(e), n) == walked_size(walk, n),
    decreases n,
{
    if n > 0 {
        lemma_walked_prefix(walk, e, n - 1);
    }
}

/// What is told of a removal counts what went, and nothing else.
pub proof fn law_only_what_went_is_counted(
    rs: Vec<Removal>,
    longer: Vec<Removal>,
    x: Removal,
    r: Reclaimed,
    more: Reclaimed,
)
    requires
        call_ensures(reclaimed, (&rs,), r),
        call_ensures(reclaimed, (&longer,), more),
        longer@ == rs@.push(x),
    ensures
        more.dirs == r.dirs
            + if x.done {
            1nat
        } else {
            0nat
        },
        more.bytes == r.bytes
            + if x.done {
            x.size as nat
        } else {
            0nat
        },
{
    lemma_removed_prefix(rs@, x, rs@.len() as int);
}

proof fn lemma_removed_prefix(rs: Seq<Removal>, x: Removal, n: int)
    requires
        0 <= n <= rs.len(),
    ensures
        removed_count(rs.push(x), n) == removed_count(rs, n),
        removed_size(rs.push(x), n) == removed_size(rs, n),
    decreases n,
{
    if n > 0 {
        lemma_removed_prefix(rs, x, n - 1);
    }
}

/// Only directories count as packages, each with its size.
pub proof fn law_only_directories_are_packages(
    ds: Vec<SizedDir>,
    longer: Vec<SizedDir>,
    x: SizedDir,
    blobs: u64,
    staging: u64,
    r: TransferStorage,
    more: TransferStorage,
)
    requires
        call_ensures(get_transfer_storage, (&ds, blobs, staging), r),
        call_ensures(get_transfer_storage, (&longer, blobs, staging), more),
        longer@ == ds@.push(x),
    ensures
        r.blobs_bytes == blobs,
        r.staging_bytes == staging,
        ds@.len() == 0 ==> r.packages_count == 0 && r.packages_bytes == 0,
        more.packages_count == r.packages_count
            + if x.is_dir {
            1nat
        } else {
            0nat
        },
        more.packages_bytes == r.packages_bytes + if x.is_dir {
            x.size as nat
        } else {
            0nat
        },
{
    lemma_dirs_prefix(ds@, x, ds@.len() as int);
}

proof fn lemma_dirs_prefix(ds: Seq<SizedDir>, x: SizedDir, n: int)
    requires
        0 <= n <= ds.len(),
    ensures
        dirs_count(ds.push(x), n) == dirs_count(ds, n),
        dirs_size(ds.push(x), n) == dirs_size(ds, n),
    decreases n,
{
    if n > 0 {
        lemma_dirs_prefix(ds, x, n - 1);
    }
}

/// Whether a path is that of a directory which no transfer names and which was not
/// touched lately.
pub open spec fn is_abandoned(
    dirs: Seq<DirFact>,
    keys: Seq<String>,
    n: int,
    path: Seq<char>,
) -> bool {
    exists|k: int|
        0 <= k < n && (#[trigger] dirs[k]).path@ == path && dirs[k].is_dir && dirs[k].age
            == DirAge::Old && (dirs[k].name matches Some(name) && !holds_text(keys, name@))
}

proof fn lemma_sweep(
    dirs: Seq<DirFact>,
    keys: Seq<String>,
    n: int,
    path: Seq<char>,
)
    requires
        0 <= n <= dirs.len(),
    ensures
        orphan_paths(dirs, keys, n).contains(path) <==> is_abandoned(dirs, keys, n, path),
    decreases n,
{
    if n > 0 {
        lemma_sweep(dirs, keys, n - 1, path);
        let before = orphan_paths(dirs, keys, n - 1);
        let now = orphan_paths(dirs, keys, n);
        lemma_added(before, now, dirs[n - 1].path@, path, is_orphan(dirs[n - 1], keys));
        if is_abandoned(dirs, keys, n - 1, path) {
            let k = choose|k: int|
                0 <= k < n - 1 && (#[trigger] dirs[k]).path@ == path && dirs[k].is_dir
                    && dirs[k].age == DirAge::Old && (dirs[k].name matches Some(name)
                    && !holds_text(keys, name@));
            assert(dirs[k].path@ == path);
        }
    }
}

/// The sweep at the start takes just the directories that no transfer names and that
/// were not touched lately.
pub proof fn law_sweep_takes_every_orphan(
    dirs: Vec<DirFact>,
    keys: Vec<String>,
    r: Vec<String>,
    path: Seq<char>,
)
    requires
        call_ensures(sweep_orphan_payload_dirs, (&dirs, &keys), r),
    ensures
        texts(r@).contains(path) <==> is_abandoned(dirs@, keys@, dirs@.len() as int, path),
{
    lemma_sweep(dirs@, keys@, dirs@.len() as int, path);
}

/// A directory that some transfer names is one whose name is that of the transfer's
/// package.
pub proof fn law_named_packages_are_known(rows: Vec<RefState>, r: Vec<String>, name: Seq<char>)
    requires
        call_ensures(referenced_package_keys, (&rows,), r),
    ensures
        texts(r@).contains(name) <==> exists|k: int|
            0 <= k < rows@.len() && match file_name((#[trigger] rows@[k]).package_ref@) {
                Some(n) => n == name,
                None => rows@[k].package_ref@ == name,
            },
{
    lemma_named(rows@, rows@.len() as int, name);
}

proof fn lemma_named(rows: Seq<RefState>, n: int, name: Seq<char>)
    requires
        0 <= n <= rows.len(),
    ensures
        ref_keys(rows, n).contains(name) <==> exists|k: int|
            0 <= k < n && match file_name((#[trigger] rows[k]).package_ref@) {
                Some(x) => x == name,
                None => rows[k].package_ref@ == name,
            },
    decreases n,
{
    if n > 0 {
        lemma_named(rows, n - 1, name);
        lemma_added(
            ref_keys(rows, n - 1),
            ref_keys(rows, n),
            package_key(rows[n - 1].package_ref@),
            name,
            true,
        );
        if ref_keys(rows, n - 1).contains(name) {
            let k = choose|k: int|
                0 <= k < n - 1 && match file_name((#[trigger] rows[k]).package_ref@) {
                    Some(x) => x == name,
                    None => rows[k].package_ref@ == name,
                };
            assert(rows[k].package_ref@ == rows[k].package_ref@);
        }
    }
}

/// Cleaning up takes the directory of a package just where some transfer has it and
/// every transfer that has it has come to its end.
pub proof fn law_cleanup_spares_packages_in_use(rows: Vec<RefState>, r: Vec<String>, dir: Seq<char>)
    requires
        call_ensures(remove_terminal_payload_dirs, (&rows,), r),
    ensures
        texts(r@).contains(dir) <==> {
            &&& exists|k: int| 0 <= k < rows@.len() && (#[trigger] rows@[k]).package_ref@ == dir
            &&& forall|k: int|
                0 <= k < rows@.len() && (#[trigger] rows@[k]).package_ref@ == dir ==> has_ended(
                    rows@[k].state,
                )
        },
{
    law_cleanup_takes_only_finished_payloads(rows@, dir);
}

proof fn lemma_added<T>(before: Seq<T>, now: Seq<T>, x: T, y: T, added: bool)
    requires
        added ==> now == before.push(x),
        !added ==> now == before,
    ensures
        now.contains(y) <==> before.contains(y) || (added && x == y),
{
    if before.contains(y) {
        let k = choose|k: int| 0 <= k < before.len() && before[k] == y;
        assert(now[k] == y);
    }
    if added {
        assert(now[before.len() as int] == x);
    }
    if now.contains(y) {
        let k = choose|k: int| 0 <= k < now.len() && now[k] == y;
        if k < before.len() {
            assert(before[k] == y);
        }
    }
}

/// Whether some transfer that goes on has the id on the wire.
pub open spec fn goes_on(rows: Seq<InboundRow>, wire: Seq<char>) -> bool {
    exists|k: int|
        0 <= k < rows.len() && (#[trigger] rows[k]).package_id@ == wire && !is_over(rows[k].state)
}

/// Whether a path is that of a directory of what has arrived whose transfer does not
/// go on.
pub open spec fn is_stale(
    dirs: Seq<DirFact>,
    rows: Seq<InboundRow>,
    n: int,
    path: Seq<char>,
) -> bool {
    exists|k: int|
        0 <= k < n && (#[trigger] dirs[k]).path@ == path && dirs[k].is_dir && (
        dirs[k].name matches Some(name) && !goes_on(rows, name@))
}

proof fn lemma_stale(
    dirs: Seq<DirFact>,
    rows: Seq<InboundRow>,
    n: int,
    path: Seq<char>,
)
    requires
        0 <= n <= dirs.len(),
    ensures
        left_over_paths(dirs, rows, n).contains(path) <==> is_stale(dirs, rows, n, path),
    decreases n,
{
    if n > 0 {
        lemma_stale(dirs, rows, n - 1, path);
        let d = dirs[n - 1];
        lemma_added(
            left_over_paths(dirs, rows, n - 1),
            left_over_paths(dirs, rows, n),
            d.path@,
            path,
            is_left_over(d, rows),
        );
        if d.name is Some {
            lemma_goes_on(rows, d.name->0@);
        }
        if is_stale(dirs, rows, n - 1, path) {
            let k = choose|k: int|
                0 <= k < n - 1 && (#[trigger] dirs[k]).path@ == path && dirs[k].is_dir && (
                dirs[k].name matches Some(name) && !goes_on(rows, name@));
            assert(dirs[k].path@ == path);
        }
    }
}

/// Cleaning up takes of what has arrived just the directories whose transfer does not
/// go on.
pub proof fn law_cleanup_takes_only_stale_arrivals(
    dirs: Vec<DirFact>,
    rows: Vec<InboundRow>,
    r: Vec<String>,
    path: Seq<char>,
)
    requires
        call_ensures(remove_terminal_staging_dirs, (&dirs, &rows), r),
    ensures
        texts(r@).contains(path) <==> is_stale(dirs@, rows@, dirs@.len() as int, path),
{
    lemma_stale(dirs@, rows@, dirs@.len() as int, path);
}

proof fn lemma_goes_on(rows: Seq<InboundRow>, wire: Seq<char>)
    ensures
        goes_on(rows, wire) <==> is_awaited(rows, wire),
{
    if goes_on(rows, wire) {
        let k = choose|k: int|
            0 <= k < rows.len() && (#[trigger] rows[k]).package_id@ == wire && !is_over(
                rows[k].state,
            );
        assert(rows[k].package_id@ == wire);
    }
    if is_awaited(rows, wire) {
        let k = choose|k: int|
            0 <= k < rows.len() && (#[trigger] rows[k]).package_id@ == wire
                && !rows[k].state.terminal();
        assert(rows[k].package_id@ == wire);
    }
}

/// Whether something is fetched under the id on the wire at this moment.
pub open spec fn is_under_way(rows: Seq<InboundRow>, wire: Seq<char>) -> bool {
    exists|k: int|
        0 <= k < rows.len() && (#[trigger] rows[k]).package_id@ == wire && (rows[k].state
            == InboundState::Announced || rows[k].state == InboundState::Fetching || rows[k].state
            == InboundState::Ingesting)
}

proof fn lemma_idle(
    tags: Seq<String>,
    rows: Seq<InboundRow>,
    n: int,
    wire: Seq<char>,
)
    requires
        0 <= n <= tags.len(),
    ensures
        idle_tags(tags, rows, n).contains(wire) <==> !is_under_way(rows, wire) && exists|k: int|
            0 <= k < n && (#[trigger] tags[k])@ == wire,
    decreases n,
{
    lemma_under_way(rows, wire);
    if n > 0 {
        lemma_idle(tags, rows, n - 1, wire);
        lemma_under_way(rows, tags[n - 1]@);
        lemma_added(
            idle_tags(tags, rows, n - 1),
            idle_tags(tags, rows, n),
            tags[n - 1]@,
            wire,
            !is_fetched(rows, tags[n - 1]@),
        );
        if exists|k: int| 0 <= k < n - 1 && (#[trigger] tags[k])@ == wire {
            let k = choose|k: int| 0 <= k < n - 1 && (#[trigger] tags[k])@ == wire;
            assert(tags[k]@ == wire);
        }
    }
}

/// Of the partly fetched data just that is let go of under whose id nothing is being
/// fetched.
pub proof fn law_only_idle_data_is_let_go(
    tags: Vec<String>,
    rows: Vec<InboundRow>,
    r: Vec<String>,
    wire: Seq<char>,
)
    requires
        call_ensures(release_orphan_in_flight_tags, (&tags, &rows), r),
    ensures
        texts(r@).contains(wire) <==> !is_under_way(rows@, wire) && exists|k: int|
            0 <= k < tags@.len() && (#[trigger] tags@[k])@ == wire,
{
    lemma_idle(tags@, rows@, tags@.len() as int, wire);
}

proof fn lemma_under_way(rows: Seq<InboundRow>, wire: Seq<char>)
    ensures
        is_under_way(rows, wire) <==> is_fetched(rows, wire),
{
    if is_under_way(rows, wire) {
        let k = choose|k: int|
            0 <= k < rows.len() && (#[trigger] rows[k]).package_id@ == wire && (rows[k].state
                == InboundState::Announced || rows[k].state == InboundState::Fetching
                || rows[k].state == InboundState::Ingesting);
        assert(rows[k].package_id@ == wire);
    }
    if is_fetched(rows, wire) {
        let k = choose|k: int|
            0 <= k < rows.len() && (#[trigger] rows[k]).package_id@ == wire
                && !rows[k].state.terminal() && rows[k].state != InboundState::Waiting;
        assert(rows[k].package_id@ == wire);
    }
}

/// A package can be sent again just where its manifest is a file of it and so is
/// something else; directories, and what cannot be told to be a file, do not count.
pub proof fn law_a_bare_manifest_is_no_package(
    entries: Option<Vec<PackageEntry>>,
    manifest_name: &str,
    r: bool,
)
    requires
        call_ensures(package_has_payload, (&entries, manifest_name), r),
    ensures
        r <==> {
            &&& entries is Some
            &&& exists|k: int|
                0 <= k < entries->0@.len() && (#[trigger] entries->0@[k]).rel_path@ == manifest_name@ && entries->0@[k].is_file
                    == Some(true)
            &&& exists|k: int|
                0 <= k < entries->0@.len() && (#[trigger] entries->0@[k]).rel_path@ != manifest_name@ && entries->0@[k].is_file
                    == Some(true)
        },
{
    if entries is Some {
        lemma_whole_package(entries->0@, manifest_name@);
    }
}

proof fn lemma_whole_package(es: Seq<PackageEntry>, manifest_name: Seq<char>)
    ensures
        is_whole_package(es, manifest_name) <==> {
            &&& exists|k: int|
                0 <= k < es.len() && (#[trigger] es[k]).rel_path@ == manifest_name && es[k].is_file
                    == Some(true)
            &&& exists|k: int|
                0 <= k < es.len() && (#[trigger] es[k]).rel_path@ != manifest_name && es[k].is_file
                    == Some(true)
        },
{
    if is_whole_package(es, manifest_name) {
        let a = choose|k: int|
            0 <= k < es.len() && is_manifest(
                #[trigger] es[k],
                manifest_name,
            );
        let b = choose|k: int|
            0 <= k < es.len() && is_payload(
                #[trigger] es[k],
                manifest_name,
            );
        assert(es[a].rel_path@ == manifest_name && es[b].rel_path@ != manifest_name);
    }
}

/// What is told of a sweep or of a cleaning up is what its parts gave back, each under
/// its own name; a part of a sweep that failed gave back nothing, and of a sweep that
/// gave back nothing at all nothing is told.
pub proof fn law_what_was_given_back_is_told(
    payload: Result<Reclaimed, String>,
    tags: Result<u32, String>,
    r: Option<OrphanSweep>,
    packages: Reclaimed,
    arrivals: Reclaimed,
    released: u32,
    c: TransferCleanup,
)
    requires
        call_ensures(sweep_transfer_orphans, (payload, tags), r),
        call_ensures(cleanup_finished_transfers, (packages, arrivals, released), c),
    ensures
        r matches Some(x) ==> {
            &&& payload matches Ok(p) ==> x.payload_dirs == p.dirs && x.bytes_reclaimed == p.bytes
            &&& payload is Err ==> x.payload_dirs == 0 && x.bytes_reclaimed == 0
            &&& tags matches Ok(t) ==> x.tags_released == t
            &&& tags is Err ==> x.tags_released == 0
        },
        r is None <==> (payload matches Ok(p) ==> p.dirs == 0 && p.bytes == 0) && (
        tags matches Ok(t) ==> t == 0),
        c.payload_dirs == packages.dirs,
        c.payload_bytes == packages.bytes,
        c.staging_dirs == arrivals.dirs,
        c.staging_bytes == arrivals.bytes,
        c.tags_released == released,
{
}

} // verus!
