//! The disk space that transfers take, and what of it is given back.

use crate::api::sync::rows::{InboundRow, InboundState, OutboundState};
use crate::api::sync::summaries::{outbound_package_key, package_key};
use crate::paths::{join_paths, joined};
use crate::text::{holds_text, list_contains, list_holds, same_text, texts};
use vstd::prelude::*;
use vstd::string::*;

verus! {

/// The directory of the packages that are sent.
pub fn sender_packages_dir(sync_dir: &str) -> (r: String)
    ensures
        r@ == joined(sync_dir@, "packages"@),
{
    join_paths(sync_dir, "packages")
}

/// An entry that is met on the walk through a directory; its size and the time
/// of its last change, in nanoseconds since 1970, where they can be told.
#[derive(Debug, Clone, Copy)]
pub struct WalkedEntry {
    pub is_file: bool,
    pub size: Option<u64>,
    pub changed_at: Option<i128>,
}

/// What an entry adds to the size of its directory.
pub open spec fn file_size(e: WalkedEntry) -> nat {
    match (e.is_file, e.size) {
        (true, Some(n)) => n as nat,
        _ => 0,
    }
}

/// The size of the files among the first `n` entries.
pub open spec fn walked_size(walk: Seq<WalkedEntry>, n: int) -> nat
    decreases n,
{
    if n <= 0 {
        0
    } else {
        walked_size(walk, n - 1) + file_size(walk[n - 1])
    }
}

proof fn lemma_walked_size_grows(walk: Seq<WalkedEntry>, m: int, n: int)
    requires
        0 <= m <= n,
    ensures
        walked_size(walk, m) <= walked_size(walk, n),
    decreases n - m,
{
    if m < n {
        lemma_walked_size_grows(walk, m, n - 1);
    }
}

/// The size of a directory: that of the files in it, at any depth. What cannot
/// be read counts for nothing.
pub fn dir_size_bytes(walk: &Vec<WalkedEntry>) -> (r: u64)
    requires
        walked_size(walk@, walk@.len() as int) <= u64::MAX,
    ensures
        r == walked_size(walk@, walk@.len() as int),
{
    let mut total: u64 = 0;
    let mut i: usize = 0;
    while i < walk.len()
        invariant
            i <= walk@.len(),
            walked_size(walk@, walk@.len() as int) <= u64::MAX,
            total == walked_size(walk@, i as int),
        decreases walk@.len() - i,
    {
        proof {
            lemma_walked_size_grows(walk@, i + 1, walk@.len() as int);
        }
        if walk[i].is_file {
            match walk[i].size {
                Some(n) => {
                    total = total + n;
                },
                None => {},
            }
        }
        i = i + 1;
    }
    total
}

/// The last change among the first `n` entries.
pub open spec fn newest_change(walk: Seq<WalkedEntry>, n: int) -> Option<i128>
    decreases n,
{
    if n <= 0 {
        None
    } else {
        match (newest_change(walk, n - 1), walk[n - 1].changed_at) {
            (Some(a), Some(b)) => Some(if a >= b {
                a
            } else {
                b
            }),
            (Some(a), None) => Some(a),
            (None, b) => b,
        }
    }
}

/// How long ago a directory was last changed, in nanoseconds: a change to
/// anything in it counts. Unknown where nothing can be read, or where the last
/// change lies ahead.
pub open spec fn age(walk: Seq<WalkedEntry>, now: i128) -> Option<int> {
    match newest_change(walk, walk.len() as int) {
        Some(t) => if t <= now {
            Some(now - t)
        } else {
            None
        },
        None => None,
    }
}

/// How long a directory that no transfer names is left alone, in nanoseconds:
/// five minutes.
pub const ORPHAN_SWEEP_MIN_AGE: i128 = 300_000_000_000;

/// How old a directory is.
#[derive(Debug, Clone, Copy, PartialEq, Eq, Structural)]
pub enum DirAge {
    Unknown,
    /// Changed less than five minutes ago.
    Young,
    Old,
}

/// How old a directory is.
pub open spec fn age_class(walk: Seq<WalkedEntry>, now: i128) -> DirAge {
    match age(walk, now) {
        None => DirAge::Unknown,
        Some(a) => if a < ORPHAN_SWEEP_MIN_AGE {
            DirAge::Young
        } else {
            DirAge::Old
        },
    }
}

/// How old a directory is, by the walk through it.
pub fn dir_age(walk: &Vec<WalkedEntry>, now: i128) -> (r: DirAge)
    ensures
        r == age_class(walk@, now),
{
    let mut newest: Option<i128> = None;
    let mut i: usize = 0;
    while i < walk.len()
        invariant
            i <= walk@.len(),
            newest == newest_change(walk@, i as int),
        decreases walk@.len() - i,
    {
        match (newest, walk[i].changed_at) {
            (Some(a), Some(b)) => {
                if a < b {
                    newest = Some(b);
                }
            },
            (None, Some(b)) => {
                newest = Some(b);
            },
            _ => {},
        }
        i = i + 1;
    }
    match newest {
        None => DirAge::Unknown,
        Some(t) => {
            if t > now {
                DirAge::Unknown
            } else {
                match now.checked_sub(t) {
                    Some(age) => if age < ORPHAN_SWEEP_MIN_AGE {
                        DirAge::Young
                    } else {
                        DirAge::Old
                    },
                    None => DirAge::Old,
                }
            }
        },
    }
}

/// The package of a transfer that is sent, and how far it has come.
#[derive(Debug)]
pub struct RefState {
    pub package_ref: String,
    pub state: OutboundState,
}

/// The keys of the packages of the first `n` transfers.
pub open spec fn ref_keys(rows: Seq<RefState>, n: int) -> Seq<Seq<char>>
    decreases n,
{
    if n <= 0 {
        Seq::empty()
    } else {
        ref_keys(rows, n - 1).push(package_key(rows[n - 1].package_ref@))
    }
}

/// The keys of the packages that some transfer names.
pub fn referenced_package_keys(rows: &Vec<RefState>) -> (r: Vec<String>)
    ensures
        texts(r@) == ref_keys(rows@, rows@.len() as int),
{
    let mut out: Vec<String> = Vec::new();
    let mut i: usize = 0;
    assert(texts(out@) =~= Seq::<Seq<char>>::empty());
    while i < rows.len()
        invariant
            i <= rows@.len(),
            texts(out@) == ref_keys(rows@, i as int),
        decreases rows@.len() - i,
    {
        let ghost before = texts(out@);
        out.push(outbound_package_key(rows[i].package_ref.as_str()));
        assert(texts(out@) =~= before.push(package_key(rows@[i as int].package_ref@)));
        i = i + 1;
    }
    out
}

/// An entry of the directory of packages or of the directory of what arrives.
#[derive(Debug)]
pub struct DirFact {
    pub path: String,
    pub is_dir: bool,
    /// Its name, where it is text.
    pub name: Option<String>,
    pub age: DirAge,
}

/// Whether a directory belongs to nobody: no transfer names it, and it was not
/// touched for long enough that none is about to.
pub open spec fn is_orphan(d: DirFact, keys: Seq<String>) -> bool {
    d.is_dir && d.age == DirAge::Old && (d.name matches Some(n) && !holds_text(keys, n@))
}

/// The paths of those among the first `n` directories that belong to nobody.
pub open spec fn orphan_paths(dirs: Seq<DirFact>, keys: Seq<String>, n: int) -> Seq<Seq<char>>
    decreases n,
{
    if n <= 0 {
        Seq::empty()
    } else {
        let before = orphan_paths(dirs, keys, n - 1);
        if is_orphan(dirs[n - 1], keys) {
            before.push(dirs[n - 1].path@)
        } else {
            before
        }
    }
}

/// The directories of packages that go at the start: those that belong to
/// nobody.
pub fn sweep_orphan_payload_dirs(dirs: &Vec<DirFact>, keys: &Vec<String>) -> (r: Vec<String>)
    ensures
        texts(r@) == orphan_paths(dirs@, keys@, dirs@.len() as int),
{
    let mut out: Vec<String> = Vec::new();
    let mut i: usize = 0;
    assert(texts(out@) =~= Seq::<Seq<char>>::empty());
    while i < dirs.len()
        invariant
            i <= dirs@.len(),
            texts(out@) == orphan_paths(dirs@, keys@, i as int),
        decreases dirs@.len() - i,
    {
        let d = &dirs[i];
        let ghost before = texts(out@);
        let nameless_or_named = match &d.name {
            Some(n) => list_holds(keys, n.as_str()),
            None => true,
        };
        if d.is_dir && d.age == DirAge::Old && !nameless_or_named {
            out.push(d.path.clone());
            assert(texts(out@) =~= before.push(d.path@));
        }
        i = i + 1;
    }
    out
}

/// Whether a transfer that has not come to its end has the given directory.
pub open spec fn is_in_use(rows: Seq<RefState>, dir: Seq<char>) -> bool {
    exists|k: int|
        0 <= k < rows.len() && (#[trigger] rows[k]).package_ref@ == dir
            && !rows[k].state.terminal()
}

/// The directories of those among the first `n` transfers that have come to
/// their end and whose directory no other one uses, each once.
pub open spec fn finished_dirs(rows: Seq<RefState>, n: int) -> Seq<Seq<char>>
    decreases n,
{
    if n <= 0 {
        Seq::empty()
    } else {
        let before = finished_dirs(rows, n - 1);
        let dir = rows[n - 1].package_ref@;
        if rows[n - 1].state.terminal() && !is_in_use(rows, dir) && !before.contains(dir) {
            before.push(dir)
        } else {
            before
        }
    }
}

fn in_use(rows: &Vec<RefState>, dir: &str) -> (r: bool)
    ensures
        r == is_in_use(rows@, dir@),
{
    let mut k: usize = 0;
    while k < rows.len()
        invariant
            k <= rows@.len(),
            forall|j: int|
                0 <= j < k ==> !((#[trigger] rows@[j]).package_ref@ == dir@
                    && !rows@[j].state.terminal()),
        decreases rows@.len() - k,
    {
        if same_text(rows[k].package_ref.as_str(), dir) && !rows[k].state.is_terminal() {
            assert(rows@[k as int].package_ref@ == dir@);
            return true;
        }
        k = k + 1;
    }
    false
}

/// The directories of packages that go when the user cleans up: those of
/// transfers that have come to their end and share them with no other one.
pub fn remove_terminal_payload_dirs(rows: &Vec<RefState>) -> (r: Vec<String>)
    ensures
        texts(r@) == finished_dirs(rows@, rows@.len() as int),
{
    let mut out: Vec<String> = Vec::new();
    let mut i: usize = 0;
    assert(texts(out@) =~= Seq::<Seq<char>>::empty());
    while i < rows.len()
        invariant
            i <= rows@.len(),
            texts(out@) == finished_dirs(rows@, i as int),
        decreases rows@.len() - i,
    {
        let row = &rows[i];
        let ghost before = texts(out@);
        if row.state.is_terminal() && !in_use(rows, row.package_ref.as_str()) && !list_contains(
            &out,
            row.package_ref.as_str(),
        ) {
            out.push(row.package_ref.clone());
            assert(texts(out@) =~= before.push(row.package_ref@));
        }
        i = i + 1;
    }
    out
}

/// Whether a transfer that has not come to its end has the given id on the
/// wire.
pub open spec fn is_awaited(rows: Seq<InboundRow>, wire: Seq<char>) -> bool {
    exists|k: int|
        0 <= k < rows.len() && (#[trigger] rows[k]).package_id@ == wire
            && !rows[k].state.terminal()
}

/// Whether what has arrived in a directory belongs to no transfer that goes
/// on.
pub open spec fn is_left_over(d: DirFact, rows: Seq<InboundRow>) -> bool {
    d.is_dir && (d.name matches Some(n) && !is_awaited(rows, n@))
}

/// The paths of those among the first `n` directories whose transfer does not
/// go on.
pub open spec fn left_over_paths(dirs: Seq<DirFact>, rows: Seq<InboundRow>, n: int) -> Seq<
    Seq<char>,
>
    decreases n,
{
    if n <= 0 {
        Seq::empty()
    } else {
        let before = left_over_paths(dirs, rows, n - 1);
        if is_left_over(dirs[n - 1], rows) {
            before.push(dirs[n - 1].path@)
        } else {
            before
        }
    }
}

fn awaited(rows: &Vec<InboundRow>, wire: &str) -> (r: bool)
    ensures
        r == is_awaited(rows@, wire@),
{
    let mut k: usize = 0;
    while k < rows.len()
        invariant
            k <= rows@.len(),
            forall|j: int|
                0 <= j < k ==> !((#[trigger] rows@[j]).package_id@ == wire@
                    && !rows@[j].state.terminal()),
        decreases rows@.len() - k,
    {
        if same_text(rows[k].package_id.as_str(), wire) && !rows[k].state.is_terminal() {
            assert(rows@[k as int].package_id@ == wire@);
            return true;
        }
        k = k + 1;
    }
    false
}

/// The directories of what has arrived that go when the user cleans up: those
/// whose transfer does not go on.
pub fn remove_terminal_staging_dirs(dirs: &Vec<DirFact>, rows: &Vec<InboundRow>) -> (r: Vec<String>)
    ensures
        texts(r@) == left_over_paths(dirs@, rows@, dirs@.len() as int),
{
    let mut out: Vec<String> = Vec::new();
    let mut i: usize = 0;
    assert(texts(out@) =~= Seq::<Seq<char>>::empty());
    while i < dirs.len()
        invariant
            i <= dirs@.len(),
            texts(out@) == left_over_paths(dirs@, rows@, i as int),
        decreases dirs@.len() - i,
    {
        let d = &dirs[i];
        let ghost before = texts(out@);
        let kept = match &d.name {
            Some(n) => awaited(rows, n.as_str()),
            None => true,
        };
        if d.is_dir && !kept {
            out.push(d.path.clone());
            assert(texts(out@) =~= before.push(d.path@));
        }
        i = i + 1;
    }
    out
}

/// Whether a transfer is being fetched under the given id on the wire. One
/// that waits is not: what it has got so far can be fetched again.
pub open spec fn is_fetched(rows: Seq<InboundRow>, wire: Seq<char>) -> bool {
    exists|k: int|
        0 <= k < rows.len() && (#[trigger] rows[k]).package_id@ == wire
            && !rows[k].state.terminal() && rows[k].state != InboundState::Waiting
}

/// Those among the first `n` ids on the wire under which nothing is fetched.
pub open spec fn idle_tags(tags: Seq<String>, rows: Seq<InboundRow>, n: int) -> Seq<Seq<char>>
    decreases n,
{
    if n <= 0 {
        Seq::empty()
    } else {
        let before = idle_tags(tags, rows, n - 1);
        if is_fetched(rows, tags[n - 1]@) {
            before
        } else {
            before.push(tags[n - 1]@)
        }
    }
}

fn fetched(rows: &Vec<InboundRow>, wire: &str) -> (r: bool)
    ensures
        r == is_fetched(rows@, wire@),
{
    let mut k: usize = 0;
    while k < rows.len()
        invariant
            k <= rows@.len(),
            forall|j: int|
                0 <= j < k ==> !((#[trigger] rows@[j]).package_id@ == wire@
                    && !rows@[j].state.terminal() && rows@[j].state != InboundState::Waiting),
        decreases rows@.len() - k,
    {
        if same_text(rows[k].package_id.as_str(), wire) && !rows[k].state.is_terminal()
            && rows[k].state != InboundState::Waiting {
            assert(rows@[k as int].package_id@ == wire@);
            return true;
        }
        k = k + 1;
    }
    false
}

/// The ids on the wire whose partly fetched data is let go of: all but those
/// under which something is being fetched.
pub fn release_orphan_in_flight_tags(tags: &Vec<String>, rows: &Vec<InboundRow>) -> (r: Vec<String>)
    ensures
        texts(r@) == idle_tags(tags@, rows@, tags@.len() as int),
{
    let mut out: Vec<String> = Vec::new();
    let mut i: usize = 0;
    assert(texts(out@) =~= Seq::<Seq<char>>::empty());
    while i < tags.len()
        invariant
            i <= tags@.len(),
            texts(out@) == idle_tags(tags@, rows@, i as int),
        decreases tags@.len() - i,
    {
        let ghost before = texts(out@);
        if !fetched(rows, tags[i].as_str()) {
            out.push(tags[i].clone());
            assert(texts(out@) =~= before.push(tags@[i as int]@));
        }
        i = i + 1;
    }
    out
}

/// A directory that was to go: its size, and whether it went.
#[derive(Debug, Clone, Copy)]
pub struct Removal {
    pub size: u64,
    pub done: bool,
}

/// How many of the first `n` directories went.
pub open spec fn removed_count(rs: Seq<Removal>, n: int) -> nat
    decreases n,
{
    if n <= 0 {
        0
    } else {
        removed_count(rs, n - 1) + if rs[n - 1].done {
            1nat
        } else {
            0nat
        }
    }
}

/// The size of those of the first `n` directories that went.
pub open spec fn removed_size(rs: Seq<Removal>, n: int) -> nat
    decreases n,
{
    if n <= 0 {
        0
    } else {
        removed_size(rs, n - 1) + if rs[n - 1].done {
            rs[n - 1].size as nat
        } else {
            0nat
        }
    }
}

proof fn lemma_removed_grows(rs: Seq<Removal>, m: int, n: int)
    requires
        0 <= m <= n,
    ensures
        removed_size(rs, m) <= removed_size(rs, n),
        removed_count(rs, m) <= m,
    decreases n,
{
    if m < n {
        lemma_removed_grows(rs, m, n - 1);
    } else if n > 0 {
        lemma_removed_grows(rs, n - 1, n - 1);
    }
}

/// How many directories went, and what they took.
#[derive(Debug, Clone, Copy, PartialEq, Eq, Structural)]
pub struct Reclaimed {
    pub dirs: u32,
    pub bytes: u64,
}

/// How many directories went, and what they took.
pub fn reclaimed(rs: &Vec<Removal>) -> (r: Reclaimed)
    requires
        rs@.len() <= u32::MAX,
        removed_size(rs@, rs@.len() as int) <= u64::MAX,
    ensures
        r.dirs == removed_count(rs@, rs@.len() as int),
        r.bytes == removed_size(rs@, rs@.len() as int),
{
    let mut dirs: u32 = 0;
    let mut bytes: u64 = 0;
    let mut i: usize = 0;
    while i < rs.len()
        invariant
            i <= rs@.len(),
            rs.len() <= u32::MAX,
            removed_size(rs@, rs@.len() as int) <= u64::MAX,
            dirs == removed_count(rs@, i as int),
            dirs <= i,
            bytes == removed_size(rs@, i as int),
        decreases rs@.len() - i,
    {
        proof {
            lemma_removed_grows(rs@, i + 1, rs@.len() as int);
        }
        if rs[i].done {
            dirs = dirs + 1;
            bytes = bytes + rs[i].size;
        }
        i = i + 1;
    }
    Reclaimed { dirs, bytes }
}

/// What the sweep at the start gave back.
#[derive(Debug, Clone, Copy, PartialEq, Eq, Structural)]
pub struct OrphanSweep {
    pub payload_dirs: u32,
    pub bytes_reclaimed: u64,
    pub tags_released: u32,
}

/// What the sweep at the start gave back; a part of it that failed gave back
/// nothing. None where there is nothing to tell.
pub fn sweep_transfer_orphans(payload: Result<Reclaimed, String>, tags: Result<u32, String>) -> (r:
    Option<OrphanSweep>)
    ensures
        ({
            let p = match payload {
                Ok(p) => p,
                Err(_) => Reclaimed { dirs: 0, bytes: 0 },
            };
            let t = match tags {
                Ok(t) => t,
                Err(_) => 0,
            };
            r == if p.dirs > 0 || p.bytes > 0 || t > 0 {
                Some(
                    OrphanSweep {
                        payload_dirs: p.dirs,
                        bytes_reclaimed: p.bytes,
                        tags_released: t,
                    },
                )
            } else {
                None::<OrphanSweep>
            }
        }),
{
    let p = match payload {
        Ok(p) => p,
        Err(_) => Reclaimed { dirs: 0, bytes: 0 },
    };
    let t: u32 = match tags {
        Ok(t) => t,
        Err(_) => 0,
    };
    if p.dirs > 0 || p.bytes > 0 || t > 0 {
        Some(
            OrphanSweep { payload_dirs: p.dirs, bytes_reclaimed: p.bytes, tags_released: t },
        )
    } else {
        None
    }
}

/// An entry of the directory of packages, and the size of what is in it.
#[derive(Debug, Clone, Copy)]
pub struct SizedDir {
    pub is_dir: bool,
    pub size: u64,
}

/// The disk space that transfers take: that of the packages that are sent, how
/// many of them there are, that of the data store, and that of what has
/// arrived.
#[derive(Debug, Clone, Copy, PartialEq, Eq, Structural)]
pub struct TransferStorage {
    pub packages_bytes: u64,
    pub packages_count: u32,
    pub blobs_bytes: u64,
    pub staging_bytes: u64,
}

/// How many of the first `n` entries are directories.
pub open spec fn dirs_count(ds: Seq<SizedDir>, n: int) -> nat
    decreases n,
{
    if n <= 0 {
        0
    } else {
        dirs_count(ds, n - 1) + if ds[n - 1].is_dir {
            1nat
        } else {
            0nat
        }
    }
}

/// The size of the directories among the first `n` entries.
pub open spec fn dirs_size(ds: Seq<SizedDir>, n: int) -> nat
    decreases n,
{
    if n <= 0 {
        0
    } else {
        dirs_size(ds, n - 1) + if ds[n - 1].is_dir {
            ds[n - 1].size as nat
        } else {
            0nat
        }
    }
}

proof fn lemma_dirs_size_grows(ds: Seq<SizedDir>, m: int, n: int)
    requires
        0 <= m <= n,
    ensures
        dirs_size(ds, m) <= dirs_size(ds, n),
    decreases n - m,
{
    if m < n {
        lemma_dirs_size_grows(ds, m, n - 1);
    }
}

/// The disk space that transfers take.
pub fn get_transfer_storage(packages: &Vec<SizedDir>, blobs_bytes: u64, staging_bytes: u64) -> (r:
    TransferStorage)
    requires
        packages@.len() <= u32::MAX,
        dirs_size(packages@, packages@.len() as int) <= u64::MAX,
    ensures
        r.packages_bytes == dirs_size(packages@, packages@.len() as int),
        r.packages_count == dirs_count(packages@, packages@.len() as int),
        r.blobs_bytes == blobs_bytes,
        r.staging_bytes == staging_bytes,
{
    let mut packages_count: u32 = 0;
    let mut packages_bytes: u64 = 0;
    let mut i: usize = 0;
    while i < packages.len()
        invariant
            i <= packages@.len(),
            packages.len() <= u32::MAX,
            dirs_size(packages@, packages@.len() as int) <= u64::MAX,
            packages_count == dirs_count(packages@, i as int),
            packages_count <= i,
            packages_bytes == dirs_size(packages@, i as int),
        decreases packages@.len() - i,
    {
        proof {
            lemma_dirs_size_grows(packages@, i + 1, packages@.len() as int);
        }
        if packages[i].is_dir {
            packages_count = packages_count + 1;
            packages_bytes = packages_bytes + packages[i].size;
        }
        i = i + 1;
    }
    TransferStorage { packages_bytes, packages_count, blobs_bytes, staging_bytes }
}

/// What the user's cleaning up gave back.
#[derive(Debug, Clone, Copy, PartialEq, Eq, Structural)]
pub struct TransferCleanup {
    pub payload_dirs: u32,
    pub payload_bytes: u64,
    pub tags_released: u32,
    pub staging_dirs: u32,
    pub staging_bytes: u64,
}

/// What the user's cleaning up gave back, from what its three parts did.
pub fn cleanup_finished_transfers(payload: Reclaimed, staging: Reclaimed, tags_released: u32) -> (r:
    TransferCleanup)
    ensures
        r == (TransferCleanup {
            payload_dirs: payload.dirs,
            payload_bytes: payload.bytes,
            tags_released,
            staging_dirs: staging.dirs,
            staging_bytes: staging.bytes,
        }),
{
    TransferCleanup {
        payload_dirs: payload.dirs,
        payload_bytes: payload.bytes,
        tags_released,
        staging_dirs: staging.dirs,
        staging_bytes: staging.bytes,
    }
}

/// An entry of the directory of a package, at any depth: its path below the
/// directory, with slashes, and whether it is a file, where that can be told.
#[derive(Debug)]
pub struct PackageEntry {
    pub rel_path: String,
    pub is_file: Option<bool>,
}

/// Whether an entry is the manifest: the file of that name directly in the
/// directory.
pub open spec fn is_manifest(e: PackageEntry, manifest_name: Seq<char>) -> bool {
    e.is_file == Some(true) && e.rel_path@ == manifest_name
}

/// Whether an entry is a file of the payload: any file but the manifest.
pub open spec fn is_payload(e: PackageEntry, manifest_name: Seq<char>) -> bool {
    e.is_file == Some(true) && e.rel_path@ != manifest_name
}

/// Whether the manifest of a package is there, and a file of its payload.
pub open spec fn is_whole_package(es: Seq<PackageEntry>, manifest_name: Seq<char>) -> bool {
    &&& exists|k: int| 0 <= k < es.len() && is_manifest(#[trigger] es[k], manifest_name)
    &&& exists|k: int| 0 <= k < es.len() && is_payload(#[trigger] es[k], manifest_name)
}

/// Whether a package can be sent again: its manifest is there, and a file
/// besides it, in whatever directory of the package. A package that has arrived
/// is left with its manifest alone.
pub fn package_has_payload(entries: &Option<Vec<PackageEntry>>, manifest_name: &str) -> (r: bool)
    ensures
        r == match *entries {
            Some(es) => is_whole_package(es@, manifest_name@),
            None => false,
        },
{
    let es = match entries {
        Some(es) => es,
        None => {
            return false;
        },
    };
    let mut manifest = false;
    let mut payload = false;
    let mut i: usize = 0;
    while i < es.len()
        invariant
            i <= es@.len(),
            manifest == exists|k: int|
                0 <= k < i && is_manifest(#[trigger] es@[k], manifest_name@),
            payload == exists|k: int| 0 <= k < i && is_payload(#[trigger] es@[k], manifest_name@),
        decreases es@.len() - i,
    {
        match es[i].is_file {
            Some(true) => {
                if same_text(es[i].rel_path.as_str(), manifest_name) {
                    manifest = true;
                    assert(is_manifest(es@[i as int], manifest_name@));
                } else {
                    payload = true;
                    assert(is_payload(es@[i as int], manifest_name@));
                }
            },
            _ => {},
        }
        i = i + 1;
    }
    manifest && payload
}

proof fn lemma_orphan_paths(dirs: Seq<DirFact>, keys: Seq<String>, n: int, path: Seq<char>)
    requires
        0 <= n <= dirs.len(),
        orphan_paths(dirs, keys, n).contains(path),
    ensures
        exists|k: int| 0 <= k < n && (#[trigger] dirs[k]).path@ == path && is_orphan(dirs[k], keys),
    decreases n,
{
    let now = orphan_paths(dirs, keys, n);
    let i = choose|i: int| 0 <= i < now.len() && now[i] == path;
    if n > 0 {
        let before = orphan_paths(dirs, keys, n - 1);
        if i < before.len() {
            assert(before[i] == path);
            lemma_orphan_paths(dirs, keys, n - 1, path);
            let k = choose|k: int|
                0 <= k < n - 1 && (#[trigger] dirs[k]).path@ == path && is_orphan(dirs[k], keys);
            assert(dirs[k].path@ == path);
        } else {
            assert(dirs[n - 1].path@ == path);
        }
    }
}

proof fn lemma_ref_keys(rows: Seq<RefState>, n: int)
    requires
        0 <= n <= rows.len(),
    ensures
        ref_keys(rows, n).len() == n,
        forall|k: int|
            0 <= k < n ==> #[trigger] ref_keys(rows, n)[k] == package_key(rows[k].package_ref@),
    decreases n,
{
    if n > 0 {
        lemma_ref_keys(rows, n - 1);
    }
}

/// The sweep at the start takes only directories that no transfer names and
/// that were not changed for five minutes: neither the files of a transfer,
/// ended or not, nor those of one that is just being put together.
pub proof fn law_sweep_takes_only_orphans(
    dirs: Seq<DirFact>,
    rows: Seq<RefState>,
    keys: Seq<String>,
    path: Seq<char>,
)
    requires
        texts(keys) == ref_keys(rows, rows.len() as int),
        orphan_paths(dirs, keys, dirs.len() as int).contains(path),
    ensures
        exists|k: int|
            0 <= k < dirs.len() && (#[trigger] dirs[k]).path@ == path && dirs[k].is_dir
                && dirs[k].age == DirAge::Old && dirs[k].name is Some && forall|j: int|
                0 <= j < rows.len() ==> package_key((#[trigger] rows[j]).package_ref@)
                    != dirs[k].name->Some_0@,
{
    let n = rows.len() as int;
    lemma_orphan_paths(dirs, keys, dirs.len() as int, path);
    let k = choose|k: int|
        0 <= k < dirs.len() && (#[trigger] dirs[k]).path@ == path && is_orphan(dirs[k], keys);
    lemma_ref_keys(rows, n);
    assert forall|j: int| 0 <= j < rows.len() implies package_key((#[trigger] rows[j]).package_ref@)
        != dirs[k].name->Some_0@ by {
        assert(ref_keys(rows, n)[j] == package_key(rows[j].package_ref@));
        assert(texts(keys)[j] == keys[j]@);
    }
}

proof fn lemma_finished_dirs(rows: Seq<RefState>, n: int, dir: Seq<char>)
    requires
        0 <= n <= rows.len(),
    ensures
        finished_dirs(rows, n).contains(dir) == (!is_in_use(rows, dir) && exists|k: int|
            0 <= k < n && (#[trigger] rows[k]).package_ref@ == dir),
    decreases n,
{
    if n > 0 {
        lemma_finished_dirs(rows, n - 1, dir);
        let before = finished_dirs(rows, n - 1);
        let now = finished_dirs(rows, n);
        if before.contains(dir) {
            let i = choose|i: int| 0 <= i < before.len() && before[i] == dir;
            assert(now[i] == dir);
            let k = choose|k: int| 0 <= k < n - 1 && (#[trigger] rows[k]).package_ref@ == dir;
            assert(rows[k].package_ref@ == dir);
        }
        if now.contains(dir) && !before.contains(dir) {
            let i = choose|i: int| 0 <= i < now.len() && now[i] == dir;
            if i < before.len() {
                assert(before[i] == dir);
            }
            assert(rows[n - 1].package_ref@ == dir);
        }
        if !is_in_use(rows, dir) && rows[n - 1].package_ref@ == dir {
            assert(rows[n - 1].state.terminal());
            if !before.contains(dir) {
                assert(now[before.len() as int] == dir);
            }
        }
    }
}

/// Cleaning up takes a directory exactly where some transfer has it and every
/// transfer that has it has come to its end: the files of one that goes on
/// stay.
pub proof fn law_cleanup_takes_only_finished_payloads(rows: Seq<RefState>, dir: Seq<char>)
    ensures
        finished_dirs(rows, rows.len() as int).contains(dir) == {
            &&& exists|k: int| 0 <= k < rows.len() && (#[trigger] rows[k]).package_ref@ == dir
            &&& forall|k: int|
                0 <= k < rows.len() && (#[trigger] rows[k]).package_ref@ == dir
                    ==> rows[k].state.terminal()
        },
{
    lemma_finished_dirs(rows, rows.len() as int, dir);
}

/// A transfer that waits keeps what has arrived, for it goes on from there.
/// Its partly fetched data is let go of, unless another one is fetched under
/// the same id.
pub proof fn law_a_waiting_transfer_keeps_its_files(rows: Seq<InboundRow>, k: int, d: DirFact)
    requires
        0 <= k < rows.len(),
        rows[k].state == InboundState::Waiting,
        d.name matches Some(n) && n@ == rows[k].package_id@,
    ensures
        !is_left_over(d, rows),
        is_fetched(rows, rows[k].package_id@) == exists|j: int|
            0 <= j < rows.len() && j != k && (#[trigger] rows[j]).package_id@
                == rows[k].package_id@ && !rows[j].state.terminal() && rows[j].state
                != InboundState::Waiting,
{
    assert(is_awaited(rows, rows[k].package_id@));
    if is_fetched(rows, rows[k].package_id@) {
        let j = choose|j: int|
            0 <= j < rows.len() && (#[trigger] rows[j]).package_id@ == rows[k].package_id@
                && !rows[j].state.terminal() && rows[j].state != InboundState::Waiting;
        assert(j != k);
        assert(rows[j].package_id@ == rows[k].package_id@);
    }
}

} // verus!
