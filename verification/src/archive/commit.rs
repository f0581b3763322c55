//! Committing a plan: names of zips that are free, and the rows that go on
//! record.

use crate::archive::layout_laws::{
    has_separator, law_calibration_zip_name_is_one_component, law_zip_name_is_one_component,
    lemma_calibration_dir, lemma_decimal_injective,
};
use crate::archive::models::{
    ArchiveDisposition, ArchiveOperationFile, ArchivePlan, ConflictResolution, FrameRole,
    PlannedZip,
};
use crate::archive::path_layout::{
    add_suffix, last_dot, stem_and_extension, with_suffix,
};
use crate::archive::plan_error::{PlanError, PlanFailure};
use crate::archive::planner::{
    field, field_or_empty, role_zip_name, role_zip_path, CalibrationSetRequest, FrameSetMetadata,
};
use crate::host_paths::{
    body, has_drive, host_file_name, host_file_name_of, host_joined, host_parent, host_parent_of,
    is_bare_server, law_host_joined_name_is_last, lemma_host_name, lemma_joined_opened,
    names_bare_server, opened, slash_form, Host,
};
use crate::paths::{is_entry_name, joined, law_joined_name_is_last};
use crate::text::{decimal, digit_char, holds_text, list_holds, same_text, texts, CharClass};
use vstd::prelude::*;

verus! {

/// A new operation as it goes on record.
#[derive(Debug)]
pub struct NewOperation {
    pub frames_set_id: Option<i64>,
    pub calibration_set_id: Option<i64>,
    pub archive_root_path: String,
    pub flats_disposition: Option<String>,
    pub darks_disposition: Option<String>,
    pub bias_disposition: Option<String>,
    pub darkflats_disposition: Option<String>,
    pub compression: String,
}

/// A plan ready to go on record: the operation, its files and its zips.
#[derive(Debug)]
pub struct CommittedPlan {
    pub operation: NewOperation,
    pub files: Vec<ArchiveOperationFile>,
    pub zips: Vec<PlannedZip>,
}

/// Whether `r` is the first free one of a path and the same path with the
/// numbers two, three and so on.
pub open spec fn is_first_free(
    path: Seq<char>,
    existing: Seq<String>,
    host: Host,
    r: Seq<char>,
) -> bool {
    if !holds_text(existing, path) {
        r == path
    } else {
        exists|n: nat| #[trigger]
            is_free_number(path, existing, host, n) && r == with_suffix(path, n, host)
    }
}

/// Whether `n` is the first number, from two on, with which a path is free.
pub open spec fn is_free_number(
    path: Seq<char>,
    existing: Seq<String>,
    host: Host,
    n: nat,
) -> bool {
    &&& n >= 2
    &&& !holds_text(existing, with_suffix(path, n, host))
    &&& forall|m: nat| 2 <= m < n ==> holds_text(existing, #[trigger] with_suffix(path, m, host))
}

/// The name of a zip with a number.
pub open spec fn numbered_name(path: Seq<char>, n: nat, host: Host) -> Seq<char> {
    let (stem, ext) = match host_file_name(path, host) {
        Some(name) => stem_and_extension(name),
        None => ("archive"@, None),
    };
    stem + " ("@ + decimal(n) + ")."@ + match ext {
        Some(e) => e,
        None => "zip"@,
    }
}

proof fn lemma_decimal_not_empty(n: nat)
    ensures
        decimal(n).len() > 0,
    decreases n,
{
    if n >= 10 {
        lemma_decimal_not_empty(n / 10);
    }
}

/// The text before the number is not empty and holds no separator.
proof fn lemma_numbered_name(path: Seq<char>, n: nat, host: Host)
    ensures
        is_entry_name(numbered_name(path, n, host)),
        numbered_name(path, n, host).len() > 5,
        forall|k: int|
            0 <= k < numbered_name(path, n, host).len() ==> !host.separates(
                #[trigger] numbered_name(path, n, host)[k],
            ),
{
    reveal_strlit("archive");
    reveal_strlit(" (");
    reveal_strlit(").");
    reveal_strlit("zip");
    let (stem, ext) = match host_file_name(path, host) {
        Some(name) => stem_and_extension(name),
        None => ("archive"@, None),
    };
    if let Some(name) = host_file_name(path, host) {
        lemma_host_name(path, host);
        lemma_last_dot(name, name.len() as int);
    }
    let end = match ext {
        Some(e) => e,
        None => "zip"@,
    };
    let x = numbered_name(path, n, host);
    lemma_decimal_not_empty(n);
    lemma_digits(n);
    assert(x =~= stem + " ("@ + decimal(n) + ")."@ + end);
    assert forall|k: int| 0 <= k < x.len() implies !host.separates(#[trigger] x[k]) by {
        let a = stem.len() as int;
        let b = a + 2;
        let c = b + decimal(n).len();
        let d = c + 2;
        if k < a {
            assert(x[k] == stem[k]);
            assert(!host.separates(stem[k])) by {
                if let Some(name) = host_file_name(path, host) {
                    assert(stem[k] == name[k]);
                }
            }
        } else if k < b {
            assert(x[k] == " ("@[k - a]);
        } else if k < c {
            assert(x[k] == decimal(n)[k - b]);
        } else if k < d {
            assert(x[k] == ")."@[k - c]);
        } else {
            assert(x[k] == end[k - d]);
            assert(!host.separates(end[k - d])) by {
                if let (Some(name), Some(e)) = (host_file_name(path, host), ext) {
                    let i = last_dot(name, name.len() as int)->Some_0;
                    assert(e[k - d] == name[i + 1 + k - d]);
                }
            }
        }
    }
}

/// Different numbers make different paths.
proof fn lemma_suffix_injective(path: Seq<char>, host: Host, a: nat, b: nat)
    requires
        with_suffix(path, a, host) == with_suffix(path, b, host),
    ensures
        a == b,
{
    let dir = match host_parent(path, host) {
        Some(d) => d,
        None => Seq::empty(),
    };
    let (stem, ext) = match host_file_name(path, host) {
        Some(name) => stem_and_extension(name),
        None => ("archive"@, None),
    };
    let end = match ext {
        Some(e) => e,
        None => "zip"@,
    };
    let x = numbered_name(path, a, host);
    let y = numbered_name(path, b, host);
    let open = stem + " ("@;
    reveal_strlit(" (");
    assert(x[0] == open[0] && y[0] == open[0]);
    assert(x[1] == open[1] && y[1] == open[1]);
    lemma_numbered_name(path, a, host);
    lemma_numbered_name(path, b, host);
    assert(!host.separates(x[0]));
    assert(x == y) by {
        if host == Host::Windows && has_drive(x) {
            assert(host_joined(dir, x, host) == x);
            assert(host_joined(dir, y, host) == y);
        } else {
            let head = opened(dir, host);
            lemma_joined_opened(dir, x, host);
            lemma_joined_opened(dir, y, host);
            assert((head + x).skip(head.len() as int) =~= x);
            assert((head + y).skip(head.len() as int) =~= y);
        }
    }
    let tail = ")."@ + end;
    assert(x =~= open + decimal(a) + tail);
    assert(y =~= open + decimal(b) + tail);
    assert(x.len() == open.len() + decimal(a).len() + tail.len());
    assert(y.len() == open.len() + decimal(b).len() + tail.len());
    assert(x.subrange(open.len() as int, (open.len() + decimal(a).len()) as int) =~= decimal(a));
    assert(y.subrange(open.len() as int, (open.len() + decimal(b).len()) as int) =~= decimal(b));
    lemma_decimal_injective(a, b);
}

/// The numbers that were tried in vain are no more than the paths that are
/// taken.
proof fn lemma_tried(path: Seq<char>, existing: Seq<String>, host: Host, n: nat)
    requires
        n >= 2,
        forall|m: nat| 2 <= m < n ==> holds_text(existing, #[trigger] with_suffix(path, m, host)),
    ensures
        n - 2 <= existing.len(),
{
    let tried = Seq::new((n - 2) as nat, |i: int| with_suffix(path, (i + 2) as nat, host));
    let taken = texts(existing);
    assert(tried.no_duplicates()) by {
        assert forall|i: int, j: int|
            0 <= i < tried.len() && 0 <= j < tried.len() && i != j implies tried[i] != tried[j] by {
            if tried[i] == tried[j] {
                lemma_suffix_injective(path, host, (i + 2) as nat, (j + 2) as nat);
            }
        }
    }
    assert(tried.to_set().subset_of(taken.to_set())) by {
        assert forall|t: Seq<char>| tried.to_set().contains(t) implies taken.to_set().contains(
            t,
        ) by {
            let i = choose|i: int| 0 <= i < tried.len() && tried[i] == t;
            assert(holds_text(existing, with_suffix(path, (i + 2) as nat, host)));
            let k = choose|k: int| 0 <= k < existing.len() && (#[trigger] existing[k])@ == t;
            assert(taken[k] == t);
        }
    }
    tried.unique_seq_to_set();
    taken.lemma_cardinality_of_set();
    vstd::seq_lib::seq_to_set_is_finite(taken);
    vstd::set_lib::lemma_len_subset(tried.to_set(), taken.to_set());
}

/// A path that is free: `path` itself, or with the first number, from two on,
/// that makes it free.
pub fn free_path(path: &str, existing: &Vec<String>, host: Host) -> (r: String)
    requires
        existing@.len() < u32::MAX - 2,
    ensures
        is_first_free(path@, existing@, host, r@),
        !holds_text(existing@, r@),
{
    if !list_holds(existing, path) {
        return path.to_owned();
    }
    let mut n: u32 = 2;
    loop
        invariant
            2 <= n,
            existing@.len() < u32::MAX - 2,
            holds_text(existing@, path@),
            forall|m: nat|
                2 <= m < n ==> holds_text(existing@, #[trigger] with_suffix(path@, m, host)),
        decreases existing@.len() + 2 - n,
    {
        let p = add_suffix(path, n, host);
        if !list_holds(existing, p.as_str()) {
            assert(is_free_number(path@, existing@, host, n as nat));
            return p;
        }
        proof {
            assert(forall|m: nat|
                2 <= m < n + 1 ==> holds_text(existing@, #[trigger] with_suffix(path@, m, host)));
            lemma_tried(path@, existing@, host, (n + 1) as nat);
        }
        n = n + 1;
    }
}

proof fn lemma_last_dot(s: Seq<char>, n: int)
    requires
        0 <= n <= s.len(),
    ensures
        last_dot(s, n) matches Some(i) ==> 0 <= i < n,
    decreases n,
{
    if n > 0 && s[n - 1] != '.' {
        lemma_last_dot(s, n - 1);
    }
}

/// The directory that a zip lies in.
pub open spec fn zip_parent(path: Seq<char>, host: Host) -> Seq<char> {
    match host_parent(path, host) {
        Some(d) => d,
        None => Seq::empty(),
    }
}

/// A path with a number has a file name.
proof fn lemma_suffix_file_name(path: Seq<char>, n: nat, host: Host)
    requires
        !is_bare_server(zip_parent(path, host), host),
    ensures
        host_file_name(with_suffix(path, n, host), host) is Some,
{
    let x = numbered_name(path, n, host);
    let dir = zip_parent(path, host);
    lemma_numbered_name(path, n, host);
    assert(with_suffix(path, n, host) == host_joined(dir, x, host));
    if host == Host::Windows && has_drive(x) {
        let rest = x.skip(2);
        let t = slash_form(x, host).skip(2);
        assert forall|k: int| 0 <= k < t.len() implies #[trigger] t[k] == rest[k] by {
            assert(!host.separates(x[k + 2]));
        }
        assert(t =~= rest);
        assert(body(x, host) == rest);
        let none = Seq::<char>::empty();
        assert forall|k: int| 0 <= k < rest.len() implies rest[k] != '/' by {
            assert(!host.separates(x[k + 2]));
        }
        law_joined_name_is_last(none, rest);
        assert(joined(none, rest) =~= rest);
    } else {
        law_host_joined_name_is_last(dir, x, host);
    }
}

proof fn lemma_digits(n: nat)
    ensures
        forall|k: int|
            0 <= k < decimal(n).len() ==> #[trigger] decimal(n)[k] != '/' && decimal(n)[k] != '\\',
    decreases n,
{
    let d = digit_char((n % 10) as int);
    assert(d != '/' && d != '\\');
    if n >= 10 {
        lemma_digits(n / 10);
        assert forall|k: int| 0 <= k < decimal(n).len() implies #[trigger] decimal(n)[k] != '/'
            && decimal(n)[k] != '\\' by {
            if k < decimal(n / 10).len() {
                assert(decimal(n)[k] == decimal(n / 10)[k]);
            } else {
                assert(decimal(n)[k] == d);
            }
        }
    } else {
        assert(decimal(n) =~= seq![d]);
    }
}

/// Where a zip path leads once the first `n` zips have got their new paths,
/// one after the other.
pub open spec fn retargeted(
    t: Seq<char>,
    before: Seq<PlannedZip>,
    after: Seq<PlannedZip>,
    n: int,
) -> Seq<char>
    decreases n,
{
    if n <= 0 {
        t
    } else {
        let p = retargeted(t, before, after, n - 1);
        if p == before[n - 1].zip_path@ {
            after[n - 1].zip_path@
        } else {
            p
        }
    }
}

/// Whether `b` is the file `a` with another zip.
pub open spec fn moved_to(a: ArchiveOperationFile, b: ArchiveOperationFile, zip: Seq<char>) -> bool {
    &&& b.target_zip_path@ == zip
    &&& b.id == a.id
    &&& b.operation_id == a.operation_id
    &&& b.file_id == a.file_id
    &&& b.source_path == a.source_path
    &&& b.target_path_in_zip == a.target_path_in_zip
    &&& b.expected_hash == a.expected_hash
    &&& b.disposition == a.disposition
    &&& b.frame_role == a.frame_role
    &&& b.file_size_bytes == a.file_size_bytes
}

/// Whether `b` is the zip `a` under a path that is free.
pub open spec fn renamed_zip(
    a: PlannedZip,
    b: PlannedZip,
    existing: Seq<String>,
    host: Host,
) -> bool {
    &&& is_first_free(a.zip_path@, existing, host, b.zip_path@)
    &&& host_file_name(b.zip_path@, host) == Some(b.zip_filename@)
    &&& b.frame_role == a.frame_role
    &&& b.file_count == a.file_count
    &&& b.total_size_bytes == a.total_size_bytes
}

/// Whether the path that a zip gets has a file name: its own path has one, or it
/// is taken, so that the zip gets a path with a number. Directly below a server
/// such a path would name a share.
pub open spec fn can_be_named(z: PlannedZip, existing: Seq<String>, host: Host) -> bool {
    if holds_text(existing, z.zip_path@) {
        !is_bare_server(zip_parent(z.zip_path@, host), host)
    } else {
        host_file_name(z.zip_path@, host) is Some
    }
}

/// Whether the path that a zip gets has a file name.
pub fn zip_can_be_named(z: &PlannedZip, existing: &Vec<String>, host: Host) -> (r: bool)
    ensures
        r == can_be_named(*z, existing@, host),
{
    let path = z.zip_path.as_str();
    if list_holds(existing, path) {
        let dir = match host_parent_of(path, host) {
            Some(d) => d,
            None => String::new(),
        };
        assert(dir@ =~= zip_parent(path@, host));
        !names_bare_server(dir.as_str(), host)
    } else {
        host_file_name_of(path, host).is_some()
    }
}

/// The zip `z` under a path that is free.
fn rename_zip(z: &PlannedZip, existing: &Vec<String>, host: Host) -> (r: PlannedZip)
    requires
        existing@.len() < u32::MAX - 2,
        can_be_named(*z, existing@, host),
    ensures
        renamed_zip(*z, r, existing@, host),
        !holds_text(existing@, r.zip_path@),
{
    let path = free_path(z.zip_path.as_str(), existing, host);
    proof {
        if holds_text(existing@, z.zip_path@) {
            let n = choose|n: nat| #[trigger]
                is_free_number(z.zip_path@, existing@, host, n) && path@ == with_suffix(z.zip_path@, n, host);
            lemma_suffix_file_name(z.zip_path@, n, host);
        }
    }
    let name = match host_file_name_of(path.as_str(), host) {
        Some(n) => n,
        None => String::new(),
    };
    PlannedZip {
        zip_path: path,
        zip_filename: name,
        frame_role: z.frame_role,
        file_count: z.file_count,
        total_size_bytes: z.total_size_bytes,
    }
}

/// Points the files of one zip to its new path.
fn retarget_files(files: &mut Vec<ArchiveOperationFile>, from: &str, to: &str)
    ensures
        final(files)@.len() == old(files)@.len(),
        forall|i: int|
            0 <= i < old(files)@.len() ==> moved_to(
                old(files)@[i],
                #[trigger] final(files)@[i],
                if old(files)@[i].target_zip_path@ == from@ {
                    to@
                } else {
                    old(files)@[i].target_zip_path@
                },
            ),
{
    let ghost before = files@;
    let mut i: usize = 0;
    while i < files.len()
        invariant
            i <= files@.len(),
            files@.len() == before.len(),
            forall|k: int| i <= k < before.len() ==> files@[k] == before[k],
            forall|k: int|
                0 <= k < i ==> moved_to(
                    before[k],
                    #[trigger] files@[k],
                    if before[k].target_zip_path@ == from@ {
                        to@
                    } else {
                        before[k].target_zip_path@
                    },
                ),
        decreases files@.len() - i,
    {
        if same_text(files[i].target_zip_path.as_str(), from) {
            let mut f = files[i].clone();
            f.target_zip_path = to.to_owned();
            files.set(i, f);
        }
        i = i + 1;
    }
}

/// Copies of the files of a plan.
fn copy_files(files: &Vec<ArchiveOperationFile>) -> (r: Vec<ArchiveOperationFile>)
    ensures
        r@ == files@,
{
    let mut out: Vec<ArchiveOperationFile> = Vec::new();
    let mut i: usize = 0;
    while i < files.len()
        invariant
            i <= files@.len(),
            out@ == files@.take(i as int),
        decreases files@.len() - i,
    {
        out.push(files[i].clone());
        i = i + 1;
        assert(out@ =~= files@.take(i as int));
    }
    assert(out@ =~= files@);
    out
}

/// Copies of the zips of a plan.
fn copy_zips(zips: &Vec<PlannedZip>) -> (r: Vec<PlannedZip>)
    ensures
        r@ == zips@,
{
    let mut out: Vec<PlannedZip> = Vec::new();
    let mut i: usize = 0;
    while i < zips.len()
        invariant
            i <= zips@.len(),
            out@ == zips@.take(i as int),
        decreases zips@.len() - i,
    {
        out.push(zips[i].clone());
        i = i + 1;
        assert(out@ =~= zips@.take(i as int));
    }
    assert(out@ =~= zips@);
    out
}

/// Whether the zips and files are those of the plan under paths that are free.
pub open spec fn are_renamed(
    plan: ArchivePlan,
    existing: Seq<String>,
    host: Host,
    files: Seq<ArchiveOperationFile>,
    zips: Seq<PlannedZip>,
) -> bool {
    &&& zips.len() == plan.zips@.len()
    &&& forall|k: int|
        0 <= k < zips.len() ==> renamed_zip(plan.zips@[k], #[trigger] zips[k], existing, host)
    &&& forall|k: int| 0 <= k < zips.len() ==> !holds_text(existing, (#[trigger] zips[k]).zip_path@)
    &&& files.len() == plan.files@.len()
    &&& forall|i: int|
        0 <= i < files.len() ==> moved_to(
            plan.files@[i],
            #[trigger] files[i],
            retargeted(
                plan.files@[i].target_zip_path@,
                plan.zips@,
                zips,
                zips.len() as int,
            ),
        )
}

proof fn lemma_retargeted_prefix(
    t: Seq<char>,
    before: Seq<PlannedZip>,
    a: Seq<PlannedZip>,
    b: Seq<PlannedZip>,
    n: int,
)
    requires
        0 <= n <= a.len(),
        n <= b.len(),
        forall|k: int| 0 <= k < n ==> a[k] == b[k],
    ensures
        retargeted(t, before, a, n) == retargeted(t, before, b, n),
    decreases n,
{
    if n > 0 {
        lemma_retargeted_prefix(t, before, a, b, n - 1);
    }
}

/// Gives each zip of a plan a path that is free, one after the other, and
/// points the files to it.
fn rename_all(plan: &ArchivePlan, existing: &Vec<String>, host: Host) -> (r: (
    Vec<ArchiveOperationFile>,
    Vec<PlannedZip>,
))
    requires
        existing@.len() < u32::MAX - 2,
        forall|k: int|
            0 <= k < plan.zips@.len() ==> can_be_named(#[trigger] plan.zips@[k], existing@, host),
    ensures
        are_renamed(*plan, existing@, host, r.0@, r.1@),
{
    let mut files = copy_files(&plan.files);
    let mut zips: Vec<PlannedZip> = Vec::new();
    let mut k: usize = 0;
    while k < plan.zips.len()
        invariant
            k <= plan.zips@.len(),
            existing@.len() < u32::MAX - 2,
            forall|k: int|
                0 <= k < plan.zips@.len() ==> can_be_named(#[trigger] plan.zips@[k], existing@, host),
            zips@.len() == k,
            forall|j: int|
                0 <= j < k ==> renamed_zip(plan.zips@[j], #[trigger] zips@[j], existing@, host),
            forall|j: int|
                0 <= j < k ==> !holds_text(existing@, (#[trigger] zips@[j]).zip_path@),
            files@.len() == plan.files@.len(),
            forall|i: int|
                0 <= i < files@.len() ==> moved_to(
                    plan.files@[i],
                    #[trigger] files@[i],
                    retargeted(
                        plan.files@[i].target_zip_path@,
                        plan.zips@,
                        zips@,
                        k as int,
                    ),
                ),
        decreases plan.zips@.len() - k,
    {
        let z = rename_zip(&plan.zips[k], existing, host);
        retarget_files(&mut files, plan.zips[k].zip_path.as_str(), z.zip_path.as_str());
        let ghost before = zips@;
        zips.push(z);
        assert forall|i: int| 0 <= i < files@.len() implies moved_to(
            plan.files@[i],
            #[trigger] files@[i],
            retargeted(plan.files@[i].target_zip_path@, plan.zips@, zips@, k as int + 1),
        ) by {
            lemma_retargeted_prefix(
                plan.files@[i].target_zip_path@,
                plan.zips@,
                before,
                zips@,
                k as int,
            );
        }
        k = k + 1;
    }
    (files, zips)
}

/// Whether a recorded disposition is that of a plan.
pub open spec fn is_recorded(text: Option<String>, d: Option<ArchiveDisposition>) -> bool {
    match (text, d) {
        (Some(s), Some(d)) => s@ == d.word(),
        (None, None) => true,
        _ => false,
    }
}

fn recorded(d: Option<ArchiveDisposition>) -> (r: Option<String>)
    ensures
        is_recorded(r, d),
{
    match d {
        Some(d) => Some(d.as_str().to_owned()),
        None => None,
    }
}

/// Whether `op` is the record of a plan.
pub open spec fn is_record_of(op: NewOperation, plan: ArchivePlan) -> bool {
    &&& op.frames_set_id == if plan.frames_set_id != 0 {
        Some(plan.frames_set_id)
    } else {
        None
    }
    &&& op.calibration_set_id == plan.calibration_set_id
    &&& op.archive_root_path@ == plan.archive_root_path@
    &&& is_recorded(op.flats_disposition, plan.dispositions.flats)
    &&& is_recorded(op.darks_disposition, plan.dispositions.darks)
    &&& is_recorded(op.bias_disposition, plan.dispositions.bias)
    &&& is_recorded(op.darkflats_disposition, plan.dispositions.darkflats)
    &&& op.compression@ == plan.compression.word()
}

/// Whether a plan is about a frame set or a calibration set, and not both.
pub open spec fn has_one_subject(plan: ArchivePlan) -> bool {
    (plan.frames_set_id != 0) != (plan.calibration_set_id is Some)
}

/// Makes a plan ready to go on record. A plan must be about a frame set or a
/// calibration set, and not both. Where zips get a number, each zip is given
/// the first path that is free, and its files point to it; otherwise all paths
/// stay.
pub fn commit_plan(
    plan: &ArchivePlan,
    conflict_resolution: ConflictResolution,
    existing: &Vec<String>,
    host: Host,
) -> (r: Result<CommittedPlan, PlanError>)
    requires
        existing@.len() < u32::MAX - 2,
        has_one_subject(*plan) && conflict_resolution == ConflictResolution::AddSuffix
            ==> forall|k: int|
            0 <= k < plan.zips@.len() ==> can_be_named(#[trigger] plan.zips@[k], existing@, host),
    ensures
        match r {
            Err(e) => {
                &&& !has_one_subject(*plan)
                &&& e@ == PlanFailure::SubjectUnclear(plan.frames_set_id, plan.calibration_set_id)
            },
            Ok(c) => {
                &&& has_one_subject(*plan)
                &&& is_record_of(c.operation, *plan)
                &&& match conflict_resolution {
                    ConflictResolution::Overwrite => c.files@ == plan.files@ && c.zips@
                        == plan.zips@,
                    ConflictResolution::AddSuffix => are_renamed(
                        *plan,
                        existing@,
                        host,
                        c.files@,
                        c.zips@,
                    ),
                }
            },
        },
{
    let has_frame_set = plan.frames_set_id != 0;
    let has_calibration_set = plan.calibration_set_id.is_some();
    if has_frame_set == has_calibration_set {
        return Err(PlanError::SubjectUnclear(plan.frames_set_id, plan.calibration_set_id));
    }
    let (files, zips) = match conflict_resolution {
        ConflictResolution::AddSuffix => rename_all(plan, existing, host),
        ConflictResolution::Overwrite => (copy_files(&plan.files), copy_zips(&plan.zips)),
    };
    let operation = NewOperation {
        frames_set_id: if has_frame_set {
            Some(plan.frames_set_id)
        } else {
            None
        },
        calibration_set_id: plan.calibration_set_id,
        archive_root_path: plan.archive_root_path.clone(),
        flats_disposition: recorded(plan.dispositions.flats),
        darks_disposition: recorded(plan.dispositions.darks),
        bias_disposition: recorded(plan.dispositions.bias),
        darkflats_disposition: recorded(plan.dispositions.darkflats),
        compression: plan.compression.as_str().to_owned(),
    };
    Ok(CommittedPlan { operation, files, zips })
}

/// A name that holds no separator of either style holds none of the host.
proof fn lemma_no_host_separator(name: Seq<char>, host: Host)
    requires
        !has_separator(name),
    ensures
        forall|k: int| 0 <= k < name.len() ==> !host.separates(#[trigger] name[k]),
{
    assert forall|k: int| 0 <= k < name.len() implies !host.separates(#[trigger] name[k]) by {
        if host.separates(name[k]) {
            assert(CharClass::Separator.has(name[k]));
        }
    }
}

/// A zip of a plan for a frame set is found under the name that the plan gives
/// it: its path has a file name, which is its name. So the plan can be committed.
/// The one exception is an archive root that names a server without a share.
pub proof fn law_planned_zip_keeps_its_name(
    root: Seq<char>,
    meta: FrameSetMetadata,
    role: FrameRole,
    host: Host,
)
    requires
        !is_bare_server(root, host),
    ensures
        host_file_name(role_zip_path(root, meta, role, host), host) == Some(
            role_zip_name(meta, role),
        ),
{
    let name = role_zip_name(meta, role);
    law_zip_name_is_one_component(
        field(meta.object),
        field(meta.start_date),
        field(meta.end_date),
        field(meta.telescope),
        field(meta.camera),
        role,
    );
    reveal_strlit(".zip");
    assert(name.len() > 2);
    lemma_no_host_separator(name, host);
    law_host_joined_name_is_last(root, name, host);
}

/// The zip of a plan for a calibration set is found under the name that the plan
/// gives it, provided that the written exposure time holds no separator. So the
/// plan can be committed.
pub proof fn law_planned_calibration_zip_keeps_its_name(q: CalibrationSetRequest)
    requires
        field(q.exptime) matches Some(e) ==> !has_separator(e),
    ensures
        host_file_name(q.zip_path(), q.host) == Some(q.zip_name()),
{
    let name = q.zip_name();
    law_calibration_zip_name_is_one_component(
        field(q.instrume),
        q.imagetyp@,
        q.gain,
        field(q.exptime),
        field_or_empty(q.date_start),
        field_or_empty(q.date_end),
    );
    reveal_strlit(".zip");
    assert(name.len() > 2);
    lemma_no_host_separator(name, q.host);
    lemma_calibration_dir(
        q.archive_root_path@,
        field(q.instrume),
        field_or_empty(q.date_start),
        q.host,
    );
    law_host_joined_name_is_last(q.zip_dir(), name, q.host);
}

} // verus!
