//! The names of zips and the paths of files inside them.
//!
//! Paths are those of a host, which comes as a parameter: it decides at which
//! characters they are separated, and whether names that differ only in case
//! name the same file. Inside a zip they are separated at slashes.

use crate::archive::layout_laws::lemma_decimal_injective;
use crate::archive::models::FrameRole;
use crate::host_paths::{
    host_components, host_file_name, host_file_name_of, host_join, host_joined, host_parent,
    host_parent_of, host_tail, Host, HostParts,
};
use crate::paths::{join_paths, joined};
use crate::text::{
    chars_of, control, decimal, decimal_text, find_char, find_from, find_trimmed_end, is_control,
    is_white, list_contains, lowercase, lowercase_text, pieces, same_but_ascii_case, same_ignoring_ascii_case,
    signed_decimal, signed_decimal_text, slice_text, split_text, text_of, texts, trim, trim_end,
    trim_end_text, trim_text, trimmed_end, white, CharClass,
};
use crate::text_map::TextMap;
use vstd::prelude::*;
use vstd::string::*;

verus! {

/// The characters that no file name may hold on every common file system.
pub open spec fn is_reserved_char(c: char) -> bool {
    c == '/' || c == '\\' || c == ':' || c == '*' || c == '?' || c == '"' || c == '<' || c == '>'
        || c == '|'
}

/// A text with reserved characters and white space made underscores and other
/// control characters taken out.
pub open spec fn cleaned(s: Seq<char>) -> Seq<char>
    decreases s.len(),
{
    if s.len() == 0 {
        Seq::empty()
    } else {
        let before = cleaned(s.drop_last());
        let c = s.last();
        if is_reserved_char(c) || is_white(c) {
            before.push('_')
        } else if is_control(c) {
            before
        } else {
            before.push(c)
        }
    }
}

/// A text with each run of underscores made a single one.
pub open spec fn collapsed(s: Seq<char>) -> Seq<char>
    decreases s.len(),
{
    if s.len() == 0 {
        Seq::empty()
    } else {
        let before = collapsed(s.drop_last());
        let c = s.last();
        if c == '_' && before.len() > 0 && before.last() == '_' {
            before
        } else {
            before.push(c)
        }
    }
}

/// Whether a name is that of a DOS device: `CON`, `PRN`, `AUX`, `NUL`, and
/// `COM` or `LPT` with a digit or a superscript one, two or three, in any case.
pub open spec fn is_device_name(base: Seq<char>) -> bool {
    ||| same_but_ascii_case(base, seq!['C', 'O', 'N'])
    ||| same_but_ascii_case(base, seq!['P', 'R', 'N'])
    ||| same_but_ascii_case(base, seq!['A', 'U', 'X'])
    ||| same_but_ascii_case(base, seq!['N', 'U', 'L'])
    ||| {
        &&& base.len() == 4
        &&& same_but_ascii_case(base.take(3), seq!['C', 'O', 'M']) || same_but_ascii_case(
            base.take(3),
            seq!['L', 'P', 'T'],
        )
        &&& ('0' <= base[3] <= '9' || base[3] == '\u{b9}' || base[3] == '\u{b2}' || base[3]
            == '\u{b3}')
    }
}

/// A name without trailing dots and spaces; `fallback` where nothing is left;
/// with an underscore behind its first part where that is a device name.
pub open spec fn windows_safe(s: Seq<char>, fallback: Seq<char>) -> Seq<char> {
    let out = trim_end(s, CharClass::DotOrSpace);
    let dot = find_from(out, '.', 0);
    if out.len() == 0 {
        fallback
    } else if is_device_name(out.take(dot)) {
        out.take(dot) + seq!['_'] + out.skip(dot)
    } else {
        out
    }
}

/// A text made fit to be the name of a file; empty where nothing is left.
pub open spec fn sanitized(s: Seq<char>) -> Seq<char> {
    windows_safe(trim(collapsed(cleaned(s)), CharClass::Underscore), Seq::empty())
}

/// Whether `base` is the name of a DOS device.
fn device_name(base: &str) -> (r: bool)
    ensures
        r == is_device_name(base@),
{
    proof {
        reveal_strlit("CON");
        reveal_strlit("PRN");
        reveal_strlit("AUX");
        reveal_strlit("NUL");
        reveal_strlit("COM");
        reveal_strlit("LPT");
        assert("CON"@ =~= seq!['C', 'O', 'N']);
        assert("PRN"@ =~= seq!['P', 'R', 'N']);
        assert("AUX"@ =~= seq!['A', 'U', 'X']);
        assert("NUL"@ =~= seq!['N', 'U', 'L']);
        assert("COM"@ =~= seq!['C', 'O', 'M']);
        assert("LPT"@ =~= seq!['L', 'P', 'T']);
    }
    if same_ignoring_ascii_case(base, "CON") || same_ignoring_ascii_case(base, "PRN")
        || same_ignoring_ascii_case(base, "AUX") || same_ignoring_ascii_case(base, "NUL") {
        return true;
    }
    let v = chars_of(base);
    if v.len() != 4 {
        return false;
    }
    let first = slice_text(&v, 0, 3);
    assert(base@.subrange(0, 3) =~= base@.take(3));
    let port = same_ignoring_ascii_case(first.as_str(), "COM") || same_ignoring_ascii_case(
        first.as_str(),
        "LPT",
    );
    let c = v[3];
    port && (('0' <= c && c <= '9') || c == '\u{b9}' || c == '\u{b2}' || c == '\u{b3}')
}

/// A name that every common file system takes: without trailing dots and
/// spaces, not the name of a DOS device, and `fallback` where nothing is left
/// (of `.` and `..` nothing is).
pub fn windows_safe_component(s: &str, fallback: &str) -> (r: String)
    ensures
        r@ == windows_safe(s@, fallback@),
{
    let out = trim_end_text(s, CharClass::DotOrSpace);
    let v = chars_of(out.as_str());
    if v.len() == 0 {
        return fallback.to_owned();
    }
    let dot = find_char(&v, '.', 0);
    let base = slice_text(&v, 0, dot);
    assert(v@.subrange(0, dot as int) =~= v@.take(dot as int));
    if device_name(base.as_str()) {
        let rest = slice_text(&v, dot, v.len());
        assert(v@.subrange(dot as int, v@.len() as int) =~= v@.skip(dot as int));
        let mut r = base;
        r.push('_');
        r.append(rest.as_str());
        assert(r@ =~= v@.take(dot as int) + seq!['_'] + v@.skip(dot as int));
        r
    } else {
        out
    }
}

/// A text made fit to be the name of a file: reserved characters and white
/// space become underscores, control characters go, runs of underscores become
/// one, those at the ends go, and what is left is made safe.
pub fn sanitize_for_filename(s: &str) -> (r: String)
    ensures
        r@ == sanitized(s@),
{
    let v = chars_of(s);
    let mut out: Vec<char> = Vec::new();
    let mut i: usize = 0;
    while i < v.len()
        invariant
            i <= v@.len(),
            out@ == collapsed(cleaned(v@.take(i as int))),
        decreases v@.len() - i,
    {
        let c = v[i];
        let ghost before = v@.take(i as int);
        let ghost now = v@.take(i + 1);
        assert(now.drop_last() =~= before);
        assert(now.last() == c);
        let sep = c == '/' || c == '\\' || c == ':' || c == '*' || c == '?' || c == '"' || c == '<'
            || c == '>' || c == '|' || white(c);
        if sep || !control(c) {
            let kept = if sep {
                '_'
            } else {
                c
            };
            assert(cleaned(now) == cleaned(before).push(kept));
            assert(cleaned(now).drop_last() =~= cleaned(before));
            if kept == '_' && out.len() > 0 && out[out.len() - 1] == '_' {
            } else {
                out.push(kept);
            }
        }
        i = i + 1;
    }
    assert(v@.take(v@.len() as int) =~= v@);
    let whole = text_of(&out);
    let core = trim_text(whole.as_str(), CharClass::Underscore);
    proof {
        reveal_strlit("");
        assert(""@ =~= Seq::<char>::empty());
    }
    windows_safe_component(core.as_str(), "")
}

/// The text of an optional argument.
pub open spec fn opt(value: Option<&str>) -> Option<Seq<char>> {
    match value {
        Some(s) => Some(s@),
        None => None,
    }
}

/// The sanitized value, or a fallback where there is none or nothing is left.
pub open spec fn sanitized_or(value: Option<Seq<char>>, fallback: Seq<char>) -> Seq<char> {
    match value {
        Some(s) => if sanitized(s).len() > 0 {
            sanitized(s)
        } else {
            fallback
        },
        None => fallback,
    }
}

/// The sanitized value, or a fallback where there is none or nothing is left.
fn sanitize_or(value: Option<&str>, fallback: &str) -> (r: String)
    ensures
        r@ == sanitized_or(opt(value), fallback@),
{
    if let Some(s) = value {
        let t = sanitize_for_filename(s);
        if !t.as_str().is_empty() {
            return t;
        }
    }
    fallback.to_owned()
}

/// The name of the zip for the frames of one role:
/// `{Object}_{StartDate}_{EndDate}_{Telescope}_{Camera}_{FrameType}.zip`.
pub open spec fn zip_name(
    object: Option<Seq<char>>,
    start_date: Option<Seq<char>>,
    end_date: Option<Seq<char>>,
    telescope: Option<Seq<char>>,
    camera: Option<Seq<char>>,
    role: FrameRole,
) -> Seq<char> {
    sanitized_or(object, "Unknown"@) + "_"@ + sanitized_or(start_date, "Unknown"@) + "_"@
        + sanitized_or(end_date, "Unknown"@) + "_"@ + sanitized_or(telescope, "Unknown"@) + "_"@
        + sanitized_or(camera, "Unknown"@) + "_"@ + role.suffix() + ".zip"@
}

/// The name of the zip for the frames of one role; a part of the name that is
/// not known reads `Unknown`.
pub fn zip_filename(
    object: Option<&str>,
    start_date: Option<&str>,
    end_date: Option<&str>,
    telescope: Option<&str>,
    camera: Option<&str>,
    role: FrameRole,
) -> (r: String)
    ensures
        r@ == zip_name(
            opt(object),
            opt(start_date),
            opt(end_date),
            opt(telescope),
            opt(camera),
            role,
        ),
{
    let mut r = sanitize_or(object, "Unknown");
    r.append("_");
    r.append(sanitize_or(start_date, "Unknown").as_str());
    r.append("_");
    r.append(sanitize_or(end_date, "Unknown").as_str());
    r.append("_");
    r.append(sanitize_or(telescope, "Unknown").as_str());
    r.append("_");
    r.append(sanitize_or(camera, "Unknown").as_str());
    r.append("_");
    r.append(role.zip_suffix());
    r.append(".zip");
    r
}

/// The name of the last entry of a path, sanitized, or `Root` where it has none.
pub open spec fn root_base(path: Seq<char>, host: Host) -> Seq<char> {
    match host_file_name(path, host) {
        Some(n) => sanitized(n),
        None => "Root"@,
    }
}

/// [`root_base`] of `path`.
pub fn root_base_name(path: &str, host: Host) -> (r: String)
    ensures
        r@ == root_base(path@, host),
{
    match host_file_name_of(path, host) {
        Some(n) => sanitize_for_filename(n.as_str()),
        None => "Root".to_owned(),
    }
}

/// The `n`th name that a scan root with the given base can get: the base itself,
/// then the base with a number.
pub open spec fn numbered_base(base: Seq<char>, n: nat) -> Seq<char> {
    if n <= 1 {
        base
    } else {
        base + "_"@ + decimal(n)
    }
}

/// Whether `n` is the first number, from one on, that makes a base a free name.
pub open spec fn is_free_base_number(taken: Seq<Seq<char>>, base: Seq<char>, n: nat) -> bool {
    &&& n >= 1
    &&& !taken.contains(numbered_base(base, n))
    &&& forall|m: nat| 1 <= m < n ==> taken.contains(#[trigger] numbered_base(base, m))
}

/// The name that a scan root gets where some names are taken: its base, or the
/// base with the first number that makes it free.
pub open spec fn free_base(taken: Seq<Seq<char>>, base: Seq<char>) -> Seq<char> {
    numbered_base(base, choose|n: nat| is_free_base_number(taken, base, n))
}

/// The names of the first `n` scan roots, one after the other.
pub open spec fn names_given(paths: Seq<Seq<char>>, host: Host, n: int) -> Seq<Seq<char>>
    decreases n,
{
    if n <= 0 {
        Seq::empty()
    } else {
        let before = names_given(paths, host, n - 1);
        before.push(free_base(before, root_base(paths[n - 1], host)))
    }
}

/// The names of the first `n` scan roots by their paths; of a root that stands
/// twice, the later name.
pub open spec fn root_names(paths: Seq<Seq<char>>, host: Host, n: int) -> Map<Seq<char>, Seq<char>>
    decreases n,
{
    if n <= 0 {
        Map::empty()
    } else {
        root_names(paths, host, n - 1).insert(paths[n - 1], names_given(paths, host, n)[n - 1])
    }
}

/// Different numbers make different names.
proof fn lemma_numbered_base_injective(base: Seq<char>, a: nat, b: nat)
    requires
        a >= 1,
        b >= 1,
        numbered_base(base, a) == numbered_base(base, b),
    ensures
        a == b,
{
    reveal_strlit("_");
    let at = base.len() + "_"@.len();
    if a > 1 && b > 1 {
        assert((base + "_"@ + decimal(a)).skip(at as int) =~= decimal(a));
        assert((base + "_"@ + decimal(b)).skip(at as int) =~= decimal(b));
        lemma_decimal_injective(a, b);
    } else if a > 1 {
        assert(numbered_base(base, a).len() > base.len());
    } else if b > 1 {
        assert(numbered_base(base, b).len() > base.len());
    }
}

/// The numbers that were tried in vain are no more than the names that are
/// taken.
proof fn lemma_base_numbers_tried(taken: Seq<Seq<char>>, base: Seq<char>, n: nat)
    requires
        n >= 1,
        forall|m: nat| 1 <= m < n ==> taken.contains(#[trigger] numbered_base(base, m)),
    ensures
        n - 1 <= taken.len(),
{
    let tried = Seq::new((n - 1) as nat, |i: int| numbered_base(base, (i + 1) as nat));
    assert(tried.no_duplicates()) by {
        assert forall|i: int, j: int|
            0 <= i < tried.len() && 0 <= j < tried.len() && i != j implies tried[i] != tried[j] by {
            if tried[i] == tried[j] {
                lemma_numbered_base_injective(base, (i + 1) as nat, (j + 1) as nat);
            }
        }
    }
    assert(tried.to_set().subset_of(taken.to_set())) by {
        assert forall|t: Seq<char>| tried.to_set().contains(t) implies taken.to_set().contains(
            t,
        ) by {
            let i = choose|i: int| 0 <= i < tried.len() && tried[i] == t;
            assert(taken.contains(numbered_base(base, (i + 1) as nat)));
        }
    }
    tried.unique_seq_to_set();
    taken.lemma_cardinality_of_set();
    vstd::seq_lib::seq_to_set_is_finite(taken);
    vstd::set_lib::lemma_len_subset(tried.to_set(), taken.to_set());
}

proof fn lemma_least_free_base(taken: Seq<Seq<char>>, base: Seq<char>, n: nat)
    requires
        n >= 1,
        !taken.contains(numbered_base(base, n)),
    ensures
        exists|m: nat| is_free_base_number(taken, base, m),
    decreases n,
{
    if forall|m: nat| 1 <= m < n ==> taken.contains(#[trigger] numbered_base(base, m)) {
        assert(is_free_base_number(taken, base, n));
    } else {
        let m = choose|m: nat|
            1 <= m < n && !taken.contains(#[trigger] numbered_base(base, m));
        lemma_least_free_base(taken, base, m);
    }
}

/// The name that a scan root gets is not taken.
proof fn lemma_free_base(taken: Seq<Seq<char>>, base: Seq<char>)
    ensures
        !taken.contains(free_base(taken, base)),
{
    let top = (taken.len() + 2) as nat;
    if forall|m: nat| 1 <= m < top ==> taken.contains(#[trigger] numbered_base(base, m)) {
        lemma_base_numbers_tried(taken, base, top);
    }
    let n = choose|m: nat| 1 <= m < top && !taken.contains(#[trigger] numbered_base(base, m));
    lemma_least_free_base(taken, base, n);
}

/// Each scan root gets a name that none before it has.
proof fn lemma_names_given(paths: Seq<Seq<char>>, host: Host, n: int)
    requires
        0 <= n <= paths.len(),
    ensures
        names_given(paths, host, n).len() == n,
        names_given(paths, host, n).no_duplicates(),
        forall|m: int, k: int|
            0 <= k < m <= n ==> names_given(paths, host, n)[k] == #[trigger] names_given(paths, host, m)[k],
    decreases n,
{
    if n > 0 {
        lemma_names_given(paths, host, n - 1);
        let before = names_given(paths, host, n - 1);
        let now = names_given(paths, host, n);
        lemma_free_base(before, root_base(paths[n - 1], host));
        assert forall|i: int, j: int|
            0 <= i < now.len() && 0 <= j < now.len() && i != j implies now[i] != now[j] by {
            if i == n - 1 {
                assert(before.contains(before[j]));
            } else if j == n - 1 {
                assert(before.contains(before[i]));
            }
        }
        assert forall|m: int, k: int| 0 <= k < m <= n implies now[k] == #[trigger] names_given(
            paths,
            host,
            m,
        )[k] by {
            if m < n {
                assert(before[k] == names_given(paths, host, m)[k]);
            }
        }
    }
}

/// The name of a scan root is one that was given for its path.
pub proof fn lemma_root_name(paths: Seq<Seq<char>>, host: Host, path: Seq<char>, n: int) -> (k: int)
    requires
        0 <= n <= paths.len(),
        root_names(paths, host, n).contains_key(path),
    ensures
        0 <= k < n,
        paths[k] == path,
        root_names(paths, host, n)[path] == names_given(paths, host, paths.len() as int)[k],
    decreases n,
{
    lemma_names_given(paths, host, paths.len() as int);
    if n > 0 && paths[n - 1] == path {
        n - 1
    } else if n > 0 {
        lemma_root_name(paths, host, path, n - 1)
    } else {
        0
    }
}

proof fn lemma_root_keys(paths: Seq<Seq<char>>, host: Host, n: int)
    requires
        0 <= n <= paths.len(),
    ensures
        forall|k: int| 0 <= k < n ==> root_names(paths, host, n).contains_key(#[trigger] paths[k]),
    decreases n,
{
    if n > 0 {
        lemma_root_keys(paths, host, n - 1);
    }
}

/// Every scan root has a name, nothing else has, and different scan roots have
/// different names.
pub proof fn law_scan_roots_are_told_apart(paths: Seq<Seq<char>>, host: Host)
    ensures
        forall|k: int|
            0 <= k < paths.len() ==> root_names(paths, host, paths.len() as int).contains_key(
                #[trigger] paths[k],
            ),
        forall|p: Seq<char>| #[trigger]
            root_names(paths, host, paths.len() as int).contains_key(p) ==> paths.contains(p),
        forall|i: int, j: int|
            0 <= i < j < paths.len() && paths[i] != paths[j] ==> root_names(
                paths,
                host,
                paths.len() as int,
            )[#[trigger] paths[i]] != root_names(paths, host, paths.len() as int)[#[trigger] paths[j]],
{
    let n = paths.len() as int;
    lemma_root_keys(paths, host, n);
    lemma_names_given(paths, host, n);
    assert forall|p: Seq<char>| #[trigger]
        root_names(paths, host, n).contains_key(p) implies paths.contains(p) by {
        let k = lemma_root_name(paths, host, p, n);
        assert(paths[k] == p);
    }
    assert forall|i: int, j: int| 0 <= i < j < n && paths[i] != paths[j] implies root_names(
        paths,
        host,
        n,
    )[#[trigger] paths[i]] != root_names(paths, host, n)[#[trigger] paths[j]] by {
        let a = lemma_root_name(paths, host, paths[i], n);
        let b = lemma_root_name(paths, host, paths[j], n);
        assert(a != b);
    }
}

/// The name of each scan root inside a zip: the last entry of its path, or where
/// an earlier root has that name, with the first of `_2`, `_3` and so on behind
/// it that makes it free. No two roots share a name.
pub fn resolve_scan_root_prefixes(scan_root_paths: &Vec<String>, host: Host) -> (r: TextMap)
    ensures
        r@ == root_names(texts(scan_root_paths@), host, scan_root_paths@.len() as int),
        forall|k: int|
            0 <= k < scan_root_paths@.len() ==> r@.contains_key((#[trigger] scan_root_paths@[k])@),
        forall|i: int, j: int|
            0 <= i < j < scan_root_paths@.len() && scan_root_paths@[i]@ != scan_root_paths@[j]@
                ==> r@[(#[trigger] scan_root_paths@[i])@] != r@[(
            #[trigger] scan_root_paths@[j])@],
{
    let ghost all = texts(scan_root_paths@);
    let mut given: Vec<String> = Vec::new();
    let mut out = TextMap::new();
    let mut i: usize = 0;
    assert(texts(given@) =~= names_given(all, host, 0));
    while i < scan_root_paths.len()
        invariant
            i <= scan_root_paths@.len(),
            all == texts(scan_root_paths@),
            texts(given@) == names_given(all, host, i as int),
            given@.len() == i,
            out@ == root_names(all, host, i as int),
        decreases scan_root_paths@.len() - i,
    {
        let base = root_base_name(scan_root_paths[i].as_str(), host);
        let name = free_root_name(&given, base);
        let ghost before = texts(given@);
        given.push(name.clone());
        assert(texts(given@) =~= before.push(name@));
        assert(texts(given@) =~= names_given(all, host, i as int + 1));
        out.insert(scan_root_paths[i].clone(), name);
        i = i + 1;
    }
    proof {
        law_scan_roots_are_told_apart(all, host);
        assert forall|k: int| 0 <= k < scan_root_paths@.len() implies out@.contains_key(
            (#[trigger] scan_root_paths@[k])@,
        ) by {
            assert(all[k] == scan_root_paths@[k]@);
        }
        assert forall|i: int, j: int|
            0 <= i < j < scan_root_paths@.len() && scan_root_paths@[i]@
                != scan_root_paths@[j]@ implies out@[(#[trigger] scan_root_paths@[i])@] != out@[(
        #[trigger] scan_root_paths@[j])@] by {
            assert(all[i] == scan_root_paths@[i]@);
            assert(all[j] == scan_root_paths@[j]@);
        }
    }
    out
}

/// The name that a scan root gets where some names are taken.
fn free_root_name(taken: &Vec<String>, base: String) -> (r: String)
    requires
        taken@.len() < usize::MAX,
    ensures
        r@ == free_base(texts(taken@), base@),
{
    let ghost names = texts(taken@);
    let len: usize = taken.len();
    let mut n: u64 = 1;
    loop
        invariant
            1 <= n <= len + 1,
            len == taken@.len(),
            len < usize::MAX,
            names == texts(taken@),
            forall|m: nat| 1 <= m < n ==> names.contains(#[trigger] numbered_base(base@, m)),
        decreases len + 1 - n,
    {
        let mut name = base.clone();
        if n > 1 {
            name.append("_");
            name.append(decimal_text(n).as_str());
        }
        assert(name@ =~= numbered_base(base@, n as nat));
        if !list_contains(taken, name.as_str()) {
            proof {
                assert(is_free_base_number(names, base@, n as nat));
                let f = choose|f: nat| is_free_base_number(names, base@, f);
                if f < n {
                    assert(names.contains(numbered_base(base@, f)));
                } else if n < f {
                    assert(names.contains(numbered_base(base@, n as nat)));
                }
            }
            return name;
        }
        proof {
            lemma_base_numbers_tried(names, base@, (n + 1) as nat);
        }
        n = n + 1;
    }
}

/// Whether the first components of `cs` are those of `root`.
pub open spec fn begins_with(cs: Seq<Seq<char>>, root: Seq<Seq<char>>) -> bool {
    cs.len() >= root.len() && forall|k: int|
        0 <= k < root.len() ==> (#[trigger] cs[k]) == root[k]
}

/// Whether the first components of `cs` are those of `root` up to case.
pub open spec fn begins_with_folded(cs: Seq<Seq<char>>, root: Seq<Seq<char>>) -> bool {
    cs.len() >= root.len() && forall|k: int|
        0 <= k < root.len() ==> lowercase(#[trigger] cs[k]) == lowercase(root[k])
}

/// Whether `path` is `root` or lies under it.
pub open spec fn under_root(path: Seq<char>, root: Seq<char>, host: Host) -> bool {
    let p = host_components(path, host);
    let r = host_components(root, host);
    begins_with(p, r) || (host.folds() && begins_with_folded(p, r))
}

/// Whether the first components of `path` are those of `root`.
fn parts_begin_with(path: &HostParts, root: &HostParts) -> (r: bool)
    requires
        path.wf(),
        root.wf(),
    ensures
        r == begins_with(path.comps(), root.comps()),
{
    if path.len() < root.len() {
        return false;
    }
    let mut k: usize = 0;
    while k < root.len()
        invariant
            path.wf(),
            root.wf(),
            k <= root.comps().len() <= path.comps().len(),
            forall|j: int|
                0 <= j < k ==> (#[trigger] path.comps()[j]) == root.comps()[j],
        decreases root.comps().len() - k,
    {
        if path.get(k) != root.get(k) {
            assert(path.comps()[k as int] != root.comps()[k as int]);
            return false;
        }
        k = k + 1;
    }
    true
}

/// Whether the first components of `path` are those of `root` up to case.
fn parts_begin_with_folded(path: &HostParts, root: &HostParts) -> (r: bool)
    requires
        path.wf(),
        root.wf(),
    ensures
        r == begins_with_folded(path.comps(), root.comps()),
{
    if path.len() < root.len() {
        return false;
    }
    let mut k: usize = 0;
    while k < root.len()
        invariant
            path.wf(),
            root.wf(),
            k <= root.comps().len() <= path.comps().len(),
            forall|j: int|
                0 <= j < k ==> lowercase(#[trigger] path.comps()[j]) == lowercase(
                    root.comps()[j],
                ),
        decreases root.comps().len() - k,
    {
        let a = lowercase_text(path.get(k).as_str());
        let b = lowercase_text(root.get(k).as_str());
        if a != b {
            assert(lowercase(path.comps()[k as int]) != lowercase(
                root.comps()[k as int],
            ));
            return false;
        }
        k = k + 1;
    }
    true
}

/// Whether `path` is `root` or lies under it, component by component; up to
/// case where the host does not tell cases apart.
pub fn path_starts_with_fold(path: &str, root: &str, host: Host) -> (r: bool)
    ensures
        r == under_root(path@, root@, host),
{
    let p = HostParts::of(path, host);
    let q = HostParts::of(root, host);
    parts_begin_with(&p, &q) || (host.folds_case() && parts_begin_with_folded(&p, &q))
}

/// Components put together from the `k`th on.
pub open spec fn rejoined(cs: Seq<Seq<char>>, k: int) -> Seq<char>
    decreases cs.len() - k,
    when 0 <= k
{
    join_range(Seq::empty(), cs, k, cs.len() as int)
}

/// A path with the components `cs[from..to]` put behind it one by one.
pub open spec fn join_range(base: Seq<char>, cs: Seq<Seq<char>>, from: int, to: int) -> Seq<char>
    decreases to - from,
{
    if to <= from {
        base
    } else {
        joined(join_range(base, cs, from, to - 1), cs[to - 1])
    }
}

/// What is left of `source` behind `root`, with slashes; up to case only for a
/// path that lies strictly under the root.
pub open spec fn remainder(source: Seq<char>, root: Seq<char>, host: Host) -> Option<Seq<char>> {
    let s = host_components(source, host);
    let r = host_components(root, host);
    if begins_with(s, r) {
        Some(host_tail(source, r.len() as int, host))
    } else if host.folds() && s.len() > r.len() && begins_with_folded(s, r) {
        Some(rejoined(s, r.len() as int))
    } else {
        None
    }
}

/// A text with backslashes made slashes.
pub open spec fn slashed(s: Seq<char>) -> Seq<char> {
    Seq::new(
        s.len(),
        |i: int|
            if s[i] == '\\' {
                '/'
            } else {
                s[i]
            },
    )
}

/// The path of a file inside a zip: the name of its scan root, then what is
/// left behind the root; for a file outside the root only the name of the file.
pub open spec fn in_zip(
    root_name: Seq<char>,
    scan_root: Seq<char>,
    source: Seq<char>,
    host: Host,
) -> Seq<char> {
    slashed(
        match remainder(source, scan_root, host) {
            Some(rest) => host_joined(root_name, rest, host),
            None => match host_file_name(source, host) {
                Some(n) => host_joined(root_name, n, host),
                None => root_name,
            },
        },
    )
}

/// `s` with backslashes made slashes.
fn with_slashes(s: &str) -> (r: String)
    ensures
        r@ == slashed(s@),
{
    let v = chars_of(s);
    let mut r = String::new();
    let mut i: usize = 0;
    while i < v.len()
        invariant
            v@ == s@,
            i <= v@.len(),
            r@ == slashed(s@).take(i as int),
        decreases v@.len() - i,
    {
        let c = if v[i] == '\\' {
            '/'
        } else {
            v[i]
        };
        r.push(c);
        i = i + 1;
        assert(r@ =~= slashed(s@).take(i as int));
    }
    assert(slashed(s@).take(v@.len() as int) =~= slashed(s@));
    r
}

/// The components of `path` from the `k`th on, put together.
fn rejoin(path: &HostParts, k: usize) -> (r: String)
    requires
        path.wf(),
        k <= path.comps().len(),
    ensures
        r@ == rejoined(path.comps(), k as int),
{
    let mut r = String::new();
    let mut i: usize = k;
    assert(r@ =~= Seq::<char>::empty());
    while i < path.len()
        invariant
            path.wf(),
            k <= i <= path.comps().len(),
            r@ == join_range(Seq::empty(), path.comps(), k as int, i as int),
        decreases path.comps().len() - i,
    {
        r = join_paths(r.as_str(), path.get(i).as_str());
        i = i + 1;
    }
    r
}

/// The path of a file inside a zip, with slashes: the name of its scan root and
/// what is left behind the root, or the name of the file alone where it does
/// not lie under the root.
pub fn path_in_zip(unique_root_name: &str, scan_root: &str, source_file: &str, host: Host) -> (r:
    String)
    ensures
        r@ == in_zip(unique_root_name@, scan_root@, source_file@, host),
{
    let s = HostParts::of(source_file, host);
    let q = HostParts::of(scan_root, host);
    let whole = if parts_begin_with(&s, &q) {
        host_join(unique_root_name, s.tail(q.len()).as_str(), host)
    } else if host.folds_case() && s.len() > q.len() && parts_begin_with_folded(&s, &q) {
        host_join(unique_root_name, rejoin(&s, q.len()).as_str(), host)
    } else {
        match host_file_name_of(source_file, host) {
            Some(n) => host_join(unique_root_name, n.as_str(), host),
            None => unique_root_name.to_owned(),
        }
    };
    with_slashes(whole.as_str())
}

/// How many of the first `n` pieces are not empty.
pub open spec fn filled(ps: Seq<Seq<char>>, n: int) -> nat
    decreases n,
{
    if n <= 0 {
        0
    } else {
        filled(ps, n - 1) + if ps[n - 1].len() > 0 {
            1nat
        } else {
            0nat
        }
    }
}

/// The last separator among the first `end` characters.
pub open spec fn last_separator(s: Seq<char>, end: int) -> Option<int>
    decreases end,
{
    if end <= 0 {
        None
    } else if CharClass::Separator.has(s[end - 1]) {
        Some(end - 1)
    } else {
        last_separator(s, end - 1)
    }
}

/// Where `s[..end]` ends once its last `n` levels are taken off.
pub open spec fn levels_up(s: Seq<char>, end: int, n: nat) -> Option<int>
    decreases n,
{
    if n == 0 {
        Some(end)
    } else {
        match last_separator(s, end) {
            Some(i) => levels_up(s, i, (n - 1) as nat),
            None => None,
        }
    }
}

/// The directory that the layout of an archive was rooted at: the source path
/// without as many levels as the path in the zip has; none where no directory
/// with a separator is left.
pub open spec fn original_parent(source: Seq<char>, in_zip: Seq<char>) -> Option<Seq<char>> {
    let ps = pieces(in_zip, '/');
    let n = filled(ps, ps.len() as int);
    match levels_up(source, trimmed_end(source, CharClass::Separator, source.len() as int), n) {
        None => None,
        Some(end) => {
            let e = trimmed_end(source, CharClass::Separator, end);
            if e == 0 || last_separator(source, e) is None {
                None
            } else {
                Some(source.take(e))
            }
        },
    }
}

/// The last separator in `v[..end]`.
fn find_last_separator(v: &Vec<char>, end: usize) -> (r: Option<usize>)
    requires
        end <= v@.len(),
    ensures
        match r {
            Some(i) => last_separator(v@, end as int) == Some(i as int) && i < end,
            None => last_separator(v@, end as int) is None,
        },
{
    let mut e: usize = end;
    while e > 0
        invariant
            e <= end <= v@.len(),
            last_separator(v@, end as int) == last_separator(v@, e as int),
        decreases e,
    {
        if CharClass::Separator.holds(v[e - 1]) {
            return Some(e - 1);
        }
        e = e - 1;
    }
    None
}

/// The directory that the layout of an archive was rooted at: `source_path`
/// without as many trailing levels as `path_in_zip` has, whatever separators
/// the source path uses. None where nothing is left, or only a name without a
/// separator, which is no absolute directory.
pub fn original_parent_for_restore(source_path: &str, path_in_zip: &str) -> (r: Option<String>)
    ensures
        match r {
            Some(p) => original_parent(source_path@, path_in_zip@) == Some(p@),
            None => original_parent(source_path@, path_in_zip@) is None,
        },
{
    let ps = split_text(path_in_zip, '/');
    let v = chars_of(source_path);
    let mut end = find_trimmed_end(&v, CharClass::Separator, v.len());
    let ghost all = pieces(path_in_zip@, '/');
    let ghost total = filled(all, all.len() as int);
    let ghost first = end as int;
    let mut i: usize = ps.len();
    while i > 0
        invariant
            i <= ps@.len(),
            texts(ps@) == all,
            v@ == source_path@,
            all == pieces(path_in_zip@, '/'),
            total == filled(all, all.len() as int),
            first == trimmed_end(v@, CharClass::Separator, v@.len() as int),
            end <= v@.len(),
            levels_up(v@, first, total) == levels_up(v@, end as int, filled(all, i as int)),
        decreases i,
    {
        i = i - 1;
        assert(ps@[i as int]@ == all[i as int]);
        if !ps[i].as_str().is_empty() {
            match find_last_separator(&v, end) {
                Some(e) => {
                    end = e;
                },
                None => {
                    return None;
                },
            }
        }
    }
    let e = find_trimmed_end(&v, CharClass::Separator, end);
    if e == 0 {
        return None;
    }
    match find_last_separator(&v, e) {
        None => None,
        Some(_) => {
            assert(v@.subrange(0, e as int) =~= v@.take(e as int));
            Some(slice_text(&v, 0, e))
        },
    }
}

/// A directory with the first `n` pieces that are not empty put behind it.
pub open spec fn under_dir(root: Seq<char>, ps: Seq<Seq<char>>, host: Host, n: int) -> Seq<char>
    decreases n,
{
    if n <= 0 {
        root
    } else if ps[n - 1].len() > 0 {
        host_joined(under_dir(root, ps, host, n - 1), ps[n - 1], host)
    } else {
        under_dir(root, ps, host, n - 1)
    }
}

/// The place under `root` of a file with the given path in its zip, component
/// by component, with the separator of the host.
pub fn dest_under_root(root: &str, path_in_zip: &str, host: Host) -> (r: String)
    ensures
        r@ == under_dir(
            root@,
            pieces(path_in_zip@, '/'),
            host,
            pieces(path_in_zip@, '/').len() as int,
        ),
{
    let ps = split_text(path_in_zip, '/');
    let ghost all = pieces(path_in_zip@, '/');
    let mut r: String = root.to_owned();
    let mut i: usize = 0;
    while i < ps.len()
        invariant
            i <= ps@.len(),
            texts(ps@) == all,
            r@ == under_dir(root@, all, host, i as int),
        decreases ps@.len() - i,
    {
        assert(ps@[i as int]@ == all[i as int]);
        if !ps[i].as_str().is_empty() {
            r = host_join(r.as_str(), ps[i].as_str(), host);
        }
        i = i + 1;
    }
    r
}

/// How many bytes a character takes in UTF-8.
pub open spec fn byte_width(c: char) -> nat {
    let n = c as u32;
    if n < 0x80 {
        1
    } else if n < 0x800 {
        2
    } else if n < 0x10000 {
        3
    } else {
        4
    }
}

/// The first characters of `s[i..]` that take exactly `n` bytes.
pub open spec fn bytes_end(s: Seq<char>, i: int, n: int) -> Option<int>
    decreases s.len() - i,
{
    if n == 0 {
        Some(i)
    } else if n < 0 || i >= s.len() {
        None
    } else {
        bytes_end(s, i + 1, n - byte_width(s[i]))
    }
}

/// The date at the beginning of a time stamp: its first ten bytes, sanitized;
/// empty where there are fewer or a character lies across the boundary.
pub open spec fn date_part(stamp: Seq<char>) -> Seq<char> {
    match bytes_end(stamp, 0, 10) {
        Some(e) => sanitized(stamp.take(e)),
        None => Seq::empty(),
    }
}

/// The date at the beginning of a time stamp, sanitized.
fn date_prefix(stamp: &str) -> (r: String)
    ensures
        r@ == date_part(stamp@),
{
    let v = chars_of(stamp);
    let mut left: i64 = 10;
    let mut i: usize = 0;
    while left > 0 && i < v.len()
        invariant
            i <= v@.len(),
            left <= 10,
            left >= -3,
            bytes_end(v@, 0, 10) == bytes_end(v@, i as int, left as int),
        decreases v@.len() - i,
    {
        let n: u32 = v[i] as u32;
        let w: i64 = if n < 0x80 {
            1
        } else if n < 0x800 {
            2
        } else if n < 0x10000 {
            3
        } else {
            4
        };
        left = left - w;
        i = i + 1;
    }
    if left == 0 {
        assert(v@.subrange(0, i as int) =~= v@.take(i as int));
        sanitize_for_filename(slice_text(&v, 0, i).as_str())
    } else {
        String::new()
    }
}

/// A text, or another one where it is empty.
pub open spec fn or_else(s: Seq<char>, fallback: Seq<char>) -> Seq<char> {
    if s.len() > 0 {
        s
    } else {
        fallback
    }
}

/// The directory of the zip of a calibration set, below the archive root:
/// `Calibration_Archive/<Camera>/<YYYY-MM-DD>`.
pub open spec fn calibration_dir(
    instrume: Option<Seq<char>>,
    date_start: Seq<char>,
    host: Host,
) -> Seq<char> {
    host_joined(
        host_joined("Calibration_Archive"@, sanitized_or(instrume, "UnknownCamera"@), host),
        or_else(date_part(date_start), "unknown-date"@),
        host,
    )
}

/// The directory of the zip of a calibration set, below the archive root; what
/// is not known of it reads `UnknownCamera` and `unknown-date`.
pub fn calibration_zip_dir(instrume: Option<&str>, date_start: &str, host: Host) -> (r: String)
    ensures
        r@ == calibration_dir(opt(instrume), date_start@, host),
{
    let cam = sanitize_or(instrume, "UnknownCamera");
    let mut date = date_prefix(date_start);
    if date.as_str().is_empty() {
        date = "unknown-date".to_owned();
    }
    let dir = host_join("Calibration_Archive", cam.as_str(), host);
    host_join(dir.as_str(), date.as_str(), host)
}

/// The name of the zip of a calibration set:
/// `<Camera>_<Type>_g<gain>_<exptime>s_<date_start>_<date_end>.zip`; gain and
/// exposure time are left out where they are not known.
pub open spec fn calibration_zip_name(
    instrume: Option<Seq<char>>,
    imagetyp: Seq<char>,
    gain: Option<i64>,
    exptime: Option<Seq<char>>,
    date_start: Seq<char>,
    date_end: Seq<char>,
) -> Seq<char> {
    sanitized_or(instrume, "UnknownCamera"@) + "_"@ + sanitized(imagetyp) + (match gain {
        Some(g) => "_g"@ + signed_decimal(g as int),
        None => Seq::empty(),
    }) + (match exptime {
        Some(e) => "_"@ + e + "s"@,
        None => Seq::empty(),
    }) + "_"@ + or_else(date_part(date_start), "x"@) + "_"@ + or_else(date_part(date_end), "x"@)
        + ".zip"@
}

/// The name of the zip of a calibration set. The gain comes rounded and the
/// exposure time as it is written.
pub fn calibration_zip_filename(
    instrume: Option<&str>,
    imagetyp: &str,
    gain: Option<i64>,
    exptime: Option<&str>,
    date_start: &str,
    date_end: &str,
) -> (r: String)
    ensures
        r@ == calibration_zip_name(
            opt(instrume),
            imagetyp@,
            gain,
            opt(exptime),
            date_start@,
            date_end@,
        ),
{
    let mut r = sanitize_or(instrume, "UnknownCamera");
    r.append("_");
    r.append(sanitize_for_filename(imagetyp).as_str());
    let ghost base = r@;
    if let Some(g) = gain {
        r.append("_g");
        r.append(signed_decimal_text(g).as_str());
        assert(r@ =~= base + ("_g"@ + signed_decimal(g as int)));
    } else {
        assert(r@ =~= base + Seq::<char>::empty());
    }
    let ghost base2 = r@;
    if let Some(e) = exptime {
        r.append("_");
        r.append(e);
        r.append("s");
        assert(r@ =~= base2 + ("_"@ + e@ + "s"@));
    } else {
        assert(r@ =~= base2 + Seq::<char>::empty());
    }
    r.append("_");
    let from = date_prefix(date_start);
    if from.as_str().is_empty() {
        r.append("x");
    } else {
        r.append(from.as_str());
    }
    r.append("_");
    let to = date_prefix(date_end);
    if to.as_str().is_empty() {
        r.append("x");
    } else {
        r.append(to.as_str());
    }
    r.append(".zip");
    r
}

/// The place of the last dot among the first `n` characters.
pub open spec fn last_dot(s: Seq<char>, n: int) -> Option<int>
    decreases n,
{
    if n <= 0 {
        None
    } else if s[n - 1] == '.' {
        Some(n - 1)
    } else {
        last_dot(s, n - 1)
    }
}

/// The name of a file without its extension, and the extension; a dot at the
/// very beginning begins none.
pub open spec fn stem_and_extension(name: Seq<char>) -> (Seq<char>, Option<Seq<char>>) {
    match last_dot(name, name.len() as int) {
        Some(i) => if i > 0 {
            (name.take(i), Some(name.skip(i + 1)))
        } else {
            (name, None)
        },
        None => (name, None),
    }
}

/// The name of a file cut before and behind the dot of its extension.
pub fn split_extension(name: &str) -> (r: (String, Option<String>))
    ensures
        r.0@ == stem_and_extension(name@).0,
        match r.1 {
            Some(e) => stem_and_extension(name@).1 == Some(e@),
            None => stem_and_extension(name@).1 is None,
        },
{
    let v = chars_of(name);
    let mut n: usize = v.len();
    while n > 0 && v[n - 1] != '.'
        invariant
            n <= v@.len(),
            last_dot(v@, v@.len() as int) == last_dot(v@, n as int),
        decreases n,
    {
        n = n - 1;
    }
    if n > 1 {
        assert(v@.subrange(0, n - 1) =~= v@.take(n - 1));
        assert(v@.subrange(n as int, v@.len() as int) =~= v@.skip(n as int));
        (slice_text(&v, 0, n - 1), Some(slice_text(&v, n, v.len())))
    } else {
        (name.to_owned(), None)
    }
}

/// The path of a zip with a number in brackets before its extension.
pub open spec fn with_suffix(path: Seq<char>, n: nat, host: Host) -> Seq<char> {
    let dir = match host_parent(path, host) {
        Some(d) => d,
        None => Seq::empty(),
    };
    let (stem, ext) = match host_file_name(path, host) {
        Some(name) => stem_and_extension(name),
        None => ("archive"@, None),
    };
    host_joined(
        dir,
        stem + " ("@ + decimal(n) + ")."@ + match ext {
            Some(e) => e,
            None => "zip"@,
        },
        host,
    )
}

/// The path of a zip with a number before its extension: of
/// `/tmp/M31_Lights.zip` with two, `/tmp/M31_Lights (2).zip`.
pub fn add_suffix(path: &str, n: u32, host: Host) -> (r: String)
    ensures
        r@ == with_suffix(path@, n as nat, host),
{
    let dir = match host_parent_of(path, host) {
        Some(d) => d,
        None => String::new(),
    };
    assert(host_parent(path@, host) is None ==> dir@ =~= Seq::<char>::empty());
    let (stem, ext) = match host_file_name_of(path, host) {
        Some(name) => split_extension(name.as_str()),
        None => ("archive".to_owned(), None),
    };
    let mut name = stem;
    name.append(" (");
    name.append(decimal_text(n as u64).as_str());
    name.append(").");
    match ext {
        Some(e) => {
            name.append(e.as_str());
        },
        None => {
            name.append("zip");
        },
    }
    host_join(dir.as_str(), name.as_str(), host)
}

} // verus!
