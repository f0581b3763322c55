//! What holds of every name and path that the archive layout makes.

use crate::archive::models::FrameRole;
use crate::archive::path_layout::{
    bytes_end, calibration_dir,
    calibration_zip_name, cleaned, collapsed, date_part, is_device_name,
    is_reserved_char, or_else, remainder, sanitized, sanitized_or,
    under_root, windows_safe, zip_name,
};
use crate::host_paths::{
    has_drive, host_components, host_joined, is_bare_server, lead_len, slash_form, Host,
};
use crate::text::{
    decimal, digit_char, find_from, is_control, is_white, lemma_find_from, lemma_find_is,
    signed_decimal, trim, trim_end, trimmed_end, trimmed_start, CharClass,
};
use vstd::prelude::*;

verus! {

/// A character that may stand in the name of a file.
pub open spec fn is_name_char(c: char) -> bool {
    !is_reserved_char(c) && !is_white(c) && !is_control(c)
}

/// Whether a text holds none but characters of file names.
pub open spec fn is_name_text(s: Seq<char>) -> bool {
    forall|i: int| 0 <= i < s.len() ==> is_name_char(#[trigger] s[i])
}

proof fn lemma_cleaned(s: Seq<char>)
    ensures
        is_name_text(cleaned(s)),
    decreases s.len(),
{
    if s.len() > 0 {
        lemma_cleaned(s.drop_last());
    }
}

proof fn lemma_collapsed(s: Seq<char>)
    requires
        is_name_text(s),
    ensures
        is_name_text(collapsed(s)),
    decreases s.len(),
{
    if s.len() > 0 {
        lemma_collapsed(s.drop_last());
    }
}

/// Where trimming stops, no character of the class stands.
pub proof fn lemma_trimmed_end(s: Seq<char>, class: CharClass, n: int)
    requires
        0 <= n <= s.len(),
    ensures
        0 <= trimmed_end(s, class, n) <= n,
        trimmed_end(s, class, n) > 0 ==> !class.has(s[trimmed_end(s, class, n) - 1]),
        forall|k: int| trimmed_end(s, class, n) <= k < n ==> class.has(#[trigger] s[k]),
    decreases n,
{
    if n > 0 && class.has(s[n - 1]) {
        lemma_trimmed_end(s, class, n - 1);
    }
}

/// Where trimming begins, no character of the class stands.
pub proof fn lemma_trimmed_start(s: Seq<char>, class: CharClass, i: int)
    requires
        0 <= i <= s.len(),
    ensures
        i <= trimmed_start(s, class, i) <= s.len(),
        trimmed_start(s, class, i) < s.len() ==> !class.has(s[trimmed_start(s, class, i)]),
    decreases s.len() - i,
{
    if i < s.len() && class.has(s[i]) {
        lemma_trimmed_start(s, class, i + 1);
    }
}

/// The name of a file never holds a separator, a reserved character, white
/// space or a control character, whatever text it was made from.
pub proof fn law_sanitized_is_a_name(s: Seq<char>)
    ensures
        is_name_text(sanitized(s)),
{
    lemma_cleaned(s);
    lemma_collapsed(cleaned(s));
    let whole = collapsed(cleaned(s));
    lemma_trimmed_end(whole, CharClass::Underscore, whole.len() as int);
    lemma_trimmed_start(whole, CharClass::Underscore, 0);
    let core = trim(whole, CharClass::Underscore);
    assert(is_name_text(core));
    lemma_trimmed_end(core, CharClass::DotOrSpace, core.len() as int);
    let out = trim_end(core, CharClass::DotOrSpace);
    assert(is_name_text(out));
    lemma_find_from(out, '.', 0);
    assert(is_name_char('_'));
}

/// A safe component never ends in a dot or a space, unless it is the fallback.
/// So neither `.` nor `..` comes out, and no path climbs out of its directory.
pub proof fn law_safe_component_end(s: Seq<char>, fallback: Seq<char>)
    ensures
        windows_safe(s, fallback) == fallback || (windows_safe(s, fallback).len() > 0
            && !CharClass::DotOrSpace.has(windows_safe(s, fallback).last())),
        sanitized(s) != seq!['.'],
        sanitized(s) != seq!['.', '.'],
{
    lemma_safe_end(s, fallback);
    let core = trim(collapsed(cleaned(s)), CharClass::Underscore);
    lemma_safe_end(core, Seq::empty());
    assert(seq!['.'].last() == '.');
    assert(seq!['.', '.'].last() == '.');
    assert(seq!['.'].len() == 1);
    assert(seq!['.', '.'].len() == 2);
}

proof fn lemma_safe_end(s: Seq<char>, fallback: Seq<char>)
    ensures
        windows_safe(s, fallback) == fallback || (windows_safe(s, fallback).len() > 0
            && !CharClass::DotOrSpace.has(windows_safe(s, fallback).last())),
{
    lemma_trimmed_end(s, CharClass::DotOrSpace, s.len() as int);
    let out = trim_end(s, CharClass::DotOrSpace);
    lemma_find_from(out, '.', 0);
}

/// The first part of a safe component is never the name of a DOS device,
/// unless the component is the fallback.
pub proof fn law_safe_component_is_no_device(s: Seq<char>, fallback: Seq<char>)
    ensures
        windows_safe(s, fallback) == fallback || !is_device_name(
            windows_safe(s, fallback).take(find_from(windows_safe(s, fallback), '.', 0)),
        ),
{
    lemma_trimmed_end(s, CharClass::DotOrSpace, s.len() as int);
    let out = trim_end(s, CharClass::DotOrSpace);
    let dot = find_from(out, '.', 0);
    lemma_find_from(out, '.', 0);
    let base = out.take(dot);
    if out.len() > 0 && is_device_name(base) {
        let r = base + seq!['_'] + out.skip(dot);
        assert forall|k: int| 0 <= k < dot + 1 implies r[k] != '.' by {
            if k < dot {
                assert(r[k] == out[k]);
            }
        }
        if dot < out.len() {
            assert(r[dot + 1] == out[dot]);
        }
        lemma_find_is(r, '.', 0, dot + 1);
        let first = r.take(dot + 1);
        assert(first.last() == '_');
        assert(first.len() == base.len() + 1);
        assert(base.len() == 3 || base.len() == 4);
        assert(!is_device_name(first));
    }
}

proof fn lemma_decimal_shape(n: nat)
    ensures
        decimal(n).len() > 0,
        decimal(n).last() == digit_char((n % 10) as int),
        n >= 10 ==> decimal(n).len() > 1,
        n < 10 ==> decimal(n).len() == 1,
    decreases n,
{
    if n >= 10 {
        lemma_decimal_shape(n / 10);
    }
}

/// Two numbers with the same digits are the same number.
pub proof fn lemma_decimal_injective(a: nat, b: nat)
    requires
        decimal(a) == decimal(b),
    ensures
        a == b,
    decreases a,
{
    lemma_decimal_shape(a);
    lemma_decimal_shape(b);
    assert(a % 10 == b % 10);
    if a >= 10 {
        assert(decimal(a).drop_last() =~= decimal(a / 10));
        assert(decimal(b).drop_last() =~= decimal(b / 10));
        lemma_decimal_injective(a / 10, b / 10);
    }
}

/// A root that a path is found under is one that its place in the zip can be
/// told from: no path strictly under a matching root falls back to its name.
pub proof fn law_matching_root_has_a_remainder(source: Seq<char>, root: Seq<char>, host: Host)
    requires
        under_root(source, root, host),
        host_components(source, host).len() > host_components(root, host).len(),
    ensures
        remainder(source, root, host) is Some,
{
}

/// Whether a text holds a path separator of either style.
pub open spec fn has_separator(s: Seq<char>) -> bool {
    exists|i: int| 0 <= i < s.len() && CharClass::Separator.has(#[trigger] s[i])
}

proof fn lemma_name_has_no_separator(s: Seq<char>)
    ensures
        !has_separator(sanitized(s)),
{
    law_sanitized_is_a_name(s);
}

proof fn lemma_no_separator_concat(a: Seq<char>, b: Seq<char>)
    requires
        !has_separator(a),
        !has_separator(b),
    ensures
        !has_separator(a + b),
{
    if has_separator(a + b) {
        let i = choose|i: int|
            0 <= i < (a + b).len() && CharClass::Separator.has(#[trigger] (a + b)[i]);
        if i < a.len() {
            assert(CharClass::Separator.has(a[i]));
        } else {
            assert(CharClass::Separator.has(b[i - a.len()]));
        }
    }
}

proof fn lemma_literals()
    ensures
        !has_separator("Unknown"@),
        !has_separator("UnknownCamera"@),
        !has_separator("_"@),
        !has_separator("_g"@),
        !has_separator("s"@),
        !has_separator("x"@),
        !has_separator(".zip"@),
        !has_separator("unknown-date"@),
        forall|role: FrameRole| !has_separator(#[trigger] role.suffix()),
{
    reveal_strlit("Unknown");
    reveal_strlit("UnknownCamera");
    reveal_strlit("_");
    reveal_strlit("_g");
    reveal_strlit("s");
    reveal_strlit("x");
    reveal_strlit(".zip");
    reveal_strlit("unknown-date");
    reveal_strlit("Lights");
    reveal_strlit("Flats");
    reveal_strlit("Darks");
    reveal_strlit("Bias");
    reveal_strlit("DarkFlats");
}

proof fn lemma_sanitized_or(value: Option<Seq<char>>, fallback: Seq<char>)
    requires
        !has_separator(fallback),
    ensures
        !has_separator(sanitized_or(value, fallback)),
{
    if let Some(s) = value {
        lemma_name_has_no_separator(s);
    }
}

/// The name of a zip is a single path component: it holds no separator,
/// whatever the metadata of its frames says.
pub proof fn law_zip_name_is_one_component(
    object: Option<Seq<char>>,
    start_date: Option<Seq<char>>,
    end_date: Option<Seq<char>>,
    telescope: Option<Seq<char>>,
    camera: Option<Seq<char>>,
    role: FrameRole,
)
    ensures
        !has_separator(zip_name(object, start_date, end_date, telescope, camera, role)),
        !has_drive(zip_name(object, start_date, end_date, telescope, camera, role)),
{
    lemma_literals();
    let u = "Unknown"@;
    let s = "_"@;
    lemma_sanitized_or(object, u);
    lemma_sanitized_or(start_date, u);
    lemma_sanitized_or(end_date, u);
    lemma_sanitized_or(telescope, u);
    lemma_sanitized_or(camera, u);
    let a = sanitized_or(object, u);
    lemma_no_separator_concat(a, s);
    let b = a + s + sanitized_or(start_date, u);
    lemma_no_separator_concat(a + s, sanitized_or(start_date, u));
    lemma_no_separator_concat(b, s);
    let c = b + s + sanitized_or(end_date, u);
    lemma_no_separator_concat(b + s, sanitized_or(end_date, u));
    lemma_no_separator_concat(c, s);
    let d = c + s + sanitized_or(telescope, u);
    lemma_no_separator_concat(c + s, sanitized_or(telescope, u));
    lemma_no_separator_concat(d, s);
    let e = d + s + sanitized_or(camera, u);
    lemma_no_separator_concat(d + s, sanitized_or(camera, u));
    lemma_no_separator_concat(e, s);
    lemma_no_separator_concat(e + s, role.suffix());
    lemma_no_separator_concat(e + s + role.suffix(), ".zip"@);
    lemma_first_token(object, u);
    reveal_strlit("_");
    let whole = zip_name(object, start_date, end_date, telescope, camera, role);
    if a.len() > 1 {
        assert(whole[1] == a[1]);
    } else {
        assert(whole[1] == s[0]);
    }
}

/// A word of a name is not empty and holds no colon.
proof fn lemma_first_token(value: Option<Seq<char>>, fallback: Seq<char>)
    requires
        fallback == "Unknown"@ || fallback == "UnknownCamera"@,
    ensures
        sanitized_or(value, fallback).len() > 0,
        forall|k: int|
            0 <= k < sanitized_or(value, fallback).len() ==> #[trigger] sanitized_or(
                value,
                fallback,
            )[k] != ':',
{
    reveal_strlit("Unknown");
    reveal_strlit("UnknownCamera");
    if let Some(v) = value {
        law_sanitized_is_a_name(v);
        assert forall|k: int| 0 <= k < sanitized(v).len() implies #[trigger] sanitized(v)[k] != ':' by {
            assert(is_name_char(sanitized(v)[k]));
        }
    }
}

proof fn lemma_decimal_has_no_separator(n: nat)
    ensures
        !has_separator(decimal(n)),
    decreases n,
{
    if n < 10 {
        assert(decimal(n) =~= seq![digit_char(n as int)]);
    } else {
        lemma_decimal_has_no_separator(n / 10);
        lemma_no_separator_concat(decimal(n / 10), seq![digit_char((n % 10) as int)]);
        assert(decimal(n) =~= decimal(n / 10) + seq![digit_char((n % 10) as int)]);
    }
}

proof fn lemma_date_part(stamp: Seq<char>, fallback: Seq<char>)
    requires
        !has_separator(fallback),
    ensures
        !has_separator(or_else(date_part(stamp), fallback)),
{
    match crate::archive::path_layout::bytes_end(stamp, 0, 10) {
        Some(e) => {
            lemma_name_has_no_separator(stamp.take(e));
        },
        None => {},
    }
}

/// The name of the zip of a calibration set is a single path component,
/// whatever dates its frames carry, provided that the written exposure time
/// holds no separator.
pub proof fn law_calibration_zip_name_is_one_component(
    instrume: Option<Seq<char>>,
    imagetyp: Seq<char>,
    gain: Option<i64>,
    exptime: Option<Seq<char>>,
    date_start: Seq<char>,
    date_end: Seq<char>,
)
    requires
        exptime matches Some(e) ==> !has_separator(e),
    ensures
        !has_separator(
            calibration_zip_name(instrume, imagetyp, gain, exptime, date_start, date_end),
        ),
        !has_drive(calibration_zip_name(instrume, imagetyp, gain, exptime, date_start, date_end)),
{
    lemma_literals();
    let s = "_"@;
    lemma_sanitized_or(instrume, "UnknownCamera"@);
    lemma_name_has_no_separator(imagetyp);
    let cam = sanitized_or(instrume, "UnknownCamera"@);
    lemma_no_separator_concat(cam, s);
    lemma_no_separator_concat(cam + s, sanitized(imagetyp));
    let a = cam + s + sanitized(imagetyp);
    let g = match gain {
        Some(g) => "_g"@ + signed_decimal(g as int),
        None => Seq::<char>::empty(),
    };
    assert(!has_separator(g)) by {
        if let Some(n) = gain {
            let m: nat = if n < 0 {
                (-n) as nat
            } else {
                n as nat
            };
            lemma_decimal_has_no_separator(m);
            assert(!has_separator(seq!['-']));
            lemma_no_separator_concat(seq!['-'], decimal(m));
            lemma_no_separator_concat("_g"@, signed_decimal(n as int));
        }
    }
    lemma_no_separator_concat(a, g);
    let t = match exptime {
        Some(e) => "_"@ + e + "s"@,
        None => Seq::<char>::empty(),
    };
    assert(!has_separator(t)) by {
        if let Some(e) = exptime {
            lemma_no_separator_concat("_"@, e);
            lemma_no_separator_concat("_"@ + e, "s"@);
        }
    }
    lemma_no_separator_concat(a + g, t);
    lemma_no_separator_concat(a + g + t, s);
    lemma_date_part(date_start, "x"@);
    lemma_date_part(date_end, "x"@);
    let from = or_else(date_part(date_start), "x"@);
    let to = or_else(date_part(date_end), "x"@);
    lemma_no_separator_concat(a + g + t + s, from);
    lemma_no_separator_concat(a + g + t + s + from, s);
    lemma_no_separator_concat(a + g + t + s + from + s, to);
    lemma_no_separator_concat(a + g + t + s + from + s + to, ".zip"@);
    lemma_first_token(instrume, "UnknownCamera"@);
    reveal_strlit("_");
    let whole = calibration_zip_name(instrume, imagetyp, gain, exptime, date_start, date_end);
    if cam.len() > 1 {
        assert(whole[1] == cam[1]);
    } else {
        assert(whole[1] == s[0]);
    }
}

/// A path with a separator in its midst names no bare server.
proof fn lemma_no_bare_server(p: Seq<char>, host: Host, k: int)
    requires
        2 <= k < p.len() - 1,
        host.separates(p[k]),
    ensures
        !is_bare_server(p, host),
{
    let s = slash_form(p, host);
    lemma_find_from(s, '/', 2);
    assert(s[k] == '/');
}

/// The directory of the zip of a calibration set is a directory below the
/// archive root, whatever the root is.
pub proof fn lemma_calibration_dir(
    root: Seq<char>,
    instrume: Option<Seq<char>>,
    date_start: Seq<char>,
    host: Host,
)
    ensures
        !is_bare_server(host_joined(root, calibration_dir(instrume, date_start, host), host), host),
{
    if host == Host::Windows {
        let top = "Calibration_Archive"@;
        let cam = sanitized_or(instrume, "UnknownCamera"@);
        let date = or_else(date_part(date_start), "unknown-date"@);
        lemma_literals();
        lemma_first_token(instrume, "UnknownCamera"@);
        lemma_sanitized_or(instrume, "UnknownCamera"@);
        lemma_date_part(date_start, "unknown-date"@);
        lemma_date_has_no_drive(date_start);
        reveal_strlit("Calibration_Archive");
        reveal_strlit("unknown-date");
        lemma_starts_plainly(cam, host);
        lemma_starts_plainly(date, host);
        let a = host_joined(top, cam, host);
        assert(a == top.push('\\') + cam);
        let cdir = host_joined(a, date, host);
        assert(a[0] == 'C' && a[1] == 'a' && a[19] == '\\');
        assert(cdir[0] == 'C' && cdir[1] == 'a' && cdir[19] == '\\');
        assert(cdir.len() > 20);
        lemma_starts_plainly(cdir, host);
        let whole = host_joined(root, cdir, host);
        let k = whole.len() - cdir.len() + 19;
        assert(whole[k] == cdir[19]);
        lemma_no_bare_server(whole, host, k);
    }
}

/// A text that begins with neither a drive nor a separator has no lead.
proof fn lemma_starts_plainly(p: Seq<char>, host: Host)
    requires
        p.len() > 0,
        !has_drive(p),
        !host.separates(p[0]),
    ensures
        lead_len(p, host) == 0,
{
    assert(slash_form(p, host)[0] == p[0]);
}

proof fn lemma_date_has_no_drive(stamp: Seq<char>)
    ensures
        or_else(date_part(stamp), "unknown-date"@).len() > 0,
        !has_drive(or_else(date_part(stamp), "unknown-date"@)),
        !CharClass::Separator.has(or_else(date_part(stamp), "unknown-date"@)[0]),
{
    reveal_strlit("unknown-date");
    if date_part(stamp).len() > 0 {
        let e = bytes_end(stamp, 0, 10)->0;
        law_sanitized_is_a_name(stamp.take(e));
        let d = date_part(stamp);
        assert(is_name_char(d[0]));
        if d.len() > 1 {
            assert(is_name_char(d[1]));
        }
    }
}

} // verus!
