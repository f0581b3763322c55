//! How the names and paths of an archive are made from what they are made of.

use crate::archive::layout_laws::law_sanitized_is_a_name;
use crate::archive::models::FrameRole;
use crate::archive::path_layout::{
    add_suffix, bytes_end, calibration_zip_dir, calibration_zip_filename, cleaned, collapsed,
    dest_under_root, is_device_name, last_dot, original_parent_for_restore, path_in_zip,
    path_starts_with_fold, root_base_name, sanitize_for_filename, sanitized, split_extension,
    windows_safe, windows_safe_component, zip_filename,
};
use crate::archive::restore_law::{
    are_plain_names, is_spelling, is_top, law_restore_puts_the_file_back, no_drives,
};
use crate::host_paths::{
    host_components, host_file_name_of, host_joined, host_parent_of, slash_form, Host,
};
use crate::text::{
    decimal, find_from, lemma_find_from, signed_decimal, trim, trim_end, trimmed_end,
    trimmed_start, CharClass,
};
use vstd::prelude::*;

verus! {

/// The part of a name that a value gives: the value made fit for a name, or a
/// fallback where there is no value or nothing is left of it.
pub open spec fn part(value: Option<&str>, fit: String, fallback: Seq<char>) -> Seq<char> {
    if value is Some && fit@.len() > 0 {
        fit@
    } else {
        fallback
    }
}

/// Whether a text is a value made fit for a name.
pub open spec fn is_fit(value: Option<&str>, fit: String) -> bool {
    value matches Some(s) ==> call_ensures(sanitize_for_filename, (s,), fit)
}

/// The name of a zip is made of the object, the two dates, the telescope, the camera
/// and the kind of its frames, in this order; what is not known reads `Unknown`.
pub proof fn law_zip_name_tells_what_is_in_it(
    object: Option<&str>,
    start: Option<&str>,
    end: Option<&str>,
    telescope: Option<&str>,
    camera: Option<&str>,
    role: FrameRole,
    o: String,
    s: String,
    e: String,
    t: String,
    c: String,
    r: String,
)
    requires
        is_fit(object, o),
        is_fit(start, s),
        is_fit(end, e),
        is_fit(telescope, t),
        is_fit(camera, c),
        call_ensures(zip_filename, (object, start, end, telescope, camera, role), r),
    ensures
        ({
            let u = "Unknown"@;
            let head = part(object, o, u) + "_"@ + part(start, s, u) + "_"@ + part(end, e, u)
                + "_"@ + part(telescope, t, u) + "_"@ + part(camera, c, u) + "_"@;
            &&& role is Light ==> r@ == head + "Lights"@ + ".zip"@
            &&& role is Flat ==> r@ == head + "Flats"@ + ".zip"@
            &&& role is Dark ==> r@ == head + "Darks"@ + ".zip"@
            &&& role is Bias ==> r@ == head + "Bias"@ + ".zip"@
            &&& role is Darkflat ==> r@ == head + "DarkFlats"@ + ".zip"@
        }),
{
}

/// Whether a character may not stand in the name of a file everywhere.
pub open spec fn is_forbidden(c: char) -> bool {
    c == '/' || c == '\\' || c == ':' || c == '*' || c == '?' || c == '"' || c == '<' || c == '>'
        || c == '|' || c == ' ' || c == '\t' || c == '\n' || c == '\r'
}

/// Whether a character is a letter, a digit or a hyphen of the ASCII range.
pub open spec fn is_plain_char(c: char) -> bool {
    'a' <= c <= 'z' || 'A' <= c <= 'Z' || '0' <= c <= '9' || c == '-'
}

/// Whether a text holds nothing but letters, digits and hyphens.
pub open spec fn is_plain_text(s: Seq<char>) -> bool {
    forall|i: int| 0 <= i < s.len() ==> is_plain_char(#[trigger] s[i])
}

proof fn lemma_cleaned_concat(a: Seq<char>, b: Seq<char>)
    ensures
        cleaned(a + b) == cleaned(a) + cleaned(b),
    decreases b.len(),
{
    if b.len() == 0 {
        assert(a + b =~= a);
        assert(cleaned(a) + cleaned(b) =~= cleaned(a));
    } else {
        lemma_cleaned_concat(a, b.drop_last());
        assert((a + b).drop_last() =~= a + b.drop_last());
        assert((a + b).last() == b.last());
        assert(cleaned(a + b) =~= cleaned(a) + cleaned(b));
    }
}

proof fn lemma_plain_cleaned(s: Seq<char>)
    requires
        is_plain_text(s),
    ensures
        cleaned(s) == s,
    decreases s.len(),
{
    if s.len() > 0 {
        assert forall|i: int| 0 <= i < s.drop_last().len() implies is_plain_char(
            #[trigger] s.drop_last()[i],
        ) by {
            assert(is_plain_char(s[i]));
        }
        lemma_plain_cleaned(s.drop_last());
        assert(is_plain_char(s[s.len() - 1]));
        assert(cleaned(s) =~= s);
    } else {
        assert(cleaned(s) =~= s);
    }
}

/// Whether no two underscores stand side by side.
spec fn single_underscores(s: Seq<char>) -> bool {
    forall|i: int| 0 < i < s.len() && #[trigger] s[i] == '_' ==> s[i - 1] != '_'
}

proof fn lemma_collapsed_stays(s: Seq<char>)
    requires
        single_underscores(s),
    ensures
        collapsed(s) == s,
    decreases s.len(),
{
    if s.len() > 0 {
        let d = s.drop_last();
        assert forall|i: int| 0 < i < d.len() && #[trigger] d[i] == '_' implies d[i - 1] != '_' by {
            assert(s[i] == '_');
        }
        lemma_collapsed_stays(d);
        assert(s[s.len() - 1] == s.last());
        assert(collapsed(s) =~= s);
    } else {
        assert(collapsed(s) =~= s);
    }
}

/// A text that is clean already, with letters at both ends, stays.
proof fn lemma_clean_stays(s: Seq<char>, raw: Seq<char>)
    requires
        cleaned(raw) == s,
        single_underscores(s),
        s.len() > 0,
        s[0] != '_',
        s.last() != '_',
        s.last() != '.',
        s.last() != ' ',
        !is_device_name(s),
        forall|i: int| 0 <= i < s.len() ==> #[trigger] s[i] != '.',
    ensures
        sanitized(raw) == s,
{
    lemma_collapsed_stays(s);
    assert(trimmed_end(s, CharClass::Underscore, s.len() as int) == s.len());
    assert(trimmed_start(s, CharClass::Underscore, 0) == 0);
    assert(trim(s, CharClass::Underscore) =~= s);
    assert(trimmed_end(s, CharClass::DotOrSpace, s.len() as int) == s.len());
    assert(trim_end(s, CharClass::DotOrSpace) =~= s);
    lemma_find_from(s, '.', 0);
    let dot = find_from(s, '.', 0);
    assert(dot == s.len());
    assert(s.take(dot) =~= s);
}

/// A text of letters, digits and hyphens makes a name as it is, unless it is the name
/// of a DOS device.
pub proof fn law_a_plain_text_is_a_name(text: &str, r: String)
    requires
        call_ensures(sanitize_for_filename, (text,), r),
        is_plain_text(text@),
        text@.len() > 0,
        !is_device_name(text@),
    ensures
        r@ == text@,
{
    let s = text@;
    lemma_plain_cleaned(s);
    assert(is_plain_char(s[0]) && is_plain_char(s[s.len() - 1]));
    assert forall|i: int| 0 <= i < s.len() implies #[trigger] s[i] != '.' && s[i] != '_' by {
        assert(is_plain_char(s[i]));
    }
    lemma_clean_stays(s, s);
}

/// A forbidden character between two plain texts becomes one underscore.
pub proof fn law_a_forbidden_character_becomes_an_underscore(
    a: Seq<char>,
    c: char,
    b: Seq<char>,
    text: &str,
    r: String,
)
    requires
        call_ensures(sanitize_for_filename, (text,), r),
        text@ == a + seq![c] + b,
        is_plain_text(a),
        is_plain_text(b),
        a.len() > 0,
        b.len() > 0,
        is_forbidden(c),
    ensures
        r@ == a + seq!['_'] + b,
{
    let s = a + seq!['_'] + b;
    lemma_plain_cleaned(a);
    lemma_plain_cleaned(b);
    assert(cleaned(seq![c]) =~= seq!['_']) by {
        assert(seq![c].drop_last() =~= Seq::<char>::empty());
        assert(cleaned(Seq::<char>::empty()) =~= Seq::<char>::empty());
    }
    lemma_cleaned_concat(a, seq![c]);
    lemma_cleaned_concat(a + seq![c], b);
    assert forall|i: int| 0 <= i < s.len() implies #[trigger] s[i] != '.' && (s[i] == '_'
        ==> i == a.len()) by {
        if i < a.len() {
            assert(is_plain_char(a[i]));
        } else if i > a.len() {
            assert(is_plain_char(b[i - a.len() - 1]));
        }
    }
    assert(s[0] == a[0] && is_plain_char(a[0]));
    assert(s.last() == b[b.len() - 1] && is_plain_char(b[b.len() - 1]));
    assert(!is_device_name(s)) by {
        let k = a.len() as int;
        assert(s[k] == '_');
        if s.len() == 4 && k < 3 {
            assert(s.take(3)[k] == '_');
        }
    }
    lemma_clean_stays(s, text@);
}

/// A control character, other than white space, goes without a trace.
pub proof fn law_a_control_character_goes(
    a: Seq<char>,
    c: char,
    b: Seq<char>,
    text: &str,
    r: String,
)
    requires
        call_ensures(sanitize_for_filename, (text,), r),
        text@ == a + seq![c] + b,
        is_plain_text(a),
        is_plain_text(b),
        a.len() > 0,
        !is_device_name(a + b),
        (c as u32) < 9 || (14 <= (c as u32) && (c as u32) < 32) || (c as u32) == 127,
    ensures
        r@ == a + b,
{
    let s = a + b;
    lemma_plain_cleaned(a);
    lemma_plain_cleaned(b);
    assert(cleaned(seq![c]) =~= Seq::<char>::empty()) by {
        assert(seq![c].drop_last() =~= Seq::<char>::empty());
        assert(cleaned(Seq::<char>::empty()) =~= Seq::<char>::empty());
    }
    lemma_cleaned_concat(a, seq![c]);
    lemma_cleaned_concat(a + seq![c], b);
    assert(cleaned(text@) =~= s);
    assert forall|i: int| 0 <= i < s.len() implies #[trigger] s[i] != '.' && s[i] != '_' && s[i]
        != ' ' by {
        if i < a.len() {
            assert(is_plain_char(a[i]));
        } else {
            assert(is_plain_char(b[i - a.len()]));
        }
    }
    assert(s.last() == s[s.len() - 1]);
    lemma_clean_stays(s, text@);
}

/// No name holds a forbidden character.
pub proof fn law_a_name_holds_nothing_forbidden(text: &str, r: String, i: int)
    requires
        call_ensures(sanitize_for_filename, (text,), r),
        0 <= i < r@.len(),
    ensures
        !is_forbidden(r@[i]),
{
    law_sanitized_is_a_name(text@);
}

/// Dots and spaces at the end of a component make no difference; one made of them
/// alone gives the fallback.
pub proof fn law_dots_at_the_end_go(
    s: &str,
    longer: &str,
    fallback: &str,
    c: char,
    r: String,
    q: String,
)
    requires
        call_ensures(windows_safe_component, (s, fallback), r),
        call_ensures(windows_safe_component, (longer, fallback), q),
        longer@ == s@.push(c),
        c == '.' || c == ' ',
    ensures
        q@ == r@,
        s@.len() == 0 ==> r@ == fallback@,
{
    lemma_trimmed_end_prefix(s@, longer@, s@.len() as int);
    assert(longer@[s@.len() as int] == c);
    assert(trim_end(longer@, CharClass::DotOrSpace) =~= trim_end(s@, CharClass::DotOrSpace));
}

proof fn lemma_trimmed_end_prefix(s: Seq<char>, t: Seq<char>, n: int)
    requires
        0 <= n <= s.len() <= t.len(),
        forall|k: int| 0 <= k < n ==> s[k] == t[k],
    ensures
        trimmed_end(s, CharClass::DotOrSpace, n) == trimmed_end(t, CharClass::DotOrSpace, n),
        0 <= trimmed_end(s, CharClass::DotOrSpace, n) <= n,
    decreases n,
{
    if n > 0 {
        lemma_trimmed_end_prefix(s, t, n - 1);
    }
}

/// A component without a dot that ends in no space stays as it is, but for the name of
/// a DOS device, which gets an underscore.
pub proof fn law_a_safe_component_stays(s: &str, fallback: &str, r: String)
    requires
        call_ensures(windows_safe_component, (s, fallback), r),
        s@.len() > 0,
        s@.last() != ' ',
        forall|i: int| 0 <= i < s@.len() ==> #[trigger] s@[i] != '.',
    ensures
        !is_device_name(s@) ==> r@ == s@,
        is_device_name(s@) ==> r@ == s@.push('_'),
{
    assert(s@[s@.len() - 1] != '.');
    assert(trimmed_end(s@, CharClass::DotOrSpace, s@.len() as int) == s@.len());
    assert(trim_end(s@, CharClass::DotOrSpace) =~= s@);
    lemma_find_from(s@, '.', 0);
    let dot = find_from(s@, '.', 0);
    assert(s@.take(dot) =~= s@);
    assert(s@ + seq!['_'] + s@.skip(dot) =~= s@.push('_'));
    assert(windows_safe(s@, fallback@) == r@);
}

proof fn lemma_last_dot_is_last(s: Seq<char>, n: int)
    requires
        0 <= n <= s.len(),
    ensures
        match last_dot(s, n) {
            Some(i) => {
                &&& 0 <= i < n
                &&& s[i] == '.'
                &&& forall|k: int| i < k < n ==> #[trigger] s[k] != '.'
            },
            None => forall|k: int| 0 <= k < n ==> #[trigger] s[k] != '.',
        },
    decreases n,
{
    if n > 0 && s[n - 1] != '.' {
        lemma_last_dot_is_last(s, n - 1);
    }
}

/// The stem and the extension make the name again; the extension holds no dot, the
/// stem is not empty, and a name that has a dot behind its first character has an
/// extension.
pub proof fn law_stem_and_extension_make_the_name(
    name: &str,
    stem: String,
    extension: Option<String>,
)
    requires
        call_ensures(split_extension, (name,), (stem, extension)),
    ensures
        extension matches Some(e) ==> {
            &&& name@ == stem@ + seq!['.'] + e@
            &&& stem@.len() > 0
            &&& forall|i: int| 0 <= i < e@.len() ==> #[trigger] e@[i] != '.'
        },
        extension is None ==> name@ == stem@ && forall|i: int|
            1 <= i < name@.len() ==> #[trigger] name@[i] != '.',
{
    let s = name@;
    lemma_last_dot_is_last(s, s.len() as int);
    if let Some(e) = extension {
        let i = last_dot(s, s.len() as int)->Some_0;
        assert(s =~= s.take(i) + seq!['.'] + s.skip(i + 1));
    }
}

/// A numbered path lies in the same directory, and its name has the number between
/// the stem and the extension.
pub proof fn law_a_number_goes_before_the_extension(
    path: &str,
    n: u32,
    host: Host,
    dir: Option<String>,
    name: Option<String>,
    file: &str,
    stem: String,
    extension: Option<String>,
    r: String,
)
    requires
        call_ensures(add_suffix, (path, n, host), r),
        call_ensures(host_parent_of, (path, host), dir),
        call_ensures(host_file_name_of, (path, host), name),
        name matches Some(f) && f@ == file@,
        call_ensures(split_extension, (file,), (stem, extension)),
        dir is Some,
    ensures
        extension matches Some(e) ==> r@ == host_joined(
            dir->Some_0@,
            stem@ + " ("@ + decimal(n as nat) + ")."@ + e@,
            host,
        ),
        extension is None ==> r@ == host_joined(
            dir->Some_0@,
            stem@ + " ("@ + decimal(n as nat) + ")."@ + "zip"@,
            host,
        ),
{
}

/// A scan root goes by the name of its directory, made fit for a name; the top of the
/// file system by `Root`.
pub proof fn law_a_root_goes_by_its_directory(
    path: &str,
    host: Host,
    name: Option<String>,
    file: &str,
    fit: String,
    r: String,
)
    requires
        call_ensures(root_base_name, (path, host), r),
        call_ensures(host_file_name_of, (path, host), name),
        name matches Some(f) ==> f@ == file@,
        call_ensures(sanitize_for_filename, (file,), fit),
    ensures
        name is Some ==> r@ == fit@,
        name is None ==> r@ == "Root"@,
{
}

/// Every path lies under itself, and what lies under a directory lies under every
/// directory that this one lies under.
pub proof fn law_lying_under_is_transitive(
    a: &str,
    b: &str,
    c: &str,
    host: Host,
    ab: bool,
    bc: bool,
    ac: bool,
    aa: bool,
)
    requires
        call_ensures(path_starts_with_fold, (a, b, host), ab),
        call_ensures(path_starts_with_fold, (b, c, host), bc),
        call_ensures(path_starts_with_fold, (a, c, host), ac),
        call_ensures(path_starts_with_fold, (a, a, host), aa),
    ensures
        aa,
        ab && bc ==> ac,
{
}

/// A path lies under a directory whose components it begins with, and under none that
/// has more components than it.
pub proof fn law_lying_under_goes_by_components(a: &str, b: &str, host: Host, r: bool)
    requires
        call_ensures(path_starts_with_fold, (a, b, host), r),
    ensures
        host_components(a@, host).len() < host_components(b@, host).len() ==> !r,
        ({
            let p = host_components(a@, host);
            let q = host_components(b@, host);
            p.len() >= q.len() && p.take(q.len() as int) == q
        }) ==> r,
        !host.folds() && r ==> host_components(a@, host).take(
            host_components(b@, host).len() as int,
        ) == host_components(b@, host),
{
    let p = host_components(a@, host);
    let q = host_components(b@, host);
    if p.len() >= q.len() && p.take(q.len() as int) == q {
        assert forall|k: int| 0 <= k < q.len() implies (#[trigger] p[k]) == q[k] by {
            assert(p.take(q.len() as int)[k] == p[k]);
        }
    }
    if !host.folds() && r {
        assert(p.take(q.len() as int) =~= q);
    }
}

/// A file that is zipped and restored is put back where it came from: the directory
/// that is found for it, and its path in the zip, make its old path again, up to the
/// spelling of separators.
pub proof fn law_zipping_and_restoring_keep_the_place(
    top: Seq<char>,
    cs: Seq<Seq<char>>,
    k: int,
    name: &str,
    root: &str,
    source: &str,
    zipped: &str,
    host: Host,
    place: String,
    dir: Option<String>,
    base: &str,
    back: String,
)
    requires
        are_plain_names(cs),
        host == Host::Windows ==> no_drives(cs),
        2 <= k < cs.len(),
        is_top(top, host),
        is_spelling(root@, top, cs, k, host),
        is_spelling(source@, top, cs, cs.len() as int, host),
        name@ == cs[k - 1],
        call_ensures(path_in_zip, (name, root, source, host), place),
        zipped@ == place@,
        call_ensures(original_parent_for_restore, (source, zipped), dir),
        dir matches Some(d) ==> base@ == d@,
        call_ensures(dest_under_root, (base, zipped, host), back),
    ensures
        dir is Some,
        slash_form(back@, host) == slash_form(source@, host),
        host != Host::Windows ==> back@ == source@,
{
    law_restore_puts_the_file_back(top, cs, k, root@, source@, host);
}

/// Whether the first ten characters of a time stamp take one byte each.
pub open spec fn begins_with_date(stamp: Seq<char>) -> bool {
    stamp.len() >= 10 && forall|i: int| 0 <= i < 10 ==> (#[trigger] stamp[i] as u32) < 128
}

proof fn lemma_date_end(stamp: Seq<char>, i: int)
    requires
        begins_with_date(stamp),
        0 <= i <= 10,
    ensures
        bytes_end(stamp, i, 10 - i) == Some(10int),
    decreases 10 - i,
{
    if i < 10 {
        lemma_date_end(stamp, i + 1);
        assert((stamp[i] as u32) < 128);
    }
}

/// The zip of a calibration set lies in a directory of its camera, below one of its
/// date: the first ten characters of the time at which the set begins.
pub proof fn law_calibration_directory_is_of_camera_and_date(
    camera: Option<&str>,
    stamp: &str,
    date: &str,
    host: Host,
    c: String,
    d: String,
    r: String,
)
    requires
        call_ensures(calibration_zip_dir, (camera, stamp, host), r),
        is_fit(camera, c),
        begins_with_date(stamp@),
        date@ == stamp@.take(10),
        call_ensures(sanitize_for_filename, (date,), d),
    ensures
        r@ == host_joined(
            host_joined("Calibration_Archive"@, part(camera, c, "UnknownCamera"@), host),
            part(Some(date), d, "unknown-date"@),
            host,
        ),
{
    lemma_date_end(stamp@, 0);
}

/// The name of the zip of a calibration set is made of the camera, the type, the gain
/// and the exposure time where they are known, and the two dates, in this order.
pub proof fn law_calibration_zip_name_tells_what_is_in_it(
    camera: Option<&str>,
    kind: &str,
    gain: Option<i64>,
    exposure: Option<&str>,
    start: &str,
    end: &str,
    first: &str,
    last: &str,
    c: String,
    k: String,
    f: String,
    l: String,
    r: String,
)
    requires
        call_ensures(calibration_zip_filename, (camera, kind, gain, exposure, start, end), r),
        is_fit(camera, c),
        call_ensures(sanitize_for_filename, (kind,), k),
        begins_with_date(start@),
        begins_with_date(end@),
        first@ == start@.take(10),
        last@ == end@.take(10),
        call_ensures(sanitize_for_filename, (first,), f),
        call_ensures(sanitize_for_filename, (last,), l),
    ensures
        ({
            let g = match gain {
                Some(n) => "_g"@ + signed_decimal(n as int),
                None => Seq::empty(),
            };
            let e = match exposure {
                Some(t) => "_"@ + t@ + "s"@,
                None => Seq::empty(),
            };
            r@ == part(camera, c, "UnknownCamera"@) + "_"@ + k@ + g + e + "_"@ + part(
                Some(first),
                f,
                "x"@,
            ) + "_"@ + part(Some(last), l, "x"@) + ".zip"@
        }),
{
    lemma_date_end(start@, 0);
    lemma_date_end(end@, 0);
}

/// Each role goes by its own word, in the names of zips as on record, and a light goes
/// before a flat, a flat before a dark flat, a dark flat before a dark and a dark
/// before a bias.
pub proof fn law_roles_have_their_words(
    role: FrameRole,
    word: &'static str,
    a: FrameRole,
    b: FrameRole,
    pa: u8,
    pb: u8,
)
    requires
        call_ensures(FrameRole::as_str, (&role,), word),
        call_ensures(FrameRole::priority, (&a,), pa),
        call_ensures(FrameRole::priority, (&b,), pb),
    ensures
        role is Light ==> word@ == "light"@,
        role is Flat ==> word@ == "flat"@,
        role is Dark ==> word@ == "dark"@,
        role is Bias ==> word@ == "bias"@,
        role is Darkflat ==> word@ == "darkflat"@,
        a is Light && b is Flat ==> pa < pb,
        a is Flat && b is Darkflat ==> pa < pb,
        a is Darkflat && b is Dark ==> pa < pb,
        a is Dark && b is Bias ==> pa < pb,
        a == b ==> pa == pb,
{
}

} // verus!
