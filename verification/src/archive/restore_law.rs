//! Restoring undoes archiving: from a path in a zip and the path that a file
//! came from, the place of the scan root is found again.

use crate::archive::path_layout::{
    filled, in_zip, last_separator, levels_up, original_parent, remainder, slashed, under_dir,
};
use crate::host_paths::{
    body, capital, has_drive, host_components, host_joined, lead, lead_len,
    lemma_joined_opened, lemma_plain_host, slash_form, Host,
};
use crate::paths::{
    components, joined, lemma_components_push, lemma_spans_push, lemma_spans_slash, spans,
    spans_from, tail,
};
use crate::text::{lemma_find_is, lemma_pieces_behind, pieces, trimmed_end, CharClass};
use vstd::prelude::*;

verus! {

/// Whether `c` is a plain name: without separators, and no `.`.
pub open spec fn is_plain_name(c: Seq<char>) -> bool {
    &&& c.len() > 0
    &&& c != seq!['.']
    &&& forall|k: int| 0 <= k < c.len() ==> !CharClass::Separator.has(#[trigger] c[k])
}

/// Whether all are plain names.
pub open spec fn are_plain_names(cs: Seq<Seq<char>>) -> bool {
    forall|i: int| 0 <= i < cs.len() ==> is_plain_name(#[trigger] cs[i])
}

/// The absolute path of the first `n` names.
pub open spec fn absolute(cs: Seq<Seq<char>>, n: int) -> Seq<char>
    decreases n,
{
    if n <= 0 {
        Seq::empty()
    } else {
        absolute(cs, n - 1) + seq!['/'] + cs[n - 1]
    }
}

/// Where the names stand in an absolute path.
spec fn name_spans(cs: Seq<Seq<char>>, n: int) -> Seq<(int, int)> {
    seq![(0int, 1int)] + Seq::new(
        n as nat,
        |k: int| (absolute(cs, k).len() as int + 1, absolute(cs, k + 1).len() as int),
    )
}

proof fn lemma_no_slash(c: Seq<char>)
    requires
        is_plain_name(c),
    ensures
        forall|k: int| 0 <= k < c.len() ==> #[trigger] c[k] != '/' && c[k] != '\\',
{
    assert forall|k: int| 0 <= k < c.len() implies #[trigger] c[k] != '/' && c[k] != '\\' by {
        assert(!CharClass::Separator.has(c[k]));
    }
}

proof fn lemma_absolute_shape(cs: Seq<Seq<char>>, n: int)
    requires
        are_plain_names(cs),
        1 <= n <= cs.len(),
    ensures
        absolute(cs, n).len() > absolute(cs, n - 1).len() + 1,
        absolute(cs, n)[0] == '/',
        !CharClass::Separator.has(absolute(cs, n).last()),
        absolute(cs, n)[absolute(cs, n - 1).len() as int] == '/',
    decreases n,
{
    let c = cs[n - 1];
    assert(is_plain_name(c));
    if n > 1 {
        lemma_absolute_shape(cs, n - 1);
        assert(absolute(cs, n)[0] == absolute(cs, n - 1)[0]);
    } else {
        assert(absolute(cs, 0).len() == 0);
    }
    assert(absolute(cs, n).last() == c[c.len() - 1]);
}

proof fn lemma_absolute_spans(cs: Seq<Seq<char>>, n: int)
    requires
        are_plain_names(cs),
        1 <= n <= cs.len(),
    ensures
        spans(absolute(cs, n)) == name_spans(cs, n),
        components(absolute(cs, n)) == seq![seq!['/']] + cs.take(n),
    decreases n,
{
    let c = cs[n - 1];
    assert(is_plain_name(c));
    lemma_no_slash(c);
    lemma_absolute_shape(cs, n);
    let before = absolute(cs, n - 1);
    let h = before.push('/');
    let whole = absolute(cs, n);
    assert(whole =~= h + c);
    if n == 1 {
        assert(h =~= seq!['/']);
        assert(spans_from(h, 1) =~= Seq::<(int, int)>::empty());
        lemma_spans_push(h, c, 1);
        assert(spans(whole) =~= name_spans(cs, 1));
        let root = seq!['/'];
        assert(spans(root) =~= seq![(0int, 1int)]);
        assert(components(root)[0] =~= root);
        assert(components(root) =~= seq![root]);
        assert(joined(root, c) =~= whole);
        lemma_components_push(root, c);
        assert(components(root).push(c) =~= seq![seq!['/']] + cs.take(1));
    } else {
        lemma_absolute_spans(cs, n - 1);
        lemma_absolute_shape(cs, n - 1);
        lemma_spans_slash(before, 1);
        lemma_spans_push(h, c, 1);
        assert(h[0] == '/');
        assert(spans(whole) =~= spans(before).push((h.len() as int, whole.len() as int)));
        assert(spans(whole) =~= name_spans(cs, n));
        assert(before.last() != '/');
        assert(joined(before, c) =~= whole);
        lemma_components_push(before, c);
        assert(components(before).push(c) =~= seq![seq!['/']] + cs.take(n));
    }
}

proof fn lemma_absolute_prefix(cs: Seq<Seq<char>>, m: int, n: int)
    requires
        0 <= m <= n,
    ensures
        absolute(cs, m).len() <= absolute(cs, n).len(),
        absolute(cs, n).take(absolute(cs, m).len() as int) == absolute(cs, m),
    decreases n - m,
{
    if m < n {
        lemma_absolute_prefix(cs, m, n - 1);
        assert(absolute(cs, n).take(absolute(cs, m).len() as int) =~= absolute(cs, n - 1).take(
            absolute(cs, m).len() as int,
        ));
    } else {
        assert(absolute(cs, n).take(absolute(cs, m).len() as int) =~= absolute(cs, m));
    }
}

/// What lies behind the first `r` names, put behind the name of the root.
spec fn behind(name: Seq<char>, cs: Seq<Seq<char>>, r: int, n: int) -> Seq<char>
    decreases n - r,
{
    if n <= r {
        name
    } else {
        behind(name, cs, r, n - 1) + seq!['/'] + cs[n - 1]
    }
}

proof fn lemma_behind(name: Seq<char>, cs: Seq<Seq<char>>, r: int, n: int)
    requires
        0 <= r <= n,
    ensures
        behind(name, cs, r, n) == name + absolute(cs, n).skip(absolute(cs, r).len() as int),
    decreases n - r,
{
    lemma_absolute_prefix(cs, r, n);
    if r < n {
        lemma_behind(name, cs, r, n - 1);
        lemma_absolute_prefix(cs, r, n - 1);
        assert(behind(name, cs, r, n) =~= name + absolute(cs, n).skip(
            absolute(cs, r).len() as int,
        ));
    } else {
        assert(absolute(cs, n).skip(absolute(cs, r).len() as int) =~= Seq::<char>::empty());
        assert(behind(name, cs, r, n) =~= name + Seq::<char>::empty());
    }
}

proof fn lemma_behind_pieces(name: Seq<char>, cs: Seq<Seq<char>>, r: int, n: int)
    requires
        0 <= r <= n <= cs.len(),
        are_plain_names(cs),
        is_plain_name(name),
    ensures
        pieces(behind(name, cs, r, n), '/') == seq![name] + cs.subrange(r, n),
        filled(pieces(behind(name, cs, r, n), '/'), n - r + 1) == n - r + 1,
        forall|k: int|
            0 <= k < behind(name, cs, r, n).len() ==> #[trigger] behind(name, cs, r, n)[k] != '\\',
    decreases n - r,
{
    let z = behind(name, cs, r, n);
    if r == n {
        lemma_no_slash(name);
        lemma_find_is(name, '/', 0, name.len() as int);
        assert(name.subrange(0, name.len() as int) =~= name);
        assert(pieces(name, '/') =~= seq![name] + cs.subrange(r, n));
        assert(seq![name] + cs.subrange(r, n) =~= seq![name]);
        assert(filled(seq![name], 0) == 0);
        assert(filled(seq![name], 1) == 1);
    } else {
        let c = cs[n - 1];
        assert(is_plain_name(c));
        lemma_no_slash(c);
        lemma_behind_pieces(name, cs, r, n - 1);
        let y = behind(name, cs, r, n - 1);
        lemma_pieces_behind(y, c, '/', 0);
        let ps = pieces(y, '/');
        assert(pieces(z, '/') == ps.push(c));
        assert(ps.push(c) =~= seq![name] + cs.subrange(r, n));
        lemma_filled_push(ps, c, ps.len() as int);
        assert(filled(ps.push(c), n - r + 1) == filled(ps.push(c), n - r) + 1);
        assert forall|k: int| 0 <= k < z.len() implies #[trigger] z[k] != '\\' by {
            if k < y.len() {
                assert(z[k] == y[k]);
            } else if k > y.len() {
                assert(z[k] == c[k - y.len() - 1]);
            }
        }
    }
}

proof fn lemma_filled_push(ps: Seq<Seq<char>>, c: Seq<char>, n: int)
    requires
        0 <= n <= ps.len(),
    ensures
        filled(ps.push(c), n) == filled(ps, n),
    decreases n,
{
    if n > 0 {
        lemma_filled_push(ps, c, n - 1);
    }
}

proof fn lemma_last_separator(s: Seq<char>, end: int, i: int)
    requires
        0 <= i < end <= s.len(),
        CharClass::Separator.has(s[i]),
        forall|k: int| i < k < end ==> !CharClass::Separator.has(#[trigger] s[k]),
    ensures
        last_separator(s, end) == Some(i),
    decreases end,
{
    if i < end - 1 {
        assert(!CharClass::Separator.has(s[end - 1]));
        lemma_last_separator(s, end - 1, i);
    }
}

/// Whether a path can begin with `top` on a host: with nothing, or on Windows
/// with a drive.
pub open spec fn is_top(top: Seq<char>, host: Host) -> bool {
    top.len() == 0 || (host == Host::Windows && top.len() == 2 && has_drive(top))
}

/// Whether `p` is a spelling of the absolute path of the first `n` names below
/// `top`: it is that path up to the separators that the host takes for slashes.
pub open spec fn is_spelling(
    p: Seq<char>,
    top: Seq<char>,
    cs: Seq<Seq<char>>,
    n: int,
    host: Host,
) -> bool {
    slash_form(p, host) == top + absolute(cs, n)
}

proof fn lemma_spelled_char(
    p: Seq<char>,
    top: Seq<char>,
    cs: Seq<Seq<char>>,
    n: int,
    host: Host,
    k: int,
)
    requires
        are_plain_names(cs),
        0 <= n <= cs.len(),
        is_spelling(p, top, cs, n, host),
        0 <= k < absolute(cs, n).len(),
    ensures
        p.len() == top.len() + absolute(cs, n).len(),
        CharClass::Separator.has(p[top.len() + k]) == (absolute(cs, n)[k] == '/'),
{
    lemma_absolute_chars(cs, n);
    let t = slash_form(p, host);
    let i = top.len() + k;
    assert(t.len() == p.len());
    assert(t[i] == absolute(cs, n)[k]);
    assert(absolute(cs, n)[k] != '\\');
}

proof fn lemma_levels_up(
    p: Seq<char>,
    top: Seq<char>,
    cs: Seq<Seq<char>>,
    n: int,
    host: Host,
    k: int,
    m: nat,
)
    requires
        are_plain_names(cs),
        is_spelling(p, top, cs, n, host),
        0 <= m <= k <= n <= cs.len(),
    ensures
        levels_up(p, (top.len() + absolute(cs, k).len()) as int, m) == Some(
            (top.len() + absolute(cs, k - m).len()) as int,
        ),
    decreases m,
{
    if m > 0 {
        let s = absolute(cs, n);
        let d = top.len() as int;
        let i = absolute(cs, k - 1).len() as int;
        let end = absolute(cs, k).len() as int;
        lemma_absolute_shape(cs, k);
        lemma_absolute_prefix(cs, k, n);
        let c = cs[k - 1];
        assert(is_plain_name(c));
        lemma_no_slash(c);
        assert(s[i] == s.take(end)[i]);
        lemma_spelled_char(p, top, cs, n, host, i);
        assert forall|j: int| d + i < j < d + end implies !CharClass::Separator.has(
            #[trigger] p[j],
        ) by {
            lemma_spelled_char(p, top, cs, n, host, j - d);
            assert(s[j - d] == s.take(end)[j - d]);
            assert(absolute(cs, k)[j - d] == c[j - d - i - 1]);
        }
        lemma_last_separator(p, d + end, d + i);
        lemma_levels_up(p, top, cs, n, host, k - 1, (m - 1) as nat);
    }
}

/// How a host reads a spelling of an absolute path of plain names.
proof fn lemma_reads(p: Seq<char>, top: Seq<char>, cs: Seq<Seq<char>>, n: int, host: Host)
    requires
        are_plain_names(cs),
        1 <= n <= cs.len(),
        is_top(top, host),
        is_spelling(p, top, cs, n, host),
    ensures
        p.len() == top.len() + absolute(cs, n).len(),
        lead_len(p, host) == top.len(),
        body(p, host) == absolute(cs, n),
        top.len() > 0 ==> lead(p, host) == seq![capital(top[0]), ':'],
{
    let path = absolute(cs, n);
    let t = slash_form(p, host);
    lemma_absolute_shape(cs, n);
    lemma_absolute_shape(cs, 1);
    lemma_absolute_prefix(cs, 1, n);
    assert(t.len() == p.len());
    let c = cs[0];
    assert(is_plain_name(c));
    lemma_no_slash(c);
    assert(absolute(cs, 1)[1] == c[0]);
    assert(path.take(absolute(cs, 1).len() as int)[1] == path[1]);
    if top.len() > 0 {
        assert(t[0] == top[0]);
        assert(t[1] == top[1]);
        assert(has_drive(p));
        assert(t.skip(2) =~= path);
    } else {
        assert(t =~= path);
        assert(t[0] == '/');
        assert(t[1] != '/');
        assert(!has_drive(p));
        assert(t.skip(0) =~= path);
    }
}

/// What is left of a file's path behind its scan root.
proof fn lemma_remainder(
    top: Seq<char>,
    cs: Seq<Seq<char>>,
    r: int,
    root: Seq<char>,
    source: Seq<char>,
    host: Host,
)
    requires
        are_plain_names(cs),
        1 <= r < cs.len(),
        is_top(top, host),
        is_spelling(root, top, cs, r, host),
        is_spelling(source, top, cs, cs.len() as int, host),
    ensures
        remainder(source, root, host) == Some(tail(absolute(cs, cs.len() as int), r + 1)),
{
    let n = cs.len() as int;
    lemma_absolute_spans(cs, n);
    lemma_absolute_spans(cs, r);
    lemma_reads(source, top, cs, n, host);
    lemma_reads(root, top, cs, r, host);
    let s = host_components(source, host);
    let q = host_components(root, host);
    let all = seq![seq!['/']] + cs.take(n);
    let some = seq![seq!['/']] + cs.take(r);
    assert(all.take(r + 1) =~= some);
    if top.len() > 0 {
        let l = seq![seq![capital(top[0]), ':']];
        assert(s == l + all);
        assert(q == l + some);
        assert forall|k: int| 0 <= k < q.len() implies (#[trigger] s[k]) == q[k] by {
            if k > 0 {
                assert(s[k] == all[k - 1]);
                assert(q[k] == some[k - 1]);
                assert(all.take(r + 1)[k - 1] == all[k - 1]);
            }
        }
    } else {
        assert(s == all);
        assert(q == some);
        assert forall|k: int| 0 <= k < q.len() implies (#[trigger] s[k]) == q[k] by {
            assert(all.take(r + 1)[k] == all[k]);
        }
    }
}

/// What is left of an absolute path behind its first `r` names.
proof fn lemma_rest(cs: Seq<Seq<char>>, r: int)
    requires
        are_plain_names(cs),
        1 <= r < cs.len(),
    ensures
        ({
            let path = absolute(cs, cs.len() as int);
            let off = absolute(cs, r).len() as int;
            let rest = tail(path, r + 1);
            &&& path.skip(off) == seq!['/'] + rest
            &&& rest.len() > 0
            &&& rest[0] == cs[r][0]
            &&& has_drive(rest) ==> has_drive(cs[r])
        }),
{
    let n = cs.len() as int;
    let path = absolute(cs, n);
    let rest = tail(path, r + 1);
    let at = name_spans(cs, n);
    let off = absolute(cs, r).len() as int;
    let next = absolute(cs, r + 1);
    lemma_absolute_spans(cs, n);
    assert(at[r + 1].0 == off + 1);
    assert(at.last().1 == path.len());
    lemma_absolute_prefix(cs, r, n);
    lemma_absolute_prefix(cs, r + 1, n);
    lemma_absolute_shape(cs, r + 1);
    assert(path[off] == '/') by {
        assert(path.take(next.len() as int)[off] == path[off]);
    }
    assert(rest =~= path.subrange(off + 1, path.len() as int));
    let c = cs[r];
    assert(is_plain_name(c));
    lemma_no_slash(c);
    assert(rest[0] == c[0]) by {
        assert(path.take(next.len() as int)[off + 1] == path[off + 1]);
        assert(next[off + 1] == c[0]);
    }
    assert(path.skip(off) =~= seq!['/'] + rest);
    if has_drive(rest) {
        assert(rest[1] == path[off + 2]);
        if c.len() > 1 {
            assert(path.take(next.len() as int)[off + 2] == path[off + 2]);
            assert(next[off + 2] == c[1]);
        } else {
            assert(rest.len() > 1);
            assert(next.len() == off + 2);
            assert(r + 1 < n);
            lemma_absolute_shape(cs, r + 2);
            lemma_absolute_prefix(cs, r + 2, n);
            assert(path.take(absolute(cs, r + 2).len() as int)[off + 2] == path[off + 2]);
        }
    }
}

/// The path in the zip of a file below a scan root: the name of the root, and
/// behind it the names below the root.
proof fn lemma_in_zip(
    root_name: Seq<char>,
    top: Seq<char>,
    cs: Seq<Seq<char>>,
    r: int,
    root: Seq<char>,
    source: Seq<char>,
    host: Host,
)
    requires
        are_plain_names(cs),
        is_plain_name(root_name),
        1 <= r < cs.len(),
        host == Host::Windows ==> !has_drive(cs[r]) && !has_drive(root_name),
        is_top(top, host),
        is_spelling(root, top, cs, r, host),
        is_spelling(source, top, cs, cs.len() as int, host),
    ensures
        in_zip(root_name, root, source, host) == behind(root_name, cs, r, cs.len() as int),
{
    let n = cs.len() as int;
    let rest = tail(absolute(cs, n), r + 1);
    lemma_remainder(top, cs, r, root, source, host);
    lemma_rest(cs, r);
    let c = cs[r];
    assert(is_plain_name(c));
    lemma_no_slash(c);
    lemma_no_slash(root_name);
    assert(rest[0] != '/' && rest[0] != '\\');
    let end = root_name[root_name.len() - 1];
    assert(end != '/' && end != '\\');
    let y = host_joined(root_name, rest, host);
    lemma_joined_opened(root_name, rest, host);
    assert(y == root_name.push('/') + rest || y == root_name.push('\\') + rest);
    lemma_behind(root_name, cs, r, n);
    lemma_behind_pieces(root_name, cs, r, n);
    let z = behind(root_name, cs, r, n);
    assert(z =~= root_name.push('/') + rest);
    assert forall|k: int| 0 <= k < z.len() implies slashed(y)[k] == z[k] by {
        assert(z[k] != '\\');
    }
    assert(slashed(y) =~= z);
}

proof fn lemma_absolute_chars(cs: Seq<Seq<char>>, n: int)
    requires
        are_plain_names(cs),
        0 <= n <= cs.len(),
    ensures
        forall|k: int| 0 <= k < absolute(cs, n).len() ==> #[trigger] absolute(cs, n)[k] != '\\',
    decreases n,
{
    if n > 0 {
        lemma_absolute_chars(cs, n - 1);
        let before = absolute(cs, n - 1);
        let now = absolute(cs, n);
        let c = cs[n - 1];
        assert(is_plain_name(c));
        lemma_no_slash(c);
        assert forall|k: int| 0 <= k < now.len() implies #[trigger] now[k] != '\\' by {
            if k < before.len() {
                assert(now[k] == before[k]);
            } else if k > before.len() {
                assert(now[k] == c[k - before.len() - 1]);
            }
        }
    }
}

/// Where the path of a file ends once as many levels are taken off as its path in
/// the zip has.
#[verifier::rlimit(40)]
proof fn lemma_parent_end(
    top: Seq<char>,
    cs: Seq<Seq<char>>,
    r: int,
    source: Seq<char>,
    host: Host,
)
    requires
        are_plain_names(cs),
        1 <= r < cs.len(),
        is_top(top, host),
        is_spelling(source, top, cs, cs.len() as int, host),
    ensures
        ({
            let end = (top.len() + absolute(cs, r - 1).len()) as int;
            &&& trimmed_end(source, CharClass::Separator, source.len() as int) == source.len()
            &&& levels_up(source, source.len() as int, (cs.len() - r + 1) as nat) == Some(end)
            &&& trimmed_end(source, CharClass::Separator, end) == end
            &&& r == 1 ==> last_separator(source, end) is None
            &&& r > 1 ==> end > 0 && last_separator(source, end) is Some
        }),
{
    let n = cs.len() as int;
    let path = absolute(cs, n);
    let d = top.len() as int;
    lemma_absolute_shape(cs, n);
    lemma_reads(source, top, cs, n, host);
    let m = (n - r + 1) as nat;
    lemma_spelled_char(source, top, cs, n, host, path.len() - 1);
    assert(trimmed_end(source, CharClass::Separator, source.len() as int) == source.len());
    lemma_levels_up(source, top, cs, n, host, n, m);
    let end = d + absolute(cs, r - 1).len();
    if r == 1 {
        assert(end == d);
        lemma_top_has_no_separator(source, top, cs, n, host);
        assert(trimmed_end(source, CharClass::Separator, d) == d);
    } else {
        let k = absolute(cs, r - 1).len() - 1;
        lemma_absolute_shape(cs, r - 1);
        lemma_absolute_prefix(cs, r - 1, n);
        assert(path[k] == absolute(cs, r - 1).last()) by {
            assert(path.take(k + 1)[k] == path[k]);
        }
        lemma_spelled_char(source, top, cs, n, host, k);
        assert(trimmed_end(source, CharClass::Separator, end as int) == end);
        assert(last_separator(source, end as int) is Some) by {
            lemma_levels_up(source, top, cs, n, host, r - 1, 1);
        }
    }
}

/// Restoring finds the place of the scan root again. For a file below a scan
/// root, both with plain names, below the top or on a drive, the path that the
/// file gets in the zip and the path that it came from give the directory that
/// the scan root stands in, spelled as it was; none where the root stands at the
/// very top, for there is no such directory.
pub proof fn law_restore_finds_the_scan_root(
    root_name: Seq<char>,
    top: Seq<char>,
    cs: Seq<Seq<char>>,
    r: int,
    root: Seq<char>,
    source: Seq<char>,
    host: Host,
)
    requires
        are_plain_names(cs),
        is_plain_name(root_name),
        1 <= r < cs.len(),
        host == Host::Windows ==> !has_drive(cs[r]) && !has_drive(root_name),
        is_top(top, host),
        is_spelling(root, top, cs, r, host),
        is_spelling(source, top, cs, cs.len() as int, host),
    ensures
        original_parent(source, in_zip(root_name, root, source, host)) == if r == 1 {
            None
        } else {
            Some(source.take((top.len() + absolute(cs, r - 1).len()) as int))
        },
{
    let n = cs.len() as int;
    lemma_in_zip(root_name, top, cs, r, root, source, host);
    lemma_behind_pieces(root_name, cs, r, n);
    lemma_parent_end(top, cs, r, source, host);
}

proof fn lemma_top_has_no_separator(
    p: Seq<char>,
    top: Seq<char>,
    cs: Seq<Seq<char>>,
    n: int,
    host: Host,
)
    requires
        is_top(top, host),
        is_spelling(p, top, cs, n, host),
    ensures
        top.len() <= p.len(),
        forall|k: int| 0 <= k < top.len() ==> !CharClass::Separator.has(#[trigger] p[k]),
        last_separator(p, top.len() as int) is None,
{
    let t = slash_form(p, host);
    assert(t.len() == p.len());
    assert forall|k: int| 0 <= k < top.len() implies !CharClass::Separator.has(
        #[trigger] p[k],
    ) by {
        assert(t[k] == top[k]);
        assert(k == 0 || k == 1);
    }
    reveal_with_fuel(last_separator, 3);
}

/// Whether none of the names begins with a drive.
pub open spec fn no_drives(cs: Seq<Seq<char>>) -> bool {
    forall|i: int| 0 <= i < cs.len() ==> !has_drive(#[trigger] cs[i])
}

proof fn lemma_under_dir(
    dir: Seq<char>,
    top: Seq<char>,
    cs: Seq<Seq<char>>,
    r: int,
    n: int,
    host: Host,
    k: int,
)
    requires
        are_plain_names(cs),
        host == Host::Windows ==> no_drives(cs),
        2 <= r <= n <= cs.len(),
        0 <= k <= n - r + 1,
        is_top(top, host),
        is_spelling(dir, top, cs, r - 1, host),
    ensures
        ({
            let ps = seq![cs[r - 1]] + cs.subrange(r, n);
            is_spelling(under_dir(dir, ps, host, k), top, cs, r - 1 + k, host)
        }),
    decreases k,
{
    let ps = seq![cs[r - 1]] + cs.subrange(r, n);
    if k > 0 {
        lemma_under_dir(dir, top, cs, r, n, host, k - 1);
        let at = r - 2 + k;
        let c = cs[at];
        assert(ps[k - 1] == c);
        assert(is_plain_name(c));
        lemma_no_slash(c);
        let base = under_dir(dir, ps, host, k - 1);
        lemma_reads(base, top, cs, at, host);
        lemma_absolute_shape(cs, at);
        lemma_spelled_char(base, top, cs, at, host, absolute(cs, at).len() - 1);
        assert(!CharClass::Separator.has(base.last()));
        assert(!host.separates(base.last()));
        assert(!host.separates(c[0]));
        if host == Host::Windows {
            assert(!has_drive(cs[at]));
        }
        lemma_joined_opened(base, c, host);
        let p = host_joined(base, c, host);
        assert(base.len() > 2 || top.len() == 0);
        if has_drive(base) && base.len() == 2 {
            assert(slash_form(base, host)[0] == absolute(cs, at)[0]);
        }
        assert(p == base.push('/') + c || p == base.push('\\') + c);
        assert(slash_form(p, host) =~= slash_form(base, host) + seq!['/'] + c);
        assert(absolute(cs, at + 1) == absolute(cs, at) + seq!['/'] + c);
        assert(slash_form(p, host) =~= top + absolute(cs, at + 1));
    }
}

/// Restoring puts a file back where it came from. For a file below a scan root
/// with plain names, below the top or on a drive, whose name in the zip is the
/// root's own, the directory that the root stands in and the path in the zip make
/// the path that the file came from, up to the spelling of separators.
pub proof fn law_restore_puts_the_file_back(
    top: Seq<char>,
    cs: Seq<Seq<char>>,
    r: int,
    root: Seq<char>,
    source: Seq<char>,
    host: Host,
)
    requires
        are_plain_names(cs),
        host == Host::Windows ==> no_drives(cs),
        2 <= r < cs.len(),
        is_top(top, host),
        is_spelling(root, top, cs, r, host),
        is_spelling(source, top, cs, cs.len() as int, host),
    ensures
        ({
            let zipped = in_zip(cs[r - 1], root, source, host);
            let ps = pieces(zipped, '/');
            let dir = original_parent(source, zipped);
            let back = under_dir(dir->0, ps, host, ps.len() as int);
            &&& dir is Some
            &&& slash_form(back, host) == slash_form(source, host)
            &&& host != Host::Windows ==> back == source
        }),
{
    let n = cs.len() as int;
    assert(is_plain_name(cs[r - 1]));
    if host == Host::Windows {
        assert(!has_drive(cs[r]));
        assert(!has_drive(cs[r - 1]));
    }
    lemma_in_zip(cs[r - 1], top, cs, r, root, source, host);
    lemma_behind_pieces(cs[r - 1], cs, r, n);
    law_restore_finds_the_scan_root(cs[r - 1], top, cs, r, root, source, host);
    let end = (top.len() + absolute(cs, r - 1).len()) as int;
    let dir = source.take(end);
    lemma_absolute_prefix(cs, r - 1, n);
    lemma_reads(source, top, cs, n, host);
    assert(slash_form(dir, host) =~= slash_form(source, host).take(end));
    assert((top + absolute(cs, n)).take(end) =~= top + absolute(cs, n).take(
        absolute(cs, r - 1).len() as int,
    ));
    lemma_under_dir(dir, top, cs, r, n, host, n - r + 1);
    if host != Host::Windows {
        let ps = seq![cs[r - 1]] + cs.subrange(r, n);
        let back = under_dir(dir, ps, host, n - r + 1);
        lemma_plain_host(back, host);
        lemma_plain_host(source, host);
    }
}

} // verus!
