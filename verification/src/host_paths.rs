//! Paths as the host reads them.
//!
//! On Linux and macOS a path is separated at slashes alone. On Windows it is
//! separated at backslashes as well, and it can begin with a drive, `C:`, or
//! with a share, `\\server\share`. A path in verbatim form, `\\?\`, is read like
//! one of a share.

use crate::paths::{
    components, file_name, file_name_of, is_entry_name, join_paths, joined,
    law_joined_name_is_last, lemma_component, lemma_spans_ordered, parent, parent_of, spans,
    spans_from, spans_ordered, tail, Parts,
};
use crate::text::{
    chars_of, find_char, find_from, lemma_find_from, lemma_find_is, slice_text, text_of,
};
use vstd::prelude::*;
use vstd::string::*;

verus! {

/// The system that paths belong to.
#[derive(Debug, Clone, Copy, PartialEq, Eq, Structural)]
pub enum Host {
    Linux,
    MacOs,
    Windows,
}

impl Host {
    /// Whether the host takes names that differ only in case for one.
    pub open spec fn folds(self) -> bool {
        self != Host::Linux
    }

    /// Whether the host takes names that differ only in case for one.
    pub fn folds_case(self) -> (r: bool)
        ensures
            r == self.folds(),
    {
        self != Host::Linux
    }

    /// Whether a path of the host is separated at a character.
    pub open spec fn separates(self, c: char) -> bool {
        c == '/' || (self == Host::Windows && c == '\\')
    }

    /// Whether a path of the host is separated at a character.
    pub fn is_separator(self, c: char) -> (r: bool)
        ensures
            r == self.separates(c),
    {
        c == '/' || (self == Host::Windows && c == '\\')
    }
}

/// A path with a slash for each separator.
pub open spec fn slash_form(p: Seq<char>, host: Host) -> Seq<char> {
    Seq::new(
        p.len(),
        |i: int|
            if host.separates(p[i]) {
                '/'
            } else {
                p[i]
            },
    )
}

/// Whether a character is a letter from A to Z.
pub open spec fn is_letter(c: char) -> bool {
    ('a' <= c <= 'z') || ('A' <= c <= 'Z')
}

/// Whether a text begins with a drive.
pub open spec fn has_drive(s: Seq<char>) -> bool {
    s.len() >= 2 && is_letter(s[0]) && s[1] == ':'
}

/// How long the share is that a path with slashes begins with: behind two
/// slashes a server and the name of a share, neither of them empty.
pub open spec fn share_len(s: Seq<char>) -> int {
    if s.len() >= 2 && s[0] == '/' && s[1] == '/' {
        let i = find_from(s, '/', 2);
        if i == 2 || i >= s.len() {
            0
        } else {
            let j = find_from(s, '/', i + 1);
            if j == i + 1 {
                0
            } else {
                j
            }
        }
    } else {
        0
    }
}

/// How long the drive or the share is that a path begins with.
pub open spec fn lead_len(p: Seq<char>, host: Host) -> int {
    if host == Host::Windows {
        if has_drive(p) {
            2
        } else {
            share_len(slash_form(p, host))
        }
    } else {
        0
    }
}

/// A letter from A to Z as a capital.
pub open spec fn capital(c: char) -> char {
    if 'a' <= c <= 'z' {
        (c as u8 - 32) as char
    } else {
        c
    }
}

/// The drive or the share that a path begins with, with slashes. The letter of
/// a drive counts as a capital.
pub open spec fn lead(p: Seq<char>, host: Host) -> Seq<char> {
    if has_drive(p) {
        seq![capital(p[0]), ':']
    } else {
        slash_form(p, host).take(lead_len(p, host))
    }
}

/// What stands behind the drive or the share, with slashes. Behind a share there
/// is always a root.
pub open spec fn body(p: Seq<char>, host: Host) -> Seq<char> {
    let rest = slash_form(p, host).skip(lead_len(p, host));
    if lead_len(p, host) > 2 && rest.len() == 0 {
        seq!['/']
    } else {
        rest
    }
}

/// The components of a path, the drive or the share first.
pub open spec fn host_components(p: Seq<char>, host: Host) -> Seq<Seq<char>> {
    if lead_len(p, host) > 0 {
        seq![lead(p, host)] + components(body(p, host))
    } else {
        components(body(p, host))
    }
}

/// The text of the components from the `k`th on, with slashes.
pub open spec fn host_tail(p: Seq<char>, k: int, host: Host) -> Seq<char> {
    if lead_len(p, host) > 0 {
        if k <= 0 {
            slash_form(p, host)
        } else {
            tail(body(p, host), k - 1)
        }
    } else {
        tail(body(p, host), k)
    }
}

/// The last component, where it names an entry.
pub open spec fn host_file_name(p: Seq<char>, host: Host) -> Option<Seq<char>> {
    file_name(body(p, host))
}

/// The path without its last component.
pub open spec fn host_parent(p: Seq<char>, host: Host) -> Option<Seq<char>> {
    match parent(body(p, host)) {
        Some(h) => Some(p.take(lead_len(p, host) + h.len())),
        None => None,
    }
}

/// A path with another one put behind it. On Windows one with a drive or a share
/// of its own replaces it, one with a root replaces all but the drive or the
/// share, and a backslash goes between the two where the first one needs it; a
/// drive alone does not.
pub open spec fn host_joined(a: Seq<char>, b: Seq<char>, host: Host) -> Seq<char> {
    if host != Host::Windows {
        joined(a, b)
    } else if lead_len(b, host) > 0 {
        b
    } else if b.len() > 0 && host.separates(b[0]) {
        a.take(lead_len(a, host)) + b
    } else if a.len() > 0 && !host.separates(a.last()) && !(has_drive(a) && a.len() == 2) {
        a.push('\\') + b
    } else {
        a + b
    }
}

/// A directory as it stands before a name that is put behind it.
pub open spec fn opened(a: Seq<char>, host: Host) -> Seq<char> {
    if a.len() == 0 || host.separates(a.last()) {
        a
    } else if host != Host::Windows {
        a.push('/')
    } else if has_drive(a) && a.len() == 2 {
        a
    } else {
        a.push('\\')
    }
}

/// What begins with neither a drive nor a separator is put behind a directory.
pub proof fn lemma_joined_opened(a: Seq<char>, b: Seq<char>, host: Host)
    requires
        b.len() > 0,
        !host.separates(b[0]),
        host == Host::Windows ==> !has_drive(b),
    ensures
        host_joined(a, b, host) == opened(a, host) + b,
{
    assert(slash_form(b, host)[0] == b[0]);
}

/// The share at the beginning of a path does not reach behind its end.
pub proof fn lemma_lead_len(p: Seq<char>, host: Host)
    ensures
        0 <= lead_len(p, host) <= p.len(),
        lead_len(p, host) != 1,
        lead_len(p, host) == 2 ==> has_drive(p),
{
    let s = slash_form(p, host);
    if s.len() >= 2 && s[0] == '/' && s[1] == '/' {
        lemma_find_from(s, '/', 2);
        let i = find_from(s, '/', 2);
        if 2 < i < s.len() {
            lemma_find_from(s, '/', i + 1);
        }
    }
}

/// Where paths are separated at slashes alone, they are read as they stand.
pub proof fn lemma_plain_host(p: Seq<char>, host: Host)
    requires
        host != Host::Windows,
    ensures
        slash_form(p, host) == p,
        lead_len(p, host) == 0,
        body(p, host) == p,
        host_components(p, host) == components(p),
        host_file_name(p, host) == file_name(p),
{
    assert(slash_form(p, host) =~= p);
    assert(body(p, host) =~= p);
}

/// `path` with a slash for each separator.
pub fn with_host_slashes(path: &str, host: Host) -> (r: Vec<char>)
    ensures
        r@ == slash_form(path@, host),
{
    let v = chars_of(path);
    let mut out: Vec<char> = Vec::new();
    let mut i: usize = 0;
    while i < v.len()
        invariant
            v@ == path@,
            i <= v@.len(),
            out@ == slash_form(path@, host).take(i as int),
        decreases v@.len() - i,
    {
        let c = if host.is_separator(v[i]) {
            '/'
        } else {
            v[i]
        };
        out.push(c);
        i = i + 1;
        assert(out@ =~= slash_form(path@, host).take(i as int));
    }
    assert(slash_form(path@, host).take(v@.len() as int) =~= slash_form(path@, host));
    out
}

fn letter(c: char) -> (r: bool)
    ensures
        r == is_letter(c),
{
    ('a' <= c && c <= 'z') || ('A' <= c && c <= 'Z')
}

fn starts_with_drive(v: &Vec<char>) -> (r: bool)
    ensures
        r == has_drive(v@),
{
    v.len() >= 2 && letter(v[0]) && v[1] == ':'
}

fn share_end(s: &Vec<char>) -> (r: usize)
    ensures
        r == share_len(s@),
{
    if s.len() >= 2 && s[0] == '/' && s[1] == '/' {
        let i = find_char(s, '/', 2);
        if i == 2 || i >= s.len() {
            0
        } else {
            let j = find_char(s, '/', i + 1);
            if j == i + 1 {
                0
            } else {
                j
            }
        }
    } else {
        0
    }
}

/// A slash for a separator makes no drive and ends none.
proof fn lemma_same_drive(p: Seq<char>, host: Host)
    ensures
        has_drive(slash_form(p, host)) == has_drive(p),
        has_drive(p) ==> slash_form(p, host)[0] == p[0],
{
}

/// How long the drive or the share is that a path begins with.
fn lead_end(s: &Vec<char>, path: &str, host: Host) -> (r: usize)
    requires
        s@ == slash_form(path@, host),
    ensures
        r == lead_len(path@, host),
{
    proof {
        lemma_same_drive(path@, host);
    }
    if host == Host::Windows {
        if starts_with_drive(s) {
            2
        } else {
            share_end(s)
        }
    } else {
        0
    }
}

fn as_capital(c: char) -> (r: char)
    ensures
        r == capital(c),
{
    if 'a' <= c && c <= 'z' {
        (c as u8 - 32) as char
    } else {
        c
    }
}

/// A path of a host cut into its components.
pub struct HostParts {
    pub host: Host,
    /// The path as it stands.
    pub chars: Vec<char>,
    /// The path with slashes.
    pub slashes: Vec<char>,
    /// How long the drive or the share is.
    pub lead: usize,
    /// The components behind it.
    pub parts: Parts,
}

impl HostParts {
    /// The components of the path.
    pub open spec fn comps(&self) -> Seq<Seq<char>> {
        host_components(self.chars@, self.host)
    }

    /// Whether the path was cut as the host reads it.
    pub open spec fn wf(&self) -> bool {
        &&& self.slashes@ == slash_form(self.chars@, self.host)
        &&& self.lead == lead_len(self.chars@, self.host)
        &&& self.lead <= self.chars@.len()
        &&& self.parts.path() == body(self.chars@, self.host)
        &&& self.parts.wf()
        &&& self.parts.at@.len() == components(self.parts.path()).len()
        &&& self.comps().len() <= usize::MAX
    }

    /// Cuts a path into its components.
    pub fn of(path: &str, host: Host) -> (r: HostParts)
        ensures
            r.wf(),
            r.chars@ == path@,
            r.host == host,
    {
        let chars = chars_of(path);
        let slashes = with_host_slashes(path, host);
        let lead = lead_end(&slashes, path, host);
        proof {
            lemma_lead_len(path@, host);
        }
        let mut rest: String = slice_text(&slashes, lead, slashes.len());
        assert(rest@ =~= slash_form(path@, host).skip(lead as int));
        if lead > 2 && lead == slashes.len() {
            rest = "/".to_owned();
            proof {
                reveal_strlit("/");
                assert(rest@ =~= seq!['/']);
            }
        }
        assert(rest@ =~= body(path@, host));
        let parts = Parts::of(rest.as_str());
        proof {
            lemma_few_components(body(path@, host));
            assert(slashes.len() == path@.len());
        }
        HostParts { host, chars, slashes, lead, parts }
    }

    /// How many components there are.
    pub fn len(&self) -> (r: usize)
        requires
            self.wf(),
        ensures
            r == self.comps().len(),
    {
        if self.lead > 0 {
            self.parts.len() + 1
        } else {
            self.parts.len()
        }
    }

    /// The `k`th component.
    pub fn get(&self, k: usize) -> (r: String)
        requires
            self.wf(),
            k < self.comps().len(),
        ensures
            r@ == self.comps()[k as int],
    {
        if self.lead == 0 {
            return self.parts.get(k);
        }
        if k > 0 {
            return self.parts.get(k - 1);
        }
        proof {
            lemma_same_drive(self.chars@, self.host);
        }
        if starts_with_drive(&self.slashes) {
            let mut r = String::new();
            r.push(as_capital(self.slashes[0]));
            r.push(':');
            assert(r@ =~= lead(self.chars@, self.host));
            r
        } else {
            let r = slice_text(&self.slashes, 0, self.lead);
            assert(r@ =~= lead(self.chars@, self.host));
            r
        }
    }

    /// The text of the components from the `k`th on, with slashes.
    pub fn tail(&self, k: usize) -> (r: String)
        requires
            self.wf(),
        ensures
            r@ == host_tail(self.chars@, k as int, self.host),
    {
        if self.lead == 0 {
            self.parts.tail(k)
        } else if k == 0 {
            text_of(&self.slashes)
        } else {
            self.parts.tail(k - 1)
        }
    }

    /// What stands behind the drive or the share, with slashes.
    fn rest(&self) -> (r: String)
        requires
            self.wf(),
        ensures
            r@ == body(self.chars@, self.host),
    {
        text_of(&self.parts.chars)
    }
}

/// The components are no more than the characters.
proof fn lemma_few_components(p: Seq<char>)
    ensures
        components(p).len() <= p.len(),
{
    lemma_spans_ordered(p);
    lemma_few_spans(p, spans(p), 0, spans(p).len() as int);
}

proof fn lemma_few_spans(p: Seq<char>, at: Seq<(int, int)>, from: int, n: int)
    requires
        spans_ordered(p, at, from),
        0 <= from,
        0 <= n <= at.len(),
    ensures
        n > 0 ==> n <= at[n - 1].1,
        n <= p.len(),
    decreases n,
{
    if n > 0 {
        lemma_few_spans(p, at, from, n - 1);
        if n > 1 {
            assert(at[n - 2].1 <= at[n - 1].0);
        }
        assert(at[n - 1].0 < at[n - 1].1 <= p.len());
    }
}

/// The last component of `path`, where it names an entry.
pub fn host_file_name_of(path: &str, host: Host) -> (r: Option<String>)
    ensures
        match r {
            Some(n) => host_file_name(path@, host) == Some(n@),
            None => host_file_name(path@, host) is None,
        },
{
    file_name_of(HostParts::of(path, host).rest().as_str())
}

/// `path` without its last component.
pub fn host_parent_of(path: &str, host: Host) -> (r: Option<String>)
    ensures
        match r {
            Some(n) => host_parent(path@, host) == Some(n@),
            None => host_parent(path@, host) is None,
        },
{
    let parts = HostParts::of(path, host);
    match parent_of(parts.rest().as_str()) {
        Some(h) => {
            let n = chars_of(h.as_str()).len();
            proof {
                let b = body(path@, host);
                lemma_parent_len(b);
                assert(parts.slashes@.len() == parts.chars@.len());
                assert(b == slash_form(path@, host).skip(parts.lead as int));
                assert(b.len() + parts.lead == path@.len());
                assert(parts.chars.len() == path@.len());
            }
            let end: usize = parts.lead + n;
            let r = slice_text(&parts.chars, 0, end);
            assert(r@ =~= path@.take(end as int));
            Some(r)
        },
        None => None,
    }
}

/// A path without its last component is shorter, and the root has none.
proof fn lemma_parent_len(p: Seq<char>)
    ensures
        parent(p) matches Some(h) ==> h.len() < p.len() && p != seq!['/'],
{
    lemma_spans_ordered(p);
    let at = spans(p);
    let n = at.len() as int;
    if parent(p) is Some {
        if n > 1 {
            assert(at[n - 2].1 <= at[n - 1].0);
        }
        assert(at[n - 1].0 < at[n - 1].1 <= p.len());
        if p == seq!['/'] {
            assert(spans_from(p, 1).len() == 0);
            assert(components(p).last() =~= seq!['/']);
        }
    }
}

/// Whether a path names a server without a share: two separators, a name, and
/// perhaps one more separator.
pub open spec fn is_bare_server(p: Seq<char>, host: Host) -> bool {
    let s = slash_form(p, host);
    let i = find_from(s, '/', 2);
    host == Host::Windows && s.len() > 2 && s[0] == '/' && s[1] == '/' && i > 2 && i + 1 >= s.len()
}

/// Whether `path` names a server without a share.
pub fn names_bare_server(path: &str, host: Host) -> (r: bool)
    ensures
        r == is_bare_server(path@, host),
{
    let s = with_host_slashes(path, host);
    if host != Host::Windows || s.len() <= 2 {
        return false;
    }
    let i = find_char(&s, '/', 2);
    s[0] == '/' && s[1] == '/' && i > 2 && i >= s.len() - 1
}

/// A name that is put behind a directory adds nothing to its drive or share.
proof fn lemma_lead_kept(dir: Seq<char>, name: Seq<char>, host: Host)
    requires
        host == Host::Windows,
        name.len() > 0,
        !has_drive(name),
        forall|k: int| 0 <= k < name.len() ==> !host.separates(#[trigger] name[k]),
        !is_bare_server(dir, host),
    ensures
        lead_len(name, host) == 0,
        lead_len(host_joined(dir, name, host), host) == lead_len(dir, host),
{
    let whole = host_joined(dir, name, host);
    let s = slash_form(dir, host);
    let t = slash_form(whole, host);
    let u = slash_form(name, host);
    assert(!host.separates(name[0]));
    assert(u[0] == name[0]);
    assert(forall|k: int| 0 <= k < s.len() ==> #[trigger] t[k] == s[k]);
    assert(forall|k: int|
        whole.len() - name.len() <= k < t.len() ==> #[trigger] t[k] == name[k - (whole.len()
            - name.len())]);
    if dir.len() < 2 {
        if dir.len() == 0 {
            assert(whole =~= name);
        } else if dir.len() == 1 {
            assert(t[0] == s[0]);
            if host.separates(dir[0]) {
                assert(whole[1] == name[0]);
            } else {
                assert(whole[1] == '\\');
            }
        }
    } else {
        assert(whole[0] == dir[0] && whole[1] == dir[1]);
        assert(t[0] == s[0] && t[1] == s[1]);
        if !has_drive(dir) && s[0] == '/' && s[1] == '/' {
            lemma_find_from(s, '/', 2);
            let i = find_from(s, '/', 2);
            if i == s.len() {
                assert(i == 2);
                lemma_find_from(t, '/', 2);
                let ti = find_from(t, '/', 2);
                assert(dir.last() == dir[1]);
                assert(whole =~= dir + name);
                if ti < t.len() {
                    assert(t[ti] == name[ti - 2]);
                }
            } else {
                assert(t[i] == '/');
                lemma_find_is(t, '/', 2, i);
                if i > 2 {
                    lemma_find_from(s, '/', i + 1);
                    let j = find_from(s, '/', i + 1);
                    if j < s.len() {
                        assert(t[j] == '/');
                        lemma_find_is(t, '/', i + 1, j);
                    } else {
                        assert(j > i + 1);
                        assert(s[s.len() - 1] != '/');
                        assert(!host.separates(dir.last()));
                        assert(whole[dir.len() as int] == '\\');
                        assert(t[j] == '/');
                        lemma_find_is(t, '/', i + 1, j);
                    }
                }
            }
        }
    }
}

/// A name put behind a directory is the file name of the path.
pub proof fn law_host_joined_name_is_last(dir: Seq<char>, name: Seq<char>, host: Host)
    requires
        name.len() > 0,
        is_entry_name(name),
        forall|k: int| 0 <= k < name.len() ==> !host.separates(#[trigger] name[k]),
        host == Host::Windows ==> !has_drive(name),
        !is_bare_server(dir, host),
    ensures
        host_file_name(host_joined(dir, name, host), host) == Some(name),
{
    let whole = host_joined(dir, name, host);
    assert forall|k: int| 0 <= k < name.len() implies #[trigger] name[k] != '/' by {
        assert(!host.separates(name[k]));
    }
    if host != Host::Windows {
        lemma_plain_host(whole, host);
        law_joined_name_is_last(dir, name);
    } else {
        lemma_lead_kept(dir, name, host);
        lemma_lead_len(dir, host);
        assert(!host.separates(name[0]));
        let t = slash_form(whole, host);
        let n = lead_len(dir, host);
        let h = t.subrange(n, whole.len() - name.len());
        assert(t.skip(n) =~= h + name);
        if h.len() > 0 {
            let k = whole.len() - name.len() - 1;
            assert(h.last() == t[k]);
            assert(host.separates(whole[k]));
        }
        assert(joined(h, name) == h + name);
        law_joined_name_is_last(h, name);
        assert(body(whole, host) == h + name);
    }
}

/// The name of a file holds no separator.
pub proof fn lemma_host_name(p: Seq<char>, host: Host)
    requires
        host_file_name(p, host) is Some,
    ensures
        is_entry_name(host_file_name(p, host)->Some_0),
        host_file_name(p, host)->Some_0.len() > 0,
        forall|k: int|
            0 <= k < host_file_name(p, host)->Some_0.len() ==> !host.separates(
                #[trigger] host_file_name(p, host)->Some_0[k],
            ),
{
    let b = body(p, host);
    let cs = components(b);
    let last = cs.len() - 1;
    let name = cs[last];
    lemma_component(b, last);
    lemma_spans_ordered(b);
    lemma_lead_len(p, host);
    let at = spans(b);
    assert forall|k: int| 0 <= k < name.len() implies !host.separates(#[trigger] name[k]) by {
        assert(name[k] == b[at[last].0 + k]);
        if b != seq!['/'] || lead_len(p, host) <= 2 {
            let i = lead_len(p, host) + at[last].0 + k;
            assert(b[at[last].0 + k] == slash_form(p, host)[i]);
        }
    }
}

/// `b` put behind `a`.
pub fn host_join(a: &str, b: &str, host: Host) -> (r: String)
    ensures
        r@ == host_joined(a@, b@, host),
{
    if host != Host::Windows {
        return join_paths(a, b);
    }
    let x = with_host_slashes(a, host);
    let y = with_host_slashes(b, host);
    let from = lead_end(&x, a, host);
    proof {
        lemma_lead_len(a@, host);
        lemma_same_drive(a@, host);
    }
    if lead_end(&y, b, host) > 0 {
        b.to_owned()
    } else if y.len() > 0 && y[0] == '/' {
        let mut r = slice_text(&chars_of(a), 0, from);
        assert(r@ =~= a@.take(from as int));
        r.append(b);
        r
    } else {
        let mut r: String = a.to_owned();
        if x.len() > 0 && x[x.len() - 1] != '/' && !(starts_with_drive(&x) && x.len() == 2) {
            r.push('\\');
        }
        r.append(b);
        r
    }
}

} // verus!
