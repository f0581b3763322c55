//! Slash-separated paths held as text.
//!
//! A path is read as a sequence of components: an absolute path begins with
//! the root `/`; repeated and trailing slashes count for nothing, and neither
//! does a `.`, except at the beginning of a relative path.

use crate::text::{chars_of, find_char, find_from, lemma_find_from, slice_text};
use vstd::prelude::*;
use vstd::string::*;

verus! {

/// Where a component stands in its path: from `start` up to `end`.
pub struct Span {
    pub start: usize,
    pub end: usize,
}

/// Where the components at or behind `i` stand in the path.
pub open spec fn spans_from(p: Seq<char>, i: int) -> Seq<(int, int)>
    decreases p.len() - i,
    when 0 <= i <= p.len()
{
    if i == p.len() {
        Seq::empty()
    } else if p[i] == '/' {
        spans_from(p, i + 1)
    } else {
        proof {
            lemma_find_from(p, '/', i);
        }
        let j = find_from(p, '/', i);
        if i > 0 && j == i + 1 && p[i] == '.' {
            spans_from(p, j)
        } else {
            seq![(i, j)] + spans_from(p, j)
        }
    }
}

/// Where the components stand in the path, the root of an absolute path first.
pub open spec fn spans(p: Seq<char>) -> Seq<(int, int)> {
    if p.len() > 0 && p[0] == '/' {
        seq![(0int, 1int)] + spans_from(p, 1)
    } else {
        spans_from(p, 0)
    }
}

/// The components of a path.
pub open spec fn components(p: Seq<char>) -> Seq<Seq<char>> {
    let at = spans(p);
    Seq::new(at.len(), |k: int| p.subrange(at[k].0, at[k].1))
}

/// Whether a component names an entry: it is neither the root nor `.` nor `..`.
pub open spec fn is_entry_name(c: Seq<char>) -> bool {
    c != seq!['/'] && c != seq!['.'] && c != seq!['.', '.']
}

/// The last component, where it names an entry.
pub open spec fn file_name(p: Seq<char>) -> Option<Seq<char>> {
    let cs = components(p);
    if cs.len() > 0 && is_entry_name(cs.last()) {
        Some(cs.last())
    } else {
        None
    }
}

/// The text of the first `k` components.
pub open spec fn head(p: Seq<char>, k: int) -> Seq<char> {
    if k <= 0 {
        Seq::empty()
    } else {
        p.subrange(0, spans(p)[k - 1].1)
    }
}

/// The text of the components from the `k`th on.
pub open spec fn tail(p: Seq<char>, k: int) -> Seq<char> {
    let at = spans(p);
    if k >= at.len() {
        Seq::empty()
    } else {
        p.subrange(at[k].0, at.last().1)
    }
}

/// The path without its last component; the root and the empty path have none.
pub open spec fn parent(p: Seq<char>) -> Option<Seq<char>> {
    let cs = components(p);
    if cs.len() == 0 || cs.last() == seq!['/'] {
        None
    } else {
        Some(head(p, cs.len() - 1))
    }
}

/// A path with another one put behind it: an absolute one replaces it, and a
/// slash goes between the two where the first one needs it.
pub open spec fn joined(a: Seq<char>, b: Seq<char>) -> Seq<char> {
    if b.len() > 0 && b[0] == '/' {
        b
    } else if a.len() > 0 && a.last() != '/' {
        a.push('/') + b
    } else {
        a + b
    }
}

/// What the spans of a path have in common: they lie in the path, one behind
/// the other, and none is empty.
pub open spec fn spans_ordered(p: Seq<char>, at: Seq<(int, int)>, from: int) -> bool {
    &&& forall|k: int| 0 <= k < at.len() ==> from <= (#[trigger] at[k]).0 < at[k].1 <= p.len()
    &&& forall|k: int, m: int|
        0 <= k < m < at.len() ==> (#[trigger] at[k]).1 <= (#[trigger] at[m]).0
}

/// Components stand in the path in order, without touching.
pub proof fn lemma_spans_from_ordered(p: Seq<char>, i: int)
    requires
        0 <= i <= p.len(),
    ensures
        spans_ordered(p, spans_from(p, i), i),
    decreases p.len() - i,
{
    if i < p.len() {
        if p[i] == '/' {
            lemma_spans_from_ordered(p, i + 1);
        } else {
            lemma_find_from(p, '/', i);
            let j = find_from(p, '/', i);
            lemma_spans_from_ordered(p, j);
            if !(i > 0 && j == i + 1 && p[i] == '.') {
                let rest = spans_from(p, j);
                let at = seq![(i, j)] + rest;
                assert forall|k: int| 0 <= k < at.len() implies i <= (#[trigger] at[k]).0 < at[k].1
                    <= p.len() by {
                    if k > 0 {
                        assert(at[k] == rest[k - 1]);
                    }
                }
                assert forall|k: int, m: int| 0 <= k < m < at.len() implies (#[trigger] at[k]).1
                    <= (#[trigger] at[m]).0 by {
                    assert(at[m] == rest[m - 1]);
                    if k > 0 {
                        assert(at[k] == rest[k - 1]);
                    }
                }
            }
        }
    }
}

/// Components stand in the path in order, without touching.
pub proof fn lemma_spans_ordered(p: Seq<char>)
    ensures
        spans_ordered(p, spans(p), 0),
{
    if p.len() > 0 && p[0] == '/' {
        lemma_spans_from_ordered(p, 1);
        let rest = spans_from(p, 1);
        let at = seq![(0int, 1int)] + rest;
        assert forall|k: int| 0 <= k < at.len() implies 0 <= (#[trigger] at[k]).0 < at[k].1
            <= p.len() by {
            if k > 0 {
                assert(at[k] == rest[k - 1]);
            }
        }
        assert forall|k: int, m: int| 0 <= k < m < at.len() implies (#[trigger] at[k]).1 <= (
        #[trigger] at[m]).0 by {
            assert(at[m] == rest[m - 1]);
            if k > 0 {
                assert(at[k] == rest[k - 1]);
            }
        }
    } else {
        lemma_spans_from_ordered(p, 0);
    }
}

/// The spans that executable code holds, as integers.
pub open spec fn span_view(at: Seq<Span>) -> Seq<(int, int)> {
    Seq::new(at.len(), |k: int| (at[k].start as int, at[k].end as int))
}

/// A path cut into its components.
pub struct Parts {
    pub chars: Vec<char>,
    pub at: Vec<Span>,
}

impl Parts {
    /// The path that was cut.
    pub open spec fn path(&self) -> Seq<char> {
        self.chars@
    }

    /// The components stand where [`spans`] says.
    pub open spec fn wf(&self) -> bool {
        &&& span_view(self.at@) == spans(self.path())
        &&& spans_ordered(self.path(), spans(self.path()), 0)
    }

    /// Cuts a path into its components.
    pub fn of(path: &str) -> (r: Parts)
        ensures
            r.path() == path@,
            r.wf(),
            r.at@.len() == components(path@).len(),
    {
        let chars = chars_of(path);
        let mut at: Vec<Span> = Vec::new();
        let mut i: usize = 0;
        if chars.len() > 0 && chars[0] == '/' {
            at.push(Span { start: 0, end: 1 });
            i = 1;
            assert(span_view(at@) + spans_from(chars@, 1) =~= spans(chars@));
        } else {
            assert(span_view(at@) + spans_from(chars@, 0) =~= spans(chars@));
        }
        while i < chars.len()
            invariant
                i <= chars@.len(),
                span_view(at@) + spans_from(chars@, i as int) == spans(chars@),
            decreases chars@.len() - i,
        {
            if chars[i] == '/' {
                i = i + 1;
            } else {
                let j = find_char(&chars, '/', i);
                let ghost before = span_view(at@);
                if i > 0 && j == i + 1 && chars[i] == '.' {
                } else {
                    at.push(Span { start: i, end: j });
                    assert(span_view(at@) =~= before.push((i as int, j as int)));
                    assert(before + spans_from(chars@, i as int) =~= span_view(at@) + spans_from(
                        chars@,
                        j as int,
                    ));
                }
                i = j;
            }
        }
        proof {
            lemma_spans_ordered(chars@);
            assert(span_view(at@) =~= spans(chars@));
        }
        Parts { chars, at }
    }

    /// How many components there are.
    pub fn len(&self) -> (r: usize)
        requires
            self.wf(),
        ensures
            r == components(self.path()).len(),
    {
        self.at.len()
    }

    /// The `k`th component.
    pub fn get(&self, k: usize) -> (r: String)
        requires
            self.wf(),
            k < components(self.path()).len(),
        ensures
            r@ == components(self.path())[k as int],
    {
        assert(span_view(self.at@)[k as int] == spans(self.path())[k as int]);
        slice_text(&self.chars, self.at[k].start, self.at[k].end)
    }

    /// The text of the first `k` components.
    pub fn head(&self, k: usize) -> (r: String)
        requires
            self.wf(),
            k <= components(self.path()).len(),
        ensures
            r@ == head(self.path(), k as int),
    {
        if k == 0 {
            String::new()
        } else {
            assert(span_view(self.at@)[k - 1] == spans(self.path())[k - 1]);
            slice_text(&self.chars, 0, self.at[k - 1].end)
        }
    }

    /// The text of the components from the `k`th on.
    pub fn tail(&self, k: usize) -> (r: String)
        requires
            self.wf(),
        ensures
            r@ == tail(self.path(), k as int),
    {
        let n = self.at.len();
        if k >= n {
            String::new()
        } else {
            assert(span_view(self.at@)[k as int] == spans(self.path())[k as int]);
            assert(span_view(self.at@)[n - 1] == spans(self.path())[n - 1]);
            slice_text(&self.chars, self.at[k].start, self.at[n - 1].end)
        }
    }
}

/// Whether `c` is the name of an entry.
pub fn names_entry(c: &String) -> (r: bool)
    ensures
        r == is_entry_name(c@),
{
    let v = chars_of(c.as_str());
    let n = v.len();
    if n == 1 && (v[0] == '/' || v[0] == '.') {
        assert(c@ =~= seq!['/'] || c@ =~= seq!['.']);
        false
    } else if n == 2 && v[0] == '.' && v[1] == '.' {
        assert(c@ =~= seq!['.', '.']);
        false
    } else {
        true
    }
}

/// The last component of `path`, where it names an entry.
pub fn file_name_of(path: &str) -> (r: Option<String>)
    ensures
        match r {
            Some(n) => file_name(path@) == Some(n@),
            None => file_name(path@) is None,
        },
{
    let parts = Parts::of(path);
    let n = parts.len();
    if n == 0 {
        return None;
    }
    let last = parts.get(n - 1);
    if names_entry(&last) {
        Some(last)
    } else {
        None
    }
}

/// `path` without its last component.
pub fn parent_of(path: &str) -> (r: Option<String>)
    ensures
        match r {
            Some(n) => parent(path@) == Some(n@),
            None => parent(path@) is None,
        },
{
    let parts = Parts::of(path);
    let n = parts.len();
    if n == 0 {
        return None;
    }
    let last = chars_of(parts.get(n - 1).as_str());
    if last.len() == 1 && last[0] == '/' {
        assert(last@ =~= seq!['/']);
        None
    } else {
        Some(parts.head(n - 1))
    }
}

/// `b` put behind `a`.
pub fn join_paths(a: &str, b: &str) -> (r: String)
    ensures
        r@ == joined(a@, b@),
{
    let u = chars_of(a);
    let w = chars_of(b);
    if w.len() > 0 && w[0] == '/' {
        b.to_owned()
    } else {
        let mut r: String = a.to_owned();
        if u.len() > 0 && u[u.len() - 1] != '/' {
            r.push('/');
        }
        r.append(b);
        r
    }
}

/// A name without slashes put behind a directory is the last component of the
/// path.
proof fn lemma_last_span(p: Seq<char>, name: Seq<char>, i: int)
    requires
        p.len() == 0 || p.last() == '/',
        name.len() > 0,
        is_entry_name(name),
        forall|k: int| 0 <= k < name.len() ==> name[k] != '/',
        0 <= i <= p.len(),
    ensures
        spans_from(p + name, i).len() > 0,
        spans_from(p + name, i).last() == (p.len() as int, (p + name).len() as int),
    decreases p.len() - i,
{
    let whole = p + name;
    if i == p.len() {
        lemma_find_from(whole, '/', i);
        let j = find_from(whole, '/', i);
        assert(j == whole.len()) by {
            if j < whole.len() {
                assert(whole[j] == name[j - p.len()]);
            }
        }
        assert(whole[i] == name[0]);
        if j == i + 1 && whole[i] == '.' {
            assert(name =~= seq!['.']);
        }
        assert(spans_from(whole, j).len() == 0);
        assert(spans_from(whole, i) =~= seq![(i, j)]);
    } else if whole[i] == '/' {
        lemma_last_span(p, name, i + 1);
    } else {
        lemma_find_from(whole, '/', i);
        let j = find_from(whole, '/', i);
        assert(whole[p.len() - 1] == '/');
        assert(j < p.len());
        lemma_last_span(p, name, j);
        let rest = spans_from(whole, j);
        assert((seq![(i, j)] + rest).last() == rest.last());
    }
}

/// A name put behind a directory is the file name of the path.
pub proof fn law_joined_name_is_last(dir: Seq<char>, name: Seq<char>)
    requires
        name.len() > 0,
        is_entry_name(name),
        forall|k: int| 0 <= k < name.len() ==> name[k] != '/',
    ensures
        file_name(joined(dir, name)) == Some(name),
{
    let p = if dir.len() > 0 && dir.last() != '/' {
        dir.push('/')
    } else {
        dir
    };
    let whole = p + name;
    assert(joined(dir, name) == whole);
    if p.len() > 0 && p[0] == '/' {
        lemma_last_span(p, name, 1);
        assert((seq![(0int, 1int)] + spans_from(whole, 1)).last() == spans_from(whole, 1).last());
    } else {
        assert(whole[0] != '/') by {
            if p.len() == 0 {
                assert(whole[0] == name[0]);
            }
        }
        lemma_last_span(p, name, 0);
    }
    assert(components(whole).last() =~= name);
}

/// No slash stands within the spans.
pub open spec fn slash_free(p: Seq<char>, at: Seq<(int, int)>) -> bool {
    forall|k: int, m: int|
        0 <= k < at.len() && (#[trigger] at[k]).0 <= m < at[k].1 ==> #[trigger] p[m] != '/'
}

/// No slash stands within a component behind the root.
pub proof fn lemma_spans_from_no_slash(p: Seq<char>, i: int)
    requires
        0 <= i <= p.len(),
    ensures
        slash_free(p, spans_from(p, i)),
    decreases p.len() - i,
{
    if i < p.len() {
        if p[i] == '/' {
            lemma_spans_from_no_slash(p, i + 1);
        } else {
            lemma_find_from(p, '/', i);
            let j = find_from(p, '/', i);
            lemma_spans_from_no_slash(p, j);
            if !(i > 0 && j == i + 1 && p[i] == '.') {
                let rest = spans_from(p, j);
                let at = seq![(i, j)] + rest;
                assert forall|k: int, m: int|
                    0 <= k < at.len() && (#[trigger] at[k]).0 <= m < at[k].1 implies #[trigger] p[m]
                    != '/' by {
                    if k > 0 {
                        assert(at[k] == rest[k - 1]);
                    }
                }
                assert(spans_from(p, i) == at);
            }
        }
    }
}

/// Whether no component behind the first character of the path is a `.`.
spec fn dot_free(p: Seq<char>, at: Seq<(int, int)>) -> bool {
    forall|k: int|
        0 <= k < at.len() && (#[trigger] at[k]).0 > 0 ==> p.subrange(at[k].0, at[k].1) != seq!['.']
}

proof fn lemma_spans_from_no_dot(p: Seq<char>, i: int)
    requires
        0 <= i <= p.len(),
    ensures
        dot_free(p, spans_from(p, i)),
    decreases p.len() - i,
{
    if i < p.len() {
        if p[i] == '/' {
            lemma_spans_from_no_dot(p, i + 1);
        } else {
            lemma_find_from(p, '/', i);
            let j = find_from(p, '/', i);
            lemma_spans_from_no_dot(p, j);
            if !(i > 0 && j == i + 1 && p[i] == '.') {
                let rest = spans_from(p, j);
                let at = seq![(i, j)] + rest;
                assert forall|k: int| 0 <= k < at.len() && (#[trigger] at[k]).0 > 0 implies p.subrange(
                    at[k].0,
                    at[k].1,
                ) != seq!['.'] by {
                    if k > 0 {
                        assert(at[k] == rest[k - 1]);
                    } else {
                        let c = p.subrange(i, j);
                        if c == seq!['.'] {
                            assert(c.len() == 1 && c[0] == '.');
                        }
                    }
                }
                assert(spans_from(p, i) == at);
            }
        }
    }
}

/// Whether `c` can stand as a component behind another one.
pub open spec fn is_inner(c: Seq<char>) -> bool {
    &&& c.len() > 0
    &&& c != seq!['.']
    &&& forall|k: int| 0 <= k < c.len() ==> #[trigger] c[k] != '/'
}

/// Whether `c` can stand as the first component of a path.
pub open spec fn is_first(c: Seq<char>) -> bool {
    c == seq!['/'] || c == seq!['.'] || is_inner(c)
}

/// What every component of a path is.
pub proof fn lemma_component(p: Seq<char>, k: int)
    requires
        0 <= k < components(p).len(),
    ensures
        k > 0 ==> is_inner(components(p)[k]),
        k == 0 ==> is_first(components(p)[k]),
{
    lemma_spans_ordered(p);
    let at = spans(p);
    let c = components(p)[k];
    let rooted = p.len() > 0 && p[0] == '/';
    let from: int = if rooted {
        1
    } else {
        0
    };
    let rest = spans_from(p, from);
    if rooted && k == 0 {
        assert(c =~= seq!['/']);
    } else {
        lemma_spans_from_no_slash(p, from);
        lemma_spans_from_no_dot(p, from);
        assert(at[k] == rest[k - from]);
        assert forall|m: int| 0 <= m < c.len() implies #[trigger] c[m] != '/' by {
            assert(c[m] == p[at[k].0 + m]);
        }
        if k > 0 {
            assert(at[0].1 <= at[k].0);
        }
    }
}

/// A name put behind a directory adds one component behind the others.
pub proof fn lemma_spans_push(h: Seq<char>, name: Seq<char>, i: int)
    requires
        h.len() == 0 || h.last() == '/',
        name.len() > 0,
        forall|k: int| 0 <= k < name.len() ==> #[trigger] name[k] != '/',
        h.len() == 0 || name != seq!['.'],
        0 <= i <= h.len(),
    ensures
        spans_from(h + name, i) == spans_from(h, i).push(
            (h.len() as int, (h + name).len() as int),
        ),
    decreases h.len() - i,
{
    let whole = h + name;
    if i == h.len() {
        lemma_find_from(whole, '/', i);
        let j = find_from(whole, '/', i);
        assert(j == whole.len()) by {
            if j < whole.len() {
                assert(whole[j] == name[j - h.len()]);
            }
        }
        assert(whole[i] == name[0]);
        if i > 0 && j == i + 1 && whole[i] == '.' {
            assert(name =~= seq!['.']);
        }
        assert(spans_from(whole, j) =~= Seq::<(int, int)>::empty());
        assert(spans_from(whole, i) =~= seq![(i, j)]);
        assert(spans_from(h, i) =~= Seq::<(int, int)>::empty());
        assert(spans_from(whole, i) =~= spans_from(h, i).push((i, j)));
    } else if whole[i] == '/' {
        lemma_spans_push(h, name, i + 1);
    } else {
        lemma_find_from(whole, '/', i);
        lemma_find_from(h, '/', i);
        let j = find_from(h, '/', i);
        assert(h[h.len() - 1] == '/');
        assert(j < h.len());
        assert(whole[j] == '/');
        let jj = find_from(whole, '/', i);
        assert(jj == j) by {
            if jj < j {
                assert(whole[jj] == h[jj]);
            }
        }
        lemma_spans_push(h, name, j);
        let end = (h.len() as int, whole.len() as int);
        assert(seq![(i, j)] + spans_from(h, j).push(end) =~= (seq![(i, j)] + spans_from(
            h,
            j,
        )).push(end));
    }
}

/// A slash at the end of a path adds no component.
pub proof fn lemma_spans_slash(p: Seq<char>, i: int)
    requires
        0 <= i <= p.len(),
    ensures
        spans_from(p.push('/'), i) == spans_from(p, i),
    decreases p.len() - i,
{
    let h = p.push('/');
    if i == p.len() {
        assert(spans_from(h, i + 1) =~= Seq::<(int, int)>::empty());
        assert(spans_from(p, i) =~= Seq::<(int, int)>::empty());
    } else if p[i] == '/' {
        lemma_spans_slash(p, i + 1);
    } else {
        lemma_find_from(p, '/', i);
        lemma_find_from(h, '/', i);
        let j = find_from(p, '/', i);
        let jj = find_from(h, '/', i);
        assert(jj == j) by {
            assert(h[j] == '/');
            if jj < j {
                assert(h[jj] == p[jj]);
            }
        }
        lemma_spans_slash(p, j);
    }
}

/// A component put behind a path is one more component of it.
pub proof fn lemma_components_push(p: Seq<char>, name: Seq<char>)
    requires
        is_inner(name) || (p.len() == 0 && is_first(name)),
    ensures
        components(joined(p, name)) == components(p).push(name),
{
    if name == seq!['/'] {
        assert(joined(p, name) == name);
        assert(spans_from(name, 1) =~= Seq::<(int, int)>::empty());
        assert(spans(name) =~= seq![(0int, 1int)]);
        assert(components(name)[0] =~= name);
        assert(spans(p) =~= Seq::<(int, int)>::empty());
        assert(components(name) =~= components(p).push(name));
    } else {
        assert(name[0] != '/');
        let h = if p.len() > 0 && p.last() != '/' {
            p.push('/')
        } else {
            p
        };
        let whole = h + name;
        assert(joined(p, name) == whole);
        let rooted = p.len() > 0 && p[0] == '/';
        let from: int = if rooted {
            1
        } else {
            0
        };
        assert(whole[0] == if h.len() > 0 {
            h[0]
        } else {
            name[0]
        });
        lemma_spans_push(h, name, from);
        if h != p {
            lemma_spans_slash(p, from);
        }
        assert(spans_from(h, from) == spans_from(p, from));
        let end = (h.len() as int, whole.len() as int);
        assert(spans(whole) =~= spans(p).push(end));
        lemma_spans_ordered(p);
        assert forall|k: int| 0 <= k < components(whole).len() implies #[trigger] components(
            whole,
        )[k] == components(p).push(name)[k] by {
            if k < spans(p).len() {
                let s = spans(p)[k];
                assert(spans(whole)[k] == s);
                assert(whole.subrange(s.0, s.1) =~= p.subrange(s.0, s.1));
            } else {
                assert(whole.subrange(end.0, end.1) =~= name);
            }
        }
        assert(components(whole) =~= components(p).push(name));
    }
}

/// The path that the first `k` components make when each is put behind the
/// ones before it.
pub open spec fn rebuilt(cs: Seq<Seq<char>>, k: int) -> Seq<char>
    decreases k,
{
    if k <= 0 {
        Seq::empty()
    } else {
        joined(rebuilt(cs, k - 1), cs[k - 1])
    }
}

/// A path put together from the first components of another one has just
/// these components.
pub proof fn lemma_rebuilt(p: Seq<char>, k: int)
    requires
        0 <= k <= components(p).len(),
    ensures
        components(rebuilt(components(p), k)) == components(p).take(k),
        k > 0 ==> rebuilt(components(p), k).len() > 0,
    decreases k,
{
    let cs = components(p);
    if k <= 0 {
        assert(spans(Seq::<char>::empty()) =~= Seq::<(int, int)>::empty());
        assert(components(Seq::<char>::empty()) =~= cs.take(0));
    } else {
        lemma_rebuilt(p, k - 1);
        lemma_component(p, k - 1);
        lemma_components_push(rebuilt(cs, k - 1), cs[k - 1]);
        assert(cs.take(k) =~= cs.take(k - 1).push(cs[k - 1]));
        assert(cs[k - 1].len() > 0);
    }
}

} // verus!
