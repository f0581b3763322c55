//! Where the files of a package stand within it, and what the package is
//! called.

use crate::api::sync::peers::is_opt_text;
use crate::api::sync::rows::opt_text;
use crate::archive::layout_laws::lemma_decimal_injective;
use crate::archive::path_layout::{split_extension, stem_and_extension};
use crate::paths::{
    components, file_name, file_name_of, is_entry_name, join_paths, lemma_rebuilt, names_entry,
    parent, parent_of, rebuilt, tail, Parts,
};
use crate::text::{
    blank, decimal, decimal_text, is_blank, list_contains, same_text, signed_decimal,
    signed_decimal_text, texts, wide_decimal_text,
};
use std::collections::HashMap;
use vstd::prelude::*;
use vstd::string::*;

verus! {

/// How many leading components two paths share, where they share the first
/// `i`.
pub open spec fn shared_from(a: Seq<Seq<char>>, b: Seq<Seq<char>>, i: int) -> int
    decreases a.len() - i,
{
    if 0 <= i < a.len() && i < b.len() && a[i] == b[i] {
        shared_from(a, b, i + 1)
    } else {
        i
    }
}

/// The directory that two directories have in common.
pub open spec fn common_dir(a: Seq<char>, b: Seq<char>) -> Seq<char> {
    rebuilt(components(a), shared_from(components(a), components(b), 0))
}

/// The longest leading run of components that two directories share.
pub fn longest_common_dir(a: &str, b: &str) -> (r: String)
    ensures
        r@ == common_dir(a@, b@),
{
    let x = Parts::of(a);
    let y = Parts::of(b);
    let mut r: String = String::new();
    assert(r@ =~= Seq::<char>::empty());
    let mut i: usize = 0;
    while i < x.len() && i < y.len()
        invariant
            x.wf(),
            y.wf(),
            x.path() == a@,
            y.path() == b@,
            i <= components(a@).len(),
            i <= components(b@).len(),
            r@ == rebuilt(components(a@), i as int),
            shared_from(components(a@), components(b@), 0) == shared_from(
                components(a@),
                components(b@),
                i as int,
            ),
        decreases components(a@).len() - i,
    {
        let c = x.get(i);
        let d = y.get(i);
        if !same_text(c.as_str(), d.as_str()) {
            return r;
        }
        r = join_paths(r.as_str(), c.as_str());
        i = i + 1;
    }
    r
}

/// The directory that the first `n` files have in common.
pub open spec fn ancestor_of_first(paths: Seq<Seq<char>>, n: int) -> Option<Seq<char>>
    decreases n,
{
    if n <= 0 {
        None
    } else if n == 1 {
        parent(paths[0])
    } else {
        match (ancestor_of_first(paths, n - 1), parent(paths[n - 1])) {
            (Some(a), Some(b)) => if common_dir(a, b).len() > 0 {
                Some(common_dir(a, b))
            } else {
                None
            },
            _ => None,
        }
    }
}

/// Whether a directory lies below the root of the file system.
pub open spec fn names_a_dir(dir: Seq<char>) -> bool {
    exists|k: int| 0 <= k < components(dir).len() && is_entry_name(#[trigger] components(dir)[k])
}

/// The deepest directory that all files lie in; none where it would be the
/// root, or nothing at all.
pub open spec fn ancestor(paths: Seq<Seq<char>>) -> Option<Seq<char>> {
    match ancestor_of_first(paths, paths.len() as int) {
        Some(a) => if names_a_dir(a) {
            Some(a)
        } else {
            None
        },
        None => None,
    }
}

fn has_entry_name(dir: &str) -> (r: bool)
    ensures
        r == names_a_dir(dir@),
{
    let x = Parts::of(dir);
    let mut k: usize = 0;
    while k < x.len()
        invariant
            x.wf(),
            x.path() == dir@,
            k <= components(dir@).len(),
            forall|j: int| 0 <= j < k ==> !is_entry_name(#[trigger] components(dir@)[j]),
        decreases components(dir@).len() - k,
    {
        let c = x.get(k);
        if names_entry(&c) {
            assert(is_entry_name(components(dir@)[k as int]));
            return true;
        }
        k = k + 1;
    }
    false
}

/// The files behind an empty answer give an empty answer too.
proof fn lemma_no_ancestor_stays(paths: Seq<Seq<char>>, m: int, n: int)
    requires
        1 <= m <= n,
        ancestor_of_first(paths, m) is None,
    ensures
        ancestor_of_first(paths, n) is None,
    decreases n,
{
    if m < n {
        lemma_no_ancestor_stays(paths, m, n - 1);
    }
}

/// The deepest directory that all files lie in.
pub fn common_ancestor(paths: &Vec<String>) -> (r: Option<String>)
    ensures
        is_opt_text(r, ancestor(texts(paths@))),
{
    let ghost ps = texts(paths@);
    if paths.len() == 0 {
        return None;
    }
    assert(ps[0] == paths@[0]@);
    let mut a: String = match parent_of(paths[0].as_str()) {
        Some(d) => d,
        None => {
            proof {
                lemma_no_ancestor_stays(ps, 1, ps.len() as int);
            }
            return None;
        },
    };
    let mut i: usize = 1;
    while i < paths.len()
        invariant
            1 <= i <= paths@.len(),
            ps == texts(paths@),
            ancestor_of_first(ps, i as int) == Some(a@),
        decreases paths@.len() - i,
    {
        assert(ps[i as int] == paths@[i as int]@);
        let d = match parent_of(paths[i].as_str()) {
            Some(d) => d,
            None => {
                proof {
                    lemma_no_ancestor_stays(ps, i + 1, ps.len() as int);
                }
                return None;
            },
        };
        a = longest_common_dir(a.as_str(), d.as_str());
        if a.as_str().is_empty() {
            proof {
                lemma_no_ancestor_stays(ps, i + 1, ps.len() as int);
            }
            return None;
        }
        i = i + 1;
    }
    if has_entry_name(a.as_str()) {
        Some(a)
    } else {
        None
    }
}

/// Whether the directory `dir` contains the directory `inner`, or is it.
pub open spec fn contains_dir(dir: Seq<char>, inner: Seq<char>) -> bool {
    let d = components(dir);
    d.len() <= components(inner).len() && components(inner).take(d.len() as int) == d
}

proof fn lemma_shared_from(a: Seq<Seq<char>>, b: Seq<Seq<char>>, i: int)
    requires
        0 <= i <= a.len(),
        i <= b.len(),
        a.take(i) == b.take(i),
    ensures
        i <= shared_from(a, b, i) <= a.len(),
        shared_from(a, b, i) <= b.len(),
        a.take(shared_from(a, b, i)) == b.take(shared_from(a, b, i)),
        forall|c: Seq<Seq<char>>|
            #![trigger c.len()]
            i <= c.len() <= a.len() && c.len() <= b.len() && a.take(c.len() as int) == c && b.take(
                c.len() as int,
            ) == c ==> c.len() <= shared_from(a, b, i),
    decreases a.len() - i,
{
    if i < a.len() && i < b.len() && a[i] == b[i] {
        assert(a.take(i + 1) =~= a.take(i).push(a[i]));
        assert(b.take(i + 1) =~= b.take(i).push(b[i]));
        lemma_shared_from(a, b, i + 1);
    } else {
        assert forall|c: Seq<Seq<char>>|
            #![trigger c.len()]
            i <= c.len() <= a.len() && c.len() <= b.len() && a.take(c.len() as int) == c && b.take(
                c.len() as int,
            ) == c implies c.len() <= i by {
            if c.len() > i {
                assert(a.take(c.len() as int)[i] == b.take(c.len() as int)[i]);
            }
        }
    }
}

/// The directory that two directories have in common contains both, and every one that
/// does contains it.
pub proof fn lemma_common_dir(a: Seq<char>, b: Seq<char>)
    ensures
        contains_dir(common_dir(a, b), a),
        contains_dir(common_dir(a, b), b),
        forall|d: Seq<char>| #[trigger]
            contains_dir(d, a) && contains_dir(d, b) ==> contains_dir(d, common_dir(a, b)),
        common_dir(a, b).len() == 0 ==> components(common_dir(a, b)).len() == 0,
{
    let x = components(a);
    let y = components(b);
    assert(x.take(0) =~= y.take(0));
    lemma_shared_from(x, y, 0);
    let k = shared_from(x, y, 0);
    lemma_rebuilt(a, k);
    let c = common_dir(a, b);
    assert(components(c) == x.take(k));
    assert(x.take(components(c).len() as int) =~= components(c));
    assert forall|d: Seq<char>| #[trigger] contains_dir(d, a) && contains_dir(d, b) implies contains_dir(
        d,
        c,
    ) by {
        let e = components(d);
        assert(e.len() <= k);
        assert(components(c).take(e.len() as int) =~= x.take(e.len() as int));
    }
}

proof fn lemma_ancestor_of_first(paths: Seq<Seq<char>>, n: int)
    requires
        1 <= n <= paths.len(),
        forall|i: int| 0 <= i < n ==> parent(#[trigger] paths[i]) is Some,
    ensures
        match ancestor_of_first(paths, n) {
            Some(a) => {
                &&& forall|i: int|
                    0 <= i < n ==> contains_dir(a, parent(#[trigger] paths[i])->Some_0)
                &&& forall|d: Seq<char>| lies_over(d, paths, n) ==> contains_dir(d, a)
            },
            None => forall|d: Seq<char>| #[trigger] lies_over(d, paths, n) ==> components(d).len() == 0,
        },
    decreases n,
{
    if n == 1 {
        let a = parent(paths[0])->Some_0;
        assert(components(a).take(components(a).len() as int) =~= components(a));
        assert forall|d: Seq<char>| lies_over(d, paths, n) implies contains_dir(d, a) by {
            assert(contains_dir(d, parent(paths[0])->Some_0));
        }
    } else {
        lemma_ancestor_of_first(paths, n - 1);
        let b = parent(paths[n - 1])->Some_0;
        match ancestor_of_first(paths, n - 1) {
            Some(a) => {
                let c = common_dir(a, b);
                lemma_common_dir(a, b);
                assert forall|i: int| 0 <= i < n implies contains_dir(
                    c,
                    parent(#[trigger] paths[i])->Some_0,
                ) by {
                    if i < n - 1 {
                        lemma_contains_trans(c, a, parent(paths[i])->Some_0);
                    }
                }
                assert forall|d: Seq<char>| #[trigger] lies_over(d, paths, n) implies contains_dir(
                    d,
                    c,
                ) by {
                    assert(lies_over(d, paths, n - 1));
                    assert(contains_dir(d, parent(paths[n - 1])->Some_0));
                    assert(contains_dir(d, a));
                }
                if c.len() == 0 {
                    assert forall|d: Seq<char>| #[trigger] lies_over(d, paths, n) implies components(
                        d,
                    ).len() == 0 by {
                        assert(contains_dir(d, c));
                    }
                }
            },
            None => {
                assert forall|d: Seq<char>| #[trigger] lies_over(d, paths, n) implies components(
                    d,
                ).len() == 0 by {
                    assert(lies_over(d, paths, n - 1));
                }
            },
        }
    }
}

/// Whether a directory contains each of the first `n` files.
pub open spec fn lies_over(d: Seq<char>, paths: Seq<Seq<char>>, n: int) -> bool {
    forall|i: int| 0 <= i < n ==> contains_dir(d, parent(#[trigger] paths[i])->Some_0)
}

proof fn lemma_contains_trans(a: Seq<char>, b: Seq<char>, c: Seq<char>)
    requires
        contains_dir(a, b),
        contains_dir(b, c),
    ensures
        contains_dir(a, c),
{
    let x = components(a);
    assert(components(c).take(x.len() as int) =~= components(b).take(x.len() as int));
}

/// The common ancestor is the deepest directory that contains every file: it
/// contains each of them, and every other directory that does contains it. It
/// is missing only where no directory below the root does.
pub proof fn law_ancestor_is_the_deepest(paths: Seq<Seq<char>>)
    requires
        paths.len() > 0,
        forall|i: int| 0 <= i < paths.len() ==> parent(#[trigger] paths[i]) is Some,
    ensures
        match ancestor(paths) {
            Some(a) => {
                &&& lies_over(a, paths, paths.len() as int)
                &&& names_a_dir(a)
                &&& forall|d: Seq<char>|
                    lies_over(d, paths, paths.len() as int) ==> contains_dir(d, a)
            },
            None => forall|d: Seq<char>|
                lies_over(d, paths, paths.len() as int) ==> !names_a_dir(d),
        },
{
    let n = paths.len() as int;
    lemma_ancestor_of_first(paths, n);
    match ancestor_of_first(paths, n) {
        Some(a) => {
            if !names_a_dir(a) {
                assert forall|d: Seq<char>| lies_over(d, paths, n) implies !names_a_dir(d) by {
                    assert(contains_dir(d, a));
                    if names_a_dir(d) {
                        let k = choose|k: int|
                            0 <= k < components(d).len() && is_entry_name(
                                #[trigger] components(d)[k],
                            );
                        assert(components(a).take(components(d).len() as int)[k] == components(
                            a,
                        )[k]);
                        assert(is_entry_name(components(a)[k]));
                    }
                }
            }
        },
        None => {},
    }
}

/// The names among the first `n` components, with slashes between them.
pub open spec fn entry_names(cs: Seq<Seq<char>>, n: int) -> Seq<char>
    decreases n,
{
    if n <= 0 {
        Seq::empty()
    } else {
        let before = entry_names(cs, n - 1);
        if !is_entry_name(cs[n - 1]) {
            before
        } else if before.len() == 0 {
            cs[n - 1]
        } else {
            before + "/"@ + cs[n - 1]
        }
    }
}

/// The directories between an ancestor and a file below it.
pub open spec fn between(path: Seq<char>, above: Seq<char>) -> Option<Seq<char>> {
    if !contains_dir(above, path) {
        None
    } else {
        match parent(tail(path, components(above).len() as int)) {
            Some(d) => Some(entry_names(components(d), components(d).len() as int)),
            None => None,
        }
    }
}

/// The directories between an ancestor and a file below it, with slashes
/// between them; none where the file is not below it.
pub fn source_rel_dir(path: &str, above: &str) -> (r: Option<String>)
    ensures
        is_opt_text(r, between(path@, above@)),
{
    let p = Parts::of(path);
    let a = Parts::of(above);
    let n = a.len();
    if n > p.len() {
        return None;
    }
    let mut k: usize = 0;
    while k < n
        invariant
            p.wf(),
            a.wf(),
            p.path() == path@,
            a.path() == above@,
            n == components(above@).len(),
            n <= components(path@).len(),
            k <= n,
            forall|j: int| 0 <= j < k ==> components(path@)[j] == #[trigger] components(above@)[j],
        decreases n - k,
    {
        let c = p.get(k);
        let d = a.get(k);
        if !same_text(c.as_str(), d.as_str()) {
            assert(components(path@).take(n as int)[k as int] != components(above@)[k as int]);
            return None;
        }
        k = k + 1;
    }
    assert(components(path@).take(n as int) =~= components(above@));
    let rel = p.tail(n);
    match parent_of(rel.as_str()) {
        None => None,
        Some(dir) => {
            let x = Parts::of(dir.as_str());
            let mut r: String = String::new();
            assert(r@ =~= Seq::<char>::empty());
            let mut i: usize = 0;
            while i < x.len()
                invariant
                    x.wf(),
                    x.path() == dir@,
                    i <= components(dir@).len(),
                    r@ == entry_names(components(dir@), i as int),
                decreases components(dir@).len() - i,
            {
                let c = x.get(i);
                if names_entry(&c) {
                    if !r.as_str().is_empty() {
                        r.append("/");
                        r.append(c.as_str());
                    } else {
                        r = c;
                    }
                }
                i = i + 1;
            }
            Some(r)
        },
    }
}

/// The name of a file cut before and behind the dot of its extension.
pub open spec fn stem_ext(filename: Seq<char>) -> (Seq<char>, Option<Seq<char>>) {
    match file_name(filename) {
        Some(n) => stem_and_extension(n),
        None => (filename, None),
    }
}

/// The name of a file cut at its last dot.
pub fn split_stem_ext(filename: &str) -> (r: (String, Option<String>))
    ensures
        r.0@ == stem_ext(filename@).0,
        is_opt_text(r.1, stem_ext(filename@).1),
{
    match file_name_of(filename) {
        Some(n) => split_extension(n.as_str()),
        None => (filename.to_owned(), None),
    }
}

/// The name of a file with a number before its extension.
pub open spec fn numbered(filename: Seq<char>, n: nat) -> Seq<char> {
    let (stem, ext) = stem_ext(filename);
    stem + "_"@ + decimal(n) + match ext {
        Some(e) => "."@ + e,
        None => Seq::empty(),
    }
}

/// Different numbers make different names.
proof fn lemma_numbered_injective(filename: Seq<char>, a: nat, b: nat)
    requires
        numbered(filename, a) == numbered(filename, b),
    ensures
        a == b,
{
    let (stem, ext) = stem_ext(filename);
    let open = stem + "_"@;
    let end = match ext {
        Some(e) => "."@ + e,
        None => Seq::empty(),
    };
    let x = numbered(filename, a);
    let y = numbered(filename, b);
    assert(x.len() == open.len() + decimal(a).len() + end.len());
    assert(y.len() == open.len() + decimal(b).len() + end.len());
    assert(x.subrange(open.len() as int, (open.len() + decimal(a).len()) as int) =~= decimal(a));
    assert(y.subrange(open.len() as int, (open.len() + decimal(b).len()) as int) =~= decimal(b));
    lemma_decimal_injective(a, b);
}

/// A directory of a package with a name in it.
pub type Taken = (Seq<char>, Seq<char>);

/// Whether `n` is the first number, from two on, that makes a name free.
pub open spec fn is_free_number(
    used: Set<Taken>,
    dir: Seq<char>,
    filename: Seq<char>,
    n: nat,
) -> bool {
    &&& n >= 2
    &&& !used.contains((dir, numbered(filename, n)))
    &&& forall|m: nat| 2 <= m < n ==> used.contains((dir, #[trigger] numbered(filename, m)))
}

/// The name that a file gets in a directory: its own, or with the first
/// number that makes it free.
pub open spec fn given_name(used: Set<Taken>, dir: Seq<char>, filename: Seq<char>) -> Seq<char> {
    if used.contains((dir, filename)) {
        numbered(filename, choose|n: nat| is_free_number(used, dir, filename, n))
    } else {
        filename
    }
}

/// The numbers that were tried in vain are no more than the names that are
/// taken.
proof fn lemma_numbers_tried(used: Set<Taken>, dir: Seq<char>, filename: Seq<char>, n: nat)
    requires
        used.finite(),
        n >= 2,
        forall|m: nat| 2 <= m < n ==> used.contains((dir, #[trigger] numbered(filename, m))),
    ensures
        n - 2 <= used.len(),
{
    let tried = Seq::new((n - 2) as nat, |i: int| (dir, numbered(filename, (i + 2) as nat)));
    assert(tried.no_duplicates()) by {
        assert forall|i: int, j: int|
            0 <= i < tried.len() && 0 <= j < tried.len() && i != j implies tried[i] != tried[j] by {
            if tried[i] == tried[j] {
                lemma_numbered_injective(filename, (i + 2) as nat, (j + 2) as nat);
            }
        }
    }
    assert(tried.to_set().subset_of(used)) by {
        assert forall|t: Taken| tried.to_set().contains(t) implies used.contains(t) by {
            let i = choose|i: int| 0 <= i < tried.len() && tried[i] == t;
            assert(used.contains((dir, numbered(filename, (i + 2) as nat))));
        }
    }
    tried.unique_seq_to_set();
    vstd::set_lib::lemma_len_subset(tried.to_set(), used);
}

proof fn lemma_least_free(used: Set<Taken>, dir: Seq<char>, filename: Seq<char>, n: nat)
    requires
        n >= 2,
        !used.contains((dir, numbered(filename, n))),
    ensures
        exists|m: nat| is_free_number(used, dir, filename, m),
    decreases n,
{
    if forall|m: nat| 2 <= m < n ==> used.contains((dir, #[trigger] numbered(filename, m))) {
        assert(is_free_number(used, dir, filename, n));
    } else {
        let m = choose|m: nat|
            2 <= m < n && !used.contains((dir, #[trigger] numbered(filename, m)));
        lemma_least_free(used, dir, filename, m);
    }
}

/// The name that a file gets is not taken, whatever is. It is the file's own if
/// and only if that is not taken; otherwise it is numbered with the least number
/// from two on that makes it free.
pub proof fn law_given_name_is_free(used: Set<Taken>, dir: Seq<char>, filename: Seq<char>)
    requires
        used.finite(),
    ensures
        !used.contains((dir, given_name(used, dir, filename))),
        given_name(used, dir, filename) == filename <==> !used.contains((dir, filename)),
        used.contains((dir, filename)) ==> exists|n: nat|
            #[trigger] is_free_number(used, dir, filename, n) && given_name(used, dir, filename)
                == numbered(filename, n),
{
    if used.contains((dir, filename)) {
        let top = (used.len() + 3) as nat;
        if forall|m: nat| 2 <= m < top ==> used.contains((dir, #[trigger] numbered(filename, m))) {
            lemma_numbers_tried(used, dir, filename, top);
        }
        let n = choose|m: nat|
            2 <= m < top && !used.contains((dir, #[trigger] numbered(filename, m)));
        lemma_least_free(used, dir, filename, n);
    }
}

/// The names that are taken once the first `n` files have got theirs, each a
/// directory with the file's own name.
pub open spec fn taken_after(used: Set<Taken>, files: Seq<Taken>, n: int) -> Set<Taken>
    decreases n,
{
    if n <= 0 {
        used
    } else {
        let before = taken_after(used, files, n - 1);
        let (dir, filename) = files[n - 1];
        before.insert((dir, given_name(before, dir, filename)))
    }
}

/// The name that the file at a place gets, after those before it got theirs.
pub open spec fn name_in_turn(used: Set<Taken>, files: Seq<Taken>, i: int) -> Seq<char> {
    given_name(taken_after(used, files, i), files[i].0, files[i].1)
}

proof fn lemma_taken_after(used: Set<Taken>, files: Seq<Taken>, m: int, n: int)
    requires
        used.finite(),
        0 <= m <= n,
    ensures
        taken_after(used, files, m).subset_of(taken_after(used, files, n)),
        taken_after(used, files, n).finite(),
    decreases n,
{
    if n > 0 {
        if m < n {
            lemma_taken_after(used, files, m, n - 1);
        } else {
            lemma_taken_after(used, files, n - 1, n - 1);
        }
    }
}

/// However many files get names one after the other, no two in one directory
/// get the same, and none gets a name that was taken before all of them.
pub proof fn law_names_never_repeat(used: Set<Taken>, files: Seq<Taken>, i: int, j: int)
    requires
        used.finite(),
        0 <= i < j < files.len(),
    ensures
        files[i].0 == files[j].0 ==> name_in_turn(used, files, i) != name_in_turn(used, files, j),
        !used.contains((files[i].0, name_in_turn(used, files, i))),
        !used.contains((files[j].0, name_in_turn(used, files, j))),
{
    lemma_taken_after(used, files, 0, i);
    lemma_taken_after(used, files, 0, j);
    lemma_taken_after(used, files, i + 1, j);
    law_given_name_is_free(taken_after(used, files, i), files[i].0, files[i].1);
    law_given_name_is_free(taken_after(used, files, j), files[j].0, files[j].1);
    assert(taken_after(used, files, i + 1).contains((files[i].0, name_in_turn(used, files, i))));
}

/// Names count by directory: a directory that none of the files goes to keeps
/// the names that are taken in it.
pub proof fn law_other_directories_are_left_alone(
    used: Set<Taken>,
    files: Seq<Taken>,
    n: int,
    dir: Seq<char>,
    name: Seq<char>,
)
    requires
        0 <= n <= files.len(),
        forall|k: int| 0 <= k < n ==> (#[trigger] files[k]).0 != dir,
    ensures
        taken_after(used, files, n).contains((dir, name)) == used.contains((dir, name)),
    decreases n,
{
    if n > 0 {
        law_other_directories_are_left_alone(used, files, n - 1, dir, name);
    }
}

/// A name in a directory of a package.
#[derive(Debug)]
pub struct UsedName {
    pub dir: String,
    pub name: String,
}

/// The names that are taken in a list.
pub open spec fn taken_in(names: Seq<UsedName>) -> Seq<Taken> {
    Seq::new(names.len(), |k: int| (names[k].dir@, names[k].name@))
}

/// The names that are taken in each directory of a package.
#[derive(Debug)]
pub struct UsedNames {
    names: Vec<UsedName>,
}

impl View for UsedNames {
    type V = Set<Taken>;

    closed spec fn view(&self) -> Set<Taken> {
        taken_in(self.names@).to_set()
    }
}

impl UsedNames {
    /// No name is taken.
    pub fn new() -> (r: Self)
        ensures
            r@ == Set::<Taken>::empty(),
    {
        let r = UsedNames { names: Vec::new() };
        assert(r@ =~= Set::<Taken>::empty());
        r
    }

    /// Whether a name is taken.
    pub fn contains(&self, dir: &str, name: &str) -> (r: bool)
        ensures
            r == self@.contains((dir@, name@)),
    {
        let ghost all = taken_in(self.names@);
        let mut i: usize = 0;
        while i < self.names.len()
            invariant
                i <= self.names@.len(),
                all == taken_in(self.names@),
                forall|k: int| 0 <= k < i ==> #[trigger] all[k] != (dir@, name@),
            decreases self.names@.len() - i,
        {
            if same_text(self.names[i].dir.as_str(), dir) && same_text(
                self.names[i].name.as_str(),
                name,
            ) {
                assert(all[i as int] == (dir@, name@));
                return true;
            }
            assert(all[i as int] != (dir@, name@));
            i = i + 1;
        }
        false
    }

    /// Takes a name.
    pub fn insert(&mut self, dir: &str, name: &str)
        ensures
            final(self)@ == old(self)@.insert((dir@, name@)),
    {
        let ghost before = taken_in(self.names@);
        self.names.push(UsedName { dir: dir.to_owned(), name: name.to_owned() });
        proof {
            let now = taken_in(self.names@);
            assert(now =~= before.push((dir@, name@)));
            assert(self@ =~= before.to_set().insert((dir@, name@))) by {
                assert forall|t: Taken| before.to_set().insert((dir@, name@)).contains(t) implies now.to_set().contains(
                    t,
                ) by {
                    if t == (dir@, name@) {
                        assert(now[before.len() as int] == t);
                    } else {
                        let k = choose|k: int| 0 <= k < before.len() && before[k] == t;
                        assert(now[k] == t);
                    }
                }
            }
        }
    }

    /// The names that are taken can be counted.
    pub proof fn lemma_count(&self)
        ensures
            self@.finite(),
            self@.len() <= usize::MAX,
    {
        assert(self.names.len() == self.names@.len());
        taken_in(self.names@).lemma_cardinality_of_set();
        vstd::seq_lib::seq_to_set_is_finite(taken_in(self.names@));
    }
}

/// A name for a file that is free in its directory: its own the first time,
/// then with a number before the extension. Names count by directory.
pub fn dedup_in_dir(dir: &str, filename: &str, used: &mut UsedNames) -> (r: String)
    ensures
        r@ == given_name(old(used)@, dir@, filename@),
        !old(used)@.contains((dir@, r@)),
        final(used)@ == old(used)@.insert((dir@, r@)),
        r@ == filename@ <==> !old(used)@.contains((dir@, filename@)),
{
    if !used.contains(dir, filename) {
        used.insert(dir, filename);
        return filename.to_owned();
    }
    let (stem, ext) = split_stem_ext(filename);
    let mut n: u128 = 2;
    proof {
        used.lemma_count();
    }
    loop
        invariant
            2 <= n,
            *used == *old(used),
            used@.finite(),
            used@.len() <= usize::MAX,
            used@.contains((dir@, filename@)),
            stem@ == stem_ext(filename@).0,
            is_opt_text(ext, stem_ext(filename@).1),
            forall|m: nat|
                2 <= m < n ==> used@.contains((dir@, #[trigger] numbered(filename@, m))),
        decreases used@.len() + 2 - n,
    {
        let mut c: String = stem.clone();
        c.append("_");
        c.append(wide_decimal_text(n).as_str());
        match &ext {
            Some(e) => {
                c.append(".");
                c.append(e.as_str());
            },
            None => {},
        }
        assert(c@ =~= numbered(filename@, n as nat));
        if !used.contains(dir, c.as_str()) {
            proof {
                assert(is_free_number(used@, dir@, filename@, n as nat));
                let f = choose|f: nat| is_free_number(used@, dir@, filename@, f);
                if f < n {
                    assert(used@.contains((dir@, numbered(filename@, f))));
                } else if n < f {
                    assert(used@.contains((dir@, numbered(filename@, n as nat))));
                }
            }
            used.insert(dir, c.as_str());
            return c;
        }
        proof {
            lemma_numbers_tried(used@, dir@, filename@, (n + 1) as nat);
        }
        n = n + 1;
    }
}

/// How the files of a package are laid out.
#[derive(Debug)]
pub enum RelPathLayout {
    /// By the directory that stacking wants each frame in.
    Wbpp(HashMap<i64, String>),
    /// As the files lie below their common ancestor, where they have one.
    SourceRelative(Option<String>),
}

/// How the files of a package are laid out, as a mathematical value.
pub ghost enum Placing {
    Wbpp(Map<i64, Seq<char>>),
    SourceRelative(Option<Seq<char>>),
}

impl View for RelPathLayout {
    type V = Placing;

    open spec fn view(&self) -> Placing {
        match self {
            RelPathLayout::Wbpp(m) => Placing::Wbpp(m@.map_values(|d: String| d@)),
            RelPathLayout::SourceRelative(Some(a)) => Placing::SourceRelative(Some(a@)),
            RelPathLayout::SourceRelative(None) => Placing::SourceRelative(None),
        }
    }
}

/// The name of a frame's file; one made from its id where it has none.
pub open spec fn payload_name(frame_id: i64, filename: Seq<char>) -> Seq<char> {
    if is_blank(filename) {
        "frame_"@ + signed_decimal(frame_id as int) + ".fits"@
    } else {
        filename
    }
}

fn name_payload(frame_id: i64, filename: &str) -> (r: String)
    ensures
        r@ == payload_name(frame_id, filename@),
{
    if blank(filename) {
        let mut r: String = "frame_".to_owned();
        r.append(signed_decimal_text(frame_id).as_str());
        r.append(".fits");
        r
    } else {
        filename.to_owned()
    }
}

/// The directory of the package that a frame's file goes to.
pub open spec fn payload_dir(placing: Placing, frame_id: i64, path: Seq<char>) -> Seq<char> {
    match placing {
        Placing::Wbpp(m) => if m.contains_key(frame_id) {
            m[frame_id]
        } else {
            Seq::empty()
        },
        Placing::SourceRelative(Some(a)) => match between(path, a) {
            Some(d) => d,
            None => Seq::empty(),
        },
        Placing::SourceRelative(None) => Seq::empty(),
    }
}

/// A name in a directory of the package, as one path.
pub open spec fn placed(dir: Seq<char>, name: Seq<char>) -> Seq<char> {
    if dir.len() == 0 {
        name
    } else {
        dir + "/"@ + name
    }
}

/// A name in a directory of the package, as one path.
pub fn place(dir: &str, name: &str) -> (r: String)
    ensures
        r@ == placed(dir@, name@),
{
    if dir.is_empty() {
        name.to_owned()
    } else {
        let mut r: String = dir.to_owned();
        r.append("/");
        r.append(name);
        r
    }
}

fn choose_dir(layout: &RelPathLayout, frame_id: i64, path: &str) -> (r: String)
    ensures
        r@ == payload_dir(layout@, frame_id, path@),
{
    broadcast use vstd::std_specs::hash::group_hash_axioms;

    match layout {
        RelPathLayout::Wbpp(m) => match m.get(&frame_id) {
            Some(d) => d.clone(),
            None => {
                let r = String::new();
                assert(r@ =~= Seq::<char>::empty());
                r
            },
        },
        RelPathLayout::SourceRelative(Some(a)) => match source_rel_dir(path, a.as_str()) {
            Some(d) => d,
            None => {
                let r = String::new();
                assert(r@ =~= Seq::<char>::empty());
                r
            },
        },
        RelPathLayout::SourceRelative(None) => {
            let r = String::new();
            assert(r@ =~= Seq::<char>::empty());
            r
        },
    }
}

/// Where a frame's file stands in the package; where the name is taken in its
/// directory, it gets a number.
pub fn assign_rel_path(
    layout: &RelPathLayout,
    frame_id: i64,
    path: &str,
    filename: &str,
    used: &mut UsedNames,
) -> (r: String)
    ensures
        ({
            let dir = payload_dir(layout@, frame_id, path@);
            let name = given_name(old(used)@, dir, payload_name(frame_id, filename@));
            &&& r@ == placed(dir, name)
            &&& !old(used)@.contains((dir, name))
            &&& final(used)@ == old(used)@.insert((dir, name))
        }),
{
    let base = name_payload(frame_id, filename);
    let dir = choose_dir(layout, frame_id, path);
    let name = dedup_in_dir(dir.as_str(), base.as_str(), used);
    place(dir.as_str(), name.as_str())
}

/// A frame set that a send is named after: its id and, where it is on record,
/// the name it has there.
#[derive(Debug)]
pub struct FrameSetLookup {
    pub id: i64,
    pub row: Option<Option<String>>,
}

/// The name of a frame set: the one on record, or one made from its id where
/// that is blank; none where the set is not on record.
pub open spec fn set_name(f: FrameSetLookup) -> Option<Seq<char>> {
    match f.row {
        Some(Some(n)) => if is_blank(n@) {
            Some("Frame Set "@ + signed_decimal(f.id as int))
        } else {
            Some(n@)
        },
        Some(None) => Some("Frame Set "@ + signed_decimal(f.id as int)),
        None => None,
    }
}

fn made_set_name(id: i64) -> (r: String)
    ensures
        r@ == "Frame Set "@ + signed_decimal(id as int),
{
    let mut r: String = "Frame Set ".to_owned();
    r.append(signed_decimal_text(id).as_str());
    r
}

/// The name of a frame set.
pub fn frame_set_name(f: &FrameSetLookup) -> (r: Option<String>)
    ensures
        is_opt_text(r, set_name(*f)),
{
    match &f.row {
        Some(Some(n)) => {
            if blank(n.as_str()) {
                Some(made_set_name(f.id))
            } else {
                Some(n.clone())
            }
        },
        Some(None) => Some(made_set_name(f.id)),
        None => None,
    }
}

/// The name of a batch: the one that the user gave, as it is; or that of the
/// frame set; or that of the directory that all files lie in; or how many
/// files it holds, and when it was made.
pub open spec fn batch_name(
    user: Option<Seq<char>>,
    frame_set: Option<Seq<char>>,
    above: Option<Seq<char>>,
    file_count: nat,
    now: Seq<char>,
) -> Seq<char> {
    match (user, frame_set) {
        (Some(n), _) if !is_blank(n) => n,
        (_, Some(n)) => n,
        _ => match above {
            Some(a) if file_name(a) is Some => file_name(a)->Some_0,
            _ => decimal(file_count) + " files — "@ + now,
        },
    }
}

/// What a batch can be named after.
#[derive(Debug)]
pub struct BatchNaming {
    pub user: Option<String>,
    pub frame_set: Option<FrameSetLookup>,
    /// The time of day, to the minute.
    pub now: String,
}

impl BatchNaming {
    /// The name of a batch of that many files below that directory.
    pub open spec fn name(&self, above: Option<Seq<char>>, file_count: nat) -> Seq<char> {
        batch_name(
            opt_text(self.user),
            match self.frame_set {
                Some(f) => set_name(f),
                None => None,
            },
            above,
            file_count,
            self.now@,
        )
    }
}

/// The name of a batch of that many files below that directory.
pub fn resolve_batch_name(naming: &BatchNaming, above: &Option<String>, file_count: usize) -> (r:
    String)
    ensures
        r@ == naming.name(opt_text(*above), file_count as nat),
{
    match &naming.user {
        Some(n) => {
            if !blank(n.as_str()) {
                return n.clone();
            }
        },
        None => {},
    }
    match &naming.frame_set {
        Some(f) => match frame_set_name(f) {
            Some(n) => {
                return n;
            },
            None => {},
        },
        None => {},
    }
    match above {
        Some(a) => match file_name_of(a.as_str()) {
            Some(n) => {
                return n;
            },
            None => {},
        },
        None => {},
    }
    let mut r: String = decimal_text(file_count as u64);
    r.append(" files — ");
    r.append(naming.now.as_str());
    r
}

/// The first name at or behind `i` that is made of a tag and a base and is not
/// taken.
pub open spec fn first_tagged(
    used: Seq<Seq<char>>,
    base: Seq<char>,
    tags: Seq<Seq<char>>,
    i: int,
) -> Option<Seq<char>>
    decreases tags.len() - i,
{
    if i >= tags.len() {
        None
    } else if used.contains(tags[i] + "_"@ + base) {
        first_tagged(used, base, tags, i + 1)
    } else {
        Some(tags[i] + "_"@ + base)
    }
}

/// The name that a file gets in a package without directories: its own; or
/// with its frame's id before it; or with the first tag that makes it free.
pub open spec fn unique_name(
    filename: Seq<char>,
    frame_id: i64,
    used: Seq<Seq<char>>,
    tags: Seq<Seq<char>>,
) -> Option<Seq<char>> {
    let base = payload_name(frame_id, filename);
    let own = signed_decimal(frame_id as int) + "_"@ + base;
    if !used.contains(base) {
        Some(base)
    } else if !used.contains(own) {
        Some(own)
    } else {
        first_tagged(used, base, tags, 0)
    }
}

/// A name for a file that is free in a package without directories; none
/// where the tags do not suffice.
pub fn unique_rel_path(
    filename: &str,
    frame_id: i64,
    used: &mut Vec<String>,
    tags: &Vec<String>,
) -> (r: Option<String>)
    ensures
        is_opt_text(r, unique_name(filename@, frame_id, texts(old(used)@), texts(tags@))),
        match r {
            Some(n) => texts(final(used)@) == texts(old(used)@).push(n@),
            None => texts(final(used)@) == texts(old(used)@),
        },
{
    let ghost taken = texts(used@);
    let base = name_payload(frame_id, filename);
    let mut chosen: String = base.clone();
    if list_contains(used, base.as_str()) {
        chosen = signed_decimal_text(frame_id);
        chosen.append("_");
        chosen.append(base.as_str());
        if list_contains(used, chosen.as_str()) {
            let mut i: usize = 0;
            while i < tags.len() && list_contains(used, chosen.as_str())
                invariant
                    i <= tags@.len(),
                    taken == texts(used@),
                    *used == *old(used),
                    taken.contains(base@),
                    base@ == payload_name(frame_id, filename@),
                    taken.contains(signed_decimal(frame_id as int) + "_"@ + base@),
                    taken.contains(chosen@) ==> first_tagged(taken, base@, texts(tags@), 0)
                        == first_tagged(taken, base@, texts(tags@), i as int),
                    !taken.contains(chosen@) ==> first_tagged(taken, base@, texts(tags@), 0)
                        == Some(chosen@),
                decreases tags@.len() - i,
            {
                assert(texts(tags@)[i as int] == tags@[i as int]@);
                chosen = tags[i].clone();
                chosen.append("_");
                chosen.append(base.as_str());
                i = i + 1;
            }
            if list_contains(used, chosen.as_str()) {
                return None;
            }
        }
    }
    used.push(chosen.clone());
    assert(texts(used@) =~= taken.push(chosen@));
    Some(chosen)
}

} // verus!
