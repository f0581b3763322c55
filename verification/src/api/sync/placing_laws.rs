//! Where the files of a package go, and what a package is called.

use crate::api::sync::layout::{
    assign_rel_path, common_ancestor, contains_dir, dedup_in_dir, entry_names, first_tagged,
    frame_set_name, is_free_number, law_ancestor_is_the_deepest, law_given_name_is_free,
    lemma_common_dir, lies_over, longest_common_dir, names_a_dir, numbered, place,
    resolve_batch_name, source_rel_dir, split_stem_ext, unique_rel_path, BatchNaming,
    FrameSetLookup, RelPathLayout, UsedNames,
};
use crate::api::sync::status_laws::is_text;
use crate::api::sync::summaries::{outbound_package_key, row_count, short_id, short_pkg};
use crate::paths::{
    components, file_name_of, head, is_entry_name, is_inner, joined, lemma_components_push,
    lemma_spans_push, lemma_spans_slash, parent, spans, spans_from, tail,
};
use crate::text::{decimal, is_blank, signed_decimal, texts};
use vstd::prelude::*;

verus! {

/// The directory that two directories have in common contains both, and every
/// directory that contains both contains it; the order of the two does not matter.
pub proof fn law_common_directory_is_the_deepest(
    a: &str,
    b: &str,
    r: String,
    q: String,
    d: Seq<char>,
)
    requires
        call_ensures(longest_common_dir, (a, b), r),
        call_ensures(longest_common_dir, (b, a), q),
    ensures
        contains_dir(r@, a@),
        contains_dir(r@, b@),
        contains_dir(d, a@) && contains_dir(d, b@) ==> contains_dir(d, r@),
        components(r@) == components(q@),
{
    lemma_common_dir(a@, b@);
    lemma_common_dir(b@, a@);
    assert(contains_dir(r@, q@));
    assert(contains_dir(q@, r@));
    assert(components(r@).take(components(r@).len() as int) =~= components(r@));
}

/// The common ancestor of files is the deepest directory below the root that they all
/// lie in.
pub proof fn law_common_ancestor_is_the_deepest(
    paths: Vec<String>,
    r: Option<String>,
    d: Seq<char>,
)
    requires
        call_ensures(common_ancestor, (&paths,), r),
        paths@.len() > 0,
        forall|i: int| 0 <= i < paths@.len() ==> parent(#[trigger] texts(paths@)[i]) is Some,
    ensures
        r matches Some(a) ==> lies_over(a@, texts(paths@), paths@.len() as int) && names_a_dir(
            a@,
        ) && (lies_over(d, texts(paths@), paths@.len() as int) ==> contains_dir(d, a@)),
        r is None && lies_over(d, texts(paths@), paths@.len() as int) ==> !names_a_dir(d),
{
    law_ancestor_is_the_deepest(texts(paths@));
}

/// A file has directories between it and an ancestor only if it lies below it.
pub proof fn law_only_a_file_below_has_directories_between(
    path: &str,
    above: &str,
    r: Option<String>,
)
    requires
        call_ensures(source_rel_dir, (path, above), r),
    ensures
        r is Some ==> contains_dir(above@, path@),
{
}

/// A name put behind a path adds its span to those of the path.
proof fn lemma_one_span_more(p: Seq<char>, name: Seq<char>)
    requires
        p.len() > 0,
        is_inner(name),
    ensures
        spans(p.push('/') + name) == spans(p).push(
            ((p.len() + 1) as int, (p.len() + 1 + name.len()) as int),
        ),
{
    let h = p.push('/');
    let q = h + name;
    assert(q[0] == p[0]);
    assert(h[0] == p[0]);
    if p[0] == '/' {
        lemma_spans_push(h, name, 1);
        lemma_spans_slash(p, 1);
        assert(spans(q) =~= spans(p).push((h.len() as int, q.len() as int)));
    } else {
        lemma_spans_push(h, name, 0);
        lemma_spans_slash(p, 0);
        assert(spans(q) =~= spans(p).push((h.len() as int, q.len() as int)));
    }
}

/// The directories between an ancestor and a file below it are those that the path of
/// the file names between them, with slashes between them: none for a file that lies
/// in the ancestor, one for a file one level below it, two for one two levels below it.
pub proof fn law_directories_between_are_named(
    path: &str,
    above: &str,
    a: Seq<char>,
    b: Seq<char>,
    f: Seq<char>,
    r: Option<String>,
)
    requires
        call_ensures(source_rel_dir, (path, above), r),
        above@.len() > 0,
        above@.last() != '/',
        is_inner(a) && is_entry_name(a),
        is_inner(b) && is_entry_name(b),
        is_inner(f),
    ensures
        path@ == above@.push('/') + f ==> (r matches Some(d) && d@.len() == 0),
        path@ == above@.push('/') + a.push('/') + f ==> is_text(r, a),
        path@ == above@.push('/') + a.push('/') + b.push('/') + f ==> is_text(
            r,
            a.push('/') + b,
        ),
{
    let top = above@;
    let n = components(top).len() as int;
    let none = Seq::<char>::empty();
    assert(spans(top).len() == n);
    lemma_one_span_more(top, f);
    lemma_one_span_more(top, a);
    lemma_components_push(top, f);
    lemma_components_push(top, a);
    lemma_components_push(none, a);
    lemma_components_push(none, f);
    assert(joined(none, a) =~= a);
    assert(joined(none, f) =~= f);
    assert(joined(top, f) =~= top.push('/') + f);
    assert(joined(top, a) =~= top.push('/') + a);
    assert(components(none) =~= Seq::empty());
    assert(a[0] != '/' && f[0] != '/' && b[0] != '/');
    assert(a.last() != '/' && b.last() != '/');
    reveal_with_fuel(entry_names, 3);
    reveal_strlit("/");
    let one = top.push('/') + a;
    assert(one.last() == a.last());
    assert(top.push('/') + a.push('/') + f =~= one.push('/') + f);
    lemma_one_span_more(one, f);
    lemma_components_push(one, f);
    assert(joined(one, f) =~= one.push('/') + f);
    let two = one.push('/') + b;
    assert(two.last() == b.last());
    lemma_one_span_more(one, b);
    lemma_components_push(one, b);
    assert(joined(one, b) =~= two);
    assert(top.push('/') + a.push('/') + b.push('/') + f =~= two.push('/') + f);
    lemma_one_span_more(two, f);
    lemma_components_push(two, f);
    assert(joined(two, f) =~= two.push('/') + f);
    let ab = a.push('/') + b;
    lemma_one_span_more(a, b);
    lemma_components_push(a, b);
    assert(joined(a, b) =~= ab);
    assert(ab.last() == b.last());
    lemma_one_span_more(a, f);
    lemma_components_push(a, f);
    assert(joined(a, f) =~= a.push('/') + f);
    lemma_one_span_more(ab, f);
    lemma_components_push(ab, f);
    assert(joined(ab, f) =~= ab.push('/') + f);
    if path@ == top.push('/') + f {
        assert(components(path@).take(n) =~= components(top));
        assert(tail(path@, n) =~= f);
        assert(parent(f) == Some(none)) by {
            assert(components(f) =~= seq![f]);
            assert(f != seq!['/']);
            assert(head(f, 0) =~= none);
        }
        assert(entry_names(components(none), 0) =~= none);
    }
    if path@ == top.push('/') + a.push('/') + f {
        assert(components(path@).take(n) =~= components(top));
        let t = a.push('/') + f;
        assert(tail(path@, n) =~= t);
        assert(components(t) =~= seq![a, f]);
        assert(components(a) =~= seq![a]);
        assert(spans(a).len() == 1);
        assert(head(t, 1) =~= a) by {
            lemma_single_span(a);
        }
        assert(f != seq!['/']);
        assert(parent(t) == Some(a));
        assert(entry_names(seq![a], 1) =~= a);
    }
    if path@ == top.push('/') + a.push('/') + b.push('/') + f {
        assert(components(path@).take(n) =~= components(top));
        let t = ab.push('/') + f;
        assert(tail(path@, n) =~= t);
        assert(components(t) =~= seq![a, b, f]);
        assert(components(ab) =~= seq![a, b]);
        assert(spans(ab).len() == 2);
        assert(head(t, 2) =~= ab);
        assert(f != seq!['/']);
        assert(parent(t) == Some(ab));
        assert(entry_names(seq![a, b], 2) =~= a + seq!['/'] + b);
        assert(a + seq!['/'] + b =~= ab);
        assert("/"@ =~= seq!['/']);
    }
}

/// A name alone is its only span.
proof fn lemma_single_span(a: Seq<char>)
    requires
        is_inner(a),
    ensures
        spans(a) == seq![(0int, a.len() as int)],
{
    let none = Seq::<char>::empty();
    assert(none + a =~= a);
    assert(a[0] != '/');
    lemma_spans_push(none, a, 0);
    assert(spans_from(none, 0) =~= Seq::<(int, int)>::empty());
    assert(spans(a) =~= seq![(0int, a.len() as int)]);
}

/// A name that is free in its directory is kept. One that is taken gets the first
/// number, from two on, that makes it free there, between its stem and its extension.
/// The name that is given is taken from then on, and no other name is.
pub proof fn law_a_taken_name_gets_a_number(
    dir: &str,
    filename: &str,
    used: &mut UsedNames,
    r: String,
    stem: String,
    extension: Option<String>,
)
    requires
        call_ensures(dedup_in_dir, (dir, filename, used), r),
        call_ensures(split_stem_ext, (filename,), (stem, extension)),
        old(used)@.finite(),
    ensures
        !old(used)@.contains((dir@, filename@)) ==> r@ == filename@,
        old(used)@.contains((dir@, filename@)) ==> exists|n: nat|
            n >= 2 && r@ == stem@ + "_"@ + #[trigger] decimal(n) + match extension {
                Some(e) => "."@ + e@,
                None => Seq::empty(),
            },
        !old(used)@.contains((dir@, r@)),
        forall|d: Seq<char>, f: Seq<char>|
            final(used)@.contains((d, f)) <==> old(used)@.contains((d, f)) || (d == dir@ && f
                == r@),
{
    law_given_name_is_free(old(used)@, dir@, filename@);
    if old(used)@.contains((dir@, filename@)) {
        let n = choose|n: nat| #[trigger]
            is_free_number(old(used)@, dir@, filename@, n) && r@ == numbered(filename@, n);
        assert(r@ == stem@ + "_"@ + decimal(n) + match extension {
            Some(e) => "."@ + e@,
            None => Seq::empty(),
        });
    }
}

/// A file in no directory goes by its name alone; in a directory by the directory, a
/// slash and its name.
pub proof fn law_a_place_is_directory_and_name(dir: &str, name: &str, r: String)
    requires
        call_ensures(place, (dir, name), r),
    ensures
        dir@.len() == 0 ==> r@ == name@,
        dir@.len() > 0 ==> r@ == dir@ + "/"@ + name@,
{
}

/// A frame goes to the directory that stacking wants it in; where none is wanted, to
/// the top of the package. With its name free there, it keeps it.
pub proof fn law_a_frame_goes_where_stacking_wants_it(
    dirs: std::collections::HashMap<i64, String>,
    frame: i64,
    path: &str,
    filename: &str,
    used: &mut UsedNames,
    r: String,
)
    requires
        call_ensures(
            assign_rel_path,
            (&RelPathLayout::Wbpp(dirs), frame, path, filename, used),
            r,
        ),
        !is_blank(filename@),
    ensures
        dirs@.contains_key(frame) && dirs@[frame]@.len() > 0 && !old(used)@.contains(
            (dirs@[frame]@, filename@),
        ) ==> r@ == dirs@[frame]@ + "/"@ + filename@,
        !dirs@.contains_key(frame) && !old(used)@.contains((Seq::<char>::empty(), filename@))
            ==> r@ == filename@,
{
}

/// Where files are laid out as they lie, a file below the common ancestor goes to the
/// directories between it and the ancestor; without an ancestor it goes to the top.
pub proof fn law_a_frame_goes_where_it_lies(
    above: String,
    root: &str,
    frame: i64,
    path: &str,
    filename: &str,
    used: &mut UsedNames,
    other: &mut UsedNames,
    between: Option<String>,
    r: String,
    q: String,
)
    requires
        root@ == above@,
        call_ensures(source_rel_dir, (path, root), between),
        call_ensures(
            assign_rel_path,
            (&RelPathLayout::SourceRelative(Some(above)), frame, path, filename, used),
            r,
        ),
        call_ensures(
            assign_rel_path,
            (&RelPathLayout::SourceRelative(None), frame, path, filename, other),
            q,
        ),
        !is_blank(filename@),
    ensures
        between matches Some(d) ==> d@.len() > 0 && !old(used)@.contains((d@, filename@)) ==> r@
            == d@ + "/"@ + filename@,
        !old(other)@.contains((Seq::<char>::empty(), filename@)) ==> q@ == filename@,
{
}

/// A frame without a name gets one made from its id.
pub proof fn law_a_frame_without_a_name_gets_one(
    frame: i64,
    path: &str,
    filename: &str,
    used: &mut UsedNames,
    r: String,
)
    requires
        call_ensures(
            assign_rel_path,
            (&RelPathLayout::SourceRelative(None), frame, path, filename, used),
            r,
        ),
        is_blank(filename@),
        old(used)@ == Set::<(Seq<char>, Seq<char>)>::empty(),
    ensures
        r@ == "frame_"@ + signed_decimal(frame as int) + ".fits"@,
{
}

/// A frame set goes by the name that it has on record, by one made from its id where
/// it has none, and by no name where it is not on record.
pub proof fn law_a_frame_set_goes_by_its_name(f: FrameSetLookup, r: Option<String>)
    requires
        call_ensures(frame_set_name, (&f,), r),
    ensures
        r is None <==> f.row is None,
        f.row matches Some(Some(n)) ==> (!is_blank(n@) ==> is_text(r, n@)),
        f.row matches Some(Some(n)) ==> (is_blank(n@) ==> is_text(
            r,
            "Frame Set "@ + signed_decimal(f.id as int),
        )),
        f.row matches Some(None) ==> is_text(r, "Frame Set "@ + signed_decimal(f.id as int)),
{
}

/// A batch goes by the name that the user gives. Without one it goes by the name of
/// its frame set, without that by the directory of its files, and without that by how
/// many files it holds.
pub proof fn law_a_batch_goes_by_the_first_name(
    naming: BatchNaming,
    above: Option<String>,
    dir: &str,
    last: Option<String>,
    set: Option<String>,
    files: usize,
    r: String,
)
    requires
        call_ensures(resolve_batch_name, (&naming, &above, files), r),
        naming.frame_set matches Some(f) ==> call_ensures(frame_set_name, (&f,), set),
        naming.frame_set is None ==> set is None,
        above matches Some(a) ==> a@ == dir@,
        call_ensures(file_name_of, (dir,), last),
    ensures
        ({
            let given = naming.user matches Some(u) && !is_blank(u@);
            &&& given ==> r@ == naming.user->Some_0@
            &&& !given && set is Some ==> r@ == set->Some_0@
            &&& !given && set is None && above is Some && last is Some ==> r@ == last->Some_0@
            &&& !given && set is None && (above is None || last is None) ==> r@ == decimal(
                files as nat,
            ) + " files — "@ + naming.now@
        }),
{
}

proof fn lemma_first_tagged(used: Seq<Seq<char>>, base: Seq<char>, tags: Seq<Seq<char>>, i: int)
    requires
        0 <= i,
    ensures
        first_tagged(used, base, tags, i) matches Some(n) ==> !used.contains(n),
    decreases tags.len() - i,
{
    if i < tags.len() {
        lemma_first_tagged(used, base, tags, i + 1);
    }
}

/// In a package without directories every name is given once: a name that is free is
/// kept, one that is taken gets the frame's id before it, and what is given is taken
/// from then on.
pub proof fn law_a_name_is_given_once(
    filename: &str,
    frame: i64,
    used: &mut Vec<String>,
    tags: Vec<String>,
    r: Option<String>,
)
    requires
        call_ensures(unique_rel_path, (filename, frame, used, &tags), r),
        !is_blank(filename@),
    ensures
        r matches Some(n) ==> !texts(old(used)@).contains(n@) && texts(final(used)@) == texts(
            old(used)@,
        ).push(n@),
        r is None ==> texts(final(used)@) == texts(old(used)@),
        !texts(old(used)@).contains(filename@) ==> is_text(r, filename@),
        texts(old(used)@).contains(filename@) && !texts(old(used)@).contains(
            signed_decimal(frame as int) + "_"@ + filename@,
        ) ==> is_text(r, signed_decimal(frame as int) + "_"@ + filename@),
{
    lemma_first_tagged(texts(old(used)@), filename@, texts(tags@), 0);
}

/// The key of a package is the name of its directory; it is shown by its first ten
/// characters.
pub proof fn law_a_package_goes_by_its_directory(
    package: &str,
    name: Option<String>,
    key: String,
    text: &str,
    short: String,
    shown: String,
)
    requires
        call_ensures(outbound_package_key, (package,), key),
        call_ensures(file_name_of, (package,), name),
        text@ == key@,
        call_ensures(short_id, (text,), short),
        call_ensures(short_pkg, (package,), shown),
    ensures
        name matches Some(n) ==> key@ == n@,
        name is None ==> key@ == package@,
        shown@ == short@,
        short@.len() <= 10,
{
}

/// A count that can be told is told as it is, and no count is below zero.
pub proof fn law_counts_are_told(n: i64, r: u32)
    requires
        call_ensures(row_count, (n,), r),
    ensures
        0 <= n <= u32::MAX ==> r == n,
        n < 0 ==> r == 0,
{
}

} // verus!
