//! What joining paths and taking them apart do.

use crate::host_paths::{host_join, lemma_joined_opened, Host};
use crate::paths::{
    components, file_name_of, is_entry_name, is_inner, join_paths, law_joined_name_is_last,
    lemma_components_push, lemma_spans_ordered, names_entry, parent_of, spans,
};
use crate::text_map::TextMap;
use vstd::prelude::*;

verus! {

/// A name put behind a directory is one component more, and the name of the path. An
/// absolute path put behind a directory stands alone.
pub proof fn law_a_name_is_one_component_more(
    dir: &str,
    name: &str,
    r: String,
    path: &str,
    last: Option<String>,
)
    requires
        call_ensures(join_paths, (dir, name), r),
        path@ == r@,
        call_ensures(file_name_of, (path,), last),
    ensures
        is_inner(name@) ==> components(r@) == components(dir@).push(name@),
        is_inner(name@) && name@ != seq!['.', '.'] ==> (last matches Some(n) && n@ == name@),
        name@.len() > 0 && name@[0] == '/' ==> r@ == name@,
{
    if is_inner(name@) {
        lemma_components_push(dir@, name@);
        if name@ != seq!['.', '.'] {
            assert(name@[0] != '/');
            assert(seq!['/'][0] == '/');
            law_joined_name_is_last(dir@, name@);
        }
    }
}

/// The parent of a path is the beginning of it, without the last component; only the
/// root and the empty path have none.
pub proof fn law_a_parent_is_the_beginning(path: &str, r: Option<String>)
    requires
        call_ensures(parent_of, (path,), r),
    ensures
        r is None <==> components(path@).len() == 0 || components(path@).last() == seq!['/'],
        r matches Some(p) ==> p@.len() < path@.len() && path@.take(p@.len() as int) == p@,
{
    lemma_spans_ordered(path@);
    if let Some(p) = r {
        let at = spans(path@);
        let n = at.len() as int;
        assert(at[n - 1].0 < at[n - 1].1);
        if n > 1 {
            assert(at[n - 2].1 <= at[n - 1].0);
            assert(at[n - 2].0 < at[n - 2].1);
        }
        assert(path@.take(p@.len() as int) =~= p@);
    }
}

/// The name of a path is its last component; the root, `.` and `..` are no names.
pub proof fn law_a_name_is_the_last_component(path: &str, r: Option<String>)
    requires
        call_ensures(file_name_of, (path,), r),
    ensures
        r matches Some(n) ==> components(path@).len() > 0 && n@ == components(path@).last() && n@
            != seq!['/'] && n@ != seq!['.'] && n@ != seq!['.', '.'],
        r is None && components(path@).len() > 0 ==> {
            let c = components(path@).last();
            c == seq!['/'] || c == seq!['.'] || c == seq!['.', '.']
        },
{
}

/// The root, `.` and `..` name no entry; anything else does.
pub proof fn law_an_entry_has_a_name(c: String, r: bool)
    requires
        call_ensures(names_entry, (&c,), r),
    ensures
        r <==> c@ != seq!['/'] && c@ != seq!['.'] && c@ != seq!['.', '.'],
{
    assert(is_entry_name(c@) == r);
}

/// What is put into a map under a key is found under it, and what stood under other
/// keys stays.
pub proof fn law_a_map_gives_back_what_was_put_in(
    map: &mut TextMap,
    key: String,
    value: String,
    k: &str,
    after: TextMap,
    found: Option<String>,
    there: bool,
    other: Seq<char>,
)
    requires
        call_ensures(TextMap::insert, (map, key, value), ()),
        after@ == final(map)@,
        k@ == key@,
        call_ensures(TextMap::lookup, (&after, k), found),
        call_ensures(TextMap::contains_key, (&after, k), there),
    ensures
        there,
        found matches Some(v) && v@ == value@,
        other != key@ ==> (final(map)@.contains_key(other) <==> old(map)@.contains_key(other)),
        other != key@ && old(map)@.contains_key(other) ==> final(map)@[other]
            == old(map)@[other],
{
}

/// A new map is empty, and a map is empty exactly if it holds no key.
pub proof fn law_an_empty_map_holds_nothing(map: TextMap, fresh: TextMap, r: bool, k: Seq<char>)
    requires
        call_ensures(TextMap::new, (), fresh),
        call_ensures(TextMap::is_empty, (&map,), r),
    ensures
        !fresh@.contains_key(k),
        r ==> !map@.contains_key(k),
        !r ==> exists|key: Seq<char>| map@.contains_key(key),
{
    if !r {
        if forall|key: Seq<char>| !map@.contains_key(key) {
            assert(map@ =~= Map::<Seq<char>, Seq<char>>::empty());
        }
    }
}

/// Only Linux tells cases apart, and only Windows separates paths at backslashes too.
pub proof fn law_hosts_differ(host: Host, c: char, folds: bool, cuts: bool)
    requires
        call_ensures(Host::folds_case, (host,), folds),
        call_ensures(Host::is_separator, (host, c), cuts),
    ensures
        folds <==> host is MacOs || host is Windows,
        cuts <==> c == '/' || (c == '\\' && host is Windows),
{
}

/// A name is put behind a directory with the separator of the host between them; a
/// directory that ends in a separator needs none.
pub proof fn law_a_name_is_put_behind_a_directory(dir: &str, name: &str, host: Host, r: String)
    requires
        call_ensures(host_join, (dir, name, host), r),
        name@.len() > 0,
        name@[0] != '/',
        name@[0] != '\\',
        name@.len() < 2 || name@[1] != ':',
        dir@.len() > 0,
        dir@.len() != 2 || dir@[1] != ':',
    ensures
        dir@.last() == '/' ==> r@ == dir@ + name@,
        dir@.last() != '/' && dir@.last() != '\\' && !(host is Windows) ==> r@ == dir@.push('/')
            + name@,
        dir@.last() != '/' && dir@.last() != '\\' && host is Windows ==> r@ == dir@.push('\\')
            + name@,
{
    lemma_joined_opened(dir@, name@, host);
}

} // verus!
