//! Values that are kept as text: lists with one entry per line, flags, and
//! maps in JSON.

use crate::text::{
    find_from, lemma_find_is, lemma_pieces_behind, pieces, same_but_ascii_case,
    same_ignoring_ascii_case, split_text, texts, trim, trim_text, CharClass,
};
use crate::text_map::{entries_map, keys_distinct, TextEntry, TextMap};
use vstd::prelude::*;
use vstd::string::*;

verus! {

/// The first `n` pieces without the blank around them; those of which nothing
/// is left are gone.
pub open spec fn kept_lines(ps: Seq<Seq<char>>, n: int) -> Seq<Seq<char>>
    decreases n,
{
    if n <= 0 {
        Seq::empty()
    } else {
        let t = trim(ps[n - 1], CharClass::White);
        if t.len() == 0 {
            kept_lines(ps, n - 1)
        } else {
            kept_lines(ps, n - 1).push(t)
        }
    }
}

/// The entries of a list with one entry per line.
pub open spec fn lines_of(raw: Seq<char>) -> Seq<Seq<char>> {
    kept_lines(pieces(raw, '\n'), pieces(raw, '\n').len() as int)
}

/// The entries of a list with one entry per line; none where nothing is kept.
pub fn read_lines(raw: Option<&str>) -> (r: Vec<String>)
    ensures
        texts(r@) == match raw {
            Some(t) => lines_of(t@),
            None => Seq::<Seq<char>>::empty(),
        },
{
    let mut out: Vec<String> = Vec::new();
    if let Some(t) = raw {
        let ps = split_text(t, '\n');
        let ghost all = pieces(t@, '\n');
        let mut i: usize = 0;
        assert(texts(out@) =~= kept_lines(all, 0));
        while i < ps.len()
            invariant
                i <= ps@.len(),
                texts(ps@) == all,
                texts(out@) == kept_lines(all, i as int),
            decreases ps@.len() - i,
        {
            assert(ps@[i as int]@ == all[i as int]);
            let line = trim_text(ps[i].as_str(), CharClass::White);
            if !line.as_str().is_empty() {
                let ghost before = texts(out@);
                let ghost added = line@;
                out.push(line);
                assert(texts(out@) =~= before.push(added));
            }
            i = i + 1;
        }
        assert(ps@.len() == texts(ps@).len());
    } else {
        assert(texts(out@) =~= Seq::<Seq<char>>::empty());
    }
    out
}

/// The first `n` entries, one per line.
pub open spec fn lined_up(entries: Seq<Seq<char>>, n: int) -> Seq<char>
    decreases n,
{
    if n <= 0 {
        Seq::empty()
    } else if n == 1 {
        entries[0]
    } else {
        lined_up(entries, n - 1) + seq!['\n'] + entries[n - 1]
    }
}

/// A list with one entry per line.
pub fn write_lines(entries: &Vec<String>) -> (r: String)
    ensures
        r@ == lined_up(texts(entries@), entries@.len() as int),
{
    let mut r = String::new();
    let mut i: usize = 0;
    assert(r@ =~= lined_up(texts(entries@), 0));
    while i < entries.len()
        invariant
            i <= entries@.len(),
            r@ == lined_up(texts(entries@), i as int),
        decreases entries@.len() - i,
    {
        if i > 0 {
            r.push('\n');
        }
        r.append(entries[i].as_str());
        assert(r@ =~= lined_up(texts(entries@), i as int + 1));
        i = i + 1;
    }
    r
}

/// An entry that a line can hold as it is: not empty, without a line break and
/// without blanks at its ends.
pub open spec fn fits_a_line(s: Seq<char>) -> bool {
    &&& s.len() > 0
    &&& trim(s, CharClass::White) == s
    &&& forall|k: int| 0 <= k < s.len() ==> s[k] != '\n'
}

proof fn lemma_pieces_of_lines(entries: Seq<Seq<char>>, n: int)
    requires
        1 <= n <= entries.len(),
        forall|i: int| 0 <= i < entries.len() ==> fits_a_line(#[trigger] entries[i]),
    ensures
        pieces(lined_up(entries, n), '\n') == entries.take(n),
    decreases n,
{
    assert(fits_a_line(entries[n - 1]));
    if n == 1 {
        let s = entries[0];
        lemma_find_is(s, '\n', 0, s.len() as int);
        assert(s.subrange(0, s.len() as int) =~= s);
        assert(pieces(s, '\n') =~= entries.take(1));
    } else {
        lemma_pieces_of_lines(entries, n - 1);
        lemma_pieces_behind(lined_up(entries, n - 1), entries[n - 1], '\n', 0);
        assert(entries.take(n - 1).push(entries[n - 1]) =~= entries.take(n));
    }
}

proof fn lemma_kept_lines(entries: Seq<Seq<char>>, n: int)
    requires
        0 <= n <= entries.len(),
        forall|i: int| 0 <= i < entries.len() ==> fits_a_line(#[trigger] entries[i]),
    ensures
        kept_lines(entries, n) == entries.take(n),
    decreases n,
{
    if n > 0 {
        lemma_kept_lines(entries, n - 1);
        assert(fits_a_line(entries[n - 1]));
        assert(entries.take(n - 1).push(entries[n - 1]) =~= entries.take(n));
    } else {
        assert(entries.take(0) =~= Seq::<Seq<char>>::empty());
    }
}

/// Reading a list that was written line by line gives its entries back, as
/// long as each of them fits a line.
pub proof fn law_lines_round_trip(entries: Seq<Seq<char>>)
    requires
        forall|i: int| 0 <= i < entries.len() ==> fits_a_line(#[trigger] entries[i]),
    ensures
        lines_of(lined_up(entries, entries.len() as int)) == entries,
{
    let raw = lined_up(entries, entries.len() as int);
    if entries.len() == 0 {
        let e = Seq::<char>::empty();
        assert(raw =~= e);
        assert(find_from(e, '\n', 0) == 0);
        assert(pieces(e, '\n') =~= seq![e.subrange(0, 0)]);
        assert(e.subrange(0, 0) =~= e);
        assert(trim(e, CharClass::White) =~= e);
        assert(kept_lines(seq![e], 1) =~= kept_lines(seq![e], 0));
        assert(lines_of(raw) =~= entries);
    } else {
        lemma_pieces_of_lines(entries, entries.len() as int);
        assert(entries.take(entries.len() as int) =~= entries);
        lemma_kept_lines(entries, entries.len() as int);
    }
}

/// Whether a flag that is kept as text is on.
pub open spec fn flag_on(value: Seq<char>) -> bool {
    same_but_ascii_case(value, "true"@)
}

/// Whether a flag that is kept as text is on: it reads `true` in any case.
pub fn read_flag(value: &str) -> (r: bool)
    ensures
        r == flag_on(value@),
{
    same_ignoring_ascii_case(value, "true")
}

/// The map from text to text that a JSON object of strings stands for; none
/// where the text is no such object.
pub uninterp spec fn string_map_of_json(json: Seq<char>) -> Option<Map<Seq<char>, Seq<char>>>;

/// [`serde_json::from_str`] into a sorted map of strings: what comes out is a
/// function of the text, and no key stands twice.
#[verifier::external_body]
fn parse_string_map(json: &str) -> (r: Option<Vec<TextEntry>>)
    ensures
        (r is Some) == (string_map_of_json(json@) is Some),
        r is Some ==> keys_distinct(r->Some_0@),
        r is Some ==> string_map_of_json(json@) == Some(entries_map(r->Some_0@)),
{
    let map: std::collections::BTreeMap<String, String> = serde_json::from_str(json).ok()?;
    Some(map.into_iter().map(|(key, value)| TextEntry { key, value }).collect())
}

/// [`serde_json::to_string`] of a sorted map of strings: it does not fail,
/// since the keys are strings, and reading the text gives the map back.
#[verifier::external_body]
fn render_string_map(entries: &Vec<TextEntry>) -> (r: Option<String>)
    requires
        keys_distinct(entries@),
    ensures
        r is Some,
        string_map_of_json(r->Some_0@) == Some(entries_map(entries@)),
{
    let map: std::collections::BTreeMap<&str, &str> = entries.iter().map(
        |e| (e.key.as_str(), e.value.as_str()),
    ).collect();
    serde_json::to_string(&map).ok()
}

/// A map with the entries that were read, or without any where nothing was.
pub fn map_of_entries(read: Option<Vec<TextEntry>>) -> (r: TextMap)
    requires
        read matches Some(es) ==> keys_distinct(es@),
    ensures
        r@ == match read {
            Some(es) => entries_map(es@),
            None => Map::<Seq<char>, Seq<char>>::empty(),
        },
{
    match read {
        Some(es) => TextMap::of_entries(es),
        None => TextMap::new(),
    }
}

/// The map that is kept as JSON; without any key where nothing is kept or the
/// text is no JSON object of strings.
pub fn read_text_map(json: Option<&str>) -> (r: TextMap)
    ensures
        r@ == match json {
            Some(t) => match string_map_of_json(t@) {
                Some(m) => m,
                None => Map::<Seq<char>, Seq<char>>::empty(),
            },
            None => Map::<Seq<char>, Seq<char>>::empty(),
        },
{
    match json {
        Some(t) => map_of_entries(parse_string_map(t)),
        None => TextMap::new(),
    }
}

/// A map as JSON. Reading the text gives the map back.
pub fn write_text_map(map: &TextMap) -> (r: Option<String>)
    ensures
        r matches Some(s) && string_map_of_json(s@) == Some(map@),
{
    render_string_map(map.entries())
}

} // verus!
