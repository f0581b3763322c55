//! What is read of what was kept as text.

use crate::api::sync::settings_text::{
    fits_a_line, law_lines_round_trip, read_flag, read_lines, read_text_map, write_lines,
    write_text_map,
};
use crate::api::sync::storage::sender_packages_dir;
use crate::paths::{components, lemma_components_push};
use crate::text::{same_ignoring_ascii_case, texts};
use crate::text_map::TextMap;
use vstd::prelude::*;

verus! {

/// A list that is written and read again is the same list, as long as its entries fit
/// a line; nothing is read where nothing is kept.
pub proof fn law_a_list_is_read_as_it_was_written(
    list: Vec<String>,
    kept: String,
    text: &str,
    r: Vec<String>,
    none: Vec<String>,
)
    requires
        call_ensures(write_lines, (&list,), kept),
        text@ == kept@,
        call_ensures(read_lines, (Some(text),), r),
        call_ensures(read_lines, (None,), none),
        forall|i: int| 0 <= i < list@.len() ==> fits_a_line(#[trigger] texts(list@)[i]),
    ensures
        texts(r@) == texts(list@),
        none@.len() == 0,
{
    law_lines_round_trip(texts(list@));
    assert(texts(none@).len() == none@.len());
}

/// A map that is written and read again is the same map; nothing is read where nothing
/// is kept.
pub proof fn law_a_map_is_read_as_it_was_written(
    map: TextMap,
    kept: Option<String>,
    text: &str,
    r: TextMap,
    none: TextMap,
)
    requires
        call_ensures(write_text_map, (&map,), kept),
        kept matches Some(t) ==> text@ == t@,
        call_ensures(read_text_map, (Some(text),), r),
        call_ensures(read_text_map, (None,), none),
    ensures
        kept is Some,
        r@ == map@,
        none@ == Map::<Seq<char>, Seq<char>>::empty(),
{
}

/// A flag is on exactly if it reads `true`, whatever the case of its letters.
pub proof fn law_a_flag_reads_true(value: &str, word: &str, same: bool, r: bool)
    requires
        call_ensures(read_flag, (value,), r),
        word@ == "true"@,
        call_ensures(same_ignoring_ascii_case, (value, word), same),
    ensures
        r <==> same,
        value@ == "true"@ ==> r,
{
}

/// The packages that are sent lie in a directory of their own below that of the
/// transfers.
pub proof fn law_packages_lie_in_their_directory(dir: &str, r: String)
    requires
        call_ensures(sender_packages_dir, (dir,), r),
    ensures
        components(r@) == components(dir@).push("packages"@),
{
    reveal_strlit("packages");
    assert("packages"@.len() == 8);
    assert(seq!['.'].len() == 1);
    lemma_components_push(dir@, "packages"@);
}

} // verus!
