//! What cutting, trimming, comparing and counting do to text.

use crate::text::{
    ascii_small, blank, contains_part, contains_text, control, decimal, decimal_text, find_from,
    lemma_find_from, pieces_from, same_ignoring_ascii_case, signed_decimal_text, split_text,
    stands_at, texts, trim, trim_end_text, trim_text, trimmed_end, trimmed_start, white, CharClass,
};
use vstd::prelude::*;

verus! {

/// The number that a text of decimal digits stands for.
pub open spec fn number(s: Seq<char>) -> int
    decreases s.len(),
{
    if s.len() == 0 {
        0
    } else {
        number(s.drop_last()) * 10 + (s.last() as int - '0' as int)
    }
}

/// Whether a text is a decimal number: digits, and no zero before others.
pub open spec fn is_number(s: Seq<char>) -> bool {
    &&& s.len() > 0
    &&& forall|i: int| 0 <= i < s.len() ==> '0' <= #[trigger] s[i] <= '9'
    &&& s.len() > 1 ==> s[0] != '0'
}

proof fn lemma_decimal_number(n: nat)
    ensures
        number(decimal(n)) == n,
        is_number(decimal(n)),
        n > 0 ==> decimal(n)[0] != '0',
    decreases n,
{
    let d = decimal(n);
    let c = (48 + n % 10) as char;
    if n < 10 {
        assert(d =~= seq![c]);
        assert(d.drop_last() =~= Seq::<char>::empty());
        assert(number(Seq::<char>::empty()) == 0);
        assert(d.last() == c);
    } else {
        lemma_decimal_number(n / 10);
        let rest = decimal(n / 10);
        assert(d =~= rest.push(c));
        assert(d.drop_last() =~= rest);
        assert(d.last() == c);
        assert(d[0] == rest[0]);
        assert forall|i: int| 0 <= i < d.len() implies '0' <= #[trigger] d[i] <= '9' by {
            if i < rest.len() {
                assert(d[i] == rest[i]);
            }
        }
    }
}

/// A number in decimal notation is read as that number, and has no leading zeros.
pub proof fn law_a_decimal_is_read_back(n: u64, r: String)
    requires
        call_ensures(decimal_text, (n,), r),
    ensures
        number(r@) == n,
        is_number(r@),
{
    lemma_decimal_number(n as nat);
}

/// A negative number stands behind a minus sign, any other one without a sign.
pub proof fn law_a_signed_decimal_is_read_back(n: i64, r: String)
    requires
        call_ensures(signed_decimal_text, (n,), r),
    ensures
        n >= 0 ==> is_number(r@) && number(r@) == n,
        n < 0 ==> r@.len() > 1 && r@[0] == '-' && is_number(r@.skip(1)) && number(r@.skip(1))
            == -n,
{
    if n < 0 {
        lemma_decimal_number((-(n as int)) as nat);
        assert(r@.skip(1) =~= decimal((-(n as int)) as nat));
    } else {
        lemma_decimal_number(n as nat);
    }
}

/// What the classes of characters are.
pub proof fn law_classes_of_characters(c: char, u: bool, d: bool, s: bool, w: bool, k: bool)
    requires
        call_ensures(CharClass::holds, (CharClass::Underscore, c), u),
        call_ensures(CharClass::holds, (CharClass::DotOrSpace, c), d),
        call_ensures(CharClass::holds, (CharClass::Separator, c), s),
        call_ensures(white, (c,), w),
        call_ensures(control, (c,), k),
    ensures
        u <==> c == '_',
        d <==> c == '.' || c == ' ',
        s <==> c == '/' || c == '\\',
        (c as u32) < 128 ==> (w <==> c == ' ' || c == '\t' || c == '\n' || c == '\r' || (c as u32)
            == 11 || (c as u32) == 12),
        (c as u32) < 128 ==> (k <==> (c as u32) < 32 || (c as u32) == 127),
{
}

/// Whether all characters of a text belong to a class.
pub open spec fn is_all(s: Seq<char>, class: CharClass) -> bool {
    forall|i: int| 0 <= i < s.len() ==> class.has(#[trigger] s[i])
}

proof fn lemma_end(s: Seq<char>, class: CharClass, n: int)
    requires
        0 <= n <= s.len(),
    ensures
        0 <= trimmed_end(s, class, n) <= n,
        trimmed_end(s, class, n) > 0 ==> !class.has(s[trimmed_end(s, class, n) - 1]),
        forall|k: int| trimmed_end(s, class, n) <= k < n ==> class.has(#[trigger] s[k]),
    decreases n,
{
    if n > 0 && class.has(s[n - 1]) {
        lemma_end(s, class, n - 1);
    }
}

proof fn lemma_start(s: Seq<char>, class: CharClass, i: int)
    requires
        0 <= i <= s.len(),
    ensures
        i <= trimmed_start(s, class, i) <= s.len(),
        trimmed_start(s, class, i) < s.len() ==> !class.has(s[trimmed_start(s, class, i)]),
        forall|k: int| i <= k < trimmed_start(s, class, i) ==> class.has(#[trigger] s[k]),
    decreases s.len() - i,
{
    if i < s.len() && class.has(s[i]) {
        lemma_start(s, class, i + 1);
    }
}

/// Whether `r` is left of a text when characters of a class go at its ends.
pub open spec fn is_core(s: Seq<char>, r: Seq<char>, class: CharClass) -> bool {
    exists|a: Seq<char>, b: Seq<char>|
        #![trigger a + r + b]
        s == a + r + b && is_all(a, class) && is_all(b, class)
}

/// Trimming takes characters of the class off both ends, and no others; what is left
/// neither begins nor ends with one.
pub proof fn law_trimming_takes_off_the_ends(text: &str, class: CharClass, r: String)
    requires
        call_ensures(trim_text, (text, class), r),
    ensures
        is_core(text@, r@, class),
        r@.len() > 0 ==> !class.has(r@[0]) && !class.has(r@.last()),
{
    let s = text@;
    let e = trimmed_end(s, class, s.len() as int);
    let b = trimmed_start(s, class, 0);
    lemma_end(s, class, s.len() as int);
    lemma_start(s, class, 0);
    assert(r@ == trim(s, class));
    if b >= e {
        assert(s + r@ + Seq::<char>::empty() =~= s);
        assert(is_all(s, class));
        assert(is_all(Seq::<char>::empty(), class));
    } else {
        let x = s.take(b);
        let y = s.skip(e);
        assert(x + r@ + y =~= s);
        assert forall|i: int| 0 <= i < y.len() implies class.has(#[trigger] y[i]) by {
            assert(y[i] == s[e + i]);
        }
        assert forall|i: int| 0 <= i < x.len() implies class.has(#[trigger] x[i]) by {
            assert(x[i] == s[i]);
        }
        assert(r@[0] == s[b] && r@.last() == s[e - 1]);
    }
}

/// Trimming the end leaves the beginning.
pub proof fn law_trimming_the_end_leaves_the_beginning(text: &str, class: CharClass, r: String)
    requires
        call_ensures(trim_end_text, (text, class), r),
    ensures
        r@.len() <= text@.len(),
        text@.take(r@.len() as int) == r@,
        is_all(text@.skip(r@.len() as int), class),
        r@.len() > 0 ==> !class.has(r@.last()),
{
    let s = text@;
    let e = trimmed_end(s, class, s.len() as int);
    lemma_end(s, class, s.len() as int);
    assert(r@ == s.take(e));
    assert forall|i: int| 0 <= i < s.skip(e).len() implies class.has(#[trigger] s.skip(e)[i]) by {
        assert(s.skip(e)[i] == s[e + i]);
    }
}

/// A text is blank exactly if it holds nothing but white space.
pub proof fn law_blank_is_all_white(text: &str, r: bool)
    requires
        call_ensures(blank, (text,), r),
    ensures
        r <==> is_all(text@, CharClass::White),
{
    let s = text@;
    lemma_end(s, CharClass::White, s.len() as int);
    lemma_start(s, CharClass::White, 0);
    let e = trimmed_end(s, CharClass::White, s.len() as int);
    let b = trimmed_start(s, CharClass::White, 0);
    if is_all(s, CharClass::White) {
        if e > 0 {
            assert(CharClass::White.has(s[e - 1]));
        }
    }
}

/// Texts put together with a separator between them, from the `i`th on.
pub open spec fn put_together(ps: Seq<Seq<char>>, sep: char, i: int) -> Seq<char>
    decreases ps.len() - i,
{
    if i >= ps.len() {
        Seq::empty()
    } else if i == ps.len() - 1 {
        ps[i]
    } else {
        ps[i] + seq![sep] + put_together(ps, sep, i + 1)
    }
}

proof fn lemma_put_together_tail(first: Seq<char>, rest: Seq<Seq<char>>, sep: char, i: int)
    requires
        0 <= i,
    ensures
        put_together(seq![first] + rest, sep, i + 1) == put_together(rest, sep, i),
    decreases rest.len() - i,
{
    let all = seq![first] + rest;
    if i < rest.len() {
        assert(all[i + 1] == rest[i]);
        if i < rest.len() - 1 {
            lemma_put_together_tail(first, rest, sep, i + 1);
        }
    }
}

proof fn lemma_pieces_back(s: Seq<char>, sep: char, i: int)
    requires
        0 <= i <= s.len(),
    ensures
        pieces_from(s, sep, i).len() > 0,
        put_together(pieces_from(s, sep, i), sep, 0) == s.skip(i),
        forall|k: int|
            0 <= k < pieces_from(s, sep, i).len() ==> !(#[trigger] pieces_from(
                s,
                sep,
                i,
            )[k]).contains(sep),
    decreases s.len() - i,
{
    lemma_find_from(s, sep, i);
    let j = find_from(s, sep, i);
    let ps = pieces_from(s, sep, i);
    let first = s.subrange(i, j);
    assert(!first.contains(sep)) by {
        if first.contains(sep) {
            let k = choose|k: int| 0 <= k < first.len() && first[k] == sep;
            assert(s[i + k] == sep);
        }
    }
    if j >= s.len() {
        assert(ps =~= seq![first]);
        assert(first =~= s.skip(i));
    } else {
        let rest = pieces_from(s, sep, j + 1);
        lemma_pieces_back(s, sep, j + 1);
        lemma_put_together_tail(first, rest, sep, 0);
        assert(ps == seq![first] + rest);
        assert(ps[0] == first);
        assert(first + seq![sep] + s.skip(j + 1) =~= s.skip(i));
        assert forall|k: int| 0 <= k < ps.len() implies !(#[trigger] ps[k]).contains(sep) by {
            if k > 0 {
                assert(ps[k] == rest[k - 1]);
            }
        }
    }
}

/// The pieces of a text, put together with the separator between them, make the text
/// again, and no piece holds the separator.
pub proof fn law_pieces_make_the_text(text: &str, sep: char, r: Vec<String>)
    requires
        call_ensures(split_text, (text, sep), r),
    ensures
        put_together(texts(r@), sep, 0) == text@,
        forall|k: int| 0 <= k < r@.len() ==> !(#[trigger] r@[k])@.contains(sep),
{
    lemma_pieces_back(text@, sep, 0);
    assert(text@.skip(0) =~= text@);
    assert forall|k: int| 0 <= k < r@.len() implies !(#[trigger] r@[k])@.contains(sep) by {
        assert(texts(r@)[k] == r@[k]@);
    }
}

/// A text holds another one exactly if it is that one with something before and
/// behind it.
pub proof fn law_a_part_stands_within(
    text: &str,
    p: &str,
    a: Seq<char>,
    b: Seq<char>,
    r: bool,
)
    requires
        call_ensures(contains_text, (text, p), r),
    ensures
        text@ == a + p@ + b ==> r,
        r ==> exists|x: Seq<char>, y: Seq<char>| #[trigger] (x + p@ + y) == text@,
{
    if text@ == a + p@ + b {
        assert(text@.subrange(a.len() as int, (a.len() + p@.len()) as int) =~= p@);
        assert(stands_at(text@, p@, a.len() as int));
    }
    if r {
        assert(contains_part(text@, p@));
        let i = choose|i: int| stands_at(text@, p@, i);
        assert(text@.take(i) + p@ + text@.skip(i + p@.len()) =~= text@);
    }
}

/// Two texts are the same up to case exactly if they are equally long and differ at
/// most where one has a small letter and the other one has the same letter as a capital.
pub proof fn law_case_is_all_that_differs(a: &str, b: &str, r: bool, i: int)
    requires
        call_ensures(same_ignoring_ascii_case, (a, b), r),
    ensures
        a@ == b@ ==> r,
        r ==> a@.len() == b@.len(),
        r && 0 <= i < a@.len() && a@[i] != b@[i] ==> {
            ||| 'A' <= a@[i] <= 'Z' && b@[i] as u32 == a@[i] as u32 + 32
            ||| 'A' <= b@[i] <= 'Z' && a@[i] as u32 == b@[i] as u32 + 32
        },
{
    if r && 0 <= i < a@.len() {
        assert(ascii_small(a@[i]) == ascii_small(b@[i]));
    }
}

} // verus!
