//! Text as sequences of characters: conversion, comparison, trimming,
//! splitting and decimal rendering.

use vstd::prelude::*;
use vstd::string::*;

verus! {

/// [`String::push`]: the character is put behind the last one.
pub assume_specification[ String::push ](s: &mut String, c: char)
    ensures
        final(s)@ == old(s)@.push(c),
;

/// The characters of a piece of text, in order.
pub fn chars_of(s: &str) -> (v: Vec<char>)
    ensures
        v@ == s@,
{
    let mut v: Vec<char> = Vec::new();
    let ghost all = s@;
    for c in it: s.chars()
        invariant
            it.seq() == all,
            v@ == all.take(it.index() as int),
    {
        v.push(c);
        assert(v@ =~= all.take(it.index() as int + 1));
    }
    assert(v@ =~= all);
    v
}

/// The characters `v[from..to]` as text.
pub fn slice_text(v: &Vec<char>, from: usize, to: usize) -> (s: String)
    requires
        from <= to <= v@.len(),
    ensures
        s@ == v@.subrange(from as int, to as int),
{
    let mut s = String::new();
    let mut i: usize = from;
    while i < to
        invariant
            from <= i <= to <= v@.len(),
            s@ == v@.subrange(from as int, i as int),
        decreases to - i,
    {
        s.push(v[i]);
        i = i + 1;
        assert(s@ =~= v@.subrange(from as int, i as int));
    }
    assert(s@ =~= v@.subrange(from as int, to as int));
    s
}

/// All the characters of `v` as text.
pub fn text_of(v: &Vec<char>) -> (s: String)
    ensures
        s@ == v@,
{
    let s = slice_text(v, 0, v.len());
    assert(v@.subrange(0, v@.len() as int) =~= v@);
    s
}

/// Whether two pieces of text hold the same characters.
pub fn same_text(a: &str, b: &str) -> (r: bool)
    ensures
        r == (a@ == b@),
{
    let x: String = a.to_owned();
    let y: String = b.to_owned();
    x == y
}

/// The decimal digit of a number below ten.
pub open spec fn digit_char(d: int) -> char {
    (48 + d) as char
}

/// A natural number in decimal notation, without leading zeros.
pub open spec fn decimal(n: nat) -> Seq<char>
    decreases n,
{
    if n < 10 {
        seq![digit_char(n as int)]
    } else {
        decimal(n / 10).push(digit_char((n % 10) as int))
    }
}

/// An integer in decimal notation, a negative one behind a minus sign.
pub open spec fn signed_decimal(n: int) -> Seq<char> {
    if n < 0 {
        seq!['-'] + decimal((-n) as nat)
    } else {
        decimal(n as nat)
    }
}

/// `n` in decimal notation.
pub fn wide_decimal_text(n: u128) -> (s: String)
    ensures
        s@ == decimal(n as nat),
    decreases n,
{
    if n < 10 {
        let mut s = String::new();
        s.push((48u8 + (n as u8)) as char);
        assert(s@ =~= seq![digit_char(n as int)]);
        s
    } else {
        let mut s = wide_decimal_text(n / 10);
        s.push((48u8 + ((n % 10) as u8)) as char);
        s
    }
}

/// `n` in decimal notation.
pub fn decimal_text(n: u64) -> (s: String)
    ensures
        s@ == decimal(n as nat),
{
    wide_decimal_text(n as u128)
}

/// `n` in decimal notation, a negative number behind a minus sign.
pub fn signed_decimal_text(n: i64) -> (s: String)
    ensures
        s@ == signed_decimal(n as int),
{
    if n < 0 {
        let m: i128 = -(n as i128);
        let d = decimal_text(m as u64);
        let mut s = String::new();
        s.push('-');
        s.append(d.as_str());
        assert(s@ =~= signed_decimal(n as int));
        s
    } else {
        decimal_text(n as u64)
    }
}

/// The texts of a list of strings.
pub open spec fn texts(v: Seq<String>) -> Seq<Seq<char>> {
    Seq::new(v.len(), |i: int| v[i]@)
}

/// Whether a list of strings holds a piece of text.
pub open spec fn holds_text(v: Seq<String>, t: Seq<char>) -> bool {
    exists|i: int| 0 <= i < v.len() && (#[trigger] v[i])@ == t
}

/// Whether `t` stands in the list.
pub fn list_holds(v: &Vec<String>, t: &str) -> (r: bool)
    ensures
        r == holds_text(v@, t@),
{
    let mut i: usize = 0;
    while i < v.len()
        invariant
            i <= v@.len(),
            forall|j: int| 0 <= j < i ==> (#[trigger] v@[j])@ != t@,
        decreases v@.len() - i,
    {
        if same_text(v[i].as_str(), t) {
            return true;
        }
        i = i + 1;
    }
    false
}

/// Whether a text stands in a list.
pub fn list_contains(v: &Vec<String>, t: &str) -> (r: bool)
    ensures
        r == texts(v@).contains(t@),
{
    let r = list_holds(v, t);
    proof {
        let all = texts(v@);
        if r {
            let k = choose|k: int| 0 <= k < v@.len() && (#[trigger] v@[k])@ == t@;
            assert(all[k] == t@);
        } else if all.contains(t@) {
            let k = choose|k: int| 0 <= k < all.len() && all[k] == t@;
            assert(v@[k]@ == t@);
        }
    }
    r
}

/// The characters with the Unicode property `White_Space`.
pub open spec fn is_white(c: char) -> bool {
    let n = c as u32;
    ||| 0x09 <= n <= 0x0d
    ||| n == 0x20
    ||| n == 0x85
    ||| n == 0xa0
    ||| n == 0x1680
    ||| 0x2000 <= n <= 0x200a
    ||| n == 0x2028
    ||| n == 0x2029
    ||| n == 0x202f
    ||| n == 0x205f
    ||| n == 0x3000
}

/// The characters of the Unicode general category `Cc`.
pub open spec fn is_control(c: char) -> bool {
    let n = c as u32;
    n < 0x20 || 0x7f <= n < 0xa0
}

/// A class of characters that can be trimmed off a piece of text.
#[derive(Clone, Copy, PartialEq, Eq, Structural)]
pub enum CharClass {
    /// Unicode white space.
    White,
    /// The underscore.
    Underscore,
    /// Dots and spaces.
    DotOrSpace,
    /// Path separators of either style.
    Separator,
}

impl CharClass {
    /// Whether a character belongs to the class.
    pub open spec fn has(self, c: char) -> bool {
        match self {
            CharClass::White => is_white(c),
            CharClass::Underscore => c == '_',
            CharClass::DotOrSpace => c == '.' || c == ' ',
            CharClass::Separator => c == '/' || c == '\\',
        }
    }

    /// Whether a character belongs to the class.
    pub fn holds(self, c: char) -> (r: bool)
        ensures
            r == self.has(c),
    {
        match self {
            CharClass::White => white(c),
            CharClass::Underscore => c == '_',
            CharClass::DotOrSpace => c == '.' || c == ' ',
            CharClass::Separator => c == '/' || c == '\\',
        }
    }
}

/// Whether a character is white space.
pub fn white(c: char) -> (r: bool)
    ensures
        r == is_white(c),
{
    let n: u32 = c as u32;
    (0x09 <= n && n <= 0x0d) || n == 0x20 || n == 0x85 || n == 0xa0 || n == 0x1680 || (0x2000 <= n
        && n <= 0x200a) || n == 0x2028 || n == 0x2029 || n == 0x202f || n == 0x205f || n == 0x3000
}

/// Whether a character is a control code.
pub fn control(c: char) -> (r: bool)
    ensures
        r == is_control(c),
{
    let n: u32 = c as u32;
    n < 0x20 || (0x7f <= n && n < 0xa0)
}

/// Where the text ends once trailing characters of a class are taken off its
/// first `n` characters.
pub open spec fn trimmed_end(s: Seq<char>, class: CharClass, n: int) -> int
    decreases n,
{
    if n <= 0 {
        0
    } else if class.has(s[n - 1]) {
        trimmed_end(s, class, n - 1)
    } else {
        n
    }
}

/// Where the text starts once characters of a class are taken off from `i` on.
pub open spec fn trimmed_start(s: Seq<char>, class: CharClass, i: int) -> int
    decreases s.len() - i,
{
    if i >= s.len() {
        s.len() as int
    } else if class.has(s[i]) {
        trimmed_start(s, class, i + 1)
    } else {
        i
    }
}

/// The text without its trailing characters of a class.
pub open spec fn trim_end(s: Seq<char>, class: CharClass) -> Seq<char> {
    s.take(trimmed_end(s, class, s.len() as int))
}

/// The text without its leading and trailing characters of a class.
pub open spec fn trim(s: Seq<char>, class: CharClass) -> Seq<char> {
    let e = trimmed_end(s, class, s.len() as int);
    let b = trimmed_start(s, class, 0);
    if b >= e {
        Seq::empty()
    } else {
        s.subrange(b, e)
    }
}

/// [`trimmed_end`] of `v[..n]`.
pub fn find_trimmed_end(v: &Vec<char>, class: CharClass, n: usize) -> (r: usize)
    requires
        n <= v@.len(),
    ensures
        r == trimmed_end(v@, class, n as int),
        r <= n,
{
    let mut e: usize = n;
    while e > 0 && class.holds(v[e - 1])
        invariant
            e <= n <= v@.len(),
            trimmed_end(v@, class, n as int) == trimmed_end(v@, class, e as int),
        decreases e,
    {
        e = e - 1;
    }
    e
}

/// `s` without its trailing characters of a class.
pub fn trim_end_text(s: &str, class: CharClass) -> (r: String)
    ensures
        r@ == trim_end(s@, class),
{
    let v = chars_of(s);
    let e = find_trimmed_end(&v, class, v.len());
    let r = slice_text(&v, 0, e);
    assert(s@.subrange(0, e as int) =~= s@.take(e as int));
    r
}

/// `s` without its leading and trailing characters of a class.
pub fn trim_text(s: &str, class: CharClass) -> (r: String)
    ensures
        r@ == trim(s@, class),
{
    let v = chars_of(s);
    let e = find_trimmed_end(&v, class, v.len());
    let mut b: usize = 0;
    while b < v.len() && class.holds(v[b])
        invariant
            b <= v@.len(),
            trimmed_start(v@, class, 0) == trimmed_start(v@, class, b as int),
        decreases v@.len() - b,
    {
        b = b + 1;
    }
    if b >= e {
        String::new()
    } else {
        slice_text(&v, b, e)
    }
}

/// Whether a piece of text is empty or white space only.
pub open spec fn is_blank(s: Seq<char>) -> bool {
    trim(s, CharClass::White).len() == 0
}

/// Whether `s` is empty or white space only.
pub fn blank(s: &str) -> (r: bool)
    ensures
        r == is_blank(s@),
{
    trim_text(s, CharClass::White).as_str().is_empty()
}

/// The first place at or behind `i` where `c` stands, or the length.
pub open spec fn find_from(s: Seq<char>, c: char, i: int) -> int
    decreases s.len() - i,
{
    if i >= s.len() {
        s.len() as int
    } else if s[i] == c {
        i
    } else {
        find_from(s, c, i + 1)
    }
}

/// [`find_from`] stays between its start and the length, passes nothing but
/// other characters and stops at `c`.
pub proof fn lemma_find_from(s: Seq<char>, c: char, i: int)
    requires
        0 <= i <= s.len(),
    ensures
        i <= find_from(s, c, i) <= s.len(),
        find_from(s, c, i) < s.len() ==> s[find_from(s, c, i)] == c,
        forall|k: int| i <= k < find_from(s, c, i) ==> s[k] != c,
    decreases s.len() - i,
{
    if i < s.len() && s[i] != c {
        lemma_find_from(s, c, i + 1);
    }
}

/// [`find_from`] on `v`.
pub fn find_char(v: &Vec<char>, c: char, from: usize) -> (r: usize)
    requires
        from <= v@.len(),
    ensures
        r == find_from(v@, c, from as int),
        from <= r <= v@.len(),
        r < v@.len() ==> v@[r as int] == c,
        forall|k: int| from <= k < r ==> v@[k] != c,
{
    let mut i: usize = from;
    while i < v.len() && v[i] != c
        invariant
            from <= i <= v@.len(),
            find_from(v@, c, from as int) == find_from(v@, c, i as int),
            forall|k: int| from <= k < i ==> v@[k] != c,
        decreases v@.len() - i,
    {
        i = i + 1;
    }
    i
}

/// The pieces of `s[i..]` between the separators `sep`; there is always one.
pub open spec fn pieces_from(s: Seq<char>, sep: char, i: int) -> Seq<Seq<char>>
    decreases s.len() - i,
    when 0 <= i <= s.len()
{
    proof {
        lemma_find_from(s, sep, i);
    }
    let j = find_from(s, sep, i);
    if j >= s.len() {
        seq![s.subrange(i, s.len() as int)]
    } else {
        seq![s.subrange(i, j)] + pieces_from(s, sep, j + 1)
    }
}

/// The pieces of a text between the separators `sep`.
pub open spec fn pieces(s: Seq<char>, sep: char) -> Seq<Seq<char>> {
    pieces_from(s, sep, 0)
}

/// A place with `c`, and no `c` before it, is the one that a search finds.
pub proof fn lemma_find_is(s: Seq<char>, c: char, i: int, j: int)
    requires
        0 <= i <= j <= s.len(),
        j < s.len() ==> s[j] == c,
        forall|k: int| i <= k < j ==> s[k] != c,
    ensures
        find_from(s, c, i) == j,
    decreases j - i,
{
    if i < j {
        lemma_find_is(s, c, i + 1, j);
    }
}

/// A separator with a text behind it adds that text to the pieces.
pub proof fn lemma_pieces_behind(s: Seq<char>, t: Seq<char>, sep: char, i: int)
    requires
        0 <= i <= s.len(),
        forall|k: int| 0 <= k < t.len() ==> t[k] != sep,
    ensures
        pieces_from(s + seq![sep] + t, sep, i) == pieces_from(s, sep, i).push(t),
    decreases s.len() - i,
{
    let whole = s + seq![sep] + t;
    lemma_find_from(s, sep, i);
    let j = find_from(s, sep, i);
    assert forall|k: int| i <= k < j implies whole[k] != sep by {
        assert(whole[k] == s[k]);
    }
    assert(whole[j] == sep);
    lemma_find_is(whole, sep, i, j);
    assert(whole.subrange(i, j) =~= s.subrange(i, j));
    if j < s.len() {
        lemma_pieces_behind(s, t, sep, j + 1);
        assert(pieces_from(whole, sep, i) =~= pieces_from(s, sep, i).push(t));
    } else {
        let e = s.len() + 1;
        assert forall|k: int| e <= k < whole.len() implies whole[k] != sep by {
            assert(whole[k] == t[k - e]);
        }
        lemma_find_is(whole, sep, e as int, whole.len() as int);
        assert(whole.subrange(e as int, whole.len() as int) =~= t);
        assert(pieces_from(whole, sep, e as int) =~= seq![t]);
        assert(pieces_from(whole, sep, i) =~= pieces_from(s, sep, i).push(t));
    }
}

/// [`pieces`] of `s`.
pub fn split_text(s: &str, sep: char) -> (r: Vec<String>)
    ensures
        texts(r@) == pieces(s@, sep),
{
    let v = chars_of(s);
    let mut r: Vec<String> = Vec::new();
    let mut i: usize = 0;
    loop
        invariant
            v@ == s@,
            i <= v@.len(),
            texts(r@) + pieces_from(v@, sep, i as int) == pieces(s@, sep),
        decreases v@.len() - i,
    {
        let j = find_char(&v, sep, i);
        let ghost before = texts(r@);
        let piece = slice_text(&v, i, j);
        r.push(piece);
        assert(texts(r@) =~= before.push(v@.subrange(i as int, j as int)));
        if j >= v.len() {
            assert(before + pieces_from(v@, sep, i as int) =~= texts(r@));
            return r;
        }
        assert(before + pieces_from(v@, sep, i as int) =~= texts(r@) + pieces_from(
            v@,
            sep,
            j + 1,
        ));
        i = j + 1;
    }
}

/// Whether `p` stands in `s` at place `i`.
pub open spec fn stands_at(s: Seq<char>, p: Seq<char>, i: int) -> bool {
    0 <= i && i + p.len() <= s.len() && s.subrange(i, i + p.len()) == p
}

/// Whether `p` stands somewhere in `s`.
pub open spec fn contains_part(s: Seq<char>, p: Seq<char>) -> bool {
    exists|i: int| stands_at(s, p, i)
}

/// Whether `p` stands somewhere in `s`.
pub fn contains_text(s: &str, p: &str) -> (r: bool)
    ensures
        r == contains_part(s@, p@),
{
    let v = chars_of(s);
    let q = chars_of(p);
    let mut i: usize = 0;
    while i <= v.len() && q.len() <= v.len() - i
        invariant
            v@ == s@,
            q@ == p@,
            i <= v@.len() + 1,
            forall|j: int| 0 <= j < i ==> !stands_at(s@, p@, j),
        decreases v@.len() + 1 - i,
    {
        let mut k: usize = 0;
        while k < q.len() && v[i + k] == q[k]
            invariant
                k <= q@.len(),
                i + q@.len() <= v.len(),
                forall|m: int| 0 <= m < k ==> v@[i + m] == q@[m],
            decreases q@.len() - k,
        {
            k = k + 1;
        }
        if k == q.len() {
            assert(s@.subrange(i as int, i + p@.len()) =~= p@);
            assert(stands_at(s@, p@, i as int));
            return true;
        }
        assert(!stands_at(s@, p@, i as int)) by {
            if stands_at(s@, p@, i as int) {
                assert(s@.subrange(i as int, i + p@.len())[k as int] == p@[k as int]);
            }
        }
        if i == v.len() {
            return false;
        }
        i = i + 1;
    }
    false
}

/// A character with an ASCII capital letter made small.
pub open spec fn ascii_small(c: char) -> char {
    if 'A' <= c <= 'Z' {
        (c as u32 + 32) as char
    } else {
        c
    }
}

/// Whether two texts differ at most in the case of ASCII letters.
pub open spec fn same_but_ascii_case(a: Seq<char>, b: Seq<char>) -> bool {
    &&& a.len() == b.len()
    &&& forall|i: int| 0 <= i < a.len() ==> ascii_small(#[trigger] a[i]) == ascii_small(b[i])
}

/// [`ascii_small`] of `c`.
pub fn small_ascii(c: char) -> (r: char)
    ensures
        r == ascii_small(c),
{
    if 'A' <= c && c <= 'Z' {
        ((c as u8) + 32u8) as char
    } else {
        c
    }
}

/// Whether `a` and `b` differ at most in the case of ASCII letters.
pub fn same_ignoring_ascii_case(a: &str, b: &str) -> (r: bool)
    ensures
        r == same_but_ascii_case(a@, b@),
{
    let v = chars_of(a);
    let w = chars_of(b);
    if v.len() != w.len() {
        return false;
    }
    let mut i: usize = 0;
    while i < v.len()
        invariant
            v@ == a@,
            w@ == b@,
            v@.len() == w@.len(),
            i <= v@.len(),
            forall|j: int| 0 <= j < i ==> ascii_small(#[trigger] a@[j]) == ascii_small(b@[j]),
        decreases v@.len() - i,
    {
        if small_ascii(v[i]) != small_ascii(w[i]) {
            assert(ascii_small(a@[i as int]) != ascii_small(b@[i as int]));
            return false;
        }
        i = i + 1;
    }
    true
}

/// What [`str::to_lowercase`] makes of a piece of text: the Unicode lowercase
/// mapping of every character.
pub uninterp spec fn lowercase(s: Seq<char>) -> Seq<char>;

/// [`str::to_lowercase`]: a function of the characters alone.
#[verifier::external_body]
pub(crate) fn lowercase_text(s: &str) -> (r: String)
    ensures
        r@ == lowercase(s@),
{
    s.to_lowercase()
}

} // verus!
