//! Text handling on `str` and `String`, stated over sequences of characters.

use vstd::prelude::*;
use vstd::utf8::*;

use crate::lists;

verus! {

/// `String::push` appends one character.
pub assume_specification[ String::push ](s: &mut String, c: char)
    ensures
        final(s)@ == old(s)@.push(c),
;

// ---- characters ---------------------------------------------------------------

/// The characters of a string, in order.
pub fn chars_of(s: &str) -> (r: Vec<char>)
    ensures
        r@ == s@,
{
    let mut out: Vec<char> = Vec::new();
    for c in it: s.chars()
        invariant
            it.seq() == s@,
            out@ == s@.take(it.index() as int),
    {
        proof {
            assert(s@.take(it.index() + 1) =~= s@.take(it.index() as int).push(c));
        }
        out.push(c);
    }
    assert(s@.take(s@.len() as int) =~= s@);
    out
}

/// The string made of the given characters.
pub fn string_of(v: &Vec<char>) -> (r: String)
    ensures
        r@ == v@,
{
    let mut out = String::new();
    let mut i: usize = 0;
    while i < v.len()
        invariant
            i <= v.len(),
            out@ == v@.take(i as int),
        decreases v.len() - i,
    {
        proof {
            assert(v@.take(i + 1) =~= v@.take(i as int).push(v@[i as int]));
        }
        out.push(v[i]);
        i += 1;
    }
    assert(v@.take(v@.len() as int) =~= v@);
    out
}

/// The characters of `v` from `from` up to but not including `to`.
pub fn sub_chars(v: &Vec<char>, from: usize, to: usize) -> (r: Vec<char>)
    requires
        from <= to <= v.len(),
    ensures
        r@ == v@.subrange(from as int, to as int),
{
    let mut out: Vec<char> = Vec::new();
    let mut i: usize = from;
    while i < to
        invariant
            from <= i <= to <= v.len(),
            out@ == v@.subrange(from as int, i as int),
        decreases to - i,
    {
        proof {
            assert(v@.subrange(from as int, i + 1) =~= v@.subrange(from as int, i as int).push(
                v@[i as int],
            ));
        }
        out.push(v[i]);
        i += 1;
    }
    out
}

// ---- equality, prefixes, suffixes, search ---------------------------------------

/// Two strings with the same UTF-8 bytes have the same characters.
pub proof fn lemma_encode_injective(a: Seq<char>, b: Seq<char>)
    requires
        encode_utf8(a) == encode_utf8(b),
    ensures
        a == b,
{
    encode_utf8_decode_utf8(a);
    encode_utf8_decode_utf8(b);
}

/// Whether two byte slices are equal.
pub fn same_bytes(a: &[u8], b: &[u8]) -> (r: bool)
    ensures
        r == (a@ == b@),
{
    if a.len() != b.len() {
        return false;
    }
    let mut i: usize = 0;
    while i < a.len()
        invariant
            i <= a.len(),
            a.len() == b.len(),
            forall|j: int| 0 <= j < i ==> a@[j] == b@[j],
        decreases a.len() - i,
    {
        if a[i] != b[i] {
            return false;
        }
        i += 1;
    }
    assert(a@ =~= b@);
    true
}

/// Whether two strings are equal.
pub fn same(a: &str, b: &str) -> (r: bool)
    ensures
        r == (a@ == b@),
{
    let r = same_bytes(a.as_bytes(), b.as_bytes());
    proof {
        if r {
            lemma_encode_injective(a@, b@);
        }
    }
    r
}

/// Whether `needle` occurs in `hay` at position `i`.
pub open spec fn occurs_at(hay: Seq<char>, needle: Seq<char>, i: int) -> bool {
    &&& 0 <= i
    &&& i + needle.len() <= hay.len()
    &&& hay.subrange(i, i + needle.len()) == needle
}

/// Whether `needle` occurs somewhere in `hay`.
pub open spec fn occurs(hay: Seq<char>, needle: Seq<char>) -> bool {
    exists|i: int| occurs_at(hay, needle, i)
}

fn occurs_here(hay: &Vec<char>, needle: &Vec<char>, at: usize) -> (r: bool)
    ensures
        r == occurs_at(hay@, needle@, at as int),
{
    if needle.len() > hay.len() || at > hay.len() - needle.len() {
        return false;
    }
    let mut j: usize = 0;
    while j < needle.len()
        invariant
            j <= needle.len(),
            at + needle.len() <= hay.len(),
            forall|k: int| 0 <= k < j ==> hay@[at + k] == needle@[k],
        decreases needle.len() - j,
    {
        if hay[at + j] != needle[j] {
            assert(hay@.subrange(at as int, at + needle@.len())[j as int] != needle@[j as int]);
            return false;
        }
        j += 1;
    }
    assert(hay@.subrange(at as int, at + needle@.len()) =~= needle@);
    true
}

/// The first position at which `needle` occurs in `hay`.
pub fn find(hay: &Vec<char>, needle: &Vec<char>) -> (r: Option<usize>)
    ensures
        match r {
            Some(i) => {
                &&& occurs_at(hay@, needle@, i as int)
                &&& forall|j: int| 0 <= j < i ==> !occurs_at(hay@, needle@, j)
            },
            None => !occurs(hay@, needle@),
        },
{
    if needle.len() > hay.len() {
        return None;
    }
    let last: usize = hay.len() - needle.len();
    let mut i: usize = 0;
    loop
        invariant
            i <= last,
            last == hay.len() - needle.len(),
            forall|j: int| 0 <= j < i ==> !occurs_at(hay@, needle@, j),
        decreases last - i,
    {
        if occurs_here(hay, needle, i) {
            return Some(i);
        }
        if i == last {
            return None;
        }
        i += 1;
    }
}

/// Whether `hay` contains `needle`.
pub fn contains(hay: &str, needle: &str) -> (r: bool)
    ensures
        r == occurs(hay@, needle@),
{
    find(&chars_of(hay), &chars_of(needle)).is_some()
}

/// Whether `s` starts with `p`.
pub fn starts_with(s: &str, p: &str) -> (r: bool)
    ensures
        r == p@.is_prefix_of(s@),
{
    let sv = chars_of(s);
    let pv = chars_of(p);
    occurs_here(&sv, &pv, 0)
}

/// Whether `s` ends with `p`.
pub fn ends_with(s: &str, p: &str) -> (r: bool)
    ensures
        r == p@.is_suffix_of(s@),
{
    let sv = chars_of(s);
    let pv = chars_of(p);
    if pv.len() > sv.len() {
        return false;
    }
    occurs_here(&sv, &pv, sv.len() - pv.len())
}

// ---- separators: splitting and trimming -----------------------------------------

/// The characters with the Unicode property White_Space.
pub open spec fn is_space(c: char) -> bool {
    let n = c as u32;
    ||| 0x9 <= n <= 0xd
    ||| n == 0x20
    ||| n == 0x85
    ||| n == 0xa0
    ||| n == 0x1680
    ||| 0x2000 <= n <= 0x200a
    ||| n == 0x2028
    ||| n == 0x2029
    ||| n == 0x202f
    ||| n == 0x205f
    ||| n == 0x3000
}

/// What text is cut at: one given character, or any white space.
#[derive(Clone, Copy)]
pub enum Separator {
    Is(char),
    Space,
}

impl Separator {
    pub open spec fn accepts(self, c: char) -> bool {
        match self {
            Separator::Is(x) => c == x,
            Separator::Space => is_space(c),
        }
    }

    fn matches_char(self, c: char) -> (r: bool)
        ensures
            r == self.accepts(c),
    {
        match self {
            Separator::Is(x) => c == x,
            Separator::Space => {
                let n: u32 = c as u32;
                (0x9 <= n && n <= 0xd) || n == 0x20 || n == 0x85 || n == 0xa0 || n == 0x1680 || (
                0x2000 <= n && n <= 0x200a) || n == 0x2028 || n == 0x2029 || n == 0x202f || n
                    == 0x205f || n == 0x3000
            },
        }
    }
}

/// `s` cut at every separator: always at least one piece, possibly empty ones.
pub open spec fn split_at(s: Seq<char>, sep: Separator) -> Seq<Seq<char>>
    decreases s.len(),
{
    if s.len() == 0 {
        seq![Seq::<char>::empty()]
    } else {
        let front = split_at(s.drop_last(), sep);
        if sep.accepts(s.last()) {
            front.push(Seq::<char>::empty())
        } else {
            front.drop_last().push(front.last().push(s.last()))
        }
    }
}

/// The pieces of `s` that are not empty.
pub open spec fn words(s: Seq<char>, sep: Separator) -> Seq<Seq<char>> {
    split_at(s, sep).filter(|w: Seq<char>| w.len() > 0)
}

/// What a list of strings holds.
pub open spec fn texts(v: Seq<String>) -> Seq<Seq<char>> {
    v.map_values(|s: String| s@)
}

/// There is always at least one piece.
pub proof fn lemma_split_nonempty(s: Seq<char>, sep: Separator)
    ensures
        split_at(s, sep).len() >= 1,
    decreases s.len(),
{
    if s.len() > 0 {
        lemma_split_nonempty(s.drop_last(), sep);
    }
}

/// A text without separators is one piece, itself.
pub proof fn law_unbroken_text_is_one_piece(s: Seq<char>, sep: Separator)
    requires
        forall|i: int| 0 <= i < s.len() ==> !sep.accepts(#[trigger] s[i]),
    ensures
        split_at(s, sep) == seq![s],
    decreases s.len(),
{
    if s.len() > 0 {
        let front = s.drop_last();
        assert forall|i: int| 0 <= i < front.len() implies !sep.accepts(#[trigger] front[i]) by {
            assert(front[i] == s[i]);
        }
        law_unbroken_text_is_one_piece(front, sep);
        assert(front.push(s.last()) =~= s);
        assert(split_at(s, sep) =~= seq![s]);
    } else {
        assert(s =~= Seq::<char>::empty());
        assert(split_at(s, sep) =~= seq![s]);
    }
}

/// A separator parts the pieces before it from the pieces after it, and stands in none.
pub proof fn law_separators_part_the_pieces(a: Seq<char>, c: char, b: Seq<char>, sep: Separator)
    requires
        sep.accepts(c),
    ensures
        split_at(a + seq![c] + b, sep) == split_at(a, sep) + split_at(b, sep),
    decreases b.len(),
{
    let all = a + seq![c] + b;
    lemma_split_nonempty(a, sep);
    lemma_split_nonempty(b, sep);
    if b.len() == 0 {
        assert(all.drop_last() =~= a);
        assert(all.last() == c);
        assert(split_at(b, sep) =~= seq![Seq::<char>::empty()]);
        assert(split_at(all, sep) =~= split_at(a, sep) + split_at(b, sep));
    } else {
        let front = b.drop_last();
        law_separators_part_the_pieces(a, c, front, sep);
        lemma_split_nonempty(front, sep);
        assert(all.drop_last() =~= a + seq![c] + front);
        assert(all.last() == b.last());
        assert((split_at(a, sep) + split_at(front, sep)).last() == split_at(front, sep).last());
        assert(split_at(all, sep) =~= split_at(a, sep) + split_at(b, sep));
    }
}

/// The words on the two sides of a separator follow one another; a text without separators is
/// one word, unless it is empty.
pub proof fn law_separators_part_the_words(a: Seq<char>, c: char, b: Seq<char>, sep: Separator)
    requires
        sep.accepts(c),
    ensures
        words(a + seq![c] + b, sep) == words(a, sep) + words(b, sep),
        (forall|i: int| 0 <= i < b.len() ==> !sep.accepts(#[trigger] b[i])) ==> words(b, sep) == (
        if b.len() > 0 {
            seq![b]
        } else {
            Seq::empty()
        }),
{
    let keep = |w: Seq<char>| w.len() > 0;
    law_separators_part_the_pieces(a, c, b, sep);
    Seq::filter_distributes_over_add(split_at(a, sep), split_at(b, sep), keep);
    if forall|i: int| 0 <= i < b.len() ==> !sep.accepts(#[trigger] b[i]) {
        law_unbroken_text_is_one_piece(b, sep);
        let none = Seq::<Seq<char>>::empty();
        lists::lemma_filter_push(none, b, keep);
        lists::lemma_filter_ends(none, keep);
        assert(none.take(0) =~= none);
        assert(none.push(b) =~= seq![b]);
    }
}

/// Cuts `s` at every separator.
pub fn split(s: &str, sep: Separator) -> (r: Vec<String>)
    ensures
        texts(r@) == split_at(s@, sep),
{
    let v = chars_of(s);
    let mut out: Vec<String> = Vec::new();
    let mut cur = String::new();
    let mut i: usize = 0;
    assert(v@.take(0) =~= Seq::<char>::empty());
    assert(texts(out@).push(cur@) =~= split_at(v@.take(0), sep));
    while i < v.len()
        invariant
            i <= v.len(),
            texts(out@).push(cur@) == split_at(v@.take(i as int), sep),
        decreases v.len() - i,
    {
        let ghost before = v@.take(i as int);
        let ghost after = v@.take(i + 1);
        let ghost old_out = out@;
        let ghost old_cur = cur@;
        proof {
            assert(after.drop_last() =~= before);
            assert(split_at(before, sep).last() == old_cur);
            assert(split_at(before, sep).drop_last() =~= texts(old_out));
        }
        if sep.matches_char(v[i]) {
            out.push(cur);
            cur = String::new();
            assert(texts(out@) =~= texts(old_out).push(old_cur));
        } else {
            cur.push(v[i]);
        }
        assert(texts(out@).push(cur@) =~= split_at(after, sep));
        i += 1;
    }
    assert(v@.take(v@.len() as int) =~= v@);
    let ghost last = cur@;
    let ghost front = out@;
    out.push(cur);
    assert(texts(out@) =~= texts(front).push(last));
    out
}

/// The pieces of `s` that are not empty.
pub fn split_words(s: &str, sep: Separator) -> (r: Vec<String>)
    ensures
        texts(r@) == words(s@, sep),
{
    let all = split(s, sep);
    let mut out: Vec<String> = Vec::new();
    let mut i: usize = 0;
    let ghost keep = |w: Seq<char>| w.len() > 0;
    proof {
        lists::lemma_filter_ends(texts(all@), keep);
        assert(texts(out@) =~= Seq::<Seq<char>>::empty());
    }
    while i < all.len()
        invariant
            i <= all.len(),
            keep == (|w: Seq<char>| w.len() > 0),
            texts(out@) == texts(all@).take(i as int).filter(keep),
        decreases all.len() - i,
    {
        let ghost old_out = out@;
        proof {
            lists::lemma_filter_take(texts(all@), i as int, keep);
        }
        if !all[i].as_str().is_empty() {
            out.push(all[i].clone());
            assert(texts(out@) =~= texts(old_out).push(all@[i as int]@));
        }
        i += 1;
    }
    out
}

proof fn lemma_trim_prefix(s: Seq<char>, sep: Separator, i: int)
    requires
        0 <= i <= s.len(),
        forall|j: int| 0 <= j < i ==> sep.accepts(#[trigger] s[j]),
    ensures
        trim_front(s, sep) == trim_front(s.skip(i), sep),
    decreases i,
{
    if i == 0 {
        assert(s.skip(0) =~= s);
    } else {
        assert(sep.accepts(s[0]));
        let rest = s.drop_first();
        assert forall|j: int| 0 <= j < i - 1 implies sep.accepts(#[trigger] rest[j]) by {
            assert(rest[j] == s[j + 1]);
        }
        lemma_trim_prefix(rest, sep, i - 1);
        assert(rest.skip(i - 1) =~= s.skip(i));
    }
}

proof fn lemma_trim_suffix(s: Seq<char>, sep: Separator, i: int)
    requires
        0 <= i <= s.len(),
        forall|j: int| i <= j < s.len() ==> sep.accepts(#[trigger] s[j]),
    ensures
        trim_back(s, sep) == trim_back(s.take(i), sep),
    decreases s.len() - i,
{
    if i == s.len() {
        assert(s.take(i) =~= s);
    } else {
        assert(sep.accepts(s[s.len() - 1]));
        let rest = s.drop_last();
        assert forall|j: int| i <= j < rest.len() implies sep.accepts(#[trigger] rest[j]) by {
            assert(rest[j] == s[j]);
        }
        lemma_trim_suffix(rest, sep, i);
        assert(rest.take(i) =~= s.take(i));
    }
}

/// `s` without the separators at its front.
pub open spec fn trim_front(s: Seq<char>, sep: Separator) -> Seq<char>
    decreases s.len(),
{
    if s.len() > 0 && sep.accepts(s[0]) {
        trim_front(s.drop_first(), sep)
    } else {
        s
    }
}

/// `s` without the separators at its back.
pub open spec fn trim_back(s: Seq<char>, sep: Separator) -> Seq<char>
    decreases s.len(),
{
    if s.len() > 0 && sep.accepts(s.last()) {
        trim_back(s.drop_last(), sep)
    } else {
        s
    }
}

/// `s` without the separators at its two ends.
pub open spec fn trimmed(s: Seq<char>, sep: Separator) -> Seq<char> {
    trim_back(trim_front(s, sep), sep)
}

/// Drops the separators at the two ends of `v`.
pub fn trim_chars(v: &Vec<char>, sep: Separator) -> (r: Vec<char>)
    ensures
        r@ == trimmed(v@, sep),
{
    let mut from: usize = 0;
    while from < v.len() && sep.matches_char(v[from])
        invariant
            from <= v.len(),
            forall|j: int| 0 <= j < from ==> sep.accepts(#[trigger] v@[j]),
        decreases v.len() - from,
    {
        from += 1;
    }
    proof {
        lemma_trim_prefix(v@, sep, from as int);
        assert(trim_front(v@, sep) == v@.skip(from as int));
    }
    let mut to: usize = v.len();
    while to > from && sep.matches_char(v[to - 1])
        invariant
            from <= to <= v.len(),
            forall|j: int| to <= j < v.len() ==> sep.accepts(#[trigger] v@[j]),
        decreases to,
    {
        to -= 1;
    }
    proof {
        let mid = v@.skip(from as int);
        assert forall|j: int| to - from <= j < mid.len() implies sep.accepts(#[trigger] mid[j]) by {
            assert(mid[j] == v@[j + from]);
        }
        lemma_trim_suffix(mid, sep, to - from);
        assert(mid.take(to - from) =~= v@.subrange(from as int, to as int));
    }
    sub_chars(v, from, to)
}

/// Drops the separators at the two ends of `s`.
pub fn trim(s: &str, sep: Separator) -> (r: String)
    ensures
        r@ == trimmed(s@, sep),
{
    string_of(&trim_chars(&chars_of(s), sep))
}

// ---- joining --------------------------------------------------------------------

/// `a` followed by `b`.
pub fn cat2(a: &str, b: &str) -> (r: String)
    ensures
        r@ == a@ + b@,
{
    let mut out = String::new();
    out.append(a);
    out.append(b);
    assert(out@ =~= a@ + b@);
    out
}

/// `a`, `b` and `c`, one after the other.
pub fn cat3(a: &str, b: &str, c: &str) -> (r: String)
    ensures
        r@ == a@ + b@ + c@,
{
    let mut out = cat2(a, b);
    out.append(c);
    out
}

// ---- decimal numbers ------------------------------------------------------------

/// The character for a decimal digit.
pub open spec fn digit_char(d: int) -> char {
    (('0' as int) + d) as char
}

/// A natural number in decimal notation.
pub open spec fn dec_nat(n: nat) -> Seq<char>
    decreases n,
{
    if n < 10 {
        seq![digit_char(n as int)]
    } else {
        dec_nat(n / 10).push(digit_char((n % 10) as int))
    }
}

/// An integer in decimal notation, with a minus sign where it is negative.
pub open spec fn dec(n: int) -> Seq<char> {
    if n < 0 {
        seq!['-'] + dec_nat((-n) as nat)
    } else {
        dec_nat(n as nat)
    }
}

/// A number in decimal notation is made of digits, and their value is the number.
pub proof fn lemma_dec_nat(n: nat)
    ensures
        all_digits(dec_nat(n)),
        digits_value(dec_nat(n)) == n,
    decreases n,
{
    if n < 10 {
        assert(dec_nat(n).drop_last() =~= Seq::<char>::empty());
        assert(digits_value(Seq::<char>::empty()) == 0);
    } else {
        lemma_dec_nat(n / 10);
        assert(dec_nat(n).drop_last() =~= dec_nat(n / 10));
    }
}

/// Different numbers are written differently.
pub proof fn lemma_dec_injective(a: int, b: int)
    requires
        dec(a) == dec(b),
    ensures
        a == b,
{
    let x = if a < 0 { -a } else { a };
    let y = if b < 0 { -b } else { b };
    lemma_dec_nat(x as nat);
    lemma_dec_nat(y as nat);
    if a < 0 {
        assert(dec(a)[0] == '-');
        assert(dec(a).drop_first() =~= dec_nat(x as nat));
    } else {
        assert(is_digit(dec(a)[0]));
    }
    if b < 0 {
        assert(dec(b)[0] == '-');
        assert(dec(b).drop_first() =~= dec_nat(y as nat));
    } else {
        assert(is_digit(dec(b)[0]));
    }
}

/// Whether `c` is one of the ten decimal digits.
pub open spec fn is_digit(c: char) -> bool {
    '0' <= c <= '9'
}

/// The value of a sequence of decimal digits.
pub open spec fn digits_value(s: Seq<char>) -> int
    decreases s.len(),
{
    if s.len() == 0 {
        0
    } else {
        10 * digits_value(s.drop_last()) + (s.last() as int - '0' as int)
    }
}

/// Whether `s` is one or more decimal digits.
pub open spec fn all_digits(s: Seq<char>) -> bool {
    s.len() > 0 && forall|i: int| 0 <= i < s.len() ==> is_digit(#[trigger] s[i])
}

/// The number that `s` denotes: an optional sign, then digits, within the range
/// of an `i64`.
pub open spec fn number(s: Seq<char>) -> Option<int> {
    let signed = s.len() > 0 && (s[0] == '-' || s[0] == '+');
    let digits = if signed {
        s.drop_first()
    } else {
        s
    };
    let value = if signed && s[0] == '-' {
        -digits_value(digits)
    } else {
        digits_value(digits)
    };
    if all_digits(digits) && i64::MIN <= value <= i64::MAX {
        Some(value)
    } else {
        None
    }
}

/// Writes a natural number in decimal notation.
pub fn format_u64(n: u64) -> (r: String)
    ensures
        r@ == dec_nat(n as nat),
    decreases n,
{
    let d: u8 = 48u8 + (n % 10) as u8;
    if n < 10 {
        let mut out = String::new();
        out.push(d as char);
        assert(out@ =~= seq![digit_char(n as int)]);
        out
    } else {
        let mut out = format_u64(n / 10);
        out.push(d as char);
        out
    }
}

/// Writes an integer in decimal notation.
pub fn format_i64(n: i64) -> (r: String)
    ensures
        r@ == dec(n as int),
{
    if n < 0 {
        let mag: u64 = if n == i64::MIN {
            0x8000_0000_0000_0000u64
        } else {
            (-n) as u64
        };
        let digits = format_u64(mag);
        let mut out = String::new();
        out.push('-');
        out.append(digits.as_str());
        assert(out@ =~= seq!['-'] + dec_nat((-n) as nat));
        out
    } else {
        format_u64(n as u64)
    }
}

proof fn lemma_value_grows(s: Seq<char>, i: int)
    requires
        0 <= i <= s.len(),
        forall|j: int| 0 <= j < s.len() ==> is_digit(#[trigger] s[j]),
    ensures
        0 <= digits_value(s.take(i)) <= digits_value(s),
    decreases s.len(),
{
    if i == s.len() {
        assert(s.take(i) =~= s);
        if s.len() > 0 {
            assert(is_digit(s[s.len() - 1]));
            assert forall|j: int| 0 <= j < s.drop_last().len() implies is_digit(
                #[trigger] s.drop_last()[j],
            ) by {
                assert(is_digit(s[j]));
            }
            lemma_value_grows(s.drop_last(), s.len() - 1);
            assert(s.drop_last().take(s.len() - 1) =~= s.drop_last());
        }
    } else {
        assert(is_digit(s[s.len() - 1]));
        assert forall|j: int| 0 <= j < s.drop_last().len() implies is_digit(
            #[trigger] s.drop_last()[j],
        ) by {
            assert(is_digit(s[j]));
        }
        lemma_value_grows(s.drop_last(), i);
        assert(s.drop_last().take(i) =~= s.take(i));
    }
}

/// Reads a number in decimal notation, as `number` says.
pub fn parse_i64(v: &Vec<char>) -> (r: Option<i64>)
    ensures
        match r {
            Some(n) => number(v@) == Some(n as int),
            None => number(v@) is None,
        },
{
    let signed: bool = v.len() > 0 && (v[0] == '-' || v[0] == '+');
    let negative: bool = v.len() > 0 && v[0] == '-';
    let start: usize = if signed {
        1
    } else {
        0
    };
    let ghost digits = v@.skip(start as int);
    proof {
        if signed {
            assert(digits =~= v@.drop_first());
        } else {
            assert(digits =~= v@);
        }
    }
    if start == v.len() {
        return None;
    }
    let mut acc: u64 = 0;
    let mut i: usize = start;
    while i < v.len()
        invariant
            start <= i <= v.len(),
            digits == v@.skip(start as int),
            forall|j: int| 0 <= j < i - start ==> is_digit(#[trigger] digits[j]),
            acc == digits_value(digits.take(i - start)),
            acc <= 0x8000_0000_0000_0000u64,
            negative == (v@.len() > 0 && v@[0] == '-'),
            signed == (v@.len() > 0 && (v@[0] == '-' || v@[0] == '+')),
            start == (if signed { 1int } else { 0int }),
            digits == (if signed { v@.drop_first() } else { v@ }),
            v.len() > start,
        decreases v.len() - i,
    {
        let c = v[i];
        assert(digits[i - start] == c);
        if !(c >= '0' && c <= '9') {
            assert(!is_digit(digits[i - start]));
            return None;
        }
        let d: u64 = (c as u32 - 48u32) as u64;
        proof {
            assert(digits.take(i - start + 1).drop_last() =~= digits.take(i - start));
            assert(digits_value(digits.take(i - start + 1)) == 10 * acc + d);
        }
        if acc > (0x8000_0000_0000_0000u64 - d) / 10 {
            proof {
                if all_digits(digits) {
                    lemma_value_grows(digits, i - start + 1);
                }
            }
            return None;
        }
        acc = acc * 10 + d;
        i += 1;
    }
    assert(digits.take(digits.len() as int) =~= digits);
    assert(all_digits(digits));
    if negative {
        if acc == 0x8000_0000_0000_0000u64 {
            Some(i64::MIN)
        } else {
            Some(-(acc as i64))
        }
    } else if acc == 0x8000_0000_0000_0000u64 {
        None
    } else {
        Some(acc as i64)
    }
}

/// What an optional string holds.
pub open spec fn text_opt(s: Option<String>) -> Option<Seq<char>> {
    match s {
        Some(x) => Some(x@),
        None => None,
    }
}

/// A copy of a list of strings.
pub fn clone_texts(v: &Vec<String>) -> (r: Vec<String>)
    ensures
        texts(r@) == texts(v@),
{
    let mut out: Vec<String> = Vec::new();
    let mut i: usize = 0;
    while i < v.len()
        invariant
            i <= v.len(),
            out@ == v@.take(i as int),
        decreases v.len() - i,
    {
        out.push(v[i].clone());
        i += 1;
        assert(out@ =~= v@.take(i as int));
    }
    assert(out@ =~= v@);
    out
}

/// A number reads back as it is written, also with a plus sign or with zeros before it.
pub proof fn law_numbers_read_back(n: int)
    requires
        i64::MIN <= n <= i64::MAX,
    ensures
        number(dec(n)) == Some(n),
        n >= 0 ==> number(seq!['+'] + dec(n)) == Some(n),
        n >= 0 ==> number(seq!['0'] + dec(n)) == Some(n),
{
    let x = if n < 0 {
        -n
    } else {
        n
    };
    let digits = dec_nat(x as nat);
    lemma_dec_nat(x as nat);
    assert(is_digit(digits[0]));
    if n < 0 {
        assert(dec(n).drop_first() =~= digits);
    } else {
        assert((seq!['+'] + digits).drop_first() =~= digits);
        lemma_leading_zero(digits);
        let padded = seq!['0'] + digits;
        assert forall|i: int| 0 <= i < padded.len() implies is_digit(#[trigger] padded[i]) by {
            if i > 0 {
                assert(padded[i] == digits[i - 1]);
            }
        }
    }
}

proof fn lemma_leading_zero(s: Seq<char>)
    ensures
        digits_value(seq!['0'] + s) == digits_value(s),
    decreases s.len(),
{
    let t = seq!['0'] + s;
    if s.len() == 0 {
        assert(t.drop_last() =~= Seq::<char>::empty());
        assert(digits_value(Seq::<char>::empty()) == 0);
    } else {
        lemma_leading_zero(s.drop_last());
        assert(t.drop_last() =~= seq!['0'] + s.drop_last());
    }
}

/// Text that is no number is not read as one: what holds anything but digits after its sign,
/// or nothing.
pub proof fn law_other_text_is_no_number(s: Seq<char>, i: int)
    requires
        s.len() == 0 || (0 < i < s.len() && !('0' <= s[i] <= '9')) || (!('0' <= s[0] <= '9')
            && s[0] != '-' && s[0] != '+'),
    ensures
        number(s) is None,
{
    if s.len() > 0 && 0 < i < s.len() && !('0' <= s[i] <= '9') {
        let rest = s.drop_first();
        assert(rest[i - 1] == s[i]);
        assert(!is_digit(rest[i - 1]));
        assert(!is_digit(s[i]));
    } else if s.len() > 0 {
        assert(!is_digit(s[0]));
    }
}

// ---- letter case ----------------------------------------------------------------

/// A text in lowercase, by the rules of Unicode.
pub uninterp spec fn str_lowercase(s: Seq<char>) -> Seq<char>;

/// An ASCII character in lowercase.
pub open spec fn lower(c: char) -> char {
    if 'A' <= c <= 'Z' {
        ((c as u8) + 32) as char
    } else {
        c
    }
}

/// Whether a text is made of ASCII characters.
pub open spec fn is_ascii(s: Seq<char>) -> bool {
    forall|i: int| 0 <= i < s.len() ==> (#[trigger] s[i] as u32) < 128
}

/// Turns a text to lowercase with `str::to_lowercase`. The result depends on the text
/// alone; of a text of ASCII characters, the letters `A` to `Z` become `a` to `z` and
/// every other character stays.
#[verifier::external_body]
pub(crate) fn to_lowercase(s: &str) -> (r: String)
    ensures
        r@ == str_lowercase(s@),
        is_ascii(s@) ==> r@ == s@.map_values(|c: char| lower(c)),
{
    s.to_lowercase()
}

// ---- paths ----------------------------------------------------------------------

/// `rel` appended to `base` as a path: `rel` alone where it is absolute, else with
/// a slash between the two unless `base` is empty or ends with one.
pub open spec fn joined(base: Seq<char>, rel: Seq<char>) -> Seq<char> {
    if rel.len() > 0 && rel[0] == '/' {
        rel
    } else if base.len() == 0 || base.last() == '/' {
        base + rel
    } else {
        base.push('/') + rel
    }
}

// ---- paths of the file system ---------------------------------------------------

/// `rel` appended to `base` as a path, both as the file system has them: bytes that need not
/// be text.
pub open spec fn joined_bytes(base: Seq<u8>, rel: Seq<u8>) -> Seq<u8> {
    if rel.len() > 0 && rel[0] == 0x2f {
        rel
    } else if base.len() == 0 || base.last() == 0x2f {
        base + rel
    } else {
        base.push(0x2f) + rel
    }
}

/// A path joined to a base lies below it: the base comes first and the path last, with one
/// slash between them. An absolute path stands for itself.
pub proof fn law_joined_paths_lie_below(base: Seq<u8>, rel: Seq<u8>)
    ensures
        rel.len() > 0 && rel[0] == 0x2f ==> joined_bytes(base, rel) == rel,
        base.len() == 0 ==> joined_bytes(base, rel) == rel,
        base.len() > 0 && !(rel.len() > 0 && rel[0] == 0x2f) ==> {
            let j = joined_bytes(base, rel);
            &&& base.is_prefix_of(j)
            &&& rel.is_suffix_of(j)
            &&& j[j.len() - rel.len() - 1] == 0x2f
            &&& j.len() == base.len() + rel.len() + (if base.last() == 0x2f {
                0int
            } else {
                1int
            })
        },
{
    let j = joined_bytes(base, rel);
    if base.len() == 0 {
        assert(base + rel =~= rel);
    } else if !(rel.len() > 0 && rel[0] == 0x2f) {
        assert(base =~= j.subrange(0, base.len() as int));
        assert(rel =~= j.subrange(j.len() - rel.len(), j.len() as int));
    }
}

fn push_bytes(out: &mut Vec<u8>, b: &[u8])
    ensures
        final(out)@ == old(out)@ + b@,
{
    let ghost before = out@;
    let mut i: usize = 0;
    assert(before + b@.take(0) =~= before);
    while i < b.len()
        invariant
            i <= b.len(),
            out@ == before + b@.take(i as int),
        decreases b.len() - i,
    {
        out.push(b[i]);
        i += 1;
        assert(out@ =~= before + b@.take(i as int));
    }
    assert(b@.take(b@.len() as int) =~= b@);
}

/// The bytes of a slice, as a vector.
pub fn bytes_of(b: &[u8]) -> (r: Vec<u8>)
    ensures
        r@ == b@,
{
    let mut out: Vec<u8> = Vec::new();
    push_bytes(&mut out, b);
    assert(out@ =~= b@);
    out
}

/// Appends `rel` to `base` as a path.
pub fn join_bytes(base: &[u8], rel: &[u8]) -> (r: Vec<u8>)
    ensures
        r@ == joined_bytes(base@, rel@),
{
    if rel.len() > 0 && rel[0] == 0x2f {
        return bytes_of(rel);
    }
    let mut out = bytes_of(base);
    if base.len() > 0 && base[base.len() - 1] != 0x2f {
        out.push(0x2f);
    }
    push_bytes(&mut out, rel);
    out
}

/// Bytes as text, with a replacement for what is not valid UTF-8.
pub uninterp spec fn utf8_lossy(b: Seq<u8>) -> Seq<char>;

/// Turns bytes to text with `String::from_utf8_lossy`. The result depends on the bytes
/// alone; valid UTF-8 stays as it is.
#[verifier::external_body]
pub(crate) fn lossy(b: &[u8]) -> (r: String)
    ensures
        r@ == utf8_lossy(b@),
        valid_utf8(b@) ==> r@ == decode_utf8(b@),
{
    String::from_utf8_lossy(b).into_owned()
}

/// The bytes of some paths.
pub open spec fn raws(v: Seq<Vec<u8>>) -> Seq<Seq<u8>> {
    v.map_values(|p: Vec<u8>| p@)
}

/// What an optional path holds.
pub open spec fn bytes_opt(p: Option<Vec<u8>>) -> Option<Seq<u8>> {
    match p {
        Some(x) => Some(x@),
        None => None,
    }
}

// ---- what trimming leaves -------------------------------------------------------

/// What is left after trimming was there before.
pub proof fn lemma_trimmed_member(s: Seq<char>, sep: Separator, i: int)
    requires
        0 <= i < trimmed(s, sep).len(),
    ensures
        s.contains(trimmed(s, sep)[i]),
{
    lemma_trim_front_skip(s, sep);
    lemma_trim_back_take(trim_front(s, sep), sep);
    let k = s.len() - trim_front(s, sep).len();
    assert(trimmed(s, sep)[i] == s[k + i]);
}

/// What is left after trimming begins and ends with what is kept.
pub proof fn lemma_trimmed_ends(s: Seq<char>, sep: Separator, k: int)
    requires
        0 <= k < s.len(),
        !sep.accepts(s[k]),
    ensures
        0 < trimmed(s, sep).len() <= s.len(),
        !sep.accepts(trimmed(s, sep)[0]),
        !sep.accepts(trimmed(s, sep).last()),
{
    lemma_trim_front_keeps(s, sep, k);
    let front = trim_front(s, sep);
    lemma_trim_front_skip(s, sep);
    lemma_trim_back_keeps(front, sep, 0);
    lemma_trim_back_take(front, sep);
}

proof fn lemma_trim_front_keeps(s: Seq<char>, sep: Separator, k: int)
    requires
        0 <= k < s.len(),
        !sep.accepts(s[k]),
    ensures
        trim_front(s, sep).len() > 0,
        !sep.accepts(trim_front(s, sep)[0]),
    decreases s.len(),
{
    if sep.accepts(s[0]) {
        assert(s.drop_first()[k - 1] == s[k]);
        lemma_trim_front_keeps(s.drop_first(), sep, k - 1);
    }
}

proof fn lemma_trim_back_keeps(s: Seq<char>, sep: Separator, k: int)
    requires
        0 <= k < s.len(),
        !sep.accepts(s[k]),
    ensures
        trim_back(s, sep).len() > 0,
        !sep.accepts(trim_back(s, sep).last()),
    decreases s.len(),
{
    if sep.accepts(s.last()) {
        assert(s.drop_last()[k] == s[k]);
        lemma_trim_back_keeps(s.drop_last(), sep, k);
    }
}

/// Separators at the two ends make no difference to what is left after trimming.
pub proof fn lemma_trimmed_padded(front: Seq<char>, s: Seq<char>, back: Seq<char>, sep: Separator)
    requires
        forall|i: int| 0 <= i < front.len() ==> sep.accepts(#[trigger] front[i]),
        forall|i: int| 0 <= i < back.len() ==> sep.accepts(#[trigger] back[i]),
    ensures
        trimmed(front + s + back, sep) == trimmed(s, sep),
{
    lemma_trim_front_padded(front, s + back, sep);
    assert(front + s + back =~= front + (s + back));
    if exists|k: int| 0 <= k < s.len() && !sep.accepts(#[trigger] s[k]) {
        lemma_trim_front_extends(s, back, sep);
        lemma_trim_back_padded(trim_front(s, sep), back, sep);
    } else {
        let none = Seq::<char>::empty();
        assert(s + back =~= (s + back) + none);
        assert(s =~= s + none);
        lemma_trim_front_padded(s + back, none, sep);
        lemma_trim_front_padded(s, none, sep);
    }
}

proof fn lemma_trim_front_padded(front: Seq<char>, s: Seq<char>, sep: Separator)
    requires
        forall|i: int| 0 <= i < front.len() ==> sep.accepts(#[trigger] front[i]),
    ensures
        trim_front(front + s, sep) == trim_front(s, sep),
    decreases front.len(),
{
    if front.len() == 0 {
        assert(front + s =~= s);
    } else {
        assert((front + s)[0] == front[0]);
        assert((front + s).drop_first() =~= front.drop_first() + s);
        lemma_trim_front_padded(front.drop_first(), s, sep);
    }
}

proof fn lemma_trim_front_extends(s: Seq<char>, back: Seq<char>, sep: Separator)
    requires
        exists|k: int| 0 <= k < s.len() && !sep.accepts(#[trigger] s[k]),
    ensures
        trim_front(s + back, sep) == trim_front(s, sep) + back,
    decreases s.len(),
{
    let k = choose|k: int| 0 <= k < s.len() && !sep.accepts(#[trigger] s[k]);
    assert((s + back)[0] == s[0]);
    if sep.accepts(s[0]) {
        assert(s.drop_first()[k - 1] == s[k]);
        assert((s + back).drop_first() =~= s.drop_first() + back);
        lemma_trim_front_extends(s.drop_first(), back, sep);
    }
}

proof fn lemma_trim_back_padded(s: Seq<char>, back: Seq<char>, sep: Separator)
    requires
        forall|i: int| 0 <= i < back.len() ==> sep.accepts(#[trigger] back[i]),
    ensures
        trim_back(s + back, sep) == trim_back(s, sep),
    decreases back.len(),
{
    if back.len() == 0 {
        assert(s + back =~= s);
    } else {
        assert((s + back).last() == back[back.len() - 1]);
        assert((s + back).drop_last() =~= s + back.drop_last());
        lemma_trim_back_padded(s, back.drop_last(), sep);
    }
}

proof fn lemma_trim_front_skip(s: Seq<char>, sep: Separator)
    ensures
        trim_front(s, sep).len() <= s.len(),
        trim_front(s, sep) == s.skip(s.len() - trim_front(s, sep).len()),
    decreases s.len(),
{
    if s.len() > 0 && sep.accepts(s[0]) {
        lemma_trim_front_skip(s.drop_first(), sep);
    }
    assert(trim_front(s, sep) =~= s.skip(s.len() - trim_front(s, sep).len()));
}

proof fn lemma_trim_back_take(s: Seq<char>, sep: Separator)
    ensures
        trim_back(s, sep).len() <= s.len(),
        trim_back(s, sep) == s.take(trim_back(s, sep).len() as int),
    decreases s.len(),
{
    if s.len() > 0 && sep.accepts(s.last()) {
        lemma_trim_back_take(s.drop_last(), sep);
    }
    assert(trim_back(s, sep) =~= s.take(trim_back(s, sep).len() as int));
}

/// Trimming takes away what is to be trimmed at the two ends, all of it, and nothing else.
pub proof fn law_trimming_takes_the_ends_only(
    front: Seq<char>,
    s: Seq<char>,
    back: Seq<char>,
    sep: Separator,
)
    requires
        forall|i: int| 0 <= i < front.len() ==> sep.accepts(#[trigger] front[i]),
        forall|i: int| 0 <= i < back.len() ==> sep.accepts(#[trigger] back[i]),
        s.len() > 0 ==> !sep.accepts(s[0]) && !sep.accepts(s.last()),
    ensures
        trimmed(front + s + back, sep) == s,
{
    lemma_trimmed_padded(front, s, back, sep);
    assert(trimmed(s, sep) =~= s);
}

/// Among the ASCII characters, blanks, tabs and line ends are white space, and no others.
pub proof fn law_blanks_are_white_space(c: char)
    requires
        (c as u32) < 128,
    ensures
        is_space(c) <==> c == ' ' || c == '\t' || c == '\n' || c == '\r' || c as u32 == 0xb || c as u32
            == 0xc,
{
}

} // verus!
