//! Civil dates and the date text that Spotlight prints.

use vstd::prelude::*;
use vstd::utf8::*;

use crate::text;
use crate::text::Separator;

verus! {

// ---- the calendar ---------------------------------------------------------------

/// Whether `y` is a leap year in the Gregorian calendar.
pub open spec fn is_leap(y: int) -> bool {
    y % 4 == 0 && (y % 100 != 0 || y % 400 == 0)
}

/// The number of days in a year.
pub open spec fn year_length(y: int) -> int {
    if is_leap(y) {
        366
    } else {
        365
    }
}

/// The number of days in a month.
pub open spec fn month_length(y: int, m: int) -> int {
    if m == 2 {
        if is_leap(y) {
            29
        } else {
            28
        }
    } else if m == 4 || m == 6 || m == 9 || m == 11 {
        30
    } else {
        31
    }
}

/// Days from 1 January 1970 to 1 January of year `y`, counted year by year.
pub open spec fn days_to_year(y: int) -> int
    decreases if y >= 1970 { y - 1970 } else { 1970 - y },
{
    if y == 1970 {
        0
    } else if y > 1970 {
        days_to_year(y - 1) + year_length(y - 1)
    } else {
        days_to_year(y + 1) - year_length(y)
    }
}

/// Days from 1 January to the first day of month `m`, counted month by month.
pub open spec fn days_to_month(y: int, m: int) -> int
    decreases m,
{
    if m <= 1 {
        0
    } else {
        days_to_month(y, m - 1) + month_length(y, m - 1)
    }
}

/// Days since 1 January 1970, counted along the calendar.
pub open spec fn calendar_days(y: int, m: int, d: int) -> int {
    days_to_year(y) + days_to_month(y, m) + d - 1
}

// ---- the same in closed form ----------------------------------------------------

/// Division that rounds toward zero.
pub open spec fn quotient(a: int, b: int) -> int
    recommends
        b > 0,
{
    if a >= 0 {
        a / b
    } else {
        -((-a) / b)
    }
}

/// The year, when years begin in March.
pub open spec fn march_year(y: int, m: int) -> int {
    if m <= 2 {
        y - 1
    } else {
        y
    }
}

/// The month counted from March.
pub open spec fn march_month(m: int) -> int {
    if m > 2 {
        m - 3
    } else {
        m + 9
    }
}

/// The day counted from 1 March.
pub open spec fn march_day(m: int, d: int) -> int {
    quotient(153 * march_month(m) + 2, 5) + d - 1
}

/// Days since 1 January 1970, for years that begin in March: 365 for each year, one
/// more every 4 years, one less every 100, one more every 400. Months and days
/// outside the calendar are counted on in the same way.
pub open spec fn civil_days(y: int, m: int, d: int) -> int {
    let my = march_year(y, m);
    365 * my + my / 4 - my / 100 + my / 400 + march_day(m, d) - 719_468
}

/// Whether `n` can be held in an `i64`.
pub open spec fn fits(n: int) -> bool {
    i64::MIN <= n <= i64::MAX
}

/// Whether every step of the computation stays within an `i64`.
pub open spec fn civil_fits(y: int, m: int, d: int) -> bool {
    let my = march_year(y, m);
    let era = my / 400;
    let yoe = my % 400;
    let doe = yoe * 365 + yoe / 4 - yoe / 100 + march_day(m, d);
    &&& fits(if my >= 0 { my } else { my - 399 })
    &&& fits(153 * march_month(m))
    &&& fits(153 * march_month(m) + 2)
    &&& fits(march_day(m, d) + 1)
    &&& fits(march_day(m, d))
    &&& fits(doe)
    &&& fits(era * 146_097)
    &&& fits(era * 146_097 + doe)
    &&& fits(civil_days(y, m, d))
}

proof fn lemma_era(my: int)
    ensures
        (my / 400) * 146_097 + (my % 400) * 365 + (my % 400) / 4 - (my % 400) / 100 == 365 * my + my
            / 4 - my / 100 + my / 400,
{
    let e = my / 400;
    let r = my % 400;
    assert(my == 400 * e + r);
    assert(my / 4 == 100 * e + r / 4);
    assert(my / 100 == 4 * e + r / 100);
}

/// Days since the Unix epoch for a civil date.
pub fn days_from_civil(y: i64, m: i64, d: i64) -> (r: i64)
    requires
        civil_fits(y as int, m as int, d as int),
    ensures
        r == civil_days(y as int, m as int, d as int),
{
    let my: i64 = if m <= 2 {
        y - 1
    } else {
        y
    };
    proof {
        lemma_era(my as int);
    }
    let era: i64 = (if my >= 0 {
        my
    } else {
        my - 399
    }) / 400;
    assert(era == my as int / 400);
    let yoe: i64 = my - era * 400;
    let mp: i64 = if m > 2 {
        m - 3
    } else {
        m + 9
    };
    let doy: i64 = (153 * mp + 2) / 5 + d - 1;
    let doe: i64 = yoe * 365 + yoe / 4 - yoe / 100 + doy;
    era * 146_097 + doe - 719_468
}

/// Tells whether `days_from_civil` can compute a date.
pub fn check_civil(y: i64, m: i64, d: i64) -> (r: bool)
    ensures
        r == civil_fits(y as int, m as int, d as int),
{
    let lo: i128 = i64::MIN as i128;
    let hi: i128 = i64::MAX as i128;
    let my: i128 = if m <= 2 {
        y as i128 - 1
    } else {
        y as i128
    };
    let shifted: i128 = if my >= 0 {
        my
    } else {
        my - 399
    };
    let era: i128 = shifted / 400;
    assert(era == my as int / 400);
    let yoe: i128 = my - era * 400;
    let mp: i128 = if m > 2 {
        m as i128 - 3
    } else {
        m as i128 + 9
    };
    let scaled: i128 = 153 * mp;
    let doy1: i128 = (scaled + 2) / 5 + d as i128;
    let doe: i128 = yoe * 365 + yoe / 4 - yoe / 100 + (doy1 - 1);
    let base: i128 = era * 146_097;
    proof {
        lemma_era(my as int);
    }
    let total: i128 = base + doe - 719_468;
    lo <= shifted && shifted <= hi && lo <= scaled && scaled <= hi && lo <= scaled + 2 && scaled + 2
        <= hi && lo <= doy1 && doy1 <= hi && lo <= doy1 - 1 && doy1 - 1 <= hi && lo <= doe && doe
        <= hi && lo <= base && base <= hi && lo <= base + doe && base + doe <= hi && lo <= total
        && total <= hi
}

proof fn lemma_year_starts(y: int)
    ensures
        civil_days(y, 1, 1) == days_to_year(y),
    decreases if y >= 1970 { y - 1970 } else { 1970 - y },
{
    if y == 1970 {
    } else if y > 1970 {
        lemma_year_starts(y - 1);
        lemma_year_step(y - 1);
    } else {
        lemma_year_starts(y + 1);
        lemma_year_step(y);
    }
}

/// How the quotients that count leap years grow from one year to the next.
#[verifier::spinoff_prover]
proof fn lemma_quotient_steps(y: int)
    ensures
        y / 4 - (y - 1) / 4 == if y % 4 == 0 { 1int } else { 0int },
        y / 100 - (y - 1) / 100 == if y % 100 == 0 { 1int } else { 0int },
        y / 400 - (y - 1) / 400 == if y % 400 == 0 { 1int } else { 0int },
        y % 400 == 0 ==> y % 100 == 0,
        y % 100 == 0 ==> y % 4 == 0,
{
}

/// From one 1 January to the next.
#[verifier::spinoff_prover]
#[verifier::rlimit(30)]
proof fn lemma_year_step(y: int)
    ensures
        civil_days(y + 1, 1, 1) == civil_days(y, 1, 1) + year_length(y),
{
    lemma_quotient_steps(y);
}

proof fn lemma_month_starts(y: int, m: int)
    requires
        1 <= m <= 12,
    ensures
        civil_days(y, m, 1) == civil_days(y, 1, 1) + days_to_month(y, m),
    decreases m,
{
    if m > 1 {
        lemma_month_starts(y, m - 1);
        assert(civil_days(y, m, 1) - civil_days(y, m - 1, 1) == month_length(y, m - 1)) by {
            lemma_year_step(y);
            lemma_quotient_steps(y);
        }
    }
}

/// The day number of every date is the one that counting along the calendar gives:
/// year by year with its leap years, then month by month.
pub proof fn law_days_follow_the_calendar(y: int, m: int, d: int)
    requires
        1 <= m <= 12,
    ensures
        civil_days(y, m, d) == calendar_days(y, m, d),
{
    lemma_year_starts(y);
    lemma_month_starts(y, m);
}

// ---- Spotlight's date text ------------------------------------------------------

/// The parts of a date and time as they are written.
#[derive(Debug, Clone, Copy)]
pub struct Stamp {
    pub year: i64,
    pub month: i64,
    pub day: i64,
    pub hour: i64,
    pub minute: i64,
    pub second: i64,
    /// Seconds that the local time is ahead of UTC.
    pub offset: i64,
}

/// Whether a zone text can be cut after its first, third and fifth byte.
pub open spec fn zone_can_be_cut(tz: Seq<char>) -> bool {
    let b = encode_utf8(tz);
    b.len() >= 5 ==> is_char_boundary(b, 1) && is_char_boundary(b, 3) && is_char_boundary(b, 5)
}

/// A number, or 0 where the text is none.
pub open spec fn number_or_zero(s: Seq<char>) -> int {
    match text::number(s) {
        Some(n) => n,
        None => 0,
    }
}

/// The offset in seconds that a zone text like `+0000` or `-0730` stands for: a sign,
/// two bytes of hours, two bytes of minutes; 0 where it is too short.
pub open spec fn zone_seconds(tz: Seq<char>) -> int {
    let b = encode_utf8(tz);
    if b.len() < 5 {
        0
    } else {
        let h = number_or_zero(decode_utf8(b.subrange(1, 3)));
        let m = number_or_zero(decode_utf8(b.subrange(3, 5)));
        if b[0] == 0x2d {
            -(h * 3600 + m * 60)
        } else {
            h * 3600 + m * 60
        }
    }
}

/// The bytes `from..to` of a string that can be cut there.
fn cut<'a>(s: &'a str, from: usize, to: usize) -> (r: &'a str)
    requires
        from < to <= encode_utf8(s@).len(),
        is_char_boundary(encode_utf8(s@), from as int),
        is_char_boundary(encode_utf8(s@), to as int),
    ensures
        encode_utf8(r@) == encode_utf8(s@).subrange(from as int, to as int),
{
    let ghost b = encode_utf8(s@);
    let head = s.split_at(to).0;
    proof {
        encode_utf8_valid_utf8(s@);
        encode_utf8_valid_utf8(head@);
        is_char_boundary_iff_not_is_continuation_byte(b, from as int);
        is_char_boundary_iff_not_is_continuation_byte(encode_utf8(head@), from as int);
        assert(encode_utf8(head@)[from as int] == b[from as int]);
    }
    let r = head.split_at(from).1;
    assert(encode_utf8(r@) =~= b.subrange(from as int, to as int));
    r
}

/// A number of at most two characters is small.
proof fn lemma_short_number(s: Seq<char>)
    requires
        s.len() <= 2,
    ensures
        -9 <= number_or_zero(s) <= 99,
{
    reveal_with_fuel(text::digits_value, 3);
    if s.len() > 0 && (s[0] == '-' || s[0] == '+') {
        let d = s.drop_first();
        if text::all_digits(d) {
            assert(text::is_digit(d[0]));
            assert(d.drop_last().len() == 0);
        }
    } else if text::all_digits(s) {
        assert(text::is_digit(s[0]));
        assert(text::is_digit(s[s.len() - 1]));
        if s.len() == 2 {
            assert(s.drop_last()[0] == s[0]);
            assert(s.drop_last().drop_last().len() == 0);
        } else {
            assert(s.drop_last().len() == 0);
        }
    }
}

/// Decoding gives at most as many characters as there are bytes.
proof fn lemma_decode_len(b: Seq<u8>)
    requires
        valid_utf8(b),
    ensures
        decode_utf8(b).len() <= b.len(),
    decreases b.len(),
{
    if b.len() > 0 {
        lemma_decode_len(pop_first_scalar(b));
    }
}

/// Reads two bytes as a number, 0 where they are none.
fn two_bytes(s: &str) -> (r: i64)
    requires
        encode_utf8(s@).len() == 2,
    ensures
        r == number_or_zero(decode_utf8(encode_utf8(s@))),
        -9 <= r <= 99,
{
    proof {
        encode_utf8_valid_utf8(s@);
        encode_utf8_decode_utf8(s@);
        lemma_decode_len(encode_utf8(s@));
        lemma_short_number(s@);
    }
    match text::parse_i64(&text::chars_of(s)) {
        Some(n) => n,
        None => 0,
    }
}

/// The offset in seconds that a zone text stands for.
pub fn parse_tz(tz: &str) -> (r: i64)
    requires
        zone_can_be_cut(tz@),
    ensures
        r == zone_seconds(tz@),
{
    let b = tz.as_bytes();
    if b.len() < 5 {
        return 0;
    }
    let h = two_bytes(cut(tz, 1, 3));
    let m = two_bytes(cut(tz, 3, 5));
    if b[0] == 0x2d {
        -(h * 3600 + m * 60)
    } else {
        h * 3600 + m * 60
    }
}

/// Tells whether `parse_tz` can read a zone text.
pub fn check_tz(tz: &str) -> (r: bool)
    ensures
        r == zone_can_be_cut(tz@),
{
    if tz.as_bytes().len() < 5 {
        return true;
    }
    tz.is_char_boundary(1) && tz.is_char_boundary(3) && tz.is_char_boundary(5)
}

/// The zone of a text cut into words: the third word, or UTC.
pub open spec fn zone_word(parts: Seq<Seq<char>>) -> Seq<char> {
    if parts.len() >= 3 {
        parts[2]
    } else {
        "+0000"@
    }
}

/// The words of a date text; none where the text is empty or `(null)`.
pub open spec fn date_words(s: Seq<char>) -> Seq<Seq<char>> {
    let t = text::trimmed(s, Separator::Space);
    if t.len() == 0 || t == "(null)"@ {
        Seq::empty()
    } else {
        text::words(t, Separator::Space)
    }
}

/// The number at one place of a text that was cut into pieces: `None` where the piece
/// is missing or is no number.
pub open spec fn number_at(pieces: Seq<Seq<char>>, i: int) -> Option<int> {
    if i < pieces.len() {
        text::number(pieces[i])
    } else {
        None
    }
}

/// The parts of a text like `2026-05-30 18:42:11 +0000`: a date, a time whose seconds
/// may be left out, and perhaps a zone. `None` where a part is missing or is no number,
/// and where the zone cannot be cut into its sign, hours and minutes.
pub open spec fn stamp_of(s: Seq<char>) -> Option<Stamp> {
    let parts = date_words(s);
    if parts.len() < 2 || !zone_can_be_cut(zone_word(parts)) {
        None
    } else {
        let d = text::split_at(parts[0], Separator::Is('-'));
        let t = text::split_at(parts[1], Separator::Is(':'));
        let seconds = if t.len() >= 3 {
            text::number(t[2])
        } else {
            Some(0int)
        };
        if number_at(d, 0) is Some && number_at(d, 1) is Some && number_at(d, 2) is Some
            && number_at(t, 0) is Some && number_at(t, 1) is Some && seconds is Some {
            Some(
                Stamp {
                    year: number_at(d, 0)->0 as i64,
                    month: number_at(d, 1)->0 as i64,
                    day: number_at(d, 2)->0 as i64,
                    hour: number_at(t, 0)->0 as i64,
                    minute: number_at(t, 1)->0 as i64,
                    second: seconds->0 as i64,
                    offset: zone_seconds(zone_word(parts)) as i64,
                },
            )
        } else {
            None
        }
    }
}

impl Stamp {
    /// The day number.
    pub open spec fn days(self) -> int {
        civil_days(self.year as int, self.month as int, self.day as int)
    }

    /// Seconds since the Unix epoch.
    pub open spec fn epoch(self) -> int {
        self.days() * 86_400 + self.hour * 3600 + self.minute * 60 + self.second - self.offset
    }

    /// Whether every step of the computation stays within an `i64`.
    pub open spec fn computable(self) -> bool {
        let days = self.days();
        &&& civil_fits(self.year as int, self.month as int, self.day as int)
        &&& fits(days * 86_400)
        &&& fits(self.hour * 3600)
        &&& fits(days * 86_400 + self.hour * 3600)
        &&& fits(self.minute * 60)
        &&& fits(days * 86_400 + self.hour * 3600 + self.minute * 60)
        &&& fits(days * 86_400 + self.hour * 3600 + self.minute * 60 + self.second)
        &&& fits(self.epoch())
    }

    /// Seconds since the Unix epoch.
    pub fn epoch_secs(&self) -> (r: i64)
        requires
            self.computable(),
        ensures
            r == self.epoch(),
    {
        let days = days_from_civil(self.year, self.month, self.day);
        days * 86_400 + self.hour * 3600 + self.minute * 60 + self.second - self.offset
    }

    /// Tells whether `epoch_secs` can compute this stamp.
    pub fn check(&self) -> (r: bool)
        ensures
            r == self.computable(),
    {
        if !check_civil(self.year, self.month, self.day) {
            return false;
        }
        let lo: i128 = i64::MIN as i128;
        let hi: i128 = i64::MAX as i128;
        let days: i128 = days_from_civil(self.year, self.month, self.day) as i128;
        let a: i128 = days * 86_400;
        let b: i128 = self.hour as i128 * 3600;
        let c: i128 = self.minute as i128 * 60;
        let total: i128 = a + b + c + self.second as i128;
        let shifted: i128 = total - self.offset as i128;
        lo <= a && a <= hi && lo <= b && b <= hi && lo <= a + b && a + b <= hi && lo <= c && c <= hi
            && lo <= a + b + c && a + b + c <= hi && lo <= total && total <= hi && lo <= shifted
            && shifted <= hi
    }
}

fn number_in(pieces: &Vec<String>, i: usize) -> (r: Option<i64>)
    ensures
        match r {
            Some(n) => number_at(text::texts(pieces@), i as int) == Some(n as int),
            None => number_at(text::texts(pieces@), i as int) is None,
        },
{
    if i < pieces.len() {
        assert(text::texts(pieces@)[i as int] == pieces@[i as int]@);
        text::parse_i64(&text::chars_of(pieces[i].as_str()))
    } else {
        None
    }
}

/// The words of a date text.
fn words_of_date(s: &str) -> (r: Vec<String>)
    ensures
        text::texts(r@) == date_words(s@),
{
    let t = text::trim(s, Separator::Space);
    if t.as_str().is_empty() || text::same(t.as_str(), "(null)") {
        let none: Vec<String> = Vec::new();
        assert(text::texts(none@) =~= Seq::<Seq<char>>::empty());
        return none;
    }
    text::split_words(t.as_str(), Separator::Space)
}

/// The zone that stands for UTC can be cut like any other.
proof fn lemma_utc_can_be_cut()
    ensures
        zone_can_be_cut("+0000"@),
{
    reveal_strlit("+0000");
    let s = "+0000"@;
    let b = encode_utf8(s);
    is_ascii_chars_encode_utf8(s);
    encode_utf8_valid_utf8(s);
    is_char_boundary_iff_not_is_continuation_byte(b, 1);
    is_char_boundary_iff_not_is_continuation_byte(b, 3);
    is_char_boundary_start_end_of_seq(b);
}

/// Reads the parts of a date text.
fn read_stamp(s: &str) -> (r: Option<Stamp>)
    ensures
        r == stamp_of(s@),
{
    let parts = words_of_date(s);
    if parts.len() < 2 {
        return None;
    }
    assert(text::texts(parts@)[0] == parts@[0]@);
    assert(text::texts(parts@)[1] == parts@[1]@);
    let offset: i64 = if parts.len() >= 3 {
        assert(text::texts(parts@)[2] == parts@[2]@);
        if !check_tz(parts[2].as_str()) {
            return None;
        }
        parse_tz(parts[2].as_str())
    } else {
        proof {
            lemma_utc_can_be_cut();
        }
        parse_tz("+0000")
    };
    let d = text::split(parts[0].as_str(), Separator::Is('-'));
    let t = text::split(parts[1].as_str(), Separator::Is(':'));
    let second = if t.len() >= 3 {
        number_in(&t, 2)
    } else {
        Some(0i64)
    };
    match (
        number_in(&d, 0),
        number_in(&d, 1),
        number_in(&d, 2),
        number_in(&t, 0),
        number_in(&t, 1),
        second,
    ) {
        (Some(year), Some(month), Some(day), Some(hour), Some(minute), Some(second)) => Some(
            Stamp { year, month, day, hour, minute, second, offset },
        ),
        _ => None,
    }
}

/// Whether a date text can be turned into a time: where it is a date, the computation
/// stays in range.
pub open spec fn date_computable(s: Seq<char>) -> bool {
    stamp_of(s) is Some ==> stamp_of(s)->0.computable()
}

/// Parses a raw Spotlight date like `2026-05-30 18:42:11 +0000` into seconds since
/// the Unix epoch. `None` for `(null)` and for text that is no date.
pub fn parse_mdls_date(s: &str) -> (r: Option<i64>)
    requires
        date_computable(s@),
    ensures
        match r {
            Some(t) => stamp_of(s@) is Some && t == stamp_of(s@)->0.epoch(),
            None => stamp_of(s@) is None,
        },
{
    match read_stamp(s) {
        Some(stamp) => Some(stamp.epoch_secs()),
        None => None,
    }
}

/// Tells whether `parse_mdls_date` can be asked about a text.
pub fn check_mdls_date(s: &str) -> (r: bool)
    ensures
        r == date_computable(s@),
{
    match read_stamp(s) {
        Some(stamp) => stamp.check(),
        None => true,
    }
}

// ---- how dates are read -------------------------------------------------------------

/// Digits hold no separator of a date or a time, and no white space.
proof fn lemma_digits_unbroken(s: Seq<char>)
    requires
        text::all_digits(s),
    ensures
        forall|i: int|
            0 <= i < s.len() ==> {
                &&& !Separator::Is('-').accepts(#[trigger] s[i])
                &&& !Separator::Is(':').accepts(s[i])
                &&& !Separator::Space.accepts(s[i])
            },
{
    assert forall|i: int| 0 <= i < s.len() implies {
        &&& !Separator::Is('-').accepts(#[trigger] s[i])
        &&& !Separator::Is(':').accepts(s[i])
        &&& !Separator::Space.accepts(s[i])
    } by {
        assert(text::is_digit(s[i]));
    }
}

/// Three groups of digits with a separator between them are three pieces.
proof fn lemma_three_pieces(a: Seq<char>, b: Seq<char>, c: Seq<char>, sep: char)
    requires
        text::all_digits(a),
        text::all_digits(b),
        text::all_digits(c),
        sep == '-' || sep == ':',
    ensures
        text::split_at(a + seq![sep] + b + seq![sep] + c, Separator::Is(sep)) == seq![a, b, c],
        text::split_at(a + seq![sep] + b, Separator::Is(sep)) == seq![a, b],
        forall|i: int|
            0 <= i < (a + seq![sep] + b + seq![sep] + c).len() ==> !Separator::Space.accepts(
                #[trigger] (a + seq![sep] + b + seq![sep] + c)[i],
            ),
        forall|i: int|
            0 <= i < (a + seq![sep] + b).len() ==> !Separator::Space.accepts(
                #[trigger] (a + seq![sep] + b)[i],
            ),
{
    let s = Separator::Is(sep);
    lemma_digits_unbroken(a);
    lemma_digits_unbroken(b);
    lemma_digits_unbroken(c);
    text::law_unbroken_text_is_one_piece(a, s);
    text::law_unbroken_text_is_one_piece(b, s);
    text::law_unbroken_text_is_one_piece(c, s);
    text::law_separators_part_the_pieces(a, sep, b, s);
    text::law_separators_part_the_pieces(a + seq![sep] + b, sep, c, s);
    assert(seq![a] + seq![b] + seq![c] =~= seq![a, b, c]);
    assert(seq![a] + seq![b] =~= seq![a, b]);
    assert(!Separator::Space.accepts(sep));
    let all = a + seq![sep] + b + seq![sep] + c;
    assert forall|i: int| 0 <= i < all.len() implies !Separator::Space.accepts(
        #[trigger] all[i],
    ) by {
        let n = a.len() as int;
        let m = b.len() as int;
        if i < n {
            assert(all[i] == a[i]);
        } else if i == n || i == n + 1 + m {
            assert(all[i] == sep);
        } else if i < n + 1 + m {
            assert(all[i] == b[i - n - 1]);
        } else {
            assert(all[i] == c[i - n - m - 2]);
        }
    }
    let two = a + seq![sep] + b;
    assert forall|i: int| 0 <= i < two.len() implies !Separator::Space.accepts(
        #[trigger] two[i],
    ) by {
        assert(two[i] == all[i]);
    }
}

/// Words with a blank between them, after which no trimming is left to do.
proof fn lemma_date_words(day: Seq<char>, time: Seq<char>, zone: Seq<char>)
    requires
        day.len() > 0,
        time.len() > 0,
        zone.len() > 0,
        text::is_digit(day[0]),
        forall|i: int| 0 <= i < day.len() ==> !Separator::Space.accepts(#[trigger] day[i]),
        forall|i: int| 0 <= i < time.len() ==> !Separator::Space.accepts(#[trigger] time[i]),
        forall|i: int| 0 <= i < zone.len() ==> !Separator::Space.accepts(#[trigger] zone[i]),
    ensures
        date_words(day + seq![' '] + time + seq![' '] + zone) == seq![day, time, zone],
        date_words(day + seq![' '] + time) == seq![day, time],
{
    reveal_strlit("(null)");
    let sp = Separator::Space;
    let two = day + seq![' '] + time;
    let three = two + seq![' '] + zone;
    text::law_separators_part_the_words(Seq::empty(), ' ', day, sp);
    text::law_separators_part_the_words(day, ' ', time, sp);
    text::law_separators_part_the_words(two, ' ', zone, sp);
    assert(seq![day] + seq![time] =~= seq![day, time]);
    assert(seq![day, time] + seq![zone] =~= seq![day, time, zone]);
    assert(two[0] == day[0]);
    assert(three[0] == day[0]);
    assert(two.last() == time.last());
    assert(three.last() == zone.last());
    assert(!sp.accepts(day[0]));
    assert(!sp.accepts(time[time.len() - 1]));
    assert(!sp.accepts(zone[zone.len() - 1]));
    assert("(null)"@[0] == '(');
    assert(text::trimmed(two, sp) == two);
    assert(text::trimmed(three, sp) == three);
}

/// A date is read as it is written: year, month and day with hyphens between them, then
/// hours, minutes and seconds with colons between them, then a zone. Seconds and zone may be
/// left out: then they are zero.
pub proof fn law_dates_are_read_as_written(
    year: Seq<char>,
    month: Seq<char>,
    day: Seq<char>,
    hour: Seq<char>,
    minute: Seq<char>,
    second: Seq<char>,
    zone: Seq<char>,
)
    requires
        text::all_digits(year),
        text::all_digits(month),
        text::all_digits(day),
        text::all_digits(hour),
        text::all_digits(minute),
        text::all_digits(second),
        text::digits_value(year) <= i64::MAX,
        text::digits_value(month) <= i64::MAX,
        text::digits_value(day) <= i64::MAX,
        text::digits_value(hour) <= i64::MAX,
        text::digits_value(minute) <= i64::MAX,
        text::digits_value(second) <= i64::MAX,
        zone.len() > 0,
        zone_can_be_cut(zone),
        forall|i: int| 0 <= i < zone.len() ==> !Separator::Space.accepts(#[trigger] zone[i]),
    ensures
        ({
            let date = year + seq!['-'] + month + seq!['-'] + day;
            let full = hour + seq![':'] + minute + seq![':'] + second;
            let short = hour + seq![':'] + minute;
            let a = stamp_of(date + seq![' '] + full + seq![' '] + zone);
            let b = stamp_of(date + seq![' '] + full);
            let c = stamp_of(date + seq![' '] + short);
            &&& a is Some && b is Some && c is Some
            &&& a->0.year == text::digits_value(year)
            &&& a->0.month == text::digits_value(month)
            &&& a->0.day == text::digits_value(day)
            &&& a->0.hour == text::digits_value(hour)
            &&& a->0.minute == text::digits_value(minute)
            &&& a->0.second == text::digits_value(second)
            &&& a->0.offset == zone_seconds(zone) as i64
            &&& b->0 == (Stamp { offset: 0, ..a->0 })
            &&& c->0 == (Stamp { second: 0, offset: 0, ..a->0 })
        }),
{
    let date = year + seq!['-'] + month + seq!['-'] + day;
    let full = hour + seq![':'] + minute + seq![':'] + second;
    let short = hour + seq![':'] + minute;
    lemma_three_pieces(year, month, day, '-');
    lemma_three_pieces(hour, minute, second, ':');
    assert(date[0] == year[0]);
    lemma_date_words(date, full, zone);
    lemma_date_words(date, short, zone);
    lemma_number_of_digits(year);
    lemma_number_of_digits(month);
    lemma_number_of_digits(day);
    lemma_number_of_digits(hour);
    lemma_number_of_digits(minute);
    lemma_number_of_digits(second);
    law_zones_are_signs_hours_and_minutes('+', '0', '0', '0', '0');
    reveal_strlit("+0000");
    assert("+0000"@ =~= seq!['+', '0', '0', '0', '0']);
    let d = text::split_at(date, Separator::Is('-'));
    let t = text::split_at(full, Separator::Is(':'));
    let u = text::split_at(short, Separator::Is(':'));
    assert(d[0] == year && d[1] == month && d[2] == day);
    assert(t[0] == hour && t[1] == minute && t[2] == second);
    assert(u[0] == hour && u[1] == minute && u.len() == 2);
    let w = date_words(date + seq![' '] + full + seq![' '] + zone);
    assert(w[0] == date && w[1] == full && w[2] == zone);
    let x = date_words(date + seq![' '] + full);
    assert(x[0] == date && x[1] == full && x.len() == 2);
    let y = date_words(date + seq![' '] + short);
    assert(y[0] == date && y[1] == short && y.len() == 2);
}

proof fn lemma_number_of_digits(s: Seq<char>)
    requires
        text::all_digits(s),
        text::digits_value(s) <= i64::MAX,
    ensures
        text::number(s) == Some(text::digits_value(s)),
        text::digits_value(s) >= 0,
{
    assert(text::is_digit(s[0]));
    lemma_digits_not_negative(s);
}

proof fn lemma_digits_not_negative(s: Seq<char>)
    requires
        forall|i: int| 0 <= i < s.len() ==> text::is_digit(#[trigger] s[i]),
    ensures
        text::digits_value(s) >= 0,
    decreases s.len(),
{
    if s.len() > 0 {
        let front = s.drop_last();
        assert forall|i: int| 0 <= i < front.len() implies text::is_digit(#[trigger] front[i]) by {
            assert(front[i] == s[i]);
        }
        lemma_digits_not_negative(front);
        assert(text::is_digit(s[s.len() - 1]));
    }
}

/// A zone is a sign, two digits of hours and two of minutes: so many seconds ahead of UTC, or
/// behind it where the sign is a minus.
pub proof fn law_zones_are_signs_hours_and_minutes(
    sign: char,
    a: char,
    b: char,
    c: char,
    d: char,
)
    requires
        sign == '+' || sign == '-',
        '0' <= a <= '9',
        '0' <= b <= '9',
        '0' <= c <= '9',
        '0' <= d <= '9',
    ensures
        zone_can_be_cut(seq![sign, a, b, c, d]),
        ({
            let hours = 10 * (a as int - '0' as int) + (b as int - '0' as int);
            let minutes = 10 * (c as int - '0' as int) + (d as int - '0' as int);
            let ahead = 3600 * hours + 60 * minutes;
            zone_seconds(seq![sign, a, b, c, d]) == if sign == '-' {
                -ahead
            } else {
                ahead
            }
        }),
{
    let tz = seq![sign, a, b, c, d];
    let e = encode_utf8(tz);
    assert(is_ascii_chars(tz));
    is_ascii_chars_encode_utf8(tz);
    assert(e.len() == 5);
    let h = seq![a, b];
    let m = seq![c, d];
    is_ascii_chars_encode_utf8(h);
    is_ascii_chars_encode_utf8(m);
    assert(e.subrange(1, 3) =~= encode_utf8(h));
    assert(e.subrange(3, 5) =~= encode_utf8(m));
    encode_utf8_decode_utf8(h);
    encode_utf8_decode_utf8(m);
    lemma_two_digits(a, b);
    lemma_two_digits(c, d);
    lemma_utc_like_can_be_cut(sign, a, b, c, d);
}

proof fn lemma_two_digits(a: char, b: char)
    requires
        '0' <= a <= '9',
        '0' <= b <= '9',
    ensures
        text::number(seq![a, b]) == Some(
            10 * (a as int - '0' as int) + (b as int - '0' as int),
        ),
{
    let s = seq![a, b];
    assert(s.drop_last() =~= seq![a]);
    assert(seq![a].drop_last() =~= Seq::<char>::empty());
    assert(text::digits_value(Seq::<char>::empty()) == 0);
    assert(text::digits_value(seq![a]) == a as int - '0' as int);
    assert(text::all_digits(s));
}

proof fn lemma_utc_like_can_be_cut(sign: char, a: char, b: char, c: char, d: char)
    requires
        sign == '+' || sign == '-',
        '0' <= a <= '9',
        '0' <= b <= '9',
        '0' <= c <= '9',
        '0' <= d <= '9',
    ensures
        zone_can_be_cut(seq![sign, a, b, c, d]),
{
    let tz = seq![sign, a, b, c, d];
    let e = encode_utf8(tz);
    assert(is_ascii_chars(tz));
    is_ascii_chars_encode_utf8(tz);
    encode_utf8_valid_utf8(tz);
    assert forall|i: int| 0 <= i < 5 implies !is_continuation_byte(#[trigger] e[i]) by {
        let x = e[i];
        assert(x < 0x80 ==> (x & 0xC0 != 0x80)) by (bit_vector);
    }
    is_char_boundary_start_end_of_seq(e);
    is_char_boundary_iff_not_is_continuation_byte(e, 1);
    is_char_boundary_iff_not_is_continuation_byte(e, 3);
}

/// Time is counted from the first second of 1970 in UTC, a second for each second, sixty for
/// each minute and so on, and a day for each day of the month; a zone that is ahead of UTC
/// has the same time of day earlier.
pub proof fn law_times_count_from_1970(s: Stamp, t: Stamp)
    requires
        1 <= s.month <= 12,
        t.year == s.year,
        t.month == s.month,
    ensures
        s.year == 1970 && s.month == 1 && s.day == 1 && s.hour == 0 && s.minute == 0 && s.second == 0
            && s.offset == 0 ==> s.epoch() == 0,
        t.epoch() - s.epoch() == (t.day - s.day) * 86_400 + (t.hour - s.hour) * 3600 + (t.minute
            - s.minute) * 60 + (t.second - s.second) - (t.offset - s.offset),
{
    let y = s.year as int;
    let m = s.month as int;
    law_days_follow_the_calendar(y, m, s.day as int);
    law_days_follow_the_calendar(y, m, t.day as int);
    assert(t.days() - s.days() == t.day - s.day);
    assert((t.days() - s.days()) * 86_400 == (t.day - s.day) * 86_400);
    assert(calendar_days(1970, 1, 1) == 0) by {
        reveal_with_fuel(days_to_year, 2);
        reveal_with_fuel(days_to_month, 2);
    }
}

/// A text without a time, a single word or none at all, is no date; so `(null)` is none. White
/// space around a date does not matter.
pub proof fn law_single_words_are_no_dates(front: Seq<char>, s: Seq<char>, back: Seq<char>)
    requires
        forall|i: int| 0 <= i < front.len() ==> Separator::Space.accepts(#[trigger] front[i]),
        forall|i: int| 0 <= i < back.len() ==> Separator::Space.accepts(#[trigger] back[i]),
    ensures
        stamp_of(front + s + back) == stamp_of(s),
        (forall|i: int| 0 <= i < s.len() ==> !Separator::Space.accepts(#[trigger] s[i]))
            ==> stamp_of(s) is None,
{
    let sp = Separator::Space;
    text::lemma_trimmed_padded(front, s, back, sp);
    if forall|i: int| 0 <= i < s.len() ==> !sp.accepts(#[trigger] s[i]) {
        text::law_separators_part_the_words(Seq::empty(), ' ', s, sp);
        let none = Seq::<char>::empty();
        text::law_trimming_takes_the_ends_only(none, s, none, sp);
        assert(none + s + none =~= s);
        assert(text::words(s, sp).len() <= 1);
    }
}

/// Every date of the first ten thousand years, with a time of day and a zone as they are written,
/// can be turned into a time.
pub proof fn law_ordinary_dates_can_be_counted(s: Stamp)
    requires
        0 <= s.year <= 9999,
        1 <= s.month <= 12,
        0 <= s.day <= 99,
        0 <= s.hour <= 99,
        0 <= s.minute <= 99,
        0 <= s.second <= 99,
        -400_000 <= s.offset <= 400_000,
    ensures
        s.computable(),
{
}

} // verus!
