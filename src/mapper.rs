//! Turns loose user input into the ledger's canonical values.

use vstd::prelude::*;
use crate::date::{date_from_ymd, days_in_month, parse_date_with, parsed_date, CivilDate};
use crate::text::{
    all_digits, capped_digits, chars_of, digits_in, digits_value, find_char, index_of,
    lemma_digits_value_nonneg, lemma_index_of, push_decimal, decimal_text, MAGNITUDE_CAP,
    append_digits, decimal_digits, digit_char, digit_str, lemma_decimal_digits, lemma_digit_char,
};

verus! {

/// Why a piece of user input was not accepted.
#[derive(Clone, Copy, Debug, PartialEq, Eq, Structural)]
pub enum InputError {
    /// Malformed amount or date text.
    Parse,
    /// An amount whose magnitude does not fit the cents range.
    Overflow,
    /// Structurally invalid input: sub-cent precision, an inverted date range.
    Validation,
}

/// `s` starts with an explicit sign.
pub open spec fn has_sign(s: Seq<char>) -> bool {
    s.len() > 0 && (s[0] == '-' || s[0] == '+')
}

/// `s` starts with a minus sign.
pub open spec fn is_negative(s: Seq<char>) -> bool {
    s.len() > 0 && s[0] == '-'
}

/// The digits of a possibly signed integer.
pub open spec fn unsigned_part(s: Seq<char>) -> Seq<char> {
    if has_sign(s) { s.drop_first() } else { s }
}

/// `s` is an optional sign followed by one or more decimal digits.
pub open spec fn is_signed_integer(s: Seq<char>) -> bool {
    unsigned_part(s).len() > 0 && all_digits(unsigned_part(s))
}

/// Cents contributed by the fractional digits: one digit is tenths, two are cents.
pub open spec fn fraction_cents(f: Seq<char>) -> int {
    if f.len() == 1 { digits_value(f) * 10 } else { digits_value(f) }
}

/// Integer part `ip` and fractional digits `f` as cents; the sign of `ip`
/// applies to the whole amount.
pub open spec fn scaled_cents(ip: Seq<char>, f: Seq<char>) -> int {
    let whole = digits_value(unsigned_part(ip)) * 100 + fraction_cents(f);
    if is_negative(ip) { -whole } else { whole }
}

/// `v` fits in an `i32`.
pub open spec fn fits_i32(v: int) -> bool {
    i32::MIN <= v <= i32::MAX
}

/// The amount if it fits, else an overflow.
pub open spec fn checked_cents(ip: Seq<char>, f: Seq<char>) -> Result<i32, InputError> {
    let v = scaled_cents(ip, f);
    if fits_i32(v) { Ok(v as i32) } else { Err(InputError::Overflow) }
}

/// The meaning of an amount text: `<int>` or `<int>.<1-2 digits>`.
pub open spec fn amount_of(s: Seq<char>) -> Result<i32, InputError> {
    let k = index_of(s, '.');
    let ip = s.subrange(0, k);
    if !is_signed_integer(ip) {
        Err(InputError::Parse)
    } else if k == s.len() {
        checked_cents(ip, Seq::empty())
    } else {
        let rest = s.subrange(k + 1, s.len() as int);
        let k2 = index_of(rest, '.');
        let f = rest.subrange(0, k2);
        if f.len() > 2 {
            Err(InputError::Validation)
        } else if f.len() == 0 || !all_digits(f) {
            Err(InputError::Parse)
        } else if k2 < rest.len() {
            Err(InputError::Parse)
        } else {
            checked_cents(ip, f)
        }
    }
}

/// Converts a decimal amount such as `-10.9` into integer cents (`-1090`).
pub fn arg_to_cents(float_str: &str) -> (r: Result<i32, InputError>)
    ensures
        r == amount_of(float_str@),
{
    let s = chars_of(float_str);
    let n = s.len();
    let k = find_char(&s, 0, '.');
    let ghost sv = s@;
    let ghost ip = sv.subrange(0, k as int);
    proof {
        assert(sv.subrange(0, sv.len() as int) =~= sv);
    }
    let signed = k > 0 && (s[0] == '-' || s[0] == '+');
    let neg = k > 0 && s[0] == '-';
    let start: usize = if signed { 1 } else { 0 };
    proof {
        assert(unsigned_part(ip) =~= sv.subrange(start as int, k as int));
        assert(has_sign(ip) == signed);
        assert(is_negative(ip) == neg);
    }
    if start >= k || !digits_in(&s, start, k) {
        return Err(InputError::Parse);
    }
    let mag = capped_digits(&s, start, k);
    let mut frac: i64 = 0;
    let ghost f: Seq<char> = Seq::empty();
    if k < n {
        let k2 = find_char(&s, k + 1, '.');
        let ghost rest = sv.subrange(k + 1, sv.len() as int);
        proof {
            f = rest.subrange(0, k2 - (k + 1));
            assert(f =~= sv.subrange(k + 1, k2 as int));
        }
        if k2 - (k + 1) > 2 {
            return Err(InputError::Validation);
        }
        if k2 == k + 1 || !digits_in(&s, k + 1, k2) {
            return Err(InputError::Parse);
        }
        if k2 < n {
            return Err(InputError::Parse);
        }
        let v = capped_digits(&s, k + 1, k2);
        proof {
            lemma_two_digits_small(f);
        }
        if k2 - (k + 1) == 1 {
            frac = v * 10;
        } else {
            frac = v;
        }
    }
    proof {
        assert(frac == fraction_cents(f));
        lemma_digits_value_nonneg(unsigned_part(ip));
        lemma_digits_value_nonneg(f);
    }
    if mag >= MAGNITUDE_CAP {
        return Err(InputError::Overflow);
    }
    let whole: i64 = mag * 100 + frac;
    let v: i64 = if neg { -whole } else { whole };
    if v < i32::MIN as i64 || v > i32::MAX as i64 {
        Err(InputError::Overflow)
    } else {
        Ok(v as i32)
    }
}

/// Two digits for a number of cents below one hundred.
pub open spec fn two_digits(n: int) -> Seq<char> {
    seq![digit_char(n / 10), digit_char(n % 10)]
}

/// The amount `c` in cents as text: a minus sign when negative, the whole
/// units, a point and exactly two digits of cents, as in `-10.90`.
pub open spec fn cents_text(c: int) -> Seq<char> {
    let m = if c < 0 { -c } else { c };
    let body = decimal_digits((m / 100) as nat) + seq!['.'] + two_digits(m % 100);
    if c < 0 { seq!['-'] + body } else { body }
}

/// Writes an amount in cents as a decimal, such as `-10.90`.
pub fn cents_to_text(cents: i32) -> (r: String)
    ensures
        r@ == cents_text(cents as int),
{
    let mut out = String::new();
    let m: u32 = if cents < 0 { (-(cents as i64)) as u32 } else { cents as u32 };
    if cents < 0 {
        proof {
            reveal_strlit("-");
        }
        out.append("-");
    }
    append_digits(m / 100, &mut out);
    proof {
        reveal_strlit(".");
    }
    out.append(".");
    out.append(digit_str((m % 100) / 10));
    out.append(digit_str(m % 10));
    proof {
        assert((m % 100) % 10 == m % 10);
        if cents < 0 {
            assert(out@ =~= cents_text(cents as int));
        } else {
            assert(out@ =~= cents_text(cents as int));
        }
    }
    out
}

/// Writing an amount and reading it back gives the same number of cents.
pub proof fn lemma_cents_text_round_trip(c: i32)
    ensures
        amount_of(cents_text(c as int)) == Ok::<i32, InputError>(c),
{
    let m: int = if c < 0 { -(c as int) } else { c as int };
    let digits = decimal_digits((m / 100) as nat);
    let ip = if c < 0 { seq!['-'] + digits } else { digits };
    let f = two_digits(m % 100);
    lemma_decimal_digits((m / 100) as nat);
    lemma_digit_char((m % 100) / 10);
    lemma_digit_char((m % 100) % 10);
    assert(crate::text::is_digit(digits[0]));
    if c < 0 {
        assert(ip.drop_first() =~= digits);
        assert(cents_text(c as int) =~= ip + seq!['.'] + f);
    } else {
        assert(cents_text(c as int) =~= ip + seq!['.'] + f);
    }
    assert(unsigned_part(ip) =~= digits);
    assert(f.drop_last() =~= seq![digit_char((m % 100) / 10)]);
    assert(seq![digit_char((m % 100) / 10)].drop_last() =~= Seq::<char>::empty());
    assert(digits_value(Seq::<char>::empty()) == 0);
    assert(digits_value(seq![digit_char((m % 100) / 10)]) == (m % 100) / 10);
    assert(digits_value(f) == ((m % 100) / 10) * 10 + (m % 100) % 10);
    assert(fraction_cents(f) == m % 100);
    assert(scaled_cents(ip, f) == c as int);
    lemma_decimal_amount(ip, f);
}

/// The integer written by a possibly signed digit string.
pub open spec fn signed_value(ip: Seq<char>) -> int {
    if is_negative(ip) { -digits_value(unsigned_part(ip)) } else { digits_value(unsigned_part(ip)) }
}

/// A signed integer text holds no decimal point.
proof fn lemma_integer_has_no_point(ip: Seq<char>)
    requires
        is_signed_integer(ip),
    ensures
        forall|j: int| 0 <= j < ip.len() ==> ip[j] != '.',
{
    assert forall|j: int| 0 <= j < ip.len() implies ip[j] != '.' by {
        if has_sign(ip) {
            if j > 0 {
                assert(crate::text::is_digit(unsigned_part(ip)[j - 1]));
            }
        } else {
            assert(crate::text::is_digit(unsigned_part(ip)[j]));
        }
    }
}

/// An amount `<int>.<d>` or `<int>.<dd>` that fits is the integer times one
/// hundred, with the fractional cents added, or subtracted when the integer
/// part carries a minus sign.
pub proof fn lemma_decimal_amount(ip: Seq<char>, f: Seq<char>)
    requires
        is_signed_integer(ip),
        1 <= f.len() <= 2,
        all_digits(f),
        fits_i32(scaled_cents(ip, f)),
    ensures
        amount_of(ip + seq!['.'] + f) == Ok::<i32, InputError>(
            (if is_negative(ip) {
                signed_value(ip) * 100 - fraction_cents(f)
            } else {
                signed_value(ip) * 100 + fraction_cents(f)
            }) as i32,
        ),
{
    let s = ip + seq!['.'] + f;
    lemma_integer_has_no_point(ip);
    assert forall|j: int| 0 <= j < ip.len() implies s[j] != '.' by {
        assert(s[j] == ip[j]);
    }
    lemma_index_of(s, '.', ip.len() as int);
    assert(s.subrange(0, ip.len() as int) =~= ip);
    let rest = s.subrange(ip.len() as int + 1, s.len() as int);
    assert(rest =~= f);
    assert forall|j: int| 0 <= j < f.len() implies f[j] != '.' by {
        assert(crate::text::is_digit(f[j]));
    }
    lemma_index_of(f, '.', f.len() as int);
    assert(f.subrange(0, f.len() as int) =~= f);
}

/// More than two fractional digits is sub-cent precision, refused as
/// structurally invalid whatever the digits and the integer part.
pub proof fn lemma_sub_cent_amount(ip: Seq<char>, f: Seq<char>)
    requires
        is_signed_integer(ip),
        f.len() > 2,
        all_digits(f),
    ensures
        amount_of(ip + seq!['.'] + f) == Err::<i32, InputError>(InputError::Validation),
{
    let s = ip + seq!['.'] + f;
    lemma_integer_has_no_point(ip);
    assert forall|j: int| 0 <= j < ip.len() implies s[j] != '.' by {
        assert(s[j] == ip[j]);
    }
    lemma_index_of(s, '.', ip.len() as int);
    assert(s.subrange(0, ip.len() as int) =~= ip);
    let rest = s.subrange(ip.len() as int + 1, s.len() as int);
    assert(rest =~= f);
    assert forall|j: int| 0 <= j < f.len() implies f[j] != '.' by {
        assert(crate::text::is_digit(f[j]));
    }
    lemma_index_of(f, '.', f.len() as int);
    assert(f.subrange(0, f.len() as int) =~= f);
}

/// An amount without a decimal point that fits is the integer times one hundred.
pub proof fn lemma_whole_amount(ip: Seq<char>)
    requires
        is_signed_integer(ip),
        fits_i32(signed_value(ip) * 100),
    ensures
        amount_of(ip) == Ok::<i32, InputError>((signed_value(ip) * 100) as i32),
{
    lemma_integer_has_no_point(ip);
    lemma_index_of(ip, '.', ip.len() as int);
    assert(ip.subrange(0, ip.len() as int) =~= ip);
    assert(digits_value(Seq::<char>::empty()) == 0);
}

/// One or two digits have a value below one hundred.
proof fn lemma_two_digits_small(f: Seq<char>)
    requires
        all_digits(f),
        1 <= f.len() <= 2,
    ensures
        0 <= digits_value(f) < 100,
        f.len() == 1 ==> digits_value(f) < 10,
{
    let a = f.drop_last();
    assert(all_digits(a));
    assert(crate::text::is_digit(f[f.len() - 1]));
    assert(digits_value(f) == digits_value(a) * 10 + crate::text::digit_value(f.last()));
    if a.len() > 0 {
        assert(crate::text::is_digit(a[0]));
        assert(digits_value(a.drop_last()) == 0);
        assert(digits_value(a) == digits_value(a.drop_last()) * 10 + crate::text::digit_value(a.last()));
    } else {
        assert(digits_value(a) == 0);
    }
}

/// The date that the first of the three accepted patterns to match reads
/// from `s`: ISO `YYYY-MM-DD`, then `D-Mon-YYYY`, then `MM/DD/YYYY`.
pub open spec fn pattern_date(s: Seq<char>) -> Option<(int, int, int)> {
    if parsed_date(s, "%F"@) is Some {
        parsed_date(s, "%F"@)
    } else if parsed_date(s, "%v"@) is Some {
        parsed_date(s, "%v"@)
    } else {
        parsed_date(s, "%m/%d/%Y"@)
    }
}

/// `s` with the year put in front: `<year>-<s>`.
pub open spec fn year_prefixed(year: int, s: Seq<char>) -> Seq<char> {
    decimal_text(year) + seq!['-'] + s
}

/// `s` with the year put behind: `<s>/<year>`.
pub open spec fn year_suffixed(s: Seq<char>, year: int) -> Seq<char> {
    s + seq!['/'] + decimal_text(year)
}

/// The digits of a bare day-of-month text, which may carry a plus sign.
pub open spec fn day_digits(s: Seq<char>) -> Seq<char> {
    if s.len() > 0 && s[0] == '+' { s.drop_first() } else { s }
}

/// The last resort of the resolver: `s` as a day of `today`'s month.
pub open spec fn day_in_month(s: Seq<char>, today: CivilDate) -> Result<(int, int, int), InputError> {
    let ds = day_digits(s);
    let day = digits_value(ds);
    if ds.len() > 0 && all_digits(ds) && 1 <= day <= days_in_month(
        today.year as int,
        today.month as int,
    ) {
        Ok((today.year as int, today.month as int, day))
    } else {
        Err(InputError::Parse)
    }
}

/// The meaning of a loose date text, given the current date: the first
/// pattern to match `s`, else `<year>-<s>`, else `<s>/<year>`, else a bare
/// day of the current month.
pub open spec fn resolved_date(s: Seq<char>, today: CivilDate) -> Result<(int, int, int), InputError> {
    let pre = year_prefixed(today.year as int, s);
    let suf = year_suffixed(s, today.year as int);
    if pattern_date(s) is Some {
        Ok(pattern_date(s)->0)
    } else if pattern_date(pre) is Some {
        Ok(pattern_date(pre)->0)
    } else if pattern_date(suf) is Some {
        Ok(pattern_date(suf)->0)
    } else {
        day_in_month(s, today)
    }
}

/// A date result seen as year, month and day.
pub open spec fn date_result_view(r: Result<CivilDate, InputError>) -> Result<(int, int, int), InputError> {
    match r {
        Ok(d) => Ok(d@),
        Err(e) => Err(e),
    }
}

/// Tries the three accepted patterns on `s`, in order.
fn try_patterns(s: &Vec<char>) -> (r: Option<CivilDate>)
    ensures
        match r {
            Some(d) => pattern_date(s@) == Some(d@) && d.wf(),
            None => pattern_date(s@) is None,
        },
{
    if let Some(d) = parse_date_with(s, "%F") {
        return Some(d);
    }
    if let Some(d) = parse_date_with(s, "%v") {
        return Some(d);
    }
    parse_date_with(s, "%m/%d/%Y")
}

/// Reads `text` as a day of `today`'s month, as `1`, `01` or `+1`.
pub fn resolve_day(text: &str, today: CivilDate) -> (r: Result<CivilDate, InputError>)
    requires
        today.wf(),
    ensures
        date_result_view(r) == day_in_month(text@, today),
        r is Ok ==> r->Ok_0.wf(),
{
    let s = chars_of(text);
    let n = s.len();
    let start: usize = if n > 0 && s[0] == '+' { 1 } else { 0 };
    proof {
        assert(day_digits(s@) =~= s@.subrange(start as int, n as int));
    }
    if start >= n || !digits_in(&s, start, n) {
        return Err(InputError::Parse);
    }
    let day = capped_digits(&s, start, n);
    proof {
        lemma_digits_value_nonneg(day_digits(s@));
    }
    if day > 31 {
        return Err(InputError::Parse);
    }
    match date_from_ymd(today.year, today.month, day as u32) {
        Some(d) => Ok(d),
        None => Err(InputError::Parse),
    }
}

/// `text` with the year in front, as `<year>-<text>`.
pub fn prefix_year(year: i32, text: &Vec<char>) -> (r: Vec<char>)
    ensures
        r@ == year_prefixed(year as int, text@),
{
    let mut out: Vec<char> = Vec::new();
    push_decimal(year, &mut out);
    out.push('-');
    let mut i: usize = 0;
    while i < text.len()
        invariant
            i <= text@.len(),
            out@ == decimal_text(year as int) + seq!['-'] + text@.subrange(0, i as int),
        decreases text@.len() - i,
    {
        out.push(text[i]);
        i = i + 1;
        proof {
            assert(text@.subrange(0, i as int) =~= text@.subrange(0, i - 1).push(text@[i - 1]));
        }
    }
    proof {
        assert(text@.subrange(0, text@.len() as int) =~= text@);
    }
    out
}

/// `text` with the year behind, as `<text>/<year>`.
pub fn suffix_year(text: &Vec<char>, year: i32) -> (r: Vec<char>)
    ensures
        r@ == year_suffixed(text@, year as int),
{
    let mut out: Vec<char> = text.clone();
    out.push('/');
    push_decimal(year, &mut out);
    out
}

/// Resolves a loosely written date against the current date `today`.
pub fn arg_to_time(date_str: &str, today: CivilDate) -> (r: Result<CivilDate, InputError>)
    requires
        today.wf(),
    ensures
        date_result_view(r) == resolved_date(date_str@, today),
        r is Ok ==> r->Ok_0.wf(),
{
    let s = chars_of(date_str);
    if let Some(d) = try_patterns(&s) {
        return Ok(d);
    }
    let pre = prefix_year(today.year, &s);
    if let Some(d) = try_patterns(&pre) {
        return Ok(d);
    }
    let suf = suffix_year(&s, today.year);
    if let Some(d) = try_patterns(&suf) {
        return Ok(d);
    }
    resolve_day(date_str, today)
}

} // verus!
