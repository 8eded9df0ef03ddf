//! Calendar dates as chrono day numbers (0001-01-01 is day 1), their ISO text
//! and the parsing of query dates.
use vstd::prelude::*;
use chrono::Datelike;
use crate::text::chars_of;

verus! {

/// Earliest year that chrono represents.
pub const MIN_YEAR: i32 = -262143;

/// Latest year that chrono represents.
pub const MAX_YEAR: i32 = 262142;

/// Day number of -262143-01-01, chrono's first date.
pub const MIN_DAY: i32 = -95746129;

/// Day number of 262142-12-31, chrono's last date.
pub const MAX_DAY: i32 = 95745399;

pub open spec fn leap(y: int) -> bool {
    (y % 4 == 0 && y % 100 != 0) || y % 400 == 0
}

pub open spec fn month_len(y: int, m: int) -> int {
    if m == 2 {
        if leap(y) {
            29
        } else {
            28
        }
    } else if m == 4 || m == 6 || m == 9 || m == 11 {
        30
    } else {
        31
    }
}

/// A date of the proleptic Gregorian calendar within chrono's range.
pub open spec fn valid_ymd(y: int, m: int, d: int) -> bool {
    MIN_YEAR <= y <= MAX_YEAR && 1 <= m <= 12 && 1 <= d <= month_len(y, m)
}

/// chrono's day number (`num_days_from_ce`) of a calendar date.
pub uninterp spec fn ce_day(y: int, m: int, d: int) -> int;

/// The calendar date (year, month, day) of a chrono day number.
pub uninterp spec fn civil(n: int) -> (int, int, int);

/// Relies on `NaiveDate::from_ymd_opt`, which gives `None` exactly for an
/// impossible date or a year outside chrono's range, and on
/// `Datelike::num_days_from_ce` of the date it builds.
#[verifier::external_body]
fn chrono_day_of(y: i32, m: u32, d: u32) -> (r: Option<i32>)
    ensures
        r is Some <==> valid_ymd(y as int, m as int, d as int),
        r matches Some(n) ==> n == ce_day(y as int, m as int, d as int) && MIN_DAY <= n <= MAX_DAY
            && civil(n as int) == (y as int, m as int, d as int),
{
    match chrono::NaiveDate::from_ymd_opt(y, m, d) {
        Some(date) => Some(date.num_days_from_ce()),
        None => None,
    }
}

/// Relies on `NaiveDate::from_num_days_from_ce_opt`, defined on every day
/// number of chrono's range, and on `Datelike::{year, month, day}`.
#[verifier::external_body]
fn chrono_ymd_of(n: i32) -> (r: (i32, u32, u32))
    requires
        MIN_DAY <= n <= MAX_DAY,
    ensures
        (r.0 as int, r.1 as int, r.2 as int) == civil(n as int),
        valid_ymd(r.0 as int, r.1 as int, r.2 as int),
        ce_day(r.0 as int, r.1 as int, r.2 as int) == n,
{
    let date = chrono::NaiveDate::from_num_days_from_ce_opt(n).unwrap();
    (date.year(), date.month(), date.day())
}

/// Relies on `Datelike::weekday` and `Weekday::num_days_from_monday`: the
/// weekday advances by one each day, and day 1 (0001-01-01) is a Monday.
#[verifier::external_body]
fn chrono_weekday(n: i32) -> (r: u32)
    requires
        MIN_DAY <= n <= MAX_DAY,
    ensures
        r as int == (n as int - 1) % 7,
{
    chrono::NaiveDate::from_num_days_from_ce_opt(n).unwrap().weekday().num_days_from_monday()
}

/// A calendar date, held as its day number.
#[derive(Clone, Copy, Debug, PartialEq, Eq)]
pub struct Date {
    days: i32,
}

impl Date {
    pub closed spec fn day_number(self) -> int {
        self.days as int
    }

    pub open spec fn wf(self) -> bool {
        MIN_DAY <= self.day_number() <= MAX_DAY
    }

    /// The date with the given year, month and day, if it exists.
    pub fn from_ymd(year: i32, month: u32, day: u32) -> (r: Option<Date>)
        ensures
            r is Some <==> valid_ymd(year as int, month as int, day as int),
            r matches Some(d) ==> d.wf() && d.day_number() == ce_day(
                year as int,
                month as int,
                day as int,
            ) && civil(d.day_number()) == (year as int, month as int, day as int),
    {
        match chrono_day_of(year, month, day) {
            Some(n) => Some(Date { days: n }),
            None => None,
        }
    }

    /// The day number: 0001-01-01 is day 1.
    pub fn days(&self) -> (r: i32)
        ensures
            r == self.day_number(),
    {
        self.days
    }

    /// Year, month and day of the date.
    pub fn ymd(&self) -> (r: (i32, u32, u32))
        requires
            self.wf(),
        ensures
            (r.0 as int, r.1 as int, r.2 as int) == civil(self.day_number()),
            valid_ymd(r.0 as int, r.1 as int, r.2 as int),
            ce_day(r.0 as int, r.1 as int, r.2 as int) == self.day_number(),
    {
        chrono_ymd_of(self.days)
    }

    /// The date `k` days later (earlier for negative `k`), if it is in range.
    pub fn plus_days(&self, k: i64) -> (r: Option<Date>)
        requires
            self.wf(),
        ensures
            r is Some <==> MIN_DAY <= self.day_number() + k <= MAX_DAY,
            r matches Some(d) ==> d.wf() && d.day_number() == self.day_number() + k,
    {
        if k < MIN_DAY as i64 - MAX_DAY as i64 || k > MAX_DAY as i64 - MIN_DAY as i64 {
            return None;
        }
        let n: i64 = self.days as i64 + k;
        if n < MIN_DAY as i64 || n > MAX_DAY as i64 {
            None
        } else {
            Some(Date { days: n as i32 })
        }
    }

    /// Days since Monday: 0 for Monday up to 6 for Sunday.
    pub fn weekday_from_monday(&self) -> (r: u32)
        requires
            self.wf(),
        ensures
            r == (self.day_number() - 1) % 7,
    {
        chrono_weekday(self.days)
    }
}

pub open spec fn digit_char(d: int) -> char {
    seq!['0', '1', '2', '3', '4', '5', '6', '7', '8', '9'][d]
}

/// Decimal digits of `n`, without leading zeros.
pub open spec fn digits(n: nat) -> Seq<char>
    decreases n,
{
    if n < 10 {
        seq![digit_char(n as int)]
    } else {
        digits(n / 10).push(digit_char((n % 10) as int))
    }
}

/// `n` in decimal, zero-padded on the left to at least `w` characters.
pub open spec fn padded(n: nat, w: nat) -> Seq<char> {
    let ds = digits(n);
    if ds.len() >= w {
        ds
    } else {
        Seq::new((w - ds.len()) as nat, |i: int| '0') + ds
    }
}

/// A year as `{:04}` prints it: the sign counts toward the width.
pub open spec fn year_text(y: int) -> Seq<char> {
    if y >= 0 {
        padded(y as nat, 4)
    } else {
        seq!['-'] + padded((-y) as nat, 3)
    }
}

/// `YYYY-MM-DD`.
pub open spec fn iso_text(y: int, m: int, d: int) -> Seq<char> {
    year_text(y) + seq!['-'] + padded(m as nat, 2) + seq!['-'] + padded(d as nat, 2)
}

fn digit_of(d: u32) -> (c: char)
    requires
        d < 10,
    ensures
        c == digit_char(d as int),
{
    if d == 0 {
        '0'
    } else if d == 1 {
        '1'
    } else if d == 2 {
        '2'
    } else if d == 3 {
        '3'
    } else if d == 4 {
        '4'
    } else if d == 5 {
        '5'
    } else if d == 6 {
        '6'
    } else if d == 7 {
        '7'
    } else if d == 8 {
        '8'
    } else {
        '9'
    }
}

fn push_digits(n: u32, out: &mut Vec<char>)
    ensures
        final(out)@ == old(out)@ + digits(n as nat),
    decreases n,
{
    if n >= 10 {
        push_digits(n / 10, out);
    }
    out.push(digit_of(n % 10));
    assert(final(out)@ =~= old(out)@ + digits(n as nat));
}

fn push_padded(n: u32, w: usize, out: &mut Vec<char>)
    requires
        w <= 4,
    ensures
        final(out)@ == old(out)@ + padded(n as nat, w as nat),
{
    let mut ds: Vec<char> = Vec::new();
    push_digits(n, &mut ds);
    assert(ds@ =~= digits(n as nat));
    let mut k: usize = ds.len();
    while k < w
        invariant
            ds.len() <= k <= w || w < ds.len() == k,
            out@ == old(out)@ + Seq::new((k - ds.len()) as nat, |i: int| '0'),
        decreases w - k,
    {
        out.push('0');
        assert(out@ =~= old(out)@ + Seq::new((k + 1 - ds.len()) as nat, |i: int| '0'));
        k += 1;
    }
    let ghost mid = out@;
    let mut j: usize = 0;
    while j < ds.len()
        invariant
            j <= ds.len(),
            out@ == mid + ds@.take(j as int),
        decreases ds.len() - j,
    {
        out.push(ds[j]);
        assert(out@ =~= mid + ds@.take(j + 1));
        j += 1;
    }
    assert(ds@.take(ds.len() as int) =~= ds@);
    if ds.len() >= w {
        assert(Seq::new((k - ds.len()) as nat, |i: int| '0') =~= Seq::<char>::empty());
        assert(out@ =~= old(out)@ + padded(n as nat, w as nat));
    } else {
        assert(out@ =~= old(out)@ + padded(n as nat, w as nat));
    }
}

/// Relies on `String::from_iter` over characters: the string of exactly
/// those characters.
#[verifier::external_body]
pub(crate) fn string_of(cs: &Vec<char>) -> (r: String)
    ensures
        r@ == cs@,
{
    cs.iter().collect()
}

/// The ISO text `YYYY-MM-DD` of a date.
pub fn format_date(date: Date) -> (r: String)
    requires
        date.wf(),
    ensures
        r@ == iso_text(civil(date.day_number()).0, civil(date.day_number()).1, civil(
            date.day_number(),
        ).2),
{
    let (y, m, d) = date.ymd();
    let mut out: Vec<char> = Vec::new();
    if y >= 0 {
        push_padded(y as u32, 4, &mut out);
    } else {
        out.push('-');
        push_padded((-y) as u32, 3, &mut out);
    }
    out.push('-');
    push_padded(m, 2, &mut out);
    out.push('-');
    push_padded(d, 2, &mut out);
    assert(out@ =~= iso_text(y as int, m as int, d as int));
    string_of(&out)
}

pub open spec fn is_digit(c: char) -> bool {
    '0' <= c <= '9'
}

pub open spec fn all_digits(s: Seq<char>) -> bool {
    forall|i: int| 0 <= i < s.len() ==> is_digit(#[trigger] s[i])
}

/// The value of a string of decimal digits.
pub open spec fn value_of(s: Seq<char>) -> int
    decreases s.len(),
{
    if s.len() == 0 {
        0
    } else {
        value_of(s.drop_last()) * 10 + (s.last() as int - '0' as int)
    }
}

/// The digits of a number: `s` without a leading `+`.
pub open spec fn unsigned_body(s: Seq<char>) -> Seq<char> {
    if s.len() > 0 && s[0] == '+' {
        s.drop_first()
    } else {
        s
    }
}

/// What `str::parse` gives for an integer type whose largest value is `max`,
/// on a string without a minus sign: an optional `+`, then one or more
/// decimal digits whose value does not exceed `max`.
pub open spec fn parse_nat(s: Seq<char>, max: int) -> Option<int> {
    let body = unsigned_body(s);
    if body.len() > 0 && all_digits(body) && value_of(body) <= max {
        Some(value_of(body))
    } else {
        None
    }
}

proof fn lemma_value_nonneg(s: Seq<char>)
    requires
        all_digits(s),
    ensures
        value_of(s) >= 0,
    decreases s.len(),
{
    if s.len() > 0 {
        assert(all_digits(s.drop_last()));
        lemma_value_nonneg(s.drop_last());
        assert(is_digit(s.last()));
    }
}

proof fn lemma_value_grows(s: Seq<char>, k: int)
    requires
        0 <= k <= s.len(),
        all_digits(s),
    ensures
        value_of(s.take(k)) <= value_of(s),
    decreases s.len() - k,
{
    if k < s.len() {
        lemma_value_grows(s, k + 1);
        assert(s.take(k + 1).drop_last() =~= s.take(k));
        assert(all_digits(s.take(k)));
        lemma_value_nonneg(s.take(k));
        assert(is_digit(s[k]));
    } else {
        assert(s.take(k) =~= s);
    }
}

/// Parses an unsigned decimal number as `str::parse` does for an integer type
/// whose largest value is `max`; `s` holds no minus sign.
pub(crate) fn parse_number_of(s: &Vec<char>, max: u64) -> (r: Option<u64>)
    requires
        max <= u32::MAX,
    ensures
        match r {
            Some(v) => parse_nat(s@, max as int) == Some(v as int),
            None => parse_nat(s@, max as int) is None,
        },
{
    let start: usize = if s.len() > 0 && s[0] == '+' {
        1
    } else {
        0
    };
    let ghost body = unsigned_body(s@);
    assert(body =~= s@.subrange(start as int, s@.len() as int));
    if start >= s.len() {
        return None;
    }
    let mut v: u64 = 0;
    let mut i: usize = start;
    while i < s.len()
        invariant
            start <= i <= s.len(),
            body == s@.subrange(start as int, s@.len() as int),
            body == unsigned_body(s@),
            max <= u32::MAX,
            v <= max,
            all_digits(body.take(i - start)),
            v == value_of(body.take(i - start)),
        decreases s.len() - i,
    {
        let c = s[i];
        assert(body.take(i + 1 - start).drop_last() =~= body.take(i - start));
        assert(body[i - start] == c);
        if !('0' <= c && c <= '9') {
            assert(!all_digits(body));
            assert(parse_nat(s@, max as int) is None);
            return None;
        }
        let d: u64 = (c as u32 - '0' as u32) as u64;
        let nv: u64 = v * 10 + d;
        if nv > max {
            proof {
                if all_digits(body) {
                    lemma_value_grows(body, i + 1 - start);
                }
            }
            assert(parse_nat(s@, max as int) is None);
            return None;
        }
        v = nv;
        assert(all_digits(body.take(i + 1 - start)));
        i += 1;
    }
    assert(body.take(i - start) =~= body);
    Some(v)
}

pub open spec fn is_sep(c: char) -> bool {
    c == '-' || c == '/'
}

/// Pieces finished so far and the piece being read, splitting at `-` and `/`.
pub open spec fn split_state(s: Seq<char>) -> (Seq<Seq<char>>, Seq<char>)
    decreases s.len(),
{
    if s.len() == 0 {
        (seq![], seq![])
    } else {
        let (ps, cur) = split_state(s.drop_last());
        if is_sep(s.last()) {
            if cur.len() > 0 {
                (ps.push(cur), seq![])
            } else {
                (ps, seq![])
            }
        } else {
            (ps, cur.push(s.last()))
        }
    }
}

/// The non-empty pieces of `s` between `-` and `/` separators.
pub open spec fn date_parts(s: Seq<char>) -> Seq<Seq<char>> {
    let (ps, cur) = split_state(s);
    if cur.len() > 0 {
        ps.push(cur)
    } else {
        ps
    }
}

/// Year, month and day read from a query date, before calendar validation.
pub open spec fn date_fields(s: Seq<char>) -> Option<(int, int, int)> {
    let p = date_parts(s);
    if p.len() != 3 {
        None
    } else {
        match (
            parse_nat(p[0], i32::MAX as int),
            parse_nat(p[1], u32::MAX as int),
            parse_nat(p[2], u32::MAX as int),
        ) {
            (Some(y), Some(m), Some(d)) => Some((y, m, d)),
            _ => None,
        }
    }
}

/// A query date read from `s` and valid in the calendar.
pub open spec fn parsed_date(s: Seq<char>) -> Option<(int, int, int)> {
    match date_fields(s) {
        Some(t) => if valid_ymd(t.0, t.1, t.2) {
            Some(t)
        } else {
            None
        },
        None => None,
    }
}

fn date_pieces(cs: &Vec<char>) -> (r: Vec<Vec<char>>)
    ensures
        r.deep_view() == date_parts(cs@),
{
    let mut parts: Vec<Vec<char>> = Vec::new();
    let mut cur: Vec<char> = Vec::new();
    let mut i: usize = 0;
    while i < cs.len()
        invariant
            i <= cs.len(),
            (parts.deep_view(), cur@) == split_state(cs@.take(i as int)),
        decreases cs.len() - i,
    {
        assert(cs@.take(i + 1).drop_last() =~= cs@.take(i as int));
        let c = cs[i];
        if c == '-' || c == '/' {
            if cur.len() > 0 {
                let ghost old_v = parts.deep_view();
                let ghost old_cur = cur@;
                let piece = cur;
                assert(piece.deep_view() =~= piece@);
                parts.push(piece);
                assert(parts.deep_view() =~= old_v.push(old_cur));
                cur = Vec::new();
            }
        } else {
            cur.push(c);
        }
        i += 1;
    }
    assert(cs@.take(cs.len() as int) =~= cs@);
    if cur.len() > 0 {
        let ghost old_v = parts.deep_view();
        let ghost old_cur = cur@;
        assert(cur.deep_view() =~= cur@);
        parts.push(cur);
        assert(parts.deep_view() =~= old_v.push(old_cur));
    }
    parts
}

/// Reads a query date written as year, month and day separated by any mix of
/// `-` and `/` (empty pieces are ignored). `None` unless there are exactly
/// three pieces, each a number, that form a real calendar date.
pub fn parse_date_param(input: &str) -> (r: Option<Date>)
    ensures
        r is Some <==> parsed_date(input@) is Some,
        r matches Some(d) ==> d.wf() && civil(d.day_number()) == parsed_date(input@)->Some_0
            && d.day_number() == ce_day(
            parsed_date(input@)->Some_0.0,
            parsed_date(input@)->Some_0.1,
            parsed_date(input@)->Some_0.2,
        ),
{
    let cs = chars_of(input);
    let parts = date_pieces(&cs);
    if parts.len() != 3 {
        return None;
    }
    assert(parts[0]@ == parts.deep_view()[0]);
    assert(parts[1]@ == parts.deep_view()[1]);
    assert(parts[2]@ == parts.deep_view()[2]);
    let y = match parse_number_of(&parts[0], i32::MAX as u64) {
        Some(v) => v,
        None => return None,
    };
    let m = match parse_number_of(&parts[1], u32::MAX as u64) {
        Some(v) => v,
        None => return None,
    };
    let d = match parse_number_of(&parts[2], u32::MAX as u64) {
        Some(v) => v,
        None => return None,
    };
    Date::from_ymd(y as i32, m as u32, d as u32)
}

proof fn lemma_digit_char(k: int)
    requires
        0 <= k < 10,
    ensures
        is_digit(digit_char(k)),
        digit_char(k) as int - '0' as int == k,
        !is_sep(digit_char(k)),
        digit_char(k) != '+',
{
    let t = seq!['0', '1', '2', '3', '4', '5', '6', '7', '8', '9'];
    assert(t[0] == '0' && t[1] == '1' && t[2] == '2' && t[3] == '3' && t[4] == '4');
    assert(t[5] == '5' && t[6] == '6' && t[7] == '7' && t[8] == '8' && t[9] == '9');
}

/// Strings of decimal digits only.
pub open spec fn plain_number(s: Seq<char>) -> bool {
    all_digits(s) && forall|i: int| 0 <= i < s.len() ==> !is_sep(#[trigger] s[i])
}

proof fn lemma_digits(n: nat)
    ensures
        digits(n).len() > 0,
        plain_number(digits(n)),
        value_of(digits(n)) == n,
    decreases n,
{
    if n < 10 {
        lemma_digit_char(n as int);
        assert(digits(n).drop_last() =~= Seq::<char>::empty());
        assert(value_of(Seq::<char>::empty()) == 0);
        assert(digits(n).last() == digit_char(n as int));
        assert(value_of(digits(n)) == 0 * 10 + (digit_char(n as int) as int - '0' as int));
    } else {
        lemma_digits(n / 10);
        lemma_digit_char((n % 10) as int);
        assert(digits(n).drop_last() =~= digits(n / 10));
        assert(value_of(digits(n)) == value_of(digits(n / 10)) * 10 + (n % 10));
        assert(n == (n / 10) * 10 + n % 10);
        assert(plain_number(digits(n))) by {
            assert forall|i: int| 0 <= i < digits(n).len() implies is_digit(#[trigger] digits(n)[i])
                && !is_sep(digits(n)[i]) by {
                if i < digits(n).len() - 1 {
                    assert(digits(n)[i] == digits(n / 10)[i]);
                }
            }
        }
    }
}

proof fn lemma_zero_prefix(z: nat, ds: Seq<char>)
    requires
        plain_number(ds),
    ensures
        plain_number(Seq::new(z, |i: int| '0') + ds),
        value_of(Seq::new(z, |i: int| '0') + ds) == value_of(ds),
    decreases ds.len() + z,
{
    let zs = Seq::new(z, |i: int| '0');
    if ds.len() > 0 {
        lemma_zero_prefix(z, ds.drop_last());
        assert((zs + ds).drop_last() =~= zs + ds.drop_last());
        assert(plain_number(zs + ds)) by {
            assert forall|i: int| 0 <= i < (zs + ds).len() implies is_digit(#[trigger] (zs
                + ds)[i]) && !is_sep((zs + ds)[i]) by {
                if i < z {
                } else {
                    assert((zs + ds)[i] == ds[i - z]);
                }
            }
        }
    } else if z > 0 {
        lemma_zero_prefix((z - 1) as nat, ds);
        assert(zs + ds =~= zs);
        assert(zs.drop_last() =~= Seq::new((z - 1) as nat, |i: int| '0'));
        assert(Seq::new((z - 1) as nat, |i: int| '0') + ds =~= Seq::new(
            (z - 1) as nat,
            |i: int| '0',
        ));
    } else {
        assert(zs + ds =~= ds);
    }
}

proof fn lemma_padded(n: nat, w: nat, max: int)
    requires
        n <= max,
    ensures
        padded(n, w).len() > 0,
        plain_number(padded(n, w)),
        parse_nat(padded(n, w), max) == Some(n as int),
{
    lemma_digits(n);
    let ds = digits(n);
    if ds.len() < w {
        lemma_zero_prefix((w - ds.len()) as nat, ds);
    }
    let s = padded(n, w);
    assert(is_digit(s[0]));
    assert(unsigned_body(s) == s);
}

proof fn lemma_split_plain(x: Seq<char>, y: Seq<char>)
    requires
        forall|i: int| 0 <= i < y.len() ==> !is_sep(#[trigger] y[i]),
    ensures
        split_state(x + y) == (split_state(x).0, split_state(x).1 + y),
    decreases y.len(),
{
    if y.len() == 0 {
        assert(x + y =~= x);
        assert(split_state(x).1 + y =~= split_state(x).1);
    } else {
        lemma_split_plain(x, y.drop_last());
        assert((x + y).drop_last() =~= x + y.drop_last());
        assert(!is_sep(y[y.len() - 1]));
        assert((split_state(x).1 + y.drop_last()).push(y.last()) =~= split_state(x).1 + y);
    }
}

/// Year, month and day written out and joined by `-` or `/` separators, the
/// way `format_date` writes them (with `-`).
pub open spec fn date_text(y: int, m: int, d: int, s1: char, s2: char) -> Seq<char> {
    year_text(y) + seq![s1] + padded(m as nat, 2) + seq![s2] + padded(d as nat, 2)
}

/// Reading back a date of a year from 0 on, written in ISO form or with
/// slashes (or any mix of the two separators), gives the same calendar date.
pub proof fn lemma_date_round_trip(y: int, m: int, d: int, s1: char, s2: char)
    requires
        valid_ymd(y, m, d),
        y >= 0,
        is_sep(s1),
        is_sep(s2),
    ensures
        parsed_date(date_text(y, m, d, s1, s2)) == Some((y, m, d)),
        date_text(y, m, d, '-', '-') == iso_text(y, m, d),
{
    let a = year_text(y);
    let b = padded(m as nat, 2);
    let c = padded(d as nat, 2);
    lemma_padded(y as nat, 4, i32::MAX as int);
    lemma_padded(m as nat, 2, u32::MAX as int);
    lemma_padded(d as nat, 2, u32::MAX as int);
    let e = Seq::<char>::empty();
    lemma_split_plain(e, a);
    assert(e + a =~= a);
    let a1 = a.push(s1);
    assert(a1.drop_last() =~= a);
    assert(split_state(a1) == (seq![a], e));
    lemma_split_plain(a1, b);
    let a2 = (a1 + b).push(s2);
    assert(a2.drop_last() =~= a1 + b);
    assert(e + b =~= b);
    assert(split_state(a2) == (seq![a].push(b), e));
    lemma_split_plain(a2, c);
    assert(e + c =~= c);
    assert(a2 + c =~= date_text(y, m, d, s1, s2));
    assert(date_parts(date_text(y, m, d, s1, s2)) =~= seq![a, b, c]);
}

} // verus!
