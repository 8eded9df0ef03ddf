//! Week resolution: which published week serves a requested date, and the
//! week-commencing date named in a document.
use vstd::prelude::*;
use crate::date::{civil, parse_nat, valid_ymd, Date};
use crate::text::{lower_of, lowercase};

verus! {

/// Whether day `d` lies in the seven-day week that starts on day `ws`.
pub open spec fn in_week(ws: int, d: int) -> bool {
    ws <= d <= ws + 6
}

pub open spec fn dist(a: int, b: int) -> int {
    if a >= b {
        a - b
    } else {
        b - a
    }
}

/// Index of the first element of `s` nearest to `t`.
pub open spec fn nearest(s: Seq<int>, t: int) -> int
    decreases s.len(),
{
    if s.len() <= 1 {
        0
    } else {
        let b = nearest(s.drop_last(), t);
        if dist(s.last(), t) < dist(s[b], t) {
            s.len() - 1
        } else {
            b
        }
    }
}

pub open spec fn day_numbers(ws: Seq<Date>) -> Seq<int> {
    ws.map_values(|d: Date| d.day_number())
}

/// The week start inferred for `req`: the week nearest to `today`, moved by
/// the whole number of weeks (rounded down) from `today` to `req`.
pub open spec fn inferred_target(ws: Seq<int>, req: int, today: int) -> int {
    ws[nearest(ws, today)] + ((req - today) / 7) * 7
}

/// Whether `i` is the first index whose week contains `req`.
pub open spec fn first_containing(ws: Seq<int>, req: int, i: int) -> bool {
    0 <= i < ws.len() && in_week(ws[i], req) && forall|j: int|
        0 <= j < i ==> !in_week(#[trigger] ws[j], req)
}

proof fn lemma_nearest_bound(s: Seq<int>, t: int)
    requires
        s.len() > 0,
    ensures
        0 <= nearest(s, t) < s.len(),
    decreases s.len(),
{
    if s.len() > 1 {
        lemma_nearest_bound(s.drop_last(), t);
    }
}

fn nearest_index(ws: &[Date], t: i64) -> (r: usize)
    requires
        ws.len() > 0,
        -0x4_0000_0000 <= t <= 0x4_0000_0000,
    ensures
        r == nearest(day_numbers(ws@), t as int),
        r < ws.len(),
{
    let ghost ns = day_numbers(ws@);
    let mut best: usize = 0;
    let mut best_dist: i64 = if ws[0].days() as i64 >= t {
        ws[0].days() as i64 - t
    } else {
        t - ws[0].days() as i64
    };
    let mut i: usize = 1;
    while i < ws.len()
        invariant
            1 <= i <= ws.len(),
            ns == day_numbers(ws@),
            -0x4_0000_0000 <= t <= 0x4_0000_0000,
            best < i,
            best == nearest(ns.take(i as int), t as int),
            best_dist == dist(ns[best as int], t as int),
        decreases ws.len() - i,
    {
        assert(ns.take(i + 1).drop_last() =~= ns.take(i as int));
        let n = ws[i].days() as i64;
        let d: i64 = if n >= t {
            n - t
        } else {
            t - n
        };
        if d < best_dist {
            best = i;
            best_dist = d;
        }
        i += 1;
    }
    assert(ns.take(ws.len() as int) =~= ns);
    best
}

/// Picks the week whose menu serves `requested_date`. A week that contains
/// the date wins (the first such). Otherwise the week nearest to `today` is
/// moved by the whole weeks from `today` to the date, and the week nearest to
/// that target is taken; ties go to the earlier element of `week_starts`.
pub fn choose_inferred_week_start(
    week_starts: &[Date],
    requested_date: Date,
    today: Date,
) -> (r: Option<Date>)
    ensures
        r is None <==> week_starts.len() == 0,
        (exists|i: int| first_containing(day_numbers(week_starts@), requested_date.day_number(), i))
            ==> (exists|i: int|
            first_containing(day_numbers(week_starts@), requested_date.day_number(), i) && r
                == Some(week_starts@[i])),
        week_starts.len() > 0 && (forall|i: int|
            0 <= i < week_starts.len() ==> !in_week(
                #[trigger] day_numbers(week_starts@)[i],
                requested_date.day_number(),
            )) ==> r == Some(
            week_starts@[nearest(
                day_numbers(week_starts@),
                inferred_target(
                    day_numbers(week_starts@),
                    requested_date.day_number(),
                    today.day_number(),
                ),
            )],
        ),
{
    let ghost ns = day_numbers(week_starts@);
    let ghost req = requested_date.day_number();
    if week_starts.len() == 0 {
        return None;
    }
    let rq = requested_date.days() as i64;
    let mut i: usize = 0;
    while i < week_starts.len()
        invariant
            i <= week_starts.len(),
            ns == day_numbers(week_starts@),
            req == requested_date.day_number(),
            rq == req,
            forall|j: int| 0 <= j < i ==> !in_week(#[trigger] ns[j], req),
        decreases week_starts.len() - i,
    {
        let ws = week_starts[i].days() as i64;
        if ws <= rq && rq <= ws + 6 {
            assert(first_containing(ns, req, i as int));
            return Some(week_starts[i]);
        }
        i += 1;
    }
    assert forall|k: int| #![auto] !first_containing(ns, req, k) by {}
    let td = today.days() as i64;
    let tw = nearest_index(week_starts, td);
    let delta = rq - td;
    let weeks: i64 = if delta >= 0 {
        delta / 7
    } else {
        -((-delta + 6) / 7)
    };
    assert(weeks == (req - today.day_number()) / 7);
    assert(delta - 6 <= weeks * 7 <= delta) by (nonlinear_arith)
        requires
            weeks == delta as int / 7,
    ;
    let wd: i64 = week_starts[tw].days() as i64;
    let target: i64 = wd + weeks * 7;
    let best = nearest_index(week_starts, target);
    Some(week_starts[best])
}

/// The captured day, month name and year of the first `w/c <weekday> <day>
/// <month> <year>` phrase in a link text.
pub uninterp spec fn link_captures(text: Seq<char>) -> Option<(Seq<char>, Seq<char>, Seq<char>)>;

/// The captured day, month name and year of the first `week commencing` or
/// `w/c` phrase (any case) in a document's text.
pub uninterp spec fn document_captures(text: Seq<char>) -> Option<
    (Seq<char>, Seq<char>, Seq<char>),
>;

/// Relies on `regex::Regex::captures` with the link-text pattern (the pattern
/// is a valid constant): the groups of its first match.
#[verifier::external_body]
fn link_week_captures(text: &str) -> (r: Option<(String, String, String)>)
    ensures
        match r {
            Some(c) => link_captures(text@) == Some((c.0@, c.1@, c.2@)),
            None => link_captures(text@) is None,
        },
{
    let re = regex::Regex::new(r"w/c\s+\w+\s+(\d+)(?:st|nd|rd|th)?\s+(\w+)\s+(\d{4})").unwrap();
    let caps = re.captures(text)?;
    let (d, m, y) = (caps.get(1)?, caps.get(2)?, caps.get(3)?);
    Some((d.as_str().to_string(), m.as_str().to_string(), y.as_str().to_string()))
}

/// Relies on `regex::Regex::captures` with the document pattern (a valid
/// constant, case-insensitive): the groups of its first match.
#[verifier::external_body]
fn document_week_captures(text: &str) -> (r: Option<(String, String, String)>)
    ensures
        match r {
            Some(c) => document_captures(text@) == Some((c.0@, c.1@, c.2@)),
            None => document_captures(text@) is None,
        },
{
    let re = regex::Regex::new(
        r"(?i)(?:week\s+commencing|w/c)\s+\w+\s+(\d+)(?:st|nd|rd|th)?\s+(\w+)\s+(\d{4})",
    ).unwrap();
    let caps = re.captures(text)?;
    let (d, m, y) = (caps.get(1)?, caps.get(2)?, caps.get(3)?);
    Some((d.as_str().to_string(), m.as_str().to_string(), y.as_str().to_string()))
}

/// Number of a full English month name in lower case.
pub open spec fn month_number(name: Seq<char>) -> Option<int> {
    if name == "january"@ {
        Some(1)
    } else if name == "february"@ {
        Some(2)
    } else if name == "march"@ {
        Some(3)
    } else if name == "april"@ {
        Some(4)
    } else if name == "may"@ {
        Some(5)
    } else if name == "june"@ {
        Some(6)
    } else if name == "july"@ {
        Some(7)
    } else if name == "august"@ {
        Some(8)
    } else if name == "september"@ {
        Some(9)
    } else if name == "october"@ {
        Some(10)
    } else if name == "november"@ {
        Some(11)
    } else if name == "december"@ {
        Some(12)
    } else {
        None
    }
}

/// The number of a lower-case full English month name.
pub fn month_from_name(name: &String) -> (r: Option<u32>)
    ensures
        match r {
            Some(m) => month_number(name@) == Some(m as int),
            None => month_number(name@) is None,
        },
{
    if *name == String::from_str("january") {
        Some(1)
    } else if *name == String::from_str("february") {
        Some(2)
    } else if *name == String::from_str("march") {
        Some(3)
    } else if *name == String::from_str("april") {
        Some(4)
    } else if *name == String::from_str("may") {
        Some(5)
    } else if *name == String::from_str("june") {
        Some(6)
    } else if *name == String::from_str("july") {
        Some(7)
    } else if *name == String::from_str("august") {
        Some(8)
    } else if *name == String::from_str("september") {
        Some(9)
    } else if *name == String::from_str("october") {
        Some(10)
    } else if *name == String::from_str("november") {
        Some(11)
    } else if *name == String::from_str("december") {
        Some(12)
    } else {
        None
    }
}

/// Year, month and day named by the captured day, lower-cased month name and
/// year, before calendar validation.
pub open spec fn week_fields(day: Seq<char>, month_lower: Seq<char>, year: Seq<char>) -> Option<
    (int, int, int),
> {
    match (parse_nat(day, u32::MAX as int), month_number(month_lower), parse_nat(year, i32::MAX as int)) {
        (Some(d), Some(m), Some(y)) => Some((y, m, d)),
        _ => None,
    }
}

/// The date named by captured pieces: `None` unless each piece reads and they
/// form a real calendar date.
pub open spec fn week_date(day: Seq<char>, month: Seq<char>, year: Seq<char>) -> Option<(int, int, int)> {
    match week_fields(day, lower_of(month), year) {
        Some(t) => if valid_ymd(t.0, t.1, t.2) {
            Some(t)
        } else {
            None
        },
        None => None,
    }
}

/// The date named by a day number, a month name (any case) and a year, as
/// captured from a week-commencing phrase.
pub fn date_from_captures(day: &str, month: &str, year: &str) -> (r: Option<Date>)
    ensures
        r is Some <==> week_date(day@, month@, year@) is Some,
        r matches Some(d) ==> d.wf() && civil(d.day_number()) == week_date(
            day@,
            month@,
            year@,
        )->Some_0,
{
    let lower = lowercase(month);
    let dcs = crate::text::chars_of(day);
    let ycs = crate::text::chars_of(year);
    let parsed_day = crate::date::parse_number_of(&dcs, u32::MAX as u64);
    let parsed_year = crate::date::parse_number_of(&ycs, i32::MAX as u64);
    let m = month_from_name(&lower);
    match (parsed_day, m, parsed_year) {
        (Some(d), Some(m), Some(y)) => Date::from_ymd(y as i32, m, d as u32),
        _ => None,
    }
}

/// The week-commencing date named in a link's text (`w/c Monday 26th January
/// 2026`), if it names a real date.
pub fn parse_week_commencing(text: &str) -> (r: Option<Date>)
    ensures
        match link_captures(text@) {
            Some(c) => (r is Some <==> week_date(c.0, c.1, c.2) is Some) && (r matches Some(d)
                ==> d.wf() && civil(d.day_number()) == week_date(c.0, c.1, c.2)->Some_0),
            None => r is None,
        },
{
    match link_week_captures(text) {
        Some((d, m, y)) => date_from_captures(d.as_str(), m.as_str(), y.as_str()),
        None => None,
    }
}

/// The week-commencing date named in a document's text (`Week Commencing
/// Monday 2 February 2026`, `w/c Monday 26 January 2026`, any case), if it
/// names a real date.
pub fn parse_week_commencing_from_pdf_text(text: &str) -> (r: Option<Date>)
    ensures
        match document_captures(text@) {
            Some(c) => (r is Some <==> week_date(c.0, c.1, c.2) is Some) && (r matches Some(d)
                ==> d.wf() && civil(d.day_number()) == week_date(c.0, c.1, c.2)->Some_0),
            None => r is None,
        },
{
    match document_week_captures(text) {
        Some((d, m, y)) => date_from_captures(d.as_str(), m.as_str(), y.as_str()),
        None => None,
    }
}

} // verus!
