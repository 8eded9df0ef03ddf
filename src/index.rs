//! Lookup of meals in a week's menu and in the index merged over weeks.
use vstd::prelude::*;
use crate::date::{civil, format_date, iso_text, Date, MAX_DAY};
use crate::menu::{Period, WeekMenu, BREAKFAST_DAYS, DINNER_DAYS, LUNCH_DAYS};
use crate::text::{lower_of, lowercase, chars_of, count_matches, match_count};

verus! {

/// The fixed text of a brunch entry.
pub open spec fn brunch_text() -> Seq<char> {
    "Brunch buffet available"@
}

/// The name of a period as it appears in keys and queries.
pub open spec fn period_name(p: Period) -> Seq<char> {
    match p {
        Period::Breakfast => "breakfast"@,
        Period::Brunch => "brunch"@,
        Period::Lunch => "lunch"@,
        Period::Dinner => "dinner"@,
    }
}

/// The period with the given (lower-case) name.
pub open spec fn period_of_name(s: Seq<char>) -> Option<Period> {
    if s == "breakfast"@ {
        Some(Period::Breakfast)
    } else if s == "brunch"@ {
        Some(Period::Brunch)
    } else if s == "lunch"@ {
        Some(Period::Lunch)
    } else if s == "dinner"@ {
        Some(Period::Dinner)
    } else {
        None
    }
}

/// The text at position `off` of `texts`, among the first `days` days.
pub open spec fn day_slot(texts: Seq<String>, off: int, days: int) -> Option<Seq<char>> {
    if 0 <= off < texts.len() && off < days {
        Some(texts[off]@)
    } else {
        None
    }
}

/// Periods in the order in which a day's entries are listed.
pub open spec fn period_at(i: int) -> Period {
    if i == 0 {
        Period::Breakfast
    } else if i == 1 {
        Period::Brunch
    } else if i == 2 {
        Period::Lunch
    } else {
        Period::Dinner
    }
}

impl WeekMenu {
    /// The entry `off` days after the week's start for period `p`.
    pub open spec fn entry(self, off: int, p: Period) -> Option<Seq<char>> {
        match p {
            Period::Breakfast => day_slot(self.breakfast@, off, BREAKFAST_DAYS as int),
            Period::Brunch => if (off == 5 && self.brunch_saturday) || (off == 6
                && self.brunch_sunday) {
                Some(brunch_text())
            } else {
                None
            },
            Period::Lunch => day_slot(self.lunch@, off, LUNCH_DAYS as int),
            Period::Dinner => day_slot(self.dinner@, off, DINNER_DAYS as int),
        }
    }

    /// The entries among the first `k` (day, period) pairs, days first.
    pub open spec fn entries_upto(self, k: int) -> Seq<(int, Period, Seq<char>)>
        decreases k,
    {
        if k <= 0 {
            seq![]
        } else {
            let prev = self.entries_upto(k - 1);
            let off = (k - 1) / 4;
            let p = period_at((k - 1) % 4);
            match self.entry(off, p) {
                Some(t) => prev.push((self.week_start.day_number() + off, p, t)),
                None => prev,
            }
        }
    }

    /// The meal of a period for the date `date`: its own entry, or else the
    /// entry of the same weekday in this week.
    pub open spec fn lookup(self, date: int, p: Period) -> Option<Seq<char>> {
        match self.entry(date - self.week_start.day_number(), p) {
            Some(t) => Some(t),
            None => self.entry((date - 1) % 7, p),
        }
    }

    fn entry_at(&self, off: i64, period: Period) -> (r: Option<String>)
        ensures
            match r {
                Some(s) => self.entry(off as int, period) == Some(s@),
                None => self.entry(off as int, period) is None,
            },
    {
        match period {
            Period::Breakfast => slot(&self.breakfast, off, BREAKFAST_DAYS),
            Period::Brunch => {
                if (off == 5 && self.brunch_saturday) || (off == 6 && self.brunch_sunday) {
                    Some(String::from_str("Brunch buffet available"))
                } else {
                    None
                }
            },
            Period::Lunch => slot(&self.lunch, off, LUNCH_DAYS),
            Period::Dinner => slot(&self.dinner, off, DINNER_DAYS),
        }
    }

    /// The entry of this week for `date` and `period`, if there is one.
    pub fn get(&self, date: Date, period: Period) -> (r: Option<String>)
        ensures
            match r {
                Some(s) => self.entry(
                    date.day_number() - self.week_start.day_number(),
                    period,
                ) == Some(s@),
                None => self.entry(
                    date.day_number() - self.week_start.day_number(),
                    period,
                ) is None,
            },
    {
        let off: i64 = date.days() as i64 - self.week_start.days() as i64;
        self.entry_at(off, period)
    }

    /// The meal for `date` and `period` from this week's menu: the date's own
    /// entry, or else the entry on the same weekday of this week.
    pub fn meal_for_date(&self, date: Date, period: Period) -> (r: Option<String>)
        requires
            date.wf(),
        ensures
            match r {
                Some(s) => self.lookup(date.day_number(), period) == Some(s@),
                None => self.lookup(date.day_number(), period) is None,
            },
    {
        match self.get(date, period) {
            Some(s) => Some(s),
            None => {
                let wd = date.weekday_from_monday();
                self.entry_at(wd as i64, period)
            },
        }
    }

    /// Every entry of the week, day by day and, within a day, breakfast,
    /// brunch, lunch and dinner.
    pub fn entries(&self) -> (r: Vec<MenuEntry>)
        requires
            self.week_start.wf(),
            self.week_start.day_number() + 6 <= MAX_DAY,
        ensures
            r@.map_values(|e: MenuEntry| (e.date.day_number(), e.period, e.text@))
                == self.entries_upto(28),
            forall|i: int| 0 <= i < r.len() ==> (#[trigger] r@[i]).date.wf(),
    {
        let mut out: Vec<MenuEntry> = Vec::new();
        let mut k: usize = 0;
        while k < 28
            invariant
                k <= 28,
                self.week_start.wf(),
                self.week_start.day_number() + 6 <= MAX_DAY,
                out@.map_values(|e: MenuEntry| (e.date.day_number(), e.period, e.text@))
                    == self.entries_upto(k as int),
                forall|i: int| 0 <= i < out.len() ==> (#[trigger] out@[i]).date.wf(),
            decreases 28 - k,
        {
            let off: i64 = (k / 4) as i64;
            let pi = k % 4;
            let period = if pi == 0 {
                Period::Breakfast
            } else if pi == 1 {
                Period::Brunch
            } else if pi == 2 {
                Period::Lunch
            } else {
                Period::Dinner
            };
            assert(period == period_at(k as int % 4));
            match self.entry_at(off, period) {
                Some(text) => {
                    let date = self.week_start.plus_days(off).unwrap();
                    let ghost old_v = out@;
                    out.push(MenuEntry { date, period, text });
                    assert(out@.map_values(
                        |e: MenuEntry| (e.date.day_number(), e.period, e.text@),
                    ) =~= old_v.map_values(
                        |e: MenuEntry| (e.date.day_number(), e.period, e.text@),
                    ).push((date.day_number(), period, out@.last().text@)));
                },
                None => {},
            }
            k += 1;
        }
        out
    }
}

fn slot(texts: &Vec<String>, off: i64, days: usize) -> (r: Option<String>)
    ensures
        match r {
            Some(s) => day_slot(texts@, off as int, days as int) == Some(s@),
            None => day_slot(texts@, off as int, days as int) is None,
        },
{
    if off < 0 {
        return None;
    }
    let o: u64 = off as u64;
    if o < texts.len() as u64 && o < days as u64 {
        let t = texts[o as usize].clone();
        Some(t)
    } else {
        None
    }
}

/// One entry of a week's menu.
pub struct MenuEntry {
    pub date: Date,
    pub period: Period,
    pub text: String,
}

impl MenuEntry {
    /// The key `YYYY-MM-DD-<period>` of the entry.
    pub fn key(&self) -> (r: String)
        requires
            self.date.wf(),
        ensures
            r@ == iso_text(
                civil(self.date.day_number()).0,
                civil(self.date.day_number()).1,
                civil(self.date.day_number()).2,
            ) + "-"@ + period_name(self.period),
    {
        let mut k = format_date(self.date);
        k.append("-");
        k.append(period_str(self.period));
        k
    }
}

fn period_str(p: Period) -> (r: &'static str)
    ensures
        r@ == period_name(p),
{
    match p {
        Period::Breakfast => "breakfast",
        Period::Brunch => "brunch",
        Period::Lunch => "lunch",
        Period::Dinner => "dinner",
    }
}

impl Period {
    /// The period with the given lower-case name.
    pub fn from_name(name: &str) -> (r: Option<Period>)
        ensures
            r == period_of_name(name@),
    {
        let s = String::from_str(name);
        if s == String::from_str("breakfast") {
            Some(Period::Breakfast)
        } else if s == String::from_str("brunch") {
            Some(Period::Brunch)
        } else if s == String::from_str("lunch") {
            Some(Period::Lunch)
        } else if s == String::from_str("dinner") {
            Some(Period::Dinner)
        } else {
            None
        }
    }

    /// The period named in a query, in any case.
    pub fn from_query(name: &str) -> (r: Option<Period>)
        ensures
            r == period_of_name(lower_of(name@)),
    {
        let lower = lowercase(name);
        Period::from_name(lower.as_str())
    }

    /// The period's lower-case name.
    pub fn name(&self) -> (r: String)
        ensures
            r@ == period_name(*self),
    {
        String::from_str(period_str(*self))
    }
}

/// The meal for a date and period in weeks merged in order: the last week
/// that holds an entry for them wins.
pub open spec fn index_lookup(weeks: Seq<WeekMenu>, date: int, p: Period) -> Option<Seq<char>>
    decreases weeks.len(),
{
    if weeks.len() == 0 {
        None
    } else {
        match weeks.last().entry(date - weeks.last().week_start.day_number(), p) {
            Some(t) => Some(t),
            None => index_lookup(weeks.drop_last(), date, p),
        }
    }
}

/// Menus of several weeks merged into one index; a later week overrides an
/// earlier one on the same date and period.
pub struct MenuIndex {
    pub weeks: Vec<WeekMenu>,
}

impl MenuIndex {
    pub fn new() -> (r: MenuIndex)
        ensures
            r.weeks@.len() == 0,
    {
        MenuIndex { weeks: Vec::new() }
    }

    /// Merges a week's menu into the index.
    pub fn add_week(&mut self, week: WeekMenu)
        ensures
            final(self).weeks@ == old(self).weeks@.push(week),
    {
        self.weeks.push(week);
    }

    /// The meal for `date` and `period`, if any merged week holds it.
    pub fn get(&self, date: Date, period: Period) -> (r: Option<String>)
        ensures
            match r {
                Some(s) => index_lookup(self.weeks@, date.day_number(), period) == Some(s@),
                None => index_lookup(self.weeks@, date.day_number(), period) is None,
            },
    {
        let mut i: usize = self.weeks.len();
        assert(self.weeks@.take(i as int) =~= self.weeks@);
        while i > 0
            invariant
                i <= self.weeks.len(),
                index_lookup(self.weeks@, date.day_number(), period) == index_lookup(
                    self.weeks@.take(i as int),
                    date.day_number(),
                    period,
                ),
            decreases i,
        {
            assert(self.weeks@.take(i as int).drop_last() =~= self.weeks@.take(i - 1));
            match self.weeks[i - 1].get(date, period) {
                Some(s) => {
                    return Some(s);
                },
                None => {},
            }
            i -= 1;
        }
        None
    }
}

/// A link on the catering page that points to a menu document: its address,
/// in any case, names a PDF and a menu.
pub open spec fn menu_href(lower: Seq<char>) -> bool {
    match_count(lower, ".pdf"@) > 0 && match_count(lower, "menu"@) > 0
}

/// Whether a link's address points to a menu document.
pub fn is_menu_href(href: &str) -> (r: bool)
    ensures
        r == menu_href(lower_of(href@)),
{
    proof {
        reveal_strlit(".pdf");
        reveal_strlit("menu");
    }
    let lower = lowercase(href);
    let cs = chars_of(lower.as_str());
    count_matches(&cs, &chars_of(".pdf")) > 0 && count_matches(&cs, &chars_of("menu")) > 0
}

/// The anchors, as (address, text) pairs, whose address points to a menu
/// document, in their original order.
pub open spec fn menu_anchors(anchors: Seq<(String, String)>) -> Seq<(Seq<char>, Seq<char>)>
    decreases anchors.len(),
{
    if anchors.len() == 0 {
        seq![]
    } else {
        let prev = menu_anchors(anchors.drop_last());
        let a = anchors.last();
        if menu_href(lower_of(a.0@)) {
            prev.push((a.0@, a.1@))
        } else {
            prev
        }
    }
}

/// Keeps the anchors of a page, given as (address, text) pairs, whose
/// address points to a menu document.
pub fn select_menu_anchors(anchors: &[(String, String)]) -> (r: Vec<(String, String)>)
    ensures
        r@.map_values(|a: (String, String)| (a.0@, a.1@)) == menu_anchors(anchors@),
{
    let mut out: Vec<(String, String)> = Vec::new();
    let mut i: usize = 0;
    while i < anchors.len()
        invariant
            i <= anchors.len(),
            out@.map_values(|a: (String, String)| (a.0@, a.1@)) == menu_anchors(
                anchors@.take(i as int),
            ),
        decreases anchors.len() - i,
    {
        assert(anchors@.take(i + 1).drop_last() =~= anchors@.take(i as int));
        let (href, text) = &anchors[i];
        if is_menu_href(href.as_str()) {
            let ghost old_v = out@.map_values(|a: (String, String)| (a.0@, a.1@));
            out.push((href.clone(), text.clone()));
            assert(out@.map_values(|a: (String, String)| (a.0@, a.1@)) =~= old_v.push(
                (href@, text@),
            ));
        }
        i += 1;
    }
    assert(anchors@.take(anchors.len() as int) =~= anchors@);
    out
}

/// The query of a meal request: a date and a period, as given.
pub struct QueryParams {
    pub date: String,
    pub period: String,
}

/// The answer to a meal request.
pub struct MealResponse {
    pub date: String,
    pub period: String,
    pub meal: String,
}

} // verus!
