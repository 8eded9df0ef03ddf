//! Section segmentation of a weekly menu's text and the per-week menu it
//! yields.
use vstd::prelude::*;
use crate::blocks::{blocks_of, content_lines, day_texts, first_lines, section_day_texts, views};
use crate::date::Date;
use crate::text::{
    chars_of, count_matches, is_junk_line, junk, lower_of, lowercase, match_count, split_lines,
    lines_of, trim_of, trim_str,
};

verus! {

/// Days of the week with a breakfast entry (Monday to Friday).
pub const BREAKFAST_DAYS: usize = 5;

/// Days of the week with a lunch entry (Monday to Friday).
pub const LUNCH_DAYS: usize = 5;

/// Days of the week with a dinner entry (Monday to Sunday).
pub const DINNER_DAYS: usize = 7;

/// A meal period of the menu.
#[derive(Clone, Copy, Debug, PartialEq, Eq, Structural)]
pub enum Period {
    Breakfast,
    Brunch,
    Lunch,
    Dinner,
}

/// The region of the document that the segmenter is in.
#[derive(Clone, Copy, Debug, PartialEq, Eq, Structural)]
pub enum Section {
    Outside,
    Breakfast,
    BrunchSat,
    BrunchSun,
    Lunch,
    Dinner,
}

/// The section that a line opens, given its lower-cased trimmed text and the
/// current section; `None` when the line is not a header.
pub open spec fn header(low: Seq<char>, cur: Section) -> Option<Section> {
    if match_count(low, "breakfast"@) >= 3 {
        Some(Section::Breakfast)
    } else if match_count(low, "brunch"@) >= 1 {
        if cur == Section::BrunchSat {
            Some(Section::BrunchSun)
        } else {
            Some(Section::BrunchSat)
        }
    } else if match_count(low, "lunch"@) >= 3 {
        Some(Section::Lunch)
    } else if match_count(low, "dinner"@) >= 3 {
        Some(Section::Dinner)
    } else {
        None
    }
}

pub open spec fn header_of_line(line: Seq<char>, cur: Section) -> Option<Section> {
    header(lower_of(trim_of(line)), cur)
}

/// The section after reading `lines`.
pub open spec fn section_after(lines: Seq<Seq<char>>) -> Section
    decreases lines.len(),
{
    if lines.len() == 0 {
        Section::Outside
    } else {
        let cur = section_after(lines.drop_last());
        match header_of_line(lines.last(), cur) {
            Some(s) => s,
            None => cur,
        }
    }
}

/// Whether the last of `lines` is a content line read in section `s`.
pub open spec fn content_in(lines: Seq<Seq<char>>, s: Section) -> bool {
    lines.len() > 0 && header_of_line(lines.last(), section_after(lines.drop_last())) is None
        && section_after(lines.drop_last()) == s
}

/// The raw lines read in section `s` (lunch and dinner keep them all).
pub open spec fn section_lines(lines: Seq<Seq<char>>, s: Section) -> Seq<Seq<char>>
    decreases lines.len(),
{
    if lines.len() == 0 {
        seq![]
    } else if content_in(lines, s) {
        section_lines(lines.drop_last(), s).push(lines.last())
    } else {
        section_lines(lines.drop_last(), s)
    }
}

/// Breakfast entries: the first content line read in the breakfast section for
/// each weekday in turn, trimmed.
pub open spec fn breakfast_lines(lines: Seq<Seq<char>>) -> Seq<Seq<char>>
    decreases lines.len(),
{
    if lines.len() == 0 {
        seq![]
    } else {
        let prev = breakfast_lines(lines.drop_last());
        let t = trim_of(lines.last());
        if content_in(lines, Section::Breakfast) && !junk(t) && prev.len() < BREAKFAST_DAYS {
            prev.push(t)
        } else {
            prev
        }
    }
}

/// Whether a content line has been read in brunch section `s`.
pub open spec fn brunch_seen(lines: Seq<Seq<char>>, s: Section) -> bool
    decreases lines.len(),
{
    if lines.len() == 0 {
        false
    } else {
        brunch_seen(lines.drop_last(), s) || (content_in(lines, s) && !junk(trim_of(lines.last())))
    }
}

/// The menu of one week.
pub struct WeekMenu {
    /// The Monday that starts the week.
    pub week_start: Date,
    /// Breakfast text of Monday, Tuesday, ... in order.
    pub breakfast: Vec<String>,
    /// Whether Saturday has the brunch buffet.
    pub brunch_saturday: bool,
    /// Whether Sunday has the brunch buffet.
    pub brunch_sunday: bool,
    /// Lunch text of Monday, Tuesday, ... in order.
    pub lunch: Vec<String>,
    /// Dinner text of Monday, Tuesday, ... in order.
    pub dinner: Vec<String>,
}

/// What the segmenter makes of `lines` for a week.
pub open spec fn menu_matches(m: WeekMenu, lines: Seq<Seq<char>>, week_start: Date) -> bool {
    &&& m.week_start == week_start
    &&& m.breakfast.deep_view() == breakfast_lines(lines)
    &&& m.brunch_saturday == brunch_seen(lines, Section::BrunchSat)
    &&& m.brunch_sunday == brunch_seen(lines, Section::BrunchSun)
    &&& m.lunch.deep_view() == day_texts(
        section_lines(lines, Section::Lunch),
        LUNCH_DAYS as nat,
    )
    &&& m.dinner.deep_view() == day_texts(
        section_lines(lines, Section::Dinner),
        DINNER_DAYS as nat,
    )
}

fn header_exec(low: &Vec<char>, cur: Section) -> (r: Option<Section>)
    ensures
        r == header(low@, cur),
{
    proof {
        reveal_strlit("breakfast");
        reveal_strlit("brunch");
        reveal_strlit("lunch");
        reveal_strlit("dinner");
    }
    if count_matches(low, &chars_of("breakfast")) >= 3 {
        Some(Section::Breakfast)
    } else if count_matches(low, &chars_of("brunch")) >= 1 {
        if cur == Section::BrunchSat {
            Some(Section::BrunchSun)
        } else {
            Some(Section::BrunchSat)
        }
    } else if count_matches(low, &chars_of("lunch")) >= 3 {
        Some(Section::Lunch)
    } else if count_matches(low, &chars_of("dinner")) >= 3 {
        Some(Section::Dinner)
    } else {
        None
    }
}

/// Segments the lines of a weekly menu and builds that week's menu.
pub fn parse_menu_lines(lines: &[String], week_start: Date) -> (r: WeekMenu)
    ensures
        menu_matches(r, views(lines@), week_start),
{
    let mut section = Section::Outside;
    let mut breakfast: Vec<String> = Vec::new();
    let mut sat = false;
    let mut sun = false;
    let mut lunch: Vec<String> = Vec::new();
    let mut dinner: Vec<String> = Vec::new();
    let mut i: usize = 0;
    while i < lines.len()
        invariant
            i <= lines.len(),
            section == section_after(views(lines@.take(i as int))),
            breakfast.deep_view() == breakfast_lines(views(lines@.take(i as int))),
            sat == brunch_seen(views(lines@.take(i as int)), Section::BrunchSat),
            sun == brunch_seen(views(lines@.take(i as int)), Section::BrunchSun),
            lunch.deep_view() == section_lines(views(lines@.take(i as int)), Section::Lunch),
            dinner.deep_view() == section_lines(views(lines@.take(i as int)), Section::Dinner),
        decreases lines.len() - i,
    {
        let ghost pre = views(lines@.take(i as int));
        let ghost cur = views(lines@.take(i + 1));
        assert(cur.drop_last() =~= pre);
        let line = &lines[i];
        assert(cur.last() == line@);
        let trimmed = trim_str(line.as_str());
        let lower = lowercase(trimmed);
        let low = chars_of(lower.as_str());
        match header_exec(&low, section) {
            Some(s) => {
                section = s;
            },
            None => {
                if section == Section::Lunch {
                    let ghost old_v = lunch.deep_view();
                    lunch.push(line.clone());
                    assert(lunch.deep_view() =~= old_v.push(line@));
                } else if section == Section::Dinner {
                    let ghost old_v = dinner.deep_view();
                    dinner.push(line.clone());
                    assert(dinner.deep_view() =~= old_v.push(line@));
                }
                if !is_junk_line(trimmed, lower.as_str()) {
                    if section == Section::Breakfast {
                        if breakfast.len() < BREAKFAST_DAYS {
                            let ghost old_v = breakfast.deep_view();
                            breakfast.push(String::from_str(trimmed));
                            assert(breakfast.deep_view() =~= old_v.push(trim_of(line@)));
                        }
                    } else if section == Section::BrunchSat {
                        sat = true;
                    } else if section == Section::BrunchSun {
                        sun = true;
                    }
                }
            },
        }
        i += 1;
    }
    assert(lines@.take(lines.len() as int) =~= lines@);
    assert(lunch.deep_view() =~= views(lunch@));
    assert(dinner.deep_view() =~= views(dinner@));
    let lunch_texts = section_day_texts(lunch.as_slice(), LUNCH_DAYS);
    let dinner_texts = section_day_texts(dinner.as_slice(), DINNER_DAYS);
    WeekMenu {
        week_start,
        breakfast,
        brunch_saturday: sat,
        brunch_sunday: sun,
        lunch: lunch_texts,
        dinner: dinner_texts,
    }
}

/// Parses the text of one weekly menu for the week that starts on
/// `week_start`.
pub fn parse_weekly_menu(text: &str, week_start: Date) -> (r: WeekMenu)
    ensures
        menu_matches(r, lines_of(text@), week_start),
{
    let lines = split_lines(text);
    assert(views(lines@) =~= lines.deep_view());
    parse_menu_lines(lines.as_slice(), week_start)
}

/// A line whose lower-cased text holds `lunch` five times, and that is not a
/// breakfast or brunch header, opens the lunch section and is not itself
/// kept as lunch content.
pub proof fn lemma_lunch_header_line(prev: Seq<Seq<char>>, line: Seq<char>)
    requires
        match_count(lower_of(trim_of(line)), "lunch"@) == 5,
        match_count(lower_of(trim_of(line)), "breakfast"@) < 3,
        match_count(lower_of(trim_of(line)), "brunch"@) == 0,
    ensures
        section_after(prev.push(line)) == Section::Lunch,
        section_lines(prev.push(line), Section::Lunch) == section_lines(prev, Section::Lunch),
{
    assert(prev.push(line).drop_last() =~= prev);
}

/// A lower-cased trimmed line that some rule of the segmenter reads as a
/// section header.
pub open spec fn header_text(low: Seq<char>) -> bool {
    ||| match_count(low, "breakfast"@) >= 3
    ||| match_count(low, "brunch"@) >= 1
    ||| match_count(low, "lunch"@) >= 3
    ||| match_count(low, "dinner"@) >= 3
}

/// A trimmed line that is no section header.
pub open spec fn plain_line(t: Seq<char>) -> bool {
    !header_text(lower_of(t))
}

proof fn lemma_section_lines_plain(lines: Seq<Seq<char>>, s: Section)
    ensures
        forall|i: int|
            0 <= i < section_lines(lines, s).len() ==> plain_line(
                trim_of(#[trigger] section_lines(lines, s)[i]),
            ),
    decreases lines.len(),
{
    if lines.len() > 0 {
        lemma_section_lines_plain(lines.drop_last(), s);
        let prev = section_lines(lines.drop_last(), s);
        if content_in(lines, s) {
            let l = lines.last();
            assert(header(lower_of(trim_of(l)), section_after(lines.drop_last())) is None);
            assert(plain_line(trim_of(l)));
            assert forall|i: int| 0 <= i < prev.len() + 1 implies plain_line(
                trim_of(#[trigger] prev.push(l)[i]),
            ) by {
                if i < prev.len() {
                    assert(prev.push(l)[i] == prev[i]);
                }
            }
        }
    }
}

proof fn lemma_breakfast_plain(lines: Seq<Seq<char>>)
    ensures
        forall|i: int|
            0 <= i < breakfast_lines(lines).len() ==> plain_line(#[trigger] breakfast_lines(lines)[i]),
    decreases lines.len(),
{
    if lines.len() > 0 {
        lemma_breakfast_plain(lines.drop_last());
        let prev = breakfast_lines(lines.drop_last());
        let l = lines.last();
        if content_in(lines, Section::Breakfast) {
            assert(header(lower_of(trim_of(l)), section_after(lines.drop_last())) is None);
            assert(plain_line(trim_of(l)));
            assert forall|i: int| 0 <= i < prev.len() + 1 implies plain_line(
                #[trigger] prev.push(trim_of(l))[i],
            ) by {
                if i < prev.len() {
                    assert(prev.push(trim_of(l))[i] == prev[i]);
                }
            }
        }
    }
}

proof fn lemma_blocks_plain(x: Seq<Seq<char>>, n: nat)
    requires
        forall|i: int| 0 <= i < x.len() ==> plain_line(trim_of(#[trigger] x[i])),
    ensures
        forall|b: int, j: int|
            0 <= b < blocks_of(x, n).len() && 0 <= j < blocks_of(x, n)[b].len() ==> plain_line(
                #[trigger] blocks_of(x, n)[b][j],
            ),
    decreases x.len(),
{
    if x.len() > 0 {
        let pre = x.drop_last();
        assert forall|i: int| 0 <= i < pre.len() implies plain_line(trim_of(#[trigger] pre[i])) by {
            assert(pre[i] == x[i]);
        }
        lemma_blocks_plain(pre, n);
        let prev = blocks_of(pre, n);
        let t = trim_of(x.last());
        assert(plain_line(trim_of(x[x.len() - 1])));
        let cur = blocks_of(x, n);
        assert forall|b: int, j: int| 0 <= b < cur.len() && 0 <= j < cur[b].len() implies plain_line(
            #[trigger] cur[b][j],
        ) by {
            if b < prev.len() && !(b == prev.len() - 1 && j == prev[b].len()) {
                assert(cur[b][j] == prev[b][j]);
            }
        }
    }
}

proof fn lemma_content_plain(x: Seq<Seq<char>>)
    requires
        forall|i: int| 0 <= i < x.len() ==> plain_line(trim_of(#[trigger] x[i])),
    ensures
        forall|k: int| 0 <= k < content_lines(x).len() ==> plain_line(#[trigger] content_lines(x)[k]),
    decreases x.len(),
{
    if x.len() > 0 {
        let pre = x.drop_last();
        assert forall|i: int| 0 <= i < pre.len() implies plain_line(trim_of(#[trigger] pre[i])) by {
            assert(pre[i] == x[i]);
        }
        lemma_content_plain(pre);
        assert(plain_line(trim_of(x[x.len() - 1])));
        let prev = content_lines(pre);
        let t = trim_of(x.last());
        assert forall|i: int| 0 <= i < prev.len() + 1 implies plain_line(#[trigger] prev.push(t)[i]) by {
            if i < prev.len() {
                assert(prev.push(t)[i] == prev[i]);
            }
        }
    }
}

proof fn lemma_section_texts_plain(x: Seq<Seq<char>>, n: nat)
    requires
        forall|i: int| 0 <= i < x.len() ==> plain_line(trim_of(#[trigger] x[i])),
    ensures
        forall|b: int, j: int|
            0 <= b < blocks_of(x, n).len() && 0 <= j < blocks_of(x, n)[b].len() ==> plain_line(
                #[trigger] blocks_of(x, n)[b][j],
            ),
        forall|k: int| 0 <= k < first_lines(x, n).len() ==> plain_line(#[trigger] first_lines(x, n)[k]),
{
    lemma_blocks_plain(x, n);
    lemma_content_plain(x);
    assert forall|k: int| 0 <= k < first_lines(x, n).len() implies plain_line(
        #[trigger] first_lines(x, n)[k],
    ) by {
        assert(first_lines(x, n)[k] == content_lines(x)[k]);
    }
}

/// Header lines are consumed, never content: no breakfast entry, and no line
/// of a lunch or dinner day (a line of a day block, or a day's single line in
/// the fallback), is read as a section header.
pub proof fn lemma_headers_never_content(lines: Seq<Seq<char>>)
    ensures
        forall|i: int|
            0 <= i < breakfast_lines(lines).len() ==> plain_line(#[trigger] breakfast_lines(lines)[i]),
        forall|b: int, j: int|
            0 <= b < blocks_of(section_lines(lines, Section::Lunch), LUNCH_DAYS as nat).len() && 0
                <= j < blocks_of(section_lines(lines, Section::Lunch), LUNCH_DAYS as nat)[b].len()
                ==> plain_line(
                #[trigger] blocks_of(section_lines(lines, Section::Lunch), LUNCH_DAYS as nat)[b][j],
            ),
        forall|k: int|
            0 <= k < first_lines(section_lines(lines, Section::Lunch), LUNCH_DAYS as nat).len()
                ==> plain_line(
                #[trigger] first_lines(section_lines(lines, Section::Lunch), LUNCH_DAYS as nat)[k],
            ),
        forall|b: int, j: int|
            0 <= b < blocks_of(section_lines(lines, Section::Dinner), DINNER_DAYS as nat).len() && 0
                <= j < blocks_of(section_lines(lines, Section::Dinner), DINNER_DAYS as nat)[b].len()
                ==> plain_line(
                #[trigger] blocks_of(section_lines(lines, Section::Dinner), DINNER_DAYS as nat)[b][j],
            ),
        forall|k: int|
            0 <= k < first_lines(section_lines(lines, Section::Dinner), DINNER_DAYS as nat).len()
                ==> plain_line(
                #[trigger] first_lines(section_lines(lines, Section::Dinner), DINNER_DAYS as nat)[k],
            ),
{
    lemma_breakfast_plain(lines);
    lemma_section_lines_plain(lines, Section::Lunch);
    lemma_section_lines_plain(lines, Section::Dinner);
    lemma_section_texts_plain(section_lines(lines, Section::Lunch), LUNCH_DAYS as nat);
    lemma_section_texts_plain(section_lines(lines, Section::Dinner), DINNER_DAYS as nat);
}

/// Parsing is a function of the text and the week: two menus parsed from the
/// same text for the same week agree in every field.
pub proof fn lemma_parse_deterministic(a: WeekMenu, b: WeekMenu, text: Seq<char>, week_start: Date)
    requires
        menu_matches(a, lines_of(text), week_start),
        menu_matches(b, lines_of(text), week_start),
    ensures
        a.week_start == b.week_start,
        a.breakfast.deep_view() == b.breakfast.deep_view(),
        a.brunch_saturday == b.brunch_saturday,
        a.brunch_sunday == b.brunch_sunday,
        a.lunch.deep_view() == b.lunch.deep_view(),
        a.dinner.deep_view() == b.dinner.deep_view(),
{
}

} // verus!
