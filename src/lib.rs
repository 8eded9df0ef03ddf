//! Weekly catering-menu extraction: line classification, section segmentation,
//! day-block splitting, week resolution and the merged menu index.

pub mod blocks;
pub mod date;
pub mod index;
pub mod menu;
pub mod text;
pub mod week;

pub use blocks::{fill_first_line_per_day, split_blocks};
pub use date::{format_date, parse_date_param, Date};
pub use index::{
    is_menu_href, select_menu_anchors, MealResponse, MenuEntry, MenuIndex, QueryParams,
};
pub use menu::{parse_menu_lines, parse_weekly_menu, Period, Section, WeekMenu};
pub use text::is_junk_line;
pub use week::{
    choose_inferred_week_start, date_from_captures, month_from_name, parse_week_commencing,
    parse_week_commencing_from_pdf_text,
};
