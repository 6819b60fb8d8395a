//! Validating parsers for the date, time, duration and time-zone microsyntaxes
//! of HTML: each parser either yields an exact structured value or rejects
//! the whole input.
//!
//! Every parser is stated against a grammar over the code points of its
//! input (the `spec_*` functions of each module). A component parser reads
//! from a cursor that counts code points and moves it past what it read; a
//! string parser reads from the start and requires the whole input to be
//! consumed. `laws` proves how the parsers relate to the canonical text of
//! their values and to text that follows a value.
pub mod calendar;
pub mod date;
pub mod datetime;
pub mod duration;
pub mod fields;
pub mod laws;
pub mod month;
pub mod scan;
pub mod text;
pub mod time;
pub mod timezone_offset;
pub mod week;
pub mod yearless_date;

pub use crate::calendar::{
    is_valid_hour, is_valid_min_or_sec, is_valid_month, max_days_in_month_year,
    week_number_of_year, weeks_in_year_from_weekday,
};
pub use crate::date::{parse_date, parse_date_component, Date};
pub use crate::datetime::{
    parse_global_datetime, parse_local_datetime, subtract_offset, GlobalDateTime, LocalDateTime,
};
pub use crate::duration::{parse_duration, Duration, DurationUnit, MDisambig};
pub use crate::month::{parse_month, parse_month_component, YearMonth};
pub use crate::scan::{collect_ascii_digits, skip_ascii_whitespace, CharClass};
pub use crate::time::{parse_time, parse_time_component, TimeOfDay};
pub use crate::timezone_offset::{
    parse_timezone_offset, parse_timezone_offset_component, TimeZoneOffset, TimeZoneSign,
};
pub use crate::week::{parse_week, parse_week_component, YearWeek};
pub use crate::yearless_date::{parse_yearless_date, parse_yearless_date_component, YearlessDate};
