//! The weather panel's calendar page, its month navigation and the labels of its forecasts.
use crate::chars::{chars_of, same_text, string_of};
use crate::search::{form_encode, form_encoded};
use vstd::prelude::*;
use vstd::string::*;
use vstd::utf8::encode_utf8;

verus! {

/// How far, in months, the calendar may be paged away from the current month.
pub const MONTH_LIMIT: i32 = 1200;

/// Days in the calendar grid: six weeks of seven days.
pub const GRID_CELLS: usize = 42;

/// A civil date as its year, month and day.
#[derive(Clone, Copy, Debug, PartialEq, Eq, Structural)]
pub struct CalendarDate {
    pub year: i16,
    pub month: i8,
    pub day: i8,
}

/// A Gregorian leap year.
pub open spec fn leap_year(year: int) -> bool {
    year % 4 == 0 && (year % 100 != 0 || year % 400 == 0)
}

/// The number of days in a month of a year.
pub open spec fn days_in_month(year: int, month: int) -> int {
    if month == 2 {
        if leap_year(year) {
            29
        } else {
            28
        }
    } else if month == 4 || month == 6 || month == 9 || month == 11 {
        30
    } else {
        31
    }
}

/// A date that exists in the supported range of years, `-9999..=9999`.
pub open spec fn valid_date(date: CalendarDate) -> bool {
    &&& -9999 <= date.year <= 9999
    &&& 1 <= date.month <= 12
    &&& 1 <= date.day <= days_in_month(date.year as int, date.month as int)
}

/// The date as a `(year, month, day)` triple.
pub open spec fn fields(date: CalendarDate) -> (i16, i8, i8) {
    (date.year, date.month, date.day)
}

/// The date from a `(year, month, day)` triple.
pub open spec fn from_fields(triple: (i16, i8, i8)) -> CalendarDate {
    CalendarDate { year: triple.0, month: triple.1, day: triple.2 }
}

/// What `jiff::civil::Date::saturating_add` returns for the date `(year, month, day)` and a
/// span of `months` months and `days` days, as a `(year, month, day)` triple.
pub uninterp spec fn span_later(year: i16, month: i8, day: i8, months: i32, days: i64) -> (
    i16,
    i8,
    i8,
);

/// What `jiff::civil::Weekday::to_monday_zero_offset` returns for the weekday of the date
/// `(year, month, day)`: days since the Monday that starts its week.
pub uninterp spec fn monday_offset(year: i16, month: i8, day: i8) -> i8;

/// The date `months` months and `days` days after `date`, saturating at the supported range.
pub open spec fn shifted(date: CalendarDate, months: i32, days: i64) -> CalendarDate {
    from_fields(span_later(date.year, date.month, date.day, months, days))
}

/// Calls `jiff::civil::Date::saturating_add` with a span of `months` months and `days` days.
/// The result is a date of the supported range (every `jiff` date is one); which date it is
/// stays under the name `span_later`.
#[verifier::external_body]
fn shift(date: CalendarDate, months: i32, days: i64) -> (later: CalendarDate)
    requires
        valid_date(date),
        -239976 <= months <= 239976,
        -7304484 <= days <= 7304484,
    ensures
        fields(later) == span_later(date.year, date.month, date.day, months, days),
        valid_date(later),
{
    let span = jiff::Span::new().months(months).days(days);
    let later = jiff::civil::date(date.year, date.month, date.day).saturating_add(span);
    CalendarDate { year: later.year(), month: later.month(), day: later.day() }
}

/// Calls `jiff::civil::Date::first_of_month`: the first day of the date's month.
#[verifier::external_body]
fn month_start(date: CalendarDate) -> (first: CalendarDate)
    requires
        valid_date(date),
    ensures
        first == (CalendarDate { year: date.year, month: date.month, day: 1 }),
{
    let first = jiff::civil::date(date.year, date.month, date.day).first_of_month();
    CalendarDate { year: first.year(), month: first.month(), day: first.day() }
}

/// Calls `jiff::civil::Date::weekday` and `Weekday::to_monday_zero_offset`: the days since the
/// Monday of the date's week, from `0` for a Monday to `6` for a Sunday.
#[verifier::external_body]
fn weekday_offset(date: CalendarDate) -> (offset: i8)
    requires
        valid_date(date),
    ensures
        offset == monday_offset(date.year, date.month, date.day),
        0 <= offset <= 6,
{
    jiff::civil::date(date.year, date.month, date.day).weekday().to_monday_zero_offset()
}

/// Calls `jiff::Zoned::now` and takes its date: today in the system time zone.
#[verifier::external_body]
fn current_date() -> (today: CalendarDate)
    ensures
        valid_date(today),
{
    let today = jiff::Zoned::now().date();
    CalendarDate { year: today.year(), month: today.month(), day: today.day() }
}

/// A day of the calendar grid: its day of the month, whether it is today, and whether it
/// falls in the month on show (days of the weeks around it are dimmed).
#[derive(Clone, Copy, Debug, PartialEq, Eq, Structural)]
pub struct CalendarCell {
    pub day: i8,
    pub today: bool,
    pub in_month: bool,
}

/// The first day of the month on show when the calendar is paged `offset` months away from
/// the month holding `today`.
pub open spec fn month_on_show(today: CalendarDate, offset: i32) -> CalendarDate {
    shifted(CalendarDate { year: today.year, month: today.month, day: 1 }, offset, 0)
}

/// The first day of the grid: the Monday on or before the first of the month.
pub open spec fn grid_start(month: CalendarDate) -> CalendarDate {
    shifted(month, 0, (-(monday_offset(month.year, month.month, month.day) as int)) as i64)
}

/// The date of the grid's `index`th day.
pub open spec fn cell_date(month: CalendarDate, index: int) -> CalendarDate {
    shifted(grid_start(month), 0, index as i64)
}

/// The grid's `index`th day as the calendar shows it.
pub open spec fn cell_of(month: CalendarDate, today: CalendarDate, index: int) -> CalendarCell {
    let date = cell_date(month, index);
    CalendarCell { day: date.day, today: date == today, in_month: date.month == month.month }
}

/// The first day of the month on show, `offset` months away from the month holding `today`.
pub fn shown_month(today: CalendarDate, offset: i32) -> (month: CalendarDate)
    requires
        valid_date(today),
        -239976 <= offset <= 239976,
    ensures
        month == month_on_show(today, offset),
        valid_date(month),
{
    let first = month_start(today);
    shift(first, offset, 0)
}

/// The six weeks of the calendar grid for the month starting at `month`, from the Monday on
/// or before its first day.
pub fn calendar_cells(month: CalendarDate, today: CalendarDate) -> (cells: Vec<CalendarCell>)
    requires
        valid_date(month),
    ensures
        cells@.len() == GRID_CELLS,
        forall|i: int| 0 <= i < GRID_CELLS ==> cells@[i] == cell_of(month, today, i),
{
    let offset = weekday_offset(month);
    let start = shift(month, 0, -(offset as i64));
    let mut cells: Vec<CalendarCell> = Vec::new();
    let mut index: usize = 0;
    while index < GRID_CELLS
        invariant
            index <= GRID_CELLS,
            valid_date(start),
            start == grid_start(month),
            cells@.len() == index,
            forall|i: int| 0 <= i < index ==> cells@[i] == cell_of(month, today, i),
        decreases GRID_CELLS - index,
    {
        let date = shift(start, 0, index as i64);
        cells.push(CalendarCell { day: date.day, today: date == today, in_month: date.month == month.month });
        index += 1;
    }
    cells
}

/// A page of the calendar: today, the first day of the month on show, and its grid.
pub struct CalendarPage {
    pub today: CalendarDate,
    pub month: CalendarDate,
    pub cells: Vec<CalendarCell>,
}

/// The calendar paged `offset` months away from the current month.  Today is read from the
/// clock, so only how the page follows from it is stated.
pub fn calendar_page(offset: i32) -> (page: CalendarPage)
    requires
        -239976 <= offset <= 239976,
    ensures
        valid_date(page.today),
        page.month == month_on_show(page.today, offset),
        page.cells@.len() == GRID_CELLS,
        forall|i: int| 0 <= i < GRID_CELLS ==> page.cells@[i] == cell_of(page.month, page.today, i),
{
    let today = current_date();
    let month = shown_month(today, offset);
    let cells = calendar_cells(month, today);
    CalendarPage { today, month, cells }
}

/// `value` held within `-limit..=limit`.
pub open spec fn clamped(value: int, limit: int) -> int {
    if value < -limit {
        -limit
    } else if value > limit {
        limit
    } else {
        value
    }
}

/// The page offset after pressing the previous (`forward == false`) or next month arrow,
/// kept within `MONTH_LIMIT` months of the current month.
pub fn step_month(offset: i32, forward: bool) -> (next: i32)
    ensures
        next == clamped(if forward { offset + 1 } else { offset - 1 }, MONTH_LIMIT as int),
{
    let moved: i64 = if forward { offset as i64 + 1 } else { offset as i64 - 1 };
    if moved < -(MONTH_LIMIT as i64) {
        -MONTH_LIMIT
    } else if moved > MONTH_LIMIT as i64 {
        MONTH_LIMIT
    } else {
        moved as i32
    }
}

/// Paging stays within `MONTH_LIMIT` months of the current month, and a step back undoes a
/// step forward taken from inside that range (and a step forward undoes a step back).
pub proof fn lemma_paging_round_trip(offset: int)
    requires
        -MONTH_LIMIT <= offset <= MONTH_LIMIT,
    ensures
        -MONTH_LIMIT <= clamped(offset + 1, MONTH_LIMIT as int) <= MONTH_LIMIT,
        -MONTH_LIMIT <= clamped(offset - 1, MONTH_LIMIT as int) <= MONTH_LIMIT,
        offset < MONTH_LIMIT ==> clamped(clamped(offset + 1, MONTH_LIMIT as int) - 1, MONTH_LIMIT as int) == offset,
        offset > -MONTH_LIMIT ==> clamped(clamped(offset - 1, MONTH_LIMIT as int) + 1, MONTH_LIMIT as int) == offset,
{
}

/// The English ordinal suffix of a day of the month: `st`, `nd`, `rd`, or `th` (always `th`
/// for 11 to 13).
pub open spec fn ordinal_suffix(day: int) -> Seq<char> {
    if 11 <= day % 100 <= 13 {
        "th"@
    } else if day % 10 == 1 {
        "st"@
    } else if day % 10 == 2 {
        "nd"@
    } else if day % 10 == 3 {
        "rd"@
    } else {
        "th"@
    }
}

/// The ordinal suffix written after a forecast day's number, as in `21st`.
pub fn ordinal(day: i8) -> (suffix: &'static str)
    requires
        day >= 0 || day % 10 == 0,
    ensures
        suffix@ == ordinal_suffix(day as int),
{
    let tens = day % 100;
    if 11 <= tens && tens <= 13 {
        "th"
    } else {
        let units = day % 10;
        if units == 1 {
            "st"
        } else if units == 2 {
            "nd"
        } else if units == 3 {
            "rd"
        } else {
            "th"
        }
    }
}

/// The part of a text after its last `/` (all of it when it has none).
pub open spec fn last_segment(text: Seq<char>) -> Seq<char>
    decreases text.len(),
{
    if text.len() == 0 {
        text
    } else if text.last() == '/' {
        Seq::empty()
    } else {
        last_segment(text.drop_last()).push(text.last())
    }
}

/// The text with each `_` written as a space.
pub open spec fn spaced(text: Seq<char>) -> Seq<char> {
    text.map_values(|c: char| if c == '_' { ' ' } else { c })
}

/// The city of an IANA time zone name as a world clock is labelled and looked up:
/// `America/New_York` is `New York`.
pub open spec fn city_of(timezone: Seq<char>) -> Seq<char> {
    spaced(last_segment(timezone))
}

/// The city named by a time zone, for a world clock's label and its place search.
pub fn city_label(timezone: &str) -> (city: String)
    ensures
        city@ == city_of(timezone@),
{
    let text = chars_of(timezone);
    let mut start: usize = 0;
    let mut index: usize = 0;
    while index < text.len()
        invariant
            text@ == timezone@,
            start <= index <= text@.len(),
            last_segment(text@.take(index as int)) == text@.subrange(start as int, index as int),
        decreases text@.len() - index,
    {
        proof {
            assert(text@.take(index + 1).drop_last() =~= text@.take(index as int));
        }
        if text[index] == '/' {
            start = index + 1;
        }
        index += 1;
        proof {
            assert(text@.subrange(start as int, index as int) =~= (if start == index {
                Seq::empty()
            } else {
                text@.subrange(start as int, index - 1).push(text@[index - 1])
            }));
        }
    }
    assert(text@.take(index as int) =~= text@);
    let mut city: Vec<char> = Vec::new();
    let mut at: usize = start;
    while at < text.len()
        invariant
            text@ == timezone@,
            start <= at <= text@.len(),
            city@ == spaced(text@.subrange(start as int, at as int)),
        decreases text@.len() - at,
    {
        let c = text[at];
        city.push(if c == '_' { ' ' } else { c });
        at += 1;
        assert(city@ =~= spaced(text@.subrange(start as int, at as int)));
    }
    string_of(&city)
}

/// The place search for a time zone's city: the geocoding service's address with the city
/// form-encoded as its `name`.
pub open spec fn geocode_address(timezone: Seq<char>) -> Seq<char> {
    "https://geocoding-api.open-meteo.com/v1/search?name="@ + form_encoded(
        encode_utf8(city_of(timezone)),
    ) + "&count=10"@
}

/// Builds the address that looks up the place of a time zone's city.
pub fn geocode_url(timezone: &str) -> (address: String)
    ensures
        address@ == geocode_address(timezone@),
{
    let city = city_label(timezone);
    let query = form_encode(city.as_str());
    let mut address = String::from_str("https://geocoding-api.open-meteo.com/v1/search?name=");
    address.append(query.as_str());
    address.append("&count=10");
    address
}

/// The place the lookup settles on: the first whose time zone is the one looked up, else the
/// first found; `None` when nothing was found.
pub open spec fn chosen_place(zones: Seq<Seq<char>>, timezone: Seq<char>) -> Option<int> {
    if exists|i: int| 0 <= i < zones.len() && zones[i] == timezone {
        Some(choose|i: int| 0 <= i < zones.len() && zones[i] == timezone && forall|j: int| 0 <= j < i ==> zones[j] != timezone)
    } else if zones.len() > 0 {
        Some(0)
    } else {
        None
    }
}

/// Picks, among the places found for a city (given by their time zones), the one that
/// locates a time zone.
pub fn choose_place(zones: &Vec<String>, timezone: &str) -> (chosen: Option<usize>)
    ensures
        match chosen {
            Some(i) => chosen_place(zones@.map_values(|z: String| z@), timezone@) == Some(i as int),
            None => chosen_place(zones@.map_values(|z: String| z@), timezone@) is None,
        },
{
    let ghost views = zones@.map_values(|z: String| z@);
    let mut index: usize = 0;
    while index < zones.len()
        invariant
            views == zones@.map_values(|z: String| z@),
            index <= zones@.len(),
            forall|j: int| 0 <= j < index ==> views[j] != timezone@,
        decreases zones@.len() - index,
    {
        if same_text(zones[index].as_str(), timezone) {
            proof {
                assert(views[index as int] == timezone@);
                let first = choose|i: int| 0 <= i < views.len() && views[i] == timezone@ && forall|j: int| 0 <= j < i ==> views[j] != timezone@;
                assert(0 <= index < views.len() && views[index as int] == timezone@ && forall|j: int| 0 <= j < index ==> views[j] != timezone@);
                if first < index {
                    assert(views[first] != timezone@);
                } else if first > index {
                    assert(views[index as int] != timezone@);
                }
            }
            return Some(index);
        }
        index += 1;
    }
    if zones.len() > 0 {
        Some(0)
    } else {
        None
    }
}

/// The description of a WMO weather code, as the forecasts name their conditions.
pub open spec fn weather_description(code: u8) -> Seq<char> {
    match code {
        0 => "Clear"@,
        1 => "Mainly Clear"@,
        2 => "Partly Cloudy"@,
        3 => "Overcast"@,
        45 => "Fog"@,
        48 => "Rime Fog"@,
        51 => "Light Drizzle"@,
        53 => "Moderate Drizzle"@,
        55 => "Dense Drizzle"@,
        56 => "Light Freezing Drizzle"@,
        57 => "Dense Freezing Drizzle"@,
        61 => "Light Rain"@,
        63 => "Moderate Rain"@,
        65 => "Heavy Rain"@,
        66 => "Light Freezing Rain"@,
        67 => "Heavy Freezing Rain"@,
        71 => "Light Snow"@,
        73 => "Moderate Snow"@,
        75 => "Heavy Snow"@,
        77 => "Snow Grains"@,
        80 => "Light Rain Showers"@,
        81 => "Moderate Rain Showers"@,
        82 => "Violent Rain Showers"@,
        85 => "Light Snow Showers"@,
        86 => "Heavy Snow Showers"@,
        95 => "Thunderstorm"@,
        96 => "Thunderstorm Light Hail"@,
        99 => "Thunderstorm Heavy Hail"@,
        _ => "Unknown weather"@,
    }
}

/// Names the conditions of a WMO weather code.
pub fn weather_name(code: u8) -> (name: &'static str)
    ensures
        name@ == weather_description(code),
{
    match code {
        0 => "Clear",
        1 => "Mainly Clear",
        2 => "Partly Cloudy",
        3 => "Overcast",
        45 => "Fog",
        48 => "Rime Fog",
        51 => "Light Drizzle",
        53 => "Moderate Drizzle",
        55 => "Dense Drizzle",
        56 => "Light Freezing Drizzle",
        57 => "Dense Freezing Drizzle",
        61 => "Light Rain",
        63 => "Moderate Rain",
        65 => "Heavy Rain",
        66 => "Light Freezing Rain",
        67 => "Heavy Freezing Rain",
        71 => "Light Snow",
        73 => "Moderate Snow",
        75 => "Heavy Snow",
        77 => "Snow Grains",
        80 => "Light Rain Showers",
        81 => "Moderate Rain Showers",
        82 => "Violent Rain Showers",
        85 => "Light Snow Showers",
        86 => "Heavy Snow Showers",
        95 => "Thunderstorm",
        96 => "Thunderstorm Light Hail",
        99 => "Thunderstorm Heavy Hail",
        _ => "Unknown weather",
    }
}

/// Where a fetched forecast goes: the first is the local one, each later one fills in the
/// world clock before it, and one with no clock left is dropped.
#[derive(Clone, Copy, Debug, PartialEq, Eq, Structural)]
pub enum ForecastSlot {
    Local,
    Clock(usize),
    Unused,
}

/// Routes the forecast fetched at `index` when `clocks` world clocks are configured.
pub fn forecast_slot(index: usize, clocks: usize) -> (slot: ForecastSlot)
    ensures
        slot == (if 1 <= index <= clocks {
            ForecastSlot::Clock((index - 1) as usize)
        } else if index == 0 {
            ForecastSlot::Local
        } else {
            ForecastSlot::Unused
        }),
{
    if index >= 1 && index - 1 < clocks {
        ForecastSlot::Clock(index - 1)
    } else if index != 0 {
        ForecastSlot::Unused
    } else {
        ForecastSlot::Local
    }
}


/// Whether the WMO code is one of those the bar names.
pub open spec fn named_code(code: u8) -> bool {
    code == 0 || code == 1 || code == 2 || code == 3 || code == 45 || code == 48 || code == 51 || code == 53 || code == 55 || code == 56 || code == 57 || code == 61 || code == 63 || code == 65 || code == 66 || code == 67 || code == 71 || code == 73 || code == 75 || code == 77 || code == 80 || code == 81 || code == 82 || code == 85 || code == 86 || code == 95 || code == 96 || code == 99
}

/// A few characters that tell the weather names apart: the length and the characters at 0,
/// 9 and 13.
spec fn name_signature(name: Seq<char>) -> (nat, char, char, char) {
    (name.len(), name[0], name[9], name[13])
}

/// Two different weather codes are never named alike, when the bar knows either of them: each
/// condition and each intensity has its own name, and an unknown code is named apart from
/// every known one.
#[verifier::rlimit(100)]
pub proof fn lemma_weather_names_distinct(a: u8, b: u8)
    requires
        a != b,
        named_code(a) || named_code(b),
    ensures
        weather_description(a) != weather_description(b),
{
    reveal_strlit("Clear");
    reveal_strlit("Mainly Clear");
    reveal_strlit("Partly Cloudy");
    reveal_strlit("Overcast");
    reveal_strlit("Fog");
    reveal_strlit("Rime Fog");
    reveal_strlit("Light Drizzle");
    reveal_strlit("Moderate Drizzle");
    reveal_strlit("Dense Drizzle");
    reveal_strlit("Light Freezing Drizzle");
    reveal_strlit("Dense Freezing Drizzle");
    reveal_strlit("Light Rain");
    reveal_strlit("Moderate Rain");
    reveal_strlit("Heavy Rain");
    reveal_strlit("Light Freezing Rain");
    reveal_strlit("Heavy Freezing Rain");
    reveal_strlit("Light Snow");
    reveal_strlit("Moderate Snow");
    reveal_strlit("Heavy Snow");
    reveal_strlit("Snow Grains");
    reveal_strlit("Light Rain Showers");
    reveal_strlit("Moderate Rain Showers");
    reveal_strlit("Violent Rain Showers");
    reveal_strlit("Light Snow Showers");
    reveal_strlit("Heavy Snow Showers");
    reveal_strlit("Thunderstorm");
    reveal_strlit("Thunderstorm Light Hail");
    reveal_strlit("Thunderstorm Heavy Hail");
    reveal_strlit("Unknown weather");
    if weather_description(a) == weather_description(b) {
        assert(name_signature(weather_description(a)) == name_signature(weather_description(b)));
    }
}


/// The intensity words of a weather family, lightest first.
pub open spec fn intensity_word(step: u8) -> Seq<char> {
    if step == 0 {
        "Light"@
    } else if step == 1 {
        "Moderate"@
    } else {
        "Heavy"@
    }
}

/// Rain and snow are named by intensity alike: the codes ending in 1, 3 and 5 of the rain
/// family (61, 63, 65) and of the snow family (71, 73, 75) are the light, moderate and heavy
/// forms of the family's noun.
pub proof fn lemma_intensity_names(family: u8, step: u8)
    requires
        family == 6 || family == 7,
        step < 3,
    ensures
        weather_description((family * 10 + 1 + 2 * step) as u8) == intensity_word(step) + " "@ + (
        if family == 6 {
            "Rain"@
        } else {
            "Snow"@
        }),
{
    reveal_strlit("Light Rain");
    reveal_strlit("Moderate Rain");
    reveal_strlit("Heavy Rain");
    reveal_strlit("Light Snow");
    reveal_strlit("Moderate Snow");
    reveal_strlit("Heavy Snow");
    reveal_strlit("Light");
    reveal_strlit("Moderate");
    reveal_strlit("Heavy");
    reveal_strlit(" ");
    reveal_strlit("Rain");
    reveal_strlit("Snow");
    let noun = if family == 6 {
        "Rain"@
    } else {
        "Snow"@
    };
    assert(weather_description((family * 10 + 1 + 2 * step) as u8) =~= intensity_word(step) + " "@ + noun);
}

} // verus!
