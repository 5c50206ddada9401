use cantus::weather::{
    calendar_cells, calendar_page, choose_place, city_label, forecast_slot, geocode_url, ordinal,
    shown_month, step_month, weather_name, CalendarCell, CalendarDate, ForecastSlot, GRID_CELLS,
    MONTH_LIMIT,
};

fn date(year: i16, month: i8, day: i8) -> CalendarDate {
    CalendarDate { year, month, day }
}

#[test]
fn pages_months_within_the_limit() {
    assert_eq!(step_month(0, true), 1);
    assert_eq!(step_month(0, false), -1);
    assert_eq!(step_month(MONTH_LIMIT, true), MONTH_LIMIT);
    assert_eq!(step_month(-MONTH_LIMIT, false), -MONTH_LIMIT);
    assert_eq!(step_month(step_month(7, true), false), 7);
}

#[test]
fn shows_the_first_of_the_paged_month() {
    assert_eq!(shown_month(date(2024, 2, 29), 0), date(2024, 2, 1));
    assert_eq!(shown_month(date(2024, 2, 29), 1), date(2024, 3, 1));
    assert_eq!(shown_month(date(2024, 2, 29), -2), date(2023, 12, 1));
    assert_eq!(shown_month(date(2024, 1, 15), 12), date(2025, 1, 1));
}

#[test]
fn lays_out_six_weeks_from_monday() {
    // 2024-02-01 is a Thursday, so the grid opens on Monday 29 January.
    let cells = calendar_cells(date(2024, 2, 1), date(2024, 2, 14));
    assert_eq!(cells.len(), GRID_CELLS);
    assert_eq!(cells[0], CalendarCell { day: 29, today: false, in_month: false });
    assert_eq!(cells[2], CalendarCell { day: 31, today: false, in_month: false });
    assert_eq!(cells[3], CalendarCell { day: 1, today: false, in_month: true });
    assert_eq!(cells[16], CalendarCell { day: 14, today: true, in_month: true });
    assert_eq!(cells[31], CalendarCell { day: 29, today: false, in_month: true });
    assert_eq!(cells[32], CalendarCell { day: 1, today: false, in_month: false });
    assert_eq!(cells[41], CalendarCell { day: 10, today: false, in_month: false });
    assert_eq!(cells.iter().filter(|cell| cell.today).count(), 1);
}

#[test]
fn opens_on_the_first_when_it_is_a_monday() {
    // 2024-07-01 is a Monday.
    let cells = calendar_cells(date(2024, 7, 1), date(2023, 7, 1));
    assert_eq!(cells[0], CalendarCell { day: 1, today: false, in_month: true });
    assert_eq!(cells[30], CalendarCell { day: 31, today: false, in_month: true });
    assert_eq!(cells[31], CalendarCell { day: 1, today: false, in_month: false });
    assert!(cells.iter().all(|cell| !cell.today));
}

#[test]
fn current_page_marks_today() {
    let page = calendar_page(0);
    assert_eq!(page.month.day, 1);
    assert_eq!(page.month.month, page.today.month);
    assert_eq!(page.cells.len(), GRID_CELLS);
    let today: Vec<&CalendarCell> = page.cells.iter().filter(|cell| cell.today).collect();
    assert_eq!(today.len(), 1);
    assert_eq!(today[0].day, page.today.day);
    assert!(today[0].in_month);
}

#[test]
fn writes_ordinal_suffixes() {
    let expected = [
        (1, "st"),
        (2, "nd"),
        (3, "rd"),
        (4, "th"),
        (10, "th"),
        (11, "th"),
        (12, "th"),
        (13, "th"),
        (21, "st"),
        (22, "nd"),
        (23, "rd"),
        (30, "th"),
        (31, "st"),
    ];
    for (day, suffix) in expected {
        assert_eq!(ordinal(day), suffix, "day {day}");
    }
}

#[test]
fn names_weather_codes() {
    assert_eq!(weather_name(0), "Clear");
    assert_eq!(weather_name(3), "Overcast");
    assert_eq!(weather_name(65), "Heavy Rain");
    assert_eq!(weather_name(99), "Thunderstorm Heavy Hail");
    assert_eq!(weather_name(4), "Unknown weather");
    assert_eq!(weather_name(255), "Unknown weather");
}

#[test]
fn labels_cities_of_time_zones() {
    assert_eq!(city_label("America/New_York"), "New York");
    assert_eq!(city_label("America/Argentina/Buenos_Aires"), "Buenos Aires");
    assert_eq!(city_label("UTC"), "UTC");
    assert_eq!(city_label("Etc/"), "");
    assert_eq!(city_label(""), "");
}

#[test]
fn looks_up_the_city_of_a_time_zone() {
    assert_eq!(
        geocode_url("Europe/Isle_of_Man"),
        "https://geocoding-api.open-meteo.com/v1/search?name=Isle+of+Man&count=10"
    );
    assert_eq!(
        geocode_url("America/Port-au-Prince"),
        "https://geocoding-api.open-meteo.com/v1/search?name=Port-au-Prince&count=10"
    );
    assert_eq!(
        geocode_url("America/Bahía_de_Banderas"),
        "https://geocoding-api.open-meteo.com/v1/search?name=Bah%C3%ADa+de+Banderas&count=10"
    );
}

#[test]
fn prefers_the_place_in_the_same_time_zone() {
    let zones = vec![String::from("Europe/London"), String::from("America/New_York"), String::from("America/New_York")];
    assert_eq!(choose_place(&zones, "America/New_York"), Some(1));
    assert_eq!(choose_place(&zones, "Asia/Tokyo"), Some(0));
    assert_eq!(choose_place(&Vec::new(), "Asia/Tokyo"), None);
}

#[test]
fn routes_forecasts_to_their_clocks() {
    assert_eq!(forecast_slot(0, 2), ForecastSlot::Local);
    assert_eq!(forecast_slot(1, 2), ForecastSlot::Clock(0));
    assert_eq!(forecast_slot(2, 2), ForecastSlot::Clock(1));
    assert_eq!(forecast_slot(3, 2), ForecastSlot::Unused);
    assert_eq!(forecast_slot(0, 0), ForecastSlot::Local);
    assert_eq!(forecast_slot(1, 0), ForecastSlot::Unused);
}
