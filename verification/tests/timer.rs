use cantus::timer::{clock_face, countdown, countdown_seconds, describe, describe_seconds, tokens, unit, Request, Timer};
use std::time::Duration;

#[test]
fn formats_readout() {
    assert_eq!(describe(Duration::from_mins(30)), "30 Minute");
    assert_eq!(describe(Duration::from_hours(2)), "2 Hour");
    assert_eq!(describe(Duration::from_mins(90)), "1 Hour 30 Minute");
    assert_eq!(countdown(Duration::from_secs(932)), "15:32");
    assert_eq!(countdown(Duration::from_mins(65)), "1:05:00");
}

#[test]
fn describes_edges_of_the_hour() {
    assert_eq!(describe_seconds(0), "0 Minute");
    assert_eq!(describe_seconds(59), "0 Minute");
    assert_eq!(describe_seconds(3599), "59 Minute");
    assert_eq!(describe_seconds(3600), "1 Hour");
    assert_eq!(describe_seconds(3661), "1 Hour 1 Minute");
    assert_eq!(describe_seconds(86_400), "24 Hour");
    assert_eq!(describe(Duration::from_millis(1999)), "0 Minute");
}

#[test]
fn counts_down_with_padded_fields() {
    assert_eq!(countdown_seconds(0), "0:00");
    assert_eq!(countdown_seconds(9), "0:09");
    assert_eq!(countdown_seconds(3599), "59:59");
    assert_eq!(countdown_seconds(3600), "1:00:00");
    assert_eq!(countdown_seconds(36_061), "10:01:01");
    assert_eq!(countdown(Duration::from_millis(61_500)), "1:01");
}

#[test]
fn labels_requests() {
    assert_eq!(Request::Start(Duration::from_mins(30)).label(), "Start 30 Minute Timer");
    assert_eq!(Request::Start(Duration::from_mins(150)).label(), "Start 2 Hour 30 Minute Timer");
    assert_eq!(Request::Cancel.label(), "Cancel Timer");
    assert_eq!(Request::Start(Duration::from_secs(5)).action(), "Start");
    assert_eq!(Request::Cancel.action(), "Cancel");
}

#[test]
fn splits_numbers_from_units() {
    assert_eq!(tokens("timer 1h30m"), ["timer", "1", "h", "30", "m"]);
    assert_eq!(tokens("TIMER 5 MINS"), ["timer", "5", "mins"]);
    assert_eq!(tokens("set a 2.5hour timer!"), ["set", "a", "2.5", "hour", "timer"]);
    assert_eq!(tokens("  --  "), Vec::<String>::new());
    assert_eq!(tokens(""), Vec::<String>::new());
    assert_eq!(tokens("ÉTÉ 3m"), ["été", "3", "m"]);
}

#[test]
fn reads_unit_names() {
    for word in ["h", "hr", "hrs", "hour", "hours"] {
        assert_eq!(unit(word), Some(3600));
    }
    for word in ["m", "min", "mins", "minute", "minutes"] {
        assert_eq!(unit(word), Some(60));
    }
    for word in ["s", "sec", "secs", "second", "seconds"] {
        assert_eq!(unit(word), Some(1));
    }
    assert_eq!(unit("timer"), None);
    assert_eq!(unit(""), None);
    assert_eq!(unit("Hours"), None);
}

#[test]
fn clock_faces_drop_the_leading_zero() {
    assert_eq!(clock_face("06:15PM"), "6:15pm");
    assert_eq!(clock_face("12:00AM"), "12:00am");
    assert_eq!(clock_face("10:05AM"), "10:05am");
    assert_eq!(clock_face(""), "");
}

#[test]
fn timers_start_expire_and_cancel() {
    let mut timer = Timer::default();
    assert_eq!(timer.readout(), None);
    assert!(!timer.expired());
    timer.apply(Request::Start(Duration::from_mins(30)));
    let readout = timer.readout().unwrap();
    assert!(readout.starts_with("30:00 · ends ") || readout.starts_with("29:59 · ends "), "{readout}");
    assert!(!timer.expired());
    timer.apply(Request::Start(Duration::ZERO));
    assert!(timer.expired());
    let readout = timer.readout().unwrap();
    assert!(readout.starts_with("0 Minute Timer Complete at "), "{readout}");
    assert!(readout.ends_with("am") || readout.ends_with("pm"), "{readout}");
    timer.apply(Request::Cancel);
    assert_eq!(timer.readout(), None);
    assert!(!timer.expired());
}
