use bus_sign::timestamp::{parse_arrivals, Timestamp};

#[test]
fn parses_iso_prefix() {
    let t = Timestamp::parse("2024-12-15T14:40:18.167264-05:00").unwrap();
    assert_eq!(
        t,
        Timestamp { year: 2024, month: 12, day: 15, hour: 14, minute: 40, second: 18 }
    );
}

#[test]
fn rejects_short_or_malformed_text() {
    assert_eq!(Timestamp::parse("2024-12-15T14:40:18"), None);
    assert_eq!(Timestamp::parse(""), None);
    assert_eq!(Timestamp::parse("2024/12-15T14:40:18Z"), None);
    assert_eq!(Timestamp::parse("2024-12-15 14:40:18Z"), None);
    assert_eq!(Timestamp::parse("2024-12-15T14-40:18Z"), None);
    assert_eq!(Timestamp::parse("2024-1a-15T14:40:18Z"), None);
    assert_eq!(Timestamp::parse("20x4-12-15T14:40:18Z"), None);
    assert_eq!(Timestamp::parse("2024-12-15T14:40:-8Z"), None);
}

#[test]
fn accepts_a_plus_sign_in_a_field() {
    let t = Timestamp::parse("2024-+2-15T14:40:18Z").unwrap();
    assert_eq!(t.month, 2);
    assert_eq!(Timestamp::parse("+999-01-01T00:00:00Z").unwrap().year, 999);
}

#[test]
fn seconds_count_365_day_years() {
    let t = Timestamp { year: 2024, month: 12, day: 15, hour: 14, minute: 40, second: 18 };
    assert_eq!(
        t.as_secs(),
        2024 * 31_536_000 + 365 * 86_400 + 15 * 86_400 + 14 * 3600 + 40 * 60 + 18
    );
    let t = Timestamp { year: 1, month: 1, day: 0, hour: 0, minute: 0, second: 1 };
    assert_eq!(t.as_secs(), 31_536_000 + 31 * 86_400 + 1);
    let t = Timestamp { year: 0, month: 13, day: 2, hour: 0, minute: 1, second: 0 };
    assert_eq!(t.as_secs(), 2 * 86_400 + 60);
}

#[test]
fn arrival_list_keeps_parsable_times_in_order() {
    let texts = vec![
        "2024-12-15T14:50:00-05:00",
        "garbage",
        "2024-12-15T15:05:30-05:00",
    ];
    let times = parse_arrivals(&texts);
    assert_eq!(times.len(), 2);
    assert_eq!(times[0].minute, 50);
    assert_eq!((times[1].hour, times[1].minute, times[1].second), (15, 5, 30));
    assert!(parse_arrivals(&vec![]).is_empty());
}
