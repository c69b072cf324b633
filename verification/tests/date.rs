use uad_ng::date::Date;

fn date(y: u16, m: u8, d: u8) -> Date {
    Date::new(y, m, d).unwrap()
}

#[test]
fn new_accepts_dates_of_the_calendar() {
    let d = date(2024, 2, 29);
    assert_eq!((d.year(), d.month(), d.day()), (2024, 2, 29));
    assert!(Date::new(2000, 2, 29).is_some());
    assert!(Date::new(1, 1, 1).is_some());
    assert!(Date::new(9999, 12, 31).is_some());
}

#[test]
fn new_refuses_dates_that_do_not_exist() {
    assert_eq!(Date::new(2023, 2, 29), None);
    assert_eq!(Date::new(1900, 2, 29), None);
    assert_eq!(Date::new(2024, 4, 31), None);
    assert_eq!(Date::new(2024, 13, 1), None);
    assert_eq!(Date::new(2024, 0, 1), None);
    assert_eq!(Date::new(2024, 1, 0), None);
    assert_eq!(Date::new(0, 1, 1), None);
    assert_eq!(Date::new(10000, 1, 1), None);
}

#[test]
fn day_number_counts_from_1970() {
    assert_eq!(date(1970, 1, 1).day_number(), 0);
    assert_eq!(date(1970, 1, 2).day_number(), 1);
    assert_eq!(date(1969, 12, 31).day_number(), -1);
    assert_eq!(date(2000, 1, 1).day_number(), 10957);
    assert_eq!(date(2024, 3, 1).day_number(), 19783);
}

#[test]
fn day_number_at_the_ends_of_the_range() {
    assert_eq!(date(1, 1, 1).day_number(), -719162);
    assert_eq!(date(9999, 12, 31).day_number(), 2932896);
}

#[test]
fn from_day_number_finds_the_date() {
    assert_eq!(Date::from_day_number(0), Some(date(1970, 1, 1)));
    assert_eq!(Date::from_day_number(19782), Some(date(2024, 2, 29)));
    assert_eq!(Date::from_day_number(19783), Some(date(2024, 3, 1)));
    assert_eq!(Date::from_day_number(-1), Some(date(1969, 12, 31)));
    assert_eq!(Date::from_day_number(-719162), Some(date(1, 1, 1)));
    assert_eq!(Date::from_day_number(2932896), Some(date(9999, 12, 31)));
}

#[test]
fn from_day_number_refuses_days_out_of_range() {
    assert_eq!(Date::from_day_number(-719163), None);
    assert_eq!(Date::from_day_number(2932897), None);
    assert_eq!(Date::from_day_number(i64::MAX), None);
    assert_eq!(Date::from_day_number(i64::MIN), None);
}

#[test]
fn day_numbers_and_dates_go_back_and_forth() {
    let mut n: i64 = -719162;
    let mut previous: Option<Date> = None;
    while n <= 2932896 {
        let d = Date::from_day_number(n).unwrap();
        assert_eq!(d.day_number(), n);
        assert_ne!(Some(d), previous);
        previous = Some(d);
        n += 997;
    }
    for n in 19000..20500 {
        assert_eq!(Date::from_day_number(n).unwrap().day_number(), n);
    }
}

#[test]
fn days_since_counts_whole_days() {
    assert_eq!(date(2024, 3, 1).days_since(&date(2024, 1, 21)), 40);
    assert_eq!(date(2024, 1, 21).days_since(&date(2024, 3, 1)), -40);
    assert_eq!(date(2024, 3, 1).days_since(&date(2024, 3, 1)), 0);
    assert_eq!(date(2025, 1, 1).days_since(&date(2024, 1, 1)), 366);
}

#[test]
fn compact_writes_eight_digits() {
    assert_eq!(date(2024, 1, 31).compact(), "20240131");
    assert_eq!(date(987, 6, 5).compact(), "09870605");
    assert_eq!(date(1, 1, 1).compact(), "00010101");
    assert_eq!(date(9999, 12, 31).compact(), "99991231");
}
