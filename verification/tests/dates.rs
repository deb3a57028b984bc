use visit_once::date::{
    date_of_day_number, day_number_of_date, leap_year, month_length, timestamp_day, Date,
};

#[test]
fn timestamp_truncates_to_day() {
    assert_eq!(timestamp_day(0), 0);
    assert_eq!(timestamp_day(86399), 0);
    assert_eq!(timestamp_day(86400), 1);
    assert_eq!(timestamp_day(19723 * 86400 + 12 * 3600), 19723);
}

#[test]
fn leap_year_rule() {
    assert!(leap_year(1972));
    assert!(leap_year(2000));
    assert!(leap_year(2024));
    assert!(!leap_year(1900));
    assert!(!leap_year(2023));
    assert!(!leap_year(2100));
}

#[test]
fn month_lengths() {
    assert_eq!(month_length(2023, 2), 28);
    assert_eq!(month_length(2024, 2), 29);
    assert_eq!(month_length(2024, 1), 31);
    assert_eq!(month_length(2024, 4), 30);
    assert_eq!(month_length(2024, 12), 31);
}

#[test]
fn day_numbers_of_known_dates() {
    assert_eq!(day_number_of_date(&Date { year: 1970, month: 1, day: 1 }), 0);
    assert_eq!(day_number_of_date(&Date { year: 1970, month: 2, day: 1 }), 31);
    assert_eq!(day_number_of_date(&Date { year: 1972, month: 3, day: 1 }), 790);
    assert_eq!(day_number_of_date(&Date { year: 2024, month: 1, day: 1 }), 19723);
    assert_eq!(day_number_of_date(&Date { year: 2024, month: 1, day: 2 }), 19724);
}

#[test]
fn dates_of_known_day_numbers() {
    assert_eq!(date_of_day_number(0), Date { year: 1970, month: 1, day: 1 });
    assert_eq!(date_of_day_number(31), Date { year: 1970, month: 2, day: 1 });
    assert_eq!(date_of_day_number(790), Date { year: 1972, month: 3, day: 1 });
    assert_eq!(date_of_day_number(19723), Date { year: 2024, month: 1, day: 1 });
    assert_eq!(date_of_day_number(19724), Date { year: 2024, month: 1, day: 2 });
}

#[test]
fn day_number_round_trip() {
    for n in [0u64, 58, 365, 366, 730, 790, 19723, 20000, 100000] {
        let d = date_of_day_number(n);
        assert_eq!(day_number_of_date(&d), n);
    }
}
