use cashio::date::CivilDate;
use cashio::evaluate::get_time;
use cashio::mapper::{arg_to_cents, arg_to_time, cents_to_text, resolve_day, InputError};
use chrono::{Datelike, Local};

fn today() -> CivilDate {
    let now = Local::now().date_naive();
    CivilDate { year: now.year(), month: now.month(), day: now.day() }
}

fn fixed_day() -> CivilDate {
    CivilDate { year: 2024, month: 2, day: 10 }
}

#[test]
fn evaluate_test_get_time_dd_mm_yy() {
    let t = today();
    assert!(get_time("2001-07-08", t).is_ok());
    assert!(get_time("2003-3-23", t).is_ok());
    assert!(get_time("3-Jul-2011", t).is_ok());
    assert!(get_time("13-Jul-2011", t).is_ok());
    assert!(get_time("05/06/2038", t).is_ok());

    assert!(get_time("13/06/2038", t).is_err());
    assert!(get_time("13/06/88", t).is_err());
    assert!(get_time("2011-Jul-3", t).is_err());
    assert!(get_time("2003-3-32", t).is_err());
}

#[test]
fn evaluate_test_get_time_dd_mm() {
    let t = today();
    assert!(get_time("05-04", t).is_ok());
    assert!(get_time("12/23", t).is_ok());
    assert!(get_time("12/33", t).is_err());
    assert!(get_time("0-0", t).is_err());

    let t0 = get_time("12/23", t).unwrap();
    let y = Local::now().year();
    assert_eq!(t0.year, y);
}

#[test]
fn evaluate_test_get_time_dd() {
    let t = today();
    assert!(get_time("1", t).is_ok());
    assert!(get_time("01", t).is_ok());
    assert!(get_time("21", t).is_ok());
    assert!(get_time("32", t).is_err());

    let t0 = get_time("3", t).unwrap();
    let now = Local::now();
    let (y, m) = (now.year(), now.month());
    assert_eq!((t0.year, t0.month), (y, m));
}

#[test]
fn mapper_test_get_time_dd_mm_yy() {
    let t = today();
    assert!(arg_to_time("2001-07-08", t).is_ok());
    assert!(arg_to_time("2003-3-23", t).is_ok());
    assert!(arg_to_time("3-Jul-2011", t).is_ok());
    assert!(arg_to_time("13-Jul-2011", t).is_ok());
    assert!(arg_to_time("05/06/2038", t).is_ok());

    assert!(arg_to_time("13/06/2038", t).is_err());
    assert!(arg_to_time("13/06/88", t).is_err());
    assert!(arg_to_time("2011-Jul-3", t).is_err());
    assert!(arg_to_time("2003-3-32", t).is_err());
}

#[test]
fn mapper_test_get_time_dd_mm() {
    let t = today();
    assert!(arg_to_time("05-04", t).is_ok());
    assert!(arg_to_time("12/23", t).is_ok());
    assert!(arg_to_time("12/33", t).is_err());
    assert!(arg_to_time("0-0", t).is_err());

    let t0 = arg_to_time("12/23", t).unwrap();
    let y = Local::now().year();
    assert_eq!(t0.year, y);
}

#[test]
fn mapper_test_get_time_dd() {
    let t = today();
    assert!(arg_to_time("1", t).is_ok());
    assert!(arg_to_time("01", t).is_ok());
    assert!(arg_to_time("21", t).is_ok());
    assert!(arg_to_time("32", t).is_err());

    let t0 = arg_to_time("3", t).unwrap();
    let now = Local::now();
    let (y, m) = (now.year(), now.month());
    assert_eq!((t0.year, t0.month), (y, m));
}

#[test]
fn test_get_cents() {
    assert!(arg_to_cents("10.03").is_ok());
    assert!(arg_to_cents("10").is_ok());
    assert!(arg_to_cents("-10.9").is_ok());
    assert!(arg_to_cents("10.011").is_err());

    assert_eq!(1003, arg_to_cents("10.03").unwrap());
    assert_eq!(1000, arg_to_cents("10").unwrap());
    assert_eq!(-1090, arg_to_cents("-10.9").unwrap());
}

#[test]
fn amounts_round_trip_on_examples() {
    assert_eq!(arg_to_cents("0.5"), Ok(50));
    assert_eq!(arg_to_cents("7.05"), Ok(705));
    assert_eq!(arg_to_cents("-3.25"), Ok(-325));
    assert_eq!(arg_to_cents("+4.1"), Ok(410));
    assert_eq!(arg_to_cents("-0.5"), Ok(-50));
    assert_eq!(arg_to_cents("123"), Ok(12300));
}

#[test]
fn amount_with_three_fraction_digits_is_a_validation_error() {
    assert_eq!(arg_to_cents("10.011"), Err(InputError::Validation));
}

#[test]
fn malformed_amounts_are_parse_errors() {
    assert_eq!(arg_to_cents(""), Err(InputError::Parse));
    assert_eq!(arg_to_cents(".5"), Err(InputError::Parse));
    assert_eq!(arg_to_cents("-"), Err(InputError::Parse));
    assert_eq!(arg_to_cents("10."), Err(InputError::Parse));
    assert_eq!(arg_to_cents("1.2.3"), Err(InputError::Parse));
    assert_eq!(arg_to_cents("1a.5"), Err(InputError::Parse));
    assert_eq!(arg_to_cents("1.x"), Err(InputError::Parse));
    assert_eq!(arg_to_cents("$10"), Err(InputError::Parse));
}

#[test]
fn amounts_at_the_edges_of_the_range() {
    assert_eq!(arg_to_cents("21474836.47"), Ok(i32::MAX));
    assert_eq!(arg_to_cents("-21474836.48"), Ok(i32::MIN));
    assert_eq!(arg_to_cents("21474836.48"), Err(InputError::Overflow));
    assert_eq!(arg_to_cents("-21474836.49"), Err(InputError::Overflow));
    assert_eq!(arg_to_cents("99999999999999999999"), Err(InputError::Overflow));
}

#[test]
fn iso_date_resolves_to_itself_whatever_today() {
    let expected = CivilDate { year: 2001, month: 7, day: 8 };
    assert_eq!(arg_to_time("2001-07-08", today()), Ok(expected));
    assert_eq!(arg_to_time("2001-07-08", fixed_day()), Ok(expected));
}

#[test]
fn day_month_name_year_forms() {
    let t = fixed_day();
    assert_eq!(arg_to_time("3-Jul-2011", t), Ok(CivilDate { year: 2011, month: 7, day: 3 }));
    assert_eq!(arg_to_time("13-Jul-2011", t), Ok(CivilDate { year: 2011, month: 7, day: 13 }));
    assert_eq!(arg_to_time("13/06/2038", t), Err(InputError::Parse));
    assert_eq!(arg_to_time("13/06/88", t), Err(InputError::Parse));
    assert_eq!(arg_to_time("05/06/2038", t), Ok(CivilDate { year: 2038, month: 5, day: 6 }));
}

#[test]
fn month_and_day_take_the_current_year() {
    let t = fixed_day();
    assert_eq!(arg_to_time("12/23", t), Ok(CivilDate { year: 2024, month: 12, day: 23 }));
    assert_eq!(arg_to_time("05-04", t), Ok(CivilDate { year: 2024, month: 5, day: 4 }));
}

#[test]
fn bare_day_takes_the_current_year_and_month() {
    let t = fixed_day();
    assert_eq!(arg_to_time("21", t), Ok(CivilDate { year: 2024, month: 2, day: 21 }));
    assert_eq!(arg_to_time("32", t), Err(InputError::Parse));
    assert_eq!(resolve_day("29", t), Ok(CivilDate { year: 2024, month: 2, day: 29 }));
    assert_eq!(resolve_day("30", t), Err(InputError::Parse));
    assert_eq!(resolve_day("+7", t), Ok(CivilDate { year: 2024, month: 2, day: 7 }));
    assert_eq!(resolve_day("0", t), Err(InputError::Parse));
    let t2023 = CivilDate { year: 2023, month: 2, day: 1 };
    assert_eq!(resolve_day("29", t2023), Err(InputError::Parse));
}

#[test]
fn calendar_order_compares_fields() {
    let a = CivilDate { year: 2024, month: 2, day: 10 };
    let b = CivilDate { year: 2024, month: 3, day: 1 };
    assert!(a.is_on_or_before(&b));
    assert!(!b.is_on_or_before(&a));
    assert!(a.is_on_or_before(&a));
}

#[test]
fn cents_are_written_with_two_decimals() {
    assert_eq!(cents_to_text(-1090), "-10.90");
    assert_eq!(cents_to_text(1003), "10.03");
    assert_eq!(cents_to_text(5), "0.05");
    assert_eq!(cents_to_text(-50), "-0.50");
    assert_eq!(cents_to_text(0), "0.00");
    assert_eq!(cents_to_text(i32::MIN), "-21474836.48");
}

#[test]
fn written_cents_read_back() {
    for c in [0, 1, -1, 99, -100, 123456, i32::MAX, i32::MIN] {
        assert_eq!(arg_to_cents(&cents_to_text(c)), Ok(c));
    }
}
