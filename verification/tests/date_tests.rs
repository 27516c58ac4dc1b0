use wallet_lib::date::{Date, DateError};

#[test]
fn test_new_date() {
    Date::new();
}

#[test]
fn test_date_to_string() {
    let d1 = Date::new();
    assert_eq!("", d1.ymd());
}

#[test]
fn test_date_has() {
    let d1 = Date::new();
    assert!(!d1.has_year());
}

#[test]
fn test_date_set() {
    let mut d1 = Date::new();

    d1.set_year(2019);
    assert!(d1.has_year());
    assert!(!d1.has_month());
    assert!(!d1.has_day());
    assert_eq!("2019", d1.ymd());

    d1.set_month(12);
    assert!(d1.has_year());
    assert!(d1.has_month());
    assert!(!d1.has_day());
    assert_eq!("2019-12", d1.ymd());

    d1.set_day(31);
    assert!(d1.has_year());
    assert!(d1.has_month());
    assert!(d1.has_day());
    assert_eq!("2019-12-31", d1.ymd());
}

#[test]
fn test_date_eq_ymd() {
    let d1 = Date::from_str("1987-02-21").unwrap();
    let d2 = Date::from_str("1987-02-21").unwrap();
    assert!(d1 == d2);
}

#[test]
fn test_date_eq_ym() {
    let d1 = Date::from_str("1987-02").unwrap();
    let d2 = Date::from_str("1987-02").unwrap();
    assert!(d1 == d2);
}

#[test]
fn test_date_eq_y() {
    let d1 = Date::from_str("1987").unwrap();
    let d2 = Date::from_str("1987").unwrap();
    assert!(d1 == d2);
}

#[test]
fn test_date_neq_ymd() {
    let d1 = Date::from_str("1987-02-21").unwrap();
    let d2 = Date::from_str("1987-02-22").unwrap();
    assert!(d1 != d2);
}

#[test]
fn test_date_neq_ym() {
    let d1 = Date::from_str("1987-02").unwrap();
    let d2 = Date::from_str("1987-03").unwrap();
    assert!(d1 != d2);
}

#[test]
fn test_date_neq_y() {
    let d1 = Date::from_str("1987").unwrap();
    let d2 = Date::from_str("1988").unwrap();
    assert!(d1 != d2);
}

#[test]
fn test_date_from_str_ok1() {
    let d1 = Date::from_str("1987-02-21").unwrap();
    assert_eq!(1987, d1.year());
    assert_eq!(2, d1.month());
    assert_eq!(21, d1.day());
    assert!(d1.has_year());
    assert!(d1.has_month());
    assert!(d1.has_day());
    assert_eq!("1987-02-21", d1.ymd());
    assert_eq!("1987-02", d1.ym());
    assert_eq!("1987_02", d1.fym("_"));
}

#[test]
fn test_date_from_str_ok2() {
    let d1 = Date::from_str("1987-02").unwrap();
    assert_eq!(1987, d1.year());
    assert_eq!(2, d1.month());
    assert_eq!(1, d1.day());
    assert!(d1.has_year());
    assert!(d1.has_month());
    assert!(!d1.has_day());
    assert_eq!("1987-02", d1.ymd());
    assert_eq!("1987-02", d1.ym());
}

#[test]
fn test_date_from_str_ok3() {
    let d1 = Date::from_str("19-2-23").unwrap();
    assert_eq!(2019, d1.year());
    assert_eq!(2, d1.month());
    assert_eq!(23, d1.day());
    assert!(d1.has_year());
    assert!(d1.has_month());
    assert!(d1.has_day());
    assert_eq!("2019-02-23", d1.ymd());
}

#[test]
fn test_date_from_str_ok4() {
    let d1 = Date::from_str("1987").unwrap();
    assert_eq!(1987, d1.year());
    assert_eq!(1, d1.month());
    assert_eq!(1, d1.day());
    assert!(d1.has_year());
    assert!(!d1.has_month());
    assert!(!d1.has_day());
    assert_eq!("1987", d1.ymd());
    assert_eq!("1987", d1.ym());
}

#[test]
fn test_date_from_str_ok5() {
    let d1 = Date::from_str("21.2.1987").unwrap();
    assert_eq!(1987, d1.year());
    assert_eq!(2, d1.month());
    assert_eq!(21, d1.day());
    assert!(d1.has_year());
    assert!(d1.has_month());
    assert!(d1.has_day());
    assert_eq!("1987-02-21", d1.ymd());
    assert_eq!("1987-02", d1.ym());
}

#[test]
fn test_date_from_str_ok6() {
    let d1 = Date::from_str("21.2").unwrap();
    assert_eq!(1970, d1.year());
    assert_eq!(2, d1.month());
    assert_eq!(21, d1.day());
    assert!(!d1.has_year());
    assert!(d1.has_month());
    assert!(d1.has_day());
    assert_eq!("02-21", d1.ymd());
    assert_eq!("02", d1.ym());
}

#[test]
fn test_date_from_str_ok7() {
    let d1 = Date::from_str("2/21/1987").unwrap();
    assert_eq!(1987, d1.year());
    assert_eq!(2, d1.month());
    assert_eq!(21, d1.day());
    assert!(d1.has_year());
    assert!(d1.has_month());
    assert!(d1.has_day());
    assert_eq!("1987-02-21", d1.ymd());
    assert_eq!("1987-02", d1.ym());
}

#[test]
fn test_date_from_str_ok8() {
    let d1 = Date::from_str("2/21").unwrap();
    assert_eq!(1970, d1.year());
    assert_eq!(2, d1.month());
    assert_eq!(21, d1.day());
    assert!(!d1.has_year());
    assert!(d1.has_month());
    assert!(d1.has_day());
    assert_eq!("02-21", d1.ymd());
    assert_eq!("02", d1.ym());
}

#[test]
fn test_date_from_str_ok9() {
    let d1 = Date::from_str("1987/2/21").unwrap();
    assert_eq!(1987, d1.year());
    assert_eq!(2, d1.month());
    assert_eq!(21, d1.day());
    assert!(d1.has_year());
    assert!(d1.has_month());
    assert!(d1.has_day());
    assert_eq!("1987-02-21", d1.ymd());
    assert_eq!("1987-02", d1.ym());
}

#[test]
fn test_date_from_str_bad1() {
    let d1 = Date::from_str("x");
    assert!(match d1 {
        Err(DateError::InvalidDate) => true,
        _ => false,
    });
}

#[test]
fn test_date_from_trait_ok1() {
    let d1 = Date::from_str("1987-02-21").unwrap();
    assert_eq!("1987-02-21", d1.ymd());
}

#[test]
fn test_date_from_trait_ok2() {
    let d1 = Date::from_str(&"1987-02-21".to_string()).unwrap();
    assert_eq!("1987-02-21", d1.ymd());
}

#[test]
fn test_date_invalid_calendar() {
    assert!(Date::from_str("2019-13-05").is_err());
    assert!(Date::from_str("2019-02-30").is_err());
    assert!(Date::from_str("2020-02-29").is_ok());
    assert!(Date::from_str("2019-02-29").is_err());
}

#[test]
fn test_date_fill_families() {
    let mut d1 = Date::from_str("1987-02").unwrap();
    d1.fill(2024, 7, 15);
    assert_eq!(1987, d1.year());
    assert_eq!(2, d1.month());
    assert_eq!(15, d1.day());
    assert!(d1.has_year() && d1.has_month() && d1.has_day());

    let mut d2 = Date::from_str("1987-02").unwrap();
    d2.fill_raw(2024, 7, 15);
    assert_eq!(15, d2.day());
    assert!(d2.has_year() && d2.has_month() && !d2.has_day());
}

#[test]
fn test_date_fmonth() {
    let d1 = Date::from_str("1987-2-3").unwrap();
    assert_eq!("02", d1.fmonth());
    assert_eq!("1987_02", d1.rym());
}
