use runner_manager::timestamp::{
    parse_validity, Timestamp, DEFAULT_VALIDITY, MAX_UNIX, MIN_UNIX,
};

fn chrono_text(secs: i64) -> String {
    chrono::DateTime::from_timestamp(secs, 0).unwrap().to_rfc3339()
}

fn system_now() -> i64 {
    std::time::SystemTime::now().duration_since(std::time::UNIX_EPOCH).unwrap().as_secs() as i64
}

// What the standard library reads as a 64-bit integer, times the unit, where
// both exist and the product fits; else the default.
fn expected_validity(setting: &str) -> i64 {
    let chars: Vec<char> = setting.chars().collect();
    if chars.len() < 3 {
        return 3600;
    }
    let number: String = chars[..chars.len() - 3].iter().collect();
    let unit: String = chars[chars.len() - 3..].iter().collect();
    let factor: i64 = match unit.as_str() {
        "sec" => 1,
        "min" => 60,
        "hrs" => 3600,
        "day" => 86400,
        _ => return 3600,
    };
    match number.parse::<i64>() {
        Ok(n) => n.checked_mul(factor).unwrap_or(3600),
        Err(_) => 3600,
    }
}

#[test]
fn the_epoch_is_written_as_rfc3339() {
    let epoch = Timestamp::from_unix(0);
    assert_eq!(epoch.unix(), 0);
    assert_eq!(epoch.to_string(), "1970-01-01T00:00:00+00:00");
    assert_eq!(epoch.time_str(), "1970-01-01T00:00:00+00:00");
}

#[test]
fn a_timestamp_is_written_as_its_date_and_not_as_its_number() {
    let t = Timestamp::from_unix(1431648000);
    assert_eq!(t.to_string(), "2015-05-15T00:00:00+00:00");
    assert_eq!(Timestamp::from_unix(1700000000).to_string(), "2023-11-14T22:13:20+00:00");
    assert_eq!(Timestamp::from_unix(-1).to_string(), "1969-12-31T23:59:59+00:00");
}

#[test]
fn the_text_is_the_one_that_chrono_writes() {
    for secs in [0, 1, -1, 59, 86399, 86400, 951782400, 1709251199, 253402300799, 253402300800, -62167219200, -62167219201, MIN_UNIX, MAX_UNIX] {
        let t = Timestamp::from_unix(secs);
        assert_eq!(t.unix(), secs);
        assert_eq!(t.to_string(), chrono_text(secs));
        assert_eq!(t.time_str(), chrono_text(secs));
    }
}

#[test]
fn the_representable_range_ends_where_chrono_ends() {
    assert!(Timestamp::checked_from_unix(MAX_UNIX).is_some());
    assert!(Timestamp::checked_from_unix(MAX_UNIX + 1).is_none());
    assert!(Timestamp::checked_from_unix(MIN_UNIX).is_some());
    assert!(Timestamp::checked_from_unix(MIN_UNIX - 1).is_none());
    assert!(Timestamp::checked_from_unix(i64::MAX).is_none());
    assert!(Timestamp::checked_from_unix(i64::MIN).is_none());
    assert!(chrono::DateTime::from_timestamp(MAX_UNIX, 0).is_some());
    assert!(chrono::DateTime::from_timestamp(MAX_UNIX + 1, 0).is_none());
    assert!(chrono::DateTime::from_timestamp(MIN_UNIX, 0).is_some());
    assert!(chrono::DateTime::from_timestamp(MIN_UNIX - 1, 0).is_none());
    assert_eq!(MAX_UNIX, 8_210_266_876_799);
    assert_eq!(MIN_UNIX, -8_334_601_228_800);
}

#[test]
fn the_ends_of_the_range_are_the_ends_of_their_years() {
    assert_eq!(Timestamp::from_unix(MAX_UNIX).to_string(), "+262142-12-31T23:59:59+00:00");
    assert_eq!(Timestamp::from_unix(MIN_UNIX).to_string(), "-262143-01-01T00:00:00+00:00");
}

#[test]
fn checked_from_unix_gives_the_same_value_as_from_unix() {
    let t = Timestamp::checked_from_unix(1700000000).unwrap();
    assert_eq!(t, Timestamp::from_unix(1700000000));
    assert_eq!(t.unix(), 1700000000);
    assert_ne!(t, Timestamp::from_unix(1700000001));
}

#[test]
fn new_adds_the_window_to_the_time() {
    let t = Timestamp::new(1000, 3600).unwrap();
    assert_eq!(t.unix(), 4600);
    assert_eq!(t.to_string(), chrono_text(4600));
    assert_eq!(Timestamp::new(1000, -3600).unwrap().unix(), -2600);
    assert_eq!(Timestamp::new(0, 0).unwrap().unix(), 0);
    assert_eq!(Timestamp::new(MAX_UNIX - 5, 5).unwrap().unix(), MAX_UNIX);
}

#[test]
fn new_refuses_what_is_no_date() {
    assert!(Timestamp::new(MAX_UNIX, 1).is_none());
    assert!(Timestamp::new(MIN_UNIX, -1).is_none());
    assert!(Timestamp::new(i64::MAX, 1).is_none());
    assert!(Timestamp::new(i64::MIN, -1).is_none());
    assert!(Timestamp::new(i64::MAX, i64::MAX).is_none());
    assert!(Timestamp::new(1, i64::MAX).is_none());
}

#[test]
fn new_counts_from_the_time_that_the_clock_shows() {
    let now = chrono::Utc::now().timestamp();
    assert!((now - system_now()).abs() <= 1);
    let t = Timestamp::new(now, 3600).unwrap();
    assert_eq!(t.unix(), now + 3600);
    assert_eq!(t.to_string(), chrono_text(now + 3600));
    assert_eq!(Timestamp::new(now, 0).unwrap().unix(), now);
}

#[test]
fn new_refuses_a_window_that_leads_out_of_the_range() {
    let now = chrono::Utc::now().timestamp();
    assert!(Timestamp::new(now, i64::MAX).is_none());
    assert!(Timestamp::new(now, MAX_UNIX).is_none());
    assert!(Timestamp::new(now, i64::MIN).is_none());
    assert!(Timestamp::new(now, MAX_UNIX - now).is_some());
    assert!(Timestamp::new(now, MAX_UNIX - now + 1).is_none());
}

#[test]
fn a_copy_of_a_timestamp_is_equal_to_it() {
    let t = Timestamp::from_unix(12345);
    let copy = t.clone();
    assert_eq!(copy, t);
    assert_eq!(copy.unix(), 12345);
    assert_eq!(copy.time_str(), t.time_str());
}

#[test]
fn sixty_minutes_are_an_hour() {
    assert_eq!(parse_validity("60min"), 3600);
    assert_eq!(DEFAULT_VALIDITY, 3600);
}

#[test]
fn each_unit_has_its_seconds() {
    assert_eq!(parse_validity("1sec"), 1);
    assert_eq!(parse_validity("90sec"), 90);
    assert_eq!(parse_validity("1min"), 60);
    assert_eq!(parse_validity("5min"), 300);
    assert_eq!(parse_validity("1hrs"), 3600);
    assert_eq!(parse_validity("2hrs"), 7200);
    assert_eq!(parse_validity("1day"), 86400);
    assert_eq!(parse_validity("3day"), 259200);
    assert_eq!(parse_validity("0sec"), 0);
}

#[test]
fn a_number_may_carry_a_sign_and_leading_zeros() {
    assert_eq!(parse_validity("+5min"), 300);
    assert_eq!(parse_validity("-5min"), -300);
    assert_eq!(parse_validity("007sec"), 7);
    assert_eq!(parse_validity("-0day"), 0);
}

#[test]
fn an_unknown_unit_gives_the_default() {
    assert_eq!(parse_validity("5MIN"), 3600);
    assert_eq!(parse_validity("5hour"), 3600);
    assert_eq!(parse_validity("10s"), 3600);
    assert_eq!(parse_validity("10secs"), 3600);
    assert_eq!(parse_validity("10 sec "), 3600);
    assert_eq!(parse_validity("7abc"), 3600);
}

#[test]
fn an_unreadable_number_gives_the_default() {
    assert_eq!(parse_validity("min"), 3600);
    assert_eq!(parse_validity("+min"), 3600);
    assert_eq!(parse_validity("-min"), 3600);
    assert_eq!(parse_validity("xxmin"), 3600);
    assert_eq!(parse_validity("5 min"), 3600);
    assert_eq!(parse_validity(" 5min"), 3600);
    assert_eq!(parse_validity("1.5hrs"), 3600);
    assert_eq!(parse_validity("--5sec"), 3600);
    assert_eq!(parse_validity("5-sec"), 3600);
    assert_eq!(parse_validity("٣sec"), 3600);
}

#[test]
fn a_setting_shorter_than_a_unit_gives_the_default() {
    assert_eq!(parse_validity(""), 3600);
    assert_eq!(parse_validity("5"), 3600);
    assert_eq!(parse_validity("60"), 3600);
    assert_eq!(parse_validity("é1"), 3600);
}

#[test]
fn the_largest_numbers_are_read_and_larger_ones_give_the_default() {
    assert_eq!(parse_validity("9223372036854775807sec"), i64::MAX);
    assert_eq!(parse_validity("-9223372036854775808sec"), i64::MIN);
    assert_eq!(parse_validity("9223372036854775808sec"), 3600);
    assert_eq!(parse_validity("-9223372036854775809sec"), 3600);
    assert_eq!(parse_validity("99999999999999999999999999999999999999999999sec"), 3600);
    assert_eq!(parse_validity("153722867280912930min"), 9223372036854775800);
    assert_eq!(parse_validity("153722867280912931min"), 3600);
    assert_eq!(parse_validity("9223372036854775807min"), 3600);
    assert_eq!(parse_validity("-9223372036854775808day"), 3600);
    assert_eq!(parse_validity("106751991167300day"), 9223372036854720000);
    assert_eq!(parse_validity("106751991167301day"), 3600);
}

#[test]
fn the_number_is_read_as_the_standard_library_reads_it() {
    let settings = [
        "60min", "1sec", "+1sec", "-1sec", "0001hrs", "12day", "", "a", "ab", "abc", "1abc",
        "sec", "+sec", "-sec", "+-1sec", "1_000sec", "0x10sec", "1e3sec", " 1sec", "1 sec",
        "9223372036854775807sec", "9223372036854775808sec", "-9223372036854775808sec",
        "-9223372036854775809sec", "18446744073709551616min", "00000000000000000000000001min",
        "１２sec", "12sêc", "é5min", "5mi", "+", "-",
    ];
    for setting in settings {
        assert_eq!(parse_validity(setting), expected_validity(setting), "{}", setting);
    }
}
