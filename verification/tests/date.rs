use datealgo::{
    date_to_rd, days_in_month, is_leap_year, next_date, prev_date, rd_to_date, RD_MAX, RD_MIN,
    YEAR_MAX, YEAR_MIN,
};

#[test]
fn date_to_rd_known_days() {
    assert_eq!(date_to_rd((2023, 5, 12)), 19489);
    assert_eq!(date_to_rd((1970, 1, 1)), 0);
    assert_eq!(date_to_rd((0, 1, 1)), -719528);
    assert_eq!(date_to_rd((9999, 12, 31)), 2932896);
    assert_eq!(date_to_rd((129999, 12, 31)), 46761996);
    assert_eq!(date_to_rd((-129999, 1, 1)), -48200687);
}

#[test]
fn rd_to_date_known_days() {
    assert_eq!(rd_to_date(-719528), (0, 1, 1));
    assert_eq!(rd_to_date(0), (1970, 1, 1));
    assert_eq!(rd_to_date(19489), (2023, 5, 12));
    assert_eq!(rd_to_date(2932896), (9999, 12, 31));
    assert_eq!(rd_to_date(46761996), (129999, 12, 31));
    assert_eq!(rd_to_date(-48200687), (-129999, 1, 1));
}

#[test]
fn range_constants_are_the_first_and_last_day() {
    assert_eq!(RD_MIN, -536895152);
    assert_eq!(RD_MAX, 536824295);
    assert_eq!(date_to_rd((YEAR_MIN, 1, 1)), RD_MIN);
    assert_eq!(date_to_rd((YEAR_MAX, 12, 31)), RD_MAX);
    assert_eq!(rd_to_date(RD_MIN), (YEAR_MIN, 1, 1));
    assert_eq!(rd_to_date(RD_MAX), (YEAR_MAX, 12, 31));
}

#[test]
fn rd_round_trip_over_the_range() {
    let mut n: i64 = RD_MIN as i64;
    while n <= RD_MAX as i64 {
        let rd = n as i32;
        let (y, m, d) = rd_to_date(rd);
        assert!(y >= YEAR_MIN && y <= YEAR_MAX);
        assert!(m >= 1 && m <= 12);
        assert!(d >= 1 && d <= days_in_month(y, m));
        assert_eq!(date_to_rd((y, m, d)), rd);
        n += 104_729;
    }
}

#[test]
fn rd_round_trip_around_the_epoch() {
    for rd in -800_000..800_000 {
        assert_eq!(date_to_rd(rd_to_date(rd)), rd);
    }
}

#[test]
fn date_round_trip_over_four_centuries() {
    let mut expected = date_to_rd((1800, 1, 1));
    for y in 1800..2200 {
        for m in 1..=12u8 {
            for d in 1..=days_in_month(y, m) {
                let rd = date_to_rd((y, m, d));
                assert_eq!(rd, expected);
                assert_eq!(rd_to_date(rd), (y, m, d));
                expected += 1;
            }
        }
    }
}

#[test]
fn date_round_trip_at_the_ends_of_the_range() {
    for y in [YEAR_MIN, YEAR_MIN + 1, -1, 0, 1, YEAR_MAX - 1, YEAR_MAX] {
        for m in 1..=12u8 {
            for d in 1..=days_in_month(y, m) {
                let rd = date_to_rd((y, m, d));
                assert!(rd >= RD_MIN && rd <= RD_MAX);
                assert_eq!(rd_to_date(rd), (y, m, d));
            }
        }
    }
}

#[test]
fn leap_day_and_its_neighbours() {
    assert_eq!(date_to_rd((2024, 2, 29)), date_to_rd((2024, 2, 28)) + 1);
    assert_eq!(date_to_rd((2024, 3, 1)), date_to_rd((2024, 2, 29)) + 1);
    assert_eq!(date_to_rd((2023, 3, 1)), date_to_rd((2023, 2, 28)) + 1);
    assert_eq!(date_to_rd((2000, 2, 29)), 11016);
    assert_eq!(rd_to_date(11016), (2000, 2, 29));
    assert_eq!(rd_to_date(11017), (2000, 3, 1));
    assert_eq!(date_to_rd((2100, 3, 1)), date_to_rd((2100, 2, 28)) + 1);
}

#[test]
fn is_leap_year_examples() {
    assert_eq!(is_leap_year(2023), false);
    assert_eq!(is_leap_year(2024), true);
    assert_eq!(is_leap_year(2100), false);
    assert_eq!(is_leap_year(2400), true);
}

#[test]
fn is_leap_year_follows_the_gregorian_rule() {
    for y in -2000..4000 {
        let expected = y % 4 == 0 && (y % 100 != 0 || y % 400 == 0);
        assert_eq!(is_leap_year(y), expected, "year {}", y);
    }
    assert_eq!(is_leap_year(0), true);
    assert_eq!(is_leap_year(-4), true);
    assert_eq!(is_leap_year(-100), false);
    assert_eq!(is_leap_year(-400), true);
    assert_eq!(is_leap_year(YEAR_MIN), false);
    assert_eq!(is_leap_year(YEAR_MAX), true);
}

#[test]
fn days_in_month_examples() {
    assert_eq!(days_in_month(2023, 1), 31);
    assert_eq!(days_in_month(2023, 2), 28);
    assert_eq!(days_in_month(2023, 4), 30);
    assert_eq!(days_in_month(2024, 1), 31);
    assert_eq!(days_in_month(2024, 2), 29);
    assert_eq!(days_in_month(2024, 4), 30);
}

#[test]
fn days_in_month_of_every_month() {
    let common = [31u8, 28, 31, 30, 31, 30, 31, 31, 30, 31, 30, 31];
    for m in 1..=12u8 {
        assert_eq!(days_in_month(2023, m), common[m as usize - 1]);
        let leap = if m == 2 { 29 } else { common[m as usize - 1] };
        assert_eq!(days_in_month(2024, m), leap);
    }
    assert_eq!(days_in_month(1900, 2), 28);
    assert_eq!(days_in_month(2000, 2), 29);
}

#[test]
fn next_date_examples() {
    assert_eq!(next_date((2023, 5, 12)), (2023, 5, 13));
    assert_eq!(next_date((1970, 1, 1)), (1970, 1, 2));
    assert_eq!(next_date((2023, 1, 31)), (2023, 2, 1));
    assert_eq!(next_date((2023, 12, 31)), (2024, 1, 1));
}

#[test]
fn next_date_around_february() {
    assert_eq!(next_date((2023, 2, 28)), (2023, 3, 1));
    assert_eq!(next_date((2024, 2, 28)), (2024, 2, 29));
    assert_eq!(next_date((2024, 2, 29)), (2024, 3, 1));
    assert_eq!(next_date((2023, 4, 30)), (2023, 5, 1));
    assert_eq!(next_date((YEAR_MAX, 12, 30)), (YEAR_MAX, 12, 31));
}

#[test]
fn prev_date_examples() {
    assert_eq!(prev_date((2023, 5, 12)), (2023, 5, 11));
    assert_eq!(prev_date((1970, 1, 1)), (1969, 12, 31));
    assert_eq!(prev_date((2023, 2, 1)), (2023, 1, 31));
    assert_eq!(prev_date((2024, 1, 1)), (2023, 12, 31));
}

#[test]
fn prev_date_around_february() {
    assert_eq!(prev_date((2023, 3, 1)), (2023, 2, 28));
    assert_eq!(prev_date((2024, 3, 1)), (2024, 2, 29));
    assert_eq!(prev_date((2024, 2, 29)), (2024, 2, 28));
    assert_eq!(prev_date((2023, 5, 1)), (2023, 4, 30));
    assert_eq!(prev_date((YEAR_MIN, 1, 2)), (YEAR_MIN, 1, 1));
}

#[test]
fn next_date_advances_by_one_day() {
    let mut date = (1995, 1, 1);
    let end = (2005, 1, 1);
    while date != end {
        let next = next_date(date);
        assert_eq!(date_to_rd(next), date_to_rd(date) + 1);
        assert_eq!(prev_date(next), date);
        date = next;
    }
}

#[test]
fn prev_date_retreats_by_one_day() {
    let mut date = (1905, 1, 1);
    let end = (1895, 1, 1);
    while date != end {
        let prev = prev_date(date);
        assert_eq!(date_to_rd(prev), date_to_rd(date) - 1);
        assert_eq!(next_date(prev), date);
        date = prev;
    }
}
