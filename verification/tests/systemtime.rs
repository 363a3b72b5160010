use datealgo::{
    datetime_to_systemtime, offset_to_secs, secs_to_offset, secs_to_systemtime,
    systemtime_to_datetime, systemtime_to_secs, RD_SECONDS_MAX, RD_SECONDS_MIN,
};
use std::time::{Duration, UNIX_EPOCH};

#[test]
fn systemtime_to_secs_examples() {
    assert_eq!(systemtime_to_secs(UNIX_EPOCH), Some((0, 0)));
    assert_eq!(systemtime_to_secs(UNIX_EPOCH + Duration::new(1, 0)), Some((1, 0)));
    assert_eq!(systemtime_to_secs(UNIX_EPOCH + Duration::new(0, 1)), Some((0, 1)));
    assert_eq!(systemtime_to_secs(UNIX_EPOCH - Duration::new(1, 0)), Some((-1, 0)));
    assert_eq!(systemtime_to_secs(UNIX_EPOCH - Duration::new(0, 1)), Some((-1, 999_999_999)));
}

#[test]
fn secs_to_systemtime_examples() {
    assert_eq!(secs_to_systemtime((0, 0)), Some(UNIX_EPOCH));
    assert_eq!(secs_to_systemtime((0, 1)), UNIX_EPOCH.checked_add(Duration::new(0, 1)));
    assert_eq!(secs_to_systemtime((1, 0)), UNIX_EPOCH.checked_add(Duration::new(1, 0)));
    assert_eq!(secs_to_systemtime((-1, 999_999_999)), UNIX_EPOCH.checked_sub(Duration::new(0, 1)));
    assert_eq!(secs_to_systemtime((-1, 0)), UNIX_EPOCH.checked_sub(Duration::new(1, 0)));
    assert_eq!(secs_to_systemtime((-2, 999_999_999)), UNIX_EPOCH.checked_sub(Duration::new(1, 1)));
}

#[test]
fn systemtime_to_datetime_examples() {
    assert_eq!(systemtime_to_datetime(UNIX_EPOCH), Some((1970, 1, 1, 0, 0, 0, 0)));
    assert_eq!(
        systemtime_to_datetime(UNIX_EPOCH + Duration::from_secs(1684574678)),
        Some((2023, 5, 20, 9, 24, 38, 0))
    );
    assert_eq!(
        systemtime_to_datetime(UNIX_EPOCH - Duration::from_secs(1)),
        Some((1969, 12, 31, 23, 59, 59, 0))
    );
    assert_eq!(
        systemtime_to_datetime(UNIX_EPOCH - Duration::new(0, 1)),
        Some((1969, 12, 31, 23, 59, 59, 999_999_999))
    );
}

#[test]
fn datetime_to_systemtime_examples() {
    assert_eq!(datetime_to_systemtime((1970, 1, 1, 0, 0, 0, 0)), Some(UNIX_EPOCH));
    assert_eq!(
        datetime_to_systemtime((1970, 1, 1, 0, 0, 1, 0)),
        UNIX_EPOCH.checked_add(Duration::new(1, 0))
    );
    assert_eq!(
        datetime_to_systemtime((2023, 5, 20, 9, 24, 38, 0)),
        UNIX_EPOCH.checked_add(Duration::from_secs(1684574678))
    );
    assert_eq!(
        datetime_to_systemtime((1969, 12, 31, 23, 59, 59, 999_999_999)),
        UNIX_EPOCH.checked_sub(Duration::new(0, 1))
    );
}

#[test]
fn every_supported_second_has_a_systemtime_here() {
    for secs in [RD_SECONDS_MIN, RD_SECONDS_MIN + 1, -1, 0, RD_SECONDS_MAX - 1, RD_SECONDS_MAX] {
        for nsecs in [0u32, 1, 999_999_999] {
            let st = secs_to_systemtime((secs, nsecs));
            assert!(st.is_some());
            assert_eq!(systemtime_to_secs(st.unwrap()), Some((secs, nsecs)));
        }
    }
    assert!(datetime_to_systemtime((-1467999, 1, 1, 0, 0, 0, 0)).is_some());
    assert!(datetime_to_systemtime((1471744, 12, 31, 23, 59, 59, 999_999_999)).is_some());
    assert_eq!(
        systemtime_to_datetime(secs_to_systemtime((RD_SECONDS_MAX, 999_999_999)).unwrap()),
        Some((1471744, 12, 31, 23, 59, 59, 999_999_999))
    );
    assert_eq!(
        systemtime_to_datetime(secs_to_systemtime((RD_SECONDS_MIN, 0)).unwrap()),
        Some((-1467999, 1, 1, 0, 0, 0, 0))
    );
}

#[test]
fn times_outside_the_supported_seconds_give_none() {
    let late = UNIX_EPOCH.checked_add(Duration::new(RD_SECONDS_MAX as u64 + 1, 0)).unwrap();
    assert_eq!(systemtime_to_secs(late), None);
    assert_eq!(systemtime_to_datetime(late), None);
    let early = UNIX_EPOCH.checked_sub(Duration::new((-RD_SECONDS_MIN) as u64, 1)).unwrap();
    assert_eq!(systemtime_to_secs(early), None);
    assert_eq!(systemtime_to_datetime(early), None);
}

#[test]
fn systemtime_round_trip() {
    for secs in [-1_000_000_000i64, -86401, -86400, -2, -1, 0, 1, 59, 86400, 1684574678] {
        for nsecs in [0u32, 1, 500_000_000, 999_999_999] {
            let st = secs_to_systemtime((secs, nsecs)).unwrap();
            assert_eq!(systemtime_to_secs(st), Some((secs, nsecs)));
        }
    }
}

#[test]
fn systemtime_reads_seconds_and_nanoseconds_apart() {
    let st = UNIX_EPOCH + Duration::new(7, 11);
    assert_eq!(systemtime_to_secs(st), Some((7, 11)));
    let st = UNIX_EPOCH - Duration::new(7, 11);
    assert_eq!(systemtime_to_secs(st), Some((-8, 999_999_989)));
    assert_eq!(
        secs_to_systemtime((7, 11)).unwrap().duration_since(UNIX_EPOCH).unwrap(),
        Duration::new(7, 11)
    );
    assert_eq!(
        UNIX_EPOCH.duration_since(secs_to_systemtime((-8, 999_999_989)).unwrap()).unwrap(),
        Duration::new(7, 11)
    );
}

#[test]
fn offset_to_secs_after_the_epoch() {
    assert_eq!(offset_to_secs((false, 0, 0)), Some((0, 0)));
    assert_eq!(offset_to_secs((false, 1, 0)), Some((1, 0)));
    assert_eq!(offset_to_secs((false, 0, 1)), Some((0, 1)));
    assert_eq!(offset_to_secs((false, 5, 999_999_999)), Some((5, 999_999_999)));
}

#[test]
fn offset_to_secs_before_the_epoch_borrows() {
    assert_eq!(offset_to_secs((true, 0, 0)), Some((0, 0)));
    assert_eq!(offset_to_secs((true, 1, 0)), Some((-1, 0)));
    assert_eq!(offset_to_secs((true, 0, 1)), Some((-1, 999_999_999)));
    assert_eq!(offset_to_secs((true, 1, 1)), Some((-2, 999_999_999)));
    assert_eq!(offset_to_secs((true, 1, 999_999_999)), Some((-2, 1)));
}

#[test]
fn offset_to_secs_at_the_ends_of_the_range() {
    let max = RD_SECONDS_MAX as u64;
    let min = (-RD_SECONDS_MIN) as u64;
    assert_eq!(offset_to_secs((false, max, 999_999_999)), Some((RD_SECONDS_MAX, 999_999_999)));
    assert_eq!(offset_to_secs((false, max + 1, 0)), None);
    assert_eq!(offset_to_secs((false, u64::MAX, 999_999_999)), None);
    assert_eq!(offset_to_secs((true, min, 0)), Some((RD_SECONDS_MIN, 0)));
    assert_eq!(offset_to_secs((true, min - 1, 1)), Some((RD_SECONDS_MIN, 999_999_999)));
    assert_eq!(offset_to_secs((true, min, 1)), None);
    assert_eq!(offset_to_secs((true, min + 1, 0)), None);
    assert_eq!(offset_to_secs((true, u64::MAX, 999_999_999)), None);
}

#[test]
fn secs_to_offset_examples() {
    assert_eq!(secs_to_offset((0, 0)), (false, 0, 0));
    assert_eq!(secs_to_offset((0, 1)), (false, 0, 1));
    assert_eq!(secs_to_offset((1, 0)), (false, 1, 0));
    assert_eq!(secs_to_offset((-1, 999_999_999)), (true, 0, 1));
    assert_eq!(secs_to_offset((-1, 0)), (true, 1, 0));
    assert_eq!(secs_to_offset((-2, 999_999_999)), (true, 1, 1));
    assert_eq!(secs_to_offset((-2, 1)), (true, 1, 999_999_999));
    assert_eq!(secs_to_offset((RD_SECONDS_MAX, 999_999_999)), (false, RD_SECONDS_MAX as u64, 999_999_999));
    assert_eq!(secs_to_offset((RD_SECONDS_MIN, 0)), (true, (-RD_SECONDS_MIN) as u64, 0));
}

#[test]
fn offset_round_trip() {
    for secs in [RD_SECONDS_MIN, -86400, -2, -1, 0, 1, 86400, RD_SECONDS_MAX] {
        for nsecs in [0u32, 1, 500_000_000, 999_999_999] {
            let (before, s, n) = secs_to_offset((secs, nsecs));
            assert_eq!(before, secs < 0);
            assert!(n <= 999_999_999);
            assert_eq!(offset_to_secs((before, s, n)), Some((secs, nsecs)));
        }
    }
}

#[test]
fn secs_to_systemtime_keeps_the_side_of_the_epoch() {
    for nsecs in [0u32, 1, 999_999_999] {
        for secs in [0i64, 1, 86400, 1684574678, RD_SECONDS_MAX] {
            let st = secs_to_systemtime((secs, nsecs)).unwrap();
            assert!(st >= UNIX_EPOCH);
            assert!(st.duration_since(UNIX_EPOCH).is_ok());
        }
        for secs in [-1i64, -2, -86400, RD_SECONDS_MIN] {
            let st = secs_to_systemtime((secs, nsecs)).unwrap();
            assert!(st < UNIX_EPOCH);
            assert!(st.duration_since(UNIX_EPOCH).is_err());
        }
    }
    assert_eq!(secs_to_systemtime((0, 0)), Some(UNIX_EPOCH));
}

#[test]
fn datetime_to_systemtime_keeps_the_side_of_the_epoch() {
    assert!(datetime_to_systemtime((1970, 1, 1, 0, 0, 0, 1)).unwrap() > UNIX_EPOCH);
    assert!(datetime_to_systemtime((2023, 5, 20, 9, 24, 38, 0)).unwrap() > UNIX_EPOCH);
    assert!(datetime_to_systemtime((1969, 12, 31, 23, 59, 59, 999_999_999)).unwrap() < UNIX_EPOCH);
    assert!(datetime_to_systemtime((1, 1, 1, 0, 0, 0, 0)).unwrap() < UNIX_EPOCH);
    assert_eq!(
        datetime_to_systemtime((1969, 12, 31, 0, 0, 0, 0)),
        UNIX_EPOCH.checked_sub(Duration::from_secs(86400))
    );
}
