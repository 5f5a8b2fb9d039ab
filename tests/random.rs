use anon::random::{
    random_bigint, random_bigint_between, random_date, random_date_after, random_date_before,
    random_date_between, random_in_daterange, random_in_int4range, random_in_int8range,
    random_in_tsrange, random_in_tstzrange, random_int, random_int_between, random_number_with_format,
    random_phone, random_phone_with_format, random_string, random_time, random_zip, Bound, IntRange,
    TIMESTAMP_MAX, TIMESTAMP_MIN, USECS_PER_DAY,
};

fn half_open(lo: i64, hi: i64) -> IntRange {
    IntRange { lower: Bound::Inclusive(lo), upper: Bound::Exclusive(hi) }
}

#[test]
fn empty_integer_range_gives_none() {
    assert_eq!(random_in_int8range(&half_open(5, 5)), None);
    assert_eq!(random_in_int4range(&half_open(5, 5)), None);
    assert_eq!(random_in_int8range(&half_open(6, 5)), None);
    let open = IntRange { lower: Bound::Exclusive(5), upper: Bound::Exclusive(6) };
    assert_eq!(random_in_int8range(&open), None);
}

#[test]
fn single_value_range_gives_that_value() {
    for _ in 0..50 {
        assert_eq!(random_in_int8range(&half_open(5, 6)), Some(5));
        assert_eq!(random_in_int4range(&half_open(5, 6)), Some(5));
    }
    let closed = IntRange { lower: Bound::Exclusive(4), upper: Bound::Inclusive(5) };
    assert_eq!(random_in_int8range(&closed), Some(5));
}

#[test]
fn draws_stay_in_bounds() {
    for _ in 0..200 {
        let v = random_in_int8range(&half_open(-3, 4)).unwrap();
        assert!((-3..4).contains(&v));
        let w = random_bigint_between(10, 12).unwrap();
        assert!((10..=12).contains(&w));
        let x = random_int_between(-2, 2).unwrap();
        assert!((-2..=2).contains(&x));
    }
    assert_eq!(random_bigint_between(7, 7), Some(7));
    assert_eq!(random_int_between(3, 2), None);
    assert_eq!(random_bigint_between(i64::MAX, i64::MAX), Some(i64::MAX));
    assert!(random_bigint().unwrap() < i64::MAX);
    assert!(random_int().unwrap() < i32::MAX);
}

#[test]
fn unbounded_ranges_use_the_whole_domain() {
    let all = IntRange { lower: Bound::Unbounded, upper: Bound::Unbounded };
    assert!(random_in_int8range(&all).is_some());
    assert!(random_in_int4range(&all).is_some());
    let below = IntRange { lower: Bound::Unbounded, upper: Bound::Exclusive(i32::MIN as i64) };
    assert_eq!(random_in_int4range(&below), None);
    let above = IntRange { lower: Bound::Inclusive(i32::MAX as i64), upper: Bound::Unbounded };
    assert_eq!(random_in_int4range(&above), Some(i32::MAX));
}

#[test]
fn zip_is_five_digits() {
    for _ in 0..20 {
        let z = random_zip();
        assert_eq!(z.chars().count(), 5);
        assert!(z.chars().all(|c| c.is_ascii_digit()));
    }
}

#[test]
fn format_keeps_other_characters() {
    let p = random_phone();
    assert_eq!(p.len(), 10);
    assert!(p.starts_with('0'));
    assert!(p.chars().all(|c| c.is_ascii_digit()));
    let f = random_number_with_format("+33 ^#-##");
    assert_eq!(f.chars().count(), 9);
    let cs: Vec<char> = f.chars().collect();
    assert_eq!(&cs[0..4], &['+', '3', '3', ' ']);
    assert!(('1'..='9').contains(&cs[4]));
    assert!(cs[5].is_ascii_digit());
    assert_eq!(cs[6], '-');
    assert_eq!(random_phone_with_format("abc"), "abc");
}

#[test]
fn random_string_length_in_range() {
    for _ in 0..20 {
        let s = random_string(&half_open(3, 6)).unwrap();
        assert!((3..6).contains(&s.len()));
        assert!(s.chars().all(|c| c.is_ascii_alphanumeric()));
    }
    assert_eq!(random_string(&half_open(4, 5)).unwrap().len(), 4);
    assert_eq!(random_string(&half_open(-5, 0)), None);
}

#[test]
fn dates_and_times_stay_in_bounds() {
    let t = random_date();
    assert!((TIMESTAMP_MIN..=TIMESTAMP_MAX).contains(&t));
    let tod = random_time();
    assert!((0..=USECS_PER_DAY).contains(&tod));
    assert_eq!(random_date_between(100, 100), Some(100));
    assert_eq!(random_date_between(101, 100), None);
    assert!(random_date_after(0).unwrap() > 0);
    assert_eq!(random_date_after(TIMESTAMP_MAX), None);
    assert!(random_date_before(0).unwrap() < 0);
    assert_eq!(random_date_before(TIMESTAMP_MIN), None);
    assert_eq!(random_in_daterange(&half_open(10, 11)), Some(10));
    assert_eq!(random_in_tsrange(&half_open(10, 10)), None);
    assert_eq!(random_in_tstzrange(&half_open(-1, 0)), Some(-1));
}
