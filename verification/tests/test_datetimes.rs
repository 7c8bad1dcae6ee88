use rrdf::datetime::DateTime;
use rrdf::object::Object;
use rrdf::operators::{compare_values, op_less_than};

fn utc(year: i32, mday: i32, hour: i32) -> Object {
    Object::DateTimeValue(DateTime {
        sec: 0, min: 0, hour, mday, mon: 0, year, wday: 0, yday: 0, isdst: 0, utcoff: 0, nsec: 0,
    })
}

#[test]
fn a_datetime_equals_itself() {
    let d = Object::DateTimeValue(DateTime {
        sec: 5, min: 4, hour: 3, mday: 2, mon: 1, year: 100, wday: 0, yday: 0, isdst: 0, utcoff: 3600, nsec: 7,
    });
    assert_eq!(compare_values("<", &d, &d), Ok(0));
}

#[test]
fn utc_datetimes_order_by_time() {
    let early = utc(100, 1, 10);
    let late = utc(100, 2, 9);
    assert_eq!(compare_values("<", &early, &late), Ok(-1));
    assert_eq!(compare_values("<", &late, &early), Ok(1));
    assert_eq!(op_less_than(&early, &late), Object::BoolValue(true));
}

#[test]
fn unprintable_datetime_prints_empty() {
    let d = utc(i32::MAX, 1, 0);
    assert_eq!(d.to_str(), "");
    let m = Object::DateTimeValue(DateTime {
        sec: 0, min: 0, hour: 0, mday: 1, mon: i32::MAX, year: 100, wday: 0, yday: 0, isdst: 0, utcoff: 0, nsec: 0,
    });
    assert_eq!(m.to_str(), "");
}

fn zoned(hour: i32, utcoff: i32) -> Object {
    Object::DateTimeValue(DateTime {
        sec: 0, min: 10, hour, mday: 31, mon: 4, year: 99, wday: 0, yday: 0, isdst: 0, utcoff, nsec: 0,
    })
}

#[test]
fn one_instant_in_two_zones_compares_equal() {
    let a = zoned(13, -5 * 3600);
    let b = zoned(14, -4 * 3600);
    assert_eq!(compare_values("<", &a, &b), Ok(0));
    assert_eq!(compare_values("<", &b, &a), Ok(0));
    assert_eq!(op_less_than(&a, &b), Object::BoolValue(false));
}

#[test]
fn zoned_datetimes_compare_by_instant_not_fields() {
    let a = zoned(14, 3600);
    let b = zoned(13, -3600);
    assert_eq!(compare_values("<", &a, &b), Ok(-1));
    assert_eq!(compare_values("<", &b, &a), Ok(1));
}

#[test]
fn datetime_debug_text_dumps_fields() {
    let d = zoned(13, -5 * 3600);
    assert_eq!(
        d.to_debug_str(),
        "DateTimeValue(Tm { tm_sec: 0, tm_min: 10, tm_hour: 13, tm_mday: 31, tm_mon: 4, tm_year: 99, \
         tm_wday: 0, tm_yday: 0, tm_isdst: 0, tm_utcoff: -18000, tm_nsec: 0 })"
    );
}

#[test]
fn rfc3339_text_pads_fields_and_prints_offsets() {
    let d = Object::DateTimeValue(DateTime {
        sec: 5, min: 4, hour: 3, mday: 2, mon: 0, year: -1895, wday: 0, yday: 0, isdst: 0, utcoff: 0, nsec: 0,
    });
    assert_eq!(d.to_str(), "5-01-02T03:04:05Z");
    let e = Object::DateTimeValue(DateTime {
        sec: 59, min: 30, hour: 23, mday: 31, mon: 11, year: 112, wday: 0, yday: 0, isdst: 0, utcoff: 19800, nsec: 0,
    });
    assert_eq!(e.to_str(), "2012-12-31T23:30:59+05:30");
    let f = Object::DateTimeValue(DateTime {
        sec: 0, min: 0, hour: 0, mday: 1, mon: 0, year: 100, wday: 0, yday: 0, isdst: 0, utcoff: -3600, nsec: 0,
    });
    assert_eq!(f.to_str(), "2000-01-01T00:00:00-01:00");
}
