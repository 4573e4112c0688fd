//! Points in time.

use zerostack_ui::clock::{format_time, time_label, Stamp};

fn stamp(year: i32, month: u32, day: u32, hour: u32, minute: u32) -> Stamp {
    Stamp { year, month, day, hour, minute }
}

#[test]
fn labels_get_longer_with_distance() {
    let now = stamp(2024, 5, 7, 12, 0);
    assert_eq!(time_label(&stamp(2024, 5, 7, 9, 5), &now).text(), "09:05");
    assert_eq!(time_label(&stamp(2024, 2, 3, 23, 59), &now).text(), "Feb 03 23:59");
    assert_eq!(time_label(&stamp(1999, 12, 31, 0, 0), &now).text(), "1999-12-31 00:00");
    assert_eq!(time_label(&stamp(12024, 1, 1, 0, 0), &now).text(), "+12024-01-01 00:00");
}

#[test]
fn what_is_no_time_is_left_as_it_is() {
    assert_eq!(format_time("yesterday").text(), "yesterday");
    assert_eq!(format_time("").text(), "");
}

#[test]
fn an_old_time_is_shown_with_its_date() {
    let shown = format_time("2001-06-15T12:00:00Z");
    let t = shown.text();
    assert_eq!(t.len(), 16);
    assert!(t.starts_with("2001-06-1"));
    assert_eq!(&t[10..11], " ");
}
