use akashic_log::clock::{get_current_time, millis_of, ClockerStatus, Clocker};
use akashic_log::error::Error;
use akashic_log::model::{Description, Tag, TimeSlice};
use akashic_log::timeline::Timeline;

#[test]
fn clocker_runs_and_stops() {
    let mut c = Clocker::new();
    assert_eq!(*c.get_status(), ClockerStatus::Waiting);
    assert_eq!(c.duration_at(500), 0);
    c.start_at(100);
    assert!(c.is_running());
    assert!(!c.is_stop());
    assert_eq!(c.get_start_time(), 100);
    assert_eq!(c.duration_at(350), 250);
    assert_eq!(c.duration_at(50), 0);
    assert_eq!(c.elapsed(), 0);
    c.stop_at(400);
    assert_eq!(*c.get_status(), ClockerStatus::Stopped);
    assert!(c.is_stop());
    assert_eq!(c.get_end_time(), Some(400));
    assert_eq!(c.duration_at(9999), 300);
    assert_eq!(c.elapsed(), 300);
    assert_eq!(c.duration(), 300);
    assert_eq!(c.get_duration(), 300);
    c.stop_at(500);
    assert_eq!(c.get_end_time(), Some(400));
}

#[test]
fn clocker_reads_the_wall_clock() {
    let mut c = Clocker::new();
    c.start();
    assert!(c.get_start_time() > 1_500_000_000_000);
    c.stop();
    assert!(c.get_end_time().unwrap() >= c.get_start_time());
    assert!(Clocker::get_current_timestamp() > 1_500_000_000_000);
}

#[test]
fn current_time_is_after_2017() {
    assert!(get_current_time() > 1_500_000_000_000);
}

#[test]
fn clock_readings_fit_in_u64() {
    assert_eq!(millis_of(Some(1234)), 1234);
    assert_eq!(millis_of(None), 0);
    assert_eq!(millis_of(Some(u64::MAX as u128 + 5)), u64::MAX);
}

#[test]
fn time_slice_length() {
    assert_eq!(TimeSlice::new(1, 100, Some(350)).get_len(), 250);
    assert_eq!(TimeSlice::new(3, 100, Some(100)).get_len(), 0);
    assert_eq!(TimeSlice::new(2, 100, None).get_len(), 0);
}

#[test]
fn rows_from_text() {
    let t = Tag::new("code", Some("blue"));
    assert_eq!(t.id, 0);
    assert_eq!(t.name, "code");
    assert_eq!(t.color.as_deref(), Some("blue"));
    assert!(Tag::new("x", None).color.is_none());
    let d = Description::new(3, "text");
    assert_eq!(d.time_slice_id, 3);
    assert_eq!(d.description, "text");
}

#[test]
fn timeline_add_keeps_order_and_push_appends() {
    let mut t = Timeline::new();
    t.init();
    t.add(TimeSlice::new(1, 30, Some(31)));
    t.add(TimeSlice::new(2, 10, Some(11)));
    t.add(TimeSlice::new(3, 20, Some(21)));
    t.add(TimeSlice::new(4, 20, Some(22)));
    let ids: Vec<u64> = t.list.iter().map(|s| s.id).collect();
    assert_eq!(ids, vec![2, 3, 4, 1]);
    t.remove(0);
    t.push(TimeSlice::new(5, 1, Some(2)));
    let ids: Vec<u64> = t.list.iter().map(|s| s.id).collect();
    assert_eq!(ids, vec![3, 4, 1, 5]);
    assert!(matches!(t.get_time_info(9), Err(Error::NotFound)));
    t.push(TimeSlice::new(4, 90, Some(95)));
    let info = t.get_time_info(4).unwrap();
    assert_eq!(info.time_slice.end_time, Some(22));
    assert!(info.tag.is_none());
    assert!(info.desc.is_none());
}

#[test]
fn error_messages() {
    assert_eq!(Error::AlreadyRunning.message(), "Timer is already running!");
    assert_eq!(Error::NotRunning.message(), "No timer is running!");
}
