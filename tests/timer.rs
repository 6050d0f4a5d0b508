use akashic_log::controller::{App, WatchdogStep};
use akashic_log::database::Database;
use akashic_log::error::{Error, StorageFault};
use akashic_log::timeline::Timeline;

fn names(v: &[&str]) -> Vec<String> {
    v.iter().map(|s| s.to_string()).collect()
}

#[test]
fn start_while_running_fails_and_keeps_the_timer() {
    let mut app = App::new(Database::new());
    let st = app.start_timer_at(1000, &names(&["a"]), Some("first".to_string())).unwrap();
    assert_eq!(st.start_time, 1000);
    assert_eq!(st.end_time, None);
    let again = app.start_timer_at(2000, &names(&["b"]), Some("second".to_string()));
    assert!(matches!(again, Err(Error::AlreadyRunning)));
    let now = app.get_current_timer_status().unwrap();
    assert_eq!(now.start_time, 1000);
    assert_eq!(now.tags, names(&["a"]));
    assert_eq!(now.desc.as_deref(), Some("first"));
}

#[test]
fn start_keeps_tag_names_as_a_set() {
    let mut app = App::new(Database::new());
    let st = app.start_timer(&names(&["", "a", "b", "a"]), Some("x".to_string())).unwrap();
    assert_eq!(st.tags, names(&["a", "b"]));
    assert_eq!(st.end_time, None);
    assert_eq!(st.desc.as_deref(), Some("x"));
    assert_eq!(st.slice_id, None);
}

#[test]
fn clock_driven_stop_stores_the_slice() {
    let mut app = App::new(Database::new());
    app.start_timer_at(1000, &names(&["a"]), Some("x".to_string())).unwrap();
    let st = app.stop_timer().unwrap();
    assert_eq!(st.start_time, 1000);
    assert!(st.end_time.unwrap() > 1000);
    assert_eq!(st.desc.as_deref(), Some("x"));
    assert!(!app.is_running());
    assert_eq!(app.database().get_all_time_slices().len(), 1);
    assert!(matches!(app.stop_timer(), Err(Error::NotRunning)));
}

#[test]
fn stop_and_status_when_idle_are_not_running() {
    let mut app = App::new(Database::new());
    assert!(matches!(app.stop_timer_at(5), Err(Error::NotRunning)));
    assert!(matches!(app.get_current_timer_status(), Err(Error::NotRunning)));
    assert!(!app.is_running());
}

#[test]
fn stop_persists_one_slice_and_goes_idle() {
    let mut app = App::new(Database::new());
    app.start_timer_at(1000, &names(&["a", "a", "b"]), None).unwrap();
    let st = app.stop_timer_at(4000).unwrap();
    assert_eq!(st.start_time, 1000);
    assert_eq!(st.end_time, Some(4000));
    assert_eq!(st.tags, names(&["a", "b"]));
    assert_eq!(st.slice_id, Some(1));
    assert!(!app.is_running());
    let slices = app.database().get_all_time_slices();
    assert_eq!(slices.len(), 1);
    assert_eq!(slices[0].get_len(), 3000);
    assert!(matches!(app.stop_timer_at(5000), Err(Error::NotRunning)));
    assert_eq!(app.database().get_all_time_slices().len(), 1);
}

#[test]
fn stop_at_the_start_instant_is_refused_and_the_timer_keeps_running() {
    let mut app = App::new(Database::new());
    app.start_timer_at(1000, &vec![], None).unwrap();
    assert!(matches!(app.stop_timer_at(1000), Err(Error::Storage(StorageFault::Check))));
    assert!(app.is_running());
    assert!(app.database().get_all_time_slices().is_empty());
    assert!(app.stop_timer_at(1001).is_ok());
}

#[test]
fn stopped_timer_reads_back_through_the_timeline() {
    let mut app = App::new(Database::new());
    app.start_timer_at(10, &names(&["a", "b"]), Some("write #a #b".to_string())).unwrap();
    let id = app.stop_timer_at(20).unwrap().slice_id.unwrap();
    let timeline = app.get_timeline();
    let info = timeline.get_time_info(id).unwrap();
    assert_eq!(info.time_slice.start_time, 10);
    assert_eq!(info.time_slice.end_time, Some(20));
    let mut tags: Vec<String> = info.tag.unwrap().into_iter().map(|t| t.name).collect();
    tags.sort();
    assert_eq!(tags, names(&["a", "b"]));
    assert_eq!(info.desc.as_deref(), Some("write #a #b"));
}

#[test]
fn watchdog_stops_once_the_limit_passes() {
    let mut app = App::new(Database::new());
    app.start_timer_at(1000, &vec![], None).unwrap();
    let run = app.current_run();
    assert!(matches!(app.watchdog_tick(run, 100, 1050), WatchdogStep::Continue));
    assert!(matches!(app.watchdog_tick(run, 100, 1100), WatchdogStep::Continue));
    match app.watchdog_tick(run, 100, 1101) {
        WatchdogStep::Fired(Ok(st)) => assert_eq!(st.end_time, Some(1101)),
        _ => panic!("the watchdog did not fire"),
    }
    assert!(!app.is_running());
    let slices = app.database().get_all_time_slices();
    assert_eq!(slices.len(), 1);
    assert_eq!(slices[0].get_len(), 101);
    assert!(matches!(app.watchdog_tick(run, 100, 1200), WatchdogStep::Finished));
}

#[test]
fn manual_stop_first_leaves_the_watchdog_nothing_to_do() {
    let mut app = App::new(Database::new());
    app.start_timer_at(1000, &vec![], None).unwrap();
    let run = app.current_run();
    app.stop_timer_at(1005).unwrap();
    assert!(matches!(app.watchdog_tick(run, 50, 1060), WatchdogStep::Finished));
    assert_eq!(app.database().get_all_time_slices().len(), 1);
}

#[test]
fn watchdog_first_leaves_the_manual_stop_nothing_to_do() {
    let mut app = App::new(Database::new());
    app.start_timer_at(1000, &vec![], None).unwrap();
    let run = app.current_run();
    assert!(matches!(app.watchdog_tick(run, 50, 1051), WatchdogStep::Fired(Ok(_))));
    assert!(matches!(app.stop_timer_at(1055), Err(Error::NotRunning)));
    assert_eq!(app.database().get_all_time_slices().len(), 1);
}

#[test]
fn old_watchdog_ignores_a_later_timer() {
    let mut app = App::new(Database::new());
    app.start_timer_at(1000, &vec![], None).unwrap();
    let run = app.current_run();
    app.stop_timer_at(1010).unwrap();
    app.start_timer_at(1020, &vec![], None).unwrap();
    assert!(matches!(app.watchdog_tick(run, 5, 5000), WatchdogStep::Finished));
    assert!(app.is_running());
}

#[test]
fn remove_through_the_controller() {
    let mut app = App::new(Database::new());
    app.start_timer_at(10, &names(&["a"]), Some("x".to_string())).unwrap();
    let id = app.stop_timer_at(20).unwrap().slice_id.unwrap();
    app.start_timer_at(30, &names(&["a"]), None).unwrap();
    let other = app.stop_timer_at(40).unwrap().slice_id.unwrap();
    assert_eq!(app.remove_time_slice(id), Ok(()));
    let timeline = app.get_timeline();
    assert!(matches!(timeline.get_time_info(id), Err(Error::NotFound)));
    assert!(!timeline.tags.contains_key(&id));
    assert!(timeline.get_time_info(other).is_ok());
    assert_eq!(app.remove_time_slice(id), Err(Error::NotFound));
    assert_eq!(app.get_timeline().list.len(), 1);
}

#[test]
fn corrective_edits_through_the_controller() {
    let mut app = App::new(Database::new());
    app.start_timer_at(10, &names(&["a"]), Some("x".to_string())).unwrap();
    let id = app.stop_timer_at(20).unwrap().slice_id.unwrap();
    assert_eq!(app.update_tags(id, &names(&["z"])), Ok(()));
    assert_eq!(app.update_description(id, "y"), Ok(()));
    let info = app.get_timeline().get_time_info(id).unwrap();
    assert_eq!(info.tag.unwrap()[0].name, "z");
    assert_eq!(info.desc.as_deref(), Some("y"));
    assert_eq!(app.update_tags(99, &names(&["z"])), Err(Error::NotFound));
}

#[test]
fn clock_driven_start_and_stop() {
    let mut app = App::new(Database::new());
    let st = app.start_timer(&vec![], None).unwrap();
    assert!(st.start_time > 1_500_000_000_000);
    assert!(matches!(app.start_timer(&vec![], None), Err(Error::AlreadyRunning)));
}

#[test]
fn timeline_is_chronological() {
    let mut db = Database::new();
    db.insert_time_slice(50, Some(60)).unwrap();
    db.insert_time_slice(10, Some(20)).unwrap();
    db.insert_time_slice(30, Some(40)).unwrap();
    let t = Timeline::build(&db);
    let starts: Vec<u64> = t.list.iter().map(|s| s.start_time).collect();
    assert_eq!(starts, vec![10, 30, 50]);
}
