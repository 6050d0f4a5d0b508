use akashic_log::database::Database;
use akashic_log::error::{Error, StorageFault};
use akashic_log::model::{Tag, TimeSlice};

fn names(v: &[&str]) -> Vec<String> {
    v.iter().map(|s| s.to_string()).collect()
}

#[test]
fn find_or_create_twice_gives_one_row() {
    let mut db = Database::new();
    let a = db.find_or_create_tag("x").unwrap();
    let b = db.find_or_create_tag("x").unwrap();
    assert_eq!(a.id, b.id);
    assert_eq!(a.name, "x");
    let all = db.get_all_tags();
    assert_eq!(all.len(), 1);
    assert_eq!(all[0].name, "x");
}

#[test]
fn find_or_create_numbers_new_names_in_turn() {
    let mut db = Database::new();
    assert_eq!(db.find_or_create_tag("a").unwrap().id, 1);
    assert_eq!(db.find_or_create_tag("b").unwrap().id, 2);
    assert_eq!(db.find_or_create_tag("a").unwrap().id, 1);
    assert_eq!(db.get_all_tags().len(), 2);
}

#[test]
fn tag_find_or_create_goes_through_the_store() {
    let mut db = Database::new();
    let a = Tag::find_or_create(&mut db, "code").unwrap();
    let b = Tag::find_or_create(&mut db, "code").unwrap();
    assert_eq!(a.id, b.id);
    assert!(a.color.is_none());
}

#[test]
fn empty_tag_name_is_invalid() {
    let mut db = Database::new();
    assert!(matches!(db.find_or_create_tag(""), Err(Error::InvalidInput)));
    assert!(db.get_all_tags().is_empty());
}

#[test]
fn slice_must_end_after_it_starts() {
    let mut db = Database::new();
    assert_eq!(db.insert_time_slice(10, Some(10)), Err(Error::Storage(StorageFault::Check)));
    assert_eq!(db.insert_time_slice(10, Some(5)), Err(Error::Storage(StorageFault::Check)));
    assert_eq!(db.insert_time_slice(10, Some(11)), Ok(1));
    assert_eq!(db.insert_time_slice(20, Some(30)), Ok(2));
    let all = db.get_all_time_slices();
    assert_eq!(all.len(), 2);
    assert_eq!(all[0], TimeSlice::new(1, 10, Some(11)));
    assert_eq!(all[1], TimeSlice::new(2, 20, Some(30)));
}

#[test]
fn at_most_one_open_slice() {
    let mut db = Database::new();
    assert_eq!(db.insert_time_slice(10, None), Ok(1));
    assert_eq!(db.insert_time_slice(20, None), Err(Error::Storage(StorageFault::Unique)));
    assert_eq!(db.insert_time_slice(20, Some(25)), Ok(2));
}

#[test]
fn composite_insert_writes_slice_description_and_tags() {
    let mut db = Database::new();
    let id = db
        .insert_time_slice_info(100, Some(200), &names(&["a", "b"]), &Some("work #a #b".to_string()))
        .unwrap();
    assert_eq!(id, 1);
    let tags = db.get_all_times_tag();
    let mine: Vec<String> = tags[&id].iter().map(|t| t.name.clone()).collect();
    assert_eq!(mine, names(&["a", "b"]));
    let descs = db.get_descriptions_map();
    assert_eq!(descs[&id], "work #a #b");
    assert_eq!(db.get_all_descriptions().len(), 1);
    assert_eq!(db.get_all_links(), vec![(1, 1), (1, 2)]);
}

#[test]
fn composite_insert_keeps_tags_without_description() {
    let mut db = Database::new();
    let id = db.insert_time_slice_info(100, Some(200), &names(&["a"]), &None).unwrap();
    assert_eq!(db.get_all_times_tag()[&id].len(), 1);
    assert!(db.get_descriptions_map().is_empty());
}

#[test]
fn composite_insert_drops_a_tag_that_fails() {
    let mut db = Database::new();
    let id = db.insert_time_slice_info(100, Some(200), &names(&["", "ok"]), &None).unwrap();
    let tags = db.get_all_times_tag();
    assert_eq!(tags[&id].len(), 1);
    assert_eq!(tags[&id][0].name, "ok");
}

#[test]
fn composite_insert_takes_tag_names_as_a_set() {
    let mut db = Database::new();
    let id = db
        .insert_time_slice_info(100, Some(200), &names(&["a", "", "a", "b"]), &Some("d".to_string()))
        .unwrap();
    assert_eq!(db.get_all_links(), vec![(id, 1), (id, 2)]);
    let mine: Vec<String> = db.get_all_times_tag()[&id].iter().map(|t| t.name.clone()).collect();
    assert_eq!(mine, names(&["a", "b"]));
}

#[test]
fn composite_insert_rolls_back_when_a_step_fails() {
    let mut db = Database::new();
    db.insert_time_slice(1, None).unwrap();
    let r = db.insert_time_slice_info(100, None, &names(&["a"]), &Some("d".to_string()));
    assert_eq!(r, Err(Error::Storage(StorageFault::Unique)));
    assert_eq!(db.get_all_time_slices().len(), 1);
    assert!(db.get_all_tags().is_empty());
    assert!(db.get_all_links().is_empty());
    assert!(db.get_all_descriptions().is_empty());
    // the identifier that the failed write would have used is still free
    assert_eq!(db.insert_time_slice(3, Some(4)), Ok(2));
}

#[test]
fn composite_insert_rolls_back_a_bad_slice() {
    let mut db = Database::new();
    let r = db.insert_time_slice_info(200, Some(100), &names(&["a"]), &Some("d".to_string()));
    assert_eq!(r, Err(Error::Storage(StorageFault::Check)));
    assert!(db.get_all_tags().is_empty());
}

#[test]
fn associations_are_all_or_none() {
    let mut db = Database::new();
    let sid = db.insert_time_slice(1, Some(2)).unwrap();
    let t = db.find_or_create_tag("t").unwrap().id;
    assert_eq!(db.insert_time_slice_tags(sid, &[t, 99]), Err(Error::Storage(StorageFault::ForeignKey)));
    assert!(db.get_all_links().is_empty());
    assert_eq!(db.insert_time_slice_tags(42, &[t]), Err(Error::Storage(StorageFault::ForeignKey)));
    assert_eq!(db.insert_time_slice_tags(sid, &[t]), Ok(()));
    assert_eq!(db.insert_time_slice_tags(sid, &[t]), Err(Error::Storage(StorageFault::Unique)));
    assert_eq!(db.insert_time_slice_tags(42, &[]), Ok(()));
    assert_eq!(db.get_all_links(), vec![(sid, t)]);
}

#[test]
fn one_description_per_slice() {
    let mut db = Database::new();
    let sid = db.insert_time_slice(1, Some(2)).unwrap();
    assert_eq!(db.insert_time_slice_description(7, "x"), Err(Error::Storage(StorageFault::ForeignKey)));
    assert_eq!(db.insert_time_slice_description(sid, "x"), Ok(()));
    assert_eq!(db.insert_time_slice_description(sid, "y"), Err(Error::Storage(StorageFault::Unique)));
    assert_eq!(db.get_descriptions_map()[&sid], "x");
}

#[test]
fn remove_existing_slice_takes_its_rows_along() {
    let mut db = Database::new();
    let keep = db.insert_time_slice_info(1, Some(2), &names(&["a"]), &Some("keep".to_string())).unwrap();
    let gone = db.insert_time_slice_info(3, Some(4), &names(&["a", "b"]), &Some("gone".to_string())).unwrap();
    assert_eq!(db.remove_time_slice(gone), Ok(()));
    let slices = db.get_all_time_slices();
    assert_eq!(slices.len(), 1);
    assert_eq!(slices[0].id, keep);
    assert_eq!(db.get_all_links(), vec![(keep, 1)]);
    assert!(!db.get_all_times_tag().contains_key(&gone));
    assert!(!db.get_descriptions_map().contains_key(&gone));
    // tags themselves stay
    assert_eq!(db.get_all_tags().len(), 2);
}

#[test]
fn remove_unknown_slice_is_not_found_and_changes_nothing() {
    let mut db = Database::new();
    db.insert_time_slice_info(1, Some(2), &names(&["a"]), &Some("d".to_string())).unwrap();
    assert_eq!(db.remove_time_slice(99), Err(Error::NotFound));
    assert_eq!(db.get_all_time_slices().len(), 1);
    assert_eq!(db.get_all_links().len(), 1);
    assert_eq!(db.get_all_descriptions().len(), 1);
}

#[test]
fn update_slice_checks_its_constraints() {
    let mut db = Database::new();
    let a = db.insert_time_slice(10, Some(20)).unwrap();
    let b = db.insert_time_slice(30, None).unwrap();
    assert_eq!(db.update_time_slice(&TimeSlice::new(9, 1, Some(2))), Err(Error::NotFound));
    assert_eq!(db.update_time_slice(&TimeSlice::new(a, 5, Some(5))), Err(Error::Storage(StorageFault::Check)));
    assert_eq!(db.update_time_slice(&TimeSlice::new(a, 5, None)), Err(Error::Storage(StorageFault::Unique)));
    assert_eq!(db.update_time_slice(&TimeSlice::new(b, 31, None)), Ok(()));
    assert_eq!(db.update_time_slice(&TimeSlice::new(a, 5, Some(6))), Ok(()));
    let all = db.get_all_time_slices();
    assert_eq!(all[0], TimeSlice::new(a, 5, Some(6)));
    assert_eq!(all[1], TimeSlice::new(b, 31, None));
}

#[test]
fn update_tags_replaces_the_associations() {
    let mut db = Database::new();
    let sid = db.insert_time_slice_info(1, Some(2), &names(&["a"]), &None).unwrap();
    assert_eq!(db.update_time_slice_tags(sid, &names(&["b", "c"])), Ok(()));
    let mine: Vec<String> = db.get_all_times_tag()[&sid].iter().map(|t| t.name.clone()).collect();
    assert_eq!(mine, names(&["b", "c"]));
    assert_eq!(db.update_time_slice_tags(77, &names(&["b"])), Err(Error::NotFound));
    assert_eq!(db.update_time_slice_tags(sid, &names(&["d", "d", ""])), Ok(()));
    let mine: Vec<String> = db.get_all_times_tag()[&sid].iter().map(|t| t.name.clone()).collect();
    assert_eq!(mine, names(&["d"]));
}

#[test]
fn update_description_sets_or_replaces() {
    let mut db = Database::new();
    let a = db.insert_time_slice_info(1, Some(2), &vec![], &Some("old".to_string())).unwrap();
    let b = db.insert_time_slice(3, Some(4)).unwrap();
    assert_eq!(db.update_time_slice_description(a, "new"), Ok(()));
    assert_eq!(db.update_time_slice_description(b, "none"), Ok(()));
    assert_eq!(db.update_time_slice_description(9, "x"), Err(Error::NotFound));
    let descs = db.get_descriptions_map();
    assert_eq!(descs[&a], "new");
    assert_eq!(descs[&b], "none");
    assert_eq!(db.get_all_descriptions().len(), 2);
}

#[test]
fn loading_rows_keeps_their_identifiers() {
    let mut db = Database::new();
    assert_eq!(db.load_time_slice(TimeSlice::new(5, 1, Some(2))), Ok(()));
    assert_eq!(db.load_time_slice(TimeSlice::new(5, 1, Some(2))), Err(Error::Storage(StorageFault::Unique)));
    assert_eq!(db.load_time_slice(TimeSlice::new(6, 3, Some(3))), Err(Error::Storage(StorageFault::Check)));
    let tag = Tag { id: 4, name: "t".to_string(), color: Some("red".to_string()) };
    assert_eq!(db.load_tag(&tag), Ok(()));
    assert_eq!(db.load_tag(&Tag { id: 9, name: "t".to_string(), color: None }), Err(Error::Storage(StorageFault::Unique)));
    assert_eq!(db.load_tag(&Tag { id: 9, name: "".to_string(), color: None }), Err(Error::InvalidInput));
    assert_eq!(db.insert_time_slice(7, Some(8)), Ok(6));
    assert_eq!(db.find_or_create_tag("u").unwrap().id, 5);
    assert_eq!(db.get_all_tags()[0].color.as_deref(), Some("red"));
}
