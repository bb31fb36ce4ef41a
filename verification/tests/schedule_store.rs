use schedule_api::calendar::TimeOfDay;
use schedule_api::errors::AppError;
use schedule_api::schedule::AddPair;
use schedule_api::schedule::AddScheduleRequest;
use schedule_api::schedule::Pair;
use schedule_api::schedule::Schedule;
use schedule_api::schedule::ScheduleStore;

fn t(hour: u8, minute: u8) -> TimeOfDay {
    TimeOfDay { hour, minute }
}

fn add_pair(pair_number: i8, cabinet: &str) -> AddPair {
    AddPair {
        pair_number,
        teacher_id: 1,
        subject_id: 1,
        start_time: t(8, 30),
        end_time: t(10, 0),
        cabinet: cabinet.to_string(),
    }
}

fn add_day(store: &mut ScheduleStore, group_id: i64, weekday: i8, pairs: Vec<AddPair>) {
    store
        .add_pairs(&AddScheduleRequest { group_id, weekday, pairs })
        .unwrap();
}

#[test]
fn listing_is_empty_for_an_unknown_group() {
    let store = ScheduleStore::init();
    assert!(store.get_schedule(1).is_empty());
}

#[test]
fn listing_orders_weekdays_and_pairs_for_any_insertion_order() {
    let mut store = ScheduleStore::init();
    // insert weekdays and pair numbers out of order
    add_day(&mut store, 1, 5, vec![add_pair(2, "B"), add_pair(1, "A")]);
    add_day(&mut store, 1, 2, vec![add_pair(3, "C")]);
    add_day(&mut store, 1, 5, vec![add_pair(1, "D")]);
    add_day(&mut store, 2, 1, vec![add_pair(1, "X")]);

    let days = store.get_schedule(1);
    assert_eq!(days.len(), 2);
    assert_eq!(days[0].weekday, 2);
    assert_eq!(days[1].weekday, 5);
    for day in &days {
        assert_eq!(day.group_id, 1);
        assert!(!day.pairs.is_empty());
        for w in day.pairs.windows(2) {
            assert!(w[0].pair_number <= w[1].pair_number);
        }
    }
    // the two pair-number-1 slots of weekday 5 keep insertion order (stable)
    assert_eq!(days[1].pairs.len(), 3);
    assert_eq!(days[1].pairs[0].cabinet, "A");
    assert_eq!(days[1].pairs[1].cabinet, "D");
    assert_eq!(days[1].pairs[2].cabinet, "B");
}

#[test]
fn add_pairs_returns_the_whole_group_listing() {
    let mut store = ScheduleStore::init();
    add_day(&mut store, 1, 1, vec![add_pair(1, "A")]);
    let days = store
        .add_pairs(&AddScheduleRequest { group_id: 1, weekday: 3, pairs: vec![add_pair(1, "B")] })
        .unwrap();
    assert_eq!(days.len(), 2);
    assert_eq!(days[0].weekday, 1);
    assert_eq!(days[1].weekday, 3);
}

#[test]
fn bulk_edit_partial_failure_is_not_rolled_back() {
    let mut store = ScheduleStore::init();
    add_day(&mut store, 7, 2, vec![add_pair(1, "old-1"), add_pair(2, "old-2"), add_pair(3, "old-3")]);
    let before = store.get_schedule(7);
    let ids: Vec<i64> = before[0].pairs.iter().map(|p| p.id).collect();

    let edit = |id: i64, pair_number: i8, cabinet: &str| Pair {
        id,
        pair_number,
        teacher_id: 9,
        subject_id: 9,
        start_time: t(9, 0),
        end_time: t(10, 30),
        cabinet: cabinet.to_string(),
    };
    // the second pair references a slot that does not exist
    let payload = Schedule {
        group_id: 7,
        weekday: 2,
        pairs: vec![edit(ids[0], 1, "new-1"), edit(999_999, 2, "never"), edit(ids[2], 3, "never")],
    };
    let r = store.edit_pairs(&payload);
    assert!(matches!(r, Err(AppError::NotFound)));

    let after = store.get_schedule(7);
    let by_id = |id: i64| -> Pair {
        after[0]
            .pairs
            .iter()
            .find(|p| p.id == id)
            .expect("slot still listed")
            .clone()
    };
    // the first update was persisted
    assert_eq!(by_id(ids[0]).cabinet, "new-1");
    assert_eq!(by_id(ids[0]).teacher_id, 9);
    // the third update never happened
    assert_eq!(by_id(ids[2]).cabinet, "old-3");
    assert_eq!(by_id(ids[2]).teacher_id, 1);
}

#[test]
fn bulk_edit_of_existing_slots_succeeds() {
    let mut store = ScheduleStore::init();
    add_day(&mut store, 7, 2, vec![add_pair(1, "A")]);
    let id = store.get_schedule(7)[0].pairs[0].id;
    let payload = Schedule {
        group_id: 7,
        weekday: 4,
        pairs: vec![Pair {
            id,
            pair_number: 2,
            teacher_id: 3,
            subject_id: 4,
            start_time: t(11, 0),
            end_time: t(12, 30),
            cabinet: "Z".to_string(),
        }],
    };
    let days = store.edit_pairs(&payload).unwrap();
    // the slot moved to weekday 4, and the listing reflects it
    assert_eq!(days.len(), 1);
    assert_eq!(days[0].weekday, 4);
    assert_eq!(days[0].pairs[0].cabinet, "Z");
}

#[test]
fn delete_day_removes_every_slot_of_the_day() {
    let mut store = ScheduleStore::init();
    add_day(&mut store, 1, 2, vec![add_pair(1, "A"), add_pair(2, "B")]);
    add_day(&mut store, 1, 3, vec![add_pair(1, "C")]);
    assert_eq!(store.delete_day(1, 2).unwrap(), 200);
    let days = store.get_schedule(1);
    assert_eq!(days.len(), 1);
    assert_eq!(days[0].weekday, 3);
}

#[test]
fn delete_day_of_an_empty_day_is_not_found() {
    let mut store = ScheduleStore::init();
    add_day(&mut store, 1, 2, vec![add_pair(1, "A")]);
    assert!(matches!(store.delete_day(1, 3), Err(AppError::NotFound)));
    assert!(matches!(store.delete_day(2, 2), Err(AppError::NotFound)));
}

#[test]
fn delete_pair_removes_one_slot() {
    let mut store = ScheduleStore::init();
    add_day(&mut store, 1, 2, vec![add_pair(1, "A"), add_pair(2, "B")]);
    let id = store.get_schedule(1)[0].pairs[0].id;
    assert_eq!(store.delete_pair(id).unwrap(), 200);
    let days = store.get_schedule(1);
    assert_eq!(days[0].pairs.len(), 1);
    assert_eq!(days[0].pairs[0].cabinet, "B");
}

#[test]
fn delete_pair_of_an_unknown_id_is_not_found() {
    let mut store = ScheduleStore::init();
    assert!(matches!(store.delete_pair(1), Err(AppError::NotFound)));
}
