use schedule_api::calendar::Date;
use schedule_api::calendar::TimeOfDay;
use schedule_api::changes::ChangeStore;
use schedule_api::changes::ScheduleChange;
use schedule_api::changes::notification_targets;
use schedule_api::errors::AppError;

fn date(year: i32, month: u8, day: u8) -> Date {
    Date { year, month, day }
}

fn change(schedule_id: i64, group_id: i64, d: Date) -> ScheduleChange {
    ScheduleChange {
        schedule_id,
        group_id,
        new_subject_id: 10,
        new_teacher_id: 20,
        date: d,
        new_start_time: TimeOfDay { hour: 8, minute: 30 },
        new_end_time: TimeOfDay { hour: 10, minute: 0 },
        cabinet: "101".to_string(),
        is_canceled: false,
    }
}

#[test]
fn add_echoes_the_input_back() {
    let mut store = ChangeStore::init();
    let today = date(2024, 5, 10);
    let input = vec![change(1, 1, today), change(2, 1, today)];
    let echoed = store.add_schedule_changes(input);
    assert_eq!(echoed.len(), 2);
    assert_eq!(echoed[0].schedule_id, 1);
    assert_eq!(echoed[1].schedule_id, 2);
}

#[test]
fn list_is_idempotent_within_one_day() {
    let mut store = ChangeStore::init();
    let yesterday = date(2024, 5, 9);
    let today = date(2024, 5, 10);
    store.add_schedule_changes(vec![
        change(1, 1, yesterday),
        change(2, 1, today),
        change(3, 2, yesterday),
    ]);
    let first = store.get_schedule_changes(1, today).unwrap();
    let second = store.get_schedule_changes(1, today).unwrap();
    assert_eq!(first.len(), 1);
    assert_eq!(first[0].schedule_id, 2);
    assert_eq!(second.len(), 1);
    assert_eq!(second[0].schedule_id, 2);
}

#[test]
fn list_silently_removes_overrides_whose_date_passed() {
    let mut store = ChangeStore::init();
    let yesterday = date(2024, 5, 9);
    let today = date(2024, 5, 10);
    store.add_schedule_changes(vec![change(11, 1, yesterday)]);
    let listed = store.get_schedule_changes(1, today).unwrap();
    assert!(listed.is_empty());
    // the row no longer exists
    assert!(matches!(store.get_changes_by_ids(&vec![11]), Err(AppError::NotFound)));
}

#[test]
fn end_to_end_override_lifecycle() {
    let mut store = ChangeStore::init();
    let today = date(2024, 5, 10);
    let tomorrow = date(2024, 5, 11);
    let mut ov = change(42, 7, today);
    ov.is_canceled = false;
    store.add_schedule_changes(vec![ov]);

    let listed = store.get_schedule_changes(7, today).unwrap();
    assert_eq!(listed.len(), 1);
    assert_eq!(listed[0].schedule_id, 42);
    assert!(!listed[0].is_canceled);

    // one day later the override is gone, and so is its row
    let listed = store.get_schedule_changes(7, tomorrow).unwrap();
    assert!(listed.is_empty());
    assert!(matches!(store.get_changes_by_ids(&vec![42]), Err(AppError::NotFound)));
}

#[test]
fn duplicate_expired_overrides_fail_the_sweep_part_way() {
    let mut store = ChangeStore::init();
    let yesterday = date(2024, 5, 9);
    let today = date(2024, 5, 10);
    // two expired overrides for the same slot: the first delete removes
    // both rows, the second finds nothing and aborts the call
    store.add_schedule_changes(vec![change(5, 1, yesterday), change(5, 1, yesterday)]);
    assert!(matches!(store.get_schedule_changes(1, today), Err(AppError::NotFound)));
    // both rows are nevertheless gone
    assert!(matches!(store.get_changes_by_ids(&vec![5]), Err(AppError::NotFound)));
}

#[test]
fn edit_updates_the_row_and_echoes_the_input() {
    let mut store = ChangeStore::init();
    let today = date(2024, 5, 10);
    store.add_schedule_changes(vec![change(1, 1, today)]);
    let mut edited = change(1, 1, date(2024, 5, 12));
    edited.cabinet = "202".to_string();
    edited.is_canceled = true;
    let echoed = store.edit_schedule_changes(&edited).unwrap();
    assert_eq!(echoed.cabinet, "202");
    let listed = store.get_schedule_changes(1, today).unwrap();
    assert_eq!(listed.len(), 1);
    assert_eq!(listed[0].cabinet, "202");
    assert!(listed[0].is_canceled);
}

#[test]
fn edit_of_an_unknown_slot_is_not_found() {
    let mut store = ChangeStore::init();
    let edited = change(9, 1, date(2024, 5, 10));
    assert!(matches!(store.edit_schedule_changes(&edited), Err(AppError::NotFound)));
}

#[test]
fn bulk_delete_aborts_at_the_first_missing_id() {
    let mut store = ChangeStore::init();
    let today = date(2024, 5, 10);
    store.add_schedule_changes(vec![change(1, 1, today), change(2, 1, today)]);
    // id 1 is deleted, id 99 aborts the call, id 2 stays untouched
    let r = store.delete_schedule_changes(&vec![1, 99, 2]);
    assert!(matches!(r, Err(AppError::NotFound)));
    assert!(matches!(store.get_changes_by_ids(&vec![1]), Err(AppError::NotFound)));
    assert!(store.get_changes_by_ids(&vec![2]).is_ok());
}

#[test]
fn bulk_delete_of_present_ids_succeeds() {
    let mut store = ChangeStore::init();
    let today = date(2024, 5, 10);
    store.add_schedule_changes(vec![change(1, 1, today), change(2, 1, today)]);
    assert_eq!(store.delete_schedule_changes(&vec![1, 2]).unwrap(), 200);
    assert!(store.get_schedule_changes(1, today).unwrap().is_empty());
}

#[test]
fn get_changes_by_ids_returns_one_row_per_id() {
    let mut store = ChangeStore::init();
    let today = date(2024, 5, 10);
    store.add_schedule_changes(vec![change(1, 1, today), change(2, 2, today)]);
    let rows = store.get_changes_by_ids(&vec![2, 1]).unwrap();
    assert_eq!(rows.len(), 2);
    assert_eq!(rows[0].schedule_id, 2);
    assert_eq!(rows[1].schedule_id, 1);
}

#[test]
fn notification_targets_deduplicate_in_first_seen_order() {
    let today = date(2024, 5, 10);
    let mut a = change(1, 7, today);
    a.new_teacher_id = 100;
    let mut b = change(2, 3, today);
    b.new_teacher_id = 200;
    let mut c = change(3, 7, today);
    c.new_teacher_id = 100;
    let mut d = change(4, 3, today);
    d.new_teacher_id = 300;
    let (groups, teachers) = notification_targets(&vec![a, b, c, d]);
    assert_eq!(groups, vec![7, 3]);
    assert_eq!(teachers, vec![100, 200, 300]);
}

#[test]
fn wall_clock_listing_keeps_far_future_overrides() {
    let mut store = ChangeStore::init();
    // an override far in the future survives any plausible server day,
    // one far in the past is swept out
    store.add_schedule_changes(vec![change(1, 1, date(9999, 12, 31)), change(2, 1, date(1970, 1, 1))]);
    let listed = store.get_schedule_changes_now(1).unwrap();
    assert_eq!(listed.len(), 1);
    assert_eq!(listed[0].schedule_id, 1);
    assert!(matches!(store.get_changes_by_ids(&vec![2]), Err(AppError::NotFound)));
}
