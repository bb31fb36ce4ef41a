use schedule_api::directory::TeacherStore;
use schedule_api::errors::AppError;
use schedule_api::groups::GroupStore;
use schedule_api::links::LinkStore;
use schedule_api::subjects::SubjectStore;

#[test]
fn groups_crud_round_trip() {
    let mut store = GroupStore::init();
    let g = store.add_group("P-11".to_string(), 1).unwrap();
    assert_eq!(g.name, "P-11");
    assert_eq!(g.shift, 1);

    let all = store.get_groups();
    assert_eq!(all.len(), 1);
    assert_eq!(all[0].id, g.id);

    let fetched = store.get_group_by_id(g.id).unwrap();
    assert_eq!(fetched.name, "P-11");

    let updated = store.update_group(g.id, "P-12".to_string(), 2).unwrap();
    assert_eq!(updated.name, "P-12");
    assert_eq!(updated.shift, 2);
    assert_eq!(store.get_group_by_id(g.id).unwrap().name, "P-12");

    assert_eq!(store.delete_group(g.id).unwrap(), 200);
    assert!(matches!(store.get_group_by_id(g.id), Err(AppError::NotFound)));
}

#[test]
fn group_ids_are_not_reused() {
    let mut store = GroupStore::init();
    let a = store.add_group("A".to_string(), 1).unwrap();
    store.delete_group(a.id).unwrap();
    let b = store.add_group("B".to_string(), 1).unwrap();
    assert_ne!(a.id, b.id);
}

#[test]
fn group_errors_on_missing_ids() {
    let mut store = GroupStore::init();
    assert!(matches!(store.get_group_by_id(1), Err(AppError::NotFound)));
    assert!(matches!(store.update_group(1, "X".to_string(), 1), Err(AppError::NotFound)));
    assert!(matches!(store.delete_group(1), Err(AppError::NotFound)));
}

#[test]
fn subjects_crud_round_trip() {
    let mut store = SubjectStore::init();
    let s1 = store.add_subject("Maths".to_string(), 1).unwrap();
    let s2 = store.add_subject("Physics".to_string(), 2).unwrap();
    let s3 = store.add_subject("History".to_string(), 1).unwrap();

    let of_group_1 = store.get_subjects_by_group_id(1);
    assert_eq!(of_group_1.len(), 2);
    assert_eq!(of_group_1[0].name, "Maths");
    assert_eq!(of_group_1[1].name, "History");

    let renamed = store.edit_subject(s1.id, "Algebra".to_string()).unwrap();
    assert_eq!(renamed.name, "Algebra");
    assert_eq!(renamed.group_id, 1);
    assert_eq!(store.get_subject_by_id(s1.id).unwrap().name, "Algebra");

    assert_eq!(store.delete_subject(s2.id).unwrap(), 200);
    assert!(matches!(store.get_subject_by_id(s2.id), Err(AppError::NotFound)));
    assert!(store.get_subject_by_id(s3.id).is_ok());
}

#[test]
fn subject_errors_on_missing_ids() {
    let mut store = SubjectStore::init();
    assert!(matches!(store.edit_subject(1, "X".to_string()), Err(AppError::NotFound)));
    assert!(matches!(store.delete_subject(1), Err(AppError::NotFound)));
    assert!(matches!(store.get_subject_by_id(1), Err(AppError::NotFound)));
    assert!(store.get_subjects_by_group_id(1).is_empty());
}

#[test]
fn links_upsert_absorbs_duplicates() {
    let mut store = LinkStore::init();
    let l = store.add_teacher_link(1, 2, 3).unwrap();
    assert_eq!((l.group_id, l.teacher_id, l.subject_id), (1, 2, 3));
    store.add_teacher_link(1, 2, 3).unwrap();
    assert_eq!(store.get_teacher_links(1).len(), 1);
    // a different teacher for the same group and subject is a second link
    store.add_teacher_link(1, 9, 3).unwrap();
    assert_eq!(store.get_teacher_links(1).len(), 2);
}

#[test]
fn links_delete_removes_the_exact_link() {
    let mut store = LinkStore::init();
    store.add_teacher_link(1, 2, 3).unwrap();
    store.add_teacher_link(1, 2, 4).unwrap();
    assert_eq!(store.delete_teacher_link(1, 2, 3).unwrap(), 200);
    let left = store.get_teacher_links(1);
    assert_eq!(left.len(), 1);
    assert_eq!(left[0].subject_id, 4);
    assert!(matches!(store.delete_teacher_link(1, 2, 3), Err(AppError::NotFound)));
}

#[test]
fn teachers_crud_round_trip() {
    let mut dir = TeacherStore::init();
    let t = dir
        .add_teacher("petrov".to_string(), "hash-1".to_string(), "P. Petrov".to_string())
        .unwrap();
    assert_eq!(t.login, "petrov");
    assert_eq!(t.password_hash, "hash-1");
    assert_eq!(t.role, "");

    let by_login = dir.get_teacher_by_login(&"petrov".to_string()).unwrap();
    assert_eq!(by_login.id, t.id);

    let relogged = dir.update_teacher_login(t.id, "sidorov".to_string()).unwrap();
    assert_eq!(relogged.login, "sidorov");
    assert!(matches!(
        dir.get_teacher_by_login(&"petrov".to_string()),
        Err(AppError::NotFound)
    ));

    let rehashed = dir.update_teacher_hash(t.id, "hash-2".to_string()).unwrap();
    assert_eq!(rehashed.password_hash, "hash-2");

    let renamed = dir.update_teacher_fullname(t.id, "S. Sidorov".to_string()).unwrap();
    assert_eq!(renamed.full_name, "S. Sidorov");

    assert_eq!(dir.delete_teacher(t.id).unwrap(), 200);
    assert!(matches!(dir.get_teacher_by_id(t.id), Err(AppError::NotFound)));
}

#[test]
fn teacher_listing_hides_credentials() {
    let mut dir = TeacherStore::init();
    dir.add_teacher("a".to_string(), "secret-hash".to_string(), "A. A".to_string())
        .unwrap();
    let safe = dir.get_teachers();
    assert_eq!(safe.len(), 1);
    assert_eq!(safe[0].full_name, "A. A");
    // TeacherSafe carries id, full name and role only; nothing else to check
    assert_eq!(safe[0].role, "");
}

#[test]
fn teacher_errors_on_missing_ids() {
    let mut dir = TeacherStore::init();
    assert!(matches!(dir.get_teacher_by_id(1), Err(AppError::NotFound)));
    assert!(matches!(dir.delete_teacher(1), Err(AppError::NotFound)));
    assert!(matches!(dir.update_teacher_hash(1, "h".to_string()), Err(AppError::NotFound)));
    assert!(matches!(dir.update_teacher_login(1, "l".to_string()), Err(AppError::NotFound)));
    assert!(matches!(
        dir.update_teacher_fullname(1, "f".to_string()),
        Err(AppError::NotFound)
    ));
    assert!(matches!(dir.set_role(1, "admin".to_string()), Err(AppError::NotFound)));
}
