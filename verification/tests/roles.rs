use schedule_api::auth::require_role;
use schedule_api::auth::role_allows;
use schedule_api::directory::TeacherStore;
use schedule_api::errors::AppError;

fn directory_with(role: &str) -> (TeacherStore, i64) {
    let mut dir = TeacherStore::init();
    let t = dir
        .add_teacher("ivanov".to_string(), "hash".to_string(), "I. Ivanov".to_string())
        .unwrap();
    dir.set_role(t.id, role.to_string()).unwrap();
    (dir, t.id)
}

#[test]
fn admin_passes_the_empty_allow_list() {
    assert!(role_allows(&"admin".to_string(), &Vec::new()));
}

#[test]
fn admin_passes_every_allow_list() {
    let allow = vec!["staff".to_string(), "dean".to_string()];
    assert!(role_allows(&"admin".to_string(), &allow));
}

#[test]
fn non_matching_role_is_denied() {
    let allow = vec!["staff".to_string()];
    assert!(!role_allows(&"teacher".to_string(), &allow));
    assert!(!role_allows(&"teacher".to_string(), &Vec::new()));
}

#[test]
fn listed_role_is_admitted() {
    let allow = vec!["staff".to_string(), "teacher".to_string()];
    assert!(role_allows(&"teacher".to_string(), &allow));
}

#[test]
fn gate_admits_admin_on_empty_list() {
    let (dir, id) = directory_with("admin");
    let granted = require_role(&dir, Some(id), &Vec::new()).unwrap();
    assert_eq!(granted.id, id);
    assert_eq!(granted.role, "admin");
}

#[test]
fn gate_admits_listed_role() {
    let (dir, id) = directory_with("teacher");
    let allow = vec!["teacher".to_string()];
    let granted = require_role(&dir, Some(id), &allow).unwrap();
    assert_eq!(granted.id, id);
}

#[test]
fn gate_denies_unlisted_role() {
    let (dir, id) = directory_with("teacher");
    let allow = vec!["staff".to_string()];
    assert!(matches!(require_role(&dir, Some(id), &allow), Err(AppError::Forbidden)));
    assert!(matches!(require_role(&dir, Some(id), &Vec::new()), Err(AppError::Forbidden)));
}

#[test]
fn gate_reports_missing_principal_as_unauthenticated() {
    let (dir, _) = directory_with("admin");
    assert!(matches!(require_role(&dir, None, &Vec::new()), Err(AppError::Unauthorized)));
}

#[test]
fn gate_reports_directory_miss_as_internal() {
    let (dir, _) = directory_with("admin");
    assert!(matches!(require_role(&dir, Some(999), &Vec::new()), Err(AppError::Internal)));
}

#[test]
fn freshly_added_teacher_has_no_privileged_role() {
    let mut dir = TeacherStore::init();
    let t = dir
        .add_teacher("new".to_string(), "hash".to_string(), "N. New".to_string())
        .unwrap();
    assert_eq!(t.role, "");
    assert!(matches!(require_role(&dir, Some(t.id), &Vec::new()), Err(AppError::Forbidden)));
}
