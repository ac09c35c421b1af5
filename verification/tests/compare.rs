use auto_frs_schedule::commands::compare::{compare_class, compare_schedule, is_same_class, is_schedule_sync};
use auto_frs_schedule::db::repository::class::{schedule_map, ClassFromSchedule, ClassMap, ScheduleRow};

fn class(subject: &str, code: &str, lecturers: &[&str], day: &str, session: &str) -> ClassFromSchedule {
    ClassFromSchedule {
        subject_name: subject.to_string(),
        class_code: code.to_string(),
        lecturer_code: lecturers.iter().map(|s| s.to_string()).collect(),
        day: day.to_string(),
        session_start: session.to_string(),
    }
}

#[test]
fn test_compare_two_same_class() {
    let db_class = ClassFromSchedule {
        subject_name: String::from("Pemrograman Web"),
        class_code: String::from("A"),
        lecturer_code: vec!["AD".to_string(), "AZ".to_string()],
        day: String::from("Senin"),
        session_start: String::from("13.00"),
    };

    let excel_class = ClassFromSchedule {
        subject_name: String::from("Pemrograman Web"),
        class_code: String::from("A"),
        lecturer_code: vec!["AD".to_string(), "AZ".to_string()],
        day: String::from("Senin"),
        session_start: String::from("13.00"),
    };

    assert!(compare_class(&db_class, &excel_class));
}

#[test]
fn test_compare_two_diff_class() {
    let db_class = ClassFromSchedule {
        subject_name: String::from("Pemrograman Jaringan"),
        class_code: String::from("A"),
        lecturer_code: vec!["AZ".to_string(), "AD".to_string()],
        day: String::from("Senin"),
        session_start: String::from("13.00"),
    };

    let excel_class = ClassFromSchedule {
        subject_name: String::from("Pemrograman Web"),
        class_code: String::from("A"),
        lecturer_code: vec!["AD".to_string(), "AZ".to_string()],
        day: String::from("Senin"),
        session_start: String::from("13.00"),
    };

    assert!(!compare_class(&db_class, &excel_class));
}

#[test]
fn test_compare_two_same_class_with_diff_lecs() {
    let db_class = ClassFromSchedule {
        subject_name: String::from("Pemrograman Web"),
        class_code: String::from("A"),
        lecturer_code: vec!["AZ".to_string(), "AD".to_string()],
        day: String::from("Senin"),
        session_start: String::from("13.00"),
    };

    let excel_class = ClassFromSchedule {
        subject_name: String::from("Pemrograman Web"),
        class_code: String::from("A"),
        lecturer_code: vec!["AD".to_string(), "AZ".to_string()],
        day: String::from("Senin"),
        session_start: String::from("13.00"),
    };

    assert!(compare_class(&db_class, &excel_class));
}

#[test]
fn compare_class_counts_repeated_lecturers() {
    let a = class("Basis Data", "A", &["AD", "AD", "AZ"], "Senin", "07.00");
    let b = class("Basis Data", "A", &["AD", "AZ", "AZ"], "Senin", "07.00");
    assert!(!compare_class(&a, &b));
    let c = class("Basis Data", "A", &["AZ", "AD"], "Senin", "07.00");
    assert!(!compare_class(&a, &c));
    let d = class("Basis Data", "A", &["AD", "AZ", "AD"], "Senin", "07.00");
    assert!(compare_class(&a, &d));
}

#[test]
fn compare_class_checks_day_and_session() {
    let a = class("Basis Data", "A", &["AD"], "Senin", "07.00");
    assert!(!compare_class(&a, &class("Basis Data", "A", &["AD"], "Selasa", "07.00")));
    assert!(!compare_class(&a, &class("Basis Data", "A", &["AD"], "Senin", "09.00")));
    assert!(!compare_class(&a, &class("Basis Data", "B", &["AD"], "Senin", "07.00")));
}

#[test]
fn is_same_class_needs_the_lecturer_flag() {
    let a = class("Basis Data", "A", &["AD"], "Senin", "07.00");
    assert!(is_same_class(&a, &a, true));
    assert!(!is_same_class(&a, &a, false));
}

#[test]
fn is_schedule_sync_only_when_all_empty() {
    let a = class("Basis Data", "A", &["AD"], "Senin", "07.00");
    assert!(is_schedule_sync(&[], &[], &[]));
    assert!(!is_schedule_sync(&[a.clone()], &[], &[]));
    assert!(!is_schedule_sync(&[], &[a.clone()], &[]));
    assert!(!is_schedule_sync(&[], &[], &[(a.clone(), a)]));
}

fn map_of(classes: &[ClassFromSchedule]) -> ClassMap {
    let mut m = ClassMap::new();
    for c in classes {
        m.insert((c.subject_name.clone(), c.class_code.clone()), c.clone());
    }
    m
}

#[test]
fn compare_schedule_finds_added_changed_deleted() {
    let kept = class("Basis Data", "A", &["AD"], "Senin", "07.00");
    let moved_db = class("Basis Data", "B", &["AD"], "Senin", "09.00");
    let moved_excel = class("Basis Data", "B", &["AD"], "Rabu", "09.00");
    let gone = class("Jaringan Komputer", "A", &["AZ"], "Kamis", "13.00");
    let new = class("Game Cerdas", "-", &["FB"], "Selasa", "10.00");
    let db = map_of(&[kept.clone(), moved_db.clone(), gone.clone()]);
    let (added, deleted, changed) = compare_schedule(vec![kept.clone(), moved_excel.clone(), new.clone()], db);
    assert_eq!(added, vec![new]);
    assert_eq!(deleted, vec![gone]);
    assert_eq!(changed, vec![(moved_db, moved_excel)]);
    assert!(!is_schedule_sync(&added, &deleted, &changed));
}

#[test]
fn compare_schedule_of_same_schedule_is_sync() {
    let classes = vec![
        class("Basis Data", "A", &["AD", "AZ"], "Senin", "07.00"),
        class("Basis Data", "B", &["AD"], "Senin", "09.00"),
        class("Jaringan Komputer", "A", &["AZ"], "Kamis", "13.00"),
    ];
    let (added, deleted, changed) = compare_schedule(classes.clone(), map_of(&classes));
    assert!(added.is_empty() && deleted.is_empty() && changed.is_empty());
    assert!(is_schedule_sync(&added, &deleted, &changed));
}

#[test]
fn compare_schedule_duplicate_excel_key_is_added() {
    let a = class("Basis Data", "A", &["AD"], "Senin", "07.00");
    let (added, deleted, changed) = compare_schedule(vec![a.clone(), a.clone()], map_of(&[a.clone()]));
    assert_eq!(added, vec![a]);
    assert!(deleted.is_empty() && changed.is_empty());
}

#[test]
fn schedule_map_keeps_last_row_per_key() {
    let rows = vec![
        ScheduleRow {
            subject_name: "Basis Data".to_string(),
            class_code: "A".to_string(),
            day: "Senin".to_string(),
            lecturer_code: vec!["AD".to_string()],
            session_time: "07.00 - 09.00".to_string(),
        },
        ScheduleRow {
            subject_name: "Basis Data".to_string(),
            class_code: "A".to_string(),
            day: "Senin".to_string(),
            lecturer_code: vec!["AZ".to_string()],
            session_time: "07.00 - 09.00".to_string(),
        },
    ];
    let m = schedule_map(rows);
    assert_eq!(m.len(), 1);
    let values = m.into_values();
    assert_eq!(values, vec![class("Basis Data", "A", &["AZ"], "Senin", "07.00")]);
}

#[test]
fn compare_schedule_with_empty_database_adds_everything() {
    let classes = vec![
        class("Basis Data", "A", &["AD"], "Senin", "07.00"),
        class("Game Cerdas", "-", &["FB"], "Selasa", "10.00"),
    ];
    let (added, deleted, changed) = compare_schedule(classes.clone(), ClassMap::new());
    assert_eq!(added, classes);
    assert!(deleted.is_empty() && changed.is_empty());
}

#[test]
fn compare_schedule_of_empty_excel_deletes_everything() {
    let a = class("Basis Data", "A", &["AD"], "Senin", "07.00");
    let b = class("Game Cerdas", "-", &["FB"], "Selasa", "10.00");
    let (added, mut deleted, changed) = compare_schedule(vec![], map_of(&[a.clone(), b.clone()]));
    assert!(added.is_empty() && changed.is_empty());
    deleted.sort_by(|x, y| x.subject_name.cmp(&y.subject_name));
    assert_eq!(deleted, vec![a, b]);
}

#[test]
fn class_map_gives_back_the_last_value_put_under_a_key() {
    let a = class("Basis Data", "A", &["AD"], "Senin", "07.00");
    let a2 = class("Basis Data", "A", &["AZ"], "Rabu", "09.00");
    let b = class("Game Cerdas", "-", &["FB"], "Selasa", "10.00");
    let key = ("Basis Data".to_string(), "A".to_string());
    let mut m = ClassMap::new();
    m.insert(key.clone(), a);
    m.insert(("Game Cerdas".to_string(), "-".to_string()), b.clone());
    m.insert(key.clone(), a2.clone());
    assert_eq!(m.len(), 2);
    assert_eq!(m.remove(&key), Some(a2));
    assert_eq!(m.remove(&key), None);
    assert_eq!(m.len(), 1);
    assert_eq!(m.into_values(), vec![b]);
}

#[test]
fn compare_schedule_ignores_database_order_and_lecturer_order() {
    let excel = vec![
        class("Basis Data", "A", &["AD", "AZ"], "Senin", "07.00"),
        class("Game Cerdas", "-", &["FB"], "Selasa", "10.00"),
    ];
    let db = map_of(&[
        class("Game Cerdas", "-", &["FB"], "Selasa", "10.00"),
        class("Basis Data", "A", &["AZ", "AD"], "Senin", "07.00"),
    ]);
    let (added, deleted, changed) = compare_schedule(excel, db);
    assert!(is_schedule_sync(&added, &deleted, &changed));
}

#[test]
fn compare_schedule_is_not_sync_when_a_key_is_missing_either_side() {
    let a = class("Basis Data", "A", &["AD"], "Senin", "07.00");
    let b = class("Game Cerdas", "-", &["FB"], "Selasa", "10.00");
    let (added, deleted, changed) = compare_schedule(vec![a.clone()], map_of(&[a.clone(), b.clone()]));
    assert!(!is_schedule_sync(&added, &deleted, &changed));
    let (added, deleted, changed) = compare_schedule(vec![a.clone(), b], map_of(&[a]));
    assert!(!is_schedule_sync(&added, &deleted, &changed));
}
