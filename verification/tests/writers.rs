use auto_frs_schedule::db::repository::class::{Class, ClassFromSchedule};
use auto_frs_schedule::file_writer::class_writer::{class_info_line, debug_string_list};
use auto_frs_schedule::file_writer::compare_writer::{change_section, compare_result_text, CompareVecResult};
use auto_frs_schedule::file_writer::sql_writer::{i8_to_string, new_class_id, sql_insert_statement, sql_statements};

fn math() -> ClassFromSchedule {
    ClassFromSchedule {
        subject_name: "Math".to_string(),
        class_code: "M101".to_string(),
        day: "Monday".to_string(),
        session_start: "08:00".to_string(),
        lecturer_code: vec!["L1".to_string()],
    }
}

fn physics() -> ClassFromSchedule {
    ClassFromSchedule {
        subject_name: "Physics".to_string(),
        class_code: "P101".to_string(),
        day: "Tuesday".to_string(),
        session_start: "09:00".to_string(),
        lecturer_code: vec!["L2".to_string()],
    }
}

#[test]
fn compare_writer_test_write_change() {
    let data = vec![(math(), physics())];
    let contents = change_section("CHANGED", &CompareVecResult::DBAndExcel(&data));
    assert!(contents.contains("--- CHANGED ---"));
    assert!(contents.contains("From DB : Math M101, Monday 08:00, [\"L1\"]"));
    assert!(contents.contains("From Excel : Physics P101, Tuesday 09:00, [\"L2\"]"));
    assert_eq!(
        contents,
        "--- CHANGED ---\nFrom DB : Math M101, Monday 08:00, [\"L1\"]\nFrom Excel : Physics P101, Tuesday 09:00, [\"L2\"]\n"
    );
}

#[test]
fn compare_writer_test_write_compare_result() {
    let added = vec![math()];
    let changed = vec![(math(), physics())];
    let deleted = vec![physics()];
    let contents = compare_result_text(&added, &changed, &deleted);
    assert!(contents.contains("--- ADDED ---"));
    assert!(contents.contains("Math M101, Monday 08:00, [\"L1\"]"));
    assert!(contents.contains("--- CHANGED ---"));
    assert!(contents.contains("From DB : Math M101, Monday 08:00, [\"L1\"]"));
    assert!(contents.contains("From Excel : Physics P101, Tuesday 09:00, [\"L2\"]"));
    assert!(contents.contains("--- DELETED ---"));
    assert!(contents.contains("Physics P101, Tuesday 09:00, [\"L2\"]"));
    assert_eq!(
        contents,
        "--- ADDED ---\n Math M101, Monday 08:00, [\"L1\"]\n--- CHANGED ---\nFrom DB : Math M101, Monday 08:00, [\"L1\"]\nFrom Excel : Physics P101, Tuesday 09:00, [\"L2\"]\n--- DELETED ---\n Physics P101, Tuesday 09:00, [\"L2\"]\n"
    );
}

#[test]
fn class_info_line_lists_lecturers_as_debug() {
    let mut c = math();
    c.lecturer_code = vec!["A\"B".to_string(), "C".to_string()];
    assert_eq!(class_info_line("X", &c), "X Math M101, Monday 08:00, [\"A\\\"B\", \"C\"]\n");
    assert_eq!(debug_string_list(&vec![]), "[]");
    let v = vec!["L1".to_string(), "L2".to_string()];
    assert_eq!(debug_string_list(&v), format!("{:?}", v));
}

#[test]
fn sql_writer_test_write_output() {
    let class = Class {
        matkul_id: "CS101".to_string(),
        day: "Monday".to_string(),
        code: "C1".to_string(),
        session_id: 1,
        lecturers_id: vec![],
    };
    let stmts = sql_statements(&[class]).unwrap();
    assert_eq!(stmts.len(), 1);
    assert!(stmts[0].contains(
        "INSERT INTO Class (id, matkulId, day, code, isAksel, taken, sessionId) VALUES ("
    ));
    assert!(stmts[0].contains("'CS101', 'Monday', 'C1', false, 0, 1"));
}

#[test]
fn sql_insert_statement_exact() {
    let class = Class {
        matkul_id: "CS101".to_string(),
        day: "Monday".to_string(),
        code: "C1".to_string(),
        session_id: -7,
        lecturers_id: vec!["x".to_string()],
    };
    assert_eq!(
        sql_insert_statement("cabc", &class),
        "INSERT INTO Class (id, matkulId, day, code, isAksel, taken, sessionId) VALUES ('cabc', 'CS101', 'Monday', 'C1', false, 0, -7);\n"
    );
}

#[test]
fn new_class_ids_start_with_c_and_differ() {
    let a = new_class_id().unwrap();
    let b = new_class_id().unwrap();
    assert!(a.starts_with('c'));
    assert!(b.starts_with('c'));
    assert!(a.chars().all(|c| c.is_ascii_digit() || c.is_ascii_lowercase()));
    assert!(b.chars().all(|c| c.is_ascii_digit() || c.is_ascii_lowercase()));
    assert_ne!(a, b);
}

#[test]
fn i8_to_string_matches_display() {
    for n in i8::MIN..=i8::MAX {
        assert_eq!(i8_to_string(n), n.to_string());
    }
}

#[test]
fn file_test_write_change() {
    let data = vec![(math(), physics())];
    let contents = change_section("CHANGED", &CompareVecResult::DBAndExcel(&data));
    assert!(contents.contains("--- CHANGED ---"));
    assert!(contents.contains("From DB : Math M101, Monday 08:00, [\"L1\"]"));
    assert!(contents.contains("From Excel : Physics P101, Tuesday 09:00, [\"L2\"]"));
}

#[test]
fn file_test_write_output() {
    let class = Class {
        matkul_id: "CS101".to_string(),
        day: "Monday".to_string(),
        code: "C1".to_string(),
        session_id: 1,
        lecturers_id: vec![],
    };
    let contents: String = sql_statements(&[class]).unwrap().concat();
    assert!(contents.contains(
        "INSERT INTO Class (id, matkulId, day, code, isAksel, taken, sessionId) VALUES ("
    ));
    assert!(contents.contains("'CS101', 'Monday', 'C1', false, 0, 1"));
}

#[test]
fn file_test_write_compare_result() {
    let added = vec![math()];
    let changed = vec![(math(), physics())];
    let deleted = vec![physics()];
    let contents = compare_result_text(&added, &changed, &deleted);
    assert!(contents.contains("--- ADDED ---"));
    assert!(contents.contains("Math M101, Monday 08:00, [\"L1\"]"));
    assert!(contents.contains("--- CHANGED ---"));
    assert!(contents.contains("From DB : Math M101, Monday 08:00, [\"L1\"]"));
    assert!(contents.contains("From Excel : Physics P101, Tuesday 09:00, [\"L2\"]"));
    assert!(contents.contains("--- DELETED ---"));
    assert!(contents.contains("Physics P101, Tuesday 09:00, [\"L2\"]"));
}

#[test]
fn sql_statements_of_no_class_is_empty() {
    assert_eq!(sql_statements(&[]), Ok(Vec::<String>::new()));
}
