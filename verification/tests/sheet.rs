use auto_frs_schedule::db::repository::class::{Class, ClassFindSchedule, ClassFromSchedule};
use auto_frs_schedule::db::repository::LecturerSubjectSessionMap;
use auto_frs_schedule::excel::{Excel, FindClassSchedule, Grid, Retrieve};
use auto_frs_schedule::parser::schedule_parser::ScheduleParser;
use auto_frs_schedule::StringHashMap;

fn text(s: &str) -> Option<String> {
    Some(s.to_string())
}

/// Rows 0..=1: Monday; row 14: Tuesday.
fn sheet() -> Excel {
    let mut rows: Vec<Vec<Option<String>>> = (0..16).map(|_| vec![None, None, None, None]).collect();
    rows[0] = vec![text("ignored"), text("07.00 - 09.00"), text("Basis Data - A"), text("Basis Data - B")];
    rows[1] = vec![None, None, text("3 sks / Sem 3 / AB - CD"), text("3 sks / Sem 3 / CD")];
    rows[14] = vec![None, text("09.00 - 11.00"), text("Jaringan Komputer - A"), text("Kalkulus - A")];
    rows[15] = vec![None, None, text("2 sks / Sem 5 / AB"), text("4 sks / Sem 1 / AB")];
    let mut subjects = StringHashMap::new();
    subjects.insert("basis data".to_string(), "id-bd".to_string());
    subjects.insert("jaringan komputer".to_string(), "id-jk".to_string());
    let mut lecturers = StringHashMap::new();
    lecturers.insert("AB".to_string(), "id-ab".to_string());
    lecturers.insert("CD".to_string(), "id-cd".to_string());
    let mut sessions = StringHashMap::new();
    sessions.insert("07.00".to_string(), 1i8);
    sessions.insert("09.00".to_string(), 2i8);
    Excel {
        range: Grid::from_rows((0, 0), rows).unwrap(),
        lecturer_subjects_session_map: LecturerSubjectSessionMap { subjects, lecturers, sessions },
    }
}

#[test]
fn get_schedule_reads_classes_with_ids() {
    let excel = sheet();
    assert!(excel.can_read_classes());
    let classes: Vec<Class> = excel.get_schedule();
    assert_eq!(classes.len(), 3);
    assert_eq!(classes[0].matkul_id, "id-bd");
    assert_eq!(classes[0].lecturers_id, vec!["id-ab".to_string(), "id-cd".to_string()]);
    assert_eq!(classes[0].day, "Senin");
    assert_eq!(classes[0].code, "A");
    assert_eq!(classes[0].session_id, 1);
    assert_eq!(classes[1].code, "B");
    assert_eq!(classes[1].lecturers_id, vec!["id-cd".to_string()]);
    assert_eq!(classes[2].matkul_id, "id-jk");
    assert_eq!(classes[2].day, "Selasa");
    assert_eq!(classes[2].session_id, 2);
}

#[test]
fn get_schedule_reads_entries_with_names() {
    let excel = sheet();
    assert!(excel.can_read_entries());
    let entries: Vec<ClassFromSchedule> = excel.get_schedule();
    assert_eq!(
        entries,
        vec![
            ClassFromSchedule {
                subject_name: "Basis Data".to_string(),
                class_code: "A".to_string(),
                lecturer_code: vec!["AB".to_string(), "CD".to_string()],
                day: "Senin".to_string(),
                session_start: "07.00".to_string(),
            },
            ClassFromSchedule {
                subject_name: "Basis Data".to_string(),
                class_code: "B".to_string(),
                lecturer_code: vec!["CD".to_string()],
                day: "Senin".to_string(),
                session_start: "07.00".to_string(),
            },
            ClassFromSchedule {
                subject_name: "Jaringan Komputer".to_string(),
                class_code: "A".to_string(),
                lecturer_code: vec!["AB".to_string()],
                day: "Selasa".to_string(),
                session_start: "09.00".to_string(),
            },
        ]
    );
}

#[test]
fn unknown_lecturer_makes_class_schedule_unreadable() {
    let mut excel = sheet();
    let mut lecturers = StringHashMap::new();
    lecturers.insert("AB".to_string(), "id-ab".to_string());
    excel.lecturer_subjects_session_map.lecturers = lecturers;
    assert!(!excel.can_read_classes());
    assert!(excel.can_read_entries());
}

#[test]
fn class_past_the_last_day_is_unreadable() {
    let mut rows: Vec<Vec<Option<String>>> = (0..72).map(|_| vec![None, None, None]).collect();
    rows[70] = vec![None, text("07.00 - 09.00"), text("Basis Data - A")];
    rows[71] = vec![None, None, text("3 sks / Sem 3 / AB")];
    let mut excel = sheet();
    excel.range = Grid::from_rows((0, 0), rows).unwrap();
    assert!(!excel.can_read_classes());
    assert!(!excel.can_read_entries());
    assert!(!excel.can_find("Basis"));
    assert!(excel.can_find("Kalkulus"));
}

#[test]
fn find_schedule_from_class_matches_substring() {
    let excel = sheet();
    assert!(excel.can_find("Basis"));
    let found = excel.find_schedule_from_class("Basis");
    assert_eq!(
        found,
        vec![
            ClassFindSchedule {
                class: "Basis Data - A".to_string(),
                lecturers_code: vec!["AB".to_string(), "CD".to_string()],
                day: "Senin".to_string(),
                session_start: "07.00".to_string(),
            },
            ClassFindSchedule {
                class: "Basis Data - B".to_string(),
                lecturers_code: vec!["CD".to_string()],
                day: "Senin".to_string(),
                session_start: "07.00".to_string(),
            },
        ]
    );
    let kalkulus = excel.find_schedule_from_class("Kalkulus");
    assert_eq!(kalkulus.len(), 1);
    assert_eq!(kalkulus[0].day, "Selasa");
    assert_eq!(kalkulus[0].session_start, "09.00");
}

#[test]
fn retrieve_reads_detail_below_and_session_in_column_one() {
    let excel = sheet();
    assert_eq!(excel.retrieve_class_detail(0, 2), text("3 sks / Sem 3 / AB - CD"));
    assert_eq!(excel.retrieve_session(0), text("07.00 - 09.00"));
    assert_eq!(excel.retrieve_session(1), None);
    assert_eq!(excel.retrieve_class_detail(15, 2), None);
}

#[test]
fn grid_positions_are_absolute() {
    let rows = vec![vec![text("a"), text("b")], vec![text("c"), None]];
    let g = Grid::from_rows((3, 5), rows).unwrap();
    assert_eq!(g.get_string((3, 5)), text("a"));
    assert_eq!(g.get_string((3, 6)), text("b"));
    assert_eq!(g.get_string((4, 5)), text("c"));
    assert_eq!(g.get_string((4, 6)), None);
    assert_eq!(g.get_string((2, 5)), None);
    assert_eq!(g.get_string((3, 7)), None);
    assert_eq!(g.cell(1, 0), text("c"));
    let empty = Grid::new((0, 0), (1, 2));
    assert_eq!(empty.height(), 2);
    assert_eq!(empty.row_width(1), 3);
    assert_eq!(empty.get_string((1, 2)), None);
}

#[test]
fn try_get_schedule_reads_only_a_readable_sheet() {
    let excel = sheet();
    let classes: Option<Vec<Class>> = excel.try_get_schedule();
    assert_eq!(classes.map(|v| v.len()), Some(3));
    let entries: Option<Vec<ClassFromSchedule>> = excel.try_get_schedule();
    assert_eq!(entries, Some(excel.get_schedule()));
    let mut unknown = sheet();
    let mut lecturers = StringHashMap::new();
    lecturers.insert("AB".to_string(), "id-ab".to_string());
    unknown.lecturer_subjects_session_map.lecturers = lecturers;
    let classes: Option<Vec<Class>> = unknown.try_get_schedule();
    assert!(classes.is_none());
}
