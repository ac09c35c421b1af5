use auto_frs_schedule::db::repository::class::ClassFromSchedule;
use auto_frs_schedule::db::repository::LecturerSubjectSessionMap;
use auto_frs_schedule::excel::{Excel, Grid};
use auto_frs_schedule::StringHashMap;

fn text(s: &str) -> Option<String> {
    Some(s.to_string())
}

fn strings(v: &[&str]) -> Vec<String> {
    v.iter().map(|s| s.to_string()).collect()
}

fn string_map(pairs: &[(&str, &str)]) -> StringHashMap<String> {
    let mut m = StringHashMap::new();
    for (k, v) in pairs {
        m.insert(k.to_string(), v.to_string());
    }
    m
}

fn sessions() -> StringHashMap<i8> {
    let mut m = StringHashMap::new();
    m.insert("07.00".to_string(), 1i8);
    m.insert("09.00".to_string(), 2i8);
    m
}

fn excel_of(rows: Vec<Vec<Option<String>>>) -> Excel {
    Excel {
        range: Grid::from_rows((0, 0), rows).unwrap(),
        lecturer_subjects_session_map: LecturerSubjectSessionMap::new(),
    }
}

/// Rows 0..=1: Monday; rows 14..=15: Tuesday (fourteen rows a day).
fn sheet() -> Excel {
    let mut rows: Vec<Vec<Option<String>>> = (0..16).map(|_| vec![None, None, None, None]).collect();
    rows[0] = vec![text("x"), text("07.00 - 09.00"), text("Basis Data - A"), text("Kalkulus IUP - akselerasi")];
    rows[1] = vec![None, None, text("3 sks / Sem 3 / AB - XY"), text("4 sks / Sem 1 / CD")];
    rows[14] = vec![None, text("09.00 - 11.00"), text("Jaringan Komputer B"), text("Basis Data A - EN")];
    rows[15] = vec![None, None, text("2 sks / Sem 5 / AB"), text("3 sks / Sem 3 / CD - AB")];
    excel_of(rows)
}

fn lowercase_subjects() -> StringHashMap<String> {
    string_map(&[("basis data", "id-bd"), ("jaringan komputer", "id-jk")])
}

#[test]
fn subject_class_to_str_keeps_the_name_of_a_known_subject() {
    let subjects = lowercase_subjects();
    assert_eq!(
        Excel::subject_class_to_str("Basis Data - A", &subjects),
        Some(("Basis Data".to_string(), "A".to_string()))
    );
    assert_eq!(
        Excel::subject_class_to_str("Basis Data A - EN", &subjects),
        Some(("Basis Data".to_string(), "A - EN".to_string()))
    );
    assert_eq!(
        Excel::subject_class_to_str("Jaringan Komputer B", &subjects),
        Some(("Jaringan Komputer".to_string(), "B".to_string()))
    );
    assert_eq!(Excel::subject_class_to_str("Kalkulus - A", &subjects), None);
}

#[test]
fn subject_class_to_map_gives_the_identifier() {
    let subjects = lowercase_subjects();
    assert_eq!(
        Excel::subject_class_to_map("BASIS DATA - B", &subjects),
        Some(("id-bd".to_string(), "B".to_string()))
    );
    assert_eq!(
        Excel::subject_class_to_map("Jaringan Komputer", &subjects),
        Some(("id-jk".to_string(), "-".to_string()))
    );
    assert_eq!(Excel::subject_class_to_map("Kalkulus - A", &subjects), None);
}

#[test]
fn lecturer_to_str_marks_unknown_codes() {
    let excel = sheet();
    let lecturers = string_map(&[("AB", "id-ab"), ("CD", "id-cd")]);
    assert_eq!(excel.lecturer_to_str(0, 2, &lecturers), Some(strings(&["AB", "UNK"])));
    assert_eq!(excel.lecturer_to_str(14, 3, &lecturers), Some(strings(&["CD", "AB"])));
    assert_eq!(excel.lecturer_to_str(0, 0, &lecturers), None);
}

#[test]
fn lecturer_to_map_falls_back_to_the_unknown_identifier() {
    let excel = sheet();
    let lecturers = string_map(&[("AB", "id-ab"), ("CD", "id-cd"), ("UNK", "id-unk")]);
    assert_eq!(excel.lecturer_to_map(0, 2, &lecturers), Some(strings(&["id-ab", "id-unk"])));
    assert_eq!(excel.lecturer_to_map(0, 3, &lecturers), Some(strings(&["id-cd"])));
    assert_eq!(excel.lecturer_to_map(0, 1, &lecturers), None);
}

#[test]
fn known_lecturer_ids_leave_unknown_codes_out() {
    let excel = sheet();
    let lecturers = string_map(&[("AB", "id-ab")]);
    assert_eq!(excel.known_lecturer_ids(0, 2, &lecturers), Some(strings(&["id-ab"])));
    assert_eq!(excel.known_lecturer_ids(0, 3, &lecturers), None);
}

#[test]
fn session_lookups_use_the_start_time() {
    let excel = sheet();
    let known = sessions();
    assert_eq!(excel.session_to_str(0, &known), Some("07.00".to_string()));
    assert_eq!(excel.session_to_map(14, &known), Some(2));
    assert_eq!(excel.session_to_str(1, &known), None);
    let mut other = StringHashMap::new();
    other.insert("13.00".to_string(), 3i8);
    assert_eq!(excel.session_to_map(0, &other), None);
}

#[test]
fn updated_schedule_to_str_reads_every_known_class() {
    let excel = sheet();
    let subjects = lowercase_subjects();
    let lecturers = string_map(&[("AB", "id-ab"), ("CD", "id-cd")]);
    assert!(excel.can_update_schedule(&subjects));
    let entries = excel.updated_schedule_to_str(&subjects, &lecturers, &sessions());
    assert_eq!(
        entries,
        vec![
            ClassFromSchedule {
                subject_name: "Basis Data".to_string(),
                class_code: "A".to_string(),
                lecturer_code: strings(&["AB", "UNK"]),
                day: "Senin".to_string(),
                session_start: "07.00".to_string(),
            },
            ClassFromSchedule {
                subject_name: "Jaringan Komputer".to_string(),
                class_code: "B".to_string(),
                lecturer_code: strings(&["AB"]),
                day: "Selasa".to_string(),
                session_start: "09.00".to_string(),
            },
            ClassFromSchedule {
                subject_name: "Basis Data".to_string(),
                class_code: "A - EN".to_string(),
                lecturer_code: strings(&["CD", "AB"]),
                day: "Selasa".to_string(),
                session_start: "09.00".to_string(),
            },
        ]
    );
}

#[test]
fn detail_without_lecturer_part_stops_the_update() {
    let mut rows: Vec<Vec<Option<String>>> = (0..2).map(|_| vec![None, None, None]).collect();
    rows[0] = vec![None, text("07.00 - 09.00"), text("Basis Data - A")];
    rows[1] = vec![None, None, text("3 sks / Sem 3")];
    let excel = excel_of(rows);
    assert!(!excel.can_update_schedule(&lowercase_subjects()));
    assert!(excel.can_update_schedule(&string_map(&[("kalkulus", "id-kal")])));
}

#[test]
fn parse_excel_to_map_reads_identifiers() {
    let excel = sheet();
    let subjects = lowercase_subjects();
    let lecturers = string_map(&[("AB", "id-ab"), ("CD", "id-cd"), ("UNK", "id-unk")]);
    assert!(excel.can_parse_to_map(&subjects, &lecturers));
    let classes = excel.parse_excel_to_map(&subjects, &lecturers, &sessions());
    assert_eq!(classes.len(), 3);
    assert_eq!(classes[0].matkul_id, "id-bd");
    assert_eq!(classes[0].lecturers_id, strings(&["id-ab", "id-unk"]));
    assert_eq!(classes[0].day, "Senin");
    assert_eq!(classes[0].code, "A");
    assert_eq!(classes[0].session_id, 1);
    assert_eq!(classes[1].matkul_id, "id-jk");
    assert_eq!(classes[1].code, "B");
    assert_eq!(classes[1].day, "Selasa");
    assert_eq!(classes[1].session_id, 2);
    assert_eq!(classes[2].code, "A - EN");
    assert_eq!(classes[2].lecturers_id, strings(&["id-cd", "id-ab"]));
}

#[test]
fn unknown_lecturer_without_fallback_stops_parse_to_map() {
    let excel = sheet();
    let lecturers = string_map(&[("AB", "id-ab"), ("CD", "id-cd")]);
    assert!(!excel.can_parse_to_map(&lowercase_subjects(), &lecturers));
}

#[test]
fn parse_subject_class_reads_iup_acceleration_classes() {
    let subjects = string_map(&[("Basis Data", "id-bd"), ("Kalkulus", "id-kal")]);
    assert_eq!(
        Excel::parse_subject_class("Kalkulus IUP - akselerasi", &subjects),
        Some(("id-kal".to_string(), "IUP akselerasi".to_string()))
    );
    assert_eq!(
        Excel::parse_subject_class("Basis Data - A", &subjects),
        Some(("id-bd".to_string(), "A".to_string()))
    );
    assert_eq!(Excel::parse_subject_class("basis data - A", &subjects), None);
    assert_eq!(Excel::parse_subject_class("Basis Data", &subjects), None);
}

#[test]
fn parse_excel_keeps_classes_with_known_lecturers() {
    let excel = sheet();
    let subjects = string_map(&[("Basis Data", "id-bd"), ("Kalkulus", "id-kal")]);
    let lecturers = string_map(&[("AB", "id-ab"), ("CD", "id-cd")]);
    assert!(excel.can_parse_excel(&subjects, &lecturers));
    let classes = excel.parse_excel(&subjects, &lecturers, &sessions());
    assert_eq!(classes.len(), 2);
    assert_eq!(classes[0].matkul_id, "id-bd");
    assert_eq!(classes[0].lecturers_id, strings(&["id-ab"]));
    assert_eq!(classes[0].code, "A");
    assert_eq!(classes[1].matkul_id, "id-kal");
    assert_eq!(classes[1].code, "IUP akselerasi");
    assert_eq!(classes[1].lecturers_id, strings(&["id-cd"]));
    assert_eq!(classes[1].day, "Senin");
    assert_eq!(classes[1].session_id, 1);
}

#[test]
fn parse_excel_counts_fifteen_rows_a_day() {
    let mut rows: Vec<Vec<Option<String>>> = (0..17).map(|_| vec![None, None, None, None]).collect();
    rows[14] = vec![None, text("07.00 - 09.00"), text("Basis Data - B"), None];
    rows[15] = vec![None, text("09.00 - 11.00"), text("1 / 1 / AB"), text("Kalkulus - C")];
    rows[16] = vec![None, None, None, text("2 / 2 / CD")];
    let excel = excel_of(rows);
    let subjects = string_map(&[("Basis Data", "id-bd"), ("Kalkulus", "id-kal")]);
    let lecturers = string_map(&[("AB", "id-ab"), ("CD", "id-cd")]);
    assert!(excel.can_parse_excel(&subjects, &lecturers));
    let classes = excel.parse_excel(&subjects, &lecturers, &sessions());
    assert_eq!(classes.len(), 2);
    assert_eq!(classes[0].day, "Senin");
    assert_eq!(classes[0].session_id, 1);
    assert_eq!(classes[1].day, "Selasa");
    assert_eq!(classes[1].session_id, 2);
}

fn kinds_sheet(lecturers: StringHashMap<String>) -> Excel {
    let mut rows: Vec<Vec<Option<String>>> = (0..16).map(|_| vec![None, None, None, None]).collect();
    rows[0] = vec![None, text("07.00 - 09.00"), text("Jaringan Komputer - IUP"), text("Basis Data D - EN")];
    rows[1] = vec![None, None, text("3 / 3 / AB - XY"), text("2 / 1 / CD")];
    rows[14] = vec![None, text("09.00 - 11.00"), text("Realitas X"), text("Game Cerdas")];
    rows[15] = vec![None, None, text("2 / 5 / AB"), text("1 / 1 / AB")];
    let subjects = string_map(&[
        ("jaringan komputer", "id-jk"),
        ("basis data", "id-bd"),
        ("realitas x", "id-rx"),
        ("game cerdas", "id-gc"),
    ]);
    Excel {
        range: Grid::from_rows((0, 0), rows).unwrap(),
        lecturer_subjects_session_map: LecturerSubjectSessionMap { subjects, lecturers, sessions: sessions() },
    }
}

#[test]
fn get_schedule_by_kind_reads_every_kind_of_class() {
    let excel = kinds_sheet(string_map(&[("AB", "id-ab"), ("CD", "id-cd"), ("UNK", "id-unk")]));
    assert!(excel.can_read_by_kind());
    let classes = excel.get_schedule_by_kind();
    assert_eq!(classes.len(), 4);
    assert_eq!((classes[0].matkul_id.as_str(), classes[0].code.as_str()), ("id-jk", "IUP"));
    assert_eq!(classes[0].lecturers_id, strings(&["id-ab", "id-unk"]));
    assert_eq!((classes[1].matkul_id.as_str(), classes[1].code.as_str()), ("id-bd", "D - EN"));
    assert_eq!(classes[1].day, "Senin");
    assert_eq!((classes[2].matkul_id.as_str(), classes[2].code.as_str()), ("id-rx", "-"));
    assert_eq!(classes[2].day, "Selasa");
    assert_eq!(classes[2].session_id, 2);
    assert_eq!((classes[3].matkul_id.as_str(), classes[3].code.as_str()), ("id-gc", "-"));
}

#[test]
fn get_schedule_by_kind_needs_every_lecturer_or_a_fallback() {
    let excel = kinds_sheet(string_map(&[("AB", "id-ab"), ("CD", "id-cd")]));
    assert!(!excel.can_read_by_kind());
    assert_eq!(
        excel.subject_id_by_kind("Basis Data D - EN"),
        Some(("id-bd".to_string(), "D - EN".to_string()))
    );
    assert_eq!(excel.subject_id_by_kind("Kalkulus - A"), None);
}

#[test]
fn detail_pieces_are_the_untrimmed_lecturer_codes() {
    let excel = sheet();
    assert_eq!(excel.detail_pieces_at(0, 2), Some(strings(&[" AB ", " XY"])));
    assert_eq!(excel.detail_pieces_at(0, 0), None);
}

#[test]
fn try_readers_give_none_where_a_step_would_fail() {
    let excel = sheet();
    let subjects = lowercase_subjects();
    let with_unk = string_map(&[("AB", "id-ab"), ("CD", "id-cd"), ("UNK", "id-unk")]);
    let without_unk = string_map(&[("AB", "id-ab"), ("CD", "id-cd")]);
    assert_eq!(excel.try_parse_excel_to_map(&subjects, &with_unk, &sessions()).map(|v| v.len()), Some(3));
    assert!(excel.try_parse_excel_to_map(&subjects, &without_unk, &sessions()).is_none());
    assert_eq!(
        excel.try_updated_schedule_to_str(&subjects, &without_unk, &sessions()),
        Some(excel.updated_schedule_to_str(&subjects, &without_unk, &sessions()))
    );
    assert_eq!(kinds_sheet(with_unk).try_get_schedule_by_kind().map(|v| v.len()), Some(4));
    assert!(kinds_sheet(without_unk).try_get_schedule_by_kind().is_none());
}

#[test]
fn try_updated_schedule_is_none_without_lecturer_part() {
    let mut rows: Vec<Vec<Option<String>>> = (0..2).map(|_| vec![None, None, None]).collect();
    rows[0] = vec![None, text("07.00 - 09.00"), text("Basis Data - A")];
    rows[1] = vec![None, None, text("3 sks / Sem 3")];
    let excel = excel_of(rows);
    let lecturers = string_map(&[("AB", "id-ab")]);
    assert!(excel.try_updated_schedule_to_str(&lowercase_subjects(), &lecturers, &sessions()).is_none());
}
