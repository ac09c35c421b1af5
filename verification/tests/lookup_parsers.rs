use auto_frs_schedule::db::repository::LecturerSubjectSessionMap;
use auto_frs_schedule::excel::{Excel, Grid};
use auto_frs_schedule::parser::as_id_parser::AsIdParser;
use auto_frs_schedule::parser::as_string_parser::AsStringParser;
use auto_frs_schedule::parser::session_parser::SessionParser;
use auto_frs_schedule::StringHashMap;

#[test]
fn test_get_subject_id_with_code() {
    // Create a parser
    let mut subject_to_id = StringHashMap::new();
    subject_to_id.insert(
        "jaringan komputer".to_string(),
        "c6hhfe7737483833".to_string(),
    );

    let mut lecturers_map = StringHashMap::new();
    lecturers_map.insert("AB".to_string(), "c12131666h2h2d223".to_string());
    lecturers_map.insert("AM".to_string(), "c6hhd2766d2d2777d".to_string());
    lecturers_map.insert("FB".to_string(), "c61217hdhwd72hd22".to_string());
    lecturers_map.insert("DS".to_string(), "c2hhee7711777hf77".to_string());

    let excel = Excel {
        lecturer_subjects_session_map: LecturerSubjectSessionMap {
            subjects: subject_to_id,
            lecturers: lecturers_map,
            sessions: StringHashMap::new(),
        },
        range: Grid::new((0, 0), (100, 100)),
    };

    // Test the get_subject_with_code method
    let result = excel.get_subject_id_with_code("Jaringan Komputer - C");
    assert_eq!(
        result,
        Some(("c6hhfe7737483833".to_string(), "C".to_string()))
    );

    let result = excel.get_subject_id_with_code("Physics - P101");
    assert_eq!(result, None);
}

#[test]
fn test_get_lecturer_id() {
    let mut lecturers_map = StringHashMap::new();
    lecturers_map.insert("AB".to_string(), "c12131666h2h2d223".to_string());
    lecturers_map.insert("AM".to_string(), "c6hhd2766d2d2777d".to_string());
    lecturers_map.insert("FB".to_string(), "c61217hdhwd72hd22".to_string());
    lecturers_map.insert("DS".to_string(), "c2hhee7711777hf77".to_string());

    let excel = Excel {
        lecturer_subjects_session_map: LecturerSubjectSessionMap {
            subjects: StringHashMap::new(),
            lecturers: lecturers_map,
            sessions: StringHashMap::new(),
        },
        range: Grid::new((0, 0), (100, 100)),
    };
    struct TestCase {
        lecturers: Vec<String>,
        expected: Vec<String>,
    }
    let test_cases = vec![
        TestCase {
            lecturers: vec![String::from("AB"), String::from("FB")],
            expected: vec![
                String::from("c12131666h2h2d223"),
                String::from("c61217hdhwd72hd22"),
            ],
        },
        TestCase {
            lecturers: vec![String::from("AM"), String::from("DS")],
            expected: vec![
                String::from("c6hhd2766d2d2777d"),
                String::from("c2hhee7711777hf77"),
            ],
        },
    ];
    for test in test_cases.into_iter() {
        assert_eq!(excel.get_lecturer_id(test.lecturers), test.expected);
    }
}

#[test]
fn as_string_parser_test_get_subject_with_code() {
    // Create a parser
    let mut subject_to_id = StringHashMap::new();
    subject_to_id.insert(
        "jaringan komputer".to_string(),
        "c6hhfe7737483833".to_string(),
    );

    let excel = Excel {
        lecturer_subjects_session_map: LecturerSubjectSessionMap {
            subjects: subject_to_id,
            lecturers: StringHashMap::new(),
            sessions: StringHashMap::new(),
        },
        range: Grid::new((0, 0), (100, 100)),
    };

    // Test the get_subject_with_code method
    let result = excel.get_subject_with_code("Jaringan Komputer - C");
    assert_eq!(
        result,
        Some(("Jaringan Komputer".to_string(), "C".to_string()))
    );

    let result = excel.get_subject_with_code("Physics - P101");
    assert_eq!(result, None);
}

#[test]
fn schedule_parser_with_id_test_get_subject_with_code() {
    // Create a parser
    let mut subject_to_id = StringHashMap::new();
    subject_to_id.insert(
        "jaringan komputer".to_string(),
        "c6hhfe7737483833".to_string(),
    );

    let excel = Excel {
        lecturer_subjects_session_map: LecturerSubjectSessionMap {
            subjects: subject_to_id,
            lecturers: StringHashMap::new(),
            sessions: StringHashMap::new(),
        },
        range: Grid::new((0, 0), (100, 100)),
    };

    // Test the get_subject_with_code method
    let result = excel.get_subject_id_with_code("Jaringan Komputer - C");
    assert_eq!(
        result,
        Some(("c6hhfe7737483833".to_string(), "C".to_string()))
    );

    let result = excel.get_subject_id_with_code("Physics - P101");
    assert_eq!(result, None);
}

fn sheet() -> Excel {
    let text = |s: &str| Some(s.to_string());
    let rows = vec![
        vec![None, text("07.00 - 09.00"), text("Basis Data - A")],
        vec![None, None, text("3 sks / Sem 3 / AB - XX")],
        vec![None, text("09.00 - 11.00"), text("Fisika - A")],
    ];
    let mut lecturers = StringHashMap::new();
    lecturers.insert("AB".to_string(), "id-ab".to_string());
    let mut sessions = StringHashMap::new();
    sessions.insert("07.00".to_string(), 1i8);
    let mut subjects = StringHashMap::new();
    subjects.insert("basis data".to_string(), "id-bd".to_string());
    Excel {
        range: Grid::from_rows((0, 0), rows).unwrap(),
        lecturer_subjects_session_map: LecturerSubjectSessionMap { subjects, lecturers, sessions },
    }
}

#[test]
fn get_lecturer_marks_unknown_codes() {
    let excel = sheet();
    assert_eq!(excel.get_lecturer(0, 2), Some(vec!["AB".to_string(), "UNK".to_string()]));
    assert_eq!(excel.get_lecturer(1, 2), None);
    assert_eq!(excel.get_lecturer(0, 0), None);
}

#[test]
fn get_session_by_id_and_by_name() {
    let excel = sheet();
    let id: Option<i8> = excel.get_session(0);
    assert_eq!(id, Some(1));
    let name: Option<String> = excel.get_session(0);
    assert_eq!(name, Some("07.00".to_string()));
    let unknown: Option<i8> = excel.get_session(2);
    assert_eq!(unknown, None);
    let missing: Option<String> = excel.get_session(1);
    assert_eq!(missing, None);
}
