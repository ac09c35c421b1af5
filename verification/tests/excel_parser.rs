use auto_frs_schedule::excel::{Excel, Parser};

#[test]
fn test_parse_en_iup_class() {
    assert_eq!(
        Excel::parse_subject_with_code_2("Interaksi Manusia Komputer (EN) + IUP"),
        Some((
            "Interaksi Manusia Komputer".to_string(),
            "(EN) + IUP".to_string()
        ))
    );
}

#[test]
fn test_parse_en_class() {
    assert_eq!(
        Excel::parse_subject_with_code_2("Interaksi Manusia Komputer D - EN"),
        Some((
            "Interaksi Manusia Komputer".to_string(),
            "D - EN".to_string()
        ))
    );
    assert_eq!(
        Excel::parse_subject_with_code_2("Interaksi Manusia Komputer D -EN"),
        Some((
            "Interaksi Manusia Komputer".to_string(),
            "D - EN".to_string()
        ))
    );
    assert_eq!(
        Excel::parse_subject_with_code_2("Interaksi Manusia Komputer D-EN"),
        Some((
            "Interaksi Manusia Komputer".to_string(),
            "D - EN".to_string()
        ))
    );
}

#[test]
fn test_parse_iup_class() {
    assert_eq!(
        Excel::parse_subject_with_code_2("Jaringan Komputer -IUP"),
        Some(("Jaringan Komputer".to_string(), "IUP".to_string()))
    );
    assert_eq!(
        Excel::parse_subject_with_code_2("Jaringan Komputer-IUP"),
        Some(("Jaringan Komputer".to_string(), "IUP".to_string()))
    );
    assert_eq!(
        Excel::parse_subject_with_code_2("Jaringan Komputer - IUP"),
        Some(("Jaringan Komputer".to_string(), "IUP".to_string()))
    );
}

#[test]
fn test_parse_strip_class() {
    assert_eq!(
        Excel::parse_subject_with_code_2("Interaksi Manusia Komputer - RKA"),
        Some(("Interaksi Manusia Komputer".to_string(), "RKA".to_string()))
    );
    assert_eq!(
        Excel::parse_subject_with_code_2("Interaksi Manusia Komputer - RPL"),
        Some(("Interaksi Manusia Komputer".to_string(), "RPL".to_string()))
    );
    assert_eq!(
        Excel::parse_subject_with_code_2("Dasar Pemrograman -RPL"),
        Some(("Dasar Pemrograman".to_string(), "RPL".to_string()))
    );
    assert_eq!(
        Excel::parse_subject_with_code_2("Dasar Pemrograman-RPL"),
        Some(("Dasar Pemrograman".to_string(), "RPL".to_string()))
    );
}

#[test]
fn test_parse_single_class() {
    assert_eq!(
        Excel::parse_subject_with_code_2("Game Cerdas"),
        Some(("Game Cerdas".to_string(), "-".to_string()))
    );
    assert_eq!(
        Excel::parse_subject_with_code_2("Realitas X"),
        Some(("Realitas X".to_string(), "-".to_string()))
    );
}

#[test]
fn test_parse_basic_class() {
    assert_eq!(
        Excel::parse_subject_with_code_2("Jaringan Komputer A"),
        Some(("Jaringan Komputer".to_string(), "A".to_string()))
    );
}

#[test]
fn parse_subject_with_code_2_without_words() {
    assert_eq!(Excel::parse_subject_with_code_2("   "), None);
    assert_eq!(Excel::parse_subject_with_code_2("EN"), None);
    assert_eq!(
        Excel::parse_subject_with_code_2("Kalkulus É"),
        Some(("Kalkulus É".to_string(), "-".to_string()))
    );
}

#[test]
fn test_parse_valid_subject_with_code() {
    struct TestCase {
        class: String,
        subject_name: String,
        subject_code: String,
    }

    let test_cases: Vec<TestCase> = vec![
        TestCase {
            class: "Pemrograman Perangkat Bergerak - C".to_string(),
            subject_name: "Pemrograman Perangkat Bergerak".to_string(),
            subject_code: "C".to_string(),
        },
        TestCase {
            class: "Perancangan Perangkat Lunak - IUP".to_string(),
            subject_name: "Perancangan Perangkat Lunak".to_string(),
            subject_code: "IUP".to_string(),
        },
        TestCase {
            class: "Etika Profesi - REG - IUP".to_string(),
            subject_name: "Etika Profesi".to_string(),
            subject_code: "REG IUP".to_string(),
        },
        TestCase {
            class: "Sistem Basis Data - T".to_string(),
            subject_name: "Sistem Basis Data".to_string(),
            subject_code: "T".to_string(),
        },
    ];

    test_cases.into_iter().for_each(|case| {
        assert_eq!(
            Excel::parse_subject_with_code(&case.class),
            Some((case.subject_name, case.subject_code))
        );
    });
}

#[test]
fn test_parse_invalid_subject_with_code() {
    let test_cases: Vec<String> = vec![
        "PANCASILA".to_string(),
        "Kebudayaan dan Kebangsaan".to_string(),
    ];

    test_cases
        .into_iter()
        .for_each(|test| assert_eq!(Excel::parse_subject_with_code(&test), None))
}

#[test]
fn test_parse_lecturer_from_class_detail() {
    struct TestCase<'a> {
        class_detail: String,
        lecturers: Vec<&'a str>,
    }
    let test_cases: Vec<TestCase> = vec![
        TestCase {
            class_detail: String::from("2 sks/ Sem 7 / AM - WN"),
            lecturers: vec!["AM", "WN"],
        },
        TestCase {
            class_detail: String::from("4 sks / Sem 2 / CF"),
            lecturers: vec!["CF"],
        },
        TestCase {
            class_detail: String::from("3 sks / Sem 1 / DH"),
            lecturers: vec!["DH"],
        },
        TestCase {
            class_detail: String::from("3 sks / Sem 1 / DO"),
            lecturers: vec!["DO"],
        },
        TestCase {
            class_detail: String::from("3 sks / Sem 5 / BS"),
            lecturers: vec!["BS"],
        },
    ];

    test_cases.into_iter().for_each(|test| {
        assert_eq!(
            Excel::parse_lecturer(&test.class_detail),
            Some(test.lecturers.iter().map(|s| s.to_string()).collect::<Vec<String>>())
        )
    });
}

#[test]
fn parse_lecturer_needs_three_parts() {
    assert_eq!(Excel::parse_lecturer("3 sks / Sem 1"), None);
    assert_eq!(Excel::parse_lecturer("3 sks / Sem 1 / "), Some(vec!["".to_string()]));
    assert_eq!(Excel::parse_lecturer("a/b/ X -Y- Z /c"), Some(vec!["X".to_string(), "Y".to_string(), "Z".to_string()]));
}

#[test]
fn test_parse_session() {
    struct TestCase {
        session_str: String,
        session_start: Option<String>,
    }

    let test_cases: Vec<TestCase> = vec![
        TestCase {
            session_str: String::from("08.00 - 09.00"),
            session_start: Some(String::from("08.00")),
        },
        TestCase {
            session_str: String::from("17.00 - 18.00"),
            session_start: Some(String::from("17.00")),
        },
        TestCase {
            session_str: String::from("10.00 - 11.00"),
            session_start: Some(String::from("10.00")),
        },
    ];

    test_cases.into_iter().for_each(|test| {
        assert_eq!(Excel::parse_session(&test.session_str), test.session_start)
    })
}

#[test]
fn parse_session_without_separator_is_whole_text() {
    assert_eq!(Excel::parse_session("08.00-09.00"), Some("08.00-09.00".to_string()));
    assert_eq!(Excel::parse_session(""), Some("".to_string()));
}

#[test]
fn parse_session_of_a_session_start_gives_it_back() {
    for text in ["08.00 - 09.00", "17.00 - 18.00 - x", "10.00", "", " - 11.00"] {
        let start = Excel::parse_session(text).unwrap();
        assert_eq!(Excel::parse_session(&start), Some(start.clone()));
    }
}
