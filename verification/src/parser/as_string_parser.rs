use vstd::prelude::*;

use crate::excel::parser::{lecturer_codes, opt_pair, opt_strings, subject_with_code};
use crate::excel::{Excel, Parser, Retrieve};
use crate::text::{lowercase, lowercase_known, to_lowercase, trim, trim_str, views};

verus! {

broadcast use vstd::string::group_string_axioms;

impl Excel {
    /// The subject name and class code of a class text whose subject (by
    /// lowercase name) is known.
    pub open spec fn spec_subject_with_code(&self, val: Seq<char>) -> Option<(Seq<char>, Seq<char>)> {
        match subject_with_code(val) {
            Some((name, code)) => {
                if self.lecturer_subjects_session_map.subjects@.contains_key(lowercase(name)) {
                    Some((name, code))
                } else {
                    None
                }
            },
            None => None,
        }
    }

    /// The codes, each trimmed, with `"UNK"` in place of an unknown one.
    pub open spec fn spec_codes_or_unknown(&self, codes: Seq<Seq<char>>) -> Seq<Seq<char>> {
        Seq::new(
            codes.len(),
            |i: int|
                if self.lecturer_subjects_session_map.lecturers@.contains_key(trim(codes[i])) {
                    trim(codes[i])
                } else {
                    "UNK"@
                },
        )
    }

    /// The lecturer codes of the class at (`row`, `col`), unknown ones as
    /// `"UNK"`.
    pub open spec fn spec_lecturer(&self, row: int, col: int) -> Option<Seq<Seq<char>>> {
        match self.spec_class_detail(row, col) {
            Some(detail) => match lecturer_codes(detail) {
                Some(codes) => if codes.len() == 0 {
                    None
                } else {
                    Some(self.spec_codes_or_unknown(codes))
                },
                None => None,
            },
            None => None,
        }
    }
}

/// Parses class texts into names and codes.
pub trait AsStringParser {
    /// The subject name and class code of a class text.
    fn get_subject_with_code(&self, val: &str) -> Option<(String, String)>;

    /// The lecturer codes of the class at (`row`, `col`).
    fn get_lecturer(&self, row: u32, col: u32) -> Option<Vec<String>>
        requires
            row < u32::MAX,
    ;
}

impl AsStringParser for Excel {
    fn get_subject_with_code(&self, val: &str) -> (r: Option<(String, String)>)
        ensures
            opt_pair(r) == self.spec_subject_with_code(val@),
            subject_with_code(val@) matches Some((name, _)) ==> lowercase_known(name),
    {
        let (subject_name, code) = match Excel::parse_subject_with_code(val) {
            Some(p) => p,
            None => return None,
        };
        let key = to_lowercase(subject_name.as_str());
        if self.lecturer_subjects_session_map.subjects.contains_key(key.as_str()) {
            Some((subject_name, code))
        } else {
            None
        }
    }

    fn get_lecturer(&self, row: u32, col: u32) -> (r: Option<Vec<String>>)
        ensures
            opt_strings(r) == self.spec_lecturer(row as int, col as int),
    {
        let lecturers_str = match self.retrieve_class_detail(row, col) {
            Some(s) => s,
            None => return None,
        };
        let lecturers = match Excel::parse_lecturer(lecturers_str.as_str()) {
            Some(l) => l,
            None => return None,
        };
        let ghost codes = views(lecturers@);
        let mut lecturers_code: Vec<String> = Vec::new();
        let mut i: usize = 0;
        while i < lecturers.len()
            invariant
                i <= lecturers@.len(),
                codes == views(lecturers@),
                views(lecturers_code@) == self.spec_codes_or_unknown(codes).take(i as int),
            decreases lecturers.len() - i,
        {
            let lec = trim_str(lecturers[i].as_str());
            assert(codes[i as int] == lecturers@[i as int]@);
            let code = if self.lecturer_subjects_session_map.lecturers.contains_key(lec.as_str()) {
                lec
            } else {
                String::from_str("UNK")
            };
            let ghost old_codes = lecturers_code@;
            assert(views(old_codes).len() == i);
            lecturers_code.push(code);
            assert forall|k: int| 0 <= k < i + 1 implies #[trigger] views(lecturers_code@)[k] == self.spec_codes_or_unknown(codes)[k] by {
                if k < i {
                    assert(views(old_codes)[k] == old_codes[k]@);
                }
            }
            assert(views(lecturers_code@) =~= self.spec_codes_or_unknown(codes).take(i + 1));
            i += 1;
        }
        assert(self.spec_codes_or_unknown(codes).take(codes.len() as int) =~= self.spec_codes_or_unknown(codes));
        if lecturers_code.len() == 0 {
            None
        } else {
            Some(lecturers_code)
        }
    }
}

} // verus!
