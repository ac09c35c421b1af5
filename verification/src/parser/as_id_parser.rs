use vstd::prelude::*;

use crate::excel::parser::{opt_pair, subject_with_code};
use crate::excel::{Excel, Parser};
use crate::text::{lowercase, lowercase_known, to_lowercase, trim, trim_str, views};

verus! {

impl Excel {
    /// The subject identifier (looked up by the lowercase subject name) and
    /// the class code of a class text.
    pub open spec fn spec_subject_id_with_code(&self, val: Seq<char>) -> Option<(Seq<char>, Seq<char>)> {
        match subject_with_code(val) {
            Some((name, code)) => {
                let subjects = self.lecturer_subjects_session_map.subjects@;
                if subjects.contains_key(lowercase(name)) {
                    Some((subjects[lowercase(name)]@, code))
                } else {
                    None
                }
            },
            None => None,
        }
    }

    /// Every code, trimmed, is a known lecturer code.
    pub open spec fn spec_knows_lecturers(&self, codes: Seq<Seq<char>>) -> bool {
        forall|i: int| 0 <= i < codes.len() ==> self.lecturer_subjects_session_map.lecturers@.contains_key(#[trigger] trim(codes[i]))
    }

    /// The lecturer identifiers of the codes, each code trimmed.
    pub open spec fn spec_lecturer_ids(&self, codes: Seq<Seq<char>>) -> Seq<Seq<char>> {
        Seq::new(codes.len(), |i: int| self.lecturer_subjects_session_map.lecturers@[trim(codes[i])]@)
    }
}

/// Parses class texts into database identifiers.
pub trait AsIdParser {
    spec fn knows_lecturers(&self, codes: Seq<Seq<char>>) -> bool;

    /// The subject identifier and class code of a class text.
    fn get_subject_id_with_code(&self, val: &str) -> Option<(String, String)>;

    /// The identifiers of the given lecturer codes, every one of which is known.
    fn get_lecturer_id(&self, lecturers: Vec<String>) -> Vec<String>
        requires
            self.knows_lecturers(views(lecturers@)),
    ;
}

impl AsIdParser for Excel {
    open spec fn knows_lecturers(&self, codes: Seq<Seq<char>>) -> bool {
        self.spec_knows_lecturers(codes)
    }

    fn get_subject_id_with_code(&self, val: &str) -> (r: Option<(String, String)>)
        ensures
            opt_pair(r) == self.spec_subject_id_with_code(val@),
            subject_with_code(val@) matches Some((name, _)) ==> lowercase_known(name),
    {
        let (subject_name, code) = match Excel::parse_subject_with_code(val) {
            Some(p) => p,
            None => return None,
        };
        let key = to_lowercase(subject_name.as_str());
        match self.lecturer_subjects_session_map.subjects.get(key.as_str()) {
            Some(id) => Some((id.clone(), code)),
            None => None,
        }
    }

    fn get_lecturer_id(&self, lecturers: Vec<String>) -> (ids: Vec<String>)
        ensures
            views(ids@) == self.spec_lecturer_ids(views(lecturers@)),
    {
        let mut ids: Vec<String> = Vec::new();
        let mut i: usize = 0;
        while i < lecturers.len()
            invariant
                i <= lecturers@.len(),
                self.spec_knows_lecturers(views(lecturers@)),
                views(ids@) == self.spec_lecturer_ids(views(lecturers@)).take(i as int),
            decreases lecturers.len() - i,
        {
            let lec_code = trim_str(lecturers[i].as_str());
            assert(views(lecturers@)[i as int] == lecturers@[i as int]@);
            assert(self.lecturer_subjects_session_map.lecturers@.contains_key(trim(views(lecturers@)[i as int])));
            let id = match self.lecturer_subjects_session_map.lecturers.get(lec_code.as_str()) {
                Some(id) => id.clone(),
                None => {
                    assert(false);
                    String::new()
                },
            };
            let ghost old_ids = ids@;
            assert(views(old_ids).len() == i);
            ids.push(id);
            assert forall|k: int| 0 <= k < i + 1 implies #[trigger] views(ids@)[k] == self.spec_lecturer_ids(views(lecturers@))[k] by {
                if k < i {
                    assert(views(old_ids)[k] == old_ids[k]@);
                }
            }
            assert(views(ids@) =~= self.spec_lecturer_ids(views(lecturers@)).take(i + 1));
            i += 1;
        }
        assert(self.spec_lecturer_ids(views(lecturers@)).take(lecturers@.len() as int) =~= self.spec_lecturer_ids(views(lecturers@)));
        ids
    }
}

} // verus!
