use vstd::prelude::*;

use super::parser::{opt_pair, opt_strings, session_start};
use super::subject_class::{subject_class, subject_class_fails, subject_class_fails_exec, subject_class_parts};
use super::{fits, opt_view, Excel, Retrieve};
use crate::db::repository::class::{schedule_views, ClassFromSchedule, ScheduleView};
use crate::parser::schedule_parser::{opt_seq, row_day, row_has_day};
use crate::text::{first_piece_of, lemma_split_on_nonempty, lowercase, lowercase_known, split_char, split_on, to_lowercase, trim, trim_str, views};
use crate::{day_of, DAY_OFFSET};
use crate::StringHashMap;

use crate::excel::walk::{comes_before, count_rows, found_somewhere, lemma_walk_rows_laws, walk_row, walk_rows};
verus! {

broadcast use vstd::string::group_string_axioms;

/// The class detail names its lecturers in a third `/`-separated part.
pub open spec fn detail_ok(detail: Seq<char>) -> bool {
    split_on(detail, '/').len() > 2
}

/// The `-`-separated pieces of the third `/`-separated part of a class detail,
/// untrimmed.
pub open spec fn detail_pieces(detail: Seq<char>) -> Seq<Seq<char>> {
    split_on(split_on(detail, '/')[2], '-')
}

/// Each piece, trimmed, when it is a key of `known`, and `"UNK"` otherwise.
pub open spec fn codes_or_unk(known: Map<Seq<char>, String>, pieces: Seq<Seq<char>>) -> Seq<Seq<char>> {
    Seq::new(pieces.len(), |i: int| if known.contains_key(trim(pieces[i])) { trim(pieces[i]) } else { "UNK"@ })
}

/// The name and code of a class text whose subject (by lowercase name) is a
/// key of `subjects`.
pub open spec fn subject_class_named(val: Seq<char>, subjects: Map<Seq<char>, String>) -> Option<(Seq<char>, Seq<char>)> {
    match subject_class(val) {
        Some((name, code)) => if subjects.contains_key(lowercase(name)) {
            Some((name, code))
        } else {
            None
        },
        None => None,
    }
}

impl Excel {
    /// The lecturer pieces of the class detail below (`row`, `col`).
    pub fn detail_pieces_at(&self, row: u32, col: u32) -> (r: Option<Vec<String>>)
        requires
            row < u32::MAX,
            self.spec_class_detail(row as int, col as int) matches Some(d) ==> detail_ok(d),
        ensures
            match self.spec_class_detail(row as int, col as int) {
                Some(d) => opt_strings(r) == Some(detail_pieces(d)),
                None => r is None,
            },
    {
        let detail = match self.retrieve_class_detail(row, col) {
            Some(d) => d,
            None => return None,
        };
        let parts = split_char(detail.as_str(), '/');
        proof {
            assert(views(parts@).len() == parts@.len());
            assert(views(parts@)[2] == parts@[2]@);
        }
        Some(split_char(parts[2].as_str(), '-'))
    }

    /// The lecturer cell below (`row`, `col`) can be read as names.
    pub open spec fn lecturer_str_ready(&self, row: int, col: int) -> bool {
        self.spec_class_detail(row, col) matches Some(d) ==> detail_ok(d)
    }

    /// The lecturer codes of the class detail below (`row`, `col`), unknown
    /// ones as `"UNK"`.
    pub open spec fn spec_lecturer_to_str(&self, row: int, col: int, known: Map<Seq<char>, String>) -> Option<Seq<Seq<char>>> {
        match self.spec_class_detail(row, col) {
            Some(d) => Some(codes_or_unk(known, detail_pieces(d))),
            None => None,
        }
    }

    /// The start of the session of row `row_idx` when it is a key of `known`.
    pub open spec fn spec_session_to_str(&self, row_idx: int, known: Map<Seq<char>, i8>) -> Option<Seq<char>> {
        match self.spec_session_text(row_idx) {
            Some(t) => if known.contains_key(session_start(t)) {
                Some(session_start(t))
            } else {
                None
            },
            None => None,
        }
    }

    /// The subject name and class code of a class text, when the subject is
    /// known.
    pub fn subject_class_to_str(val: &str, subject_map: &StringHashMap<String>) -> (r: Option<(String, String)>)
        requires
            !subject_class_fails(val@),
        ensures
            opt_pair(r) == subject_class_named(val@, subject_map@),
            subject_class(val@) matches Some((name, _)) ==> lowercase_known(name),
    {
        let (subject_name, code) = match subject_class_parts(val) {
            Some(p) => p,
            None => return None,
        };
        let key = to_lowercase(subject_name.as_str());
        if subject_map.contains_key(key.as_str()) {
            Some((subject_name, code))
        } else {
            None
        }
    }

    /// The lecturer codes of the class detail below (`row`, `col`), unknown
    /// ones as `"UNK"`.
    pub fn lecturer_to_str(&self, row: u32, col: u32, lecturer_map: &StringHashMap<String>) -> (r: Option<Vec<String>>)
        requires
            row < u32::MAX,
            self.lecturer_str_ready(row as int, col as int),
        ensures
            opt_strings(r) == self.spec_lecturer_to_str(row as int, col as int, lecturer_map@),
    {
        let pieces = match self.detail_pieces_at(row, col) {
            Some(p) => p,
            None => return None,
        };
        let ghost ps = views(pieces@);
        let mut codes: Vec<String> = Vec::new();
        let mut i: usize = 0;
        while i < pieces.len()
            invariant
                i <= pieces@.len(),
                ps == views(pieces@),
                views(codes@) == codes_or_unk(lecturer_map@, ps).take(i as int),
            decreases pieces.len() - i,
        {
            let code = trim_str(pieces[i].as_str());
            assert(ps[i as int] == pieces@[i as int]@);
            let c = if lecturer_map.contains_key(code.as_str()) {
                code
            } else {
                String::from_str("UNK")
            };
            let ghost before = codes@;
            assert(views(before).len() == i);
            codes.push(c);
            assert forall|k: int| 0 <= k < i + 1 implies #[trigger] views(codes@)[k] == codes_or_unk(lecturer_map@, ps)[k] by {
                if k < i {
                    assert(views(before)[k] == before[k]@);
                }
            }
            assert(views(codes@) =~= codes_or_unk(lecturer_map@, ps).take(i + 1));
            i += 1;
        }
        assert(codes_or_unk(lecturer_map@, ps).take(ps.len() as int) =~= codes_or_unk(lecturer_map@, ps));
        proof {
            let d = self.spec_class_detail(row as int, col as int)->Some_0;
            lemma_split_on_nonempty(split_on(d, '/')[2], '-');
        }
        if codes.len() == 0 {
            None
        } else {
            Some(codes)
        }
    }

    /// The start of the session of row `row_idx`, when it is a known session.
    pub fn session_to_str(&self, row_idx: u32, session_map: &StringHashMap<i8>) -> (r: Option<String>)
        ensures
            opt_view(r) == self.spec_session_to_str(row_idx as int, session_map@),
    {
        let text = match self.retrieve_session(row_idx) {
            Some(t) => t,
            None => return None,
        };
        let session_name = first_piece_of(text.as_str(), " - ");
        if session_map.contains_key(session_name.as_str()) {
            Some(session_name)
        } else {
            None
        }
    }

    /// The schedule entry in the cell at (`r`, `c`), with the given maps.
    pub open spec fn updated_entry_at(
        &self,
        r: int,
        c: int,
        subjects: Map<Seq<char>, String>,
        lecturers: Map<Seq<char>, String>,
        sessions: Map<Seq<char>, i8>,
    ) -> Option<ScheduleView> {
        match self.range@.cells[r][c] {
            Some(val) => match subject_class_named(val, subjects) {
                Some((subject_name, class_code)) => match self.spec_lecturer_to_str(r, c, lecturers) {
                    Some(lecturer_code) => match self.spec_session_to_str(r, sessions) {
                        Some(session_start) => Some(ScheduleView {
                            subject_name,
                            class_code,
                            lecturer_code,
                            day: row_day(r),
                            session_start,
                        }),
                        None => None,
                    },
                    None => None,
                },
                None => None,
            },
            None => None,
        }
    }

    /// The cell at (`r`, `c`) can be read as a schedule entry with the given
    /// maps without a failing step.
    pub open spec fn updated_cell_ready(&self, r: int, c: int, subjects: Map<Seq<char>, String>) -> bool {
        match self.range@.cells[r][c] {
            Some(val) => !subject_class_fails(val) && match subject_class_named(val, subjects) {
                Some(_) => self.lecturer_str_ready(r, c) && (self.spec_class_detail(r, c) is Some ==> row_has_day(r)),
                None => true,
            },
            None => true,
        }
    }

    pub open spec fn updated_in_row(
        &self,
        r: int,
        n: int,
        subjects: Map<Seq<char>, String>,
        lecturers: Map<Seq<char>, String>,
        sessions: Map<Seq<char>, i8>,
    ) -> Seq<ScheduleView>
        decreases n,
    {
        if n <= 0 {
            Seq::empty()
        } else {
            self.updated_in_row(r, n - 1, subjects, lecturers, sessions) + opt_seq(
                self.updated_entry_at(r, n - 1, subjects, lecturers, sessions),
            )
        }
    }

    pub open spec fn updated_in_rows(
        &self,
        k: int,
        subjects: Map<Seq<char>, String>,
        lecturers: Map<Seq<char>, String>,
        sessions: Map<Seq<char>, i8>,
    ) -> Seq<ScheduleView>
        decreases k,
    {
        if k <= 0 {
            Seq::empty()
        } else {
            self.updated_in_rows(k - 1, subjects, lecturers, sessions) + self.updated_in_row(
                k - 1,
                self.range@.cells[k - 1].len() as int,
                subjects,
                lecturers,
                sessions,
            )
        }
    }

    pub open spec fn updated_ready(&self, subjects: Map<Seq<char>, String>) -> bool {
        forall|r: int, c: int|
            0 <= r < self.range@.cells.len() && 0 <= c < self.range@.cells[r].len() ==> #[trigger] self.updated_cell_ready(r, c, subjects)
    }

    fn updated_in_cell(
        &self,
        r: usize,
        c: usize,
        list_subject: &StringHashMap<String>,
        list_lecture: &StringHashMap<String>,
        list_session: &StringHashMap<i8>,
    ) -> (res: Option<ClassFromSchedule>)
        requires
            r < self.range@.cells.len(),
            c < self.range@.cells[r as int].len(),
            fits(self.range@.cells),
            self.updated_cell_ready(r as int, c as int, list_subject@),
        ensures
            match res {
                Some(e) => self.updated_entry_at(r as int, c as int, list_subject@, list_lecture@, list_session@) == Some(e@),
                None => self.updated_entry_at(r as int, c as int, list_subject@, list_lecture@, list_session@) is None,
            },
    {
        let val = match self.range.cell(r, c) {
            Some(v) => v,
            None => return None,
        };
        let (subject_name, class_code) = match Excel::subject_class_to_str(val.as_str(), list_subject) {
            Some(p) => p,
            None => return None,
        };
        let lecturers = match self.lecturer_to_str(r as u32, c as u32, list_lecture) {
            Some(l) => l,
            None => return None,
        };
        let day = day_of(r / DAY_OFFSET);
        let session_start = match self.session_to_str(r as u32, list_session) {
            Some(s) => s,
            None => return None,
        };
        Some(ClassFromSchedule { subject_name, class_code, lecturer_code: lecturers, day, session_start })
    }

    /// Whether `self.updated_cell_ready(r, c, list_subject@)`.
    fn updated_cell_ready_exec(&self, r: usize, c: usize, list_subject: &StringHashMap<String>) -> (b: bool)
        requires
            r < self.range@.cells.len(),
            c < self.range@.cells[r as int].len(),
            fits(self.range@.cells),
        ensures
            b == self.updated_cell_ready(r as int, c as int, list_subject@),
    {
        let val = match self.range.cell(r, c) {
            Some(v) => v,
            None => return true,
        };
        if subject_class_fails_exec(val.as_str()) {
            return false;
        }
        if Excel::subject_class_to_str(val.as_str(), list_subject).is_none() {
            return true;
        }
        let detail = match self.retrieve_class_detail(r as u32, c as u32) {
            Some(d) => d,
            None => return true,
        };
        let parts = split_char(detail.as_str(), '/');
        proof {
            assert(views(parts@).len() == parts@.len());
        }
        if parts.len() <= 2 {
            return false;
        }
        r / DAY_OFFSET < 5
    }

    /// Whether every cell can be read as a schedule entry with the given
    /// subjects without a failing step (`updated_ready`).
    pub fn can_update_schedule(&self, list_subject: &StringHashMap<String>) -> (b: bool)
        ensures
            b == self.updated_ready(list_subject@),
    {
        let height = self.range.height();
        let mut r: usize = 0;
        while r < height
            invariant
                r <= height == self.range@.cells.len(),
                fits(self.range@.cells),
                forall|i: int, j: int| 0 <= i < r && 0 <= j < self.range@.cells[i].len() ==> #[trigger] self.updated_cell_ready(i, j, list_subject@),
            decreases height - r,
        {
            let width = self.range.row_width(r);
            let mut c: usize = 0;
            while c < width
                invariant
                    r < height == self.range@.cells.len(),
                    c <= width == self.range@.cells[r as int].len(),
                    fits(self.range@.cells),
                    forall|i: int, j: int| 0 <= i < r && 0 <= j < self.range@.cells[i].len() ==> #[trigger] self.updated_cell_ready(i, j, list_subject@),
                    forall|j: int| 0 <= j < c ==> #[trigger] self.updated_cell_ready(r as int, j, list_subject@),
                decreases width - c,
            {
                if !self.updated_cell_ready_exec(r, c, list_subject) {
                    return false;
                }
                c += 1;
            }
            r += 1;
        }
        true
    }

    /// Every schedule entry of the sheet with the given maps, row by row and
    /// cell by cell.
    pub fn updated_schedule_to_str(
        &self,
        list_subject: &StringHashMap<String>,
        list_lecture: &StringHashMap<String>,
        list_session: &StringHashMap<i8>,
    ) -> (list_class: Vec<ClassFromSchedule>)
        requires
            self.updated_ready(list_subject@),
        ensures
            schedule_views(list_class@) == self.updated_in_rows(
                self.range@.cells.len() as int,
                list_subject@,
                list_lecture@,
                list_session@,
            ),
    {
        let mut list_class: Vec<ClassFromSchedule> = Vec::new();
        let height = self.range.height();
        let mut r: usize = 0;
        while r < height
            invariant
                r <= height == self.range@.cells.len(),
                fits(self.range@.cells),
                self.updated_ready(list_subject@),
                schedule_views(list_class@) == self.updated_in_rows(r as int, list_subject@, list_lecture@, list_session@),
            decreases height - r,
        {
            let width = self.range.row_width(r);
            let mut c: usize = 0;
            while c < width
                invariant
                    r < height == self.range@.cells.len(),
                    c <= width == self.range@.cells[r as int].len(),
                    fits(self.range@.cells),
                    self.updated_ready(list_subject@),
                    schedule_views(list_class@) == self.updated_in_rows(r as int, list_subject@, list_lecture@, list_session@)
                        + self.updated_in_row(r as int, c as int, list_subject@, list_lecture@, list_session@),
                decreases width - c,
            {
                assert(self.updated_cell_ready(r as int, c as int, list_subject@));
                let found = self.updated_in_cell(r, c, list_subject, list_lecture, list_session);
                let ghost before = list_class@;
                match found {
                    Some(e) => {
                        list_class.push(e);
                        assert(schedule_views(list_class@) =~= schedule_views(before).push(e@));
                    },
                    None => {},
                }
                assert(self.updated_in_row(r as int, c + 1, list_subject@, list_lecture@, list_session@) =~= self.updated_in_row(r as int, c as int, list_subject@, list_lecture@, list_session@) + opt_seq(self.updated_entry_at(r as int, c as int, list_subject@, list_lecture@, list_session@)));
                c += 1;
            }
            r += 1;
        }
        list_class
    }

    /// Every schedule entry of the sheet with the given maps when it can be
    /// read (`updated_ready`), and `None` when a step would fail.
    pub fn try_updated_schedule_to_str(
        &self,
        list_subject: &StringHashMap<String>,
        list_lecture: &StringHashMap<String>,
        list_session: &StringHashMap<i8>,
    ) -> (r: Option<Vec<ClassFromSchedule>>)
        ensures
            r is Some <==> self.updated_ready(list_subject@),
            r matches Some(v) ==> schedule_views(v@) == self.updated_in_rows(
                self.range@.cells.len() as int,
                list_subject@,
                list_lecture@,
                list_session@,
            ),
    {
        if self.can_update_schedule(list_subject) {
            Some(self.updated_schedule_to_str(list_subject, list_lecture, list_session))
        } else {
            None
        }
    }
}

impl Excel {
    proof fn lemma_updated_row_is_walk(&self, r: int, n: int, subjects: Map<Seq<char>, String>, lecturers: Map<Seq<char>, String>, sessions: Map<Seq<char>, i8>)
        ensures
            self.updated_in_row(r, n, subjects, lecturers, sessions) == walk_row(|r: int, c: int| self.updated_entry_at(r, c, subjects, lecturers, sessions), r, n),
        decreases n,
    {
        if n > 0 {
            self.lemma_updated_row_is_walk(r, n - 1, subjects, lecturers, sessions);
        }
    }

    proof fn lemma_updated_rows_is_walk(&self, k: int, subjects: Map<Seq<char>, String>, lecturers: Map<Seq<char>, String>, sessions: Map<Seq<char>, i8>)
        ensures
            self.updated_in_rows(k, subjects, lecturers, sessions) == walk_rows(
                |r: int, c: int| self.updated_entry_at(r, c, subjects, lecturers, sessions),
                |r: int| self.range@.cells[r].len() as int,
                k,
            ),
        decreases k,
    {
        if k > 0 {
            self.lemma_updated_rows_is_walk(k - 1, subjects, lecturers, sessions);
            self.lemma_updated_row_is_walk(k - 1, self.range@.cells[k - 1].len() as int, subjects, lecturers, sessions);
        }
    }

    /// What the walk over the whole sheet collects (the entries that `updated_schedule_to_str` reads): the value of
    /// every cell, in every row, where `updated_entry_at` gives one; only such values;
    /// one value for each such cell; and in the order of the cells, row by
    /// row and cell by cell.
    pub proof fn lemma_updated_walk_laws(&self, subjects: Map<Seq<char>, String>, lecturers: Map<Seq<char>, String>, sessions: Map<Seq<char>, i8>)
        ensures
            ({
                let all = self.updated_in_rows(self.range@.cells.len() as int, subjects, lecturers, sessions);
                &&& forall|r: int, c: int|
                    #![trigger self.updated_entry_at(r, c, subjects, lecturers, sessions)]
                    0 <= r < self.range@.cells.len() && 0 <= c < self.range@.cells[r].len() && self.updated_entry_at(r, c, subjects, lecturers, sessions) is Some
                        ==> all.contains(self.updated_entry_at(r, c, subjects, lecturers, sessions)->Some_0)
                &&& forall|x: ScheduleView|
                    #[trigger] all.contains(x) ==> exists|r: int, c: int|
                        0 <= r < self.range@.cells.len() && 0 <= c < self.range@.cells[r].len() && #[trigger] self.updated_entry_at(r, c, subjects, lecturers, sessions) == Some(x)
                &&& forall|r1: int, c1: int, r2: int, c2: int|
                    #![trigger self.updated_entry_at(r1, c1, subjects, lecturers, sessions), self.updated_entry_at(r2, c2, subjects, lecturers, sessions)]
                    0 <= r1 < self.range@.cells.len() && 0 <= c1 < self.range@.cells[r1].len() && 0 <= r2 < self.range@.cells.len()
                        && 0 <= c2 < self.range@.cells[r2].len() && (r1 < r2 || (r1 == r2 && c1 < c2)) && self.updated_entry_at(r1, c1, subjects, lecturers, sessions) is Some
                        && self.updated_entry_at(r2, c2, subjects, lecturers, sessions) is Some ==> comes_before(all, self.updated_entry_at(r1, c1, subjects, lecturers, sessions)->Some_0, self.updated_entry_at(r2, c2, subjects, lecturers, sessions)->Some_0)
                &&& all.len() == count_rows(
                    |r: int, c: int| self.updated_entry_at(r, c, subjects, lecturers, sessions),
                    |r: int| self.range@.cells[r].len() as int,
                    self.range@.cells.len() as int,
                )
            }),
    {
        let k = self.range@.cells.len() as int;
        let f = |r: int, c: int| self.updated_entry_at(r, c, subjects, lecturers, sessions);
        let w = |r: int| self.range@.cells[r].len() as int;
        self.lemma_updated_rows_is_walk(k, subjects, lecturers, sessions);
        lemma_walk_rows_laws(f, w, k);
        let all = self.updated_in_rows(k, subjects, lecturers, sessions);
        assert forall|r1: int, c1: int, r2: int, c2: int|
            #![trigger self.updated_entry_at(r1, c1, subjects, lecturers, sessions), self.updated_entry_at(r2, c2, subjects, lecturers, sessions)]
            0 <= r1 < k && 0 <= c1 < self.range@.cells[r1].len() && 0 <= r2 < k && 0 <= c2 < self.range@.cells[r2].len() && (r1 < r2
                || (r1 == r2 && c1 < c2)) && self.updated_entry_at(r1, c1, subjects, lecturers, sessions) is Some && self.updated_entry_at(r2, c2, subjects, lecturers, sessions) is Some implies comes_before(
            all,
            self.updated_entry_at(r1, c1, subjects, lecturers, sessions)->Some_0,
            self.updated_entry_at(r2, c2, subjects, lecturers, sessions)->Some_0,
        ) by {
            assert(f(r1, c1) is Some && f(r2, c2) is Some);
            assert(0 <= c1 < w(r1) && 0 <= c2 < w(r2));
        }
        assert forall|r: int, c: int|
            #![trigger self.updated_entry_at(r, c, subjects, lecturers, sessions)]
            0 <= r < k && 0 <= c < self.range@.cells[r].len() && self.updated_entry_at(r, c, subjects, lecturers, sessions) is Some implies all.contains(self.updated_entry_at(r, c, subjects, lecturers, sessions)->Some_0) by {
            assert(f(r, c) is Some);
            assert(0 <= c < w(r));
        }
        assert forall|x: ScheduleView| #[trigger] all.contains(x) implies exists|r: int, c: int|
            0 <= r < k && 0 <= c < self.range@.cells[r].len() && #[trigger] self.updated_entry_at(r, c, subjects, lecturers, sessions) == Some(x) by {
            assert(found_somewhere(f, w, k, x));
            let (r, c) = choose|r: int, c: int| 0 <= r < k && 0 <= c < w(r) && #[trigger] f(r, c) == Some(x);
            assert(self.updated_entry_at(r, c, subjects, lecturers, sessions) == Some(x));
        }
    }
}

} // verus!
