use vstd::prelude::*;

use super::into_str::detail_pieces;
use super::parser::{opt_pair, opt_strings};
use super::{fits, Excel, Retrieve};
use crate::db::repository::class::{class_views, Class, ClassView};
use crate::parser::schedule_parser::opt_seq;
use crate::text::{contains_str, first_piece, first_piece_of, has_sub, split_char, split_on, trim, trim_str, views};
use crate::{day_name, day_of, num_days};
use crate::StringHashMap;

use crate::excel::walk::{comes_before, count_rows, found_somewhere, lemma_walk_rows_laws, walk_row, walk_rows};
verus! {

broadcast use vstd::string::group_string_axioms;

/// Number of sheet rows that one day occupies in the layout that
/// `parse_excel` reads.
pub const SHEET_DAY_ROWS: usize = 15;

/// Subject name and class code of a class text as `parse_excel` reads them:
/// the first two `-`-separated parts, trimmed. A first part holding `"IUP"`
/// with a second part holding `"akselerasi"` gives the name before `"IUP"`,
/// trimmed, and the code `"IUP akselerasi"`. `None` when the text has no `-`.
pub open spec fn subject_class_iup(val: Seq<char>) -> Option<(Seq<char>, Seq<char>)> {
    let parts = split_on(val, '-');
    if parts.len() < 2 {
        None
    } else if has_sub(parts[0], "IUP"@) && has_sub(parts[1], "akselerasi"@) {
        Some((trim(first_piece(parts[0], "IUP"@)), "IUP akselerasi"@))
    } else {
        Some((trim(parts[0]), trim(parts[1])))
    }
}

/// The subject identifier (looked up by the exact subject name) and the class
/// code of a class text, when the subject is a key of `subjects`.
pub open spec fn subject_class_listed(val: Seq<char>, subjects: Map<Seq<char>, String>) -> Option<(Seq<char>, Seq<char>)> {
    match subject_class_iup(val) {
        Some((name, code)) => if subjects.contains_key(name) {
            Some((subjects[name]@, code))
        } else {
            None
        },
        None => None,
    }
}

/// The identifiers of the pieces, trimmed, that are keys of `known`, in
/// order; unknown pieces are left out.
pub open spec fn known_ids(known: Map<Seq<char>, String>, pieces: Seq<Seq<char>>) -> Seq<Seq<char>>
    decreases pieces.len(),
{
    if pieces.len() == 0 {
        Seq::empty()
    } else {
        let code = trim(pieces.last());
        known_ids(known, pieces.drop_last()) + if known.contains_key(code) {
            seq![known[code]@]
        } else {
            Seq::empty()
        }
    }
}

/// The day of sheet row `r` in the layout that `parse_excel` reads.
pub open spec fn sheet_row_day(r: int) -> Seq<char> {
    day_name(r / (SHEET_DAY_ROWS as int))
}

/// In the layout that `parse_excel` reads, rows 0 to 14 are Senin, 15 to 29
/// Selasa, 30 to 44 Rabu, 45 to 59 Kamis and 60 to 74 Jum'at.
pub proof fn lemma_sheet_row_days()
    ensures
        forall|r: int| 0 <= r < 15 ==> #[trigger] sheet_row_day(r) == "Senin"@,
        forall|r: int| 15 <= r < 30 ==> #[trigger] sheet_row_day(r) == "Selasa"@,
        forall|r: int| 30 <= r < 45 ==> #[trigger] sheet_row_day(r) == "Rabu"@,
        forall|r: int| 45 <= r < 60 ==> #[trigger] sheet_row_day(r) == "Kamis"@,
        forall|r: int| 60 <= r < 75 ==> #[trigger] sheet_row_day(r) == "Jum'at"@,
{
    assert forall|r: int| 0 <= r < 15 implies #[trigger] sheet_row_day(r) == "Senin"@ by {
        assert(r / 15 == 0) by (nonlinear_arith) requires 0 <= r < 15;
    }
    assert forall|r: int| 15 <= r < 30 implies #[trigger] sheet_row_day(r) == "Selasa"@ by {
        assert(r / 15 == 1) by (nonlinear_arith) requires 15 <= r < 30;
    }
    assert forall|r: int| 30 <= r < 45 implies #[trigger] sheet_row_day(r) == "Rabu"@ by {
        assert(r / 15 == 2) by (nonlinear_arith) requires 30 <= r < 45;
    }
    assert forall|r: int| 45 <= r < 60 implies #[trigger] sheet_row_day(r) == "Kamis"@ by {
        assert(r / 15 == 3) by (nonlinear_arith) requires 45 <= r < 60;
    }
    assert forall|r: int| 60 <= r < 75 implies #[trigger] sheet_row_day(r) == "Jum'at"@ by {
        assert(r / 15 == 4) by (nonlinear_arith) requires 60 <= r < 75;
    }
}

impl Excel {
    /// The known lecturer identifiers of the class detail below (`row`,
    /// `col`); `None` when there is no detail or none of its codes is known.
    pub open spec fn spec_known_lecturer_ids(&self, row: int, col: int, known: Map<Seq<char>, String>) -> Option<Seq<Seq<char>>> {
        match self.spec_class_detail(row, col) {
            Some(d) => {
                let ids = known_ids(known, detail_pieces(d));
                if ids.len() == 0 {
                    None
                } else {
                    Some(ids)
                }
            },
            None => None,
        }
    }

    /// The subject identifier and class code of a class text, when the
    /// subject is known by its exact name.
    pub fn parse_subject_class(val: &str, subject_map: &StringHashMap<String>) -> (r: Option<(String, String)>)
        ensures
            opt_pair(r) == subject_class_listed(val@, subject_map@),
    {
        let parts = split_char(val, '-');
        proof {
            assert(views(parts@).len() == parts@.len());
        }
        if parts.len() < 2 {
            return None;
        }
        proof {
            assert(views(parts@)[0] == parts@[0]@);
            assert(views(parts@)[1] == parts@[1]@);
        }
        let (name, code) = if contains_str(parts[0].as_str(), "IUP") && contains_str(parts[1].as_str(), "akselerasi") {
            let before = first_piece_of(parts[0].as_str(), "IUP");
            (trim_str(before.as_str()), String::from_str("IUP akselerasi"))
        } else {
            (trim_str(parts[0].as_str()), trim_str(parts[1].as_str()))
        };
        match subject_map.get(name.as_str()) {
            Some(id) => Some((id.clone(), code)),
            None => None,
        }
    }

    /// The known lecturer identifiers of the class detail below (`row`,
    /// `col`), unknown codes left out.
    pub fn known_lecturer_ids(&self, row: u32, col: u32, lecturer_map: &StringHashMap<String>) -> (r: Option<Vec<String>>)
        requires
            row < u32::MAX,
            self.lecturer_str_ready(row as int, col as int),
        ensures
            opt_strings(r) == self.spec_known_lecturer_ids(row as int, col as int, lecturer_map@),
    {
        let pieces = match self.detail_pieces_at(row, col) {
            Some(p) => p,
            None => return None,
        };
        let ghost ps = views(pieces@);
        let mut ids: Vec<String> = Vec::new();
        let mut i: usize = 0;
        while i < pieces.len()
            invariant
                i <= pieces@.len(),
                ps == views(pieces@),
                views(ids@) == known_ids(lecturer_map@, ps.take(i as int)),
            decreases pieces.len() - i,
        {
            let code = trim_str(pieces[i].as_str());
            assert(ps[i as int] == pieces@[i as int]@);
            assert(ps.take(i + 1).drop_last() =~= ps.take(i as int));
            assert(ps.take(i + 1).last() == ps[i as int]);
            let ghost before = ids@;
            match lecturer_map.get(code.as_str()) {
                Some(id) => {
                    ids.push(id.clone());
                    assert forall|k: int| 0 <= k < views(before).len() implies #[trigger] views(ids@)[k] == views(before)[k] by {
                        assert(views(before)[k] == before[k]@);
                    }
                    assert(views(ids@) =~= views(before) + seq![id@]);
                },
                None => {
                    assert(views(ids@) =~= views(before) + Seq::<Seq<char>>::empty());
                },
            }
            i += 1;
        }
        assert(ps.take(ps.len() as int) =~= ps);
        assert(views(ids@).len() == ids@.len());
        if ids.len() == 0 {
            None
        } else {
            Some(ids)
        }
    }
    /// The class in the cell at (`r`, `c`) as `parse_excel` reads it.
    pub open spec fn listed_class_at(
        &self,
        r: int,
        c: int,
        subjects: Map<Seq<char>, String>,
        lecturers: Map<Seq<char>, String>,
        sessions: Map<Seq<char>, i8>,
    ) -> Option<ClassView> {
        match self.range@.cells[r][c] {
            Some(val) => match subject_class_listed(val, subjects) {
                Some((matkul_id, code)) => match self.spec_known_lecturer_ids(r, c, lecturers) {
                    Some(lecturers_id) => match self.spec_session_to_map(r, sessions) {
                        Some(session_id) => Some(ClassView { matkul_id, lecturers_id, day: sheet_row_day(r), code, session_id }),
                        None => None,
                    },
                    None => None,
                },
                None => None,
            },
            None => None,
        }
    }

    /// The cell at (`r`, `c`) can be read by `parse_excel` without a failing
    /// step: a known subject has a detail with a third part, and a class with
    /// known lecturers lies in a row within the days of the week.
    pub open spec fn listed_cell_ready(
        &self,
        r: int,
        c: int,
        subjects: Map<Seq<char>, String>,
        lecturers: Map<Seq<char>, String>,
    ) -> bool {
        match self.range@.cells[r][c] {
            Some(val) => match subject_class_listed(val, subjects) {
                Some(_) => self.lecturer_str_ready(r, c) && (self.spec_known_lecturer_ids(r, c, lecturers) is Some
                    ==> r / (SHEET_DAY_ROWS as int) < num_days()),
                None => true,
            },
            None => true,
        }
    }

    pub open spec fn listed_in_row(
        &self,
        r: int,
        n: int,
        subjects: Map<Seq<char>, String>,
        lecturers: Map<Seq<char>, String>,
        sessions: Map<Seq<char>, i8>,
    ) -> Seq<ClassView>
        decreases n,
    {
        if n <= 0 {
            Seq::empty()
        } else {
            self.listed_in_row(r, n - 1, subjects, lecturers, sessions) + opt_seq(
                self.listed_class_at(r, n - 1, subjects, lecturers, sessions),
            )
        }
    }

    pub open spec fn listed_in_rows(
        &self,
        k: int,
        subjects: Map<Seq<char>, String>,
        lecturers: Map<Seq<char>, String>,
        sessions: Map<Seq<char>, i8>,
    ) -> Seq<ClassView>
        decreases k,
    {
        if k <= 0 {
            Seq::empty()
        } else {
            self.listed_in_rows(k - 1, subjects, lecturers, sessions) + self.listed_in_row(
                k - 1,
                self.range@.cells[k - 1].len() as int,
                subjects,
                lecturers,
                sessions,
            )
        }
    }

    pub open spec fn listed_ready(&self, subjects: Map<Seq<char>, String>, lecturers: Map<Seq<char>, String>) -> bool {
        forall|r: int, c: int|
            0 <= r < self.range@.cells.len() && 0 <= c < self.range@.cells[r].len() ==> #[trigger] self.listed_cell_ready(
                r,
                c,
                subjects,
                lecturers,
            )
    }

    fn listed_in_cell(
        &self,
        r: usize,
        c: usize,
        list_subject: &StringHashMap<String>,
        list_lecture: &StringHashMap<String>,
        list_session: &StringHashMap<i8>,
    ) -> (res: Option<Class>)
        requires
            r < self.range@.cells.len(),
            c < self.range@.cells[r as int].len(),
            fits(self.range@.cells),
            self.listed_cell_ready(r as int, c as int, list_subject@, list_lecture@),
        ensures
            match res {
                Some(cls) => self.listed_class_at(r as int, c as int, list_subject@, list_lecture@, list_session@) == Some(cls@),
                None => self.listed_class_at(r as int, c as int, list_subject@, list_lecture@, list_session@) is None,
            },
    {
        let val = match self.range.cell(r, c) {
            Some(v) => v,
            None => return None,
        };
        let (subject_id, class_code) = match Excel::parse_subject_class(val.as_str(), list_subject) {
            Some(p) => p,
            None => return None,
        };
        let lecturers_id = match self.known_lecturer_ids(r as u32, c as u32, list_lecture) {
            Some(l) => l,
            None => return None,
        };
        let day = day_of(r / SHEET_DAY_ROWS);
        let session_id = match self.session_to_map(r as u32, list_session) {
            Some(s) => s,
            None => return None,
        };
        Some(Class { matkul_id: subject_id, lecturers_id, day, code: class_code, session_id })
    }

    /// Every class of the sheet whose subject, lecturers and session are
    /// known, row by row and cell by cell.
    pub fn parse_excel(
        &self,
        list_subject: &StringHashMap<String>,
        list_lecture: &StringHashMap<String>,
        list_session: &StringHashMap<i8>,
    ) -> (list_class: Vec<Class>)
        requires
            self.listed_ready(list_subject@, list_lecture@),
        ensures
            class_views(list_class@) == self.listed_in_rows(
                self.range@.cells.len() as int,
                list_subject@,
                list_lecture@,
                list_session@,
            ),
    {
        let mut list_class: Vec<Class> = Vec::new();
        let height = self.range.height();
        let mut r: usize = 0;
        while r < height
            invariant
                r <= height == self.range@.cells.len(),
                fits(self.range@.cells),
                self.listed_ready(list_subject@, list_lecture@),
                class_views(list_class@) == self.listed_in_rows(r as int, list_subject@, list_lecture@, list_session@),
            decreases height - r,
        {
            let width = self.range.row_width(r);
            let mut c: usize = 0;
            while c < width
                invariant
                    r < height == self.range@.cells.len(),
                    c <= width == self.range@.cells[r as int].len(),
                    fits(self.range@.cells),
                    self.listed_ready(list_subject@, list_lecture@),
                    class_views(list_class@) == self.listed_in_rows(r as int, list_subject@, list_lecture@, list_session@)
                        + self.listed_in_row(r as int, c as int, list_subject@, list_lecture@, list_session@),
                decreases width - c,
            {
                assert(self.listed_cell_ready(r as int, c as int, list_subject@, list_lecture@));
                let found = self.listed_in_cell(r, c, list_subject, list_lecture, list_session);
                let ghost before = list_class@;
                match found {
                    Some(cls) => {
                        list_class.push(cls);
                        assert(class_views(list_class@) =~= class_views(before).push(cls@));
                    },
                    None => {},
                }
                assert(self.listed_in_row(r as int, c + 1, list_subject@, list_lecture@, list_session@) =~= self.listed_in_row(r as int, c as int, list_subject@, list_lecture@, list_session@) + opt_seq(self.listed_class_at(r as int, c as int, list_subject@, list_lecture@, list_session@)));
                c += 1;
            }
            r += 1;
        }
        list_class
    }

    /// Whether `self.listed_cell_ready(r, c, list_subject@, list_lecture@)`.
    fn listed_cell_ready_exec(
        &self,
        r: usize,
        c: usize,
        list_subject: &StringHashMap<String>,
        list_lecture: &StringHashMap<String>,
    ) -> (b: bool)
        requires
            r < self.range@.cells.len(),
            c < self.range@.cells[r as int].len(),
            fits(self.range@.cells),
        ensures
            b == self.listed_cell_ready(r as int, c as int, list_subject@, list_lecture@),
    {
        let val = match self.range.cell(r, c) {
            Some(v) => v,
            None => return true,
        };
        if Excel::parse_subject_class(val.as_str(), list_subject).is_none() {
            return true;
        }
        let detail = match self.retrieve_class_detail(r as u32, c as u32) {
            Some(d) => d,
            None => return true,
        };
        let parts = split_char(detail.as_str(), '/');
        proof {
            assert(views(parts@).len() == parts@.len());
        }
        if parts.len() <= 2 {
            return false;
        }
        if self.known_lecturer_ids(r as u32, c as u32, list_lecture).is_none() {
            return true;
        }
        r / SHEET_DAY_ROWS < 5
    }

    /// Whether every cell can be read by `parse_excel` without a failing step
    /// (`listed_ready`).
    pub fn can_parse_excel(&self, list_subject: &StringHashMap<String>, list_lecture: &StringHashMap<String>) -> (b: bool)
        ensures
            b == self.listed_ready(list_subject@, list_lecture@),
    {
        let height = self.range.height();
        let mut r: usize = 0;
        while r < height
            invariant
                r <= height == self.range@.cells.len(),
                fits(self.range@.cells),
                forall|i: int, j: int| 0 <= i < r && 0 <= j < self.range@.cells[i].len() ==> #[trigger] self.listed_cell_ready(i, j, list_subject@, list_lecture@),
            decreases height - r,
        {
            let width = self.range.row_width(r);
            let mut c: usize = 0;
            while c < width
                invariant
                    r < height == self.range@.cells.len(),
                    c <= width == self.range@.cells[r as int].len(),
                    fits(self.range@.cells),
                    forall|i: int, j: int| 0 <= i < r && 0 <= j < self.range@.cells[i].len() ==> #[trigger] self.listed_cell_ready(i, j, list_subject@, list_lecture@),
                    forall|j: int| 0 <= j < c ==> #[trigger] self.listed_cell_ready(r as int, j, list_subject@, list_lecture@),
                decreases width - c,
            {
                if !self.listed_cell_ready_exec(r, c, list_subject, list_lecture) {
                    return false;
                }
                c += 1;
            }
            r += 1;
        }
        true
    }
}

impl Excel {
    proof fn lemma_listed_row_is_walk(&self, r: int, n: int, subjects: Map<Seq<char>, String>, lecturers: Map<Seq<char>, String>, sessions: Map<Seq<char>, i8>)
        ensures
            self.listed_in_row(r, n, subjects, lecturers, sessions) == walk_row(|r: int, c: int| self.listed_class_at(r, c, subjects, lecturers, sessions), r, n),
        decreases n,
    {
        if n > 0 {
            self.lemma_listed_row_is_walk(r, n - 1, subjects, lecturers, sessions);
        }
    }

    proof fn lemma_listed_rows_is_walk(&self, k: int, subjects: Map<Seq<char>, String>, lecturers: Map<Seq<char>, String>, sessions: Map<Seq<char>, i8>)
        ensures
            self.listed_in_rows(k, subjects, lecturers, sessions) == walk_rows(
                |r: int, c: int| self.listed_class_at(r, c, subjects, lecturers, sessions),
                |r: int| self.range@.cells[r].len() as int,
                k,
            ),
        decreases k,
    {
        if k > 0 {
            self.lemma_listed_rows_is_walk(k - 1, subjects, lecturers, sessions);
            self.lemma_listed_row_is_walk(k - 1, self.range@.cells[k - 1].len() as int, subjects, lecturers, sessions);
        }
    }

    /// What the walk over the whole sheet collects (the classes that `parse_excel` reads): the value of
    /// every cell, in every row, where `listed_class_at` gives one; only such values;
    /// one value for each such cell; and in the order of the cells, row by
    /// row and cell by cell.
    pub proof fn lemma_listed_walk_laws(&self, subjects: Map<Seq<char>, String>, lecturers: Map<Seq<char>, String>, sessions: Map<Seq<char>, i8>)
        ensures
            ({
                let all = self.listed_in_rows(self.range@.cells.len() as int, subjects, lecturers, sessions);
                &&& forall|r: int, c: int|
                    #![trigger self.listed_class_at(r, c, subjects, lecturers, sessions)]
                    0 <= r < self.range@.cells.len() && 0 <= c < self.range@.cells[r].len() && self.listed_class_at(r, c, subjects, lecturers, sessions) is Some
                        ==> all.contains(self.listed_class_at(r, c, subjects, lecturers, sessions)->Some_0)
                &&& forall|x: ClassView|
                    #[trigger] all.contains(x) ==> exists|r: int, c: int|
                        0 <= r < self.range@.cells.len() && 0 <= c < self.range@.cells[r].len() && #[trigger] self.listed_class_at(r, c, subjects, lecturers, sessions) == Some(x)
                &&& forall|r1: int, c1: int, r2: int, c2: int|
                    #![trigger self.listed_class_at(r1, c1, subjects, lecturers, sessions), self.listed_class_at(r2, c2, subjects, lecturers, sessions)]
                    0 <= r1 < self.range@.cells.len() && 0 <= c1 < self.range@.cells[r1].len() && 0 <= r2 < self.range@.cells.len()
                        && 0 <= c2 < self.range@.cells[r2].len() && (r1 < r2 || (r1 == r2 && c1 < c2)) && self.listed_class_at(r1, c1, subjects, lecturers, sessions) is Some
                        && self.listed_class_at(r2, c2, subjects, lecturers, sessions) is Some ==> comes_before(all, self.listed_class_at(r1, c1, subjects, lecturers, sessions)->Some_0, self.listed_class_at(r2, c2, subjects, lecturers, sessions)->Some_0)
                &&& all.len() == count_rows(
                    |r: int, c: int| self.listed_class_at(r, c, subjects, lecturers, sessions),
                    |r: int| self.range@.cells[r].len() as int,
                    self.range@.cells.len() as int,
                )
            }),
    {
        let k = self.range@.cells.len() as int;
        let f = |r: int, c: int| self.listed_class_at(r, c, subjects, lecturers, sessions);
        let w = |r: int| self.range@.cells[r].len() as int;
        self.lemma_listed_rows_is_walk(k, subjects, lecturers, sessions);
        lemma_walk_rows_laws(f, w, k);
        let all = self.listed_in_rows(k, subjects, lecturers, sessions);
        assert forall|r1: int, c1: int, r2: int, c2: int|
            #![trigger self.listed_class_at(r1, c1, subjects, lecturers, sessions), self.listed_class_at(r2, c2, subjects, lecturers, sessions)]
            0 <= r1 < k && 0 <= c1 < self.range@.cells[r1].len() && 0 <= r2 < k && 0 <= c2 < self.range@.cells[r2].len() && (r1 < r2
                || (r1 == r2 && c1 < c2)) && self.listed_class_at(r1, c1, subjects, lecturers, sessions) is Some && self.listed_class_at(r2, c2, subjects, lecturers, sessions) is Some implies comes_before(
            all,
            self.listed_class_at(r1, c1, subjects, lecturers, sessions)->Some_0,
            self.listed_class_at(r2, c2, subjects, lecturers, sessions)->Some_0,
        ) by {
            assert(f(r1, c1) is Some && f(r2, c2) is Some);
            assert(0 <= c1 < w(r1) && 0 <= c2 < w(r2));
        }
        assert forall|r: int, c: int|
            #![trigger self.listed_class_at(r, c, subjects, lecturers, sessions)]
            0 <= r < k && 0 <= c < self.range@.cells[r].len() && self.listed_class_at(r, c, subjects, lecturers, sessions) is Some implies all.contains(self.listed_class_at(r, c, subjects, lecturers, sessions)->Some_0) by {
            assert(f(r, c) is Some);
            assert(0 <= c < w(r));
        }
        assert forall|x: ClassView| #[trigger] all.contains(x) implies exists|r: int, c: int|
            0 <= r < k && 0 <= c < self.range@.cells[r].len() && #[trigger] self.listed_class_at(r, c, subjects, lecturers, sessions) == Some(x) by {
            assert(found_somewhere(f, w, k, x));
            let (r, c) = choose|r: int, c: int| 0 <= r < k && 0 <= c < w(r) && #[trigger] f(r, c) == Some(x);
            assert(self.listed_class_at(r, c, subjects, lecturers, sessions) == Some(x));
        }
    }
}

} // verus!
