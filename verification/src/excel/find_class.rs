use vstd::prelude::*;

use super::parser::{lecturer_codes, session_start};
use super::{fits, Excel, FindClassSchedule, Parser, Retrieve};
use crate::db::repository::class::{ClassFindSchedule, FindView};
use crate::parser::schedule_parser::{opt_seq, row_day, row_has_day};
use crate::text::{contains_str, has_sub};
use super::walk::{comes_before, count_rows, found_somewhere, lemma_walk_rows_laws, walk_row, walk_rows};
use crate::{day_of, DAY_OFFSET};

verus! {

impl Excel {
    /// The schedule of the class whose text, holding `name`, is in the cell
    /// at relative position (`r`, `c`): the text, the lecturer codes of its
    /// detail, the day of its row and the start of its row's session.
    pub open spec fn found_at(&self, name: Seq<char>, r: int, c: int) -> Option<FindView> {
        match self.range@.cells[r][c] {
            Some(val) => if !has_sub(val, name) {
                None
            } else {
                match self.spec_class_detail(r, c) {
                    Some(detail) => match lecturer_codes(detail) {
                        Some(codes) => match self.spec_session_text(r) {
                            Some(text) => Some(FindView {
                                class: val,
                                lecturers_code: codes,
                                day: row_day(r),
                                session_start: session_start(text),
                            }),
                            None => None,
                        },
                        None => None,
                    },
                    None => None,
                }
            },
            None => None,
        }
    }

    /// When the cell at (`r`, `c`) holds `name` and its detail names
    /// lecturers, its row lies within the days of the week.
    pub open spec fn found_cell_ready(&self, name: Seq<char>, r: int, c: int) -> bool {
        match self.range@.cells[r][c] {
            Some(val) => if !has_sub(val, name) {
                true
            } else {
                match self.spec_class_detail(r, c) {
                    Some(detail) => match lecturer_codes(detail) {
                        Some(_) => row_has_day(r),
                        None => true,
                    },
                    None => true,
                }
            },
            None => true,
        }
    }

    /// The schedules found in the first `n` cells of row `r`.
    pub open spec fn found_in_row(&self, name: Seq<char>, r: int, n: int) -> Seq<FindView>
        decreases n,
    {
        if n <= 0 {
            Seq::empty()
        } else {
            self.found_in_row(name, r, n - 1) + opt_seq(self.found_at(name, r, n - 1))
        }
    }

    /// The schedules found in the first `k` rows.
    pub open spec fn found_in_rows(&self, name: Seq<char>, k: int) -> Seq<FindView>
        decreases k,
    {
        if k <= 0 {
            Seq::empty()
        } else {
            self.found_in_rows(name, k - 1) + self.found_in_row(name, k - 1, self.range@.cells[k - 1].len() as int)
        }
    }

    /// Every cell can be searched for `name` without a failing lookup.
    pub open spec fn found_ready(&self, name: Seq<char>) -> bool {
        forall|r: int, c: int|
            0 <= r < self.range@.cells.len() && 0 <= c < self.range@.cells[r].len() ==> #[trigger] self.found_cell_ready(name, r, c)
    }

    fn found_in_cell(&self, subject_name: &str, r: usize, c: usize) -> (res: Option<ClassFindSchedule>)
        requires
            r < self.range@.cells.len(),
            c < self.range@.cells[r as int].len(),
            fits(self.range@.cells),
            self.found_cell_ready(subject_name@, r as int, c as int),
        ensures
            match res {
                Some(f) => self.found_at(subject_name@, r as int, c as int) == Some(f@),
                None => self.found_at(subject_name@, r as int, c as int) is None,
            },
    {
        let val = match self.range.cell(r, c) {
            Some(v) => v,
            None => return None,
        };
        if !contains_str(val.as_str(), subject_name) {
            return None;
        }
        let lecturers_str = match self.retrieve_class_detail(r as u32, c as u32) {
            Some(s) => s,
            None => return None,
        };
        let lecturers = match Excel::parse_lecturer(lecturers_str.as_str()) {
            Some(l) => l,
            None => return None,
        };
        let day = day_of(r / DAY_OFFSET);
        let session_str = match self.retrieve_session(r as u32) {
            Some(s) => s,
            None => return None,
        };
        let session_name = match Excel::parse_session(session_str.as_str()) {
            Some(s) => s,
            None => return None,
        };
        Some(ClassFindSchedule { class: val, lecturers_code: lecturers, day, session_start: session_name })
    }

    fn found_cell_ready_exec(&self, subject_name: &str, r: usize, c: usize) -> (b: bool)
        requires
            r < self.range@.cells.len(),
            c < self.range@.cells[r as int].len(),
            fits(self.range@.cells),
        ensures
            b == self.found_cell_ready(subject_name@, r as int, c as int),
    {
        let val = match self.range.cell(r, c) {
            Some(v) => v,
            None => return true,
        };
        if !contains_str(val.as_str(), subject_name) {
            return true;
        }
        let lecturers_str = match self.retrieve_class_detail(r as u32, c as u32) {
            Some(s) => s,
            None => return true,
        };
        if Excel::parse_lecturer(lecturers_str.as_str()).is_none() {
            return true;
        }
        r / DAY_OFFSET < 5
    }

    /// Whether every cell can be searched for `subject_name` without a
    /// failing lookup (`found_ready`).
    pub fn can_find(&self, subject_name: &str) -> (b: bool)
        ensures
            b == self.found_ready(subject_name@),
    {
        let height = self.range.height();
        let mut r: usize = 0;
        while r < height
            invariant
                r <= height == self.range@.cells.len(),
                fits(self.range@.cells),
                forall|i: int, j: int| 0 <= i < r && 0 <= j < self.range@.cells[i].len() ==> #[trigger] self.found_cell_ready(subject_name@, i, j),
            decreases height - r,
        {
            let width = self.range.row_width(r);
            let mut c: usize = 0;
            while c < width
                invariant
                    r < height == self.range@.cells.len(),
                    c <= width == self.range@.cells[r as int].len(),
                    fits(self.range@.cells),
                    forall|i: int, j: int| 0 <= i < r && 0 <= j < self.range@.cells[i].len() ==> #[trigger] self.found_cell_ready(subject_name@, i, j),
                    forall|j: int| 0 <= j < c ==> #[trigger] self.found_cell_ready(subject_name@, r as int, j),
                decreases width - c,
            {
                if !self.found_cell_ready_exec(subject_name, r, c) {
                    return false;
                }
                c += 1;
            }
            r += 1;
        }
        true
    }
}

impl FindClassSchedule for Excel {
    open spec fn find_ready(&self, subject_name: Seq<char>) -> bool {
        self.found_ready(subject_name)
    }

    fn find_schedule_from_class(&self, subject_name: &str) -> (schedules: Vec<ClassFindSchedule>)
        ensures
            schedules@.map_values(|x: ClassFindSchedule| x@) == self.found_in_rows(subject_name@, self.range@.cells.len() as int),
    {
        let mut schedules: Vec<ClassFindSchedule> = Vec::new();
        let height = self.range.height();
        let mut r: usize = 0;
        while r < height
            invariant
                r <= height == self.range@.cells.len(),
                fits(self.range@.cells),
                self.found_ready(subject_name@),
                schedules@.map_values(|x: ClassFindSchedule| x@) == self.found_in_rows(subject_name@, r as int),
            decreases height - r,
        {
            let width = self.range.row_width(r);
            let mut c: usize = 0;
            while c < width
                invariant
                    r < height == self.range@.cells.len(),
                    c <= width == self.range@.cells[r as int].len(),
                    fits(self.range@.cells),
                    self.found_ready(subject_name@),
                    schedules@.map_values(|x: ClassFindSchedule| x@) == self.found_in_rows(subject_name@, r as int) + self.found_in_row(subject_name@, r as int, c as int),
                decreases width - c,
            {
                assert(self.found_cell_ready(subject_name@, r as int, c as int));
                let found = self.found_in_cell(subject_name, r, c);
                let ghost before = schedules@;
                match found {
                    Some(f) => {
                        schedules.push(f);
                        assert(schedules@.map_values(|x: ClassFindSchedule| x@) =~= before.map_values(|x: ClassFindSchedule| x@).push(f@));
                    },
                    None => {},
                }
                assert(self.found_in_rows(subject_name@, r as int) + self.found_in_row(subject_name@, r as int, c + 1) =~= self.found_in_rows(subject_name@, r as int) + self.found_in_row(subject_name@, r as int, c as int) + opt_seq(self.found_at(subject_name@, r as int, c as int)));
                c += 1;
            }
            r += 1;
        }
        schedules
    }
}

impl Excel {
    proof fn lemma_found_row_is_walk(&self, name: Seq<char>, r: int, n: int)
        ensures
            self.found_in_row(name, r, n) == walk_row(|r: int, c: int| self.found_at(name, r, c), r, n),
        decreases n,
    {
        if n > 0 {
            self.lemma_found_row_is_walk(name, r, n - 1);
        }
    }

    proof fn lemma_found_rows_is_walk(&self, name: Seq<char>, k: int)
        ensures
            self.found_in_rows(name, k) == walk_rows(
                |r: int, c: int| self.found_at(name, r, c),
                |r: int| self.range@.cells[r].len() as int,
                k,
            ),
        decreases k,
    {
        if k > 0 {
            self.lemma_found_rows_is_walk(name, k - 1);
            self.lemma_found_row_is_walk(name, k - 1, self.range@.cells[k - 1].len() as int);
        }
    }

    /// What searching the sheet for `name` finds (`find_schedule_from_class`
    /// returns exactly `found_in_rows` over all rows): every cell, in every
    /// row, whose text holds `name` and whose detail below names lecturers
    /// and whose row has a session gives its schedule (its text, the
    /// lecturer codes of its detail, the day of its row and the start of the
    /// session); every schedule found is the text of some cell that holds
    /// `name`; the schedules come in the order of their cells; and there is
    /// one schedule for each such cell.
    pub proof fn lemma_find_schedule_laws(&self, name: Seq<char>)
        ensures
            ({
                let found = self.found_in_rows(name, self.range@.cells.len() as int);
                &&& forall|r: int, c: int, d: Seq<char>, t: Seq<char>|
                    #![trigger self.range@.cells[r][c], self.spec_class_detail(r, c), self.spec_session_text(r), lecturer_codes(d), session_start(t)]
                    0 <= r < self.range@.cells.len() && 0 <= c < self.range@.cells[r].len()
                        && self.range@.cells[r][c] is Some && has_sub(self.range@.cells[r][c]->Some_0, name)
                        && self.spec_class_detail(r, c) == Some(d) && lecturer_codes(d) is Some
                        && self.spec_session_text(r) == Some(t) ==> found.contains(
                        FindView {
                            class: self.range@.cells[r][c]->Some_0,
                            lecturers_code: lecturer_codes(d)->Some_0,
                            day: row_day(r),
                            session_start: session_start(t),
                        },
                    )
                &&& forall|i: int|
                    0 <= i < found.len() ==> has_sub(#[trigger] found[i].class, name) && exists|r: int, c: int|
                        0 <= r < self.range@.cells.len() && 0 <= c < self.range@.cells[r].len()
                            && #[trigger] self.range@.cells[r][c] == Some(found[i].class) && found[i].day == row_day(r)
                &&& forall|r1: int, c1: int, r2: int, c2: int|
                    #![trigger self.found_at(name, r1, c1), self.found_at(name, r2, c2)]
                    0 <= r1 < self.range@.cells.len() && 0 <= c1 < self.range@.cells[r1].len() && 0 <= r2 < self.range@.cells.len()
                        && 0 <= c2 < self.range@.cells[r2].len() && (r1 < r2 || (r1 == r2 && c1 < c2)) && self.found_at(name, r1, c1) is Some
                        && self.found_at(name, r2, c2) is Some ==> comes_before(found, self.found_at(name, r1, c1)->Some_0, self.found_at(name, r2, c2)->Some_0)
                &&& found.len() == count_rows(
                    |r: int, c: int| self.found_at(name, r, c),
                    |r: int| self.range@.cells[r].len() as int,
                    self.range@.cells.len() as int,
                )
            }),
    {
        let k = self.range@.cells.len() as int;
        let f = |r: int, c: int| self.found_at(name, r, c);
        let w = |r: int| self.range@.cells[r].len() as int;
        self.lemma_found_rows_is_walk(name, k);
        lemma_walk_rows_laws(f, w, k);
        let found = self.found_in_rows(name, k);
        assert forall|r1: int, c1: int, r2: int, c2: int|
            #![trigger self.found_at(name, r1, c1), self.found_at(name, r2, c2)]
            0 <= r1 < k && 0 <= c1 < self.range@.cells[r1].len() && 0 <= r2 < k && 0 <= c2 < self.range@.cells[r2].len() && (r1 < r2
                || (r1 == r2 && c1 < c2)) && self.found_at(name, r1, c1) is Some && self.found_at(name, r2, c2) is Some implies comes_before(
            found,
            self.found_at(name, r1, c1)->Some_0,
            self.found_at(name, r2, c2)->Some_0,
        ) by {
            assert(f(r1, c1) is Some && f(r2, c2) is Some);
            assert(0 <= c1 < w(r1) && 0 <= c2 < w(r2));
        }
        assert forall|r: int, c: int, d: Seq<char>, t: Seq<char>|
            #![trigger self.range@.cells[r][c], self.spec_class_detail(r, c), self.spec_session_text(r), lecturer_codes(d), session_start(t)]
            0 <= r < k && 0 <= c < self.range@.cells[r].len()
                && self.range@.cells[r][c] is Some && has_sub(self.range@.cells[r][c]->Some_0, name)
                && self.spec_class_detail(r, c) == Some(d) && lecturer_codes(d) is Some
                && self.spec_session_text(r) == Some(t) implies found.contains(
                FindView {
                    class: self.range@.cells[r][c]->Some_0,
                    lecturers_code: lecturer_codes(d)->Some_0,
                    day: row_day(r),
                    session_start: session_start(t),
                },
            ) by {
            assert(f(r, c) is Some);
            assert(0 <= c < w(r));
        }
        assert forall|i: int|
            0 <= i < found.len() implies has_sub(#[trigger] found[i].class, name) && exists|r: int, c: int|
                0 <= r < self.range@.cells.len() && 0 <= c < self.range@.cells[r].len()
                    && #[trigger] self.range@.cells[r][c] == Some(found[i].class) && found[i].day == row_day(r) by {
            assert(found.contains(found[i]));
            assert(found_somewhere(f, w, k, found[i]));
            let (r, c) = choose|r: int, c: int| 0 <= r < k && 0 <= c < w(r) && #[trigger] f(r, c) == Some(found[i]);
            assert(self.found_at(name, r, c) == Some(found[i]));
            assert(self.range@.cells[r][c] == Some(found[i].class));
        }
    }
}

} // verus!
