use vstd::prelude::*;

use super::as_id_parser::AsIdParser;
use super::as_string_parser::AsStringParser;
use super::session_parser::SessionParser;
use crate::db::repository::class::{Class, ClassFromSchedule, ClassView, ScheduleView};
use crate::excel::parser::lecturer_codes;
use crate::excel::{fits, Excel, Parser, Retrieve};
use crate::text::{trim, trim_str, views};
use crate::{day_name, day_of, num_days, DAY_OFFSET};

use crate::excel::walk::{comes_before, count_rows, found_somewhere, lemma_walk_rows_laws, walk_row, walk_rows};
verus! {

pub open spec fn opt_seq<T>(o: Option<T>) -> Seq<T> {
    match o {
        Some(x) => seq![x],
        None => Seq::empty(),
    }
}

/// The day of sheet row `r`.
pub open spec fn row_day(r: int) -> Seq<char> {
    day_name(r / (DAY_OFFSET as int))
}

/// Sheet row `r` lies within the days of the week.
pub open spec fn row_has_day(r: int) -> bool {
    r / (DAY_OFFSET as int) < num_days()
}

impl Excel {
    /// The class whose text is in the cell at relative position (`r`, `c`):
    /// a known subject, the lecturers of its detail, the day of its row and
    /// the known session of its row.
    pub open spec fn class_at(&self, r: int, c: int) -> Option<ClassView> {
        match self.range@.cells[r][c] {
            Some(val) => match self.spec_subject_id_with_code(val) {
                Some((subject_id, class_code)) => match self.spec_class_detail(r, c) {
                    Some(detail) => match lecturer_codes(detail) {
                        Some(codes) => match self.spec_session_id(r) {
                            Some(session_id) => Some(ClassView {
                                matkul_id: subject_id,
                                lecturers_id: self.spec_lecturer_ids(codes),
                                day: row_day(r),
                                code: class_code,
                                session_id,
                            }),
                            None => None,
                        },
                        None => None,
                    },
                    None => None,
                },
                None => None,
            },
            None => None,
        }
    }

    /// The cell at (`r`, `c`) can be read as a class without a failing
    /// lookup: when it names a known subject and its detail names lecturers,
    /// every lecturer is known and the row lies within the days of the week.
    pub open spec fn class_cell_ready(&self, r: int, c: int) -> bool {
        match self.range@.cells[r][c] {
            Some(val) => match self.spec_subject_id_with_code(val) {
                Some(_) => match self.spec_class_detail(r, c) {
                    Some(detail) => match lecturer_codes(detail) {
                        Some(codes) => self.spec_knows_lecturers(codes) && row_has_day(r),
                        None => true,
                    },
                    None => true,
                },
                None => true,
            },
            None => true,
        }
    }

    /// The classes of the first `n` cells of row `r`, in order.
    pub open spec fn classes_in_row(&self, r: int, n: int) -> Seq<ClassView>
        decreases n,
    {
        if n <= 0 {
            Seq::empty()
        } else {
            self.classes_in_row(r, n - 1) + opt_seq(self.class_at(r, n - 1))
        }
    }

    /// The classes of the first `k` rows, row by row.
    pub open spec fn classes_in_rows(&self, k: int) -> Seq<ClassView>
        decreases k,
    {
        if k <= 0 {
            Seq::empty()
        } else {
            self.classes_in_rows(k - 1) + self.classes_in_row(k - 1, self.range@.cells[k - 1].len() as int)
        }
    }

    /// Every cell can be read as a class without a failing lookup.
    pub open spec fn classes_ready(&self) -> bool {
        forall|r: int, c: int|
            0 <= r < self.range@.cells.len() && 0 <= c < self.range@.cells[r].len() ==> #[trigger] self.class_cell_ready(r, c)
    }

    /// The schedule entry whose text is in the cell at relative position
    /// (`r`, `c`): a known subject, the lecturer codes of its detail, the day
    /// of its row and the known session of its row.
    pub open spec fn entry_at(&self, r: int, c: int) -> Option<ScheduleView> {
        match self.range@.cells[r][c] {
            Some(val) => match self.spec_subject_with_code(val) {
                Some((subject_name, class_code)) => match self.spec_lecturer(r, c) {
                    Some(lecturer_code) => match self.spec_known_session(r) {
                        Some(session_start) => Some(ScheduleView {
                            subject_name,
                            class_code,
                            lecturer_code,
                            day: row_day(r),
                            session_start,
                        }),
                        None => None,
                    },
                    None => None,
                },
                None => None,
            },
            None => None,
        }
    }

    /// The cell at (`r`, `c`) can be read as a schedule entry without a
    /// failing lookup: when it names a known subject with lecturers, its row
    /// lies within the days of the week.
    pub open spec fn entry_cell_ready(&self, r: int, c: int) -> bool {
        match self.range@.cells[r][c] {
            Some(val) => match self.spec_subject_with_code(val) {
                Some(_) => match self.spec_lecturer(r, c) {
                    Some(_) => row_has_day(r),
                    None => true,
                },
                None => true,
            },
            None => true,
        }
    }

    /// The schedule entries of the first `n` cells of row `r`, in order.
    pub open spec fn entries_in_row(&self, r: int, n: int) -> Seq<ScheduleView>
        decreases n,
    {
        if n <= 0 {
            Seq::empty()
        } else {
            self.entries_in_row(r, n - 1) + opt_seq(self.entry_at(r, n - 1))
        }
    }

    /// The schedule entries of the first `k` rows, row by row.
    pub open spec fn entries_in_rows(&self, k: int) -> Seq<ScheduleView>
        decreases k,
    {
        if k <= 0 {
            Seq::empty()
        } else {
            self.entries_in_rows(k - 1) + self.entries_in_row(k - 1, self.range@.cells[k - 1].len() as int)
        }
    }

    /// Every cell can be read as a schedule entry without a failing lookup.
    pub open spec fn entries_ready(&self) -> bool {
        forall|r: int, c: int|
            0 <= r < self.range@.cells.len() && 0 <= c < self.range@.cells[r].len() ==> #[trigger] self.entry_cell_ready(r, c)
    }

    /// The class in the cell at (`r`, `c`).
    fn class_in_cell(&self, r: usize, c: usize) -> (res: Option<Class>)
        requires
            r < self.range@.cells.len(),
            c < self.range@.cells[r as int].len(),
            fits(self.range@.cells),
            self.class_cell_ready(r as int, c as int),
        ensures
            match res {
                Some(cls) => self.class_at(r as int, c as int) == Some(cls@),
                None => self.class_at(r as int, c as int) is None,
            },
    {
        let val = match self.range.cell(r, c) {
            Some(v) => v,
            None => return None,
        };
        let (subject_id, class_code) = match self.get_subject_id_with_code(val.as_str()) {
            Some(p) => p,
            None => return None,
        };
        let lecturers_str = match self.retrieve_class_detail(r as u32, c as u32) {
            Some(s) => s,
            None => return None,
        };
        let lecturers = match Excel::parse_lecturer(lecturers_str.as_str()) {
            Some(l) => l,
            None => return None,
        };
        let lecturers_id = self.get_lecturer_id(lecturers);
        let day = day_of(r / DAY_OFFSET);
        let session_id: i8 = match self.get_session(r as u32) {
            Some(s) => s,
            None => return None,
        };
        Some(Class { matkul_id: subject_id, lecturers_id, day, code: class_code, session_id })
    }

    /// The schedule entry in the cell at (`r`, `c`).
    fn entry_in_cell(&self, r: usize, c: usize) -> (res: Option<ClassFromSchedule>)
        requires
            r < self.range@.cells.len(),
            c < self.range@.cells[r as int].len(),
            fits(self.range@.cells),
            self.entry_cell_ready(r as int, c as int),
        ensures
            match res {
                Some(e) => self.entry_at(r as int, c as int) == Some(e@),
                None => self.entry_at(r as int, c as int) is None,
            },
    {
        let val = match self.range.cell(r, c) {
            Some(v) => v,
            None => return None,
        };
        let (subject_name, class_code) = match self.get_subject_with_code(val.as_str()) {
            Some(p) => p,
            None => return None,
        };
        let lecturers = match self.get_lecturer(r as u32, c as u32) {
            Some(l) => l,
            None => return None,
        };
        let day = day_of(r / DAY_OFFSET);
        let session_start: String = match self.get_session(r as u32) {
            Some(s) => s,
            None => return None,
        };
        Some(ClassFromSchedule { subject_name, class_code, lecturer_code: lecturers, day, session_start })
    }

    /// Whether `self.class_cell_ready(r, c)`.
    #[verifier::loop_isolation(false)]
    fn class_cell_ready_exec(&self, r: usize, c: usize) -> (b: bool)
        requires
            r < self.range@.cells.len(),
            c < self.range@.cells[r as int].len(),
            fits(self.range@.cells),
        ensures
            b == self.class_cell_ready(r as int, c as int),
    {
        let val = match self.range.cell(r, c) {
            Some(v) => v,
            None => return true,
        };
        if self.get_subject_id_with_code(val.as_str()).is_none() {
            return true;
        }
        let lecturers_str = match self.retrieve_class_detail(r as u32, c as u32) {
            Some(s) => s,
            None => return true,
        };
        let lecturers = match Excel::parse_lecturer(lecturers_str.as_str()) {
            Some(l) => l,
            None => return true,
        };
        let ghost codes = views(lecturers@);
        let mut i: usize = 0;
        while i < lecturers.len()
            invariant
                i <= lecturers@.len(),
                codes == views(lecturers@),
                forall|k: int| 0 <= k < i ==> self.lecturer_subjects_session_map.lecturers@.contains_key(#[trigger] trim(codes[k])),
            decreases lecturers.len() - i,
        {
            let code = trim_str(lecturers[i].as_str());
            assert(codes[i as int] == lecturers@[i as int]@);
            if !self.lecturer_subjects_session_map.lecturers.contains_key(code.as_str()) {
                assert(!self.lecturer_subjects_session_map.lecturers@.contains_key(trim(codes[i as int])));
                return false;
            }
            i += 1;
        }
        r / DAY_OFFSET < 5
    }

    /// Whether `self.entry_cell_ready(r, c)`.
    fn entry_cell_ready_exec(&self, r: usize, c: usize) -> (b: bool)
        requires
            r < self.range@.cells.len(),
            c < self.range@.cells[r as int].len(),
            fits(self.range@.cells),
        ensures
            b == self.entry_cell_ready(r as int, c as int),
    {
        let val = match self.range.cell(r, c) {
            Some(v) => v,
            None => return true,
        };
        if self.get_subject_with_code(val.as_str()).is_none() {
            return true;
        }
        if self.get_lecturer(r as u32, c as u32).is_none() {
            return true;
        }
        r / DAY_OFFSET < 5
    }

    /// Whether every cell can be read as a class without a failing lookup
    /// (`classes_ready`), the condition under which the class schedule can be
    /// read.
    pub fn can_read_classes(&self) -> (b: bool)
        ensures
            b == self.classes_ready(),
    {
        let height = self.range.height();
        let mut r: usize = 0;
        while r < height
            invariant
                r <= height == self.range@.cells.len(),
                fits(self.range@.cells),
                forall|i: int, j: int| 0 <= i < r && 0 <= j < self.range@.cells[i].len() ==> #[trigger] self.class_cell_ready(i, j),
            decreases height - r,
        {
            let width = self.range.row_width(r);
            let mut c: usize = 0;
            while c < width
                invariant
                    r < height == self.range@.cells.len(),
                    c <= width == self.range@.cells[r as int].len(),
                    fits(self.range@.cells),
                    forall|i: int, j: int| 0 <= i < r && 0 <= j < self.range@.cells[i].len() ==> #[trigger] self.class_cell_ready(i, j),
                    forall|j: int| 0 <= j < c ==> #[trigger] self.class_cell_ready(r as int, j),
                decreases width - c,
            {
                if !self.class_cell_ready_exec(r, c) {
                    return false;
                }
                c += 1;
            }
            r += 1;
        }
        true
    }

    /// Whether every cell can be read as a schedule entry without a failing
    /// lookup (`entries_ready`).
    pub fn can_read_entries(&self) -> (b: bool)
        ensures
            b == self.entries_ready(),
    {
        let height = self.range.height();
        let mut r: usize = 0;
        while r < height
            invariant
                r <= height == self.range@.cells.len(),
                fits(self.range@.cells),
                forall|i: int, j: int| 0 <= i < r && 0 <= j < self.range@.cells[i].len() ==> #[trigger] self.entry_cell_ready(i, j),
            decreases height - r,
        {
            let width = self.range.row_width(r);
            let mut c: usize = 0;
            while c < width
                invariant
                    r < height == self.range@.cells.len(),
                    c <= width == self.range@.cells[r as int].len(),
                    fits(self.range@.cells),
                    forall|i: int, j: int| 0 <= i < r && 0 <= j < self.range@.cells[i].len() ==> #[trigger] self.entry_cell_ready(i, j),
                    forall|j: int| 0 <= j < c ==> #[trigger] self.entry_cell_ready(r as int, j),
                decreases width - c,
            {
                if !self.entry_cell_ready_exec(r, c) {
                    return false;
                }
                c += 1;
            }
            r += 1;
        }
        true
    }
}

/// Reads the whole schedule sheet.
pub trait ScheduleParser<T: View> {
    spec fn schedule_ready(&self) -> bool;

    spec fn spec_schedule(&self) -> Seq<T::V>;

    /// Every entry of the sheet, row by row and cell by cell.
    fn get_schedule(&self) -> (r: Vec<T>)
        requires
            self.schedule_ready(),
        ensures
            r@.map_values(|x: T| x@) == self.spec_schedule(),
    ;

    /// Whether the whole sheet can be read (`schedule_ready`).
    fn can_read_schedule(&self) -> (b: bool)
        ensures
            b == self.schedule_ready(),
    ;

    /// Every entry of the sheet when the sheet can be read, and `None` when
    /// a lookup would fail.
    fn try_get_schedule(&self) -> (r: Option<Vec<T>>)
        ensures
            r is Some <==> self.schedule_ready(),
            r matches Some(v) ==> v@.map_values(|x: T| x@) == self.spec_schedule(),
    ;
}

impl ScheduleParser<Class> for Excel {
    open spec fn schedule_ready(&self) -> bool {
        self.classes_ready()
    }

    open spec fn spec_schedule(&self) -> Seq<ClassView> {
        self.classes_in_rows(self.range@.cells.len() as int)
    }

    fn can_read_schedule(&self) -> bool {
        self.can_read_classes()
    }

    fn try_get_schedule(&self) -> Option<Vec<Class>> {
        if ScheduleParser::<Class>::can_read_schedule(self) {
            Some(ScheduleParser::<Class>::get_schedule(self))
        } else {
            None
        }
    }

    fn get_schedule(&self) -> Vec<Class> {
        let mut list_class: Vec<Class> = Vec::new();
        let height = self.range.height();
        let mut r: usize = 0;
        while r < height
            invariant
                r <= height == self.range@.cells.len(),
                fits(self.range@.cells),
                self.classes_ready(),
                list_class@.map_values(|x: Class| x@) == self.classes_in_rows(r as int),
            decreases height - r,
        {
            let width = self.range.row_width(r);
            let mut c: usize = 0;
            while c < width
                invariant
                    r < height == self.range@.cells.len(),
                    c <= width == self.range@.cells[r as int].len(),
                    fits(self.range@.cells),
                    self.classes_ready(),
                    list_class@.map_values(|x: Class| x@) == self.classes_in_rows(r as int) + self.classes_in_row(r as int, c as int),
                decreases width - c,
            {
                assert(self.class_cell_ready(r as int, c as int));
                let found = self.class_in_cell(r, c);
                let ghost before = list_class@;
                match found {
                    Some(cls) => {
                        list_class.push(cls);
                        assert(list_class@.map_values(|x: Class| x@) =~= before.map_values(|x: Class| x@).push(cls@));
                    },
                    None => {},
                }
                assert(self.classes_in_rows(r as int) + self.classes_in_row(r as int, c + 1) =~= self.classes_in_rows(r as int) + self.classes_in_row(r as int, c as int) + opt_seq(self.class_at(r as int, c as int)));
                c += 1;
            }
            r += 1;
        }
        list_class
    }
}

impl ScheduleParser<ClassFromSchedule> for Excel {
    open spec fn schedule_ready(&self) -> bool {
        self.entries_ready()
    }

    open spec fn spec_schedule(&self) -> Seq<ScheduleView> {
        self.entries_in_rows(self.range@.cells.len() as int)
    }

    fn can_read_schedule(&self) -> bool {
        self.can_read_entries()
    }

    fn try_get_schedule(&self) -> Option<Vec<ClassFromSchedule>> {
        if ScheduleParser::<ClassFromSchedule>::can_read_schedule(self) {
            Some(ScheduleParser::<ClassFromSchedule>::get_schedule(self))
        } else {
            None
        }
    }

    fn get_schedule(&self) -> Vec<ClassFromSchedule> {
        let mut list_class: Vec<ClassFromSchedule> = Vec::new();
        let height = self.range.height();
        let mut r: usize = 0;
        while r < height
            invariant
                r <= height == self.range@.cells.len(),
                fits(self.range@.cells),
                self.entries_ready(),
                list_class@.map_values(|x: ClassFromSchedule| x@) == self.entries_in_rows(r as int),
            decreases height - r,
        {
            let width = self.range.row_width(r);
            let mut c: usize = 0;
            while c < width
                invariant
                    r < height == self.range@.cells.len(),
                    c <= width == self.range@.cells[r as int].len(),
                    fits(self.range@.cells),
                    self.entries_ready(),
                    list_class@.map_values(|x: ClassFromSchedule| x@) == self.entries_in_rows(r as int) + self.entries_in_row(r as int, c as int),
                decreases width - c,
            {
                assert(self.entry_cell_ready(r as int, c as int));
                let found = self.entry_in_cell(r, c);
                let ghost before = list_class@;
                match found {
                    Some(e) => {
                        list_class.push(e);
                        assert(list_class@.map_values(|x: ClassFromSchedule| x@) =~= before.map_values(|x: ClassFromSchedule| x@).push(e@));
                    },
                    None => {},
                }
                assert(self.entries_in_rows(r as int) + self.entries_in_row(r as int, c + 1) =~= self.entries_in_rows(r as int) + self.entries_in_row(r as int, c as int) + opt_seq(self.entry_at(r as int, c as int)));
                c += 1;
            }
            r += 1;
        }
        list_class
    }
}

impl Excel {
    proof fn lemma_classes_row_is_walk(&self, r: int, n: int)
        ensures
            self.classes_in_row(r, n) == walk_row(|r: int, c: int| self.class_at(r, c), r, n),
        decreases n,
    {
        if n > 0 {
            self.lemma_classes_row_is_walk(r, n - 1);
        }
    }

    proof fn lemma_classes_rows_is_walk(&self, k: int)
        ensures
            self.classes_in_rows(k) == walk_rows(
                |r: int, c: int| self.class_at(r, c),
                |r: int| self.range@.cells[r].len() as int,
                k,
            ),
        decreases k,
    {
        if k > 0 {
            self.lemma_classes_rows_is_walk(k - 1);
            self.lemma_classes_row_is_walk(k - 1, self.range@.cells[k - 1].len() as int);
        }
    }

    /// What the walk over the whole sheet collects (the classes that `ScheduleParser::<Class>::get_schedule` reads): the value of
    /// every cell, in every row, where `class_at` gives one; only such values;
    /// one value for each such cell; and in the order of the cells, row by
    /// row and cell by cell.
    pub proof fn lemma_classes_walk_laws(&self)
        ensures
            ({
                let all = self.classes_in_rows(self.range@.cells.len() as int);
                &&& forall|r: int, c: int|
                    #![trigger self.class_at(r, c)]
                    0 <= r < self.range@.cells.len() && 0 <= c < self.range@.cells[r].len() && self.class_at(r, c) is Some
                        ==> all.contains(self.class_at(r, c)->Some_0)
                &&& forall|x: ClassView|
                    #[trigger] all.contains(x) ==> exists|r: int, c: int|
                        0 <= r < self.range@.cells.len() && 0 <= c < self.range@.cells[r].len() && #[trigger] self.class_at(r, c) == Some(x)
                &&& forall|r1: int, c1: int, r2: int, c2: int|
                    #![trigger self.class_at(r1, c1), self.class_at(r2, c2)]
                    0 <= r1 < self.range@.cells.len() && 0 <= c1 < self.range@.cells[r1].len() && 0 <= r2 < self.range@.cells.len()
                        && 0 <= c2 < self.range@.cells[r2].len() && (r1 < r2 || (r1 == r2 && c1 < c2)) && self.class_at(r1, c1) is Some
                        && self.class_at(r2, c2) is Some ==> comes_before(all, self.class_at(r1, c1)->Some_0, self.class_at(r2, c2)->Some_0)
                &&& all.len() == count_rows(
                    |r: int, c: int| self.class_at(r, c),
                    |r: int| self.range@.cells[r].len() as int,
                    self.range@.cells.len() as int,
                )
            }),
    {
        let k = self.range@.cells.len() as int;
        let f = |r: int, c: int| self.class_at(r, c);
        let w = |r: int| self.range@.cells[r].len() as int;
        self.lemma_classes_rows_is_walk(k);
        lemma_walk_rows_laws(f, w, k);
        let all = self.classes_in_rows(k);
        assert forall|r1: int, c1: int, r2: int, c2: int|
            #![trigger self.class_at(r1, c1), self.class_at(r2, c2)]
            0 <= r1 < k && 0 <= c1 < self.range@.cells[r1].len() && 0 <= r2 < k && 0 <= c2 < self.range@.cells[r2].len() && (r1 < r2
                || (r1 == r2 && c1 < c2)) && self.class_at(r1, c1) is Some && self.class_at(r2, c2) is Some implies comes_before(
            all,
            self.class_at(r1, c1)->Some_0,
            self.class_at(r2, c2)->Some_0,
        ) by {
            assert(f(r1, c1) is Some && f(r2, c2) is Some);
            assert(0 <= c1 < w(r1) && 0 <= c2 < w(r2));
        }
        assert forall|r: int, c: int|
            #![trigger self.class_at(r, c)]
            0 <= r < k && 0 <= c < self.range@.cells[r].len() && self.class_at(r, c) is Some implies all.contains(self.class_at(r, c)->Some_0) by {
            assert(f(r, c) is Some);
            assert(0 <= c < w(r));
        }
        assert forall|x: ClassView| #[trigger] all.contains(x) implies exists|r: int, c: int|
            0 <= r < k && 0 <= c < self.range@.cells[r].len() && #[trigger] self.class_at(r, c) == Some(x) by {
            assert(found_somewhere(f, w, k, x));
            let (r, c) = choose|r: int, c: int| 0 <= r < k && 0 <= c < w(r) && #[trigger] f(r, c) == Some(x);
            assert(self.class_at(r, c) == Some(x));
        }
    }

    proof fn lemma_entries_row_is_walk(&self, r: int, n: int)
        ensures
            self.entries_in_row(r, n) == walk_row(|r: int, c: int| self.entry_at(r, c), r, n),
        decreases n,
    {
        if n > 0 {
            self.lemma_entries_row_is_walk(r, n - 1);
        }
    }

    proof fn lemma_entries_rows_is_walk(&self, k: int)
        ensures
            self.entries_in_rows(k) == walk_rows(
                |r: int, c: int| self.entry_at(r, c),
                |r: int| self.range@.cells[r].len() as int,
                k,
            ),
        decreases k,
    {
        if k > 0 {
            self.lemma_entries_rows_is_walk(k - 1);
            self.lemma_entries_row_is_walk(k - 1, self.range@.cells[k - 1].len() as int);
        }
    }

    /// What the walk over the whole sheet collects (the entries that `ScheduleParser::<ClassFromSchedule>::get_schedule` reads): the value of
    /// every cell, in every row, where `entry_at` gives one; only such values;
    /// one value for each such cell; and in the order of the cells, row by
    /// row and cell by cell.
    pub proof fn lemma_entries_walk_laws(&self)
        ensures
            ({
                let all = self.entries_in_rows(self.range@.cells.len() as int);
                &&& forall|r: int, c: int|
                    #![trigger self.entry_at(r, c)]
                    0 <= r < self.range@.cells.len() && 0 <= c < self.range@.cells[r].len() && self.entry_at(r, c) is Some
                        ==> all.contains(self.entry_at(r, c)->Some_0)
                &&& forall|x: ScheduleView|
                    #[trigger] all.contains(x) ==> exists|r: int, c: int|
                        0 <= r < self.range@.cells.len() && 0 <= c < self.range@.cells[r].len() && #[trigger] self.entry_at(r, c) == Some(x)
                &&& forall|r1: int, c1: int, r2: int, c2: int|
                    #![trigger self.entry_at(r1, c1), self.entry_at(r2, c2)]
                    0 <= r1 < self.range@.cells.len() && 0 <= c1 < self.range@.cells[r1].len() && 0 <= r2 < self.range@.cells.len()
                        && 0 <= c2 < self.range@.cells[r2].len() && (r1 < r2 || (r1 == r2 && c1 < c2)) && self.entry_at(r1, c1) is Some
                        && self.entry_at(r2, c2) is Some ==> comes_before(all, self.entry_at(r1, c1)->Some_0, self.entry_at(r2, c2)->Some_0)
                &&& all.len() == count_rows(
                    |r: int, c: int| self.entry_at(r, c),
                    |r: int| self.range@.cells[r].len() as int,
                    self.range@.cells.len() as int,
                )
            }),
    {
        let k = self.range@.cells.len() as int;
        let f = |r: int, c: int| self.entry_at(r, c);
        let w = |r: int| self.range@.cells[r].len() as int;
        self.lemma_entries_rows_is_walk(k);
        lemma_walk_rows_laws(f, w, k);
        let all = self.entries_in_rows(k);
        assert forall|r1: int, c1: int, r2: int, c2: int|
            #![trigger self.entry_at(r1, c1), self.entry_at(r2, c2)]
            0 <= r1 < k && 0 <= c1 < self.range@.cells[r1].len() && 0 <= r2 < k && 0 <= c2 < self.range@.cells[r2].len() && (r1 < r2
                || (r1 == r2 && c1 < c2)) && self.entry_at(r1, c1) is Some && self.entry_at(r2, c2) is Some implies comes_before(
            all,
            self.entry_at(r1, c1)->Some_0,
            self.entry_at(r2, c2)->Some_0,
        ) by {
            assert(f(r1, c1) is Some && f(r2, c2) is Some);
            assert(0 <= c1 < w(r1) && 0 <= c2 < w(r2));
        }
        assert forall|r: int, c: int|
            #![trigger self.entry_at(r, c)]
            0 <= r < k && 0 <= c < self.range@.cells[r].len() && self.entry_at(r, c) is Some implies all.contains(self.entry_at(r, c)->Some_0) by {
            assert(f(r, c) is Some);
            assert(0 <= c < w(r));
        }
        assert forall|x: ScheduleView| #[trigger] all.contains(x) implies exists|r: int, c: int|
            0 <= r < k && 0 <= c < self.range@.cells[r].len() && #[trigger] self.entry_at(r, c) == Some(x) by {
            assert(found_somewhere(f, w, k, x));
            let (r, c) = choose|r: int, c: int| 0 <= r < k && 0 <= c < w(r) && #[trigger] f(r, c) == Some(x);
            assert(self.entry_at(r, c) == Some(x));
        }
    }
}

} // verus!
