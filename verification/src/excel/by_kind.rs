use vstd::prelude::*;

use super::into_map::{ids_known, lecture_unk_known};
use super::into_str::detail_pieces;
use super::parser::{opt_pair, subject_with_code_by_kind};
use super::{fits, Excel, Parser, Retrieve};
use crate::db::repository::class::{class_views, Class, ClassView};
use crate::parser::schedule_parser::{opt_seq, row_day, row_has_day};
use crate::text::{lowercase, lowercase_known, split_char, to_lowercase, trim, trim_str, views};
use crate::{day_of, DAY_OFFSET};

use crate::excel::walk::{comes_before, count_rows, found_somewhere, lemma_walk_rows_laws, walk_row, walk_rows};
verus! {

broadcast use vstd::string::group_string_axioms;

impl Excel {
    /// The subject identifier (by lowercase name) and class code of a class
    /// text read by the kind of class it names, when the subject is known.
    pub open spec fn spec_subject_id_by_kind(&self, val: Seq<char>) -> Option<(Seq<char>, Seq<char>)> {
        let subjects = self.lecturer_subjects_session_map.subjects@;
        match subject_with_code_by_kind(val) {
            Some((name, code)) => if subjects.contains_key(lowercase(name)) {
                Some((subjects[lowercase(name)]@, code))
            } else {
                None
            },
            None => None,
        }
    }

    /// The subject identifier and class code of a class text, read by the
    /// kind of class it names (`parse_subject_with_code_2`).
    pub fn subject_id_by_kind(&self, val: &str) -> (r: Option<(String, String)>)
        ensures
            opt_pair(r) == self.spec_subject_id_by_kind(val@),
            subject_with_code_by_kind(val@) matches Some((name, _)) ==> lowercase_known(name),
    {
        let (subject_name, code) = match Excel::parse_subject_with_code_2(val) {
            Some(p) => p,
            None => return None,
        };
        let key = to_lowercase(subject_name.as_str());
        match self.lecturer_subjects_session_map.subjects.get(key.as_str()) {
            Some(id) => Some((id.clone(), code)),
            None => None,
        }
    }

    /// The class in the cell at (`r`, `c`), its subject read by kind, with
    /// the identifiers of the sheet's own maps.
    pub open spec fn kind_class_at(&self, r: int, c: int) -> Option<ClassView> {
        let m = self.lecturer_subjects_session_map;
        match self.range@.cells[r][c] {
            Some(val) => match self.spec_subject_id_by_kind(val) {
                Some((matkul_id, code)) => match self.spec_lecturer_to_map(r, c, m.lecturers@) {
                    Some(lecturers_id) => match self.spec_session_to_map(r, m.sessions@) {
                        Some(session_id) => Some(ClassView { matkul_id, lecturers_id, day: row_day(r), code, session_id }),
                        None => None,
                    },
                    None => None,
                },
                None => None,
            },
            None => None,
        }
    }

    /// The cell at (`r`, `c`) can be read by `get_schedule_by_kind` without a
    /// failing step.
    pub open spec fn kind_cell_ready(&self, r: int, c: int) -> bool {
        match self.range@.cells[r][c] {
            Some(val) => match self.spec_subject_id_by_kind(val) {
                Some(_) => self.lecturer_map_ready(r, c, self.lecturer_subjects_session_map.lecturers@) && (
                self.spec_class_detail(r, c) is Some ==> row_has_day(r)),
                None => true,
            },
            None => true,
        }
    }

    pub open spec fn kind_in_row(&self, r: int, n: int) -> Seq<ClassView>
        decreases n,
    {
        if n <= 0 {
            Seq::empty()
        } else {
            self.kind_in_row(r, n - 1) + opt_seq(self.kind_class_at(r, n - 1))
        }
    }

    pub open spec fn kind_in_rows(&self, k: int) -> Seq<ClassView>
        decreases k,
    {
        if k <= 0 {
            Seq::empty()
        } else {
            self.kind_in_rows(k - 1) + self.kind_in_row(k - 1, self.range@.cells[k - 1].len() as int)
        }
    }

    pub open spec fn kind_ready(&self) -> bool {
        forall|r: int, c: int|
            0 <= r < self.range@.cells.len() && 0 <= c < self.range@.cells[r].len() ==> #[trigger] self.kind_cell_ready(r, c)
    }

    fn kind_in_cell(&self, r: usize, c: usize) -> (res: Option<Class>)
        requires
            r < self.range@.cells.len(),
            c < self.range@.cells[r as int].len(),
            fits(self.range@.cells),
            self.kind_cell_ready(r as int, c as int),
        ensures
            match res {
                Some(cls) => self.kind_class_at(r as int, c as int) == Some(cls@),
                None => self.kind_class_at(r as int, c as int) is None,
            },
    {
        let val = match self.range.cell(r, c) {
            Some(v) => v,
            None => return None,
        };
        let (subject_id, class_code) = match self.subject_id_by_kind(val.as_str()) {
            Some(p) => p,
            None => return None,
        };
        let lecturers_id = match self.lecturer_to_map(r as u32, c as u32, &self.lecturer_subjects_session_map.lecturers) {
            Some(l) => l,
            None => return None,
        };
        let day = day_of(r / DAY_OFFSET);
        let session_id = match self.session_to_map(r as u32, &self.lecturer_subjects_session_map.sessions) {
            Some(s) => s,
            None => return None,
        };
        Some(Class { matkul_id: subject_id, lecturers_id, day, code: class_code, session_id })
    }

    /// Every class of the sheet, subjects read by the kind of class they
    /// name, row by row and cell by cell.
    pub fn get_schedule_by_kind(&self) -> (list_class: Vec<Class>)
        requires
            self.kind_ready(),
        ensures
            class_views(list_class@) == self.kind_in_rows(self.range@.cells.len() as int),
    {
        let mut list_class: Vec<Class> = Vec::new();
        let height = self.range.height();
        let mut r: usize = 0;
        while r < height
            invariant
                r <= height == self.range@.cells.len(),
                fits(self.range@.cells),
                self.kind_ready(),
                class_views(list_class@) == self.kind_in_rows(r as int),
            decreases height - r,
        {
            let width = self.range.row_width(r);
            let mut c: usize = 0;
            while c < width
                invariant
                    r < height == self.range@.cells.len(),
                    c <= width == self.range@.cells[r as int].len(),
                    fits(self.range@.cells),
                    self.kind_ready(),
                    class_views(list_class@) == self.kind_in_rows(r as int) + self.kind_in_row(r as int, c as int),
                decreases width - c,
            {
                assert(self.kind_cell_ready(r as int, c as int));
                let found = self.kind_in_cell(r, c);
                let ghost before = list_class@;
                match found {
                    Some(cls) => {
                        list_class.push(cls);
                        assert(class_views(list_class@) =~= class_views(before).push(cls@));
                    },
                    None => {},
                }
                assert(self.kind_in_row(r as int, c + 1) =~= self.kind_in_row(r as int, c as int) + opt_seq(
                    self.kind_class_at(r as int, c as int),
                ));
                c += 1;
            }
            r += 1;
        }
        list_class
    }

    /// Whether `self.kind_cell_ready(r, c)`.
    #[verifier::loop_isolation(false)]
    fn kind_cell_ready_exec(&self, r: usize, c: usize) -> (b: bool)
        requires
            r < self.range@.cells.len(),
            c < self.range@.cells[r as int].len(),
            fits(self.range@.cells),
        ensures
            b == self.kind_cell_ready(r as int, c as int),
    {
        let val = match self.range.cell(r, c) {
            Some(v) => v,
            None => return true,
        };
        if self.subject_id_by_kind(val.as_str()).is_none() {
            return true;
        }
        let detail = match self.retrieve_class_detail(r as u32, c as u32) {
            Some(d) => d,
            None => return true,
        };
        let parts = split_char(detail.as_str(), '/');
        proof {
            assert(views(parts@).len() == parts@.len());
        }
        if parts.len() <= 2 {
            return false;
        }
        let pieces = split_char(parts[2].as_str(), '-');
        let ghost ps = views(pieces@);
        let lecturers = &self.lecturer_subjects_session_map.lecturers;
        proof {
            assert(views(parts@)[2] == parts@[2]@);
            assert(ps == detail_pieces(detail@));
        }
        if !lecture_unk_known(lecturers) {
            let mut i: usize = 0;
            while i < pieces.len()
                invariant
                    i <= pieces@.len(),
                    ps == views(pieces@),
                    forall|k: int| 0 <= k < i ==> #[trigger] lecturers@.contains_key(trim(ps[k])),
                decreases pieces.len() - i,
            {
                let code = trim_str(pieces[i].as_str());
                assert(ps[i as int] == pieces@[i as int]@);
                if !lecturers.contains_key(code.as_str()) {
                    assert(!(lecturers@.contains_key(trim(ps[i as int])) || lecturers@.contains_key("UNK"@)));
                    return false;
                }
                i += 1;
            }
            assert(ids_known(lecturers@, ps));
        }
        r / DAY_OFFSET < 5
    }

    /// Whether every cell can be read by `get_schedule_by_kind` without a
    /// failing step (`kind_ready`).
    pub fn can_read_by_kind(&self) -> (b: bool)
        ensures
            b == self.kind_ready(),
    {
        let height = self.range.height();
        let mut r: usize = 0;
        while r < height
            invariant
                r <= height == self.range@.cells.len(),
                fits(self.range@.cells),
                forall|i: int, j: int| 0 <= i < r && 0 <= j < self.range@.cells[i].len() ==> #[trigger] self.kind_cell_ready(i, j),
            decreases height - r,
        {
            let width = self.range.row_width(r);
            let mut c: usize = 0;
            while c < width
                invariant
                    r < height == self.range@.cells.len(),
                    c <= width == self.range@.cells[r as int].len(),
                    fits(self.range@.cells),
                    forall|i: int, j: int| 0 <= i < r && 0 <= j < self.range@.cells[i].len() ==> #[trigger] self.kind_cell_ready(i, j),
                    forall|j: int| 0 <= j < c ==> #[trigger] self.kind_cell_ready(r as int, j),
                decreases width - c,
            {
                if !self.kind_cell_ready_exec(r, c) {
                    return false;
                }
                c += 1;
            }
            r += 1;
        }
        true
    }

    /// Every class of the sheet, subjects read by kind, when the sheet can
    /// be read (`kind_ready`), and `None` when a lookup would fail.
    pub fn try_get_schedule_by_kind(&self) -> (r: Option<Vec<Class>>)
        ensures
            r is Some <==> self.kind_ready(),
            r matches Some(v) ==> class_views(v@) == self.kind_in_rows(self.range@.cells.len() as int),
    {
        if self.can_read_by_kind() {
            Some(self.get_schedule_by_kind())
        } else {
            None
        }
    }
}

impl Excel {
    proof fn lemma_kind_row_is_walk(&self, r: int, n: int)
        ensures
            self.kind_in_row(r, n) == walk_row(|r: int, c: int| self.kind_class_at(r, c), r, n),
        decreases n,
    {
        if n > 0 {
            self.lemma_kind_row_is_walk(r, n - 1);
        }
    }

    proof fn lemma_kind_rows_is_walk(&self, k: int)
        ensures
            self.kind_in_rows(k) == walk_rows(
                |r: int, c: int| self.kind_class_at(r, c),
                |r: int| self.range@.cells[r].len() as int,
                k,
            ),
        decreases k,
    {
        if k > 0 {
            self.lemma_kind_rows_is_walk(k - 1);
            self.lemma_kind_row_is_walk(k - 1, self.range@.cells[k - 1].len() as int);
        }
    }

    /// What the walk over the whole sheet collects (the classes that `get_schedule_by_kind` reads): the value of
    /// every cell, in every row, where `kind_class_at` gives one; only such values;
    /// one value for each such cell; and in the order of the cells, row by
    /// row and cell by cell.
    pub proof fn lemma_kind_walk_laws(&self)
        ensures
            ({
                let all = self.kind_in_rows(self.range@.cells.len() as int);
                &&& forall|r: int, c: int|
                    #![trigger self.kind_class_at(r, c)]
                    0 <= r < self.range@.cells.len() && 0 <= c < self.range@.cells[r].len() && self.kind_class_at(r, c) is Some
                        ==> all.contains(self.kind_class_at(r, c)->Some_0)
                &&& forall|x: ClassView|
                    #[trigger] all.contains(x) ==> exists|r: int, c: int|
                        0 <= r < self.range@.cells.len() && 0 <= c < self.range@.cells[r].len() && #[trigger] self.kind_class_at(r, c) == Some(x)
                &&& forall|r1: int, c1: int, r2: int, c2: int|
                    #![trigger self.kind_class_at(r1, c1), self.kind_class_at(r2, c2)]
                    0 <= r1 < self.range@.cells.len() && 0 <= c1 < self.range@.cells[r1].len() && 0 <= r2 < self.range@.cells.len()
                        && 0 <= c2 < self.range@.cells[r2].len() && (r1 < r2 || (r1 == r2 && c1 < c2)) && self.kind_class_at(r1, c1) is Some
                        && self.kind_class_at(r2, c2) is Some ==> comes_before(all, self.kind_class_at(r1, c1)->Some_0, self.kind_class_at(r2, c2)->Some_0)
                &&& all.len() == count_rows(
                    |r: int, c: int| self.kind_class_at(r, c),
                    |r: int| self.range@.cells[r].len() as int,
                    self.range@.cells.len() as int,
                )
            }),
    {
        let k = self.range@.cells.len() as int;
        let f = |r: int, c: int| self.kind_class_at(r, c);
        let w = |r: int| self.range@.cells[r].len() as int;
        self.lemma_kind_rows_is_walk(k);
        lemma_walk_rows_laws(f, w, k);
        let all = self.kind_in_rows(k);
        assert forall|r1: int, c1: int, r2: int, c2: int|
            #![trigger self.kind_class_at(r1, c1), self.kind_class_at(r2, c2)]
            0 <= r1 < k && 0 <= c1 < self.range@.cells[r1].len() && 0 <= r2 < k && 0 <= c2 < self.range@.cells[r2].len() && (r1 < r2
                || (r1 == r2 && c1 < c2)) && self.kind_class_at(r1, c1) is Some && self.kind_class_at(r2, c2) is Some implies comes_before(
            all,
            self.kind_class_at(r1, c1)->Some_0,
            self.kind_class_at(r2, c2)->Some_0,
        ) by {
            assert(f(r1, c1) is Some && f(r2, c2) is Some);
            assert(0 <= c1 < w(r1) && 0 <= c2 < w(r2));
        }
        assert forall|r: int, c: int|
            #![trigger self.kind_class_at(r, c)]
            0 <= r < k && 0 <= c < self.range@.cells[r].len() && self.kind_class_at(r, c) is Some implies all.contains(self.kind_class_at(r, c)->Some_0) by {
            assert(f(r, c) is Some);
            assert(0 <= c < w(r));
        }
        assert forall|x: ClassView| #[trigger] all.contains(x) implies exists|r: int, c: int|
            0 <= r < k && 0 <= c < self.range@.cells[r].len() && #[trigger] self.kind_class_at(r, c) == Some(x) by {
            assert(found_somewhere(f, w, k, x));
            let (r, c) = choose|r: int, c: int| 0 <= r < k && 0 <= c < w(r) && #[trigger] f(r, c) == Some(x);
            assert(self.kind_class_at(r, c) == Some(x));
        }
    }
}

} // verus!
