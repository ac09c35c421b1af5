use vstd::prelude::*;

use super::into_str::{detail_ok, detail_pieces};
use super::parser::{opt_pair, opt_strings, session_start};
use super::subject_class::{subject_class, subject_class_fails, subject_class_fails_exec, subject_class_parts};
use super::{fits, Excel, Retrieve};
use crate::db::repository::class::{class_views, Class, ClassView};
use crate::parser::schedule_parser::{opt_seq, row_day, row_has_day};
use crate::text::{first_piece_of, lowercase, lowercase_known, split_char, to_lowercase, trim, trim_str, views};
use crate::{day_of, DAY_OFFSET};
use crate::StringHashMap;

use crate::excel::walk::{comes_before, count_rows, found_somewhere, lemma_walk_rows_laws, walk_row, walk_rows};
verus! {

broadcast use vstd::string::group_string_axioms;

/// The subject identifier (looked up by the lowercase subject name) and the
/// class code of a class text, when the subject is a key of `subjects`.
pub open spec fn subject_class_id(val: Seq<char>, subjects: Map<Seq<char>, String>) -> Option<(Seq<char>, Seq<char>)> {
    match subject_class(val) {
        Some((name, code)) => if subjects.contains_key(lowercase(name)) {
            Some((subjects[lowercase(name)]@, code))
        } else {
            None
        },
        None => None,
    }
}

/// Every piece, trimmed, is a key of `known`, or `"UNK"` is.
pub open spec fn ids_known(known: Map<Seq<char>, String>, pieces: Seq<Seq<char>>) -> bool {
    forall|i: int| 0 <= i < pieces.len() ==> #[trigger] known.contains_key(trim(pieces[i])) || known.contains_key("UNK"@)
}

/// The identifier of each piece, trimmed, and that of `"UNK"` for a piece
/// that is not a key of `known`.
pub open spec fn ids_or_unk(known: Map<Seq<char>, String>, pieces: Seq<Seq<char>>) -> Seq<Seq<char>> {
    Seq::new(
        pieces.len(),
        |i: int| if known.contains_key(trim(pieces[i])) { known[trim(pieces[i])]@ } else { known["UNK"@]@ },
    )
}

impl Excel {
    /// The lecturer identifiers below (`row`, `col`) can be looked up: the
    /// detail has a third part and every code in it is known, or `"UNK"` is.
    pub open spec fn lecturer_map_ready(&self, row: int, col: int, known: Map<Seq<char>, String>) -> bool {
        match self.spec_class_detail(row, col) {
            Some(d) => detail_ok(d) && ids_known(known, detail_pieces(d)),
            None => true,
        }
    }

    /// The lecturer identifiers of the class detail below (`row`, `col`).
    pub open spec fn spec_lecturer_to_map(&self, row: int, col: int, known: Map<Seq<char>, String>) -> Option<Seq<Seq<char>>> {
        match self.spec_class_detail(row, col) {
            Some(d) => Some(ids_or_unk(known, detail_pieces(d))),
            None => None,
        }
    }

    /// The session identifier of row `row_idx`, looked up by the start of its
    /// session text.
    pub open spec fn spec_session_to_map(&self, row_idx: int, known: Map<Seq<char>, i8>) -> Option<i8> {
        match self.spec_session_text(row_idx) {
            Some(t) => if known.contains_key(session_start(t)) {
                Some(known[session_start(t)])
            } else {
                None
            },
            None => None,
        }
    }

    /// The subject identifier and class code of a class text, when the
    /// subject is known.
    pub fn subject_class_to_map(val: &str, subject_map: &StringHashMap<String>) -> (r: Option<(String, String)>)
        requires
            !subject_class_fails(val@),
        ensures
            opt_pair(r) == subject_class_id(val@, subject_map@),
            subject_class(val@) matches Some((name, _)) ==> lowercase_known(name),
    {
        let (subject_name, code) = match subject_class_parts(val) {
            Some(p) => p,
            None => return None,
        };
        let key = to_lowercase(subject_name.as_str());
        match subject_map.get(key.as_str()) {
            Some(id) => Some((id.clone(), code)),
            None => None,
        }
    }

    /// The session identifier of row `row_idx`.
    pub fn session_to_map(&self, row_idx: u32, session_map: &StringHashMap<i8>) -> (r: Option<i8>)
        ensures
            r == self.spec_session_to_map(row_idx as int, session_map@),
    {
        let text = match self.retrieve_session(row_idx) {
            Some(t) => t,
            None => return None,
        };
        let session_name = first_piece_of(text.as_str(), " - ");
        match session_map.get(session_name.as_str()) {
            Some(id) => Some(*id),
            None => None,
        }
    }

    /// The lecturer identifiers of the class detail below (`row`, `col`), with
    /// the identifier of `"UNK"` for an unknown code.
    pub fn lecturer_to_map(&self, row: u32, col: u32, lecturer_map: &StringHashMap<String>) -> (r: Option<Vec<String>>)
        requires
            row < u32::MAX,
            self.lecturer_map_ready(row as int, col as int, lecturer_map@),
        ensures
            opt_strings(r) == self.spec_lecturer_to_map(row as int, col as int, lecturer_map@),
    {
        let pieces = match self.detail_pieces_at(row, col) {
            Some(p) => p,
            None => return None,
        };
        let ghost ps = views(pieces@);
        let mut ids: Vec<String> = Vec::new();
        let mut i: usize = 0;
        while i < pieces.len()
            invariant
                i <= pieces@.len(),
                ps == views(pieces@),
                ids_known(lecturer_map@, ps),
                views(ids@) == ids_or_unk(lecturer_map@, ps).take(i as int),
            decreases pieces.len() - i,
        {
            let code = trim_str(pieces[i].as_str());
            assert(ps[i as int] == pieces@[i as int]@);
            let id = match lecturer_map.get(code.as_str()) {
                Some(id) => id.clone(),
                None => {
                    assert(lecturer_map@.contains_key(trim(ps[i as int])) || lecturer_map@.contains_key("UNK"@));
                    match lecturer_map.get("UNK") {
                        Some(unk) => unk.clone(),
                        None => {
                            assert(false);
                            String::new()
                        },
                    }
                },
            };
            let ghost before = ids@;
            assert(views(before).len() == i);
            ids.push(id);
            assert forall|k: int| 0 <= k < i + 1 implies #[trigger] views(ids@)[k] == ids_or_unk(lecturer_map@, ps)[k] by {
                if k < i {
                    assert(views(before)[k] == before[k]@);
                }
            }
            assert(views(ids@) =~= ids_or_unk(lecturer_map@, ps).take(i + 1));
            i += 1;
        }
        assert(ids_or_unk(lecturer_map@, ps).take(ps.len() as int) =~= ids_or_unk(lecturer_map@, ps));
        proof {
            let d = self.spec_class_detail(row as int, col as int)->Some_0;
            crate::text::lemma_split_on_nonempty(crate::text::split_on(d, '/')[2], '-');
        }
        if ids.len() == 0 {
            None
        } else {
            Some(ids)
        }
    }
    /// The class in the cell at (`r`, `c`), with identifiers from the given
    /// maps.
    pub open spec fn mapped_class_at(
        &self,
        r: int,
        c: int,
        subjects: Map<Seq<char>, String>,
        lecturers: Map<Seq<char>, String>,
        sessions: Map<Seq<char>, i8>,
    ) -> Option<ClassView> {
        match self.range@.cells[r][c] {
            Some(val) => match subject_class_id(val, subjects) {
                Some((matkul_id, code)) => match self.spec_lecturer_to_map(r, c, lecturers) {
                    Some(lecturers_id) => match self.spec_session_to_map(r, sessions) {
                        Some(session_id) => Some(ClassView { matkul_id, lecturers_id, day: row_day(r), code, session_id }),
                        None => None,
                    },
                    None => None,
                },
                None => None,
            },
            None => None,
        }
    }

    /// The cell at (`r`, `c`) can be read as a class with the given maps
    /// without a failing step.
    pub open spec fn mapped_cell_ready(
        &self,
        r: int,
        c: int,
        subjects: Map<Seq<char>, String>,
        lecturers: Map<Seq<char>, String>,
    ) -> bool {
        match self.range@.cells[r][c] {
            Some(val) => !subject_class_fails(val) && match subject_class_id(val, subjects) {
                Some(_) => self.lecturer_map_ready(r, c, lecturers) && (self.spec_class_detail(r, c) is Some ==> row_has_day(r)),
                None => true,
            },
            None => true,
        }
    }

    pub open spec fn mapped_in_row(
        &self,
        r: int,
        n: int,
        subjects: Map<Seq<char>, String>,
        lecturers: Map<Seq<char>, String>,
        sessions: Map<Seq<char>, i8>,
    ) -> Seq<ClassView>
        decreases n,
    {
        if n <= 0 {
            Seq::empty()
        } else {
            self.mapped_in_row(r, n - 1, subjects, lecturers, sessions) + opt_seq(
                self.mapped_class_at(r, n - 1, subjects, lecturers, sessions),
            )
        }
    }

    pub open spec fn mapped_in_rows(
        &self,
        k: int,
        subjects: Map<Seq<char>, String>,
        lecturers: Map<Seq<char>, String>,
        sessions: Map<Seq<char>, i8>,
    ) -> Seq<ClassView>
        decreases k,
    {
        if k <= 0 {
            Seq::empty()
        } else {
            self.mapped_in_rows(k - 1, subjects, lecturers, sessions) + self.mapped_in_row(
                k - 1,
                self.range@.cells[k - 1].len() as int,
                subjects,
                lecturers,
                sessions,
            )
        }
    }

    pub open spec fn mapped_ready(&self, subjects: Map<Seq<char>, String>, lecturers: Map<Seq<char>, String>) -> bool {
        forall|r: int, c: int|
            0 <= r < self.range@.cells.len() && 0 <= c < self.range@.cells[r].len() ==> #[trigger] self.mapped_cell_ready(
                r,
                c,
                subjects,
                lecturers,
            )
    }

    fn mapped_in_cell(
        &self,
        r: usize,
        c: usize,
        list_subject: &StringHashMap<String>,
        list_lecture: &StringHashMap<String>,
        list_session: &StringHashMap<i8>,
    ) -> (res: Option<Class>)
        requires
            r < self.range@.cells.len(),
            c < self.range@.cells[r as int].len(),
            fits(self.range@.cells),
            self.mapped_cell_ready(r as int, c as int, list_subject@, list_lecture@),
        ensures
            match res {
                Some(cls) => self.mapped_class_at(r as int, c as int, list_subject@, list_lecture@, list_session@) == Some(cls@),
                None => self.mapped_class_at(r as int, c as int, list_subject@, list_lecture@, list_session@) is None,
            },
    {
        let val = match self.range.cell(r, c) {
            Some(v) => v,
            None => return None,
        };
        let (subject_id, class_code) = match Excel::subject_class_to_map(val.as_str(), list_subject) {
            Some(p) => p,
            None => return None,
        };
        let lecturers_id = match self.lecturer_to_map(r as u32, c as u32, list_lecture) {
            Some(l) => l,
            None => return None,
        };
        let day = day_of(r / DAY_OFFSET);
        let session_id = match self.session_to_map(r as u32, list_session) {
            Some(s) => s,
            None => return None,
        };
        Some(Class { matkul_id: subject_id, lecturers_id, day, code: class_code, session_id })
    }

    /// Every class of the sheet with identifiers from the given maps, row by
    /// row and cell by cell.
    pub fn parse_excel_to_map(
        &self,
        list_subject: &StringHashMap<String>,
        list_lecture: &StringHashMap<String>,
        list_session: &StringHashMap<i8>,
    ) -> (list_class: Vec<Class>)
        requires
            self.mapped_ready(list_subject@, list_lecture@),
        ensures
            class_views(list_class@) == self.mapped_in_rows(
                self.range@.cells.len() as int,
                list_subject@,
                list_lecture@,
                list_session@,
            ),
    {
        let mut list_class: Vec<Class> = Vec::new();
        let height = self.range.height();
        let mut r: usize = 0;
        while r < height
            invariant
                r <= height == self.range@.cells.len(),
                fits(self.range@.cells),
                self.mapped_ready(list_subject@, list_lecture@),
                class_views(list_class@) == self.mapped_in_rows(r as int, list_subject@, list_lecture@, list_session@),
            decreases height - r,
        {
            let width = self.range.row_width(r);
            let mut c: usize = 0;
            while c < width
                invariant
                    r < height == self.range@.cells.len(),
                    c <= width == self.range@.cells[r as int].len(),
                    fits(self.range@.cells),
                    self.mapped_ready(list_subject@, list_lecture@),
                    class_views(list_class@) == self.mapped_in_rows(r as int, list_subject@, list_lecture@, list_session@)
                        + self.mapped_in_row(r as int, c as int, list_subject@, list_lecture@, list_session@),
                decreases width - c,
            {
                assert(self.mapped_cell_ready(r as int, c as int, list_subject@, list_lecture@));
                let found = self.mapped_in_cell(r, c, list_subject, list_lecture, list_session);
                let ghost before = list_class@;
                match found {
                    Some(cls) => {
                        list_class.push(cls);
                        assert(class_views(list_class@) =~= class_views(before).push(cls@));
                    },
                    None => {},
                }
                assert(self.mapped_in_row(r as int, c + 1, list_subject@, list_lecture@, list_session@) =~= self.mapped_in_row(r as int, c as int, list_subject@, list_lecture@, list_session@) + opt_seq(self.mapped_class_at(r as int, c as int, list_subject@, list_lecture@, list_session@)));
                c += 1;
            }
            r += 1;
        }
        list_class
    }

    /// Every class of the sheet with identifiers from the given maps when it
    /// can be read (`mapped_ready`), and `None` when a step would fail.
    pub fn try_parse_excel_to_map(
        &self,
        list_subject: &StringHashMap<String>,
        list_lecture: &StringHashMap<String>,
        list_session: &StringHashMap<i8>,
    ) -> (r: Option<Vec<Class>>)
        ensures
            r is Some <==> self.mapped_ready(list_subject@, list_lecture@),
            r matches Some(v) ==> class_views(v@) == self.mapped_in_rows(
                self.range@.cells.len() as int,
                list_subject@,
                list_lecture@,
                list_session@,
            ),
    {
        if self.can_parse_to_map(list_subject, list_lecture) {
            Some(self.parse_excel_to_map(list_subject, list_lecture, list_session))
        } else {
            None
        }
    }

    /// Whether `self.mapped_cell_ready(r, c, list_subject@, list_lecture@)`.
    #[verifier::loop_isolation(false)]
    fn mapped_cell_ready_exec(
        &self,
        r: usize,
        c: usize,
        list_subject: &StringHashMap<String>,
        list_lecture: &StringHashMap<String>,
    ) -> (b: bool)
        requires
            r < self.range@.cells.len(),
            c < self.range@.cells[r as int].len(),
            fits(self.range@.cells),
        ensures
            b == self.mapped_cell_ready(r as int, c as int, list_subject@, list_lecture@),
    {
        let val = match self.range.cell(r, c) {
            Some(v) => v,
            None => return true,
        };
        if subject_class_fails_exec(val.as_str()) {
            return false;
        }
        if Excel::subject_class_to_map(val.as_str(), list_subject).is_none() {
            return true;
        }
        let detail = match self.retrieve_class_detail(r as u32, c as u32) {
            Some(d) => d,
            None => return true,
        };
        let parts = split_char(detail.as_str(), '/');
        proof {
            assert(views(parts@).len() == parts@.len());
        }
        if parts.len() <= 2 {
            return false;
        }
        let pieces = split_char(parts[2].as_str(), '-');
        let ghost ps = views(pieces@);
        proof {
            assert(views(parts@)[2] == parts@[2]@);
            assert(ps == detail_pieces(detail@));
        }
        if !lecture_unk_known(list_lecture) {
            let mut i: usize = 0;
            while i < pieces.len()
                invariant
                    i <= pieces@.len(),
                    ps == views(pieces@),
                    !list_lecture@.contains_key("UNK"@),
                    self.spec_class_detail(r as int, c as int) == Some(detail@),
                    ps == detail_pieces(detail@),
                    forall|k: int| 0 <= k < i ==> #[trigger] list_lecture@.contains_key(trim(ps[k])),
                decreases pieces.len() - i,
            {
                let code = trim_str(pieces[i].as_str());
                assert(ps[i as int] == pieces@[i as int]@);
                if !list_lecture.contains_key(code.as_str()) {
                    assert(!(list_lecture@.contains_key(trim(ps[i as int])) || list_lecture@.contains_key("UNK"@)));
                    return false;
                }
                i += 1;
            }
        }
        r / DAY_OFFSET < 5
    }

    /// Whether every cell can be read as a class with the given maps without
    /// a failing step (`mapped_ready`).
    pub fn can_parse_to_map(&self, list_subject: &StringHashMap<String>, list_lecture: &StringHashMap<String>) -> (b: bool)
        ensures
            b == self.mapped_ready(list_subject@, list_lecture@),
    {
        let height = self.range.height();
        let mut r: usize = 0;
        while r < height
            invariant
                r <= height == self.range@.cells.len(),
                fits(self.range@.cells),
                forall|i: int, j: int| 0 <= i < r && 0 <= j < self.range@.cells[i].len() ==> #[trigger] self.mapped_cell_ready(i, j, list_subject@, list_lecture@),
            decreases height - r,
        {
            let width = self.range.row_width(r);
            let mut c: usize = 0;
            while c < width
                invariant
                    r < height == self.range@.cells.len(),
                    c <= width == self.range@.cells[r as int].len(),
                    fits(self.range@.cells),
                    forall|i: int, j: int| 0 <= i < r && 0 <= j < self.range@.cells[i].len() ==> #[trigger] self.mapped_cell_ready(i, j, list_subject@, list_lecture@),
                    forall|j: int| 0 <= j < c ==> #[trigger] self.mapped_cell_ready(r as int, j, list_subject@, list_lecture@),
                decreases width - c,
            {
                if !self.mapped_cell_ready_exec(r, c, list_subject, list_lecture) {
                    return false;
                }
                c += 1;
            }
            r += 1;
        }
        true
    }
}

/// Whether `"UNK"` is a key of the lecturer map.
pub(crate) fn lecture_unk_known(list_lecture: &StringHashMap<String>) -> (b: bool)
    ensures
        b == list_lecture@.contains_key("UNK"@),
{
    list_lecture.contains_key("UNK")
}

impl Excel {
    proof fn lemma_mapped_row_is_walk(&self, r: int, n: int, subjects: Map<Seq<char>, String>, lecturers: Map<Seq<char>, String>, sessions: Map<Seq<char>, i8>)
        ensures
            self.mapped_in_row(r, n, subjects, lecturers, sessions) == walk_row(|r: int, c: int| self.mapped_class_at(r, c, subjects, lecturers, sessions), r, n),
        decreases n,
    {
        if n > 0 {
            self.lemma_mapped_row_is_walk(r, n - 1, subjects, lecturers, sessions);
        }
    }

    proof fn lemma_mapped_rows_is_walk(&self, k: int, subjects: Map<Seq<char>, String>, lecturers: Map<Seq<char>, String>, sessions: Map<Seq<char>, i8>)
        ensures
            self.mapped_in_rows(k, subjects, lecturers, sessions) == walk_rows(
                |r: int, c: int| self.mapped_class_at(r, c, subjects, lecturers, sessions),
                |r: int| self.range@.cells[r].len() as int,
                k,
            ),
        decreases k,
    {
        if k > 0 {
            self.lemma_mapped_rows_is_walk(k - 1, subjects, lecturers, sessions);
            self.lemma_mapped_row_is_walk(k - 1, self.range@.cells[k - 1].len() as int, subjects, lecturers, sessions);
        }
    }

    /// What the walk over the whole sheet collects (the classes that `parse_excel_to_map` reads): the value of
    /// every cell, in every row, where `mapped_class_at` gives one; only such values;
    /// one value for each such cell; and in the order of the cells, row by
    /// row and cell by cell.
    pub proof fn lemma_mapped_walk_laws(&self, subjects: Map<Seq<char>, String>, lecturers: Map<Seq<char>, String>, sessions: Map<Seq<char>, i8>)
        ensures
            ({
                let all = self.mapped_in_rows(self.range@.cells.len() as int, subjects, lecturers, sessions);
                &&& forall|r: int, c: int|
                    #![trigger self.mapped_class_at(r, c, subjects, lecturers, sessions)]
                    0 <= r < self.range@.cells.len() && 0 <= c < self.range@.cells[r].len() && self.mapped_class_at(r, c, subjects, lecturers, sessions) is Some
                        ==> all.contains(self.mapped_class_at(r, c, subjects, lecturers, sessions)->Some_0)
                &&& forall|x: ClassView|
                    #[trigger] all.contains(x) ==> exists|r: int, c: int|
                        0 <= r < self.range@.cells.len() && 0 <= c < self.range@.cells[r].len() && #[trigger] self.mapped_class_at(r, c, subjects, lecturers, sessions) == Some(x)
                &&& forall|r1: int, c1: int, r2: int, c2: int|
                    #![trigger self.mapped_class_at(r1, c1, subjects, lecturers, sessions), self.mapped_class_at(r2, c2, subjects, lecturers, sessions)]
                    0 <= r1 < self.range@.cells.len() && 0 <= c1 < self.range@.cells[r1].len() && 0 <= r2 < self.range@.cells.len()
                        && 0 <= c2 < self.range@.cells[r2].len() && (r1 < r2 || (r1 == r2 && c1 < c2)) && self.mapped_class_at(r1, c1, subjects, lecturers, sessions) is Some
                        && self.mapped_class_at(r2, c2, subjects, lecturers, sessions) is Some ==> comes_before(all, self.mapped_class_at(r1, c1, subjects, lecturers, sessions)->Some_0, self.mapped_class_at(r2, c2, subjects, lecturers, sessions)->Some_0)
                &&& all.len() == count_rows(
                    |r: int, c: int| self.mapped_class_at(r, c, subjects, lecturers, sessions),
                    |r: int| self.range@.cells[r].len() as int,
                    self.range@.cells.len() as int,
                )
            }),
    {
        let k = self.range@.cells.len() as int;
        let f = |r: int, c: int| self.mapped_class_at(r, c, subjects, lecturers, sessions);
        let w = |r: int| self.range@.cells[r].len() as int;
        self.lemma_mapped_rows_is_walk(k, subjects, lecturers, sessions);
        lemma_walk_rows_laws(f, w, k);
        let all = self.mapped_in_rows(k, subjects, lecturers, sessions);
        assert forall|r1: int, c1: int, r2: int, c2: int|
            #![trigger self.mapped_class_at(r1, c1, subjects, lecturers, sessions), self.mapped_class_at(r2, c2, subjects, lecturers, sessions)]
            0 <= r1 < k && 0 <= c1 < self.range@.cells[r1].len() && 0 <= r2 < k && 0 <= c2 < self.range@.cells[r2].len() && (r1 < r2
                || (r1 == r2 && c1 < c2)) && self.mapped_class_at(r1, c1, subjects, lecturers, sessions) is Some && self.mapped_class_at(r2, c2, subjects, lecturers, sessions) is Some implies comes_before(
            all,
            self.mapped_class_at(r1, c1, subjects, lecturers, sessions)->Some_0,
            self.mapped_class_at(r2, c2, subjects, lecturers, sessions)->Some_0,
        ) by {
            assert(f(r1, c1) is Some && f(r2, c2) is Some);
            assert(0 <= c1 < w(r1) && 0 <= c2 < w(r2));
        }
        assert forall|r: int, c: int|
            #![trigger self.mapped_class_at(r, c, subjects, lecturers, sessions)]
            0 <= r < k && 0 <= c < self.range@.cells[r].len() && self.mapped_class_at(r, c, subjects, lecturers, sessions) is Some implies all.contains(self.mapped_class_at(r, c, subjects, lecturers, sessions)->Some_0) by {
            assert(f(r, c) is Some);
            assert(0 <= c < w(r));
        }
        assert forall|x: ClassView| #[trigger] all.contains(x) implies exists|r: int, c: int|
            0 <= r < k && 0 <= c < self.range@.cells[r].len() && #[trigger] self.mapped_class_at(r, c, subjects, lecturers, sessions) == Some(x) by {
            assert(found_somewhere(f, w, k, x));
            let (r, c) = choose|r: int, c: int| 0 <= r < k && 0 <= c < w(r) && #[trigger] f(r, c) == Some(x);
            assert(self.mapped_class_at(r, c, subjects, lecturers, sessions) == Some(x));
        }
    }
}

} // verus!
