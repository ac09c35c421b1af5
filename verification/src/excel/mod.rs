use vstd::prelude::*;

use crate::db::repository::class::ClassFindSchedule;
use crate::db::repository::LecturerSubjectSessionMap;

pub mod by_kind;
pub mod find_class;
pub mod parse_excel;
pub mod parser;
pub mod retrieve;
pub mod into_map;
pub mod into_str;
pub mod subject_class;
pub mod walk;

verus! {

/// The text cells of a rectangular sheet range, row by row. `start` is the
/// absolute (row, column) position of the first cell; a cell that holds no
/// text is `None`.
pub struct Grid {
    start: (u32, u32),
    rows: Vec<Vec<Option<String>>>,
}

pub struct GridView {
    pub start_row: int,
    pub start_col: int,
    pub cells: Seq<Seq<Option<Seq<char>>>>,
}

pub open spec fn opt_view(o: Option<String>) -> Option<Seq<char>> {
    match o {
        Some(s) => Some(s@),
        None => None,
    }
}

pub open spec fn row_views(row: Seq<Option<String>>) -> Seq<Option<Seq<char>>> {
    Seq::new(row.len(), |j: int| opt_view(row[j]))
}

pub open spec fn rows_views(rows: Seq<Vec<Option<String>>>) -> Seq<Seq<Option<Seq<char>>>> {
    Seq::new(rows.len(), |i: int| row_views(rows[i]@))
}

/// Positions fit in `u32` with room for the row below.
pub open spec fn fits(cells: Seq<Seq<Option<Seq<char>>>>) -> bool {
    &&& cells.len() < u32::MAX
    &&& forall|i: int| 0 <= i < cells.len() ==> #[trigger] cells[i].len() < u32::MAX
}

/// The text at absolute position (`r`, `c`), if the position lies in the
/// range and the cell holds text.
pub open spec fn cell_at(g: GridView, r: int, c: int) -> Option<Seq<char>> {
    let i = r - g.start_row;
    let j = c - g.start_col;
    if 0 <= i < g.cells.len() && 0 <= j < g.cells[i].len() {
        g.cells[i][j]
    } else {
        None
    }
}

impl View for Grid {
    type V = GridView;

    closed spec fn view(&self) -> GridView {
        GridView { start_row: self.start.0 as int, start_col: self.start.1 as int, cells: rows_views(self.rows@) }
    }
}

impl Grid {
    #[verifier::type_invariant]
    closed spec fn wf(self) -> bool {
        fits(rows_views(self.rows@))
    }

    /// A range of empty cells from `start` to `end`, both inclusive
    /// (`calamine::Range::new`).
    pub fn new(start: (u32, u32), end: (u32, u32)) -> (g: Grid)
        requires
            start.0 <= end.0,
            start.1 <= end.1,
            end.0 - start.0 + 1 < u32::MAX,
            end.1 - start.1 + 1 < u32::MAX,
        ensures
            g@.start_row == start.0,
            g@.start_col == start.1,
            g@.cells.len() == end.0 - start.0 + 1,
            forall|i: int| 0 <= i < g@.cells.len() ==> #[trigger] g@.cells[i].len() == end.1 - start.1 + 1,
            forall|i: int, j: int| 0 <= i < g@.cells.len() && 0 <= j < g@.cells[i].len() ==> #[trigger] g@.cells[i][j] is None,
    {
        let height = end.0 - start.0 + 1;
        let width = end.1 - start.1 + 1;
        let mut rows: Vec<Vec<Option<String>>> = Vec::new();
        let mut i: u32 = 0;
        while i < height
            invariant
                i <= height,
                rows@.len() == i,
                forall|k: int| 0 <= k < i ==> #[trigger] rows@[k]@.len() == width,
                forall|k: int, j: int| 0 <= k < i && 0 <= j < width ==> #[trigger] rows@[k]@[j] is None,
            decreases height - i,
        {
            let mut row: Vec<Option<String>> = Vec::new();
            let mut j: u32 = 0;
            while j < width
                invariant
                    j <= width,
                    row@.len() == j,
                    forall|k: int| 0 <= k < j ==> #[trigger] row@[k] is None,
                decreases width - j,
            {
                row.push(None);
                j += 1;
            }
            rows.push(row);
            i += 1;
        }
        let g = Grid { start, rows };
        assert(g@.cells.len() == height);
        g
    }

    /// A range whose first cell is at `start`, with the given rows; `None`
    /// when it has `u32::MAX` rows or a row of that many cells.
    pub fn from_rows(start: (u32, u32), rows: Vec<Vec<Option<String>>>) -> (g: Option<Grid>)
        ensures
            g is Some <==> fits(rows_views(rows@)),
            g matches Some(g) ==> g@ == (GridView {
                start_row: start.0 as int,
                start_col: start.1 as int,
                cells: rows_views(rows@),
            }),
    {
        if rows.len() >= u32::MAX as usize {
            return None;
        }
        let mut i: usize = 0;
        while i < rows.len()
            invariant
                i <= rows@.len() < u32::MAX,
                forall|k: int| 0 <= k < i ==> #[trigger] rows@[k]@.len() < u32::MAX,
            decreases rows.len() - i,
        {
            if rows[i].len() >= u32::MAX as usize {
                assert(rows_views(rows@)[i as int].len() == rows@[i as int]@.len());
                return None;
            }
            i += 1;
        }
        assert forall|k: int| 0 <= k < rows_views(rows@).len() implies #[trigger] rows_views(rows@)[k].len() < u32::MAX by {
            assert(rows_views(rows@)[k].len() == rows@[k]@.len());
        }
        Some(Grid { start, rows })
    }

    /// A range with no cells (`calamine::Range::empty`).
    pub fn empty() -> (g: Grid)
        ensures
            g@.cells.len() == 0,
            g@.start_row == 0,
            g@.start_col == 0,
    {
        let g = Grid { start: (0, 0), rows: Vec::new() };
        assert(g@.cells.len() == 0);
        g
    }

    /// The number of rows.
    pub fn height(&self) -> (n: usize)
        ensures
            n == self@.cells.len(),
            fits(self@.cells),
    {
        proof {
            use_type_invariant(self);
        }
        self.rows.len()
    }

    /// The number of cells of row `r` (relative).
    pub fn row_width(&self, r: usize) -> (n: usize)
        requires
            r < self@.cells.len(),
        ensures
            n == self@.cells[r as int].len(),
    {
        self.rows[r].len()
    }

    /// The text of the cell at relative position (`r`, `c`).
    pub fn cell(&self, r: usize, c: usize) -> (v: Option<String>)
        requires
            r < self@.cells.len(),
            c < self@.cells[r as int].len(),
        ensures
            opt_view(v) == self@.cells[r as int][c as int],
    {
        let row = &self.rows[r];
        assert(self@.cells[r as int] == row_views(row@));
        match &row[c] {
            Some(s) => Some(s.clone()),
            None => None,
        }
    }

    /// The text at absolute position `pos`, if the position lies in the range
    /// and the cell holds text (`get_value(pos)` followed by `get_string`).
    pub fn get_string(&self, pos: (u32, u32)) -> (v: Option<String>)
        ensures
            opt_view(v) == cell_at(self@, pos.0 as int, pos.1 as int),
    {
        if pos.0 < self.start.0 || pos.1 < self.start.1 {
            return None;
        }
        let i = (pos.0 - self.start.0) as usize;
        let j = (pos.1 - self.start.1) as usize;
        if i >= self.rows.len() {
            return None;
        }
        if j >= self.rows[i].len() {
            assert(self@.cells[i as int].len() == self.rows@[i as int]@.len());
            return None;
        }
        self.cell(i, j)
    }
}

/// A schedule sheet and the database identifiers that its parsers look up.
pub struct Excel {
    pub range: Grid,
    pub lecturer_subjects_session_map: LecturerSubjectSessionMap,
}

impl Excel {
    /// The sheet with the given lookup maps in place of its current ones.
    pub fn with_repo_data(self, lecturer_subjects_session_map: LecturerSubjectSessionMap) -> (e: Excel)
        ensures
            e.range@ == self.range@,
            e.lecturer_subjects_session_map == lecturer_subjects_session_map,
    {
        let mut s = self;
        s.lecturer_subjects_session_map = lecturer_subjects_session_map;
        s
    }
}

/// Reads the cells that hold the details and the session of a class.
pub trait Retrieve {
    /// The text of the cell below (`row_idx`, `col_idx`), the class detail.
    fn retrieve_class_detail(&self, row_idx: u32, col_idx: u32) -> Option<String>
        requires
            row_idx < u32::MAX,
    ;

    /// The text of the cell in column 1 of row `row_idx`, the session.
    fn retrieve_session(&self, row_idx: u32) -> Option<String>;
}

/// Parses the texts of the schedule sheet.
pub trait Parser {
    /// The lecturer codes of a class detail `"<sks> / <semester> / <A> - <B>"`.
    fn parse_lecturer(class_detail_str: &str) -> Option<Vec<String>>;

    /// The start time of a session `"<start> - <end>"`.
    fn parse_session(session_str: &str) -> Option<String>;

    /// The subject name and class code of `"<subject> - <code>"`.
    fn parse_subject_with_code(val: &str) -> Option<(String, String)>;

    /// The subject name and class code, by the kind of class the text names.
    fn parse_subject_with_code_2(val: &str) -> Option<(String, String)>;
}

/// Finds the schedule of every class whose cell text holds a subject name.
pub trait FindClassSchedule {
    spec fn find_ready(&self, subject_name: Seq<char>) -> bool;

    fn find_schedule_from_class(&self, subject_name: &str) -> Vec<ClassFindSchedule>
        requires
            self.find_ready(subject_name@),
    ;
}

} // verus!
