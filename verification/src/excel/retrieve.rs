use vstd::prelude::*;

use super::{cell_at, opt_view, Excel, Retrieve};

verus! {

impl Excel {
    /// The class detail of the class at (`row_idx`, `col_idx`): the text one
    /// row below it.
    pub open spec fn spec_class_detail(&self, row_idx: int, col_idx: int) -> Option<Seq<char>> {
        cell_at(self.range@, row_idx + 1, col_idx)
    }

    /// The session text of row `row_idx`: the text in column 1.
    pub open spec fn spec_session_text(&self, row_idx: int) -> Option<Seq<char>> {
        cell_at(self.range@, row_idx, 1)
    }
}

impl Retrieve for Excel {
    fn retrieve_class_detail(&self, row_idx: u32, col_idx: u32) -> (r: Option<String>)
        ensures
            opt_view(r) == self.spec_class_detail(row_idx as int, col_idx as int),
    {
        self.range.get_string((row_idx + 1, col_idx))
    }

    fn retrieve_session(&self, row_idx: u32) -> (r: Option<String>)
        ensures
            opt_view(r) == self.spec_session_text(row_idx as int),
    {
        self.range.get_string((row_idx, 1))
    }
}

} // verus!
