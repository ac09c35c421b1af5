use vstd::prelude::*;

use crate::excel::parser::session_start;
use crate::excel::{Excel, Parser, Retrieve};

verus! {

impl Excel {
    /// The start time of the session of row `row_idx`.
    pub open spec fn spec_session_name(&self, row_idx: int) -> Option<Seq<char>> {
        match self.spec_session_text(row_idx) {
            Some(text) => Some(session_start(text)),
            None => None,
        }
    }

    /// The identifier of the session of row `row_idx`, looked up by its start
    /// time.
    pub open spec fn spec_session_id(&self, row_idx: int) -> Option<i8> {
        match self.spec_session_name(row_idx) {
            Some(name) => {
                let sessions = self.lecturer_subjects_session_map.sessions@;
                if sessions.contains_key(name) {
                    Some(sessions[name])
                } else {
                    None
                }
            },
            None => None,
        }
    }

    /// The start time of the session of row `row_idx`, when it is a known
    /// session.
    pub open spec fn spec_known_session(&self, row_idx: int) -> Option<Seq<char>> {
        match self.spec_session_name(row_idx) {
            Some(name) => if self.lecturer_subjects_session_map.sessions@.contains_key(name) {
                Some(name)
            } else {
                None
            },
            None => None,
        }
    }
}

/// Parses the session of a row.
pub trait SessionParser<T: View> {
    spec fn spec_get_session(&self, row_idx: int) -> Option<T::V>;

    fn get_session(&self, row_idx: u32) -> (r: Option<T>)
        ensures
            match r {
                Some(v) => self.spec_get_session(row_idx as int) == Some(v@),
                None => self.spec_get_session(row_idx as int) is None,
            },
    ;
}

impl SessionParser<i8> for Excel {
    open spec fn spec_get_session(&self, row_idx: int) -> Option<i8> {
        self.spec_session_id(row_idx)
    }

    fn get_session(&self, row_idx: u32) -> Option<i8> {
        let session_str = match self.retrieve_session(row_idx) {
            Some(s) => s,
            None => return None,
        };
        let session_name = match Excel::parse_session(session_str.as_str()) {
            Some(n) => n,
            None => return None,
        };
        match self.lecturer_subjects_session_map.sessions.get(session_name.as_str()) {
            Some(id) => Some(*id),
            None => None,
        }
    }
}

impl SessionParser<String> for Excel {
    open spec fn spec_get_session(&self, row_idx: int) -> Option<Seq<char>> {
        self.spec_known_session(row_idx)
    }

    fn get_session(&self, row_idx: u32) -> Option<String> {
        let session_str = match self.retrieve_session(row_idx) {
            Some(s) => s,
            None => return None,
        };
        let session_name = match Excel::parse_session(session_str.as_str()) {
            Some(n) => n,
            None => return None,
        };
        if self.lecturer_subjects_session_map.sessions.contains_key(session_name.as_str()) {
            Some(session_name)
        } else {
            None
        }
    }
}

} // verus!
