pub mod as_id_parser;
pub mod as_string_parser;
pub mod schedule_parser;
pub mod session_parser;
