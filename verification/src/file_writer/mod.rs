pub mod class_writer;
pub mod compare_writer;
pub mod sql_writer;
