# auto_frs_schedule

A command-line tool that reads the class schedule of an informatics department
from an Excel sheet and keeps a MySQL database of classes in step with it
(`update`, `compare`, `sync`, `clean`, `find`).

The logic is a library written in Verus, with its behaviour stated in
`requires` / `ensures` contracts and proved:

- `src/text.rs`: string operations (splitting, trimming, joining, searching)
  with specifications over `Seq<char>`.
- `src/excel/`: the schedule sheet as a grid of cells (`Grid`), and the
  parsers that read subjects, class codes, lecturers, sessions and days out of
  it, each with the exact sequence of classes it yields.
- `src/parser/`: lookups of subject, lecturer and session identifiers, and the
  readers of the whole schedule.
- `src/commands/compare.rs`: the comparison of the sheet with the database,
  with its laws (counts, symmetry, what a deleted or changed entry is).
- `src/db/repository/`: the classes and the maps built from database rows.
- `src/file_writer/`: the text of the comparison report and of the SQL
  statements.

`app/` is the program around the library: argument handling, the Excel file,
the database and the files it writes.
