use vstd::prelude::*;

use super::class_writer::{class_info, class_info_line, shown_plainly};
use crate::commands::compare::pair_views;
use crate::db::repository::class::{schedule_views, ClassFromSchedule, ScheduleView};

verus! {

broadcast use vstd::string::group_string_axioms;

/// One part of a comparison result: (database, Excel) pairs, or Excel classes.
pub enum CompareVecResult<'a> {
    DBAndExcel(&'a [(ClassFromSchedule, ClassFromSchedule)]),
    Excel(&'a [ClassFromSchedule]),
}

/// The lines of the first `n` changed pairs: for each, its database entry
/// after `"From DB :"` and its Excel class after `"From Excel :"`.
pub open spec fn pair_lines(pairs: Seq<(ScheduleView, ScheduleView)>, n: int) -> Seq<char>
    decreases n,
{
    if n <= 0 {
        Seq::empty()
    } else {
        pair_lines(pairs, n - 1) + class_info("From DB :"@, pairs[n - 1].0) + class_info("From Excel :"@, pairs[n - 1].1)
    }
}

/// The lines of the first `n` classes, each with an empty prefix.
pub open spec fn class_lines(classes: Seq<ScheduleView>, n: int) -> Seq<char>
    decreases n,
{
    if n <= 0 {
        Seq::empty()
    } else {
        class_lines(classes, n - 1) + class_info(""@, classes[n - 1])
    }
}

/// The text of a section: `"--- <header> ---\n"`, then a line for each item.
pub open spec fn section(header: Seq<char>, result: CompareVecResult) -> Seq<char> {
    "--- "@ + header + " ---\n"@ + match result {
        CompareVecResult::DBAndExcel(data) => pair_lines(pair_views(data@), data@.len() as int),
        CompareVecResult::Excel(data) => class_lines(schedule_views(data@), data@.len() as int),
    }
}

/// The text of a comparison result: the `ADDED`, `CHANGED` and `DELETED`
/// sections, in that order.
pub open spec fn compare_result(
    added: Seq<ClassFromSchedule>,
    changed: Seq<(ClassFromSchedule, ClassFromSchedule)>,
    deleted: Seq<ClassFromSchedule>,
) -> Seq<char> {
    "--- "@ + "ADDED"@ + " ---\n"@ + class_lines(schedule_views(added), added.len() as int)
        + ("--- "@ + "CHANGED"@ + " ---\n"@ + pair_lines(pair_views(changed), changed.len() as int))
        + ("--- "@ + "DELETED"@ + " ---\n"@ + class_lines(schedule_views(deleted), deleted.len() as int))
}

/// Every lecturer list of a part of a comparison result is shown plainly
/// when its codes are plain (`shown_plainly`).
pub open spec fn result_shown_plainly(result: CompareVecResult) -> bool {
    match result {
        CompareVecResult::DBAndExcel(data) => forall|i: int|
            0 <= i < data@.len() ==> shown_plainly(#[trigger] data@[i].0@.lecturer_code) && shown_plainly(
                data@[i].1@.lecturer_code,
            ),
        CompareVecResult::Excel(data) => forall|i: int| 0 <= i < data@.len() ==> shown_plainly(#[trigger] data@[i]@.lecturer_code),
    }
}

/// The text of a section (what `write_change` writes).
pub fn change_section(header: &str, result: &CompareVecResult) -> (t: String)
    ensures
        t@ == section(header@, *result),
        result_shown_plainly(*result),
{
    let mut t = String::from_str("--- ");
    t.append(header);
    t.append(" ---\n");
    let ghost head = t@;
    match result {
        CompareVecResult::DBAndExcel(data) => {
            let mut i: usize = 0;
            while i < data.len()
                invariant
                    i <= data@.len(),
                    t@ == head + pair_lines(pair_views(data@), i as int),
                    forall|k: int| 0 <= k < i ==> shown_plainly(#[trigger] data@[k].0@.lecturer_code) && shown_plainly(data@[k].1@.lecturer_code),
                decreases data.len() - i,
            {
                let db_line = class_info_line("From DB :", &data[i].0);
                let excel_line = class_info_line("From Excel :", &data[i].1);
                t.append(db_line.as_str());
                t.append(excel_line.as_str());
                assert(pair_views(data@)[i as int] == (data@[i as int].0@, data@[i as int].1@));
                assert(t@ =~= head + pair_lines(pair_views(data@), i + 1));
                i += 1;
            }
        },
        CompareVecResult::Excel(data) => {
            let mut i: usize = 0;
            while i < data.len()
                invariant
                    i <= data@.len(),
                    t@ == head + class_lines(schedule_views(data@), i as int),
                    forall|k: int| 0 <= k < i ==> shown_plainly(#[trigger] data@[k]@.lecturer_code),
                decreases data.len() - i,
            {
                let line = class_info_line("", &data[i]);
                t.append(line.as_str());
                assert(schedule_views(data@)[i as int] == data@[i as int]@);
                assert(t@ =~= head + class_lines(schedule_views(data@), i + 1));
                i += 1;
            }
        },
    }
    t
}

/// The text of a comparison result (what `write_compare_result` writes).
pub fn compare_result_text(
    added: &[ClassFromSchedule],
    changed: &[(ClassFromSchedule, ClassFromSchedule)],
    deleted: &[ClassFromSchedule],
) -> (t: String)
    ensures
        t@ == compare_result(added@, changed@, deleted@),
        result_shown_plainly(CompareVecResult::Excel(added)),
        result_shown_plainly(CompareVecResult::DBAndExcel(changed)),
        result_shown_plainly(CompareVecResult::Excel(deleted)),
{
    let mut t = change_section("ADDED", &CompareVecResult::Excel(added));
    let c = change_section("CHANGED", &CompareVecResult::DBAndExcel(changed));
    let d = change_section("DELETED", &CompareVecResult::Excel(deleted));
    t.append(c.as_str());
    t.append(d.as_str());
    t
}

/// The line of each class, with an empty prefix, in order.
pub open spec fn class_line_list(classes: Seq<ScheduleView>) -> Seq<Seq<char>> {
    Seq::new(classes.len(), |i: int| class_info(""@, classes[i]))
}

/// For each changed pair, its database line then its Excel line, in order.
pub open spec fn pair_line_list(pairs: Seq<(ScheduleView, ScheduleView)>) -> Seq<Seq<char>> {
    Seq::new(
        pairs.len(),
        |i: int| class_info("From DB :"@, pairs[i].0) + class_info("From Excel :"@, pairs[i].1),
    )
}

proof fn lemma_class_lines_upto(classes: Seq<ScheduleView>, n: int)
    requires
        0 <= n <= classes.len(),
    ensures
        class_lines(classes, n) == class_line_list(classes).take(n).flatten(),
    decreases n,
{
    if n == 0 {
        assert(class_line_list(classes).take(0) =~= Seq::<Seq<char>>::empty());
    } else {
        lemma_class_lines_upto(classes, n - 1);
        let l = class_line_list(classes);
        assert(l.take(n) =~= l.take(n - 1).push(l[n - 1]));
        l.take(n - 1).lemma_flatten_push(l[n - 1]);
    }
}

proof fn lemma_pair_lines_upto(pairs: Seq<(ScheduleView, ScheduleView)>, n: int)
    requires
        0 <= n <= pairs.len(),
    ensures
        pair_lines(pairs, n) == pair_line_list(pairs).take(n).flatten(),
    decreases n,
{
    if n == 0 {
        assert(pair_line_list(pairs).take(0) =~= Seq::<Seq<char>>::empty());
    } else {
        lemma_pair_lines_upto(pairs, n - 1);
        let l = pair_line_list(pairs);
        assert(l.take(n) =~= l.take(n - 1).push(l[n - 1]));
        l.take(n - 1).lemma_flatten_push(l[n - 1]);
    }
}

/// The lines of a list of classes are one line for each class, in order:
/// the concatenation of the class lines of all of them.
pub proof fn lemma_class_lines_each(classes: Seq<ScheduleView>)
    ensures
        class_lines(classes, classes.len() as int) == class_line_list(classes).flatten(),
        class_line_list(classes).len() == classes.len(),
{
    lemma_class_lines_upto(classes, classes.len() as int);
    assert(class_line_list(classes).take(classes.len() as int) =~= class_line_list(classes));
}

/// The lines of the changed pairs are, for each pair in order, its database
/// line and then its Excel line.
pub proof fn lemma_pair_lines_each(pairs: Seq<(ScheduleView, ScheduleView)>)
    ensures
        pair_lines(pairs, pairs.len() as int) == pair_line_list(pairs).flatten(),
        pair_line_list(pairs).len() == pairs.len(),
{
    lemma_pair_lines_upto(pairs, pairs.len() as int);
    assert(pair_line_list(pairs).take(pairs.len() as int) =~= pair_line_list(pairs));
}

/// The report (`compare_result_text`) is the `ADDED` header and one line for
/// each added class, the `CHANGED` header and two lines for each changed
/// pair, and the `DELETED` header and one line for each deleted class, each
/// part in order.
pub proof fn lemma_compare_result_parts(
    added: Seq<ClassFromSchedule>,
    changed: Seq<(ClassFromSchedule, ClassFromSchedule)>,
    deleted: Seq<ClassFromSchedule>,
)
    ensures
        compare_result(added, changed, deleted) == "--- ADDED ---\n"@ + class_line_list(schedule_views(added)).flatten()
            + "--- CHANGED ---\n"@ + pair_line_list(pair_views(changed)).flatten() + "--- DELETED ---\n"@
            + class_line_list(schedule_views(deleted)).flatten(),
{
    lemma_class_lines_each(schedule_views(added));
    lemma_pair_lines_each(pair_views(changed));
    lemma_class_lines_each(schedule_views(deleted));
    reveal_strlit("--- ");
    reveal_strlit(" ---\n");
    reveal_strlit("ADDED");
    reveal_strlit("CHANGED");
    reveal_strlit("DELETED");
    reveal_strlit("--- ADDED ---\n");
    reveal_strlit("--- CHANGED ---\n");
    reveal_strlit("--- DELETED ---\n");
    assert("--- "@ + "ADDED"@ + " ---\n"@ =~= "--- ADDED ---\n"@);
    assert("--- "@ + "CHANGED"@ + " ---\n"@ =~= "--- CHANGED ---\n"@);
    assert("--- "@ + "DELETED"@ + " ---\n"@ =~= "--- DELETED ---\n"@);
    assert(compare_result(added, changed, deleted) =~= "--- ADDED ---\n"@ + class_line_list(schedule_views(added)).flatten()
        + "--- CHANGED ---\n"@ + pair_line_list(pair_views(changed)).flatten() + "--- DELETED ---\n"@
        + class_line_list(schedule_views(deleted)).flatten());
}

} // verus!
