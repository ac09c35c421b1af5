use vstd::prelude::*;

pub mod commands;
pub mod db;
pub mod excel;
pub mod file_writer;
pub mod parser;
pub mod text;

pub use vstd::hash_map::StringHashMap;

verus! {

/// Number of sheet rows that one day of the week occupies.
pub const DAY_OFFSET: usize = 14;

/// The days of the week that the schedule sheet covers, in order
/// (`["Senin", "Selasa", "Rabu", "Kamis", "Jum'at"]`).
pub open spec fn day_name(i: int) -> Seq<char> {
    if i == 0 {
        "Senin"@
    } else if i == 1 {
        "Selasa"@
    } else if i == 2 {
        "Rabu"@
    } else if i == 3 {
        "Kamis"@
    } else {
        "Jum'at"@
    }
}

/// The number of days the schedule sheet covers.
pub open spec fn num_days() -> int {
    5
}

/// The days of the schedule, in order: Senin, Selasa, Rabu, Kamis, Jum'at,
/// each block of `DAY_OFFSET` sheet rows being the next day.
pub proof fn lemma_day_names()
    ensures
        day_name(0) == "Senin"@,
        day_name(1) == "Selasa"@,
        day_name(2) == "Rabu"@,
        day_name(3) == "Kamis"@,
        day_name(4) == "Jum'at"@,
        forall|r: int| 0 <= r < DAY_OFFSET ==> #[trigger] day_name(r / (DAY_OFFSET as int)) == "Senin"@,
        forall|r: int| DAY_OFFSET <= r < 2 * DAY_OFFSET ==> #[trigger] day_name(r / (DAY_OFFSET as int)) == "Selasa"@,
        forall|r: int| 2 * DAY_OFFSET <= r < 3 * DAY_OFFSET ==> #[trigger] day_name(r / (DAY_OFFSET as int)) == "Rabu"@,
        forall|r: int| 3 * DAY_OFFSET <= r < 4 * DAY_OFFSET ==> #[trigger] day_name(r / (DAY_OFFSET as int)) == "Kamis"@,
        forall|r: int| 4 * DAY_OFFSET <= r < 5 * DAY_OFFSET ==> #[trigger] day_name(r / (DAY_OFFSET as int)) == "Jum'at"@,
{
    assert forall|r: int| DAY_OFFSET <= r < 2 * DAY_OFFSET implies #[trigger] day_name(r / (DAY_OFFSET as int)) == "Selasa"@ by {
        assert(r / 14 == 1) by (nonlinear_arith) requires 14 <= r < 28;
    }
    assert forall|r: int| 4 * DAY_OFFSET <= r < 5 * DAY_OFFSET implies #[trigger] day_name(r / (DAY_OFFSET as int)) == "Jum'at"@ by {
        assert(r / 14 == 4) by (nonlinear_arith) requires 56 <= r < 70;
    }
    assert forall|r: int| 0 <= r < DAY_OFFSET implies #[trigger] day_name(r / (DAY_OFFSET as int)) == "Senin"@ by {
        assert(r / 14 == 0) by (nonlinear_arith) requires 0 <= r < 14;
    }
    assert forall|r: int| 2 * DAY_OFFSET <= r < 3 * DAY_OFFSET implies #[trigger] day_name(r / (DAY_OFFSET as int)) == "Rabu"@ by {
        assert(r / 14 == 2) by (nonlinear_arith) requires 28 <= r < 42;
    }
    assert forall|r: int| 3 * DAY_OFFSET <= r < 4 * DAY_OFFSET implies #[trigger] day_name(r / (DAY_OFFSET as int)) == "Kamis"@ by {
        assert(r / 14 == 3) by (nonlinear_arith) requires 42 <= r < 56;
    }
}

/// The name of day `i` of the schedule (`DAYS[i]`).
pub fn day_of(i: usize) -> (d: String)
    requires
        i < num_days(),
    ensures
        d@ == day_name(i as int),
        i == 0 ==> d@ == "Senin"@,
        i == 1 ==> d@ == "Selasa"@,
        i == 2 ==> d@ == "Rabu"@,
        i == 3 ==> d@ == "Kamis"@,
        i == 4 ==> d@ == "Jum'at"@,
{
    if i == 0 {
        String::from_str("Senin")
    } else if i == 1 {
        String::from_str("Selasa")
    } else if i == 2 {
        String::from_str("Rabu")
    } else if i == 3 {
        String::from_str("Kamis")
    } else {
        String::from_str("Jum'at")
    }
}

} // verus!
