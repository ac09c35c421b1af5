use vstd::prelude::*;

use crate::db::repository::class::{class_views, Class, ClassView};
use crate::text::views;

verus! {

broadcast use vstd::string::group_string_axioms;

/// The decimal digit `d`.
pub open spec fn digit(d: int) -> char {
    (48 + d) as char
}

/// The decimal digits of `n`, most significant first.
pub open spec fn decimal_digits(n: nat) -> Seq<char>
    decreases n,
{
    if n < 10 {
        seq![digit(n as int)]
    } else {
        decimal_digits(n / 10).push(digit((n % 10) as int))
    }
}

/// `n` in decimal, with a `-` when it is negative (`Display` for integers).
pub open spec fn decimal(n: int) -> Seq<char> {
    if n < 0 {
        seq!['-'] + decimal_digits((-n) as nat)
    } else {
        decimal_digits(n as nat)
    }
}

fn digit_char(d: u8) -> (c: char)
    requires
        d < 10,
    ensures
        c == digit(d as int),
{
    (48u8 + d) as char
}

/// `n.to_string()` for an `i8`.
pub fn i8_to_string(n: i8) -> (t: String)
    ensures
        t@ == decimal(n as int),
{
    let mut t = String::new();
    let m: u8 = if n < 0 {
        t.append("-");
        (0i16 - n as i16) as u8
    } else {
        n as u8
    };
    let ghost mv = m as nat;
    if m < 10 {
        t.append(char_str(digit_char(m)).as_str());
    } else if m < 100 {
        t.append(char_str(digit_char(m / 10)).as_str());
        t.append(char_str(digit_char(m % 10)).as_str());
        assert(decimal_digits(mv / 10) == seq![digit((m / 10) as int)]);
    } else {
        t.append(char_str(digit_char(m / 100)).as_str());
        t.append(char_str(digit_char((m / 10) % 10)).as_str());
        t.append(char_str(digit_char(m % 10)).as_str());
        assert(decimal_digits(mv / 100) == seq![digit((m / 100) as int)]);
        assert((mv / 10) / 10 == mv / 100);
        assert((mv / 10) % 10 == (m / 10) % 10);
        assert(decimal_digits(mv / 10) == seq![digit((m / 100) as int), digit(((m / 10) % 10) as int)]);
    }
    assert(n < 0 ==> seq!['-'] == "-"@) by {
        reveal_strlit("-");
    }
    assert(t@ =~= decimal(n as int));
    t
}

/// A string of one character.
fn char_str(c: char) -> (t: String)
    ensures
        t@ == seq![c],
{
    let v = vec![c];
    crate::text::string_of(v.as_slice())
}

/// The statement that inserts a class with identifier `id`:
/// `INSERT INTO Class (id, matkulId, day, code, isAksel, taken, sessionId)
/// VALUES ('<id>', '<subject>', '<day>', '<code>', false, 0, <session>);`
/// and a line break.
pub open spec fn insert_statement(id: Seq<char>, class: ClassView) -> Seq<char> {
    "INSERT INTO Class (id, matkulId, day, code, isAksel, taken, sessionId) VALUES ('"@ + id + "', '"@
        + class.matkul_id + "', '"@ + class.day + "', '"@ + class.code + "', false, 0, "@ + decimal(
        class.session_id as int,
    ) + ");\n"@
}

/// The statement that inserts `class` with identifier `id`.
pub fn sql_insert_statement(id: &str, class: &Class) -> (t: String)
    ensures
        t@ == insert_statement(id@, class@),
{
    let mut t = String::from_str(
        "INSERT INTO Class (id, matkulId, day, code, isAksel, taken, sessionId) VALUES ('",
    );
    t.append(id);
    t.append("', '");
    t.append(class.matkul_id.as_str());
    t.append("', '");
    t.append(class.day.as_str());
    t.append("', '");
    t.append(class.code.as_str());
    t.append("', false, 0, ");
    let session = i8_to_string(class.session_id);
    t.append(session.as_str());
    t.append(");\n");
    t
}

#[verifier::external_type_specification]
#[verifier::external_body]
pub struct ExCuidError(cuid::CuidError);

/// An identifier in the form of a CUID: the letter `c` first, and only
/// ASCII digits and lowercase letters.
pub open spec fn cuid_form(id: Seq<char>) -> bool {
    &&& id.len() >= 1
    &&& id[0] == 'c'
    &&& forall|i: int| 0 <= i < id.len() ==> ('0' <= #[trigger] id[i] <= '9' || 'a' <= id[i] <= 'z')
}

/// Calls `cuid::cuid()`, which builds an identifier from the time, a
/// counter, a fingerprint of the host and random numbers. Trusted: on success
/// the identifier starts with the letter `c` and holds only ASCII digits and
/// lowercase letters (the source puts `"c"` first and writes every other
/// part in base 36 with `char::from_digit`, padded with `'0'`). Which
/// identifier comes out, its length (the time part grows with the clock), and
/// whether it fails depend on the clock and on chance, so nothing else is
/// stated. The host fingerprint that `cuid` computes once, on first use,
/// panics (`expect`) when the host name cannot be read; that depends on the
/// machine, not on anything passed in, so no `requires` can rule it out.
#[verifier::external_body]
#[allow(deprecated)]
fn generate_cuid() -> (r: Result<String, cuid::CuidError>)
    ensures
        r matches Ok(id) ==> cuid_form(id@),
{
    cuid::cuid()
}

/// An identifier could not be generated, or a new one repeated an earlier
/// one.
#[derive(Debug, PartialEq, Eq)]
pub enum IdError {
    Cuid,
    Repeated,
}

/// A new class identifier (a CUID, which starts with `c`).
pub fn new_class_id() -> (r: Result<String, IdError>)
    ensures
        r matches Ok(id) ==> cuid_form(id@),
{
    match generate_cuid() {
        Ok(id) => Ok(id),
        Err(_) => Err(IdError::Cuid),
    }
}

/// `stmt` inserts `class` under some identifier in the form of a CUID.
pub open spec fn inserts_with_new_id(stmt: Seq<char>, class: ClassView) -> bool {
    exists|id: Seq<char>| cuid_form(id) && stmt == #[trigger] insert_statement(id, class)
}

/// No two identifiers are the same.
pub open spec fn all_distinct(ids: Seq<Seq<char>>) -> bool {
    forall|i: int, j: int| 0 <= i < ids.len() && 0 <= j < ids.len() && i != j ==> #[trigger] ids[i] != #[trigger] ids[j]
}

/// The statements insert the classes, in order, each under its own
/// identifier in the form of a CUID, no two statements under the same one.
pub open spec fn inserts_with_distinct_ids(stmts: Seq<Seq<char>>, classes: Seq<ClassView>) -> bool {
    exists|ids: Seq<Seq<char>>|
        #![trigger all_distinct(ids)]
        ids.len() == stmts.len() && all_distinct(ids) && forall|i: int|
            0 <= i < ids.len() ==> cuid_form(#[trigger] ids[i]) && stmts[i] == insert_statement(ids[i], classes[i])
}

/// The insert statement of each class in order, each with a new identifier
/// that no other statement has (what `write_sql` writes, one statement per
/// class). `Err(IdError::Repeated)` when a new identifier repeats an earlier
/// one, which would give two classes the same key.
pub fn sql_statements(list_class: &[Class]) -> (r: Result<Vec<String>, IdError>)
    ensures
        r matches Ok(stmts) ==> {
            &&& stmts@.len() == list_class@.len()
            &&& forall|i: int| 0 <= i < stmts@.len() ==> #[trigger] inserts_with_new_id(stmts@[i]@, list_class@[i]@)
            &&& inserts_with_distinct_ids(views(stmts@), class_views(list_class@))
        },
        list_class@.len() == 0 ==> (r matches Ok(stmts) && stmts@.len() == 0),
{
    let mut stmts: Vec<String> = Vec::new();
    let mut ids: Vec<String> = Vec::new();
    let mut i: usize = 0;
    while i < list_class.len()
        invariant
            i <= list_class@.len(),
            stmts@.len() == i,
            ids@.len() == i,
            all_distinct(views(ids@)),
            forall|k: int|
                0 <= k < i ==> cuid_form(#[trigger] ids@[k]@) && stmts@[k]@ == insert_statement(ids@[k]@, list_class@[k]@),
            forall|k: int| 0 <= k < i ==> #[trigger] inserts_with_new_id(stmts@[k]@, list_class@[k]@),
        decreases list_class.len() - i,
    {
        let id = match new_class_id() {
            Ok(id) => id,
            Err(e) => return Err(e),
        };
        let mut j: usize = 0;
        while j < ids.len()
            invariant
                j <= ids@.len(),
                i < list_class@.len(),
                forall|m: int| 0 <= m < j ==> #[trigger] ids@[m]@ != id@,
            decreases ids.len() - j,
        {
            if ids[j] == id {
                return Err(IdError::Repeated);
            }
            j += 1;
        }
        let stmt = sql_insert_statement(id.as_str(), &list_class[i]);
        let ghost old_ids = ids@;
        stmts.push(stmt);
        ids.push(id.clone());
        assert(stmts@[i as int]@ == insert_statement(id@, list_class@[i as int]@));
        assert(inserts_with_new_id(stmts@[i as int]@, list_class@[i as int]@));
        assert(all_distinct(views(ids@))) by {
            assert forall|a: int, b: int| 0 <= a < ids@.len() && 0 <= b < ids@.len() && a != b implies #[trigger] views(ids@)[a] != #[trigger] views(ids@)[b] by {
                if a < i && b < i {
                    assert(views(old_ids)[a] != views(old_ids)[b]);
                } else if a < i {
                    assert(old_ids[a]@ != id@);
                } else {
                    assert(old_ids[b]@ != id@);
                }
            }
        }
        i += 1;
    }
    proof {
        let vs = views(ids@);
        assert(views(stmts@).len() == vs.len());
        assert forall|k: int| 0 <= k < vs.len() implies cuid_form(#[trigger] vs[k]) && views(stmts@)[k] == insert_statement(
            vs[k],
            class_views(list_class@)[k],
        ) by {
            assert(cuid_form(ids@[k]@));
        }
        assert(all_distinct(vs));
    }
    Ok(stmts)
}

} // verus!
