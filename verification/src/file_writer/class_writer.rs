use vstd::prelude::*;

use crate::db::repository::class::{ClassFromSchedule, ScheduleView};
use crate::text::{join, views};

verus! {

broadcast use vstd::string::group_string_axioms;

/// Names what `format!("{:?}", s)` gives for a string slice `s`: `s` in
/// double quotes, each character escaped as `char::escape_debug` escapes it.
pub uninterp spec fn debug_quoted(s: Seq<char>) -> Seq<char>;

/// A printable ASCII character that `Debug` for `str` does not escape.
pub open spec fn plain_char(c: char) -> bool {
    ' ' <= c && c <= '~' && c != '"' && c != '\\' && c != '\''
}

/// Calls `format!("{:?}", s)`. Trusted: the result is the named
/// `debug_quoted` of `s`; when every character of `s` is printable ASCII
/// other than a quote or a backslash, it is `s` between double quotes (the
/// documentation of `char::escape_default` and `escape_debug`: printable
/// ASCII characters other than those are not escaped). Other escapes are left
/// to the name.
#[verifier::external_body]
fn debug_str(s: &str) -> (t: String)
    ensures
        t@ == debug_quoted(s@),
        (forall|i: int| 0 <= i < s@.len() ==> plain_char(#[trigger] s@[i])) ==> t@ == seq!['"'] + s@ + seq!['"'],
{
    format!("{:?}", s)
}

/// The strings quoted as `Debug` quotes them.
pub open spec fn quoted_all(ps: Seq<Seq<char>>) -> Seq<Seq<char>> {
    Seq::new(ps.len(), |i: int| debug_quoted(ps[i]))
}

/// What `format!("{:?}", v)` gives for a list of strings: the quoted strings
/// between brackets, separated by `", "`.
pub open spec fn debug_list(ps: Seq<Seq<char>>) -> Seq<char> {
    "["@ + join(quoted_all(ps), ", "@) + "]"@
}

/// Every character of `s` is one that `Debug` leaves as it is.
pub open spec fn plain(s: Seq<char>) -> bool {
    forall|i: int| 0 <= i < s.len() ==> plain_char(#[trigger] s[i])
}

/// `s` between double quotes.
pub open spec fn plain_quoted(s: Seq<char>) -> Seq<char> {
    seq!['"'] + s + seq!['"']
}

/// The strings between double quotes, separated by `", "`, between
/// brackets: `Debug` of a list of plain strings.
pub open spec fn plain_list(ps: Seq<Seq<char>>) -> Seq<char> {
    "["@ + join(Seq::new(ps.len(), |i: int| plain_quoted(ps[i])), ", "@) + "]"@
}

/// When every string of `ps` is plain, `Debug` shows the list as
/// `plain_list(ps)`.
pub open spec fn shown_plainly(ps: Seq<Seq<char>>) -> bool {
    (forall|i: int| 0 <= i < ps.len() ==> plain(#[trigger] ps[i])) ==> debug_list(ps) == plain_list(ps)
}

/// `format!("{:?}", v)` for a list of strings.
pub fn debug_string_list(v: &Vec<String>) -> (t: String)
    ensures
        t@ == debug_list(views(v@)),
        (forall|i: int| 0 <= i < v@.len() ==> plain(#[trigger] v@[i]@)) ==> t@ == plain_list(views(v@)),
        shown_plainly(views(v@)),
{
    let mut t = String::from_str("[");
    let mut i: usize = 0;
    while i < v.len()
        invariant
            i <= v@.len(),
            t@ == "["@ + join(quoted_all(views(v@)).take(i as int), ", "@),
            forall|k: int| 0 <= k < i && plain(v@[k]@) ==> #[trigger] debug_quoted(v@[k]@) == plain_quoted(v@[k]@),
        decreases v.len() - i,
    {
        let q = debug_str(v[i].as_str());
        let ghost qs = quoted_all(views(v@));
        assert(qs.take(i + 1).drop_last() =~= qs.take(i as int));
        assert(qs[i as int] == debug_quoted(v@[i as int]@));
        if i > 0 {
            t.append(", ");
        }
        t.append(q.as_str());
        assert(t@ =~= "["@ + join(qs.take(i + 1), ", "@));
        i += 1;
    }
    assert(quoted_all(views(v@)).take(v@.len() as int) =~= quoted_all(views(v@)));
    proof {
        let ps = views(v@);
        if forall|i: int| 0 <= i < ps.len() ==> plain(#[trigger] ps[i]) {
            assert(quoted_all(ps) =~= Seq::new(ps.len(), |i: int| plain_quoted(ps[i]))) by {
                assert forall|k: int| 0 <= k < ps.len() implies #[trigger] quoted_all(ps)[k] == plain_quoted(ps[k]) by {
                    assert(ps[k] == v@[k]@);
                    assert(plain(ps[k]));
                }
            }
        }
    }
    t.append("]");
    t
}

/// The line that describes a class:
/// `"<prefix> <subject> <code>, <day> <session>, <lecturers>\n"`, the
/// lecturer codes as `Debug` shows a list of strings.
pub open spec fn class_info(prefix: Seq<char>, class: ScheduleView) -> Seq<char> {
    prefix + " "@ + class.subject_name + " "@ + class.class_code + ", "@ + class.day + " "@ + class.session_start
        + ", "@ + debug_list(class.lecturer_code) + "\n"@
}

/// The line that describes a class (what `write_class_info` writes).
pub fn class_info_line(prefix: &str, class: &ClassFromSchedule) -> (t: String)
    ensures
        t@ == class_info(prefix@, class@),
        shown_plainly(class@.lecturer_code),
{
    let mut t = String::from_str(prefix);
    t.append(" ");
    t.append(class.subject_name.as_str());
    t.append(" ");
    t.append(class.class_code.as_str());
    t.append(", ");
    t.append(class.day.as_str());
    t.append(" ");
    t.append(class.session_start.as_str());
    t.append(", ");
    let lecturers = debug_string_list(&class.lecturer_code);
    t.append(lecturers.as_str());
    t.append("\n");
    t
}

} // verus!
