use vstd::prelude::*;

use super::{Excel, Parser};
use crate::text::{
    contains_str, first_piece, first_piece_of, has_sub, lemma_first_piece_idempotent, lemma_join_then_split, lemma_split_on_without_sep, is_one_byte, join, join_from, join_strs,
    join_upto, lemma_split_on_contains, lemma_split_on_nonempty, matches_at, split_char, split_on,
    split_words, trim, trim_all, trim_each, trim_str, utf8_len, views, words,
};

verus! {

broadcast use vstd::string::group_string_axioms;

pub open spec fn opt_strings(o: Option<Vec<String>>) -> Option<Seq<Seq<char>>> {
    match o {
        Some(v) => Some(views(v@)),
        None => None,
    }
}

pub open spec fn opt_pair(o: Option<(String, String)>) -> Option<(Seq<char>, Seq<char>)> {
    match o {
        Some((a, b)) => Some((a@, b@)),
        None => None,
    }
}

/// The lecturer codes of a class detail: the third `/`-separated part, split
/// at `-`, each code trimmed. `None` when the detail has fewer than three parts.
pub open spec fn lecturer_codes(detail: Seq<char>) -> Option<Seq<Seq<char>>> {
    let parts = split_on(detail, '/');
    if parts.len() > 2 {
        Some(trim_all(split_on(parts[2], '-')))
    } else {
        None
    }
}

/// The lecturer codes of a class detail `"<a>/<b>/<c>"` whose parts hold
/// no `/` are the `-`-separated pieces of `<c>`, trimmed
/// (`"3 sks / Sem 3 / AB - CD"` gives `AB` and `CD`).
pub proof fn lemma_lecturer_codes_third_part(a: Seq<char>, b: Seq<char>, c: Seq<char>)
    requires
        !a.contains('/'),
        !b.contains('/'),
        !c.contains('/'),
    ensures
        lecturer_codes(a + seq!['/'] + b + seq!['/'] + c) == Some(trim_all(split_on(c, '-'))),
{
    let ps = seq![a, b, c];
    assert(ps.drop_last() =~= seq![a, b]);
    assert(seq![a, b].drop_last() =~= seq![a]);
    assert(join(seq![a], seq!['/']) == a);
    assert(join(seq![a, b], seq!['/']) == a + seq!['/'] + b);
    assert(join(ps, seq!['/']) == a + seq!['/'] + b + seq!['/'] + c);
    assert forall|i: int| 0 <= i < ps.len() implies !(#[trigger] ps[i]).contains('/') by {
        if i == 0 {
            assert(ps[i] == a);
        } else if i == 1 {
            assert(ps[i] == b);
        } else {
            assert(ps[i] == c);
        }
    }
    lemma_join_then_split(ps, '/');
    assert(split_on(a + seq!['/'] + b + seq!['/'] + c, '/')[2] == c);
}

/// A class text `"<a>-<b>"` whose parts hold no `-` is subject `<a>` with
/// code `<b>`, both trimmed; a text without `-` is neither.
pub proof fn lemma_subject_with_code_two_parts(a: Seq<char>, b: Seq<char>, val: Seq<char>)
    requires
        !a.contains('-'),
        !b.contains('-'),
    ensures
        subject_with_code(a + seq!['-'] + b) == Some((trim(a), trim(b))),
        !val.contains('-') ==> subject_with_code(val) is None,
{
    let ps = seq![a, b];
    assert(ps.drop_last() =~= seq![a]);
    assert(join(seq![a], seq!['-']) == a);
    assert(join(ps, seq!['-']) == a + seq!['-'] + b);
    assert forall|i: int| 0 <= i < ps.len() implies !(#[trigger] ps[i]).contains('-') by {
        if i == 0 {
            assert(ps[i] == a);
        } else {
            assert(ps[i] == b);
        }
    }
    lemma_join_then_split(ps, '-');
    if !val.contains('-') {
        lemma_split_on_without_sep(val, '-');
    }
}

/// The start of a session text: what comes before the first `" - "`.
pub open spec fn session_start(session: Seq<char>) -> Seq<char> {
    first_piece(session, " - "@)
}

/// Reading the session start of a session start gives it back unchanged:
/// `parse_session` is idempotent.
pub proof fn lemma_session_start_idempotent(session: Seq<char>)
    ensures
        session_start(session_start(session)) == session_start(session),
{
    lemma_first_piece_idempotent(session, " - "@);
}

/// Subject name and class code of a class text: the `-`-separated parts,
/// trimmed; the name is the first part and the code is the other parts joined
/// by a space. `None` when the text has no `-`.
pub open spec fn subject_with_code(val: Seq<char>) -> Option<(Seq<char>, Seq<char>)> {
    let elem = trim_all(split_on(val, '-'));
    if elem.len() == 2 {
        Some((elem[0], elem[1]))
    } else if elem.len() > 2 {
        Some((elem[0], join(elem.subrange(1, elem.len() as int), " "@)))
    } else {
        None
    }
}

/// Subject name and class code of a class text, decided by the first of
/// these that applies: an `"(EN) + IUP"` class, an `"IUP"` class, an `"EN"`
/// class (`"<subject> <code> - EN"`), a `"-"` class (`"<subject> - <code>"`),
/// the `"Realitas X"` class (code `"-"`), and otherwise
/// `"<subject> <code>"` where a one-byte last word is the code, or the whole
/// text with code `"-"`. `None` when an `"EN"` class or the last case has no
/// words.
pub open spec fn subject_with_code_by_kind(val: Seq<char>) -> Option<(Seq<char>, Seq<char>)> {
    if has_sub(val, "(EN) + IUP"@) {
        Some((trim(first_piece(val, "(EN) + IUP"@)), "(EN) + IUP"@))
    } else if has_sub(val, "IUP"@) {
        Some((trim(first_piece(trim(first_piece(val, "IUP"@)), "-"@)), "IUP"@))
    } else if has_sub(val, "EN"@) {
        let w = words(first_piece(trim(first_piece(val, "EN"@)), "-"@));
        if w.len() == 0 {
            None
        } else {
            Some((join(w.drop_last(), " "@), trim(w.last()) + " - EN"@))
        }
    } else if has_sub(val, "-"@) {
        let p = trim_all(split_on(val, '-'));
        Some((p[0], p[1]))
    } else if has_sub(val, "Realitas X"@) {
        Some((trim(val), "-"@))
    } else {
        let w = words(val);
        if w.len() == 0 {
            None
        } else if utf8_len(w.last()) == 1 {
            Some((join(w.drop_last(), " "@), w.last()))
        } else {
            Some((join(w, " "@), "-"@))
        }
    }
}

proof fn lemma_dash_split(val: Seq<char>)
    requires
        has_sub(val, "-"@),
    ensures
        split_on(val, '-').len() >= 2,
{
    reveal_strlit("-");
    let i = choose|i: int| matches_at(val, "-"@, i);
    assert(val.subrange(i, i + 1)[0] == '-');
    assert(val[i] == '-');
    lemma_split_on_contains(val, '-');
}

impl Parser for Excel {
    fn parse_lecturer(class_detail_str: &str) -> (r: Option<Vec<String>>)
        ensures
            opt_strings(r) == lecturer_codes(class_detail_str@),
    {
        let parts = split_char(class_detail_str, '/');
        assert(views(parts@).len() == parts@.len());
        if parts.len() <= 2 {
            return None;
        }
        assert(views(parts@)[2] == parts@[2]@);
        let codes = split_char(parts[2].as_str(), '-');
        let lecturers = trim_each(&codes);
        if lecturers.len() == 0 {
            proof {
                lemma_split_on_nonempty(parts@[2]@, '-');
                assert(views(codes@).len() == codes@.len());
                assert(views(lecturers@).len() == lecturers@.len());
            }
            None
        } else {
            Some(lecturers)
        }
    }

    fn parse_session(session_str: &str) -> (r: Option<String>)
        ensures
            r matches Some(s) && s@ == session_start(session_str@),
    {
        Some(first_piece_of(session_str, " - "))
    }

    fn parse_subject_with_code(val: &str) -> (r: Option<(String, String)>)
        ensures
            opt_pair(r) == subject_with_code(val@),
    {
        let parts = split_char(val, '-');
        let elem = trim_each(&parts);
        proof {
            lemma_split_on_nonempty(val@, '-');
        }
        if elem.len() == 2 {
            let name = elem[0].clone();
            let code = elem[1].clone();
            Some((name, code))
        } else if elem.len() > 2 {
            let name = elem[0].clone();
            let code = join_from(&elem, 1, " ");
            Some((name, code))
        } else {
            None
        }
    }

    fn parse_subject_with_code_2(val: &str) -> (r: Option<(String, String)>)
        ensures
            opt_pair(r) == subject_with_code_by_kind(val@),
    {
        // an "(EN) + IUP" class
        if contains_str(val, "(EN) + IUP") {
            let before = first_piece_of(val, "(EN) + IUP");
            let name = trim_str(before.as_str());
            return Some((name, String::from_str("(EN) + IUP")));
        }
        // an "IUP" class
        if contains_str(val, "IUP") {
            let before = first_piece_of(val, "IUP");
            let trimmed = trim_str(before.as_str());
            let subject = first_piece_of(trimmed.as_str(), "-");
            let name = trim_str(subject.as_str());
            return Some((name, String::from_str("IUP")));
        }
        // an "EN" class: "<subject> <code> - EN"
        if contains_str(val, "EN") {
            let before = first_piece_of(val, "EN");
            let trimmed = trim_str(before.as_str());
            let subject = first_piece_of(trimmed.as_str(), "-");
            let w = split_words(subject.as_str());
            if w.len() == 0 {
                return None;
            }
            let n = w.len();
            let mut code = trim_str(w[n - 1].as_str());
            code.append(" - EN");
            let name = join_upto(&w, n - 1, " ");
            proof {
                assert(views(w@).take(n - 1) =~= views(w@).drop_last());
            }
            return Some((name, code));
        }
        // a "-" class: "<subject> - <code>"
        if contains_str(val, "-") {
            let parts = split_char(val, '-');
            let p = trim_each(&parts);
            proof {
                lemma_dash_split(val@);
                assert(views(p@).len() == p@.len());
                assert(views(parts@).len() == parts@.len());
            }
            let name = p[0].clone();
            let code = p[1].clone();
            return Some((name, code));
        }
        // the unique "Realitas X" class
        if contains_str(val, "Realitas X") {
            return Some((trim_str(val), String::from_str("-")));
        }
        // "<subject> <code>" or a subject without code
        let w = split_words(val);
        if w.len() == 0 {
            return None;
        }
        let n = w.len();
        if is_one_byte(w[n - 1].as_str()) {
            let code = w[n - 1].clone();
            let name = join_upto(&w, n - 1, " ");
            proof {
                assert(views(w@).take(n - 1) =~= views(w@).drop_last());
            }
            Some((name, code))
        } else {
            Some((join_strs(&w, " "), String::from_str("-")))
        }
    }
}

} // verus!
