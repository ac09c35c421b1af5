use vstd::prelude::*;

use super::parser::opt_pair;
use crate::text::{
    has_sub, is_one_byte, join, join_strs, join_upto, contains_str, lemma_join_then_split, lemma_split_on_nonempty, split_char,
    split_on, split_words, trim, trim_str, utf8_len, views, words,
};

verus! {

broadcast use vstd::string::group_string_axioms;

/// Subject name and class code of a class text, the way the map-building
/// parsers read it. A text without `-` is `"<subject> <code>"` when its last
/// word, trimmed, is one byte no greater than `L`, and otherwise a subject
/// with code `"-"` (`None` when it has no words). A text with `-` whose last
/// part holds `"EN"` is `"<subject> <code> - EN"`; otherwise the name and the
/// code are its first two parts, trimmed.
pub open spec fn subject_class(val: Seq<char>) -> Option<(Seq<char>, Seq<char>)> {
    let parts = split_on(val, '-');
    if parts.len() < 2 {
        let w = words(val);
        if w.len() == 0 {
            None
        } else {
            let last = trim(w.last());
            if utf8_len(last) == 1 && last[0] <= 'L' {
                Some((join(w.drop_last(), " "@), last))
            } else {
                Some((join(w, " "@), "-"@))
            }
        }
    } else {
        let last = trim(parts.last());
        if has_sub(last, "EN"@) {
            let w = words(parts[0]);
            Some((join(w.drop_last(), " "@), w.last() + " - EN"@))
        } else {
            Some((trim(parts[0]), trim(parts[1])))
        }
    }
}

/// A class text `"<a>-<b>"` whose parts hold no `-` and whose trimmed
/// `<b>` holds no `"EN"` is subject `<a>` with code `<b>`, both trimmed.
pub proof fn lemma_subject_class_two_parts(a: Seq<char>, b: Seq<char>)
    requires
        !a.contains('-'),
        !b.contains('-'),
        !has_sub(trim(b), "EN"@),
    ensures
        subject_class(a + seq!['-'] + b) == Some((trim(a), trim(b))),
{
    let ps = seq![a, b];
    assert(ps.drop_last() =~= seq![a]);
    assert(join(seq![a], seq!['-']) == a);
    assert(join(ps, seq!['-']) == a + seq!['-'] + b);
    assert forall|i: int| 0 <= i < ps.len() implies !(#[trigger] ps[i]).contains('-') by {
        if i == 0 {
            assert(ps[i] == a);
        } else {
            assert(ps[i] == b);
        }
    }
    lemma_join_then_split(ps, '-');
    assert(ps.last() == b);
}

/// The text is an `"EN"` class whose first part has no words, on which the
/// map-building parsers fail.
pub open spec fn subject_class_fails(val: Seq<char>) -> bool {
    let parts = split_on(val, '-');
    &&& parts.len() >= 2
    &&& has_sub(trim(parts.last()), "EN"@)
    &&& words(parts[0]).len() == 0
}

/// Whether the class text is one on which the map-building parsers fail
/// (`subject_class_fails`).
pub fn subject_class_fails_exec(val: &str) -> (b: bool)
    ensures
        b == subject_class_fails(val@),
{
    let parts = split_char(val, '-');
    proof {
        assert(views(parts@).len() == parts@.len());
    }
    if parts.len() < 2 {
        return false;
    }
    let last = trim_str(parts[parts.len() - 1].as_str());
    proof {
        assert(views(parts@)[parts@.len() - 1] == parts@[parts@.len() - 1]@);
        assert(views(parts@)[0] == parts@[0]@);
    }
    if !contains_str(last.as_str(), "EN") {
        return false;
    }
    split_words(parts[0].as_str()).len() == 0
}

/// The subject name and class code of a class text (`subject_class`).
pub fn subject_class_parts(val: &str) -> (r: Option<(String, String)>)
    requires
        !subject_class_fails(val@),
    ensures
        opt_pair(r) == subject_class(val@),
{
    let parts = split_char(val, '-');
    proof {
        lemma_split_on_nonempty(val@, '-');
        assert(views(parts@).len() == parts@.len());
    }
    if parts.len() < 2 {
        let w = split_words(val);
        if w.len() == 0 {
            return None;
        }
        let n = w.len();
        let last = trim_str(w[n - 1].as_str());
        proof {
            assert(views(w@)[n - 1] == w@[n - 1]@);
            assert(views(w@).take(n - 1) =~= views(w@).drop_last());
        }
        if is_one_byte(last.as_str()) && last.as_str().get_char(0) <= 'L' {
            let name = join_upto(&w, n - 1, " ");
            Some((name, last))
        } else {
            Some((join_strs(&w, " "), String::from_str("-")))
        }
    } else {
        let n = parts.len();
        let last = trim_str(parts[n - 1].as_str());
        proof {
            assert(views(parts@)[n - 1] == parts@[n - 1]@);
            assert(views(parts@)[0] == parts@[0]@);
            assert(views(parts@)[1] == parts@[1]@);
        }
        if contains_str(last.as_str(), "EN") {
            let w = split_words(parts[0].as_str());
            let m = w.len();
            let name = join_upto(&w, m - 1, " ");
            let mut code = w[m - 1].clone();
            code.append(" - EN");
            proof {
                assert(views(w@)[m - 1] == w@[m - 1]@);
                assert(views(w@).take(m - 1) =~= views(w@).drop_last());
            }
            Some((name, code))
        } else {
            Some((trim_str(parts[0].as_str()), trim_str(parts[1].as_str())))
        }
    }
}

} // verus!
