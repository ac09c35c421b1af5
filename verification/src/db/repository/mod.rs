use vstd::prelude::*;

use crate::text::{lemma_split_on_first_piece, lemma_split_on_nonempty, lowercase, lowercase_known, split_char, split_on, to_lowercase, views};
use crate::StringHashMap;

pub mod class;

verus! {

/// The identifiers that the database holds for subjects (by lowercase name),
/// lecturers (by code) and sessions (by start time).
pub struct LecturerSubjectSessionMap {
    pub subjects: StringHashMap<String>,
    pub lecturers: StringHashMap<String>,
    pub sessions: StringHashMap<i8>,
}

impl LecturerSubjectSessionMap {
    /// Three empty maps.
    pub fn new() -> (m: Self)
        ensures
            m.subjects@ == Map::<Seq<char>, String>::empty(),
            m.lecturers@ == Map::<Seq<char>, String>::empty(),
            m.sessions@ == Map::<Seq<char>, i8>::empty(),
    {
        Self { subjects: StringHashMap::new(), lecturers: StringHashMap::new(), sessions: StringHashMap::new() }
    }
}


/// The strings of a map from strings to `String`s.
pub open spec fn string_values(m: Map<Seq<char>, String>) -> Map<Seq<char>, Seq<char>> {
    Map::new(|k: Seq<char>| m.contains_key(k), |k: Seq<char>| m[k]@)
}

/// The subjects of the first `n` (name, id) rows, by lowercase name, a later
/// row in place of an earlier one with the same key.
pub open spec fn subject_rows(rows: Seq<(String, String)>, n: int) -> Map<Seq<char>, Seq<char>>
    decreases n,
{
    if n <= 0 {
        Map::empty()
    } else {
        subject_rows(rows, n - 1).insert(lowercase(rows[n - 1].0@), rows[n - 1].1@)
    }
}

/// The lecturers of the first `n` (code, id) rows, by code.
pub open spec fn lecturer_rows(rows: Seq<(String, String)>, n: int) -> Map<Seq<char>, Seq<char>>
    decreases n,
{
    if n <= 0 {
        Map::empty()
    } else {
        lecturer_rows(rows, n - 1).insert(rows[n - 1].0@, rows[n - 1].1@)
    }
}

/// The sessions of the first `n` (session time, id) rows, by what comes
/// before the first `-` of the session time.
pub open spec fn session_rows(rows: Seq<(String, i8)>, n: int) -> Map<Seq<char>, i8>
    decreases n,
{
    if n <= 0 {
        Map::empty()
    } else {
        session_rows(rows, n - 1).insert(split_on(rows[n - 1].0@, '-')[0], rows[n - 1].1)
    }
}

/// A session row whose time is `"<a>-<b>"`, `<a>` without `-`, puts its
/// identifier under `<a>` (`"07.00-09.00"` under `"07.00"`).
pub proof fn lemma_session_rows_key(rows: Seq<(String, i8)>, n: int, a: Seq<char>, b: Seq<char>)
    requires
        0 < n <= rows.len(),
        !a.contains('-'),
        rows[n - 1].0@ == a + seq!['-'] + b,
    ensures
        session_rows(rows, n).contains_key(a),
        session_rows(rows, n)[a] == rows[n - 1].1,
{
    lemma_split_on_first_piece(a, '-', b);
}

/// The subject identifiers of the (name, id) rows of the subject table,
/// keyed by lowercase name.
pub fn subject_map(rows: &Vec<(String, String)>) -> (m: StringHashMap<String>)
    ensures
        string_values(m@) == subject_rows(rows@, rows@.len() as int),
        forall|i: int| 0 <= i < rows@.len() ==> lowercase_known(#[trigger] rows@[i].0@),
{
    let mut m: StringHashMap<String> = StringHashMap::new();
    let mut i: usize = 0;
    assert(string_values(m@) =~= subject_rows(rows@, 0));
    while i < rows.len()
        invariant
            i <= rows@.len(),
            string_values(m@) == subject_rows(rows@, i as int),
            forall|k: int| 0 <= k < i ==> lowercase_known(#[trigger] rows@[k].0@),
        decreases rows.len() - i,
    {
        let name = to_lowercase(rows[i].0.as_str());
        let ghost before = string_values(m@);
        m.insert(name, rows[i].1.clone());
        assert(string_values(m@) =~= before.insert(lowercase(rows@[i as int].0@), rows@[i as int].1@));
        i += 1;
    }
    m
}

/// The lecturer identifiers of the (code, id) rows of the lecturer table,
/// keyed by code.
pub fn lecturer_map(rows: &Vec<(String, String)>) -> (m: StringHashMap<String>)
    ensures
        string_values(m@) == lecturer_rows(rows@, rows@.len() as int),
{
    let mut m: StringHashMap<String> = StringHashMap::new();
    let mut i: usize = 0;
    assert(string_values(m@) =~= lecturer_rows(rows@, 0));
    while i < rows.len()
        invariant
            i <= rows@.len(),
            string_values(m@) == lecturer_rows(rows@, i as int),
        decreases rows.len() - i,
    {
        let ghost before = string_values(m@);
        m.insert(rows[i].0.clone(), rows[i].1.clone());
        assert(string_values(m@) =~= before.insert(rows@[i as int].0@, rows@[i as int].1@));
        i += 1;
    }
    m
}

/// The session identifiers of the (session time, id) rows of the session
/// table, keyed by what comes before the first `-` of the session time.
pub fn session_map(rows: &Vec<(String, i8)>) -> (m: StringHashMap<i8>)
    ensures
        m@ == session_rows(rows@, rows@.len() as int),
{
    let mut m: StringHashMap<i8> = StringHashMap::new();
    let mut i: usize = 0;
    assert(m@ =~= session_rows(rows@, 0));
    while i < rows.len()
        invariant
            i <= rows@.len(),
            m@ == session_rows(rows@, i as int),
        decreases rows.len() - i,
    {
        let parts = split_char(rows[i].0.as_str(), '-');
        proof {
            lemma_split_on_nonempty(rows@[i as int].0@, '-');
            assert(views(parts@)[0] == parts@[0]@);
        }
        let key = parts[0].clone();
        m.insert(key, rows[i].1);
        i += 1;
    }
    m
}

/// The map that putting `val(i)` under `key(i)` for `i` from 0 to `n - 1`
/// gives, a later one in place of an earlier one with the same key.
pub open spec fn keyed_map<V>(key: spec_fn(int) -> Seq<char>, val: spec_fn(int) -> V, n: int) -> Map<Seq<char>, V>
    decreases n,
{
    if n <= 0 {
        Map::empty()
    } else {
        keyed_map(key, val, n - 1).insert(key(n - 1), val(n - 1))
    }
}

/// The keys of `keyed_map` are exactly the keys put in, and each key holds
/// the value of the last row that has it.
pub proof fn lemma_keyed_map_laws<V>(key: spec_fn(int) -> Seq<char>, val: spec_fn(int) -> V, n: int)
    requires
        n >= 0,
    ensures
        forall|k: Seq<char>| #[trigger] keyed_map(key, val, n).contains_key(k) <==> exists|i: int| 0 <= i < n && #[trigger] key(i) == k,
        forall|i: int|
            0 <= i < n && (forall|j: int| i < j < n ==> #[trigger] key(j) != key(i)) ==> #[trigger] keyed_map(key, val, n)[key(i)] == val(i),
    decreases n,
{
    if n > 0 {
        lemma_keyed_map_laws(key, val, n - 1);
        let m = keyed_map(key, val, n);
        assert forall|k: Seq<char>| #[trigger] m.contains_key(k) <==> exists|i: int| 0 <= i < n && #[trigger] key(i) == k by {
            if m.contains_key(k) && k != key(n - 1) {
                assert(keyed_map(key, val, n - 1).contains_key(k));
            }
            if k == key(n - 1) {
                assert(0 <= n - 1 < n && key(n - 1) == k);
            }
            if exists|i: int| 0 <= i < n && #[trigger] key(i) == k {
                let i = choose|i: int| 0 <= i < n && #[trigger] key(i) == k;
                if i < n - 1 {
                    assert(keyed_map(key, val, n - 1).contains_key(k));
                }
            }
        }
        assert forall|i: int|
            0 <= i < n && (forall|j: int| i < j < n ==> #[trigger] key(j) != key(i)) implies #[trigger] m[key(i)] == val(i) by {
            if i < n - 1 {
                assert(key(n - 1) != key(i));
                assert(forall|j: int| i < j < n - 1 ==> #[trigger] key(j) != key(i));
                assert(keyed_map(key, val, n - 1)[key(i)] == val(i));
            }
        }
    }
}

proof fn lemma_subject_rows_keyed(rows: Seq<(String, String)>, n: int)
    ensures
        subject_rows(rows, n) == keyed_map(|i: int| lowercase(rows[i].0@), |i: int| rows[i].1@, n),
    decreases n,
{
    if n > 0 {
        lemma_subject_rows_keyed(rows, n - 1);
    }
}

proof fn lemma_lecturer_rows_keyed(rows: Seq<(String, String)>, n: int)
    ensures
        lecturer_rows(rows, n) == keyed_map(|i: int| rows[i].0@, |i: int| rows[i].1@, n),
    decreases n,
{
    if n > 0 {
        lemma_lecturer_rows_keyed(rows, n - 1);
    }
}

proof fn lemma_session_rows_keyed(rows: Seq<(String, i8)>, n: int)
    ensures
        session_rows(rows, n) == keyed_map(|i: int| split_on(rows[i].0@, '-')[0], |i: int| rows[i].1, n),
    decreases n,
{
    if n > 0 {
        lemma_session_rows_keyed(rows, n - 1);
    }
}

/// The subject map built from the rows (`subject_map`) has a key for the
/// lowercase name of every row and no other, and each key holds the
/// identifier of the last row with that lowercase name.
pub proof fn lemma_subject_rows_laws(rows: Seq<(String, String)>)
    ensures
        forall|k: Seq<char>|
            #[trigger] subject_rows(rows, rows.len() as int).contains_key(k) <==> exists|i: int|
                0 <= i < rows.len() && #[trigger] lowercase(rows[i].0@) == k,
        forall|i: int|
            0 <= i < rows.len() && (forall|j: int| i < j < rows.len() ==> #[trigger] lowercase(rows[j].0@) != lowercase(rows[i].0@))
                ==> #[trigger] subject_rows(rows, rows.len() as int)[lowercase(rows[i].0@)] == rows[i].1@,
{
    let n = rows.len() as int;
    let key = |i: int| lowercase(rows[i].0@);
    let val = |i: int| rows[i].1@;
    lemma_subject_rows_keyed(rows, n);
    lemma_keyed_map_laws(key, val, n);
    assert forall|k: Seq<char>| #[trigger] subject_rows(rows, n).contains_key(k) implies exists|i: int|
        0 <= i < n && #[trigger] lowercase(rows[i].0@) == k by {
        assert(keyed_map(key, val, n).contains_key(k));
        let i = choose|i: int| 0 <= i < n && #[trigger] key(i) == k;
        assert(lowercase(rows[i].0@) == k);
    }
    assert forall|k: Seq<char>| (exists|i: int| 0 <= i < n && #[trigger] lowercase(rows[i].0@) == k) implies #[trigger] subject_rows(rows, n).contains_key(k) by {
        let i = choose|i: int| 0 <= i < n && #[trigger] lowercase(rows[i].0@) == k;
        assert(key(i) == k);
    }
    assert forall|i: int|
        0 <= i < n && (forall|j: int| i < j < n ==> #[trigger] lowercase(rows[j].0@) != lowercase(rows[i].0@))
            implies #[trigger] subject_rows(rows, n)[lowercase(rows[i].0@)] == rows[i].1@ by {
        assert forall|j: int| i < j < n implies #[trigger] key(j) != key(i) by {
            assert(lowercase(rows[j].0@) != lowercase(rows[i].0@));
        }
        assert(keyed_map(key, val, n)[key(i)] == val(i));
    }
}

/// The lecturer map built from the rows (`lecturer_map`) has a key for the
/// code of every row and no other, and each code holds the identifier of the
/// last row with that code.
pub proof fn lemma_lecturer_rows_laws(rows: Seq<(String, String)>)
    ensures
        forall|k: Seq<char>|
            #[trigger] lecturer_rows(rows, rows.len() as int).contains_key(k) <==> exists|i: int|
                0 <= i < rows.len() && #[trigger] rows[i].0@ == k,
        forall|i: int|
            0 <= i < rows.len() && (forall|j: int| i < j < rows.len() ==> #[trigger] rows[j].0@ != rows[i].0@)
                ==> #[trigger] lecturer_rows(rows, rows.len() as int)[rows[i].0@] == rows[i].1@,
{
    let n = rows.len() as int;
    let key = |i: int| rows[i].0@;
    let val = |i: int| rows[i].1@;
    lemma_lecturer_rows_keyed(rows, n);
    lemma_keyed_map_laws(key, val, n);
    assert forall|k: Seq<char>| #[trigger] lecturer_rows(rows, n).contains_key(k) implies exists|i: int|
        0 <= i < n && #[trigger] rows[i].0@ == k by {
        assert(keyed_map(key, val, n).contains_key(k));
        let i = choose|i: int| 0 <= i < n && #[trigger] key(i) == k;
        assert(rows[i].0@ == k);
    }
    assert forall|k: Seq<char>| (exists|i: int| 0 <= i < n && #[trigger] rows[i].0@ == k) implies #[trigger] lecturer_rows(rows, n).contains_key(k) by {
        let i = choose|i: int| 0 <= i < n && #[trigger] rows[i].0@ == k;
        assert(key(i) == k);
    }
    assert forall|i: int|
        0 <= i < n && (forall|j: int| i < j < n ==> #[trigger] rows[j].0@ != rows[i].0@)
            implies #[trigger] lecturer_rows(rows, n)[rows[i].0@] == rows[i].1@ by {
        assert forall|j: int| i < j < n implies #[trigger] key(j) != key(i) by {
            assert(rows[j].0@ != rows[i].0@);
        }
        assert(keyed_map(key, val, n)[key(i)] == val(i));
    }
}

/// The session map built from the rows (`session_map`) has a key for every
/// row, what comes before the first `-` of its time, and no other, and each
/// key holds the identifier of the last row with that key.
pub proof fn lemma_session_rows_laws(rows: Seq<(String, i8)>)
    ensures
        forall|k: Seq<char>|
            #[trigger] session_rows(rows, rows.len() as int).contains_key(k) <==> exists|i: int|
                0 <= i < rows.len() && #[trigger] split_on(rows[i].0@, '-')[0] == k,
        forall|i: int|
            0 <= i < rows.len() && (forall|j: int| i < j < rows.len() ==> #[trigger] split_on(rows[j].0@, '-')[0] != split_on(rows[i].0@, '-')[0])
                ==> #[trigger] session_rows(rows, rows.len() as int)[split_on(rows[i].0@, '-')[0]] == rows[i].1,
{
    let n = rows.len() as int;
    let key = |i: int| split_on(rows[i].0@, '-')[0];
    let val = |i: int| rows[i].1;
    lemma_session_rows_keyed(rows, n);
    lemma_keyed_map_laws(key, val, n);
    assert forall|k: Seq<char>| #[trigger] session_rows(rows, n).contains_key(k) implies exists|i: int|
        0 <= i < n && #[trigger] split_on(rows[i].0@, '-')[0] == k by {
        assert(keyed_map(key, val, n).contains_key(k));
        let i = choose|i: int| 0 <= i < n && #[trigger] key(i) == k;
        assert(split_on(rows[i].0@, '-')[0] == k);
    }
    assert forall|k: Seq<char>| (exists|i: int| 0 <= i < n && #[trigger] split_on(rows[i].0@, '-')[0] == k) implies #[trigger] session_rows(rows, n).contains_key(k) by {
        let i = choose|i: int| 0 <= i < n && #[trigger] split_on(rows[i].0@, '-')[0] == k;
        assert(key(i) == k);
    }
    assert forall|i: int|
        0 <= i < n && (forall|j: int| i < j < n ==> #[trigger] split_on(rows[j].0@, '-')[0] != split_on(rows[i].0@, '-')[0])
            implies #[trigger] session_rows(rows, n)[split_on(rows[i].0@, '-')[0]] == rows[i].1 by {
        assert forall|j: int| i < j < n implies #[trigger] key(j) != key(i) by {
            assert(split_on(rows[j].0@, '-')[0] != split_on(rows[i].0@, '-')[0]);
        }
        assert(keyed_map(key, val, n)[key(i)] == val(i));
    }
}

} // verus!
