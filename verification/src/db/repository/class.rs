use vstd::prelude::*;

use crate::text::{lemma_split_on_first_piece, lemma_split_on_nonempty, lemma_split_on_without_sep, split_char, split_on, trim, trim_str, views};

verus! {

/// A class as it is stored in the database: ids of its subject, lecturers and
/// session.
#[derive(Debug, Clone)]
pub struct Class {
    pub matkul_id: String,
    pub lecturers_id: Vec<String>,
    pub day: String,
    pub code: String,
    pub session_id: i8,
}

pub struct ClassView {
    pub matkul_id: Seq<char>,
    pub lecturers_id: Seq<Seq<char>>,
    pub day: Seq<char>,
    pub code: Seq<char>,
    pub session_id: i8,
}

impl View for Class {
    type V = ClassView;

    open spec fn view(&self) -> ClassView {
        ClassView {
            matkul_id: self.matkul_id@,
            lecturers_id: views(self.lecturers_id@),
            day: self.day@,
            code: self.code@,
            session_id: self.session_id,
        }
    }
}

/// A class as the schedule shows it: subject name, class code, lecturer codes,
/// day and session start time.
#[derive(PartialEq, Clone, Debug)]
pub struct ClassFromSchedule {
    pub subject_name: String,
    pub class_code: String,
    pub lecturer_code: Vec<String>,
    pub day: String,
    pub session_start: String,
}

pub struct ScheduleView {
    pub subject_name: Seq<char>,
    pub class_code: Seq<char>,
    pub lecturer_code: Seq<Seq<char>>,
    pub day: Seq<char>,
    pub session_start: Seq<char>,
}

impl View for ClassFromSchedule {
    type V = ScheduleView;

    open spec fn view(&self) -> ScheduleView {
        ScheduleView {
            subject_name: self.subject_name@,
            class_code: self.class_code@,
            lecturer_code: views(self.lecturer_code@),
            day: self.day@,
            session_start: self.session_start@,
        }
    }
}

/// A schedule entry found by searching the sheet for a subject.
#[derive(PartialEq, Clone, Debug)]
pub struct ClassFindSchedule {
    pub class: String,
    pub lecturers_code: Vec<String>,
    pub day: String,
    pub session_start: String,
}

pub struct FindView {
    pub class: Seq<char>,
    pub lecturers_code: Seq<Seq<char>>,
    pub day: Seq<char>,
    pub session_start: Seq<char>,
}

impl View for ClassFindSchedule {
    type V = FindView;

    open spec fn view(&self) -> FindView {
        FindView {
            class: self.class@,
            lecturers_code: views(self.lecturers_code@),
            day: self.day@,
            session_start: self.session_start@,
        }
    }
}

pub open spec fn class_views(v: Seq<Class>) -> Seq<ClassView> {
    Seq::new(v.len(), |i: int| v[i]@)
}

pub open spec fn schedule_views(v: Seq<ClassFromSchedule>) -> Seq<ScheduleView> {
    Seq::new(v.len(), |i: int| v[i]@)
}

pub open spec fn find_views(v: Seq<ClassFindSchedule>) -> Seq<FindView> {
    Seq::new(v.len(), |i: int| v[i]@)
}

} // verus!

verus! {

/// The (subject name, class code) key of a schedule entry.
pub open spec fn key_of(v: ScheduleView) -> (Seq<char>, Seq<char>) {
    (v.subject_name, v.class_code)
}

/// No two entries share a key.
pub open spec fn unique_keys(es: Seq<((Seq<char>, Seq<char>), ScheduleView)>) -> bool {
    forall|i: int, j: int| 0 <= i < es.len() && 0 <= j < es.len() && i != j ==> #[trigger] es[i].0 != #[trigger] es[j].0
}

/// Some entry has key `k`.
pub open spec fn has_key(es: Seq<((Seq<char>, Seq<char>), ScheduleView)>, k: (Seq<char>, Seq<char>)) -> bool {
    exists|i: int| 0 <= i < es.len() && #[trigger] es[i].0 == k
}

/// The index of the entry with key `k`.
pub open spec fn key_index(es: Seq<((Seq<char>, Seq<char>), ScheduleView)>, k: (Seq<char>, Seq<char>)) -> int {
    choose|i: int| 0 <= i < es.len() && #[trigger] es[i].0 == k
}

/// The values of the entries, in order.
pub open spec fn entry_values(es: Seq<((Seq<char>, Seq<char>), ScheduleView)>) -> Seq<ScheduleView> {
    Seq::new(es.len(), |i: int| es[i].1)
}

/// The entries as a map from key to value.
pub open spec fn entries_map(es: Seq<((Seq<char>, Seq<char>), ScheduleView)>) -> Map<(Seq<char>, Seq<char>), ScheduleView> {
    Map::new(|k: (Seq<char>, Seq<char>)| has_key(es, k), |k: (Seq<char>, Seq<char>)| es[key_index(es, k)].1)
}

/// The entries after putting `v` under `k`: in place of the entry with key
/// `k`, or as a new last entry.
pub open spec fn entries_insert(
    es: Seq<((Seq<char>, Seq<char>), ScheduleView)>,
    k: (Seq<char>, Seq<char>),
    v: ScheduleView,
) -> Seq<((Seq<char>, Seq<char>), ScheduleView)> {
    if has_key(es, k) {
        es.update(key_index(es, k), (k, v))
    } else {
        es.push((k, v))
    }
}

/// With unique keys, the entry found for a key is the one that has it.
pub(crate) proof fn lemma_key_index_unique(es: Seq<((Seq<char>, Seq<char>), ScheduleView)>, j: int)
    requires
        unique_keys(es),
        0 <= j < es.len(),
    ensures
        has_key(es, es[j].0),
        key_index(es, es[j].0) == j,
{
    let k = es[j].0;
    assert(es[j].0 == k);
    let i = key_index(es, k);
    if i != j {
        assert(es[i].0 != es[j].0);
    }
}

/// Putting a value under a key of entries with unique keys keeps the keys
/// unique, and the entries then map that key to the value and every other
/// key to what it was mapped to before: a read gives back the last write.
pub proof fn lemma_entries_insert(es: Seq<((Seq<char>, Seq<char>), ScheduleView)>, k: (Seq<char>, Seq<char>), v: ScheduleView)
    requires
        unique_keys(es),
    ensures
        unique_keys(entries_insert(es, k, v)),
        entries_map(entries_insert(es, k, v)) == entries_map(es).insert(k, v),
{
    let r = entries_insert(es, k, v);
    if has_key(es, k) {
        let i = key_index(es, k);
        assert forall|a: int, b: int| 0 <= a < r.len() && 0 <= b < r.len() && a != b implies #[trigger] r[a].0 != #[trigger] r[b].0 by {
            assert(es[a].0 != es[b].0);
        }
    } else {
        assert forall|a: int, b: int| 0 <= a < r.len() && 0 <= b < r.len() && a != b implies #[trigger] r[a].0 != #[trigger] r[b].0 by {
            if a < es.len() && b < es.len() {
                assert(es[a].0 != es[b].0);
            } else if a < es.len() {
                assert(es[a].0 != k);
            } else {
                assert(es[b].0 != k);
            }
        }
    }
    let m = entries_map(es).insert(k, v);
    assert forall|x: (Seq<char>, Seq<char>)| #[trigger] entries_map(r).contains_key(x) == m.contains_key(x) by {
        if has_key(r, x) {
            let j = choose|j: int| 0 <= j < r.len() && #[trigger] r[j].0 == x;
            if x != k {
                assert(es[j].0 == x);
            }
        }
        if x != k && has_key(es, x) {
            let j = choose|j: int| 0 <= j < es.len() && #[trigger] es[j].0 == x;
            assert(r[j].0 == x);
        }
        if x == k && !has_key(es, k) {
            assert(r[es.len() as int].0 == k);
        }
        if x == k && has_key(es, k) {
            assert(r[key_index(es, k)].0 == k);
        }
    }
    assert forall|x: (Seq<char>, Seq<char>)| #[trigger] entries_map(r).contains_key(x) implies entries_map(r)[x] == m[x] by {
        let j = key_index(r, x);
        lemma_key_index_unique(r, j);
        if x != k {
            assert(r[j] == es[j]);
            lemma_key_index_unique(es, j);
        }
    }
    assert(entries_map(r) =~= m);
}

/// Taking the entry with a key out of entries with unique keys leaves every
/// other key mapped as before.
pub proof fn lemma_entries_remove(es: Seq<((Seq<char>, Seq<char>), ScheduleView)>, k: (Seq<char>, Seq<char>))
    requires
        unique_keys(es),
        has_key(es, k),
    ensures
        unique_keys(es.remove(key_index(es, k))),
        entries_map(es.remove(key_index(es, k))) == entries_map(es).remove(k),
{
    let i = key_index(es, k);
    let r = es.remove(i);
    assert forall|a: int, b: int| 0 <= a < r.len() && 0 <= b < r.len() && a != b implies #[trigger] r[a].0 != #[trigger] r[b].0 by {
        let a2 = if a < i { a } else { a + 1 };
        let b2 = if b < i { b } else { b + 1 };
        assert(es[a2].0 != es[b2].0);
    }
    let m = entries_map(es).remove(k);
    assert forall|x: (Seq<char>, Seq<char>)| #[trigger] entries_map(r).contains_key(x) == m.contains_key(x) by {
        if has_key(r, x) {
            let j = choose|j: int| 0 <= j < r.len() && #[trigger] r[j].0 == x;
            let j2 = if j < i { j } else { j + 1 };
            assert(es[j2].0 == x);
            assert(es[j2].0 != es[i].0 || j2 == i);
        }
        if x != k && has_key(es, x) {
            let j = choose|j: int| 0 <= j < es.len() && #[trigger] es[j].0 == x;
            assert(j != i);
            let j1 = if j < i { j } else { j - 1 };
            assert(r[j1].0 == x);
        }
    }
    assert forall|x: (Seq<char>, Seq<char>)| #[trigger] entries_map(r).contains_key(x) implies entries_map(r)[x] == m[x] by {
        let j = key_index(r, x);
        lemma_key_index_unique(r, j);
        let j2 = if j < i { j } else { j + 1 };
        assert(r[j] == es[j2]);
        lemma_key_index_unique(es, j2);
    }
    assert(entries_map(r) =~= m);
}

pub open spec fn entry_view(e: ((String, String), ClassFromSchedule)) -> ((Seq<char>, Seq<char>), ScheduleView) {
    ((e.0.0@, e.0.1@), e.1@)
}

pub open spec fn entry_views(es: Seq<((String, String), ClassFromSchedule)>) -> Seq<((Seq<char>, Seq<char>), ScheduleView)> {
    Seq::new(es.len(), |i: int| entry_view(es[i]))
}

/// Schedule entries keyed by (subject name, class code), each key at most
/// once; the entries keep the order in which their keys were first inserted.
pub struct ClassMap {
    entries: Vec<((String, String), ClassFromSchedule)>,
}

impl View for ClassMap {
    type V = Seq<((Seq<char>, Seq<char>), ScheduleView)>;

    closed spec fn view(&self) -> Seq<((Seq<char>, Seq<char>), ScheduleView)> {
        entry_views(self.entries@)
    }
}

impl ClassMap {
    #[verifier::type_invariant]
    closed spec fn wf(self) -> bool {
        unique_keys(self@)
    }

    /// An empty map.
    pub fn new() -> (m: ClassMap)
        ensures
            m@.len() == 0,
    {
        let m = ClassMap { entries: Vec::new() };
        assert(m@.len() == 0);
        m
    }

    /// The number of entries.
    pub fn len(&self) -> (n: usize)
        ensures
            n == self@.len(),
            unique_keys(self@),
    {
        proof {
            use_type_invariant(self);
        }
        self.entries.len()
    }

    fn find(&self, key: &(String, String)) -> (r: Option<usize>)
        ensures
            match r {
                Some(i) => i < self@.len() && self@[i as int].0 == (key.0@, key.1@),
                None => !has_key(self@, (key.0@, key.1@)),
            },
    {
        let mut i: usize = 0;
        while i < self.entries.len()
            invariant
                i <= self.entries@.len(),
                forall|j: int| 0 <= j < i ==> #[trigger] self@[j].0 != (key.0@, key.1@),
            decreases self.entries.len() - i,
        {
            let e = &self.entries[i];
            assert(self@[i as int] == entry_view(self.entries@[i as int]));
            if e.0.0 == key.0 && e.0.1 == key.1 {
                return Some(i);
            }
            i += 1;
        }
        None
    }

    /// Puts `value` under `key`, in place of the value that the key had.
    pub fn insert(&mut self, key: (String, String), value: ClassFromSchedule)
        ensures
            final(self)@ == entries_insert(old(self)@, (key.0@, key.1@), value@),
    {
        proof {
            use_type_invariant(&*self);
        }
        let ghost k = (key.0@, key.1@);
        match self.find(&key) {
            Some(i) => {
                assert(key_index(self@, k) == i) by {
                    let j = key_index(self@, k);
                    assert(self@[j].0 == k);
                }
                let mut entries: Vec<((String, String), ClassFromSchedule)> = Vec::new();
                std::mem::swap(&mut entries, &mut self.entries);
                let ghost before = entry_views(entries@);
                entries.set(i, (key, value));
                assert(entry_views(entries@) =~= before.update(i as int, (k, value@)));
                assert(unique_keys(entry_views(entries@))) by {
                    assert forall|a: int, b: int| 0 <= a < entries@.len() && 0 <= b < entries@.len() && a != b implies #[trigger] entry_views(entries@)[a].0 != #[trigger] entry_views(entries@)[b].0 by {
                        assert(before[a].0 != before[b].0);
                    }
                }
                self.entries = entries;
            },
            None => {
                let mut entries: Vec<((String, String), ClassFromSchedule)> = Vec::new();
                std::mem::swap(&mut entries, &mut self.entries);
                let ghost before = entry_views(entries@);
                entries.push((key, value));
                assert(entry_views(entries@) =~= before.push((k, value@)));
                assert(unique_keys(entry_views(entries@))) by {
                    assert forall|a: int, b: int| 0 <= a < entries@.len() && 0 <= b < entries@.len() && a != b implies #[trigger] entry_views(entries@)[a].0 != #[trigger] entry_views(entries@)[b].0 by {
                        if a < before.len() && b < before.len() {
                            assert(before[a].0 != before[b].0);
                        } else if a < before.len() {
                            assert(before[a].0 != k);
                        } else {
                            assert(before[b].0 != k);
                        }
                    }
                }
                self.entries = entries;
            },
        }
    }

    /// Takes out the value under `key`, if there is one.
    pub fn remove(&mut self, key: &(String, String)) -> (r: Option<ClassFromSchedule>)
        ensures
            has_key(old(self)@, (key.0@, key.1@)) ==> {
                let i = key_index(old(self)@, (key.0@, key.1@));
                &&& r matches Some(v) && v@ == old(self)@[i].1
                &&& final(self)@ == old(self)@.remove(i)
            },
            !has_key(old(self)@, (key.0@, key.1@)) ==> r is None && final(self)@ == old(self)@,
    {
        proof {
            use_type_invariant(&*self);
        }
        let ghost k = (key.0@, key.1@);
        match self.find(key) {
            Some(i) => {
                assert(key_index(self@, k) == i) by {
                    let j = key_index(self@, k);
                    assert(self@[j].0 == k);
                }
                let mut entries: Vec<((String, String), ClassFromSchedule)> = Vec::new();
                std::mem::swap(&mut entries, &mut self.entries);
                let ghost before = entry_views(entries@);
                let e = entries.remove(i);
                assert(entry_views(entries@) =~= before.remove(i as int));
                assert(unique_keys(entry_views(entries@))) by {
                    assert forall|a: int, b: int| 0 <= a < entries@.len() && 0 <= b < entries@.len() && a != b implies #[trigger] entry_views(entries@)[a].0 != #[trigger] entry_views(entries@)[b].0 by {
                        let a2 = if a < i { a } else { a + 1 };
                        let b2 = if b < i { b } else { b + 1 };
                        assert(before[a2].0 != before[b2].0);
                    }
                }
                self.entries = entries;
                Some(e.1)
            },
            None => None,
        }
    }

    /// The values, in the order of the entries.
    pub fn into_values(self) -> (vs: Vec<ClassFromSchedule>)
        ensures
            vs@.map_values(|x: ClassFromSchedule| x@) == entry_values(self@),
    {
        let ghost view = self@;
        let mut entries = self.entries;
        let ghost all = entries@;
        let mut rest: Vec<((String, String), ClassFromSchedule)> = Vec::new();
        while entries.len() > 0
            invariant
                all == entries@ + rest@.reverse(),
            decreases entries.len(),
        {
            let ghost before = entries@;
            let e = entries.pop().unwrap();
            assert(before == entries@.push(e));
            rest.push(e);
            assert(rest@.reverse() =~= seq![e] + rest@.drop_last().reverse());
            assert(all =~= entries@ + rest@.reverse());
        }
        assert(all =~= rest@.reverse());
        let mut vs: Vec<ClassFromSchedule> = Vec::new();
        while rest.len() > 0
            invariant
                vs@.len() + rest@.len() == all.len(),
                rest@.reverse() == all.skip(vs@.len() as int),
                vs@.map_values(|x: ClassFromSchedule| x@) == entry_values(view).take(vs@.len() as int),
                view == Seq::new(all.len(), |i: int| entry_view(all[i])),
            decreases rest.len(),
        {
            let ghost n = vs@.len();
            let ghost before = rest@;
            let e = rest.pop().unwrap();
            assert(before == rest@.push(e));
            assert(before.reverse()[0] == e);
            assert(all[n as int] == e);
            vs.push(e.1);
            assert(rest@.reverse() =~= before.reverse().drop_first());
            assert(vs@.map_values(|x: ClassFromSchedule| x@) =~= entry_values(view).take(n as int + 1));
        }
        assert(entry_values(view).take(all.len() as int) =~= entry_values(view));
        vs
    }
}

} // verus!

verus! {

/// A row of the database schedule: a class with its subject name, class code,
/// day, lecturer codes and session time.
pub struct ScheduleRow {
    pub subject_name: String,
    pub class_code: String,
    pub day: String,
    pub lecturer_code: Vec<String>,
    pub session_time: String,
}

/// The start of a session time `"<start>-<end>"`: what comes before the first
/// `-`, trimmed.
pub open spec fn session_time_start(session_time: Seq<char>) -> Seq<char> {
    trim(split_on(session_time, '-')[0])
}

/// The session start of a session time `"<a>-<b>"` whose `<a>` holds no
/// `-` is `<a>` trimmed (`"07.00-09.00"` gives `"07.00"`), and that of a
/// session time without `-` is the whole time, trimmed.
pub proof fn lemma_session_time_start(a: Seq<char>, b: Seq<char>)
    requires
        !a.contains('-'),
    ensures
        session_time_start(a + seq!['-'] + b) == trim(a),
        session_time_start(a) == trim(a),
{
    lemma_split_on_first_piece(a, '-', b);
    lemma_split_on_without_sep(a, '-');
}

/// The schedule entry of a database row.
pub open spec fn row_entry(row: ScheduleRow) -> ScheduleView {
    ScheduleView {
        subject_name: row.subject_name@,
        class_code: row.class_code@,
        lecturer_code: views(row.lecturer_code@),
        day: row.day@,
        session_start: session_time_start(row.session_time@),
    }
}

/// The entries after putting the first `n` rows, each under its
/// (subject name, class code), a later row in place of an earlier one with
/// the same key.
pub open spec fn rows_entries(rows: Seq<ScheduleRow>, n: int) -> Seq<((Seq<char>, Seq<char>), ScheduleView)>
    decreases n,
{
    if n <= 0 {
        Seq::empty()
    } else {
        entries_insert(rows_entries(rows, n - 1), (rows[n - 1].subject_name@, rows[n - 1].class_code@), row_entry(rows[n - 1]))
    }
}

/// The schedule entry of a database row (what the schedule query yields for
/// each row).
pub fn schedule_entry(row: ScheduleRow) -> (e: ClassFromSchedule)
    ensures
        e@ == row_entry(row),
{
    let parts = split_char(row.session_time.as_str(), '-');
    proof {
        lemma_split_on_nonempty(row.session_time@, '-');
        assert(views(parts@)[0] == parts@[0]@);
    }
    let session_start = trim_str(parts[0].as_str());
    ClassFromSchedule {
        class_code: row.class_code,
        day: row.day,
        lecturer_code: row.lecturer_code,
        session_start,
        subject_name: row.subject_name,
    }
}

/// The database schedule keyed by (subject name, class code).
pub fn schedule_map(rows: Vec<ScheduleRow>) -> (m: ClassMap)
    ensures
        m@ == rows_entries(rows@, rows@.len() as int),
{
    let ghost all = rows@;
    let total = rows.len();
    let mut rows = rows;
    let mut rev: Vec<ScheduleRow> = Vec::new();
    while rows.len() > 0
        invariant
            all == rows@ + rev@.reverse(),
            total == all.len(),
        decreases rows.len(),
    {
        let ghost before = rows@;
        let r = rows.pop().unwrap();
        assert(before == rows@.push(r));
        rev.push(r);
        assert(rev@.reverse() =~= seq![r] + rev@.drop_last().reverse());
        assert(all =~= rows@ + rev@.reverse());
    }
    assert(all =~= rev@.reverse());
    let mut class_map = ClassMap::new();
    let mut n: usize = 0;
    while rev.len() > 0
        invariant
            n + rev@.len() == all.len() == total,
            rev@.reverse() == all.skip(n as int),
            class_map@ == rows_entries(all, n as int),
        decreases rev.len(),
    {
        let ghost before = rev@;
        let row = rev.pop().unwrap();
        assert(before == rev@.push(row));
        assert(before.reverse()[0] == row);
        assert(all[n as int] == row);
        let key = (row.subject_name.clone(), row.class_code.clone());
        let entry = schedule_entry(row);
        class_map.insert(key, entry);
        assert(rev@.reverse() =~= before.reverse().drop_first());
        n += 1;
    }
    class_map
}

/// The subjects that are taken without a class: each gets one class with
/// code `"-"` (`["Tugas Akhir", "Proposal Tugas Akhir", "Kerja Praktik",
/// "Magang", "Etika Profesi"]`).
pub fn non_class_subjects() -> (v: Vec<String>)
    ensures
        views(v@) == seq![
            "Tugas Akhir"@,
            "Proposal Tugas Akhir"@,
            "Kerja Praktik"@,
            "Magang"@,
            "Etika Profesi"@,
        ],
{
    let v = vec![
        String::from_str("Tugas Akhir"),
        String::from_str("Proposal Tugas Akhir"),
        String::from_str("Kerja Praktik"),
        String::from_str("Magang"),
        String::from_str("Etika Profesi"),
    ];
    assert(views(v@) =~= seq![
        "Tugas Akhir"@,
        "Proposal Tugas Akhir"@,
        "Kerja Praktik"@,
        "Magang"@,
        "Etika Profesi"@,
    ]);
    v
}

} // verus!
