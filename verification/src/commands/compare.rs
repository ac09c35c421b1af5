use vstd::prelude::*;

use crate::db::repository::class::{
    entry_values, has_key, key_index, key_of, lemma_key_index_unique, schedule_views, unique_keys, ClassFromSchedule,
    ClassMap, ScheduleView,
};
use crate::text::views;
use vstd::multiset::Multiset;

verus! {

broadcast use vstd::seq_lib::group_to_multiset_ensures, vstd::multiset::group_multiset_axioms;

/// Same subject, class code, session and day.
pub open spec fn same_slot(db_class: ScheduleView, excel_class: ScheduleView) -> bool {
    &&& db_class.subject_name == excel_class.subject_name
    &&& db_class.class_code == excel_class.class_code
    &&& db_class.session_start == excel_class.session_start
    &&& db_class.day == excel_class.day
}

/// The two lists hold the same lecturer codes, each as many times, in any
/// order.
pub open spec fn same_lecturers(db_class: ScheduleView, excel_class: ScheduleView) -> bool {
    db_class.lecturer_code.to_multiset() == excel_class.lecturer_code.to_multiset()
}

/// Two schedule entries describe the same class: same slot and the same
/// lecturers in any order.
pub open spec fn same_class(db_class: ScheduleView, excel_class: ScheduleView) -> bool {
    same_slot(db_class, excel_class) && same_lecturers(db_class, excel_class)
}

/// The state of a comparison after some of the Excel classes: the classes
/// added so far, the changed (database, Excel) pairs so far, and the database
/// entries not yet matched.
pub type CompareState = (Seq<ScheduleView>, Seq<(ScheduleView, ScheduleView)>, Seq<((Seq<char>, Seq<char>), ScheduleView)>);

/// The comparison after the first `n` Excel classes: a class whose key is in
/// the database takes that entry out, and is a change when it is not the same
/// class; a class whose key is not there is added.
pub open spec fn compare_upto(
    excel: Seq<ScheduleView>,
    db: Seq<((Seq<char>, Seq<char>), ScheduleView)>,
    n: int,
) -> CompareState
    decreases n,
{
    if n <= 0 {
        (Seq::empty(), Seq::empty(), db)
    } else {
        let (added, changed, rest) = compare_upto(excel, db, n - 1);
        let x = excel[n - 1];
        if has_key(rest, key_of(x)) {
            let i = key_index(rest, key_of(x));
            let d = rest[i].1;
            (added, if same_class(d, x) { changed } else { changed.push((d, x)) }, rest.remove(i))
        } else {
            (added.push(x), changed, rest)
        }
    }
}

pub open spec fn pair_views(v: Seq<(ClassFromSchedule, ClassFromSchedule)>) -> Seq<(ScheduleView, ScheduleView)> {
    Seq::new(v.len(), |i: int| (v[i].0@, v[i].1@))
}

/// Whether the comparison found nothing added, changed or deleted.
pub fn is_schedule_sync(
    added: &[ClassFromSchedule],
    changed: &[ClassFromSchedule],
    deleted: &[(ClassFromSchedule, ClassFromSchedule)],
) -> (b: bool)
    ensures
        b == (added@.len() == 0 && changed@.len() == 0 && deleted@.len() == 0),
{
    added.len() == 0 && changed.len() == 0 && deleted.len() == 0
}

/// Whether the two entries have the same slot and `cmp_lecs` holds.
pub fn is_same_class(db_class: &ClassFromSchedule, excel_class: &ClassFromSchedule, cmp_lecs: bool) -> (b: bool)
    ensures
        b == (same_slot(db_class@, excel_class@) && cmp_lecs),
{
    db_class.subject_name == excel_class.subject_name && db_class.class_code == excel_class.class_code
        && db_class.session_start == excel_class.session_start && db_class.day == excel_class.day && cmp_lecs
}

proof fn lemma_prefix_count(s: Seq<Seq<char>>, k: int, x: Seq<char>)
    requires
        0 <= k <= s.len(),
    ensures
        s.take(k).to_multiset().count(x) <= s.to_multiset().count(x),
    decreases s.len() - k,
{
    if k < s.len() {
        assert(s.take(k + 1) =~= s.take(k).push(s[k]));
        lemma_prefix_count(s, k + 1, x);
    } else {
        assert(s.take(k) =~= s);
    }
}

/// The first index of `x` in `v`.
fn position_of(v: &Vec<String>, x: &String) -> (r: Option<usize>)
    ensures
        match r {
            Some(j) => j < v@.len() && v@[j as int]@ == x@,
            None => forall|m: int| 0 <= m < v@.len() ==> #[trigger] v@[m]@ != x@,
        },
{
    let mut j: usize = 0;
    while j < v.len()
        invariant
            j <= v@.len(),
            forall|m: int| 0 <= m < j ==> #[trigger] v@[m]@ != x@,
        decreases v.len() - j,
    {
        if v[j] == *x {
            return Some(j);
        }
        j += 1;
    }
    None
}

/// Whether the two lists hold the same codes, each as many times.
fn same_codes(a: &Vec<String>, b: &Vec<String>) -> (res: bool)
    ensures
        res == (views(a@).to_multiset() == views(b@).to_multiset()),
{
    if a.len() != b.len() {
        proof {
            assert(views(a@).to_multiset().len() == views(a@).len());
            assert(views(b@).to_multiset().len() == views(b@).len());
        }
        return false;
    }
    let mut rest: Vec<String> = Vec::new();
    let mut k: usize = 0;
    while k < b.len()
        invariant
            k <= b@.len(),
            views(rest@) == views(b@).take(k as int),
        decreases b.len() - k,
    {
        let ghost old_rest = rest@;
        assert(views(old_rest).len() == k);
        rest.push(b[k].clone());
        assert forall|m: int| 0 <= m < k + 1 implies #[trigger] views(rest@)[m] == views(b@).take(k + 1)[m] by {
            if m < k {
                assert(views(old_rest)[m] == old_rest[m]@);
            }
        }
        assert(views(rest@) =~= views(b@).take(k + 1));
        k += 1;
    }
    assert(views(b@).take(b@.len() as int) =~= views(b@));
    let mut i: usize = 0;
    while i < a.len()
        invariant
            i <= a@.len() == b@.len(),
            rest@.len() + i == b@.len(),
            views(a@).take(i as int).to_multiset().add(views(rest@).to_multiset()) == views(b@).to_multiset(),
        decreases a.len() - i,
    {
        let x = &a[i];
        let ghost xv = a@[i as int]@;
        assert(views(a@)[i as int] == xv);
        let found = position_of(&rest, x);
        if found.is_none() {
            proof {
                assert forall|m: int| 0 <= m < views(rest@).len() implies views(rest@)[m] != xv by {
                    assert(views(rest@)[m] == rest@[m]@);
                }
                assert(!views(rest@).contains(xv));
                assert(views(rest@).to_multiset().count(xv) == 0);
                assert(views(a@).take(i + 1) =~= views(a@).take(i as int).push(xv));
                lemma_prefix_count(views(a@), i + 1, xv);
            }
            return false;
        }
        let j = found.unwrap();
        let ghost before = views(rest@);
        assert(before[j as int] == rest@[j as int]@);
        assert(before[j as int] == xv);
        rest.remove(j);
        assert(views(rest@) =~= before.remove(j as int));
        assert(views(a@).take(i + 1) =~= views(a@).take(i as int).push(xv));
        assert(views(a@).take(i + 1).to_multiset().add(views(rest@).to_multiset()) =~= views(b@).to_multiset());
        i += 1;
    }
    assert(views(a@).take(a@.len() as int) =~= views(a@));
    assert(views(rest@).to_multiset() =~= Multiset::empty());
    assert(views(a@).to_multiset().add(Multiset::empty()) =~= views(a@).to_multiset());
    true
}

/// Whether the database entry and the Excel entry describe the same class:
/// same slot, and the same lecturer codes in any order.
pub fn compare_class(db_class: &ClassFromSchedule, excel_class: &ClassFromSchedule) -> (b: bool)
    ensures
        b == same_class(db_class@, excel_class@),
{
    let cmp_lecs = same_codes(&db_class.lecturer_code, &excel_class.lecturer_code);
    is_same_class(db_class, excel_class, cmp_lecs)
}

/// Compares the classes of the Excel schedule with those of the database:
/// returns the added classes, the deleted database entries and the changed
/// (database, Excel) pairs.
pub fn compare_schedule(excel_classes: Vec<ClassFromSchedule>, db_classes: ClassMap) -> (res: (
    Vec<ClassFromSchedule>,
    Vec<ClassFromSchedule>,
    Vec<(ClassFromSchedule, ClassFromSchedule)>,
))
    ensures
        ({
            let (added, changed, rest) = compare_upto(
                schedule_views(excel_classes@),
                db_classes@,
                excel_classes@.len() as int,
            );
            &&& schedule_views(res.0@) == added
            &&& schedule_views(res.1@) == entry_values(rest)
            &&& pair_views(res.2@) == changed
        }),
{
    let ghost excel = schedule_views(excel_classes@);
    let ghost db = db_classes@;
    let mut db_classes = db_classes;
    let mut excel_classes = excel_classes;
    let mut added: Vec<ClassFromSchedule> = Vec::new();
    let mut changed: Vec<(ClassFromSchedule, ClassFromSchedule)> = Vec::new();
    let total = excel_classes.len();
    let mut n: usize = 0;
    while excel_classes.len() > 0
        invariant
            n + excel_classes@.len() == total == excel.len(),
            schedule_views(excel_classes@) == excel.skip(n as int),
            ({
                let (a, ch, rest) = compare_upto(excel, db, n as int);
                &&& schedule_views(added@) == a
                &&& pair_views(changed@) == ch
                &&& db_classes@ == rest
            }),
        decreases excel_classes@.len(),
    {
        let ghost before = schedule_views(excel_classes@);
        let excel_class = excel_classes.remove(0);
        assert(excel_class@ == excel[n as int]) by {
            assert(before[0] == excel_class@);
        }
        assert forall|m: int| 0 <= m < excel_classes@.len() implies #[trigger] schedule_views(excel_classes@)[m] == excel.skip(n + 1)[m] by {
            assert(before[m + 1] == excel.skip(n as int)[m + 1]);
        }
        assert(schedule_views(excel_classes@) =~= excel.skip(n + 1));
        let key = (excel_class.subject_name.clone(), excel_class.class_code.clone());
        let ghost (a0, ch0, rest0) = compare_upto(excel, db, n as int);
        match db_classes.remove(&key) {
            Some(db_class) => {
                let same = compare_class(&db_class, &excel_class);
                if !same {
                    changed.push((db_class, excel_class));
                    assert(pair_views(changed@) =~= ch0.push((db_class@, excel[n as int])));
                }
            },
            None => {
                added.push(excel_class);
                assert(schedule_views(added@) =~= a0.push(excel[n as int]));
            },
        }
        n += 1;
    }
    let deleted = db_classes.into_values();
    proof {
        assert(schedule_views(deleted@) =~= deleted@.map_values(|x: ClassFromSchedule| x@));
    }
    (added, deleted, changed)
}


/// Comparing classes does not depend on which one comes from the database:
/// `same_class(a, b) == same_class(b, a)`.
pub proof fn lemma_same_class_symmetric(a: ScheduleView, b: ScheduleView)
    ensures
        same_class(a, b) == same_class(b, a),
{
}

/// Every class is the same class as itself, whatever the order of its
/// lecturers: entries that differ only in the order of their lecturer codes
/// are the same class.
pub proof fn lemma_same_class_reordered(a: ScheduleView, b: ScheduleView)
    requires
        same_slot(a, b),
        a.lecturer_code.to_multiset() == b.lecturer_code.to_multiset(),
    ensures
        same_class(a, b),
        same_class(a, a),
{
}

/// Every Excel class is either added or takes out one database entry, and
/// every database entry is either taken out or deleted: the number of added
/// classes plus the number of database entries equals the number of Excel
/// classes plus the number of deleted entries.
pub proof fn lemma_compare_counts(excel: Seq<ScheduleView>, db: Seq<((Seq<char>, Seq<char>), ScheduleView)>)
    ensures
        ({
            let (added, changed, rest) = compare_upto(excel, db, excel.len() as int);
            added.len() + db.len() == excel.len() + rest.len()
        }),
{
    lemma_compare_counts_upto(excel, db, excel.len() as int);
}

proof fn lemma_compare_counts_upto(excel: Seq<ScheduleView>, db: Seq<((Seq<char>, Seq<char>), ScheduleView)>, n: int)
    requires
        0 <= n <= excel.len(),
    ensures
        ({
            let (added, changed, rest) = compare_upto(excel, db, n);
            &&& added.len() + db.len() == n + rest.len()
            &&& changed.len() <= n
        }),
    decreases n,
{
    if n > 0 {
        lemma_compare_counts_upto(excel, db, n - 1);
    }
}

/// Every changed pair holds a database entry and an Excel class that are
/// not the same class.
pub proof fn lemma_changed_differ(excel: Seq<ScheduleView>, db: Seq<((Seq<char>, Seq<char>), ScheduleView)>)
    ensures
        ({
            let (added, changed, rest) = compare_upto(excel, db, excel.len() as int);
            forall|j: int| 0 <= j < changed.len() ==> !same_class(#[trigger] changed[j].0, changed[j].1)
        }),
{
    lemma_changed_differ_upto(excel, db, excel.len() as int);
}

proof fn lemma_changed_differ_upto(excel: Seq<ScheduleView>, db: Seq<((Seq<char>, Seq<char>), ScheduleView)>, n: int)
    ensures
        ({
            let (added, changed, rest) = compare_upto(excel, db, n);
            forall|j: int| 0 <= j < changed.len() ==> !same_class(#[trigger] changed[j].0, changed[j].1)
        }),
    decreases n,
{
    if n > 0 {
        lemma_changed_differ_upto(excel, db, n - 1);
        let (added, changed, rest) = compare_upto(excel, db, n - 1);
        let x = excel[n - 1];
        if has_key(rest, key_of(x)) {
            let d = rest[key_index(rest, key_of(x))].1;
            if !same_class(d, x) {
                let ch2 = changed.push((d, x));
                assert forall|j: int| 0 <= j < ch2.len() implies !same_class(#[trigger] ch2[j].0, ch2[j].1) by {
                    if j < changed.len() {
                        assert(ch2[j] == changed[j]);
                    }
                }
            }
        }
    }
}

proof fn lemma_remove_keeps_unique(es: Seq<((Seq<char>, Seq<char>), ScheduleView)>, i: int)
    requires
        unique_keys(es),
        0 <= i < es.len(),
    ensures
        unique_keys(es.remove(i)),
        forall|j: int| 0 <= j < es.remove(i).len() ==> #[trigger] es.remove(i)[j].0 != es[i].0,
{
    let r = es.remove(i);
    assert forall|a: int, b: int| 0 <= a < r.len() && 0 <= b < r.len() && a != b implies #[trigger] r[a].0 != #[trigger] r[b].0 by {
        let a2 = if a < i { a } else { a + 1 };
        let b2 = if b < i { b } else { b + 1 };
        assert(es[a2].0 != es[b2].0);
    }
    assert forall|j: int| 0 <= j < r.len() implies #[trigger] r[j].0 != es[i].0 by {
        let j2 = if j < i { j } else { j + 1 };
        assert(es[j2].0 != es[i].0);
    }
}

/// A deleted database entry is one whose (subject name, class code) key is
/// the key of no class of the Excel schedule.
pub proof fn lemma_deleted_not_in_excel(excel: Seq<ScheduleView>, db: Seq<((Seq<char>, Seq<char>), ScheduleView)>)
    requires
        unique_keys(db),
    ensures
        ({
            let (added, changed, rest) = compare_upto(excel, db, excel.len() as int);
            forall|d: int, k: int| 0 <= d < rest.len() && 0 <= k < excel.len() ==> #[trigger] rest[d].0 != key_of(#[trigger] excel[k])
        }),
{
    lemma_deleted_not_in_excel_upto(excel, db, excel.len() as int);
}

proof fn lemma_deleted_not_in_excel_upto(excel: Seq<ScheduleView>, db: Seq<((Seq<char>, Seq<char>), ScheduleView)>, n: int)
    requires
        unique_keys(db),
        0 <= n <= excel.len(),
    ensures
        ({
            let (added, changed, rest) = compare_upto(excel, db, n);
            &&& unique_keys(rest)
            &&& forall|d: int, k: int| 0 <= d < rest.len() && 0 <= k < n ==> #[trigger] rest[d].0 != key_of(#[trigger] excel[k])
        }),
    decreases n,
{
    if n > 0 {
        lemma_deleted_not_in_excel_upto(excel, db, n - 1);
        let (added, changed, rest) = compare_upto(excel, db, n - 1);
        let x = excel[n - 1];
        if has_key(rest, key_of(x)) {
            let i = key_index(rest, key_of(x));
            lemma_remove_keeps_unique(rest, i);
            let r = rest.remove(i);
            assert forall|d: int, k: int| 0 <= d < r.len() && 0 <= k < n implies #[trigger] r[d].0 != key_of(#[trigger] excel[k]) by {
                if k < n - 1 {
                    let d2 = if d < i { d } else { d + 1 };
                    assert(r[d] == rest[d2]);
                }
            }
        } else {
            assert forall|d: int, k: int| 0 <= d < rest.len() && 0 <= k < n implies #[trigger] rest[d].0 != key_of(#[trigger] excel[k]) by {
                if k == n - 1 {
                    assert(!(rest[d].0 == key_of(x)));
                }
            }
        }
    }
}

/// Comparing with an empty database adds every Excel class, in order, and
/// finds nothing changed or deleted.
pub proof fn lemma_compare_empty_db(excel: Seq<ScheduleView>)
    ensures
        compare_upto(excel, Seq::empty(), excel.len() as int) == (
            excel,
            Seq::<(ScheduleView, ScheduleView)>::empty(),
            Seq::<((Seq<char>, Seq<char>), ScheduleView)>::empty(),
        ),
{
    lemma_compare_empty_db_upto(excel, excel.len() as int);
    assert(excel.take(excel.len() as int) =~= excel);
}

proof fn lemma_compare_empty_db_upto(excel: Seq<ScheduleView>, n: int)
    requires
        0 <= n <= excel.len(),
    ensures
        compare_upto(excel, Seq::empty(), n) == (
            excel.take(n),
            Seq::<(ScheduleView, ScheduleView)>::empty(),
            Seq::<((Seq<char>, Seq<char>), ScheduleView)>::empty(),
        ),
    decreases n,
{
    if n > 0 {
        lemma_compare_empty_db_upto(excel, n - 1);
        let empty = Seq::<((Seq<char>, Seq<char>), ScheduleView)>::empty();
        assert(!has_key(empty, key_of(excel[n - 1])));
        assert(excel.take(n - 1).push(excel[n - 1]) =~= excel.take(n));
    } else {
        assert(excel.take(0) =~= Seq::<ScheduleView>::empty());
    }
}

/// Comparing an empty Excel schedule with a database deletes every database
/// entry and finds nothing added or changed.
pub proof fn lemma_compare_empty_excel(db: Seq<((Seq<char>, Seq<char>), ScheduleView)>)
    ensures
        compare_upto(Seq::empty(), db, 0) == (
            Seq::<ScheduleView>::empty(),
            Seq::<(ScheduleView, ScheduleView)>::empty(),
            db,
        ),
{
}

/// No two classes share a (subject name, class code) key.
pub open spec fn distinct_keys(classes: Seq<ScheduleView>) -> bool {
    forall|i: int, j: int|
        0 <= i < classes.len() && 0 <= j < classes.len() && i != j ==> key_of(#[trigger] classes[i]) != key_of(
            #[trigger] classes[j],
        )
}

/// `e` is one of the entries of `es`.
pub open spec fn entry_in(es: Seq<((Seq<char>, Seq<char>), ScheduleView)>, e: ((Seq<char>, Seq<char>), ScheduleView)) -> bool {
    exists|d: int| 0 <= d < es.len() && es[d] == e
}

/// `k` is the key of one of the first `n` classes.
pub open spec fn key_in_prefix(classes: Seq<ScheduleView>, n: int, k: (Seq<char>, Seq<char>)) -> bool {
    exists|i: int| 0 <= i < n && #[trigger] key_of(classes[i]) == k
}

/// The database entry under key `k`.
pub open spec fn db_value(db: Seq<((Seq<char>, Seq<char>), ScheduleView)>, k: (Seq<char>, Seq<char>)) -> ScheduleView {
    db[key_index(db, k)].1
}

/// The Excel schedule and the database agree: they have the same keys, and
/// each Excel class is the same class as the database entry under its key.
pub open spec fn schedules_agree(excel: Seq<ScheduleView>, db: Seq<((Seq<char>, Seq<char>), ScheduleView)>) -> bool {
    &&& forall|i: int|
        0 <= i < excel.len() ==> has_key(db, key_of(#[trigger] excel[i])) && same_class(
            db_value(db, key_of(excel[i])),
            excel[i],
        )
    &&& forall|d: int| 0 <= d < db.len() ==> key_in_prefix(excel, excel.len() as int, #[trigger] db[d].0)
}

/// What the comparison after the first `n` Excel classes holds, when the
/// Excel keys are distinct and the database keys unique: the entries left are
/// database entries with unique keys, exactly those whose keys are not among
/// the first `n` Excel keys; nothing is added so far exactly when every
/// class so far has its key in the database; nothing is changed so far
/// exactly when every class so far that is there is the same class as its
/// entry.
proof fn lemma_compare_track(excel: Seq<ScheduleView>, db: Seq<((Seq<char>, Seq<char>), ScheduleView)>, n: int)
    requires
        distinct_keys(excel),
        unique_keys(db),
        0 <= n <= excel.len(),
    ensures
        ({
            let (added, changed, rest) = compare_upto(excel, db, n);
            &&& unique_keys(rest)
            &&& forall|a: int| 0 <= a < rest.len() ==> entry_in(db, #[trigger] rest[a])
            &&& forall|k: (Seq<char>, Seq<char>)|
                #![trigger has_key(rest, k)]
                #![trigger has_key(db, k)]
                has_key(rest, k) == (has_key(db, k) && !key_in_prefix(excel, n, k))
            &&& (added.len() == 0) == (forall|i: int| 0 <= i < n ==> has_key(db, #[trigger] key_of(excel[i])))
            &&& (changed.len() == 0) == (forall|i: int|
                0 <= i < n ==> has_key(db, #[trigger] key_of(excel[i])) ==> same_class(db_value(db, key_of(excel[i])), excel[i]))
        }),
    decreases n,
{
    if n == 0 {
        let (added, changed, rest) = compare_upto(excel, db, n);
        assert(rest == db);
        assert forall|a: int| 0 <= a < rest.len() implies entry_in(db, #[trigger] rest[a]) by {
            assert(rest[a] == db[a]);
        }
    } else {
        lemma_compare_track(excel, db, n - 1);
        let (added, changed, rest) = compare_upto(excel, db, n - 1);
        let x = excel[n - 1];
        let kx = key_of(x);
        assert(!key_in_prefix(excel, n - 1, kx)) by {
            if key_in_prefix(excel, n - 1, kx) {
                let i = choose|i: int| 0 <= i < n - 1 && #[trigger] key_of(excel[i]) == kx;
                assert(key_of(excel[i]) != key_of(excel[n - 1]));
            }
        }
        assert forall|k: (Seq<char>, Seq<char>)| #[trigger] key_in_prefix(excel, n, k) == (key_in_prefix(excel, n - 1, k) || k == kx) by {
            if key_in_prefix(excel, n, k) {
                let i = choose|i: int| 0 <= i < n && #[trigger] key_of(excel[i]) == k;
                if i < n - 1 {
                    assert(key_in_prefix(excel, n - 1, k));
                }
            }
            if k == kx {
                assert(key_of(excel[n - 1]) == k);
            }
            if key_in_prefix(excel, n - 1, k) {
                let i = choose|i: int| 0 <= i < n - 1 && #[trigger] key_of(excel[i]) == k;
                assert(key_of(excel[i]) == k);
            }
        }
        if has_key(db, kx) {
            assert(has_key(rest, kx));
            let i = key_index(rest, kx);
            assert(entry_in(db, rest[i]));
            let d = choose|d: int| 0 <= d < db.len() && db[d] == rest[i];
            lemma_key_index_unique(db, d);
            assert(rest[i].1 == db_value(db, kx));
            lemma_remove_keeps_unique(rest, i);
            let r = rest.remove(i);
            assert forall|a: int| 0 <= a < r.len() implies entry_in(db, #[trigger] r[a]) by {
                let a2 = if a < i { a } else { a + 1 };
                assert(r[a] == rest[a2]);
                assert(entry_in(db, rest[a2]));
            }
            assert forall|k: (Seq<char>, Seq<char>)| #[trigger] has_key(r, k) == (has_key(rest, k) && k != kx) by {
                if has_key(r, k) {
                    let a = choose|a: int| 0 <= a < r.len() && #[trigger] r[a].0 == k;
                    let a2 = if a < i { a } else { a + 1 };
                    assert(rest[a2].0 == k);
                    assert(r[a].0 != rest[i].0);
                }
                if has_key(rest, k) && k != kx {
                    let a = choose|a: int| 0 <= a < rest.len() && #[trigger] rest[a].0 == k;
                    assert(a != i);
                    let a1 = if a < i { a } else { a - 1 };
                    assert(r[a1].0 == k);
                }
            }
            assert forall|k: (Seq<char>, Seq<char>)|
                #![trigger has_key(r, k)]
                #![trigger has_key(db, k)]
                has_key(r, k) == (has_key(db, k) && !key_in_prefix(excel, n, k)) by {
                assert(has_key(r, k) == (has_key(rest, k) && k != kx));
                assert(has_key(rest, k) == (has_key(db, k) && !key_in_prefix(excel, n - 1, k)));
                assert(key_in_prefix(excel, n, k) == (key_in_prefix(excel, n - 1, k) || k == kx));
            }
            let (added2, changed2, rest2) = compare_upto(excel, db, n);
            assert(rest2 == r);
            assert(added2 == added);
            assert((changed2.len() == 0) == (changed.len() == 0 && same_class(db_value(db, kx), x)));
            assert((forall|j: int| 0 <= j < n ==> has_key(db, #[trigger] key_of(excel[j]))) == (forall|j: int|
                0 <= j < n - 1 ==> has_key(db, #[trigger] key_of(excel[j]))));
            assert((forall|j: int|
                0 <= j < n ==> has_key(db, #[trigger] key_of(excel[j])) ==> same_class(db_value(db, key_of(excel[j])), excel[j]))
                == ((forall|j: int|
                0 <= j < n - 1 ==> has_key(db, #[trigger] key_of(excel[j])) ==> same_class(db_value(db, key_of(excel[j])), excel[j]))
                && same_class(db_value(db, kx), x)));
        } else {
            assert(!has_key(rest, kx));
            let (added2, changed2, rest2) = compare_upto(excel, db, n);
            assert(rest2 == rest);
            assert forall|a: int| 0 <= a < rest2.len() implies entry_in(db, #[trigger] rest2[a]) by {
                assert(rest2[a] == rest[a]);
                assert(entry_in(db, rest[a]));
            }
            assert(added2.len() > 0);
            assert(!(forall|j: int| 0 <= j < n ==> has_key(db, #[trigger] key_of(excel[j])))) by {
                assert(!has_key(db, key_of(excel[n - 1])));
            }
            assert((forall|j: int|
                0 <= j < n ==> has_key(db, #[trigger] key_of(excel[j])) ==> same_class(db_value(db, key_of(excel[j])), excel[j]))
                == (forall|j: int|
                0 <= j < n - 1 ==> has_key(db, #[trigger] key_of(excel[j])) ==> same_class(db_value(db, key_of(excel[j])), excel[j])));
            assert forall|k: (Seq<char>, Seq<char>)|
                #![trigger has_key(rest2, k)]
                #![trigger has_key(db, k)]
                has_key(rest2, k) == (has_key(db, k) && !key_in_prefix(excel, n, k)) by {
                assert(key_in_prefix(excel, n, k) == (key_in_prefix(excel, n - 1, k) || k == kx));
            }
        }
    }
}

/// When no two Excel classes share a key (and the database, as a
/// `ClassMap`, holds each key once), the comparison finds nothing added,
/// changed or deleted exactly when the schedules agree: the same keys, and
/// each Excel class the same class as the database entry under its key.
pub proof fn lemma_compare_sync_exactly(excel: Seq<ScheduleView>, db: Seq<((Seq<char>, Seq<char>), ScheduleView)>)
    requires
        distinct_keys(excel),
        unique_keys(db),
    ensures
        ({
            let (added, changed, rest) = compare_upto(excel, db, excel.len() as int);
            (added.len() == 0 && changed.len() == 0 && rest.len() == 0) == schedules_agree(excel, db)
        }),
{
    let n = excel.len() as int;
    lemma_compare_track(excel, db, n);
    let (added, changed, rest) = compare_upto(excel, db, n);
    if rest.len() == 0 {
        assert forall|d: int| 0 <= d < db.len() implies key_in_prefix(excel, n, #[trigger] db[d].0) by {
            assert(has_key(db, db[d].0));
            if !key_in_prefix(excel, n, db[d].0) {
                assert(has_key(rest, db[d].0));
            }
        }
    } else {
        let k = rest[0].0;
        assert(has_key(rest, k));
        assert(has_key(db, k));
        let d = choose|d: int| 0 <= d < db.len() && #[trigger] db[d].0 == k;
        assert(!key_in_prefix(excel, n, db[d].0));
    }
    if added.len() == 0 && changed.len() == 0 {
        assert forall|i: int| 0 <= i < n implies has_key(db, key_of(#[trigger] excel[i])) && same_class(
            db_value(db, key_of(excel[i])),
            excel[i],
        ) by {
            assert(has_key(db, key_of(excel[i])));
        }
    }
    if schedules_agree(excel, db) {
        assert forall|i: int| 0 <= i < n implies has_key(db, #[trigger] key_of(excel[i])) by {
            assert(has_key(db, key_of(excel[i])) && same_class(db_value(db, key_of(excel[i])), excel[i]));
        }
    }
}

/// Comparing a schedule whose classes have distinct keys with a database
/// that holds, in any order, an entry under each of their keys and no other,
/// each entry the same class as the Excel class with its key (its lecturer
/// codes in any order), finds nothing added, changed or deleted.
pub proof fn lemma_compare_same_schedule(classes: Seq<ScheduleView>, db: Seq<((Seq<char>, Seq<char>), ScheduleView)>)
    requires
        distinct_keys(classes),
        unique_keys(db),
        schedules_agree(classes, db),
    ensures
        compare_upto(classes, db, classes.len() as int) == (
            Seq::<ScheduleView>::empty(),
            Seq::<(ScheduleView, ScheduleView)>::empty(),
            Seq::<((Seq<char>, Seq<char>), ScheduleView)>::empty(),
        ),
{
    lemma_compare_sync_exactly(classes, db);
    let (added, changed, rest) = compare_upto(classes, db, classes.len() as int);
    assert(added =~= Seq::<ScheduleView>::empty());
    assert(changed =~= Seq::<(ScheduleView, ScheduleView)>::empty());
    assert(rest =~= Seq::<((Seq<char>, Seq<char>), ScheduleView)>::empty());
}

} // verus!
