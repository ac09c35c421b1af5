//! Character-level text operations used by the schedule parsers, each with
//! the meaning of the `str` operation it stands for.
use vstd::prelude::*;

verus! {

broadcast use vstd::string::group_string_axioms;

// ---------------------------------------------------------------------------
// Specifications
// ---------------------------------------------------------------------------

/// `char::is_ascii_whitespace`: space, tab, line feed, form feed, carriage return.
pub open spec fn is_ascii_ws(c: char) -> bool {
    c == ' ' || c == '\t' || c == '\n' || c == '\x0C' || c == '\r'
}

/// `char::is_whitespace`: the Unicode `White_Space` property.
pub open spec fn is_white_space(c: char) -> bool {
    ||| c == ' '
    ||| ('\t' <= c && c <= '\r')
    ||| c == '\u{85}'
    ||| c == '\u{A0}'
    ||| c == '\u{1680}'
    ||| ('\u{2000}' <= c && c <= '\u{200A}')
    ||| c == '\u{2028}'
    ||| c == '\u{2029}'
    ||| c == '\u{202F}'
    ||| c == '\u{205F}'
    ||| c == '\u{3000}'
}

/// The pieces of `s` between occurrences of `sep` (`str::split` with a
/// `char` pattern): there is always at least one piece.
pub open spec fn split_on(s: Seq<char>, sep: char) -> Seq<Seq<char>>
    decreases s.len(),
{
    if s.len() == 0 {
        seq![Seq::<char>::empty()]
    } else {
        let prev = split_on(s.drop_last(), sep);
        if s.last() == sep {
            prev.push(Seq::<char>::empty())
        } else {
            prev.update(prev.len() - 1, prev.last().push(s.last()))
        }
    }
}

/// The pieces of `s` between ASCII whitespace characters, empty ones included.
pub open spec fn split_ascii_ws(s: Seq<char>) -> Seq<Seq<char>>
    decreases s.len(),
{
    if s.len() == 0 {
        seq![Seq::<char>::empty()]
    } else {
        let prev = split_ascii_ws(s.drop_last());
        if is_ascii_ws(s.last()) {
            prev.push(Seq::<char>::empty())
        } else {
            prev.update(prev.len() - 1, prev.last().push(s.last()))
        }
    }
}

/// The non-empty strings of `ps`, in order.
pub open spec fn non_empty(ps: Seq<Seq<char>>) -> Seq<Seq<char>>
    decreases ps.len(),
{
    if ps.len() == 0 {
        Seq::<Seq<char>>::empty()
    } else if ps.last().len() > 0 {
        non_empty(ps.drop_last()).push(ps.last())
    } else {
        non_empty(ps.drop_last())
    }
}

/// `str::split_ascii_whitespace`: the maximal runs of characters that are
/// not ASCII whitespace.
pub open spec fn words(s: Seq<char>) -> Seq<Seq<char>> {
    non_empty(split_ascii_ws(s))
}

/// `str::trim_start`.
pub open spec fn trim_start(s: Seq<char>) -> Seq<char>
    decreases s.len(),
{
    if s.len() > 0 && is_white_space(s[0]) {
        trim_start(s.drop_first())
    } else {
        s
    }
}

/// `str::trim_end`.
pub open spec fn trim_end(s: Seq<char>) -> Seq<char>
    decreases s.len(),
{
    if s.len() > 0 && is_white_space(s.last()) {
        trim_end(s.drop_last())
    } else {
        s
    }
}

/// `str::trim`: leading and trailing whitespace removed.
pub open spec fn trim(s: Seq<char>) -> Seq<char> {
    trim_end(trim_start(s))
}

/// `pat` occurs in `s` starting at index `i`.
pub open spec fn matches_at(s: Seq<char>, pat: Seq<char>, i: int) -> bool {
    0 <= i && i + pat.len() <= s.len() && s.subrange(i, i + pat.len()) == pat
}

/// `str::contains` with a string pattern.
pub open spec fn has_sub(s: Seq<char>, pat: Seq<char>) -> bool {
    exists|i: int| matches_at(s, pat, i)
}

/// `i` is where the first occurrence of `pat` in `s` starts.
pub open spec fn is_first_match(s: Seq<char>, pat: Seq<char>, i: int) -> bool {
    matches_at(s, pat, i) && forall|j: int| 0 <= j < i ==> !matches_at(s, pat, j)
}

/// The first piece of `str::split` with a string pattern (`.next()` or
/// `.nth(0)` of the split): `s` up to the first occurrence of `pat`, or all of
/// `s` when `pat` does not occur.
pub open spec fn first_piece(s: Seq<char>, pat: Seq<char>) -> Seq<char> {
    if has_sub(s, pat) {
        s.take(choose|i: int| is_first_match(s, pat, i))
    } else {
        s
    }
}

/// The pieces joined with `sep` between consecutive ones (`[&str]::join`).
pub open spec fn join(ps: Seq<Seq<char>>, sep: Seq<char>) -> Seq<char>
    decreases ps.len(),
{
    if ps.len() == 0 {
        Seq::<char>::empty()
    } else if ps.len() == 1 {
        ps[0]
    } else {
        join(ps.drop_last(), sep) + sep + ps.last()
    }
}

/// The number of bytes of `c` in UTF-8.
pub open spec fn utf8_char_len(c: char) -> nat {
    if (c as u32) < 0x80 {
        1
    } else if (c as u32) < 0x800 {
        2
    } else if (c as u32) < 0x10000 {
        3
    } else {
        4
    }
}

/// `str::len`: the number of bytes of `s` in UTF-8.
pub open spec fn utf8_len(s: Seq<char>) -> nat
    decreases s.len(),
{
    if s.len() == 0 {
        0
    } else {
        utf8_len(s.drop_last()) + utf8_char_len(s.last())
    }
}

/// The views of a sequence of strings.
pub open spec fn views(v: Seq<String>) -> Seq<Seq<char>> {
    Seq::new(v.len(), |i: int| v[i]@)
}

// ---------------------------------------------------------------------------
// Lemmas
// ---------------------------------------------------------------------------

pub proof fn lemma_split_on_nonempty(s: Seq<char>, sep: char)
    ensures
        split_on(s, sep).len() >= 1,
    decreases s.len(),
{
    if s.len() > 0 {
        lemma_split_on_nonempty(s.drop_last(), sep);
    }
}

pub proof fn lemma_split_ascii_ws_nonempty(s: Seq<char>)
    ensures
        split_ascii_ws(s).len() >= 1,
    decreases s.len(),
{
    if s.len() > 0 {
        lemma_split_ascii_ws_nonempty(s.drop_last());
    }
}

/// A string that holds the separator splits into at least two pieces.
pub proof fn lemma_split_on_contains(s: Seq<char>, sep: char)
    requires
        s.contains(sep),
    ensures
        split_on(s, sep).len() >= 2,
    decreases s.len(),
{
    lemma_split_on_nonempty(s, sep);
    if s.last() != sep {
        let i = choose|i: int| 0 <= i < s.len() && s[i] == sep;
        assert(s.drop_last()[i] == sep);
        lemma_split_on_contains(s.drop_last(), sep);
    } else {
        lemma_split_on_nonempty(s.drop_last(), sep);
    }
}

proof fn lemma_trim_start_skip(s: Seq<char>, a: int)
    requires
        0 <= a <= s.len(),
        forall|k: int| 0 <= k < a ==> is_white_space(#[trigger] s[k]),
        a == s.len() || !is_white_space(s[a]),
    ensures
        trim_start(s) == s.skip(a),
    decreases a,
{
    if a == 0 {
        assert(s.skip(0) =~= s);
    } else {
        let t = s.drop_first();
        assert forall|k: int| 0 <= k < a - 1 implies is_white_space(#[trigger] t[k]) by {
            assert(t[k] == s[k + 1]);
        }
        if a - 1 < t.len() {
            assert(t[a - 1] == s[a]);
        }
        lemma_trim_start_skip(t, a - 1);
        assert(t.skip(a - 1) =~= s.skip(a));
    }
}

proof fn lemma_trim_end_take(s: Seq<char>, b: int)
    requires
        0 <= b <= s.len(),
        forall|k: int| b <= k < s.len() ==> is_white_space(#[trigger] s[k]),
        b == 0 || !is_white_space(s[b - 1]),
    ensures
        trim_end(s) == s.take(b),
    decreases s.len() - b,
{
    if b == s.len() {
        assert(s.take(b) =~= s);
    } else {
        let t = s.drop_last();
        assert forall|k: int| b <= k < t.len() implies is_white_space(#[trigger] t[k]) by {
            assert(t[k] == s[k]);
        }
        if b > 0 {
            assert(t[b - 1] == s[b - 1]);
        }
        lemma_trim_end_take(t, b);
        assert(t.take(b) =~= s.take(b));
    }
}

// ---------------------------------------------------------------------------
// Executable operations
// ---------------------------------------------------------------------------

/// Appends one character to a `String` (`String::push`).
/// Trusted: the documentation of `String::push` says that it appends the
/// given char to the end of the string.
#[verifier::external_body]
fn push_char(s: &mut String, c: char)
    ensures
        final(s)@ == old(s)@.push(c),
{
    s.push(c);
}

/// The characters of a string slice, in order.
pub fn chars_of(s: &str) -> (v: Vec<char>)
    ensures
        v@ == s@,
{
    let mut v: Vec<char> = Vec::new();
    for c in it: s.chars()
        invariant
            v@ == it.seq().take(it.index() as int),
            it.seq() == s@,
    {
        v.push(c);
    }
    v
}

/// The string made of `cs[from..to]`.
pub fn string_of_range(cs: &[char], from: usize, to: usize) -> (s: String)
    requires
        from <= to <= cs.len(),
    ensures
        s@ == cs@.subrange(from as int, to as int),
{
    let mut s = String::new();
    let mut i: usize = from;
    while i < to
        invariant
            from <= i <= to <= cs.len(),
            s@ == cs@.subrange(from as int, i as int),
        decreases to - i,
    {
        push_char(&mut s, cs[i]);
        assert(cs@.subrange(from as int, i + 1) == cs@.subrange(from as int, i as int).push(cs@[i as int]));
        i += 1;
    }
    s
}

/// The string made of the characters `cs`.
pub fn string_of(cs: &[char]) -> (s: String)
    ensures
        s@ == cs@,
{
    let s = string_of_range(cs, 0, cs.len());
    assert(cs@.subrange(0, cs@.len() as int) == cs@);
    s
}

/// `char::is_ascii_whitespace`.
pub fn ascii_ws(c: char) -> (b: bool)
    ensures
        b == is_ascii_ws(c),
{
    c == ' ' || c == '\t' || c == '\n' || c == '\x0C' || c == '\r'
}

/// `char::is_whitespace`.
pub fn white_space(c: char) -> (b: bool)
    ensures
        b == is_white_space(c),
{
    c == ' ' || ('\t' <= c && c <= '\r') || c == '\u{85}' || c == '\u{A0}' || c == '\u{1680}'
        || ('\u{2000}' <= c && c <= '\u{200A}') || c == '\u{2028}' || c == '\u{2029}'
        || c == '\u{202F}' || c == '\u{205F}' || c == '\u{3000}'
}


/// `str::split` with a `char` pattern, collected.
pub fn split_char(s: &str, sep: char) -> (v: Vec<String>)
    ensures
        views(v@) == split_on(s@, sep),
{
    let mut pieces: Vec<String> = Vec::new();
    let mut cur = String::new();
    for c in it: s.chars()
        invariant
            it.seq() == s@,
            pieces.deep_view().push(cur@) == split_on(it.seq().take(it.index() as int), sep),
    {
        let ghost pre = it.seq().take(it.index() as int);
        let ghost post = it.seq().take(it.index() + 1);
        proof {
            assert(post.drop_last() =~= pre);
            lemma_split_on_nonempty(pre, sep);
        }
        if c == sep {
            let done = cur;
            pieces.push(done);
            cur = String::new();
            assert(pieces.deep_view().push(cur@) =~= split_on(post, sep));
        } else {
            push_char(&mut cur, c);
            assert(pieces.deep_view().push(cur@) =~= split_on(post, sep));
        }
    }
    pieces.push(cur);
    assert(s@.take(s@.len() as int) =~= s@);
    assert(views(pieces@) =~= pieces.deep_view());
    pieces
}

/// `str::split_ascii_whitespace`, collected.
pub fn split_words(s: &str) -> (v: Vec<String>)
    ensures
        views(v@) == words(s@),
{
    let mut pieces: Vec<String> = Vec::new();
    let mut cur = String::new();
    for c in it: s.chars()
        invariant
            it.seq() == s@,
            ({
                let all = split_ascii_ws(it.seq().take(it.index() as int));
                &&& all.len() >= 1
                &&& pieces.deep_view() == non_empty(all.drop_last())
                &&& cur@ == all.last()
            }),
    {
        let ghost pre = it.seq().take(it.index() as int);
        let ghost post = it.seq().take(it.index() + 1);
        proof {
            assert(post.drop_last() =~= pre);
            lemma_split_ascii_ws_nonempty(pre);
        }
        if ascii_ws(c) {
            let done = cur;
            if done.as_str().unicode_len() > 0 {
                pieces.push(done);
            } else {
                assert(done@.len() == 0);
            }
            cur = String::new();
            assert(split_ascii_ws(post).drop_last() =~= split_ascii_ws(pre));
            assert(pieces.deep_view() =~= non_empty(split_ascii_ws(post).drop_last()));
        } else {
            push_char(&mut cur, c);
            assert(split_ascii_ws(post).drop_last() =~= split_ascii_ws(pre).drop_last());
        }
    }
    let ghost all = split_ascii_ws(s@);
    assert(s@.take(s@.len() as int) =~= s@);
    if cur.as_str().unicode_len() > 0 {
        pieces.push(cur);
        assert(all =~= all.drop_last().push(all.last()));
        assert(pieces.deep_view() =~= non_empty(all));
    } else {
        assert(all =~= all.drop_last().push(all.last()));
    }
    assert(views(pieces@) =~= pieces.deep_view());
    pieces
}

/// `str::trim`.
pub fn trim_str(s: &str) -> (t: String)
    ensures
        t@ == trim(s@),
{
    let cs = chars_of(s);
    let n = cs.len();
    let mut a: usize = 0;
    while a < n && white_space(cs[a])
        invariant
            a <= n == cs@.len(),
            forall|k: int| 0 <= k < a ==> is_white_space(#[trigger] cs@[k]),
        decreases n - a,
    {
        a += 1;
    }
    let mut b: usize = n;
    while b > a && white_space(cs[b - 1])
        invariant
            a <= b <= n == cs@.len(),
            forall|k: int| b <= k < n ==> is_white_space(#[trigger] cs@[k]),
        decreases b - a,
    {
        b -= 1;
    }
    proof {
        lemma_trim_start_skip(cs@, a as int);
        let t = cs@.skip(a as int);
        assert forall|k: int| b - a <= k < t.len() implies is_white_space(#[trigger] t[k]) by {
            assert(t[k] == cs@[k + a]);
        }
        if b > a {
            assert(t[b - a - 1] == cs@[b - 1]);
        }
        lemma_trim_end_take(t, b - a);
        assert(t.take(b - a) =~= cs@.subrange(a as int, b as int));
    }
    string_of_range(&cs, a, b)
}

/// Whether `pat` occurs in `cs` at index `i`.
fn matches_at_exec(cs: &Vec<char>, pat: &Vec<char>, i: usize) -> (b: bool)
    ensures
        b == matches_at(cs@, pat@, i as int),
{
    if i > cs.len() || pat.len() > cs.len() - i {
        return false;
    }
    let mut k: usize = 0;
    while k < pat.len()
        invariant
            i + pat.len() <= cs.len(),
            k <= pat@.len(),
            forall|j: int| 0 <= j < k ==> cs@[i + j] == pat@[j],
        decreases pat.len() - k,
    {
        if cs[i + k] != pat[k] {
            assert(cs@.subrange(i as int, i + pat@.len())[k as int] != pat@[k as int]);
            return false;
        }
        k += 1;
    }
    assert(cs@.subrange(i as int, i + pat@.len()) =~= pat@);
    true
}

/// The index where `pat` first occurs in `s`, counted in characters.
pub fn find_first(s: &str, pat: &str) -> (r: Option<usize>)
    ensures
        r is Some <==> has_sub(s@, pat@),
        r matches Some(i) ==> is_first_match(s@, pat@, i as int),
{
    let cs = chars_of(s);
    let ps = chars_of(pat);
    if ps.len() > cs.len() {
        return None;
    }
    let last = cs.len() - ps.len();
    let mut i: usize = 0;
    loop
        invariant
            cs@ == s@,
            ps@ == pat@,
            last == cs.len() - ps.len(),
            i <= last,
            forall|j: int| 0 <= j < i ==> !matches_at(s@, pat@, j),
        decreases last - i,
    {
        if matches_at_exec(&cs, &ps, i) {
            return Some(i);
        }
        if i == last {
            assert forall|j: int| !matches_at(s@, pat@, j) by {
                if 0 <= j < i {
                }
            }
            return None;
        }
        i += 1;
    }
}

/// `str::contains` with a string pattern.
pub fn contains_str(s: &str, pat: &str) -> (b: bool)
    ensures
        b == has_sub(s@, pat@),
{
    find_first(s, pat).is_some()
}

proof fn lemma_first_match_unique(s: Seq<char>, pat: Seq<char>, i: int)
    requires
        is_first_match(s, pat, i),
    ensures
        has_sub(s, pat),
        first_piece(s, pat) == s.take(i),
{
    let j = choose|j: int| is_first_match(s, pat, j);
    assert(is_first_match(s, pat, j));
    if j < i {
        assert(!matches_at(s, pat, j));
    }
    if i < j {
        assert(!matches_at(s, pat, i));
    }
}

/// Text without `sep` splits into itself alone.
pub proof fn lemma_split_on_without_sep(s: Seq<char>, sep: char)
    requires
        !s.contains(sep),
    ensures
        split_on(s, sep) == seq![s],
    decreases s.len(),
{
    if s.len() > 0 {
        assert(!s.drop_last().contains(sep)) by {
            if s.drop_last().contains(sep) {
                let j = choose|j: int| 0 <= j < s.drop_last().len() && s.drop_last()[j] == sep;
                assert(s[j] == sep);
            }
        }
        lemma_split_on_without_sep(s.drop_last(), sep);
        assert(s.last() != sep) by {
            assert(s[s.len() - 1] == s.last());
        }
        assert(s.drop_last().push(s.last()) =~= s);
    } else {
        assert(s =~= Seq::<char>::empty());
    }
}

/// The first piece of `a`, then `sep`, then anything, where `a` has no
/// `sep`, is `a`; and there are at least two pieces.
pub proof fn lemma_split_on_first_piece(a: Seq<char>, sep: char, b: Seq<char>)
    requires
        !a.contains(sep),
    ensures
        split_on(a + seq![sep] + b, sep)[0] == a,
        split_on(a + seq![sep] + b, sep).len() >= 2,
    decreases b.len(),
{
    let s = a + seq![sep] + b;
    if b.len() == 0 {
        lemma_split_on_without_sep(a, sep);
        assert(s.drop_last() =~= a);
        assert(s.last() == sep);
    } else {
        lemma_split_on_first_piece(a, sep, b.drop_last());
        assert(s.drop_last() =~= a + seq![sep] + b.drop_last());
    }
}

/// Splitting at `sep` loses nothing and keeps `sep` out of every piece: the
/// pieces joined again with `sep` give back the text, and no piece holds
/// `sep`.
pub proof fn lemma_split_on_join(s: Seq<char>, sep: char)
    ensures
        join(split_on(s, sep), seq![sep]) == s,
        forall|i: int| 0 <= i < split_on(s, sep).len() ==> !(#[trigger] split_on(s, sep)[i]).contains(sep),
    decreases s.len(),
{
    let ps = split_on(s, sep);
    if s.len() == 0 {
        assert(ps[0] =~= Seq::<char>::empty());
    } else {
        let p = s.drop_last();
        let x = s.last();
        lemma_split_on_join(p, sep);
        lemma_split_on_nonempty(p, sep);
        let prev = split_on(p, sep);
        if x == sep {
            assert(ps == prev.push(Seq::<char>::empty()));
            assert(ps.drop_last() =~= prev);
            assert(join(ps, seq![sep]) =~= p + seq![sep] + Seq::<char>::empty());
            assert(p + seq![sep] + Seq::<char>::empty() =~= s);
            assert forall|i: int| 0 <= i < ps.len() implies !(#[trigger] ps[i]).contains(sep) by {
                if i < prev.len() {
                    assert(ps[i] == prev[i]);
                } else {
                    assert(ps[i] =~= Seq::<char>::empty());
                }
            }
        } else {
            let last = prev.last().push(x);
            assert(ps == prev.update(prev.len() - 1, last));
            if prev.len() == 1 {
                assert(ps =~= seq![last]);
                assert(join(prev, seq![sep]) == prev[0]);
                assert(last =~= s);
            } else {
                assert(ps.drop_last() =~= prev.drop_last());
                assert(join(prev, seq![sep]) == join(prev.drop_last(), seq![sep]) + seq![sep] + prev.last());
                assert(join(ps, seq![sep]) =~= join(prev, seq![sep]).push(x));
                assert(p.push(x) =~= s);
            }
            assert forall|i: int| 0 <= i < ps.len() implies !(#[trigger] ps[i]).contains(sep) by {
                if i < prev.len() - 1 {
                    assert(ps[i] == prev[i]);
                } else {
                    assert(!prev[i].contains(sep));
                    if ps[i].contains(sep) {
                        let j = choose|j: int| 0 <= j < ps[i].len() && ps[i][j] == sep;
                        if j < prev[i].len() {
                            assert(prev[i][j] == sep);
                        }
                    }
                }
            }
        }
    }
}

proof fn lemma_split_on_append_piece(x: Seq<char>, sep: char, l: Seq<char>)
    requires
        !l.contains(sep),
    ensures
        split_on(x + seq![sep] + l, sep) == split_on(x, sep).push(l),
    decreases l.len(),
{
    let s = x + seq![sep] + l;
    if l.len() == 0 {
        assert(s.drop_last() =~= x);
        assert(s.last() == sep);
        assert(l =~= Seq::<char>::empty());
    } else {
        let l1 = l.drop_last();
        assert(!l1.contains(sep)) by {
            if l1.contains(sep) {
                let j = choose|j: int| 0 <= j < l1.len() && l1[j] == sep;
                assert(l[j] == sep);
            }
        }
        lemma_split_on_append_piece(x, sep, l1);
        assert(s.drop_last() =~= x + seq![sep] + l1);
        assert(s.last() == l[l.len() - 1]);
        assert(s.last() != sep);
        let prev = split_on(x, sep).push(l1);
        assert(prev.last() == l1);
        assert(l1.push(s.last()) =~= l);
        assert(prev.update(prev.len() - 1, prev.last().push(s.last())) =~= split_on(x, sep).push(l));
    }
}

/// Joining pieces that hold no `sep` with `sep` and splitting the result at
/// `sep` gives the pieces back.
pub proof fn lemma_join_then_split(ps: Seq<Seq<char>>, sep: char)
    requires
        ps.len() >= 1,
        forall|i: int| 0 <= i < ps.len() ==> !(#[trigger] ps[i]).contains(sep),
    ensures
        split_on(join(ps, seq![sep]), sep) == ps,
    decreases ps.len(),
{
    if ps.len() == 1 {
        lemma_split_on_without_sep(ps[0], sep);
        assert(seq![ps[0]] =~= ps);
    } else {
        let init = ps.drop_last();
        assert forall|i: int| 0 <= i < init.len() implies !(#[trigger] init[i]).contains(sep) by {
            assert(init[i] == ps[i]);
        }
        lemma_join_then_split(init, sep);
        assert(!ps.last().contains(sep)) by {
            assert(ps.last() == ps[ps.len() - 1]);
        }
        lemma_split_on_append_piece(join(init, seq![sep]), sep, ps.last());
        assert(init.push(ps.last()) =~= ps);
    }
}

proof fn lemma_trim_start_shape(s: Seq<char>) -> (a: int)
    ensures
        0 <= a <= s.len(),
        trim_start(s) == s.skip(a),
        forall|k: int| 0 <= k < a ==> is_white_space(#[trigger] s[k]),
        a < s.len() ==> !is_white_space(s[a]),
    decreases s.len(),
{
    if s.len() > 0 && is_white_space(s[0]) {
        let t = s.drop_first();
        let a1 = lemma_trim_start_shape(t);
        assert(t.skip(a1) =~= s.skip(a1 + 1));
        assert forall|k: int| 0 <= k < a1 + 1 implies is_white_space(#[trigger] s[k]) by {
            if k > 0 {
                assert(s[k] == t[k - 1]);
            }
        }
        if a1 + 1 < s.len() {
            assert(s[a1 + 1] == t[a1]);
        }
        a1 + 1
    } else {
        assert(s.skip(0) =~= s);
        0
    }
}

proof fn lemma_trim_end_shape(s: Seq<char>) -> (b: int)
    ensures
        0 <= b <= s.len(),
        trim_end(s) == s.take(b),
        forall|k: int| b <= k < s.len() ==> is_white_space(#[trigger] s[k]),
        b > 0 ==> !is_white_space(s[b - 1]),
    decreases s.len(),
{
    if s.len() > 0 && is_white_space(s.last()) {
        let t = s.drop_last();
        let b1 = lemma_trim_end_shape(t);
        assert(t.take(b1) =~= s.take(b1));
        assert forall|k: int| b1 <= k < s.len() implies is_white_space(#[trigger] s[k]) by {
            if k < t.len() {
                assert(s[k] == t[k]);
            }
        }
        if b1 > 0 {
            assert(s[b1 - 1] == t[b1 - 1]);
        }
        b1
    } else {
        assert(s.take(s.len() as int) =~= s);
        s.len() as int
    }
}

/// Trimming removes exactly the whitespace at both ends: the result is a
/// stretch of the text, everything before and after it is whitespace, and
/// a non-empty result starts and ends with a character that is not.
pub proof fn lemma_trim_shape(s: Seq<char>)
    ensures
        exists|i: int, j: int|
            #![trigger s.subrange(i, j)]
            0 <= i <= j <= s.len() && trim(s) == s.subrange(i, j) && (forall|k: int|
                0 <= k < i ==> is_white_space(#[trigger] s[k])) && (forall|k: int|
                j <= k < s.len() ==> is_white_space(#[trigger] s[k])) && (i < j ==> !is_white_space(s[i])
                && !is_white_space(s[j - 1])),
{
    let a = lemma_trim_start_shape(s);
    let t = s.skip(a);
    let b = lemma_trim_end_shape(t);
    assert(trim(s) =~= s.subrange(a, a + b));
    assert forall|k: int| a + b <= k < s.len() implies is_white_space(#[trigger] s[k]) by {
        assert(s[k] == t[k - a]);
    }
    if b > 0 {
        assert(s[a + b - 1] == t[b - 1]);
        assert(s[a] == t[0]);
    }
    assert(0 <= a <= a + b <= s.len() && trim(s) == s.subrange(a, a + b));
}

/// Where `pat` occurs in `s`, it has a first occurrence.
proof fn lemma_first_match_exists(s: Seq<char>, pat: Seq<char>, m: int)
    requires
        matches_at(s, pat, m),
    ensures
        exists|i: int| is_first_match(s, pat, i),
    decreases m,
{
    if forall|j: int| 0 <= j < m ==> !matches_at(s, pat, j) {
        assert(is_first_match(s, pat, m));
    } else {
        let j = choose|j: int| 0 <= j < m && matches_at(s, pat, j);
        lemma_first_match_exists(s, pat, j);
    }
}

/// The first piece of `s` at `pat` is a beginning of `s` in which `pat`
/// does not occur (for a non-empty `pat`), and where it is shorter than
/// `s`, `pat` follows it.
pub proof fn lemma_first_piece_shape(s: Seq<char>, pat: Seq<char>)
    ensures
        first_piece(s, pat) == s.take(first_piece(s, pat).len() as int),
        pat.len() > 0 ==> !has_sub(first_piece(s, pat), pat),
        first_piece(s, pat).len() < s.len() ==> matches_at(s, pat, first_piece(s, pat).len() as int),
{
    if has_sub(s, pat) {
        let m0 = choose|m: int| matches_at(s, pat, m);
        lemma_first_match_exists(s, pat, m0);
        let i = choose|i: int| is_first_match(s, pat, i);
        assert(is_first_match(s, pat, i));
        let t = s.take(i);
        assert(first_piece(s, pat) == t);
        if pat.len() > 0 && has_sub(t, pat) {
            let k = choose|k: int| matches_at(t, pat, k);
            assert(t.subrange(k, k + pat.len()) =~= s.subrange(k, k + pat.len()));
            assert(matches_at(s, pat, k));
            assert(!matches_at(s, pat, k));
        }
    } else {
        assert(s.take(s.len() as int) =~= s);
    }
}

/// The first piece of a first piece is itself: taking the text before the
/// first occurrence of `pat` a second time changes nothing.
pub proof fn lemma_first_piece_idempotent(s: Seq<char>, pat: Seq<char>)
    ensures
        first_piece(first_piece(s, pat), pat) == first_piece(s, pat),
{
    if has_sub(s, pat) {
        let m0 = choose|m: int| matches_at(s, pat, m);
        lemma_first_match_exists(s, pat, m0);
        let i = choose|i: int| is_first_match(s, pat, i);
        assert(is_first_match(s, pat, i));
        let t = s.take(i);
        assert(first_piece(s, pat) == t);
        if has_sub(t, pat) {
            let m = choose|m: int| matches_at(t, pat, m);
            lemma_first_match_exists(t, pat, m);
            let k = choose|k: int| is_first_match(t, pat, k);
            assert(is_first_match(t, pat, k));
            assert(t.subrange(k, k + pat.len()) =~= s.subrange(k, k + pat.len()));
            assert(matches_at(s, pat, k));
            if k < i {
                assert(!matches_at(s, pat, k));
            }
            assert(t.take(k) =~= t);
        }
    }
}

/// The first piece of `str::split` with a string pattern.
pub fn first_piece_of(s: &str, pat: &str) -> (t: String)
    ensures
        t@ == first_piece(s@, pat@),
{
    match find_first(s, pat) {
        Some(i) => {
            proof {
                lemma_first_match_unique(s@, pat@, i as int);
            }
            let cs = chars_of(s);
            string_of_range(&cs, 0, i)
        },
        None => {
            let t = String::from_str(s);
            t
        },
    }
}

/// `parts[from..].join(sep)`.
pub fn join_from(parts: &[String], from: usize, sep: &str) -> (t: String)
    requires
        from <= parts@.len(),
    ensures
        t@ == join(views(parts@).subrange(from as int, parts@.len() as int), sep@),
{
    let mut t = String::new();
    let mut i: usize = from;
    while i < parts.len()
        invariant
            from <= i <= parts@.len(),
            t@ == join(views(parts@).subrange(from as int, i as int), sep@),
        decreases parts.len() - i,
    {
        let ghost vs = views(parts@).subrange(from as int, i + 1);
        assert(vs.drop_last() =~= views(parts@).subrange(from as int, i as int));
        assert(vs.last() == parts@[i as int]@);
        if i > from {
            t.append(sep);
        }
        t.append(parts[i].as_str());
        i += 1;
    }
    t
}

/// `parts.join(sep)`.
pub fn join_strs(parts: &[String], sep: &str) -> (t: String)
    ensures
        t@ == join(views(parts@), sep@),
{
    let t = join_from(parts, 0, sep);
    assert(views(parts@).subrange(0, parts@.len() as int) =~= views(parts@));
    t
}

/// `parts[..to].join(sep)`.
pub fn join_upto(parts: &[String], to: usize, sep: &str) -> (t: String)
    requires
        to <= parts@.len(),
    ensures
        t@ == join(views(parts@).take(to as int), sep@),
{
    let mut t = String::new();
    let mut i: usize = 0;
    while i < to
        invariant
            i <= to <= parts@.len(),
            t@ == join(views(parts@).take(i as int), sep@),
        decreases to - i,
    {
        let ghost vs = views(parts@).take(i + 1);
        assert(vs.drop_last() =~= views(parts@).take(i as int));
        assert(vs.last() == parts@[i as int]@);
        if i > 0 {
            t.append(sep);
        }
        t.append(parts[i].as_str());
        i += 1;
    }
    t
}

/// Every string of `ps` trimmed.
pub open spec fn trim_all(ps: Seq<Seq<char>>) -> Seq<Seq<char>> {
    Seq::new(ps.len(), |i: int| trim(ps[i]))
}

/// `parts.iter().map(|p| p.trim().to_string()).collect()`.
pub fn trim_each(parts: &[String]) -> (v: Vec<String>)
    ensures
        views(v@) == trim_all(views(parts@)),
{
    let mut v: Vec<String> = Vec::new();
    let mut i: usize = 0;
    while i < parts.len()
        invariant
            i <= parts@.len(),
            views(v@) == trim_all(views(parts@)).take(i as int),
        decreases parts.len() - i,
    {
        let t = trim_str(parts[i].as_str());
        let ghost old_v = v@;
        assert(views(old_v).len() == i);
        assert(old_v.len() == i);
        v.push(t);
        assert(views(parts@)[i as int] == parts@[i as int]@);
        assert forall|k: int| 0 <= k < i + 1 implies #[trigger] views(v@)[k] == trim_all(views(parts@))[k] by {
            if k < i {
                assert(views(v@)[k] == old_v[k]@);
                assert(views(old_v)[k] == old_v[k]@);
            }
        }
        assert(views(v@) =~= trim_all(views(parts@)).take(i + 1));
        i += 1;
    }
    assert(trim_all(views(parts@)).take(parts@.len() as int) =~= trim_all(views(parts@)));
    v
}

/// Names what `str::to_lowercase` returns: the string with each character
/// replaced by its lowercase mapping as the Unicode `Lowercase` property
/// defines it.
pub uninterp spec fn lowercase(s: Seq<char>) -> Seq<char>;

/// Every character is ASCII.
pub open spec fn ascii_text(s: Seq<char>) -> bool {
    forall|i: int| 0 <= i < s.len() ==> (#[trigger] s[i] as u32) < 128
}

/// The ASCII lowercase of a character: `A` to `Z` become `a` to `z`, every
/// other character stays.
pub open spec fn ascii_lower_char(c: char) -> char {
    if 'A' <= c <= 'Z' {
        ((c as u32) + 32) as char
    } else {
        c
    }
}

/// Each character replaced by its ASCII lowercase.
pub open spec fn ascii_lowercase(s: Seq<char>) -> Seq<char> {
    s.map_values(|c: char| ascii_lower_char(c))
}

/// On an ASCII string, `lowercase` is the ASCII lowercase.
pub open spec fn lowercase_known(s: Seq<char>) -> bool {
    ascii_text(s) ==> lowercase(s) == ascii_lowercase(s)
}

/// Calls `str::to_lowercase`. Trusted: its result is the named
/// `lowercase` of the argument, a function of the argument alone; on an
/// ASCII string it maps `A` to `Z` to `a` to `z` and leaves every other
/// character as it is (the Unicode lowercase mapping that the documentation
/// names, on ASCII characters). Other characters are left to the name.
#[verifier::external_body]
pub(crate) fn to_lowercase(s: &str) -> (t: String)
    ensures
        t@ == lowercase(s@),
        ascii_text(s@) ==> t@ == ascii_lowercase(s@),
{
    s.to_lowercase()
}

/// The number of bytes of a character in UTF-8.
pub fn utf8_char_len_exec(c: char) -> (n: usize)
    ensures
        n == utf8_char_len(c),
{
    let u = c as u32;
    if u < 0x80 {
        1
    } else if u < 0x800 {
        2
    } else if u < 0x10000 {
        3
    } else {
        4
    }
}

proof fn lemma_utf8_len_at_least(s: Seq<char>)
    ensures
        utf8_len(s) >= s.len(),
    decreases s.len(),
{
    if s.len() > 0 {
        lemma_utf8_len_at_least(s.drop_last());
    }
}

/// Whether `s.len() == 1`, that is, `s` is one byte long in UTF-8.
pub fn is_one_byte(s: &str) -> (b: bool)
    ensures
        b == (utf8_len(s@) == 1),
        b ==> s@.len() == 1,
{
    proof {
        lemma_utf8_len_at_least(s@);
        if s@.len() > 1 {
            lemma_utf8_len_at_least(s@.drop_last());
        }
        if s@.len() == 1 {
            assert(s@.drop_last().len() == 0);
            assert(utf8_len(s@.drop_last()) == 0);
            assert(utf8_len(s@) == utf8_char_len(s@.last()));
        }
    }
    if s.unicode_len() != 1 {
        return false;
    }
    let c = s.get_char(0);
    proof {
        assert(s@.last() == c);
    }
    utf8_char_len_exec(c) == 1
}

} // verus!
