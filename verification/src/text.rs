//! Character-sequence helpers shared by the grid model: decimal rendering of
//! integers, substring search, and splitting/joining on a separator, each
//! with its mathematical specification.

use vstd::prelude::*;

verus! {

/// Relies on `String::push`: appends exactly the given character.
pub assume_specification[ String::push ](s: &mut String, c: char)
    ensures
        final(s)@ == old(s)@.push(c),
;

// ---------------------------------------------------------------------------
// Decimal rendering of integers
// ---------------------------------------------------------------------------

/// The character for one decimal digit.
pub open spec fn dec_digit(d: int) -> char {
    if d == 0 {
        '0'
    } else if d == 1 {
        '1'
    } else if d == 2 {
        '2'
    } else if d == 3 {
        '3'
    } else if d == 4 {
        '4'
    } else if d == 5 {
        '5'
    } else if d == 6 {
        '6'
    } else if d == 7 {
        '7'
    } else if d == 8 {
        '8'
    } else {
        '9'
    }
}

/// The decimal representation of a non-negative integer, most significant
/// digit first and without leading zeros (zero itself is `"0"`).
pub open spec fn nat_chars(n: int) -> Seq<char>
    decreases n,
{
    if n < 10 {
        seq![dec_digit(n)]
    } else {
        nat_chars(n / 10).push(dec_digit(n % 10))
    }
}

/// The decimal representation of an integer, with a leading minus sign when
/// it is negative.
pub open spec fn int_chars(n: int) -> Seq<char> {
    if n < 0 {
        seq!['-'] + nat_chars(-n)
    } else {
        nat_chars(n)
    }
}

fn digit_char(d: u8) -> (c: char)
    requires
        d < 10,
    ensures
        c == dec_digit(d as int),
{
    if d == 0 {
        '0'
    } else if d == 1 {
        '1'
    } else if d == 2 {
        '2'
    } else if d == 3 {
        '3'
    } else if d == 4 {
        '4'
    } else if d == 5 {
        '5'
    } else if d == 6 {
        '6'
    } else if d == 7 {
        '7'
    } else if d == 8 {
        '8'
    } else {
        '9'
    }
}

/// The characters for a sequence of digit values read back to front; the
/// digits are accumulated least significant first, so this is the printed
/// order.
pub open spec fn digits_chars(ds: Seq<u8>) -> Seq<char>
    decreases ds.len(),
{
    if ds.len() == 0 {
        Seq::empty()
    } else {
        seq![dec_digit(ds.last() as int)] + digits_chars(ds.drop_last())
    }
}

proof fn lemma_digits_chars_push(ds: Seq<u8>, d: u8)
    ensures
        digits_chars(ds.push(d)) == seq![dec_digit(d as int)] + digits_chars(ds),
{
    assert(ds.push(d).last() == d);
    assert(ds.push(d).drop_last() =~= ds);
}

/// A single-character string.
pub fn char_to_string(c: char) -> (r: String)
    ensures
        r@ == seq![c],
{
    let mut r = String::new();
    r.push(c);
    proof {
        assert(r@ =~= seq![c]);
    }
    r
}

pub fn u64_to_string(n: u64) -> (r: String)
    ensures
        r@ == nat_chars(n as int),
{
    let mut digits: Vec<u8> = Vec::new();
    let mut m: u64 = n;
    proof {
        assert(digits_chars(digits@) =~= Seq::<char>::empty());
    }
    while m >= 10
        invariant
            nat_chars(n as int) == nat_chars(m as int) + digits_chars(digits@),
            forall|k: int| 0 <= k < digits@.len() ==> digits@[k] < 10,
        decreases m,
    {
        let d: u8 = (m % 10) as u8;
        proof {
            lemma_digits_chars_push(digits@, d);
            assert(nat_chars(m as int) == nat_chars(m as int / 10).push(dec_digit(m as int % 10)));
            assert(nat_chars(m as int / 10).push(dec_digit(d as int)) =~= nat_chars(
                m as int / 10,
            ) + seq![dec_digit(d as int)]);
            assert(nat_chars(n as int) =~= nat_chars((m / 10) as int) + digits_chars(
                digits@.push(d),
            ));
        }
        digits.push(d);
        m = m / 10;
    }
    let d: u8 = m as u8;
    proof {
        lemma_digits_chars_push(digits@, d);
        assert(nat_chars(m as int) =~= seq![dec_digit(d as int)]);
        assert(nat_chars(n as int) =~= digits_chars(digits@.push(d)));
    }
    digits.push(d);
    let ghost all = digits@;
    let mut r = String::new();
    let mut i: usize = digits.len();
    proof {
        assert(all.take(i as int) =~= all);
    }
    while i > 0
        invariant
            i <= all.len(),
            digits@ == all,
            forall|k: int| 0 <= k < all.len() ==> all[k] < 10,
            r@ + digits_chars(all.take(i as int)) == nat_chars(n as int),
        decreases i,
    {
        i = i - 1;
        let c = digit_char(digits[i]);
        proof {
            let t = all.take(i as int + 1);
            assert(t.last() == all[i as int]);
            assert(t.drop_last() =~= all.take(i as int));
            assert(digits_chars(t) == seq![dec_digit(all[i as int] as int)] + digits_chars(
                all.take(i as int),
            ));
            assert(r@.push(c) + digits_chars(all.take(i as int)) =~= r@ + digits_chars(t));
        }
        r.push(c);
    }
    proof {
        assert(all.take(0) =~= Seq::<u8>::empty());
        assert(r@ =~= r@ + digits_chars(all.take(0)));
    }
    r
}

pub fn i64_to_string(n: i64) -> (r: String)
    ensures
        r@ == int_chars(n as int),
{
    if n >= 0 {
        u64_to_string(n as u64)
    } else {
        let mag: u64 = ((-(n + 1)) as u64) + 1;
        proof {
            assert(mag as int == -(n as int));
        }
        let mut r = char_to_string('-');
        let tail = u64_to_string(mag);
        r.append(tail.as_str());
        proof {
            assert(r@ =~= int_chars(n as int));
        }
        r
    }
}

// ---------------------------------------------------------------------------
// Substring search
// ---------------------------------------------------------------------------

/// `needle` occurs in `hay` starting at position `i`.
pub open spec fn contains_at(hay: Seq<char>, needle: Seq<char>, i: int) -> bool {
    0 <= i && i + needle.len() <= hay.len() && hay.subrange(i, i + needle.len() as int) == needle
}

/// `needle` occurs somewhere in `hay` (the empty needle occurs everywhere).
pub open spec fn contains_seq(hay: Seq<char>, needle: Seq<char>) -> bool {
    exists|i: int| contains_at(hay, needle, i)
}

/// Whether `needle` is a substring of `hay`.
pub fn str_contains(hay: &str, needle: &str) -> (r: bool)
    ensures
        r == contains_seq(hay@, needle@),
{
    let hn = hay.unicode_len();
    let nn = needle.unicode_len();
    if nn > hn {
        proof {
            assert(forall|i: int| !contains_at(hay@, needle@, i));
        }
        return false;
    }
    if nn == 0 {
        proof {
            assert(hay@.subrange(0, 0) =~= needle@);
            assert(contains_at(hay@, needle@, 0));
        }
        return true;
    }
    let mut i: usize = 0;
    while i <= hn - nn
        invariant
            1 <= nn <= hn,
            hn == hay@.len(),
            nn == needle@.len(),
            i <= hn - nn + 1,
            forall|k: int| 0 <= k < i ==> !contains_at(hay@, needle@, k),
        decreases hn - nn - i + 1,
    {
        let mut j: usize = 0;
        let mut ok = true;
        while j < nn && ok
            invariant
                nn <= hn,
                hn == hay@.len(),
                nn == needle@.len(),
                i + nn <= hn,
                j <= nn,
                ok ==> forall|t: int| 0 <= t < j ==> hay@[i + t] == needle@[t],
                !ok ==> !contains_at(hay@, needle@, i as int),
            decreases nn - j, (if ok { 1int } else { 0int }),
        {
            if hay.get_char(i + j) == needle.get_char(j) {
                j = j + 1;
            } else {
                proof {
                    if contains_at(hay@, needle@, i as int) {
                        assert(hay@.subrange(i as int, i + needle@.len() as int)[j as int]
                            == hay@[i + j]);
                    }
                }
                ok = false;
            }
        }
        if ok {
            proof {
                assert(hay@.subrange(i as int, i + needle@.len() as int) =~= needle@);
                assert(contains_at(hay@, needle@, i as int));
            }
            return true;
        }
        i = i + 1;
    }
    proof {
        assert(forall|k: int| k >= i ==> !contains_at(hay@, needle@, k));
    }
    false
}

// ---------------------------------------------------------------------------
// Splitting on a separator
// ---------------------------------------------------------------------------

/// The pieces of `s` between occurrences of `sep`, in order; there is always
/// at least one piece, and splitting the empty sequence gives one empty
/// piece.
pub open spec fn split_on(s: Seq<char>, sep: char) -> Seq<Seq<char>>
    decreases s.len(),
{
    if s.len() == 0 {
        seq![Seq::<char>::empty()]
    } else if s[0] == sep {
        seq![Seq::<char>::empty()] + split_on(s.drop_first(), sep)
    } else {
        let rest = split_on(s.drop_first(), sep);
        seq![seq![s[0]] + rest[0]] + rest.drop_first()
    }
}

pub proof fn lemma_split_on_len(s: Seq<char>, sep: char)
    ensures
        split_on(s, sep).len() >= 1,
    decreases s.len(),
{
    if s.len() != 0 {
        lemma_split_on_len(s.drop_first(), sep);
    }
}

/// Appending a non-separator character extends the last piece.
pub proof fn lemma_split_on_push_char(s: Seq<char>, sep: char, c: char)
    requires
        c != sep,
    ensures
        split_on(s.push(c), sep) == split_on(s, sep).update(
            split_on(s, sep).len() - 1,
            split_on(s, sep).last().push(c),
        ),
    decreases s.len(),
{
    lemma_split_on_len(s, sep);
    let p = split_on(s, sep);
    let goal = p.update(p.len() - 1, p.last().push(c));
    if s.len() == 0 {
        assert(s.push(c) =~= seq![c]);
        assert(seq![c].drop_first() =~= Seq::<char>::empty());
        assert(split_on(Seq::<char>::empty(), sep) == seq![Seq::<char>::empty()]);
        assert(split_on(seq![c], sep) =~~= seq![seq![c]]);
        assert(seq![c] =~= Seq::<char>::empty().push(c));
        assert(goal =~~= seq![seq![c]]);
    } else {
        let t = s.drop_first();
        lemma_split_on_len(t, sep);
        lemma_split_on_push_char(t, sep, c);
        assert(s.push(c).drop_first() =~= t.push(c));
        assert(s.push(c)[0] == s[0]);
        let q = split_on(t, sep);
        let q2 = split_on(t.push(c), sep);
        assert(q2 == q.update(q.len() - 1, q.last().push(c)));
        if s[0] == sep {
            assert(split_on(s.push(c), sep) =~= seq![Seq::<char>::empty()] + q2);
            assert(p =~= seq![Seq::<char>::empty()] + q);
            assert(p.last() == q.last());
            assert(split_on(s.push(c), sep) =~= goal);
        } else {
            assert(split_on(s.push(c), sep) =~= seq![seq![s[0]] + q2[0]] + q2.drop_first());
            assert(p =~= seq![seq![s[0]] + q[0]] + q.drop_first());
            if q.len() == 1 {
                assert(q2[0] == q[0].push(c));
                assert(q2.drop_first() =~= q.drop_first());
                assert(seq![s[0]] + q[0].push(c) =~= (seq![s[0]] + q[0]).push(c));
                assert(p.last() == seq![s[0]] + q[0]);
                assert(split_on(s.push(c), sep) =~= goal);
            } else {
                assert(q2[0] == q[0]);
                assert(q2.drop_first() =~= q.drop_first().update(
                    q.len() - 2,
                    q.last().push(c),
                ));
                assert(p.last() == q.last());
                assert(split_on(s.push(c), sep) =~= goal);
            }
        }
    }
}

/// Appending the separator adds a fresh empty piece.
pub proof fn lemma_split_on_push_sep(s: Seq<char>, sep: char)
    ensures
        split_on(s.push(sep), sep) == split_on(s, sep).push(Seq::<char>::empty()),
    decreases s.len(),
{
    lemma_split_on_len(s, sep);
    if s.len() == 0 {
        assert(s.push(sep) =~= seq![sep]);
        assert(seq![sep].drop_first() =~= Seq::<char>::empty());
        assert(split_on(Seq::<char>::empty(), sep) == seq![Seq::<char>::empty()]);
        assert(split_on(seq![sep], sep) =~~= seq![
            Seq::<char>::empty(),
            Seq::<char>::empty(),
        ]);
        assert(split_on(s, sep).push(Seq::<char>::empty()) =~= seq![
            Seq::<char>::empty(),
            Seq::<char>::empty(),
        ]);
    } else {
        let t = s.drop_first();
        lemma_split_on_len(t, sep);
        lemma_split_on_push_sep(t, sep);
        assert(s.push(sep).drop_first() =~= t.push(sep));
        let q = split_on(t, sep);
        let q2 = split_on(t.push(sep), sep);
        assert(q2 == q.push(Seq::<char>::empty()));
        if s[0] == sep {
            assert(split_on(s.push(sep), sep) =~= seq![Seq::<char>::empty()] + q2);
            assert(split_on(s, sep).push(Seq::<char>::empty()) =~= seq![Seq::<char>::empty()]
                + q.push(Seq::<char>::empty()));
            assert(seq![Seq::<char>::empty()] + q.push(Seq::<char>::empty()) =~= (seq![
                Seq::<char>::empty(),
            ] + q).push(Seq::<char>::empty()));
        } else {
            assert(q2[0] == q[0]);
            assert(split_on(s.push(sep), sep) =~= seq![seq![s[0]] + q2[0]] + q2.drop_first());
            assert(q2.drop_first() =~= q.drop_first().push(Seq::<char>::empty()));
            assert(seq![seq![s[0]] + q[0]] + q.drop_first().push(Seq::<char>::empty()) =~= (seq![
                seq![s[0]] + q[0],
            ] + q.drop_first()).push(Seq::<char>::empty()));
        }
    }
}

/// A sequence free of the separator splits into itself alone.
pub proof fn lemma_split_on_sep_free(s: Seq<char>, sep: char)
    requires
        forall|k: int| 0 <= k < s.len() ==> s[k] != sep,
    ensures
        split_on(s, sep) == seq![s],
    decreases s.len(),
{
    if s.len() == 0 {
        assert(split_on(s, sep) =~~= seq![s]);
    } else {
        let t = s.drop_first();
        lemma_split_on_sep_free(t, sep);
        assert(split_on(s, sep) =~= seq![seq![s[0]] + t]);
        assert(seq![s[0]] + t =~= s);
    }
}

/// Splitting past a separator-free prefix yields that prefix and then the
/// split of the remainder.
pub proof fn lemma_split_on_prefix(a: Seq<char>, t: Seq<char>, sep: char)
    requires
        forall|k: int| 0 <= k < a.len() ==> a[k] != sep,
    ensures
        split_on(a + seq![sep] + t, sep) == seq![a] + split_on(t, sep),
    decreases a.len(),
{
    if a.len() == 0 {
        let s = a + seq![sep] + t;
        assert(s[0] == sep);
        assert(s.drop_first() =~= t);
        assert(split_on(s, sep) =~= seq![Seq::<char>::empty()] + split_on(t, sep));
        assert(seq![Seq::<char>::empty()] + split_on(t, sep) =~~= seq![a] + split_on(t, sep));
    } else {
        let a2 = a.drop_first();
        lemma_split_on_prefix(a2, t, sep);
        let s = a + seq![sep] + t;
        assert(s[0] == a[0]);
        assert(s[0] != sep);
        assert(s.drop_first() =~= a2 + seq![sep] + t);
        let rest = split_on(a2 + seq![sep] + t, sep);
        assert(rest == seq![a2] + split_on(t, sep));
        lemma_split_on_len(t, sep);
        assert(rest[0] == a2);
        assert(split_on(s, sep) =~= seq![seq![a[0]] + a2] + rest.drop_first());
        assert(seq![a[0]] + a2 =~= a);
        assert(rest.drop_first() =~= split_on(t, sep));
        assert(split_on(s, sep) =~= seq![a] + split_on(t, sep));
    }
}

// ---------------------------------------------------------------------------
// Joining with a separator
// ---------------------------------------------------------------------------

/// The pieces joined with `sep` between consecutive pieces.
pub open spec fn join_with(parts: Seq<Seq<char>>, sep: Seq<char>) -> Seq<char>
    decreases parts.len(),
{
    if parts.len() == 0 {
        Seq::empty()
    } else if parts.len() == 1 {
        parts[0]
    } else {
        parts[0] + sep + join_with(parts.drop_first(), sep)
    }
}

pub proof fn lemma_join_with_push(parts: Seq<Seq<char>>, sep: Seq<char>, p: Seq<char>)
    ensures
        join_with(parts.push(p), sep) == if parts.len() == 0 {
            p
        } else {
            join_with(parts, sep) + sep + p
        },
    decreases parts.len(),
{
    if parts.len() == 0 {
        assert(parts.push(p)[0] == p);
        assert(join_with(parts.push(p), sep) == p);
    } else {
        lemma_join_with_push(parts.drop_first(), sep, p);
        assert(parts.push(p).drop_first() =~= parts.drop_first().push(p));
        assert(parts.push(p)[0] == parts[0]);
        if parts.len() == 1 {
            assert(parts.drop_first().len() == 0);
            assert(join_with(parts.push(p), sep) =~= parts[0] + sep + p);
            assert(join_with(parts, sep) == parts[0]);
        } else {
            assert(join_with(parts.push(p), sep) =~= parts[0] + sep + (join_with(
                parts.drop_first(),
                sep,
            ) + sep + p));
            assert(parts[0] + sep + (join_with(parts.drop_first(), sep) + sep + p) =~= (parts[0]
                + sep + join_with(parts.drop_first(), sep)) + sep + p);
        }
    }
}

/// A join contains only characters of its pieces and its separator.
pub proof fn lemma_join_with_avoids(parts: Seq<Seq<char>>, sep: Seq<char>, c: char)
    requires
        forall|k: int, t: int|
            0 <= k < parts.len() && 0 <= t < parts[k].len() ==> parts[k][t] != c,
        forall|t: int| 0 <= t < sep.len() ==> sep[t] != c,
    ensures
        forall|t: int| 0 <= t < join_with(parts, sep).len() ==> join_with(parts, sep)[t] != c,
    decreases parts.len(),
{
    if parts.len() == 0 {
    } else if parts.len() == 1 {
        assert(forall|t: int| 0 <= t < parts[0].len() ==> parts[0][t] != c);
    } else {
        let rest = parts.drop_first();
        assert(forall|k: int, t: int|
            0 <= k < rest.len() && 0 <= t < rest[k].len() ==> rest[k][t] != c) by {
            assert(forall|k: int| 0 <= k < rest.len() ==> rest[k] == parts[k + 1]);
        }
        lemma_join_with_avoids(rest, sep, c);
        let j = join_with(parts, sep);
        assert(j == parts[0] + sep + join_with(rest, sep));
        assert(forall|t: int| 0 <= t < parts[0].len() ==> parts[0][t] != c);
        assert forall|t: int| 0 <= t < j.len() implies j[t] != c by {
            if t < parts[0].len() {
                assert(j[t] == parts[0][t]);
            } else if t < parts[0].len() + sep.len() {
                assert(j[t] == sep[t - parts[0].len()]);
            } else {
                assert(j[t] == join_with(rest, sep)[t - parts[0].len() - sep.len()]);
            }
        }
    }
}

/// The pieces of `s` between occurrences of `sep`.
pub fn split_str(s: &str, sep: char) -> (r: Vec<String>)
    ensures
        r.deep_view() == split_on(s@, sep),
{
    let n = s.unicode_len();
    let mut r: Vec<String> = Vec::new();
    let mut cur = String::new();
    let mut i: usize = 0;
    proof {
        assert(s@.take(0) =~= Seq::<char>::empty());
        assert(r.deep_view().push(cur@) =~~= split_on(s@.take(0), sep));
    }
    while i < n
        invariant
            i <= n,
            n == s@.len(),
            r.deep_view().push(cur@) == split_on(s@.take(i as int), sep),
        decreases n - i,
    {
        let c = s.get_char(i);
        proof {
            assert(s@.take(i as int + 1) =~= s@.take(i as int).push(s@[i as int]));
        }
        if c == sep {
            proof {
                lemma_split_on_push_sep(s@.take(i as int), sep);
            }
            r.push(cur);
            cur = String::new();
            proof {
                assert(r.deep_view().push(cur@) =~~= split_on(s@.take(i as int + 1), sep));
            }
        } else {
            proof {
                lemma_split_on_push_char(s@.take(i as int), sep, c);
                let p = split_on(s@.take(i as int), sep);
                assert(p.last() == cur@);
                assert(p.update(p.len() - 1, p.last().push(c)) =~~= r.deep_view().push(
                    cur@.push(c),
                ));
            }
            cur.push(c);
        }
        i = i + 1;
    }
    proof {
        assert(s@.take(n as int) =~= s@);
    }
    r.push(cur);
    proof {
        assert(r.deep_view() =~~= split_on(s@, sep));
    }
    r
}

// ---------------------------------------------------------------------------
// Lines
// ---------------------------------------------------------------------------

/// A line with one trailing carriage return removed.
pub open spec fn strip_cr(l: Seq<char>) -> Seq<char> {
    if l.len() > 0 && l.last() == '\r' {
        l.drop_last()
    } else {
        l
    }
}

/// The lines of a text: the pieces between newlines, without a final empty
/// piece (so a trailing newline ends the last line rather than opening a new
/// one) and with one trailing carriage return stripped from each line.
pub open spec fn lines_of(s: Seq<char>) -> Seq<Seq<char>> {
    let p = split_on(s, '\n');
    let q = if p.last().len() == 0 {
        p.drop_last()
    } else {
        p
    };
    q.map(|i: int, l: Seq<char>| strip_cr(l))
}

/// The lines of a text.
pub fn split_lines(s: &str) -> (r: Vec<String>)
    ensures
        r.deep_view() == lines_of(s@),
{
    let mut p = split_str(s, '\n');
    proof {
        lemma_split_on_len(s@, '\n');
    }
    let ghost full = split_on(s@, '\n');
    let ghost q = if full.last().len() == 0 {
        full.drop_last()
    } else {
        full
    };
    let plen = p.len();
    if p[plen - 1].as_str().is_empty() {
        p.pop();
    }
    proof {
        assert(p.deep_view() =~~= q);
    }
    let mut i: usize = 0;
    while i < p.len()
        invariant
            i <= p@.len(),
            p@.len() == q.len(),
            forall|k: int| i <= k < q.len() ==> p.deep_view()[k] == q[k],
            forall|k: int| 0 <= k < i ==> p.deep_view()[k] == strip_cr(q[k]),
        decreases p@.len() - i,
    {
        let ln = p[i].as_str().unicode_len();
        if ln > 0 && p[i].as_str().get_char(ln - 1) == '\r' {
            let t = p[i].as_str().substring_char(0, ln - 1).to_owned();
            proof {
                assert(q[i as int].drop_last() =~= q[i as int].subrange(0, ln as int - 1));
                assert(t@ == strip_cr(q[i as int]));
            }
            let ghost dv = p.deep_view();
            p[i] = t;
            proof {
                assert(p.deep_view() =~~= dv.update(i as int, t@));
            }
        } else {
            proof {
                assert(strip_cr(q[i as int]) == q[i as int]);
            }
        }
        i = i + 1;
    }
    proof {
        assert(p.deep_view() =~~= lines_of(s@));
    }
    p
}

/// Splitting a join of separator-free pieces recovers the pieces.
pub proof fn lemma_split_join(parts: Seq<Seq<char>>, sep: char)
    requires
        parts.len() >= 1,
        forall|k: int, t: int|
            0 <= k < parts.len() && 0 <= t < parts[k].len() ==> parts[k][t] != sep,
    ensures
        split_on(join_with(parts, seq![sep]), sep) == parts,
    decreases parts.len(),
{
    if parts.len() == 1 {
        lemma_split_on_sep_free(parts[0], sep);
        assert(split_on(join_with(parts, seq![sep]), sep) =~= parts);
    } else {
        let rest = parts.drop_first();
        assert(forall|k: int, t: int|
            0 <= k < rest.len() && 0 <= t < rest[k].len() ==> rest[k][t] != sep) by {
            assert(forall|k: int| 0 <= k < rest.len() ==> rest[k] == parts[k + 1]);
        }
        lemma_split_join(rest, sep);
        assert(join_with(parts, seq![sep]) == parts[0] + seq![sep] + join_with(rest, seq![sep]));
        lemma_split_on_prefix(parts[0], join_with(rest, seq![sep]), sep);
        assert(split_on(join_with(parts, seq![sep]), sep) =~= seq![parts[0]] + rest);
        assert(seq![parts[0]] + rest =~= parts);
    }
}

} // verus!
