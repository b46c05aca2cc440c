//! Character-level text helpers shared by the tools, the handoff document
//! and the error messages: conversion between `str` and character vectors,
//! decimal rendering of integers, substring search and replacement.
use vstd::prelude::*;

verus! {

broadcast use vstd::string::group_string_axioms;

/// `String::push` appends the character to the end of the string.
pub assume_specification[ String::push ](string: &mut String, ch: char)
    ensures
        final(string)@ == old(string)@.push(ch),
;

/// The concatenation of two string slices.
pub fn concat(a: &str, b: &str) -> (s: String)
    ensures
        s@ == a@ + b@,
{
    let mut s = a.to_owned();
    s.append(b);
    s
}

/// The concatenation of three string slices.
pub fn concat3(a: &str, b: &str, c: &str) -> (s: String)
    ensures
        s@ == a@ + b@ + c@,
{
    let mut s = a.to_owned();
    s.append(b);
    s.append(c);
    s
}

/// The characters of a string slice, in order.
pub fn chars_of(s: &str) -> (v: Vec<char>)
    ensures
        v@ == s@,
{
    let mut v: Vec<char> = Vec::new();
    for c in it: s.chars()
        invariant
            it.seq() == s@,
            v@ == it.seq().take(it.index() as int),
    {
        v.push(c);
    }
    v
}

/// A string made of the given characters.
pub fn string_of(v: &[char]) -> (s: String)
    ensures
        s@ == v@,
{
    let mut s = String::new();
    let n = v.len();
    for i in 0..n
        invariant
            n == v@.len(),
            s@ == v@.take(i as int),
    {
        s.push(v[i]);
        assert(v@.take(i + 1) =~= v@.take(i as int).push(v@[i as int]));
    }
    assert(v@.take(n as int) =~= v@);
    s
}


/// The decimal digit `d` (for `0 <= d < 10`) as a character.
pub open spec fn digit_char(d: int) -> char {
    if d == 0 { '0' } else if d == 1 { '1' } else if d == 2 { '2' } else if d == 3 { '3' }
    else if d == 4 { '4' } else if d == 5 { '5' } else if d == 6 { '6' } else if d == 7 { '7' }
    else if d == 8 { '8' } else { '9' }
}

/// The decimal notation of a natural number, without leading zeros.
pub open spec fn decimal(n: nat) -> Seq<char>
    decreases n,
{
    if n < 10 {
        seq![digit_char(n as int)]
    } else {
        decimal(n / 10).push(digit_char((n % 10) as int))
    }
}

/// The decimal notation of an integer, with a leading `-` when negative.
pub open spec fn signed_decimal(n: int) -> Seq<char> {
    if n < 0 {
        seq!['-'] + decimal((-n) as nat)
    } else {
        decimal(n as nat)
    }
}

/// The character is a decimal digit.
pub open spec fn is_digit(c: char) -> bool {
    '0' <= c && c <= '9'
}

/// The decimal notation of a number is made of digits only, and it has a
/// single digit exactly for the numbers below ten.
pub proof fn lemma_decimal_digits(n: nat)
    ensures
        decimal(n).len() >= 1,
        n < 10 <==> decimal(n).len() == 1,
        forall|i: int| 0 <= i < decimal(n).len() ==> is_digit(#[trigger] decimal(n)[i]),
    decreases n,
{
    if n >= 10 {
        lemma_decimal_digits(n / 10);
    }
}

/// Different digits are different characters.
proof fn lemma_digit_char_injective(x: int, y: int)
    requires
        0 <= x < 10,
        0 <= y < 10,
        digit_char(x) == digit_char(y),
    ensures
        x == y,
{
    assert(digit_char(x) as int == x + 48);
    assert(digit_char(y) as int == y + 48);
}

/// Different numbers have different decimal notations.
pub proof fn lemma_decimal_injective(a: nat, b: nat)
    requires
        decimal(a) == decimal(b),
    ensures
        a == b,
    decreases a,
{
    lemma_decimal_digits(a);
    lemma_decimal_digits(b);
    if a >= 10 && b >= 10 {
        assert(decimal(a).drop_last() =~= decimal(a / 10));
        assert(decimal(b).drop_last() =~= decimal(b / 10));
        lemma_decimal_injective(a / 10, b / 10);
        assert(decimal(a).last() == digit_char((a % 10) as int));
        assert(decimal(b).last() == digit_char((b % 10) as int));
        lemma_digit_char_injective((a % 10) as int, (b % 10) as int);
    } else {
        assert(a < 10 && b < 10);
        assert(decimal(a) == seq![digit_char(a as int)]);
        assert(decimal(b) == seq![digit_char(b as int)]);
        let ca = digit_char(a as int);
        let cb = digit_char(b as int);
        assert(seq![ca][0] == ca);
        assert(seq![cb][0] == cb);
        assert(decimal(a)[0] == decimal(b)[0]);
        assert(ca == cb);
        lemma_digit_char_injective(a as int, b as int);
    }
}

/// The number a sequence of decimal digits stands for (0 for no digits).
pub open spec fn decimal_value(d: Seq<char>) -> nat
    decreases d.len(),
{
    if d.len() == 0 {
        0
    } else {
        decimal_value(d.drop_last()) * 10 + ((d.last() as int - '0' as int) as nat)
    }
}

/// A number's decimal notation stands for the number.
pub proof fn lemma_decimal_value(n: nat)
    ensures
        decimal_value(decimal(n)) == n,
    decreases n,
{
    let d = decimal(n);
    assert('0' as int == 48);
    if n < 10 {
        assert(digit_char(n as int) as int == n + 48);
        assert(d.drop_last() =~= Seq::<char>::empty());
        assert(d.last() == digit_char(n as int));
        assert(decimal_value(d.drop_last()) == 0);
    } else {
        lemma_decimal_value(n / 10);
        assert(d.drop_last() =~= decimal(n / 10));
        assert(d.last() == digit_char((n % 10) as int));
        assert(digit_char((n % 10) as int) as int == n % 10 + 48);
        assert((n / 10) * 10 + n % 10 == n) by (nonlinear_arith);
    }
}

/// Appending digits to a digit sequence does not make its value smaller.
pub proof fn lemma_decimal_value_grows(d: Seq<char>, m: int)
    requires
        0 <= m <= d.len(),
        forall|i: int| 0 <= i < d.len() ==> is_digit(#[trigger] d[i]),
    ensures
        decimal_value(d) >= decimal_value(d.take(m)),
    decreases d.len() - m,
{
    if m < d.len() {
        let p = d.take(m + 1);
        assert(p.drop_last() =~= d.take(m));
        assert(is_digit(p.last()));
        lemma_decimal_value_grows(d, m + 1);
    } else {
        assert(d.take(m) =~= d);
    }
}

fn digit_to_char(d: u64) -> (c: char)
    requires
        d < 10,
    ensures
        c == digit_char(d as int),
{
    match d {
        0 => '0',
        1 => '1',
        2 => '2',
        3 => '3',
        4 => '4',
        5 => '5',
        6 => '6',
        7 => '7',
        8 => '8',
        _ => '9',
    }
}

/// The decimal rendering of an unsigned integer.
pub fn u64_to_decimal(n: u64) -> (s: String)
    ensures
        s@ == decimal(n as nat),
{
    let mut digits: Vec<char> = Vec::new();
    let mut m: u64 = n;
    loop
        invariant_except_break
            decimal(n as nat) == decimal(m as nat) + digits@,
        ensures
            decimal(n as nat) == digits@,
        decreases m,
    {
        let d = digit_to_char(m % 10);
        digits.insert(0, d);
        if m < 10 {
            assert(digits@ =~= seq![d] + digits@.drop_first());
            break;
        }
        assert(decimal(m as nat) == decimal((m / 10) as nat).push(d));
        assert(decimal((m / 10) as nat) + digits@ =~= decimal((m / 10) as nat).push(d)
            + digits@.drop_first());
        m = m / 10;
    }
    string_of(digits.as_slice())
}

/// The decimal rendering of a signed integer.
pub fn i64_to_decimal(n: i64) -> (s: String)
    ensures
        s@ == signed_decimal(n as int),
{
    if n < 0 {
        let magnitude: u64 = ((-(n + 1)) as u64) + 1;
        let digits = u64_to_decimal(magnitude);
        let mut s = String::new();
        s.push('-');
        s.append(digits.as_str());
        s
    } else {
        u64_to_decimal(n as u64)
    }
}


/// `p` occurs in `s` at position `i`.
pub open spec fn occurs_at(s: Seq<char>, p: Seq<char>, i: int) -> bool {
    0 <= i && i + p.len() <= s.len() && s.subrange(i, i + p.len()) == p
}

/// `p` occurs somewhere in `s` (an empty `p` occurs in every string).
pub open spec fn contains(s: Seq<char>, p: Seq<char>) -> bool {
    exists|i: int| occurs_at(s, p, i)
}

/// `s` with every occurrence of `p` replaced by `r`, scanning left to
/// right and never overlapping two occurrences; an empty `p` occurs before
/// every character and at the end.
pub open spec fn replace_all(s: Seq<char>, p: Seq<char>, r: Seq<char>) -> Seq<char>
    decreases s.len(),
{
    if p.len() == 0 {
        if s.len() == 0 {
            r
        } else {
            r + seq![s[0]] + replace_all(s.drop_first(), p, r)
        }
    } else if s.len() < p.len() {
        s
    } else if s.take(p.len() as int) == p {
        r + replace_all(s.skip(p.len() as int), p, r)
    } else {
        seq![s[0]] + replace_all(s.drop_first(), p, r)
    }
}

/// One step of `replace_all` at position `i` of `s`.
proof fn lemma_replace_step(s: Seq<char>, p: Seq<char>, r: Seq<char>, i: int)
    requires
        0 <= i < s.len(),
        p.len() > 0,
    ensures
        occurs_at(s, p, i) ==> replace_all(s.skip(i), p, r) == r + replace_all(
            s.skip(i + p.len()),
            p,
            r,
        ),
        !occurs_at(s, p, i) ==> replace_all(s.skip(i), p, r) == seq![s[i]] + replace_all(
            s.skip(i + 1),
            p,
            r,
        ),
{
    let t = s.skip(i);
    assert(t.drop_first() =~= s.skip(i + 1));
    if t.len() < p.len() {
        assert(!occurs_at(s, p, i));
        assert(t =~= seq![s[i]] + s.skip(i + 1));
    } else {
        assert(t.take(p.len() as int) =~= s.subrange(i, i + p.len()));
        assert(t.skip(p.len() as int) =~= s.skip(i + p.len()));
    }
}

/// The first position at or after `i` where `p` occurs in `s`.
pub open spec fn first_occurrence_from(s: Seq<char>, p: Seq<char>, i: int) -> Option<int>
    decreases s.len() + 1 - i,
{
    if i < 0 || i > s.len() {
        None
    } else if occurs_at(s, p, i) {
        Some(i)
    } else {
        first_occurrence_from(s, p, i + 1)
    }
}

/// `first_occurrence_from` is the least occurrence at or after `i`.
proof fn lemma_first_occurrence(s: Seq<char>, p: Seq<char>, i: int, found: Option<int>)
    requires
        0 <= i,
        match found {
            Some(k) => i <= k && occurs_at(s, p, k) && forall|j: int|
                i <= j < k ==> !occurs_at(s, p, j),
            None => forall|j: int| i <= j ==> !occurs_at(s, p, j),
        },
    ensures
        first_occurrence_from(s, p, i) == found,
    decreases s.len() + 1 - i,
{
    if i > s.len() {
        if let Some(k) = found {
            assert(occurs_at(s, p, k));
        }
    } else if occurs_at(s, p, i) {
    } else {
        lemma_first_occurrence(s, p, i + 1, found);
    }
}

/// What `first_occurrence_from` finds is an occurrence at or after `i` with
/// none before it; when it finds nothing, there is none at or after `i`.
pub proof fn lemma_first_occurrence_found(s: Seq<char>, p: Seq<char>, i: int)
    requires
        0 <= i,
    ensures
        match first_occurrence_from(s, p, i) {
            Some(k) => i <= k && occurs_at(s, p, k) && forall|j: int|
                i <= j < k ==> !occurs_at(s, p, j),
            None => forall|j: int| i <= j ==> !occurs_at(s, p, j),
        },
    decreases s.len() + 1 - i,
{
    if i > s.len() {
    } else if occurs_at(s, p, i) {
    } else {
        lemma_first_occurrence_found(s, p, i + 1);
    }
}

/// Replacing every occurrence of a pattern with the pattern itself gives the
/// text back unchanged.
pub proof fn lemma_replace_with_itself(s: Seq<char>, p: Seq<char>)
    ensures
        replace_all(s, p, p) == s,
    decreases s.len(),
{
    if p.len() == 0 {
        if s.len() > 0 {
            lemma_replace_with_itself(s.drop_first(), p);
            assert(p + seq![s[0]] + s.drop_first() =~= s);
        }
    } else if s.len() < p.len() {
    } else if s.take(p.len() as int) == p {
        lemma_replace_with_itself(s.skip(p.len() as int), p);
        assert(p + s.skip(p.len() as int) =~= s);
    } else {
        lemma_replace_with_itself(s.drop_first(), p);
        assert(seq![s[0]] + s.drop_first() =~= s);
    }
}

/// A text in which the pattern does not occur is left unchanged by
/// replacing it.
pub proof fn lemma_replace_absent(s: Seq<char>, p: Seq<char>, r: Seq<char>)
    requires
        p.len() > 0,
        !contains(s, p),
    ensures
        replace_all(s, p, r) == s,
    decreases s.len(),
{
    if s.len() < p.len() {
    } else {
        assert(!occurs_at(s, p, 0));
        assert(s.subrange(0, p.len() as int) =~= s.take(p.len() as int));
        let t = s.drop_first();
        assert forall|i: int| !occurs_at(t, p, i) by {
            if occurs_at(t, p, i) {
                assert(s.subrange(i + 1, i + 1 + p.len()) =~= t.subrange(i, i + p.len()));
                assert(occurs_at(s, p, i + 1));
            }
        }
        lemma_replace_absent(t, p, r);
        assert(seq![s[0]] + t =~= s);
    }
}

/// Whether `p` occurs in `s` at position `i`.
pub fn occurs_at_index(s: &Vec<char>, p: &Vec<char>, i: usize) -> (b: bool)
    ensures
        b == occurs_at(s@, p@, i as int),
{
    if i > s.len() || p.len() > s.len() - i {
        return false;
    }
    let n = p.len();
    for j in 0..n
        invariant
            n == p@.len(),
            i + n <= s.len(),
            forall|k: int| 0 <= k < j ==> s@[i + k] == p@[k],
    {
        if s[i + j] != p[j] {
            assert(s@.subrange(i as int, i + n)[j as int] != p@[j as int]);
            return false;
        }
    }
    assert(s@.subrange(i as int, i + n) =~= p@);
    true
}

/// The first position at or after `start` where `p` occurs in `s`.
pub fn find_from(s: &Vec<char>, p: &Vec<char>, start: usize) -> (found: Option<usize>)
    requires
        start <= s@.len(),
    ensures
        match found {
            Some(i) => start <= i && occurs_at(s@, p@, i as int) && forall|j: int|
                start <= j < i ==> !occurs_at(s@, p@, j),
            None => forall|j: int| start <= j ==> !occurs_at(s@, p@, j),
        },
        found matches Some(i) ==> first_occurrence_from(s@, p@, start as int) == Some(i as int),
        found is None ==> first_occurrence_from(s@, p@, start as int) is None,
{
    let n = s.len();
    let mut i = start;
    loop
        invariant
            n == s@.len(),
            start <= i <= n,
            forall|j: int| start <= j < i ==> !occurs_at(s@, p@, j),
        decreases n - i,
    {
        if occurs_at_index(s, p, i) {
            proof {
                lemma_first_occurrence(s@, p@, start as int, Some(i as int));
            }
            return Some(i);
        }
        if i == n {
            proof {
                lemma_first_occurrence(s@, p@, start as int, None);
            }
            return None;
        }
        i = i + 1;
    }
}

/// Whether `p` occurs anywhere in `s`.
pub fn contains_chars(s: &Vec<char>, p: &Vec<char>) -> (b: bool)
    ensures
        b == contains(s@, p@),
{
    match find_from(s, p, 0) {
        Some(i) => true,
        None => false,
    }
}

/// `s` with every occurrence of `p` replaced by `r` (see `replace_all`).
pub fn replace_chars(s: &Vec<char>, p: &Vec<char>, r: &Vec<char>) -> (out: Vec<char>)
    ensures
        out@ == replace_all(s@, p@, r@),
{
    let n = s.len();
    let m = p.len();
    let mut out: Vec<char> = Vec::new();
    let mut i: usize = 0;
    assert(s@.skip(0) =~= s@);
    if m == 0 {
        while i < n
            invariant
                n == s@.len(),
                m == p@.len(),
                m == 0,
                i <= n,
                replace_all(s@, p@, r@) == out@ + replace_all(s@.skip(i as int), p@, r@),
            decreases n - i,
        {
            let ghost t = s@.skip(i as int);
            assert(t.drop_first() =~= s@.skip(i + 1));
            let mut rr = r.clone();
            out.append(&mut rr);
            out.push(s[i]);
            assert(replace_all(t, p@, r@) == r@ + seq![s@[i as int]] + replace_all(
                s@.skip(i + 1),
                p@,
                r@,
            ));
            i = i + 1;
        }
        let mut rr = r.clone();
        out.append(&mut rr);
        assert(s@.skip(n as int) =~= Seq::<char>::empty());
    } else {
        while i < n
            invariant
                n == s@.len(),
                m == p@.len(),
                m > 0,
                i <= n,
                replace_all(s@, p@, r@) == out@ + replace_all(s@.skip(i as int), p@, r@),
            decreases n - i,
        {
            proof {
                lemma_replace_step(s@, p@, r@, i as int);
            }
            if occurs_at_index(s, p, i) {
                let mut rr = r.clone();
                out.append(&mut rr);
                i = i + m;
            } else {
                out.push(s[i]);
                i = i + 1;
            }
        }
        assert(s@.skip(n as int) =~= Seq::<char>::empty());
    }
    assert(s@.skip(0) =~= s@);
    out
}


/// Position of the first line feed in `s`, or `s.len()` when there is none.
pub open spec fn newline_index(s: Seq<char>) -> nat
    decreases s.len(),
{
    if s.len() == 0 {
        0
    } else if s[0] == '\n' {
        0
    } else {
        1 + newline_index(s.drop_first())
    }
}

/// A line without the carriage return that ended it.
pub open spec fn strip_cr(line: Seq<char>) -> Seq<char> {
    if line.len() > 0 && line.last() == '\r' {
        line.drop_last()
    } else {
        line
    }
}

/// The lines of `s`: split at each `\n`, a `\r` right before it dropped,
/// and no empty line after a final line ending.
pub open spec fn lines(s: Seq<char>) -> Seq<Seq<char>>
    decreases s.len(),
{
    if s.len() == 0 {
        seq![]
    } else if newline_index(s) >= s.len() {
        seq![s]
    } else {
        seq![strip_cr(s.take(newline_index(s) as int))] + lines(
            s.skip(newline_index(s) as int + 1),
        )
    }
}

/// The pieces of `parts` joined with `sep` between consecutive pieces.
pub open spec fn join(parts: Seq<Seq<char>>, sep: Seq<char>) -> Seq<char>
    decreases parts.len(),
{
    if parts.len() == 0 {
        seq![]
    } else if parts.len() == 1 {
        parts[0]
    } else {
        join(parts.drop_last(), sep) + sep + parts.last()
    }
}

/// `newline_index` is the position `k` before which no line feed occurs and
/// at which one does, unless `k` is the end.
proof fn lemma_newline_index(t: Seq<char>, k: int)
    requires
        0 <= k <= t.len(),
        forall|j: int| 0 <= j < k ==> t[j] != '\n',
        k < t.len() ==> t[k] == '\n',
    ensures
        newline_index(t) == k,
    decreases k,
{
    if k > 0 {
        lemma_newline_index(t.drop_first(), k - 1);
    }
}

/// The character sequences held by a vector of character vectors.
pub open spec fn views(v: Seq<Vec<char>>) -> Seq<Seq<char>> {
    v.map_values(|x: Vec<char>| x@)
}

/// Joining a first piece to a nonempty list of pieces.
proof fn lemma_join_prepend(a: Seq<char>, rest: Seq<Seq<char>>, sep: Seq<char>)
    requires
        rest.len() > 0,
    ensures
        join(seq![a] + rest, sep) == a + sep + join(rest, sep),
    decreases rest.len(),
{
    let all = seq![a] + rest;
    if rest.len() == 1 {
        assert(all.drop_last() =~= seq![a]);
        assert(join(seq![a], sep) == a);
        assert(all.last() == rest[0]);
        assert(join(rest, sep) == rest[0]);
    } else {
        assert(all.drop_last() =~= seq![a] + rest.drop_last());
        lemma_join_prepend(a, rest.drop_last(), sep);
        assert(all.last() == rest.last());
        let j = join(rest.drop_last(), sep);
        assert(a + sep + j + sep + rest.last() =~= a + sep + (j + sep + rest.last()));
        assert(join(all, sep) == join(all.drop_last(), sep) + sep + all.last());
        assert(join(rest, sep) == j + sep + rest.last());
    }
}

/// A text without carriage returns that does not end with a line feed is
/// its lines joined with line feeds.
pub proof fn lemma_lines_rejoin(s: Seq<char>)
    requires
        forall|i: int| 0 <= i < s.len() ==> s[i] != '\r',
        s.len() == 0 || s.last() != '\n',
    ensures
        join(lines(s), seq!['\n']) == s,
    decreases s.len(),
{
    if s.len() == 0 {
    } else {
        let k = newline_index(s);
        lemma_newline_index_bounds(s);
        if k < s.len() {
            let rest = s.skip(k as int + 1);
            assert(k + 1 < s.len()) by {
                if k + 1 == s.len() {
                    assert(s.last() == s[k as int]);
                }
            }
            assert(rest.last() == s.last());
            lemma_lines_rejoin(rest);
            let first = s.take(k as int);
            assert(strip_cr(first) == first) by {
                if first.len() > 0 {
                    assert(first.last() == s[k - 1]);
                }
            }
            lemma_lines_nonempty(rest);
            lemma_join_prepend(first, lines(rest), seq!['\n']);
            assert(first + seq!['\n'] + rest =~= s);
        }
    }
}

/// The position of the first line feed is within the text, no line feed
/// comes before it, and one stands there unless it is the end.
proof fn lemma_newline_index_bounds(s: Seq<char>)
    ensures
        newline_index(s) <= s.len(),
        forall|j: int| 0 <= j < newline_index(s) ==> s[j] != '\n',
        newline_index(s) < s.len() ==> s[newline_index(s) as int] == '\n',
    decreases s.len(),
{
    if s.len() > 0 && s[0] != '\n' {
        lemma_newline_index_bounds(s.drop_first());
        assert forall|j: int| 0 <= j < newline_index(s) implies s[j] != '\n' by {
            if j > 0 {
                assert(s[j] == s.drop_first()[j - 1]);
            }
        }
    }
}

/// A nonempty text has at least one line.
proof fn lemma_lines_nonempty(s: Seq<char>)
    requires
        s.len() > 0,
    ensures
        lines(s).len() > 0,
{
}

/// The lines of a string.
pub fn split_lines(s: &Vec<char>) -> (out: Vec<Vec<char>>)
    ensures
        views(out@) == lines(s@),
{
    let n = s.len();
    let mut out: Vec<Vec<char>> = Vec::new();
    let mut cur: Vec<char> = Vec::new();
    let mut line_start: usize = 0;
    let mut i: usize = 0;
    assert(s@.skip(0) =~= s@);
    while i < n
        invariant
            n == s@.len(),
            line_start <= i <= n,
            cur@ == s@.subrange(line_start as int, i as int),
            forall|j: int| line_start <= j < i ==> s@[j] != '\n',
            lines(s@) == views(out@) + lines(s@.skip(line_start as int)),
        decreases n - i,
    {
        let c = s[i];
        if c == '\n' {
            let ghost t = s@.skip(line_start as int);
            proof {
                lemma_newline_index(t, i - line_start);
                assert(t.take(i - line_start) =~= cur@);
                assert(t.skip(i - line_start + 1) =~= s@.skip(i + 1));
            }
            let mut line = cur;
            let len = line.len();
            if len > 0 && line[len - 1] == '\r' {
                line.pop();
            }
            assert(line@ == strip_cr(cur@));
            let ghost before = views(out@);
            out.push(line);
            assert(views(out@) =~= before.push(strip_cr(cur@)));
            cur = Vec::new();
            line_start = i + 1;
            i = i + 1;
            assert(cur@ =~= s@.subrange(line_start as int, i as int));
        } else {
            cur.push(c);
            i = i + 1;
            assert(cur@ =~= s@.subrange(line_start as int, i as int));
        }
    }
    let ghost t = s@.skip(line_start as int);
    if line_start < n {
        proof {
            lemma_newline_index(t, n - line_start);
            assert(t =~= cur@);
        }
        let ghost before = views(out@);
        out.push(cur);
        assert(views(out@) =~= before.push(t));
    } else {
        assert(t.len() == 0);
        assert(views(out@) + lines(t) =~= views(out@));
    }
    out
}

/// The pieces `parts[start..end]` joined with `sep`.
pub fn join_range(parts: &Vec<Vec<char>>, start: usize, end: usize, sep: &Vec<char>) -> (out: Vec<
    char,
>)
    requires
        start <= end <= parts@.len(),
    ensures
        out@ == join(views(parts@).subrange(start as int, end as int), sep@),
{
    let ghost dv = views(parts@);
    let mut out: Vec<char> = Vec::new();
    let mut i = start;
    while i < end
        invariant
            start <= i <= end <= parts@.len(),
            dv == views(parts@),
            out@ == join(dv.subrange(start as int, i as int), sep@),
        decreases end - i,
    {
        let ghost prev = dv.subrange(start as int, i as int);
        assert(dv.subrange(start as int, i + 1).drop_last() =~= prev);
        if i > start {
            let mut sp = sep.clone();
            out.append(&mut sp);
        }
        let mut piece = parts[i].clone();
        assert(piece@ == dv[i as int]);
        out.append(&mut piece);
        assert(out@ =~= join(dv.subrange(start as int, i + 1), sep@));
        i = i + 1;
    }
    out
}

} // verus!
