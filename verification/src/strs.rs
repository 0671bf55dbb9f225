//! Character-level string operations with the meaning std gives them:
//! Unicode whitespace trimming, searching, splitting and unsigned decimal
//! parsing.
use vstd::prelude::*;
use crate::text::{chars_of, push_char};

verus! {

/// `char::is_whitespace`: the Unicode `White_Space` property.
pub open spec fn is_ws(c: char) -> bool {
    let u = c as u32;
    (0x09 <= u <= 0x0D) || u == 0x20 || u == 0x85 || u == 0xA0 || u == 0x1680
        || (0x2000 <= u <= 0x200A) || u == 0x2028 || u == 0x2029 || u == 0x202F || u == 0x205F
        || u == 0x3000
}

/// Tests the Unicode `White_Space` property.
pub fn char_is_ws(c: char) -> (r: bool)
    ensures
        r == is_ws(c),
{
    let u = c as u32;
    (0x09 <= u && u <= 0x0D) || u == 0x20 || u == 0x85 || u == 0xA0 || u == 0x1680
        || (0x2000 <= u && u <= 0x200A) || u == 0x2028 || u == 0x2029 || u == 0x202F || u == 0x205F
        || u == 0x3000
}

/// `s` without leading whitespace.
pub open spec fn trim_start(s: Seq<char>) -> Seq<char>
    decreases s.len(),
{
    if s.len() > 0 && is_ws(s[0]) { trim_start(s.drop_first()) } else { s }
}

/// `s` without trailing whitespace.
pub open spec fn trim_end(s: Seq<char>) -> Seq<char>
    decreases s.len(),
{
    if s.len() > 0 && is_ws(s.last()) { trim_end(s.drop_last()) } else { s }
}

/// `str::trim`.
pub open spec fn trim(s: Seq<char>) -> Seq<char> {
    trim_end(trim_start(s))
}

/// `s` without any trailing copies of `c` (`trim_end_matches`).
pub open spec fn trim_end_char(s: Seq<char>, c: char) -> Seq<char>
    decreases s.len(),
{
    if s.len() > 0 && s.last() == c { trim_end_char(s.drop_last(), c) } else { s }
}

/// `s` without any leading copies of `c` (`trim_start_matches`).
pub open spec fn trim_start_char(s: Seq<char>, c: char) -> Seq<char>
    decreases s.len(),
{
    if s.len() > 0 && s[0] == c { trim_start_char(s.drop_first(), c) } else { s }
}

/// The index of the first `c` in `s` at or after `from`.
pub open spec fn find_from(s: Seq<char>, c: char, from: int) -> Option<int>
    decreases s.len() - from,
{
    if from < 0 || from >= s.len() {
        None
    } else if s[from] == c {
        Some(from)
    } else {
        find_from(s, c, from + 1)
    }
}

/// The index of the first `c` in `s`.
pub open spec fn find(s: Seq<char>, c: char) -> Option<int> {
    find_from(s, c, 0)
}

/// The start of `s` is `p`.
pub open spec fn starts_with(s: Seq<char>, p: Seq<char>) -> bool {
    p.len() <= s.len() && s.take(p.len() as int) == p
}

/// The value of a run of ASCII digits.
pub open spec fn digits_value(s: Seq<char>) -> nat
    decreases s.len(),
{
    if s.len() == 0 { 0 } else { digits_value(s.drop_last()) * 10 + (s.last() as nat - '0' as nat) as nat }
}

/// Every character is an ASCII digit.
pub open spec fn all_digits(s: Seq<char>) -> bool {
    forall|i: int| 0 <= i < s.len() ==> '0' <= #[trigger] s[i] <= '9'
}

/// What `from_str` gives for an unsigned type whose largest value is `max`:
/// an optional `+`, then one or more ASCII digits, with a value up to `max`.
pub open spec fn parse_unsigned(s: Seq<char>, max: nat) -> Option<nat> {
    let d = if s.len() > 0 && s[0] == '+' { s.drop_first() } else { s };
    if d.len() == 0 || !all_digits(d) || digits_value(d) > max { None } else { Some(digits_value(d)) }
}

/// The decimal rendering of a number parses back to it.
pub proof fn lemma_dec_parse(n: nat, max: nat)
    requires
        n <= max,
    ensures
        parse_unsigned(crate::text::dec(n), max) == Some(n),
{
    crate::text::lemma_dec_digits(n);
    lemma_dec_value(n);
    assert(crate::text::dec(n)[0] != '+');
}

proof fn lemma_dec_value(n: nat)
    ensures
        digits_value(crate::text::dec(n)) == n,
        all_digits(crate::text::dec(n)),
    decreases n,
{
    crate::text::lemma_dec_digits(n);
    let d = n % 10;
    assert((crate::text::digit_char(d) as nat - '0' as nat) as nat == d) by {
        if d == 0 {} else if d == 1 {} else if d == 2 {} else if d == 3 {} else if d == 4 {}
        else if d == 5 {} else if d == 6 {} else if d == 7 {} else if d == 8 {} else {}
    }
    if n >= 10 {
        lemma_dec_value(n / 10);
        let s = crate::text::dec(n);
        assert(s.drop_last() =~= crate::text::dec(n / 10));
        assert(s.last() == crate::text::digit_char(d));
        assert(n == (n / 10) * 10 + d);
        assert(digits_value(s) == digits_value(s.drop_last()) * 10 + (s.last() as nat - '0' as nat) as nat);
    } else {
        let s = crate::text::dec(n);
        assert(s.drop_last() =~= Seq::<char>::empty());
        assert(digits_value(s) == digits_value(s.drop_last()) * 10 + (s.last() as nat - '0' as nat) as nat);
    }
}

fn lstrip(cs: &Vec<char>, a: usize, b: usize) -> (r: usize)
    requires
        a <= b <= cs@.len(),
    ensures
        a <= r <= b,
        trim_start(cs@.subrange(a as int, b as int)) == cs@.subrange(r as int, b as int),
{
    let mut i = a;
    while i < b && char_is_ws(cs[i])
        invariant
            a <= i <= b,
            b <= cs@.len(),
            trim_start(cs@.subrange(a as int, b as int)) == trim_start(cs@.subrange(i as int, b as int)),
        decreases b - i,
    {
        assert(cs@.subrange(i as int, b as int).drop_first() =~= cs@.subrange(i + 1, b as int));
        i = i + 1;
    }
    i
}

fn rstrip(cs: &Vec<char>, a: usize, b: usize) -> (r: usize)
    requires
        a <= b <= cs@.len(),
    ensures
        a <= r <= b,
        trim_end(cs@.subrange(a as int, b as int)) == cs@.subrange(a as int, r as int),
{
    let mut j = b;
    while j > a && char_is_ws(cs[j - 1])
        invariant
            a <= j <= b,
            b <= cs@.len(),
            trim_end(cs@.subrange(a as int, b as int)) == trim_end(cs@.subrange(a as int, j as int)),
        decreases j - a,
    {
        assert(cs@.subrange(a as int, j as int).drop_last() =~= cs@.subrange(a as int, j - 1));
        j = j - 1;
    }
    j
}

/// Bounds `(start, end)` of `trim` applied to the range `[a, b)` of `cs`.
pub fn trim_range(cs: &Vec<char>, a: usize, b: usize) -> (r: (usize, usize))
    requires
        a <= b <= cs@.len(),
    ensures
        a <= r.0 <= r.1 <= b,
        trim(cs@.subrange(a as int, b as int)) == cs@.subrange(r.0 as int, r.1 as int),
{
    let s = lstrip(cs, a, b);
    let e = rstrip(cs, s, b);
    (s, e)
}

/// The characters of `cs[a..b]` as a string.
pub fn range_string(cs: &Vec<char>, a: usize, b: usize) -> (r: String)
    requires
        a <= b <= cs@.len(),
    ensures
        r@ == cs@.subrange(a as int, b as int),
{
    let mut out = String::new();
    let mut i = a;
    while i < b
        invariant
            a <= i <= b,
            b <= cs@.len(),
            out@ == cs@.subrange(a as int, i as int),
        decreases b - i,
    {
        push_char(&mut out, cs[i]);
        i = i + 1;
        assert(out@ =~= cs@.subrange(a as int, i as int));
    }
    out
}

/// The first index of `c` in `cs[from..to]`.
pub fn find_in(cs: &Vec<char>, c: char, from: usize, to: usize) -> (r: Option<usize>)
    requires
        from <= to <= cs@.len(),
    ensures
        match r {
            Some(i) => from <= i < to && cs@[i as int] == c
                && forall|k: int| from <= k < i ==> cs@[k] != c,
            None => forall|k: int| from <= k < to ==> cs@[k] != c,
        },
{
    let mut i = from;
    while i < to
        invariant
            from <= i <= to,
            to <= cs@.len(),
            forall|k: int| from <= k < i ==> cs@[k] != c,
        decreases to - i,
    {
        if cs[i] == c {
            return Some(i);
        }
        i = i + 1;
    }
    None
}

/// `find_from` over a whole sequence agrees with a scan that found the first hit.
pub proof fn lemma_find_from(s: Seq<char>, c: char, from: int, i: int)
    requires
        0 <= from <= i < s.len(),
        s[i] == c,
        forall|k: int| from <= k < i ==> s[k] != c,
    ensures
        find_from(s, c, from) == Some(i),
    decreases i - from,
{
    if from < i {
        lemma_find_from(s, c, from + 1, i);
    }
}

/// `find_from` is `None` when no character from `from` on is `c`.
pub proof fn lemma_find_from_none(s: Seq<char>, c: char, from: int)
    requires
        0 <= from,
        forall|k: int| from <= k < s.len() ==> s[k] != c,
    ensures
        find_from(s, c, from) is None,
    decreases s.len() - from,
{
    if from < s.len() {
        lemma_find_from_none(s, c, from + 1);
    }
}

proof fn lemma_digits_prefix(s: Seq<char>, i: int)
    requires
        0 <= i < s.len(),
    ensures
        digits_value(s.take(i + 1)) == digits_value(s.take(i)) * 10 + (s[i] as nat - '0' as nat) as nat,
{
    assert(s.take(i + 1).drop_last() =~= s.take(i));
}

proof fn lemma_digits_monotone(s: Seq<char>, i: int, j: int)
    requires
        0 <= i <= j <= s.len(),
        all_digits(s),
    ensures
        digits_value(s.take(i)) <= digits_value(s.take(j)),
    decreases j - i,
{
    if i < j {
        lemma_digits_monotone(s, i, j - 1);
        lemma_digits_prefix(s, j - 1);
    }
}

/// Parses `cs[a..b]` as an unsigned decimal no larger than `max`, as
/// `from_str` of an unsigned type does.
pub fn parse_unsigned_range(cs: &Vec<char>, a: usize, b: usize, max: u64) -> (r: Option<u64>)
    requires
        a <= b <= cs@.len(),
    ensures
        match parse_unsigned(cs@.subrange(a as int, b as int), max as nat) {
            Some(v) => r == Some(v as u64),
            None => r is None,
        },
{
    let ghost s = cs@.subrange(a as int, b as int);
    let mut start = a;
    if a < b && cs[a] == '+' {
        start = a + 1;
    }
    let ghost d = cs@.subrange(start as int, b as int);
    assert(d =~= (if s.len() > 0 && s[0] == '+' { s.drop_first() } else { s }));
    let ghost res = if d.len() == 0 || !all_digits(d) || digits_value(d) > max as nat {
        None
    } else {
        Some(digits_value(d))
    };
    assert(parse_unsigned(s, max as nat) == res);
    if start == b {
        return None;
    }
    let mut v: u64 = 0;
    let mut i = start;
    while i < b
        invariant
            start <= i <= b,
            b <= cs@.len(),
            d == cs@.subrange(start as int, b as int),
            all_digits(d.take(i - start)),
            v == digits_value(d.take(i - start)),
            v <= max,
            parse_unsigned(s, max as nat) == res,
            res == (if d.len() == 0 || !all_digits(d) || digits_value(d) > max as nat { None } else { Some(digits_value(d)) }),
            s == cs@.subrange(a as int, b as int),
        decreases b - i,
    {
        let c = cs[i];
        assert(d[i - start] == c);
        proof { lemma_digits_prefix(d, i - start); }
        if !('0' <= c && c <= '9') {
            assert(d[i - start] == c);
            assert(!all_digits(d));
            return None;
        }
        let dv = (c as u32 - '0' as u32) as u64;
        if dv > max || v > (max - dv) / 10 {
            proof {
                assert(v * 10 + dv > max) by (nonlinear_arith)
                    requires dv > max || v > (max - dv) / 10, dv <= 9;
                if all_digits(d) {
                    lemma_digits_monotone(d, i - start + 1, d.len() as int);
                    assert(d.take(d.len() as int) =~= d);
                }
            }
            return None;
        }
        assert(v * 10 + dv <= max) by (nonlinear_arith)
            requires v <= (max - dv) / 10, dv <= max;
        v = v * 10 + dv;
        assert(all_digits(d.take(i - start + 1))) by {
            assert forall|k: int| 0 <= k < i - start + 1 implies '0' <= #[trigger] d.take(i - start + 1)[k] <= '9' by {
                if k < i - start { assert(d.take(i - start + 1)[k] == d.take(i - start)[k]); }
            }
        }
        i = i + 1;
    }
    assert(d.take(d.len() as int) =~= d);
    Some(v)
}

/// `s` split at every `c` (`str::split` semantics).
pub open spec fn split_char(s: Seq<char>, c: char) -> Seq<Seq<char>>
    decreases s.len(),
{
    if s.len() == 0 {
        seq![Seq::empty()]
    } else {
        let p = split_char(s.drop_last(), c);
        if s.last() == c {
            p.push(Seq::empty())
        } else {
            p.update(p.len() - 1, p.last().push(s.last()))
        }
    }
}

/// A text split at a character it does not hold is itself.
pub proof fn lemma_split_none(s: Seq<char>, c: char)
    requires
        forall|k: int| 0 <= k < s.len() ==> s[k] != c,
    ensures
        split_char(s, c) == seq![s],
    decreases s.len(),
{
    if s.len() > 0 {
        lemma_split_none(s.drop_last(), c);
        assert(s.drop_last().push(s.last()) =~= s);
        assert(seq![s.drop_last()].update(0, s.drop_last().push(s.last())) =~= seq![s]);
    } else {
        assert(s =~= Seq::<char>::empty());
        assert(split_char(s, c) =~= seq![s]);
    }
}

pub proof fn lemma_split_char_len(s: Seq<char>, c: char)
    ensures
        split_char(s, c).len() >= 1,
    decreases s.len(),
{
    if s.len() > 0 {
        lemma_split_char_len(s.drop_last(), c);
    }
}

/// The last piece of `s.take(i)` starts after the last separator before `i`.
pub proof fn lemma_split_char_last(s: Seq<char>, c: char, start: int, i: int)
    requires
        0 <= start <= i <= s.len(),
        start == 0 || s[start - 1] == c,
        forall|k: int| start <= k < i ==> s[k] != c,
    ensures
        split_char(s.take(i), c).len() >= 1,
        split_char(s.take(i), c).last() == s.subrange(start, i),
        split_char(s.take(i), c).drop_last() == split_char(s.take(start), c).drop_last(),
    decreases i - start,
{
    lemma_split_char_len(s.take(i), c);
    if i == start {
        if start > 0 {
            assert(s.take(start).drop_last() =~= s.take(start - 1));
            lemma_split_char_len(s.take(start - 1), c);
        }
        assert(s.subrange(start, i) =~= Seq::<char>::empty());
    } else {
        lemma_split_char_last(s, c, start, i - 1);
        assert(s.take(i).drop_last() =~= s.take(i - 1));
        assert(s.take(i).last() == s[i - 1]);
        assert(s.subrange(start, i) =~= s.subrange(start, i - 1).push(s[i - 1]));
        let p = split_char(s.take(i - 1), c);
        assert(split_char(s.take(i), c) == p.update(p.len() - 1, p.last().push(s[i - 1])));
        assert(split_char(s.take(i), c).drop_last() =~= p.drop_last());
    }
}

/// At a separator, the pieces so far gain the piece that the separator ends.
pub proof fn lemma_split_char_sep(s: Seq<char>, c: char, start: int, i: int)
    requires
        0 <= start <= i < s.len(),
        start == 0 || s[start - 1] == c,
        forall|k: int| start <= k < i ==> s[k] != c,
        s[i] == c,
    ensures
        split_char(s.take(i + 1), c).drop_last()
            == split_char(s.take(start), c).drop_last().push(s.subrange(start, i)),
{
    lemma_split_char_last(s, c, start, i);
    assert(s.take(i + 1).drop_last() =~= s.take(i));
    let p = split_char(s.take(i), c);
    assert(split_char(s.take(i + 1), c) == p.push(Seq::<char>::empty()));
    assert(split_char(s.take(i + 1), c).drop_last() =~= p);
    assert(p =~= p.drop_last().push(s.subrange(start, i)));
}

/// Bounds of `trim_start_matches(c)` applied to `cs[a..b]`.
pub fn strip_start_char(cs: &Vec<char>, a: usize, b: usize, c: char) -> (r: usize)
    requires
        a <= b <= cs@.len(),
    ensures
        a <= r <= b,
        trim_start_char(cs@.subrange(a as int, b as int), c) == cs@.subrange(r as int, b as int),
{
    let mut i = a;
    while i < b && cs[i] == c
        invariant
            a <= i <= b,
            b <= cs@.len(),
            trim_start_char(cs@.subrange(a as int, b as int), c)
                == trim_start_char(cs@.subrange(i as int, b as int), c),
        decreases b - i,
    {
        assert(cs@.subrange(i as int, b as int).drop_first() =~= cs@.subrange(i + 1, b as int));
        i = i + 1;
    }
    i
}

/// Bounds of `trim_end_matches(c)` applied to `cs[a..b]`.
pub fn strip_end_char(cs: &Vec<char>, a: usize, b: usize, c: char) -> (r: usize)
    requires
        a <= b <= cs@.len(),
    ensures
        a <= r <= b,
        trim_end_char(cs@.subrange(a as int, b as int), c) == cs@.subrange(a as int, r as int),
{
    let mut j = b;
    while j > a && cs[j - 1] == c
        invariant
            a <= j <= b,
            b <= cs@.len(),
            trim_end_char(cs@.subrange(a as int, b as int), c)
                == trim_end_char(cs@.subrange(a as int, j as int), c),
        decreases j - a,
    {
        assert(cs@.subrange(a as int, j as int).drop_last() =~= cs@.subrange(a as int, j - 1));
        j = j - 1;
    }
    j
}

/// Bounds of the pieces of `cs[a..b]` split at every `c`.
pub fn split_ranges(cs: &Vec<char>, a: usize, b: usize, c: char) -> (r: Vec<(usize, usize)>)
    requires
        a <= b <= cs@.len(),
    ensures
        r@.len() == split_char(cs@.subrange(a as int, b as int), c).len(),
        forall|k: int| 0 <= k < r@.len() ==> {
            &&& a <= (#[trigger] r@[k]).0 <= r@[k].1 <= b
            &&& cs@.subrange(r@[k].0 as int, r@[k].1 as int)
                == split_char(cs@.subrange(a as int, b as int), c)[k]
        },
{
    let ghost t = cs@.subrange(a as int, b as int);
    let mut out: Vec<(usize, usize)> = Vec::new();
    let mut start: usize = a;
    let mut i: usize = a;
    while i < b
        invariant
            a <= start <= i <= b,
            b <= cs@.len(),
            t == cs@.subrange(a as int, b as int),
            start == a || t[start - a - 1] == c,
            forall|k: int| start - a <= k < i - a ==> t[k] != c,
            out@.len() == split_char(t.take(start - a), c).drop_last().len(),
            forall|k: int| 0 <= k < out@.len() ==> {
                &&& a <= (#[trigger] out@[k]).0 <= out@[k].1 <= b
                &&& cs@.subrange(out@[k].0 as int, out@[k].1 as int)
                    == split_char(t.take(start - a), c).drop_last()[k]
            },
        decreases b - i,
    {
        if cs[i] == c {
            proof {
                lemma_split_char_sep(t, c, start - a, i - a);
                assert(t.subrange(start - a, i - a) =~= cs@.subrange(start as int, i as int));
            }
            out.push((start, i));
            start = i + 1;
        }
        i = i + 1;
    }
    proof {
        lemma_split_char_last(t, c, start - a, b - a);
        assert(t.take(b - a) =~= t);
        assert(t.subrange(start - a, b - a) =~= cs@.subrange(start as int, b as int));
    }
    out.push((start, b));
    proof {
        let p = split_char(t, c);
        assert(p =~= p.drop_last().push(cs@.subrange(start as int, b as int)));
    }
    out
}

/// What `str::to_uppercase` returns for the characters `s` (Unicode case mapping).
pub uninterp spec fn uppercase(s: Seq<char>) -> Seq<char>;

/// The ASCII uppercase of a character: `a`-`z` become `A`-`Z`, every other
/// character stays.
pub open spec fn ascii_upper(c: char) -> char {
    if 'a' <= c && c <= 'z' { ((c as u32) - 32) as char } else { c }
}

/// The upper case of text: the ASCII uppercase of each character when all
/// are ASCII, and what `str::to_uppercase` gives (`uppercase`) otherwise.
pub open spec fn upper_of(s: Seq<char>) -> Seq<char> {
    if forall|i: int| 0 <= i < s.len() ==> (#[trigger] s[i] as u32) < 128 {
        s.map_values(|c: char| ascii_upper(c))
    } else {
        uppercase(s)
    }
}

/// Calls `str::to_uppercase`. Its result is named: the Unicode uppercase
/// mapping of the argument, a function of the argument alone. Of text that
/// is all ASCII it also states the mapping, as Unicode defines it there:
/// each of `a`-`z` becomes its capital and every other character stays, one
/// for one.
#[verifier::external_body]
pub(crate) fn to_uppercase(s: &str) -> (r: String)
    ensures
        r@ == uppercase(s@),
        (forall|i: int| 0 <= i < s@.len() ==> (#[trigger] s@[i] as u32) < 128) ==> r@ == s@.map_values(
            |c: char| ascii_upper(c),
        ),
{
    s.to_uppercase()
}

/// The first index at which `pat` occurs in `s`.
pub open spec fn find_substr(s: Seq<char>, pat: Seq<char>) -> Option<int> {
    if exists|i: int| 0 <= i && i + pat.len() <= s.len() && #[trigger] s.subrange(i, i + pat.len()) == pat {
        Some(choose|i: int| 0 <= i && i + pat.len() <= s.len() && #[trigger] s.subrange(i, i + pat.len()) == pat
            && forall|j: int| 0 <= j < i ==> #[trigger] s.subrange(j, j + pat.len()) != pat)
    } else {
        None
    }
}

/// Whether `pat` occurs at `i`.
pub fn matches_at(cs: &Vec<char>, i: usize, pat: &Vec<char>) -> (r: bool)
    requires
        i <= cs@.len(),
    ensures
        r == (i + pat@.len() <= cs@.len() && cs@.subrange(i as int, i + pat@.len()) == pat@),
{
    let n = cs.len();
    if n - i < pat.len() {
        return false;
    }
    let mut k: usize = 0;
    while k < pat.len()
        invariant
            k <= pat@.len(),
            i + pat@.len() <= cs@.len(),
            n == cs@.len(),
            forall|j: int| 0 <= j < k ==> cs@[i + j] == pat@[j],
        decreases pat.len() - k,
    {
        if cs[i + k] != pat[k] {
            assert(cs@.subrange(i as int, i + pat@.len())[k as int] != pat@[k as int]);
            return false;
        }
        k = k + 1;
    }
    assert(cs@.subrange(i as int, i + pat@.len()) =~= pat@);
    true
}

/// Whether two strings hold the same characters.
pub fn text_eq(a: &str, b: &str) -> (r: bool)
    ensures
        r == (a@ == b@),
{
    let ca = crate::text::chars_of(a);
    let cb = crate::text::chars_of(b);
    if ca.len() != cb.len() {
        return false;
    }
    let r = matches_at(&ca, 0, &cb);
    assert(ca@.subrange(0, cb@.len() as int) =~= ca@);
    r
}

/// Whether `pat` occurs in `s` (`str::contains`).
pub fn str_contains(s: &str, pat: &str) -> (r: bool)
    ensures
        r == (find_substr(s@, pat@) is Some),
{
    let cs = crate::text::chars_of(s);
    let p = crate::text::chars_of(pat);
    assert(cs@.skip(0) =~= cs@);
    find_substr_from(&cs, 0, &p).is_some()
}

/// Whether `s` begins with `pat` (`str::starts_with`).
pub fn str_starts_with(s: &str, pat: &str) -> (r: bool)
    ensures
        r == starts_with(s@, pat@),
{
    let cs = crate::text::chars_of(s);
    let p = crate::text::chars_of(pat);
    if p.len() > cs.len() {
        return false;
    }
    let r = matches_at(&cs, 0, &p);
    assert(cs@.subrange(0, p@.len() as int) =~= cs@.take(p@.len() as int));
    r
}

/// Finds the first occurrence of `pat` in `cs` at or after `from`.
pub fn find_substr_from(cs: &Vec<char>, from: usize, pat: &Vec<char>) -> (r: Option<usize>)
    requires
        from <= cs@.len(),
    ensures
        match find_substr(cs@.skip(from as int), pat@) {
            Some(i) => r matches Some(j) && j == from + i,
            None => r is None,
        },
        match r {
            Some(i) => from <= i && i + pat@.len() <= cs@.len(),
            None => true,
        },
{
    let ghost t = cs@.skip(from as int);
    let mut i = from;
    while i <= cs.len()
        invariant
            from <= i <= cs@.len(),
            t == cs@.skip(from as int),
            forall|j: int| 0 <= j < i - from && j + pat@.len() <= t.len() ==> #[trigger] t.subrange(j, j + pat@.len()) != pat@,
        decreases cs.len() + 1 - i,
    {
        if matches_at(cs, i, pat) {
            assert(t.subrange(i - from, i - from + pat@.len()) =~= cs@.subrange(i as int, i + pat@.len()));
            let ghost w = (i - from) as int;
            assert(0 <= w && w + pat@.len() <= t.len() && t.subrange(w, w + pat@.len()) == pat@);
            let ghost c = choose|k: int| 0 <= k && k + pat@.len() <= t.len() && #[trigger] t.subrange(k, k + pat@.len()) == pat@
                && forall|j: int| 0 <= j < k ==> #[trigger] t.subrange(j, j + pat@.len()) != pat@;
            assert(0 <= w && w + pat@.len() <= t.len() && t.subrange(w, w + pat@.len()) == pat@
                && forall|j: int| 0 <= j < w ==> #[trigger] t.subrange(j, j + pat@.len()) != pat@);
            assert(c == w) by {
                if c < w {
                    assert(t.subrange(c, c + pat@.len()) != pat@);
                } else if c > w {
                    assert(t.subrange(w, w + pat@.len()) != pat@);
                }
            }
            return Some(i);
        }
        proof {
            if i + pat@.len() <= cs@.len() {
                assert(t.subrange(i - from, i - from + pat@.len()) =~= cs@.subrange(i as int, i + pat@.len()));
            }
        }
        if i == cs.len() {
            assert(forall|j: int| 0 <= j && j + pat@.len() <= t.len() ==> #[trigger] t.subrange(j, j + pat@.len()) != pat@);
            return None;
        }
        i = i + 1;
    }
    None
}


/// The words of `s` up to its last character, and the word being read.
pub open spec fn words_fold(s: Seq<char>) -> (Seq<Seq<char>>, Seq<char>)
    decreases s.len(),
{
    if s.len() == 0 {
        (Seq::empty(), Seq::empty())
    } else {
        let (ws, cur) = words_fold(s.drop_last());
        if is_ws(s.last()) {
            (if cur.len() > 0 { ws.push(cur) } else { ws }, Seq::empty())
        } else {
            (ws, cur.push(s.last()))
        }
    }
}

/// `str::split_whitespace`: the non-empty runs of non-whitespace
/// characters, in order.
pub open spec fn words(s: Seq<char>) -> Seq<Seq<char>> {
    let (ws, cur) = words_fold(s);
    if cur.len() > 0 { ws.push(cur) } else { ws }
}

/// Splits a text at whitespace into its words.
pub fn split_words(s: &str) -> (r: Vec<String>)
    ensures
        r@.map_values(|x: String| x@) == words(s@),
{
    let cs = chars_of(s);
    let mut ws: Vec<String> = Vec::new();
    let mut cur = String::new();
    let mut i: usize = 0;
    while i < cs.len()
        invariant
            i <= cs@.len(),
            cs@ == s@,
            words_fold(cs@.take(i as int)) == (ws@.map_values(|x: String| x@), cur@),
        decreases cs.len() - i,
    {
        let ch = cs[i];
        assert(cs@.take(i + 1).drop_last() =~= cs@.take(i as int));
        assert(cs@.take(i + 1).last() == ch);
        if char_is_ws(ch) {
            if !cur.as_str().is_empty() {
                let mut t = String::new();
                std::mem::swap(&mut t, &mut cur);
                let ghost before = ws@;
                ws.push(t);
                assert(ws@.map_values(|x: String| x@) =~= before.map_values(|x: String| x@).push(t@));
            } else {
                cur = String::new();
            }
            assert(cur@ =~= Seq::<char>::empty());
        } else {
            push_char(&mut cur, ch);
        }
        i = i + 1;
    }
    assert(cs@.take(cs@.len() as int) =~= cs@);
    if !cur.as_str().is_empty() {
        let ghost before = ws@;
        ws.push(cur);
        assert(ws@.map_values(|x: String| x@) =~= before.map_values(|x: String| x@).push(words_fold(s@).1));
    }
    ws
}

} // verus!
