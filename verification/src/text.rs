//! Character-level string helpers shared by the parsers and config code.
//!
//! Strings are handled through their view, a sequence of Unicode scalar
//! values (`Seq<char>`). Conversions between `&str`/`String` and `Vec<char>`
//! keep that view unchanged.

use vstd::prelude::*;

verus! {

/// The characters of a string slice, in order.
pub fn chars_of(s: &str) -> (v: Vec<char>)
    ensures
        v@ == s@,
{
    let mut v: Vec<char> = Vec::new();
    for c in it: s.chars()
        invariant
            v@ == it.seq().take(it.index() as int),
    {
        v.push(c);
    }
    v
}

/// Collects characters into an owned string (std's `FromIterator<char>`).
#[verifier::external_body]
pub fn string_from_chars(v: &[char]) -> (s: String)
    ensures
        s@ == v@,
{
    v.iter().collect()
}

/// An owned copy of a string slice.
pub fn owned(s: &str) -> (r: String)
    ensures
        r@ == s@,
{
    s.to_owned()
}

/// Unicode `White_Space` property, the set `char::is_whitespace` tests.
pub open spec fn is_ws(c: char) -> bool {
    ||| ('\u{9}' <= c && c <= '\u{d}')
    ||| c == ' '
    ||| c == '\u{85}'
    ||| c == '\u{a0}'
    ||| c == '\u{1680}'
    ||| ('\u{2000}' <= c && c <= '\u{200a}')
    ||| c == '\u{2028}'
    ||| c == '\u{2029}'
    ||| c == '\u{202f}'
    ||| c == '\u{205f}'
    ||| c == '\u{3000}'
}

pub fn is_whitespace(c: char) -> (b: bool)
    ensures
        b == is_ws(c),
{
    ('\u{9}' <= c && c <= '\u{d}') || c == ' ' || c == '\u{85}' || c == '\u{a0}' || c == '\u{1680}'
        || ('\u{2000}' <= c && c <= '\u{200a}') || c == '\u{2028}' || c == '\u{2029}' || c
        == '\u{202f}' || c == '\u{205f}' || c == '\u{3000}'
}

/// Number of leading whitespace characters.
pub open spec fn lead_ws(s: Seq<char>) -> nat
    decreases s.len(),
{
    if s.len() > 0 && is_ws(s[0]) {
        1 + lead_ws(s.skip(1))
    } else {
        0
    }
}

/// Number of trailing whitespace characters.
pub open spec fn trail_ws(s: Seq<char>) -> nat
    decreases s.len(),
{
    if s.len() > 0 && is_ws(s.last()) {
        1 + trail_ws(s.drop_last())
    } else {
        0
    }
}

/// `str::trim_start`.
pub open spec fn trim_start(s: Seq<char>) -> Seq<char> {
    s.skip(lead_ws(s) as int)
}

/// `str::trim_end`.
pub open spec fn trim_end(s: Seq<char>) -> Seq<char> {
    s.take(s.len() - trail_ws(s))
}

/// `str::trim`: both ends stripped of Unicode whitespace.
pub open spec fn trim(s: Seq<char>) -> Seq<char> {
    trim_end(trim_start(s))
}

proof fn lemma_lead_ws_bound(s: Seq<char>)
    ensures
        lead_ws(s) <= s.len(),
        forall|i: int| 0 <= i < lead_ws(s) ==> is_ws(#[trigger] s[i]),
        lead_ws(s) < s.len() ==> !is_ws(s[lead_ws(s) as int]),
    decreases s.len(),
{
    if s.len() > 0 && is_ws(s[0]) {
        lemma_lead_ws_bound(s.skip(1));
        assert forall|i: int| 0 <= i < lead_ws(s) implies is_ws(#[trigger] s[i]) by {
            if i > 0 {
                assert(s[i] == s.skip(1)[i - 1]);
            }
        }
        if lead_ws(s) < s.len() {
            assert(s[lead_ws(s) as int] == s.skip(1)[lead_ws(s.skip(1)) as int]);
        }
    }
}

proof fn lemma_trail_ws_bound(s: Seq<char>)
    ensures
        trail_ws(s) <= s.len(),
        forall|i: int| s.len() - trail_ws(s) <= i < s.len() ==> is_ws(#[trigger] s[i]),
        trail_ws(s) < s.len() ==> !is_ws(s[s.len() - trail_ws(s) - 1]),
    decreases s.len(),
{
    if s.len() > 0 && is_ws(s.last()) {
        lemma_trail_ws_bound(s.drop_last());
        assert forall|i: int| s.len() - trail_ws(s) <= i < s.len() implies is_ws(#[trigger] s[i]) by {
            if i < s.len() - 1 {
                assert(s[i] == s.drop_last()[i]);
            }
        }
        if trail_ws(s) < s.len() {
            assert(s[s.len() - trail_ws(s) - 1] == s.drop_last()[s.len() - trail_ws(s) - 1]);
        }
    }
}

/// Characters of `s` with leading and trailing whitespace removed.
pub fn trim_chars(s: &Vec<char>) -> (r: Vec<char>)
    ensures
        r@ == trim(s@),
{
    let n = s.len();
    let mut start: usize = 0;
    proof {
        lemma_lead_ws_bound(s@);
    }
    while start < n && is_whitespace(s[start])
        invariant
            start <= n == s@.len(),
            lead_ws(s@) <= n,
            start <= lead_ws(s@),
            forall|i: int| 0 <= i < lead_ws(s@) ==> is_ws(#[trigger] s@[i]),
            lead_ws(s@) < n ==> !is_ws(s@[lead_ws(s@) as int]),
        decreases n - start,
    {
        start = start + 1;
    }
    assert(start == lead_ws(s@));
    let ghost t = s@.skip(start as int);
    proof {
        lemma_trail_ws_bound(t);
    }
    let mut end: usize = n;
    while end > start && is_whitespace(s[end - 1])
        invariant
            start <= end <= n == s@.len(),
            t == s@.skip(start as int),
            trail_ws(t) <= t.len(),
            end - start >= t.len() - trail_ws(t),
            forall|i: int| t.len() - trail_ws(t) <= i < t.len() ==> is_ws(#[trigger] t[i]),
            trail_ws(t) < t.len() ==> !is_ws(t[t.len() - trail_ws(t) - 1]),
        decreases end,
    {
        assert(s@[end - 1] == t[end - 1 - start]);
        end = end - 1;
    }
    proof {
        if end - start > t.len() - trail_ws(t) {
            assert(s@[end - 1] == t[end - 1 - start]);
        }
    }
    let mut r: Vec<char> = Vec::new();
    let mut i = start;
    while i < end
        invariant
            start <= i <= end <= n == s@.len(),
            r@ == s@.subrange(start as int, i as int),
        decreases end - i,
    {
        r.push(s[i]);
        i = i + 1;
    }
    assert(r@ =~= trim(s@));
    r
}

/// `p` occurs in `s` starting at position `i`.
pub open spec fn occurs_at(s: Seq<char>, p: Seq<char>, i: int) -> bool {
    0 <= i && i + p.len() <= s.len() && s.subrange(i, i + p.len()) == p
}

/// `str::starts_with` with a string pattern.
pub open spec fn starts_with(s: Seq<char>, p: Seq<char>) -> bool {
    occurs_at(s, p, 0)
}

/// `str::contains` with a string pattern.
pub open spec fn contains(s: Seq<char>, p: Seq<char>) -> bool {
    exists|i: int| occurs_at(s, p, i)
}

/// Does `p` occur in `s` at position `i`?
pub fn occurs_at_exec(s: &Vec<char>, p: &Vec<char>, i: usize) -> (b: bool)
    ensures
        b == occurs_at(s@, p@, i as int),
{
    if i > s.len() || p.len() > s.len() - i {
        return false;
    }
    let mut k: usize = 0;
    while k < p.len()
        invariant
            i + p.len() <= s.len(),
            i + p@.len() <= s@.len(),
            k <= p@.len(),
            forall|j: int| 0 <= j < k ==> s@[i + j] == p@[j],
        decreases p.len() - k,
    {
        if s[i + k] != p[k] {
            assert(s@.subrange(i as int, i + p@.len())[k as int] != p@[k as int]);
            return false;
        }
        k = k + 1;
    }
    assert(s@.subrange(i as int, i + p@.len()) =~= p@);
    true
}

/// Does `s` begin with `p`?
pub fn starts_with_exec(s: &Vec<char>, p: &Vec<char>) -> (b: bool)
    ensures
        b == starts_with(s@, p@),
{
    occurs_at_exec(s, p, 0)
}

/// `str::ends_with` with a string pattern.
pub open spec fn ends_with(s: Seq<char>, p: Seq<char>) -> bool {
    p.len() <= s.len() && occurs_at(s, p, s.len() - p.len())
}

pub fn ends_with_exec(s: &Vec<char>, p: &Vec<char>) -> (b: bool)
    ensures
        b == ends_with(s@, p@),
{
    if p.len() > s.len() {
        return false;
    }
    occurs_at_exec(s, p, s.len() - p.len())
}

/// The characters of `s` from position `a` up to (not including) `b`.
pub fn subrange_chars(s: &Vec<char>, a: usize, b: usize) -> (r: Vec<char>)
    requires
        a <= b <= s@.len(),
    ensures
        r@ == s@.subrange(a as int, b as int),
{
    let mut r: Vec<char> = Vec::new();
    let mut i: usize = a;
    while i < b
        invariant
            a <= i <= b <= s@.len(),
            r@ == s@.subrange(a as int, i as int),
        decreases b - i,
    {
        r.push(s[i]);
        i = i + 1;
        assert(r@ =~= s@.subrange(a as int, i as int));
    }
    r
}


/// Does `p` occur anywhere in `s`?
pub fn contains_exec(s: &Vec<char>, p: &Vec<char>) -> (b: bool)
    ensures
        b == contains(s@, p@),
{
    let mut i: usize = 0;
    while i < s.len()
        invariant
            i <= s@.len(),
            forall|j: int| 0 <= j < i ==> !occurs_at(s@, p@, j),
        decreases s.len() - i,
    {
        if occurs_at_exec(s, p, i) {
            return true;
        }
        i = i + 1;
    }
    if occurs_at_exec(s, p, i) {
        return true;
    }
    assert forall|j: int| !occurs_at(s@, p@, j) by {
        if 0 <= j <= i {
        }
    }
    false
}

/// `str::replace`: every non-overlapping occurrence of `from`, scanning left
/// to right, is replaced by `to`. `from` is non-empty wherever it is used.
pub open spec fn replace_all(s: Seq<char>, from: Seq<char>, to: Seq<char>) -> Seq<char>
    decreases s.len(),
{
    if from.len() == 0 || s.len() == 0 {
        s
    } else if occurs_at(s, from, 0) {
        to + replace_all(s.skip(from.len() as int), from, to)
    } else {
        seq![s[0]] + replace_all(s.skip(1), from, to)
    }
}

/// Replaces every occurrence of `from` in `s` by `to`.
pub fn replace_all_exec(s: &Vec<char>, from: &Vec<char>, to: &Vec<char>) -> (r: Vec<char>)
    requires
        from@.len() > 0,
    ensures
        r@ == replace_all(s@, from@, to@),
{
    let mut out: Vec<char> = Vec::new();
    let mut i: usize = 0;
    assert(s@.skip(0) =~= s@);
    assert(out@ + replace_all(s@, from@, to@) =~= replace_all(s@, from@, to@));
    while i < s.len()
        invariant
            i <= s@.len(),
            from@.len() > 0,
            out@ + replace_all(s@.skip(i as int), from@, to@) == replace_all(s@, from@, to@),
        decreases s.len() - i,
    {
        let ghost rest = s@.skip(i as int);
        let hit = occurs_at_exec(s, from, i);
        assert(occurs_at(rest, from@, 0) == hit) by {
            if hit {
                assert(rest.subrange(0, from@.len() as int) =~= s@.subrange(
                    i as int,
                    i + from@.len(),
                ));
            } else if i + from@.len() <= s@.len() {
                assert(rest.subrange(0, from@.len() as int) =~= s@.subrange(
                    i as int,
                    i + from@.len(),
                ));
            }
        }
        let ghost out0 = out@;
        if hit {
            let mut k: usize = 0;
            while k < to.len()
                invariant
                    k <= to@.len(),
                    out@ == out0 + to@.take(k as int),
                decreases to.len() - k,
            {
                out.push(to[k]);
                k = k + 1;
                assert(out@ =~= out0 + to@.take(k as int));
            }
            assert(to@.take(to@.len() as int) =~= to@);
            assert(rest.skip(from@.len() as int) =~= s@.skip(i + from@.len()));
            assert(out0 + (to@ + replace_all(rest.skip(from@.len() as int), from@, to@)) =~= out@
                + replace_all(rest.skip(from@.len() as int), from@, to@));
            i = i + from.len();
        } else {
            out.push(s[i]);
            assert(rest.skip(1) =~= s@.skip(i + 1));
            assert(out0 + (seq![rest[0]] + replace_all(rest.skip(1), from@, to@)) =~= out@
                + replace_all(rest.skip(1), from@, to@));
            i = i + 1;
        }
    }
    assert(s@.skip(i as int) =~= Seq::<char>::empty());
    assert(out@ + Seq::<char>::empty() =~= out@);
    out
}

/// `char::to_ascii_lowercase`.
pub open spec fn ascii_lower(c: char) -> char {
    if 'A' <= c && c <= 'Z' {
        ((c as u32) + 32) as char
    } else {
        c
    }
}

/// `char::to_ascii_uppercase`.
pub open spec fn ascii_upper(c: char) -> char {
    if 'a' <= c && c <= 'z' {
        ((c as u32) - 32) as char
    } else {
        c
    }
}

/// `str::to_ascii_uppercase`.
pub open spec fn ascii_upper_str(s: Seq<char>) -> Seq<char> {
    s.map_values(|c: char| ascii_upper(c))
}

/// The string with its ASCII letters in upper case.
pub fn to_ascii_uppercase(s: &str) -> (r: String)
    ensures
        r@ == ascii_upper_str(s@),
{
    let cs = chars_of(s);
    let mut out: Vec<char> = Vec::new();
    let mut i: usize = 0;
    while i < cs.len()
        invariant
            i <= cs@.len(),
            out@ == ascii_upper_str(cs@.take(i as int)),
        decreases cs.len() - i,
    {
        let c = cs[i];
        let u = if 'a' <= c && c <= 'z' {
            let code: u32 = (c as u32) - 32;
            assert(0x41 <= code <= 0x5a);
            (code as u8) as char
        } else {
            c
        };
        out.push(u);
        i = i + 1;
        assert(out@ =~= ascii_upper_str(cs@.take(i as int)));
    }
    assert(cs@.take(i as int) =~= cs@);
    string_from_chars(out.as_slice())
}

/// `str::eq_ignore_ascii_case`.
pub open spec fn eq_ignore_ascii_case(a: Seq<char>, b: Seq<char>) -> bool {
    a.len() == b.len() && forall|i: int| 0 <= i < a.len() ==> ascii_lower(a[i]) == ascii_lower(
        b[i],
    )
}

pub fn ascii_lower_exec(c: char) -> (r: char)
    ensures
        r == ascii_lower(c),
{
    if 'A' <= c && c <= 'Z' {
        let code: u32 = (c as u32) + 32;
        assert(0x61 <= code <= 0x7a);
        (code as u8) as char
    } else {
        c
    }
}

/// Compares two character sequences ignoring ASCII case.
pub fn eq_ignore_ascii_case_exec(a: &Vec<char>, b: &Vec<char>) -> (r: bool)
    ensures
        r == eq_ignore_ascii_case(a@, b@),
{
    if a.len() != b.len() {
        return false;
    }
    let mut i: usize = 0;
    while i < a.len()
        invariant
            a@.len() == b@.len(),
            i <= a@.len(),
            forall|j: int| 0 <= j < i ==> ascii_lower(a@[j]) == ascii_lower(b@[j]),
        decreases a.len() - i,
    {
        if ascii_lower_exec(a[i]) != ascii_lower_exec(b[i]) {
            return false;
        }
        i = i + 1;
    }
    true
}

/// Equality of two character sequences.
pub fn chars_eq(a: &Vec<char>, b: &Vec<char>) -> (r: bool)
    ensures
        r == (a@ == b@),
{
    if a.len() != b.len() {
        return false;
    }
    let mut i: usize = 0;
    while i < a.len()
        invariant
            a@.len() == b@.len(),
            i <= a@.len(),
            forall|j: int| 0 <= j < i ==> a@[j] == b@[j],
        decreases a.len() - i,
    {
        if a[i] != b[i] {
            return false;
        }
        i = i + 1;
    }
    assert(a@ =~= b@);
    true
}

/// Equality of two strings, through their views.
pub fn str_eq(a: &str, b: &str) -> (r: bool)
    ensures
        r == (a@ == b@),
{
    chars_eq(&chars_of(a), &chars_of(b))
}

pub open spec fn is_digit(c: char) -> bool {
    '0' <= c && c <= '9'
}

pub open spec fn digit_value(c: char) -> nat {
    ((c as u32) - ('0' as u32)) as nat
}

pub open spec fn all_digits(s: Seq<char>) -> bool {
    forall|i: int| 0 <= i < s.len() ==> is_digit(#[trigger] s[i])
}

/// Value of a run of decimal digits, most significant first.
pub open spec fn digits_value(s: Seq<char>) -> nat
    decreases s.len(),
{
    if s.len() == 0 {
        0
    } else {
        digits_value(s.drop_last()) * 10 + digit_value(s.last())
    }
}

/// `u32::from_str`: an optional `+`, then one or more ASCII digits whose
/// value fits in 32 bits.
pub open spec fn parse_u32_spec(s: Seq<char>) -> Option<u32> {
    let d = if s.len() > 0 && s[0] == '+' {
        s.skip(1)
    } else {
        s
    };
    if d.len() > 0 && all_digits(d) && digits_value(d) <= u32::MAX {
        Some(digits_value(d) as u32)
    } else {
        None
    }
}

proof fn lemma_digits_value_monotone(s: Seq<char>, k: int)
    requires
        0 <= k <= s.len(),
        all_digits(s),
    ensures
        digits_value(s.take(k)) <= digits_value(s),
    decreases s.len() - k,
{
    if k < s.len() {
        lemma_digits_value_monotone(s, k + 1);
        assert(s.take(k + 1).drop_last() =~= s.take(k));
    } else {
        assert(s.take(k) =~= s);
    }
}

/// The decimal form of `n` reads back as `n`: its digits are all decimal
/// digits, and there is at least one.
pub proof fn lemma_decimal_reads_back(n: nat)
    ensures
        decimal(n).len() > 0,
        all_digits(decimal(n)),
        digits_value(decimal(n)) == n,
        parse_u32_spec(decimal(n)) == if n <= u32::MAX {
            Some(n as u32)
        } else {
            None::<u32>
        },
    decreases n,
{
    if n < 10 {
        let s = decimal(n);
        assert(s =~= seq![digit_char(n)]);
        assert(digit_value(digit_char(n)) == n);
        assert(s.drop_last() =~= Seq::<char>::empty());
        assert(digits_value(Seq::<char>::empty()) == 0);
        assert(digits_value(s) == digits_value(s.drop_last()) * 10 + digit_value(s.last()));
    } else {
        lemma_decimal_reads_back(n / 10);
        let d = decimal(n / 10);
        let s = decimal(n);
        assert(s == d.push(digit_char(n % 10)));
        assert(s.drop_last() =~= d);
        assert(digit_value(digit_char(n % 10)) == n % 10);
        assert(s.last() == digit_char(n % 10));
        assert(digits_value(s) == digits_value(s.drop_last()) * 10 + digit_value(s.last()));
        assert((n / 10) * 10 + n % 10 == n);
        assert forall|i: int| 0 <= i < s.len() implies is_digit(#[trigger] s[i]) by {
            if i < d.len() {
                assert(s[i] == d[i]);
            }
        }
    }
    assert(decimal(n)[0] != '+') by {
        if n >= 10 {
            lemma_decimal_reads_back(n / 10);
            assert(decimal(n)[0] == decimal(n / 10)[0]);
        }
    }
}

/// Parses an unsigned 32-bit decimal number as `str::parse::<u32>` does.
pub fn parse_u32(s: &Vec<char>) -> (r: Option<u32>)
    ensures
        r == parse_u32_spec(s@),
{
    let start: usize = if s.len() > 0 && s[0] == '+' {
        1
    } else {
        0
    };
    let ghost d = s@.skip(start as int);
    assert(d == (if s@.len() > 0 && s@[0] == '+' {
        s@.skip(1)
    } else {
        s@
    })) by {
        if start == 0 {
            assert(s@.skip(0) =~= s@);
        }
    }
    if start >= s.len() {
        return None;
    }
    let mut i: usize = start;
    let mut value: u64 = 0;
    while i < s.len()
        invariant
            start <= i <= s@.len(),
            d == s@.skip(start as int),
            d == (if s@.len() > 0 && s@[0] == '+' {
                s@.skip(1)
            } else {
                s@
            }),
            value == digits_value(d.take(i - start)),
            value <= u32::MAX,
            forall|j: int| 0 <= j < i - start ==> is_digit(#[trigger] d[j]),
        decreases s.len() - i,
    {
        let c = s[i];
        if !('0' <= c && c <= '9') {
            assert(!is_digit(d[i - start]));
            return None;
        }
        let dv: u64 = ((c as u32) - ('0' as u32)) as u64;
        assert(d.take(i - start + 1).drop_last() =~= d.take(i - start));
        assert(d.take(i - start + 1).last() == c);
        let next: u64 = value * 10 + dv;
        if next > 0xffff_ffff {
            proof {
                assert(digits_value(d.take(i - start + 1)) == next);
                assert(all_digits(d) ==> digits_value(d) > u32::MAX) by {
                    if all_digits(d) {
                        lemma_digits_value_monotone(d, i - start + 1);
                    }
                }
            }
            return None;
        }
        value = next;
        i = i + 1;
    }
    assert(d.take(i - start) =~= d);
    Some(value as u32)
}

/// `u64::from_str`: an optional `+`, then one or more ASCII digits whose
/// value fits in 64 bits.
pub open spec fn parse_u64_spec(s: Seq<char>) -> Option<u64> {
    let d = if s.len() > 0 && s[0] == '+' {
        s.skip(1)
    } else {
        s
    };
    if d.len() > 0 && all_digits(d) && digits_value(d) <= u64::MAX {
        Some(digits_value(d) as u64)
    } else {
        None
    }
}

/// Parses an unsigned 64-bit decimal number as `str::parse::<u64>` does.
pub fn parse_u64(s: &Vec<char>) -> (r: Option<u64>)
    ensures
        r == parse_u64_spec(s@),
{
    let start: usize = if s.len() > 0 && s[0] == '+' {
        1
    } else {
        0
    };
    let ghost d = s@.skip(start as int);
    assert(d == (if s@.len() > 0 && s@[0] == '+' {
        s@.skip(1)
    } else {
        s@
    })) by {
        if start == 0 {
            assert(s@.skip(0) =~= s@);
        }
    }
    if start >= s.len() {
        return None;
    }
    let mut i: usize = start;
    let mut value: u64 = 0;
    while i < s.len()
        invariant
            start <= i <= s@.len(),
            d == s@.skip(start as int),
            d == (if s@.len() > 0 && s@[0] == '+' {
                s@.skip(1)
            } else {
                s@
            }),
            value == digits_value(d.take(i - start)),
            forall|j: int| 0 <= j < i - start ==> is_digit(#[trigger] d[j]),
        decreases s.len() - i,
    {
        let c = s[i];
        if !('0' <= c && c <= '9') {
            assert(!is_digit(d[i - start]));
            return None;
        }
        let dv: u64 = ((c as u32) - ('0' as u32)) as u64;
        assert(d.take(i - start + 1).drop_last() =~= d.take(i - start));
        assert(d.take(i - start + 1).last() == c);
        if value > (u64::MAX - dv) / 10 {
            proof {
                assert(value * 10 + dv > u64::MAX) by (nonlinear_arith)
                    requires
                        value > (u64::MAX - dv) / 10,
                        dv <= 9,
                ;
                assert(digits_value(d.take(i - start + 1)) == value * 10 + dv);
                assert(all_digits(d) ==> digits_value(d) > u64::MAX) by {
                    if all_digits(d) {
                        lemma_digits_value_monotone(d, i - start + 1);
                    }
                }
            }
            return None;
        }
        assert(value * 10 + dv <= u64::MAX) by (nonlinear_arith)
            requires
                value <= (u64::MAX - dv) / 10,
                dv <= 9,
        ;
        value = value * 10 + dv;
        i = i + 1;
    }
    assert(d.take(i - start) =~= d);
    Some(value)
}

/// The words of `s`: its maximal runs of non-whitespace characters
/// (`str::split_whitespace`).
pub open spec fn words(s: Seq<char>) -> Seq<Seq<char>>
    decreases s.len(),
{
    if s.len() == 0 {
        Seq::empty()
    } else {
        let w = words(s.drop_last());
        if is_ws(s.last()) {
            w
        } else if s.len() >= 2 && !is_ws(s[s.len() - 2]) {
            w.update(w.len() - 1, w.last().push(s.last()))
        } else {
            w.push(seq![s.last()])
        }
    }
}

proof fn lemma_words_tail(s: Seq<char>)
    ensures
        s.len() > 0 && !is_ws(s.last()) ==> words(s).len() > 0,
    decreases s.len(),
{
    if s.len() > 0 {
        lemma_words_tail(s.drop_last());
    }
}

/// A run of non-whitespace characters is one word.
pub proof fn lemma_words_one(a: Seq<char>)
    requires
        a.len() > 0,
        forall|i: int| 0 <= i < a.len() ==> !is_ws(a[i]),
    ensures
        words(a) == seq![a],
    decreases a.len(),
{
    if a.len() == 1 {
        assert(a.drop_last() =~= Seq::<char>::empty());
        assert(words(a.drop_last()) == Seq::<Seq<char>>::empty());
        assert(words(a) == words(a.drop_last()).push(seq![a.last()]));
        assert(seq![a.last()] =~= a);
        assert(Seq::<Seq<char>>::empty().push(seq![a.last()]) =~= seq![a]);
    } else {
        lemma_words_one(a.drop_last());
        assert(a[a.len() - 2] == a.drop_last()[a.len() - 2]);
        assert(a.drop_last().push(a.last()) =~= a);
        let w = words(a.drop_last());
        assert(words(a) == w.update(w.len() - 1, w.last().push(a.last())));
        assert(seq![a.drop_last()].update(0, a.drop_last().push(a.last())) =~= seq![a]);
    }
}

/// Two words with one space between them read as those two words.
pub proof fn lemma_words_two(a: Seq<char>, b: Seq<char>)
    requires
        a.len() > 0,
        b.len() > 0,
        forall|i: int| 0 <= i < a.len() ==> !is_ws(a[i]),
        forall|i: int| 0 <= i < b.len() ==> !is_ws(b[i]),
    ensures
        words(a + seq![' '] + b) == seq![a, b],
    decreases b.len(),
{
    let s = a + seq![' '] + b;
    if b.len() == 1 {
        let t = a + seq![' '];
        assert(s.drop_last() =~= t);
        assert(t.drop_last() =~= a);
        assert(is_ws(t.last()));
        lemma_words_one(a);
        assert(s[s.len() - 2] == ' ');
        assert(words(t) == words(a));
        assert(words(s) == words(t).push(seq![s.last()]));
        assert(seq![s.last()] =~= b);
        assert(seq![a].push(seq![s.last()]) =~= seq![a, b]);
    } else {
        let b1 = b.drop_last();
        lemma_words_two(a, b1);
        assert(s.drop_last() =~= a + seq![' '] + b1);
        assert(s[s.len() - 2] == b[b.len() - 2]);
        assert(b1.push(s.last()) =~= b);
        let w = words(s.drop_last());
        assert(words(s) == w.update(w.len() - 1, w.last().push(s.last())));
        assert(seq![a, b1].update(1, b1.push(s.last())) =~= seq![a, b]);
    }
}

/// The words of `s` (see `words`).
pub fn words_exec(s: &Vec<char>) -> (r: Vec<Vec<char>>)
    ensures
        r@.map_values(|w: Vec<char>| w@) == words(s@),
{
    let mut out: Vec<Vec<char>> = Vec::new();
    let mut cur: Vec<char> = Vec::new();
    let mut i: usize = 0;
    while i < s.len()
        invariant
            i <= s@.len(),
            (cur@.len() > 0) == (i > 0 && !is_ws(s@[i - 1])),
            words(s@.take(i as int)) == if cur@.len() > 0 {
                out@.map_values(|w: Vec<char>| w@).push(cur@)
            } else {
                out@.map_values(|w: Vec<char>| w@)
            },
        decreases s@.len() - i,
    {
        let ghost before = out@.map_values(|w: Vec<char>| w@);
        let ghost cur0 = cur@;
        let ghost t = s@.take(i as int + 1);
        proof {
            assert(t.drop_last() =~= s@.take(i as int));
            assert(t.last() == s@[i as int]);
            if i > 0 {
                assert(t[t.len() - 2] == s@[i - 1]);
            }
        }
        if is_whitespace(s[i]) {
            if cur.len() > 0 {
                let mut done: Vec<char> = Vec::new();
                std::mem::swap(&mut done, &mut cur);
                out.push(done);
                proof {
                    assert(out@.map_values(|w: Vec<char>| w@) =~= before.push(cur0));
                }
            }
        } else {
            cur.push(s[i]);
            proof {
                if cur0.len() > 0 {
                    assert(before.push(cur0).update(before.len() as int, cur0.push(s@[i as int]))
                        =~= before.push(cur@));
                } else {
                    assert(cur@ =~= seq![s@[i as int]]);
                }
            }
        }
        i = i + 1;
    }
    proof {
        assert(s@.take(i as int) =~= s@);
    }
    if cur.len() > 0 {
        let ghost before = out@.map_values(|w: Vec<char>| w@);
        out.push(cur);
        proof {
            assert(out@.map_values(|w: Vec<char>| w@) =~= before.push(out@[out@.len() - 1]@));
        }
    }
    out
}

/// The words of `ws` joined with single spaces (`join(" ")`).
pub open spec fn join_spaces(ws: Seq<Seq<char>>) -> Seq<char>
    decreases ws.len(),
{
    if ws.len() == 0 {
        Seq::empty()
    } else if ws.len() == 1 {
        ws[0]
    } else {
        join_spaces(ws.drop_last()) + seq![' '] + ws.last()
    }
}

/// `ws[from..]` joined with single spaces.
pub fn join_spaces_from(ws: &Vec<Vec<char>>, from: usize) -> (r: Vec<char>)
    requires
        from <= ws@.len(),
    ensures
        r@ == join_spaces(ws@.map_values(|w: Vec<char>| w@).skip(from as int)),
{
    let ghost all = ws@.map_values(|w: Vec<char>| w@).skip(from as int);
    let mut out: Vec<char> = Vec::new();
    let mut i: usize = from;
    proof {
        assert(all.take(0) =~= Seq::<Seq<char>>::empty());
    }
    while i < ws.len()
        invariant
            from <= i <= ws@.len(),
            all == ws@.map_values(|w: Vec<char>| w@).skip(from as int),
            out@ == join_spaces(all.take(i - from)),
        decreases ws@.len() - i,
    {
        let ghost t = all.take(i - from + 1);
        proof {
            assert(t.drop_last() =~= all.take(i - from));
            assert(t.last() == ws@[i as int]@);
        }
        if i > from {
            out.push(' ');
        }
        let mut k: usize = 0;
        let ghost o0 = out@;
        while k < ws[i].len()
            invariant
                k <= ws@[i as int]@.len(),
                i < ws@.len(),
                out@ == o0 + ws@[i as int]@.take(k as int),
            decreases ws@[i as int]@.len() - k,
        {
            proof {
                assert(ws@[i as int]@.take(k as int + 1) =~= ws@[i as int]@.take(k as int).push(ws@[i as int]@[k as int]));
            }
            out.push(ws[i][k]);
            k = k + 1;
        }
        proof {
            assert(ws@[i as int]@.take(k as int) =~= ws@[i as int]@);
            if i == from {
                assert(t.len() == 1);
                assert(o0 =~= Seq::<char>::empty());
                assert(out@ =~= t[0]);
            } else {
                assert(out@ =~= join_spaces(t.drop_last()) + seq![' '] + t.last());
            }
        }
        i = i + 1;
    }
    proof {
        assert(all.take(i - from) =~= all);
    }
    out
}

/// How many bytes `s` takes in UTF-8 (`str::len`).
pub open spec fn utf8_len(s: Seq<char>) -> nat
    decreases s.len(),
{
    if s.len() == 0 {
        0
    } else {
        utf8_len(s.drop_last()) + char_utf8_len(s.last())
    }
}

/// How many bytes a character takes in UTF-8 (`char::len_utf8`).
pub open spec fn char_utf8_len(c: char) -> nat {
    if (c as u32) < 0x80 {
        1
    } else if (c as u32) < 0x800 {
        2
    } else if (c as u32) < 0x10000 {
        3
    } else {
        4
    }
}

/// Whether `s` takes exactly `n` bytes in UTF-8.
pub fn utf8_len_is(s: &Vec<char>, n: usize) -> (r: bool)
    ensures
        r == (utf8_len(s@) == n),
{
    let mut total: usize = 0;
    let mut i: usize = 0;
    while i < s.len()
        invariant
            i <= s@.len(),
            total == utf8_len(s@.take(i as int)),
            total <= n,
        decreases s@.len() - i,
    {
        proof {
            assert(s@.take(i as int + 1).drop_last() =~= s@.take(i as int));
        }
        let c = s[i] as u32;
        let w: usize = if c < 0x80 {
            1
        } else if c < 0x800 {
            2
        } else if c < 0x10000 {
            3
        } else {
            4
        };
        if w > n - total {
            proof {
                lemma_utf8_len_grows(s@, i as int + 1);
            }
            return false;
        }
        total = total + w;
        i = i + 1;
    }
    proof {
        assert(s@.take(i as int) =~= s@);
    }
    total == n
}

proof fn lemma_utf8_len_grows(s: Seq<char>, k: int)
    requires
        0 <= k <= s.len(),
    ensures
        utf8_len(s.take(k)) <= utf8_len(s),
    decreases s.len() - k,
{
    if k < s.len() {
        lemma_utf8_len_grows(s, k + 1);
        assert(s.take(k + 1).drop_last() =~= s.take(k));
    } else {
        assert(s.take(k) =~= s);
    }
}

/// `usize::from_str`: an optional `+`, then one or more ASCII digits whose
/// value fits in a `usize`.
pub open spec fn parse_usize_spec(s: Seq<char>) -> Option<usize> {
    let d = if s.len() > 0 && s[0] == '+' {
        s.skip(1)
    } else {
        s
    };
    if d.len() > 0 && all_digits(d) && digits_value(d) <= usize::MAX {
        Some(digits_value(d) as usize)
    } else {
        None
    }
}

/// Parses an unsigned pointer-sized decimal number as `str::parse::<usize>`
/// does.
pub fn parse_usize(s: &Vec<char>) -> (r: Option<usize>)
    ensures
        r == parse_usize_spec(s@),
{
    let start: usize = if s.len() > 0 && s[0] == '+' {
        1
    } else {
        0
    };
    let ghost d = s@.skip(start as int);
    assert(d == (if s@.len() > 0 && s@[0] == '+' {
        s@.skip(1)
    } else {
        s@
    })) by {
        if start == 0 {
            assert(s@.skip(0) =~= s@);
        }
    }
    if start >= s.len() {
        return None;
    }
    let mut i: usize = start;
    let mut value: u128 = 0;
    while i < s.len()
        invariant
            start <= i <= s@.len(),
            d == s@.skip(start as int),
            d == (if s@.len() > 0 && s@[0] == '+' {
                s@.skip(1)
            } else {
                s@
            }),
            value == digits_value(d.take(i - start)),
            value <= usize::MAX,
            forall|j: int| 0 <= j < i - start ==> is_digit(#[trigger] d[j]),
        decreases s.len() - i,
    {
        let c = s[i];
        if !('0' <= c && c <= '9') {
            assert(!is_digit(d[i - start]));
            return None;
        }
        let dv: u128 = ((c as u32) - ('0' as u32)) as u128;
        assert(d.take(i - start + 1).drop_last() =~= d.take(i - start));
        assert(d.take(i - start + 1).last() == c);
        let next: u128 = value * 10 + dv;
        if next > usize::MAX as u128 {
            proof {
                assert(digits_value(d.take(i - start + 1)) == next);
                assert(all_digits(d) ==> digits_value(d) > usize::MAX) by {
                    if all_digits(d) {
                        lemma_digits_value_monotone(d, i - start + 1);
                    }
                }
            }
            return None;
        }
        value = next;
        i = i + 1;
    }
    assert(d.take(i - start) =~= d);
    Some(value as usize)
}

/// `str::split` on one character: every piece between separators, empty
/// pieces included (an empty string is one empty piece).
pub open spec fn split_on(s: Seq<char>, sep: char) -> Seq<Seq<char>>
    decreases s.len(),
{
    if s.len() == 0 {
        seq![Seq::empty()]
    } else {
        let prev = split_on(s.drop_last(), sep);
        if s.last() == sep {
            prev.push(Seq::empty())
        } else {
            prev.update(prev.len() - 1, prev.last().push(s.last()))
        }
    }
}

proof fn lemma_split_on_nonempty(s: Seq<char>, sep: char)
    ensures
        split_on(s, sep).len() >= 1,
    decreases s.len(),
{
    if s.len() > 0 {
        lemma_split_on_nonempty(s.drop_last(), sep);
    }
}

/// A text without `sep` is one piece.
pub proof fn lemma_split_on_whole(a: Seq<char>, sep: char)
    requires
        forall|i: int| 0 <= i < a.len() ==> a[i] != sep,
    ensures
        split_on(a, sep) == seq![a],
    decreases a.len(),
{
    if a.len() > 0 {
        lemma_split_on_whole(a.drop_last(), sep);
        assert(a.drop_last().push(a.last()) =~= a);
        assert(seq![a.drop_last()].update(0, a.drop_last().push(a.last())) =~= seq![a]);
    } else {
        assert(a =~= Seq::<char>::empty());
    }
}

/// Two texts without `sep`, joined by one `sep`, split back into the two.
pub proof fn lemma_split_on_two(a: Seq<char>, b: Seq<char>, sep: char)
    requires
        forall|i: int| 0 <= i < a.len() ==> a[i] != sep,
        forall|i: int| 0 <= i < b.len() ==> b[i] != sep,
    ensures
        split_on(a + seq![sep] + b, sep) == seq![a, b],
    decreases b.len(),
{
    let s = a + seq![sep] + b;
    if b.len() == 0 {
        lemma_split_on_whole(a, sep);
        assert(s.drop_last() =~= a);
        assert(s.last() == sep);
        assert(b =~= Seq::<char>::empty());
        assert(seq![a].push(Seq::<char>::empty()) =~= seq![a, b]);
    } else {
        let b1 = b.drop_last();
        lemma_split_on_two(a, b1, sep);
        assert(s.drop_last() =~= a + seq![sep] + b1);
        assert(s.last() == b.last());
        assert(b1.push(b.last()) =~= b);
        assert(seq![a, b1].update(1, b1.push(b.last())) =~= seq![a, b]);
    }
}

/// The pieces of `s` between occurrences of `sep`.
pub fn split_chars(s: &Vec<char>, sep: char) -> (r: Vec<Vec<char>>)
    ensures
        r@.map_values(|p: Vec<char>| p@) == split_on(s@, sep),
{
    let mut parts: Vec<Vec<char>> = Vec::new();
    let mut cur: Vec<char> = Vec::new();
    let mut i: usize = 0;
    while i < s.len()
        invariant
            i <= s@.len(),
            parts@.map_values(|p: Vec<char>| p@).push(cur@) == split_on(s@.take(i as int), sep),
        decreases s@.len() - i,
    {
        proof {
            lemma_split_on_nonempty(s@.take(i as int), sep);
            assert(s@.take(i as int + 1).drop_last() =~= s@.take(i as int));
            assert(s@.take(i as int + 1).last() == s@[i as int]);
        }
        let ghost before = parts@.map_values(|p: Vec<char>| p@);
        let ghost cur0 = cur@;
        if s[i] == sep {
            let mut done: Vec<char> = Vec::new();
            std::mem::swap(&mut done, &mut cur);
            parts.push(done);
            proof {
                assert(parts@.map_values(|p: Vec<char>| p@) =~= before.push(cur0));
                assert(parts@.map_values(|p: Vec<char>| p@).push(cur@) =~= before.push(cur0).push(
                    Seq::empty(),
                ));
            }
        } else {
            cur.push(s[i]);
            proof {
                assert(parts@.map_values(|p: Vec<char>| p@) =~= before);
                assert(before.push(cur@) =~= before.push(cur0).update(
                    before.len() as int,
                    cur0.push(s@[i as int]),
                ));
            }
        }
        i = i + 1;
    }
    proof {
        assert(s@.take(i as int) =~= s@);
    }
    let ghost before = parts@.map_values(|p: Vec<char>| p@);
    parts.push(cur);
    proof {
        assert(parts@.map_values(|p: Vec<char>| p@) =~= before.push(parts@[parts@.len() - 1]@));
    }
    parts
}

/// Decimal digits of `n` without leading zeros (`format!("{}", n)`).
pub open spec fn decimal(n: nat) -> Seq<char>
    decreases n,
{
    if n < 10 {
        seq![digit_char(n)]
    } else {
        decimal(n / 10).push(digit_char(n % 10))
    }
}

pub open spec fn digit_char(d: nat) -> char {
    (('0' as u32) + d) as char
}

/// `format!("{:02}", n)`: at least two digits, zero padded.
pub open spec fn decimal2(n: nat) -> Seq<char> {
    if n < 10 {
        seq!['0', digit_char(n)]
    } else {
        decimal(n)
    }
}

fn digit_char_exec(d: u64) -> (c: char)
    requires
        d < 10,
    ensures
        c == digit_char(d as nat),
{
    let code: u32 = ('0' as u32) + (d as u32);
    assert(0x30 <= code <= 0x39);
    (code as u8) as char
}

/// Decimal representation of an unsigned number.
pub fn decimal_exec(n: u64) -> (r: Vec<char>)
    ensures
        r@ == decimal(n as nat),
    decreases n,
{
    if n < 10 {
        let mut v: Vec<char> = Vec::new();
        v.push(digit_char_exec(n));
        assert(v@ =~= seq![digit_char(n as nat)]);
        v
    } else {
        let mut v = decimal_exec(n / 10);
        v.push(digit_char_exec(n % 10));
        v
    }
}

/// Zero-padded two-digit decimal representation.
pub fn decimal2_exec(n: u64) -> (r: Vec<char>)
    ensures
        r@ == decimal2(n as nat),
{
    if n < 10 {
        let mut v: Vec<char> = Vec::new();
        v.push('0');
        v.push(digit_char_exec(n));
        assert(v@ =~= seq!['0', digit_char(n as nat)]);
        v
    } else {
        decimal_exec(n)
    }
}

/// Appends all of `b` to `a`.
pub fn append_chars(a: &mut Vec<char>, b: &Vec<char>)
    ensures
        final(a)@ == old(a)@ + b@,
{
    let ghost a0 = a@;
    let mut i: usize = 0;
    while i < b.len()
        invariant
            i <= b@.len(),
            a@ == a0 + b@.take(i as int),
        decreases b.len() - i,
    {
        a.push(b[i]);
        i = i + 1;
        assert(a@ =~= a0 + b@.take(i as int));
    }
    assert(b@.take(b@.len() as int) =~= b@);
}

/// Concatenation of two character sequences.
pub fn concat2(a: &Vec<char>, b: &Vec<char>) -> (r: Vec<char>)
    ensures
        r@ == a@ + b@,
{
    let mut r = a.clone();
    assert(r@ == a@);
    append_chars(&mut r, b);
    r
}

/// A name for what `str::to_lowercase` returns: full Unicode lowercase
/// mapping, a function of the string alone.
pub uninterp spec fn unicode_lowercase(s: Seq<char>) -> Seq<char>;

/// A name for what `char::to_uppercase` yields for one character: its full
/// Unicode uppercase mapping (possibly several characters).
pub uninterp spec fn unicode_uppercase_char(c: char) -> Seq<char>;

/// Calls `str::to_lowercase`; the result is the Unicode lowercase mapping
/// of the argument, which the contract names without spelling it out.
#[verifier::external_body]
pub fn to_lowercase(s: &str) -> (r: String)
    ensures
        r@ == unicode_lowercase(s@),
{
    s.to_lowercase()
}

/// Calls `char::to_uppercase` and collects its characters; the contract
/// names the mapping without spelling it out.
#[verifier::external_body]
pub fn char_to_uppercase(c: char) -> (r: Vec<char>)
    ensures
        r@ == unicode_uppercase_char(c),
{
    c.to_uppercase().collect()
}

/// `a` followed by `b`.
pub fn cat2(a: &str, b: &str) -> (r: String)
    ensures
        r@ == a@ + b@,
{
    let v = concat2(&chars_of(a), &chars_of(b));
    string_from_chars(v.as_slice())
}

/// `a`, `b`, `c` in order.
pub fn cat3(a: &str, b: &str, c: &str) -> (r: String)
    ensures
        r@ == a@ + b@ + c@,
{
    let v = concat2(&concat2(&chars_of(a), &chars_of(b)), &chars_of(c));
    string_from_chars(v.as_slice())
}

/// `a`, `b`, `c`, `d` in order.
pub fn cat4(a: &str, b: &str, c: &str, d: &str) -> (r: String)
    ensures
        r@ == a@ + b@ + c@ + d@,
{
    let v = concat2(&concat2(&concat2(&chars_of(a), &chars_of(b)), &chars_of(c)), &chars_of(d));
    string_from_chars(v.as_slice())
}

/// Number of trailing characters that are not whitespace.
pub open spec fn trail_non_ws(s: Seq<char>) -> nat
    decreases s.len(),
{
    if s.len() > 0 && !is_ws(s.last()) {
        1 + trail_non_ws(s.drop_last())
    } else {
        0
    }
}

/// `str::split_whitespace().last()`: the last maximal run of
/// non-whitespace characters, if there is one.
pub open spec fn last_word(s: Seq<char>) -> Option<Seq<char>> {
    let t = trim_end(s);
    if t.len() == 0 {
        None
    } else {
        Some(t.skip(t.len() - trail_non_ws(t)))
    }
}

proof fn lemma_trail_non_ws_bound(s: Seq<char>)
    ensures
        trail_non_ws(s) <= s.len(),
        forall|i: int| s.len() - trail_non_ws(s) <= i < s.len() ==> !is_ws(#[trigger] s[i]),
        trail_non_ws(s) < s.len() ==> is_ws(s[s.len() - trail_non_ws(s) - 1]),
    decreases s.len(),
{
    if s.len() > 0 && !is_ws(s.last()) {
        lemma_trail_non_ws_bound(s.drop_last());
        assert forall|i: int| s.len() - trail_non_ws(s) <= i < s.len() implies !is_ws(
            #[trigger] s[i],
        ) by {
            if i < s.len() - 1 {
                assert(s[i] == s.drop_last()[i]);
            }
        }
        if trail_non_ws(s) < s.len() {
            assert(s[s.len() - trail_non_ws(s) - 1] == s.drop_last()[s.len() - trail_non_ws(s)
                - 1]);
        }
    }
}

/// The last whitespace-separated word of `s`, if any.
pub fn last_word_exec(s: &Vec<char>) -> (r: Option<Vec<char>>)
    ensures
        r matches Some(w) ==> last_word(s@) == Some(w@),
        r is None ==> last_word(s@) is None,
{
    let n = s.len();
    proof {
        lemma_trail_ws_bound(s@);
    }
    let mut end: usize = n;
    while end > 0 && is_whitespace(s[end - 1])
        invariant
            end <= n == s@.len(),
            trail_ws(s@) <= n,
            end >= n - trail_ws(s@),
            forall|i: int| n - trail_ws(s@) <= i < n ==> is_ws(#[trigger] s@[i]),
            trail_ws(s@) < n ==> !is_ws(s@[n - trail_ws(s@) - 1]),
        decreases end,
    {
        end = end - 1;
    }
    assert(end == n - trail_ws(s@));
    let ghost t = trim_end(s@);
    assert(t =~= s@.take(end as int));
    if end == 0 {
        return None;
    }
    proof {
        lemma_trail_non_ws_bound(t);
    }
    let mut start: usize = end;
    while start > 0 && !is_whitespace(s[start - 1])
        invariant
            start <= end <= n == s@.len(),
            t =~= s@.take(end as int),
            trail_non_ws(t) <= t.len(),
            start >= end - trail_non_ws(t),
            forall|i: int| t.len() - trail_non_ws(t) <= i < t.len() ==> !is_ws(#[trigger] t[i]),
            trail_non_ws(t) < t.len() ==> is_ws(t[t.len() - trail_non_ws(t) - 1]),
        decreases start,
    {
        assert(s@[start - 1] == t[start - 1]);
        start = start - 1;
    }
    proof {
        if start > end - trail_non_ws(t) {
            assert(s@[start - 1] == t[start - 1]);
        }
    }
    let mut w: Vec<char> = Vec::new();
    let mut i = start;
    while i < end
        invariant
            start <= i <= end <= n == s@.len(),
            w@ == s@.subrange(start as int, i as int),
        decreases end - i,
    {
        w.push(s[i]);
        i = i + 1;
    }
    assert(w@ =~= t.skip(t.len() - trail_non_ws(t)));
    Some(w)
}

/// Lexicographic order on character sequences (code point by code point,
/// a proper prefix first). It is the order of `str`'s `Ord`, since UTF-8
/// preserves code point order byte by byte.
pub open spec fn lex_lt(a: Seq<char>, b: Seq<char>) -> bool
    decreases a.len(),
{
    if a.len() == 0 {
        b.len() > 0
    } else if b.len() == 0 {
        false
    } else if a[0] != b[0] {
        a[0] < b[0]
    } else {
        lex_lt(a.skip(1), b.skip(1))
    }
}

pub proof fn lemma_lex_irreflexive(a: Seq<char>)
    ensures
        !lex_lt(a, a),
    decreases a.len(),
{
    if a.len() > 0 {
        lemma_lex_irreflexive(a.skip(1));
    }
}

pub proof fn lemma_lex_asymmetric(a: Seq<char>, b: Seq<char>)
    ensures
        lex_lt(a, b) ==> !lex_lt(b, a),
    decreases a.len(),
{
    if a.len() > 0 && b.len() > 0 && a[0] == b[0] {
        lemma_lex_asymmetric(a.skip(1), b.skip(1));
    }
}

pub proof fn lemma_lex_transitive(a: Seq<char>, b: Seq<char>, c: Seq<char>)
    requires
        lex_lt(a, b),
        lex_lt(b, c),
    ensures
        lex_lt(a, c),
    decreases a.len(),
{
    if a.len() > 0 && b.len() > 0 && c.len() > 0 && a[0] == b[0] && b[0] == c[0] {
        lemma_lex_transitive(a.skip(1), b.skip(1), c.skip(1));
    }
}

pub proof fn lemma_lex_total(a: Seq<char>, b: Seq<char>)
    ensures
        a != b ==> lex_lt(a, b) || lex_lt(b, a),
    decreases a.len(),
{
    if a.len() > 0 && b.len() > 0 && a[0] == b[0] {
        lemma_lex_total(a.skip(1), b.skip(1));
        if a.skip(1) == b.skip(1) {
            assert(a =~= seq![a[0]] + a.skip(1));
            assert(b =~= seq![b[0]] + b.skip(1));
        }
    } else if a.len() == 0 && b.len() == 0 {
        assert(a =~= b);
    }
}

/// Is `a` before `b` in lexicographic order?
pub fn lex_lt_exec(a: &Vec<char>, b: &Vec<char>) -> (r: bool)
    ensures
        r == lex_lt(a@, b@),
{
    let mut i: usize = 0;
    assert(a@.skip(0) =~= a@);
    assert(b@.skip(0) =~= b@);
    while i < a.len() && i < b.len() && a[i] == b[i]
        invariant
            i <= a@.len(),
            i <= b@.len(),
            lex_lt(a@.skip(i as int), b@.skip(i as int)) == lex_lt(a@, b@),
        decreases a.len() - i,
    {
        let ghost sa = a@.skip(i as int);
        let ghost sb = b@.skip(i as int);
        assert(sa.skip(1) =~= a@.skip(i + 1));
        assert(sb.skip(1) =~= b@.skip(i + 1));
        i = i + 1;
    }
    if i == a.len() {
        i < b.len()
    } else if i == b.len() {
        false
    } else {
        assert(a@.skip(i as int)[0] == a@[i as int]);
        assert(b@.skip(i as int)[0] == b@[i as int]);
        a[i] < b[i]
    }
}

} // verus!
