//! Classes of characters, and reading a number from a line of input.

use crate::decimal::digit_char;
use vstd::prelude::*;
use vstd::string::StrSliceExecFns;

verus! {

/// One of the ten decimal digits.
pub open spec fn is_digit(c: char) -> bool {
    '0' <= c <= '9'
}

/// White space as Unicode defines it (the property `White_Space`).
pub open spec fn is_whitespace(c: char) -> bool {
    let u = c as u32;
    ||| 0x09 <= u <= 0x0D
    ||| u == 0x20
    ||| u == 0x85
    ||| u == 0xA0
    ||| u == 0x1680
    ||| 0x2000 <= u <= 0x200A
    ||| u == 0x2028
    ||| u == 0x2029
    ||| u == 0x202F
    ||| u == 0x205F
    ||| u == 0x3000
}

pub fn char_is_digit(c: char) -> (r: bool)
    ensures
        r == is_digit(c),
{
    '0' <= c && c <= '9'
}

pub fn char_is_whitespace(c: char) -> (r: bool)
    ensures
        r == is_whitespace(c),
{
    let u: u32 = c as u32;
    (0x09 <= u && u <= 0x0D) || u == 0x20 || u == 0x85 || u == 0xA0 || u == 0x1680 || (0x2000 <= u
        && u <= 0x200A) || u == 0x2028 || u == 0x2029 || u == 0x202F || u == 0x205F || u == 0x3000
}

/// The value of a digit character.
pub open spec fn digit_value(c: char) -> int {
    c as int - '0' as int
}

/// The number that a run of digits writes; the empty run writes 0.
pub open spec fn digits_value(s: Seq<char>) -> int
    decreases s.len(),
{
    if s.len() == 0 {
        0
    } else {
        digits_value(s.drop_last()) * 10 + digit_value(s.last())
    }
}

/// Every character is a digit.
pub open spec fn all_digits(s: Seq<char>) -> bool {
    forall|i: int| 0 <= i < s.len() ==> is_digit(#[trigger] s[i])
}

/// Where the text begins once leading white space is skipped.
pub open spec fn trim_start(s: Seq<char>) -> int
    decreases s.len(),
{
    if s.len() > 0 && is_whitespace(s[0]) {
        1 + trim_start(s.drop_first())
    } else {
        0
    }
}

/// Where the text ends once trailing white space is cut.
pub open spec fn trim_end(s: Seq<char>) -> int
    decreases s.len(),
{
    if s.len() > 0 && is_whitespace(s.last()) {
        trim_end(s.drop_last())
    } else {
        s.len() as int
    }
}

/// The text without white space at either end.
pub open spec fn trimmed(s: Seq<char>) -> Seq<char> {
    if trim_start(s) >= trim_end(s) {
        Seq::empty()
    } else {
        s.subrange(trim_start(s), trim_end(s))
    }
}

/// The integer that a numeral writes: an optional sign, then one digit or
/// more and nothing else. `None` for any other text, and for a number that a
/// 32-bit integer cannot hold.
pub open spec fn numeral_value(s: Seq<char>) -> Option<i32> {
    let signed = s.len() > 0 && (s[0] == '-' || s[0] == '+');
    let body = if signed {
        s.drop_first()
    } else {
        s
    };
    let v = if signed && s[0] == '-' {
        -digits_value(body)
    } else {
        digits_value(body)
    };
    if body.len() > 0 && all_digits(body) && i32::MIN <= v <= i32::MAX {
        Some(v as i32)
    } else {
        None
    }
}

/// The number on a line of input: the numeral left when the white space
/// around it is cut.
pub open spec fn line_value(line: Seq<char>) -> Option<i32> {
    numeral_value(trimmed(line))
}

proof fn lemma_trim_start_bounds(s: Seq<char>)
    ensures
        0 <= trim_start(s) <= s.len(),
        forall|i: int| 0 <= i < trim_start(s) ==> is_whitespace(#[trigger] s[i]),
        trim_start(s) < s.len() ==> !is_whitespace(s[trim_start(s)]),
    decreases s.len(),
{
    if s.len() > 0 && is_whitespace(s[0]) {
        let t = s.drop_first();
        lemma_trim_start_bounds(t);
        assert forall|i: int| 0 <= i < trim_start(s) implies is_whitespace(#[trigger] s[i]) by {
            if i > 0 {
                assert(s[i] == t[i - 1]);
            }
        }
        if trim_start(s) < s.len() {
            assert(s[trim_start(s)] == t[trim_start(t)]);
        }
    }
}

/// Skipping white space from a place `k` that only white space precedes
/// ends where skipping from the start ends.
proof fn lemma_trim_start_at(s: Seq<char>, k: int)
    requires
        0 <= k <= s.len(),
        forall|i: int| 0 <= i < k ==> is_whitespace(#[trigger] s[i]),
        k == s.len() || !is_whitespace(s[k]),
    ensures
        trim_start(s) == k,
{
    lemma_trim_start_bounds(s);
    let t = trim_start(s);
    if t < k {
        assert(is_whitespace(s[t]));
    } else if t > k {
        assert(is_whitespace(s[k]));
    }
}

proof fn lemma_trim_end_bounds(s: Seq<char>)
    ensures
        0 <= trim_end(s) <= s.len(),
        forall|i: int| trim_end(s) <= i < s.len() ==> is_whitespace(#[trigger] s[i]),
        trim_end(s) > 0 ==> !is_whitespace(s[trim_end(s) - 1]),
    decreases s.len(),
{
    if s.len() > 0 && is_whitespace(s.last()) {
        let t = s.drop_last();
        lemma_trim_end_bounds(t);
        assert forall|i: int| trim_end(s) <= i < s.len() implies is_whitespace(#[trigger] s[i]) by {
            if i < t.len() {
                assert(s[i] == t[i]);
            }
        }
        if trim_end(s) > 0 {
            assert(s[trim_end(s) - 1] == t[trim_end(t) - 1]);
        }
    }
}

proof fn lemma_trim_end_at(s: Seq<char>, k: int)
    requires
        0 <= k <= s.len(),
        forall|i: int| k <= i < s.len() ==> is_whitespace(#[trigger] s[i]),
        k == 0 || !is_whitespace(s[k - 1]),
    ensures
        trim_end(s) == k,
{
    lemma_trim_end_bounds(s);
    let t = trim_end(s);
    if t > k {
        assert(is_whitespace(s[t - 1]));
    } else if t < k {
        assert(is_whitespace(s[k - 1]));
    }
}

/// A run of digits that is extended stays as large or grows, so a prefix
/// that is out of reach keeps the whole out of reach.
proof fn lemma_digits_value_grows(s: Seq<char>, k: int)
    requires
        all_digits(s),
        0 <= k <= s.len(),
    ensures
        0 <= digits_value(s.subrange(0, k)) <= digits_value(s),
    decreases s.len() - k,
{
    let head = s.subrange(0, k);
    lemma_digits_value_nonneg(head);
    if k < s.len() {
        let next = s.subrange(0, k + 1);
        assert(next.drop_last() =~= head);
        assert(is_digit(s[k]));
        assert(next.last() == s[k]);
        lemma_digits_value_grows(s, k + 1);
    } else {
        assert(head =~= s);
    }
}

proof fn lemma_digits_value_nonneg(s: Seq<char>)
    requires
        all_digits(s),
    ensures
        digits_value(s) >= 0,
    decreases s.len(),
{
    if s.len() > 0 {
        assert(is_digit(s.last()));
        assert forall|i: int| 0 <= i < s.drop_last().len() implies is_digit(
            #[trigger] s.drop_last()[i],
        ) by {
            assert(s.drop_last()[i] == s[i]);
        }
        lemma_digits_value_nonneg(s.drop_last());
    }
}

/// Reads the number on a line of input.
pub fn parse_number(line: &str) -> (r: Option<i32>)
    ensures
        r == line_value(line@),
{
    let n = line.unicode_len();
    let ghost s = line@;
    let mut start: usize = 0;
    while start < n && char_is_whitespace(line.get_char(start))
        invariant
            start <= n,
            n == s.len(),
            s == line@,
            forall|i: int| 0 <= i < start ==> is_whitespace(#[trigger] s[i]),
        decreases n - start,
    {
        start += 1;
    }
    let mut end: usize = n;
    while end > start && char_is_whitespace(line.get_char(end - 1))
        invariant
            start <= end <= n,
            n == s.len(),
            s == line@,
            forall|i: int| end <= i < n ==> is_whitespace(#[trigger] s[i]),
        decreases end,
    {
        end -= 1;
    }
    proof {
        lemma_trim_start_at(s, start as int);
        lemma_trim_end_bounds(s);
        if start < end {
            lemma_trim_end_at(s, end as int);
        } else {
            if trim_end(s) > start {
                assert(is_whitespace(s[trim_end(s) - 1]));
            }
        }
    }
    let ghost t = trimmed(s);
    assert(t =~= s.subrange(start as int, end as int));
    if start >= end {
        return None;
    }
    let first = line.get_char(start);
    let signed = first == '-' || first == '+';
    let negative = first == '-';
    let from: usize = if signed {
        start + 1
    } else {
        start
    };
    let ghost body = if signed {
        t.drop_first()
    } else {
        t
    };
    assert(body =~= s.subrange(from as int, end as int));
    if from >= end {
        return None;
    }
    assert(signed ==> t[0] == first);
    assert(!signed ==> t[0] != '-' && t[0] != '+');
    let mut value: i64 = 0;
    let mut i: usize = from;
    while i < end
        invariant
            from <= i <= end <= n,
            body.len() > 0,
            line_value(line@) == if all_digits(body) && i32::MIN <= (if negative {
                -digits_value(body)
            } else {
                digits_value(body)
            }) <= i32::MAX {
                Some(
                    (if negative {
                        -digits_value(body)
                    } else {
                        digits_value(body)
                    }) as i32,
                )
            } else {
                None
            },
            n == s.len(),
            s == line@,
            body == s.subrange(from as int, end as int),
            forall|k: int| 0 <= k < i - from ==> is_digit(#[trigger] body[k]),
            value == digits_value(body.subrange(0, i - from)),
            0 <= value <= 2147483648,
        decreases end - i,
    {
        let c = line.get_char(i);
        if !char_is_digit(c) {
            assert(!is_digit(body[i - from]));
            return None;
        }
        let d: i64 = (c as u32 - '0' as u32) as i64;
        let ghost head = body.subrange(0, i - from);
        let ghost next = body.subrange(0, i - from + 1);
        assert(next.drop_last() =~= head);
        assert(next.last() == c);
        value = value * 10 + d;
        i += 1;
        if value > 2147483648 {
            proof {
                if all_digits(body) {
                    lemma_digits_value_grows(body, i - from);
                }
            }
            return None;
        }
    }
    assert(body.subrange(0, end - from) =~= body);
    if negative {
        Some((-value) as i32)
    } else if value > 2147483647 {
        None
    } else {
        Some(value as i32)
    }
}

/// A numeral that `decimal` writes is a run of digits with the value written.
pub proof fn lemma_digits_round_trip(n: nat)
    ensures
        crate::decimal::digits(n).len() > 0,
        all_digits(crate::decimal::digits(n)),
        digits_value(crate::decimal::digits(n)) == n,
    decreases n,
{
    let d = crate::decimal::digits(n);
    if n < 10 {
        assert(d.drop_last() =~= Seq::<char>::empty());
        assert(digits_value(d.drop_last()) == 0);
        assert(d.last() == digit_char(n as int));
    } else {
        lemma_digits_round_trip(n / 10);
        let head = crate::decimal::digits(n / 10);
        assert(d.drop_last() =~= head);
        assert(d.last() == digit_char((n % 10) as int));
        assert forall|i: int| 0 <= i < d.len() implies is_digit(#[trigger] d[i]) by {
            if i < head.len() {
                assert(d[i] == head[i]);
            }
        }
    }
}

/// Reading back the numeral written for a 32-bit integer gives that integer.
pub proof fn lemma_numeral_round_trip(n: i32)
    ensures
        numeral_value(crate::decimal::decimal(n as int)) == Some(n),
{
    let s = crate::decimal::decimal(n as int);
    if n < 0 {
        let d = crate::decimal::digits((-n) as nat);
        lemma_digits_round_trip((-n) as nat);
        assert(s.drop_first() =~= d);
        assert(s[0] == '-');
    } else {
        lemma_digits_round_trip(n as nat);
        assert(is_digit(s[0]));
    }
}

/// The numeral of a 32-bit integer ends in a digit.
pub proof fn lemma_numeral_ends_in_digit(n: i32)
    ensures
        crate::decimal::decimal(n as int).len() > 0,
        is_digit(crate::decimal::decimal(n as int).last()),
{
    let s = crate::decimal::decimal(n as int);
    if n < 0 {
        lemma_digits_round_trip((-n) as nat);
        let d = crate::decimal::digits((-n) as nat);
        assert(s.last() == d.last());
        assert(is_digit(d[d.len() - 1]));
    } else {
        lemma_digits_round_trip(n as nat);
        assert(is_digit(s[s.len() - 1]));
    }
}

} // verus!
