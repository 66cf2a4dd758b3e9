//! Decimal numerals: writing an integer and reading one back.

use vstd::prelude::*;
use vstd::string::StringExecFns;

verus! {

/// The character for a single digit.
pub open spec fn digit_char(d: int) -> char {
    if d == 0 {
        '0'
    } else if d == 1 {
        '1'
    } else if d == 2 {
        '2'
    } else if d == 3 {
        '3'
    } else if d == 4 {
        '4'
    } else if d == 5 {
        '5'
    } else if d == 6 {
        '6'
    } else if d == 7 {
        '7'
    } else if d == 8 {
        '8'
    } else {
        '9'
    }
}

/// The digits of a natural number, without leading zeros.
pub open spec fn digits(n: nat) -> Seq<char>
    decreases n,
{
    if n < 10 {
        seq![digit_char(n as int)]
    } else {
        digits(n / 10).push(digit_char((n % 10) as int))
    }
}

/// The decimal numeral of an integer: a minus sign for a negative one, then
/// its digits.
pub open spec fn decimal(n: int) -> Seq<char> {
    if n < 0 {
        seq!['-'] + digits((-n) as nat)
    } else {
        digits(n as nat)
    }
}

/// Appends one digit.
fn push_digit(s: &mut String, d: u8)
    requires
        d < 10,
    ensures
        final(s)@ == old(s)@.push(digit_char(d as int)),
{
    proof {
        reveal_strlit("0");
        reveal_strlit("1");
        reveal_strlit("2");
        reveal_strlit("3");
        reveal_strlit("4");
        reveal_strlit("5");
        reveal_strlit("6");
        reveal_strlit("7");
        reveal_strlit("8");
        reveal_strlit("9");
    }
    let ghost before = s@;
    if d == 0 {
        s.append("0");
    } else if d == 1 {
        s.append("1");
    } else if d == 2 {
        s.append("2");
    } else if d == 3 {
        s.append("3");
    } else if d == 4 {
        s.append("4");
    } else if d == 5 {
        s.append("5");
    } else if d == 6 {
        s.append("6");
    } else if d == 7 {
        s.append("7");
    } else if d == 8 {
        s.append("8");
    } else {
        s.append("9");
    }
    assert(s@ =~= before.push(digit_char(d as int)));
}

/// Appends the decimal numeral of `n`.
pub fn push_decimal(s: &mut String, n: i32)
    ensures
        final(s)@ == old(s)@ + decimal(n as int),
{
    let ghost before = s@;
    let mut rest: u32 = if n < 0 {
        proof {
            reveal_strlit("-");
        }
        s.append("-");
        (-(n as i64)) as u32
    } else {
        n as u32
    };
    let ghost head = s@;
    let ghost magnitude = rest as nat;
    assert(head + digits(magnitude) =~= before + decimal(n as int));
    let mut low: Vec<u8> = Vec::new();
    while rest >= 10
        invariant
            forall|k: int| 0 <= k < low@.len() ==> (#[trigger] low@[k]) < 10,
            digits(magnitude) == digits(rest as nat) + Seq::new(
                low@.len(),
                |k: int| digit_char(low@[low@.len() - 1 - k] as int),
            ),
        decreases rest,
    {
        let ghost tail = Seq::new(low@.len(), |k: int| digit_char(low@[low@.len() - 1 - k] as int));
        let ghost was = rest;
        low.push((rest % 10) as u8);
        rest = rest / 10;
        proof {
            let now = Seq::new(low@.len(), |k: int| digit_char(low@[low@.len() - 1 - k] as int));
            assert(now =~= seq![digit_char((was % 10) as int)] + tail);
            assert(digits(was as nat) =~= digits(rest as nat).push(digit_char((was % 10) as int)));
            assert(digits(magnitude) =~= digits(rest as nat) + now);
        }
    }
    push_digit(s, rest as u8);
    let ghost tail = Seq::new(low@.len(), |k: int| digit_char(low@[low@.len() - 1 - k] as int));
    let mut i: usize = low.len();
    while i > 0
        invariant
            i <= low@.len(),
            forall|k: int| 0 <= k < low@.len() ==> (#[trigger] low@[k]) < 10,
            tail == Seq::new(low@.len(), |k: int| digit_char(low@[low@.len() - 1 - k] as int)),
            s@ == head + digits(rest as nat) + tail.subrange(0, low@.len() - i),
        decreases i,
    {
        i -= 1;
        push_digit(s, low[i]);
        assert(s@ =~= head + digits(rest as nat) + tail.subrange(0, low@.len() - i));
    }
    assert(s@ =~= head + digits(magnitude));
}

/// The decimal numeral of `n` as a string.
pub fn decimal_string(n: i32) -> (s: String)
    ensures
        s@ == decimal(n as int),
{
    let mut s = String::new();
    push_decimal(&mut s, n);
    assert(s@ =~= decimal(n as int));
    s
}

} // verus!
