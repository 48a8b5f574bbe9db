use vstd::prelude::*;
use vstd::string::StringExecFns;

verus! {

/// Appends one character to a string.
///
/// Relies on String::push: appends the given char to the end of this String.
#[verifier::external_body]
pub(crate) fn push_char(s: &mut String, c: char)
    ensures
        final(s)@ == old(s)@.push(c),
{
    s.push(c);
}

/// The decimal digit character for a value below ten.
pub open spec fn digit_char(d: int) -> char
    recommends
        0 <= d < 10,
{
    if d == 0 {
        '0'
    } else if d == 1 {
        '1'
    } else if d == 2 {
        '2'
    } else if d == 3 {
        '3'
    } else if d == 4 {
        '4'
    } else if d == 5 {
        '5'
    } else if d == 6 {
        '6'
    } else if d == 7 {
        '7'
    } else if d == 8 {
        '8'
    } else {
        '9'
    }
}

/// The decimal rendering of a nonnegative number: its digits in order,
/// with no leading zero except for the number zero itself.
pub open spec fn spec_decimal(n: nat) -> Seq<char>
    decreases n,
{
    if n < 10 {
        seq![digit_char(n as int)]
    } else {
        spec_decimal(n / 10).push(digit_char((n % 10) as int))
    }
}

/// A number below one hundred rendered as exactly two digits, the first
/// being zero when the number is below ten.
pub open spec fn spec_pad2(n: int) -> Seq<char>
    recommends
        0 <= n < 100,
{
    seq![digit_char(n / 10), digit_char(n % 10)]
}

/// A count of hundredths rendered with exactly two decimal places: an
/// optional minus sign, the whole part in decimal, a dot, and the
/// remaining hundredths as two digits.
pub open spec fn spec_fixed2(h: int) -> Seq<char> {
    if h < 0 {
        seq!['-'] + spec_decimal(((-h) / 100) as nat) + seq!['.'] + spec_pad2((-h) % 100)
    } else {
        spec_decimal((h / 100) as nat) + seq!['.'] + spec_pad2(h % 100)
    }
}

pub(crate) fn digit_to_char(d: u64) -> (c: char)
    requires
        d < 10,
    ensures
        c == digit_char(d as int),
{
    match d {
        0 => '0',
        1 => '1',
        2 => '2',
        3 => '3',
        4 => '4',
        5 => '5',
        6 => '6',
        7 => '7',
        8 => '8',
        _ => '9',
    }
}

/// Renders a nonnegative number in decimal.
pub fn decimal_string(n: u64) -> (s: String)
    ensures
        s@ == spec_decimal(n as nat),
    decreases n,
{
    if n < 10 {
        let mut s = String::new();
        push_char(&mut s, digit_to_char(n));
        proof {
            assert(s@ =~= spec_decimal(n as nat));
        }
        s
    } else {
        let mut s = decimal_string(n / 10);
        push_char(&mut s, digit_to_char(n % 10));
        proof {
            assert(s@ =~= spec_decimal(n as nat));
        }
        s
    }
}

/// Renders a number below one hundred as two digits, zero padded.
pub fn pad2_string(n: u64) -> (s: String)
    requires
        n < 100,
    ensures
        s@ == spec_pad2(n as int),
{
    let mut s = String::new();
    push_char(&mut s, digit_to_char(n / 10));
    push_char(&mut s, digit_to_char(n % 10));
    proof {
        assert(s@ =~= spec_pad2(n as int));
    }
    s
}

/// Renders a count of hundredths with exactly two decimal places.
pub fn fixed2_string(h: i64) -> (s: String)
    requires
        h > i64::MIN,
    ensures
        s@ == spec_fixed2(h as int),
{
    let m: u64 = if h < 0 {
        (-h) as u64
    } else {
        h as u64
    };
    let mut s = String::new();
    if h < 0 {
        push_char(&mut s, '-');
    }
    let whole = decimal_string(m / 100);
    s.append(whole.as_str());
    push_char(&mut s, '.');
    let frac = pad2_string(m % 100);
    s.append(frac.as_str());
    proof {
        assert(s@ =~= spec_fixed2(h as int));
    }
    s
}

} // verus!
