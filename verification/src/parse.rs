use vstd::prelude::*;
use vstd::string::StrSliceExecFns;
use crate::MARKS_BOUND;

verus! {

/// Largest whole-mark magnitude the fixed-point representation accepts;
/// together with two fraction digits it reaches `MARKS_BOUND` hundredths.
pub const MAX_WHOLE: u64 = 9_999_999_999;

/// Whether a character is a decimal digit.
pub open spec fn is_digit(c: char) -> bool {
    48 <= c as u32 <= 57
}

/// The numeric value of a decimal digit character.
pub open spec fn digit_val(c: char) -> int
    recommends
        is_digit(c),
{
    c as u32 - 48
}

/// Whether every character of the sequence is a decimal digit.
pub open spec fn all_digits(s: Seq<char>) -> bool {
    forall|i: int| 0 <= i < s.len() ==> is_digit(#[trigger] s[i])
}

/// The number denoted by a sequence of decimal digits, most significant
/// first; the empty sequence denotes zero.
pub open spec fn digits_val(s: Seq<char>) -> int
    decreases s.len(),
{
    if s.len() == 0 {
        0
    } else {
        digits_val(s.drop_last()) * 10 + digit_val(s.last())
    }
}

/// The length of the leading run of digit characters.
pub open spec fn digit_run_len(s: Seq<char>) -> int
    decreases s.len(),
{
    if s.len() == 0 || !is_digit(s[0]) {
        0
    } else {
        1 + digit_run_len(s.subrange(1, s.len() as int))
    }
}

/// A digit string denotes a nonnegative number.
pub proof fn lemma_digits_val_nonneg(s: Seq<char>)
    requires
        all_digits(s),
    ensures
        digits_val(s) >= 0,
    decreases s.len(),
{
    if s.len() > 0 {
        assert(all_digits(s.drop_last()));
        lemma_digits_val_nonneg(s.drop_last());
    }
}

/// Dropping trailing digits never increases the denoted number.
pub proof fn lemma_digits_val_prefix(s: Seq<char>, i: int)
    requires
        all_digits(s),
        0 <= i <= s.len(),
    ensures
        digits_val(s.subrange(0, i)) <= digits_val(s),
    decreases s.len() - i,
{
    if i == s.len() {
        assert(s.subrange(0, i) =~= s);
    } else {
        let p = s.subrange(0, i + 1);
        assert(p.drop_last() =~= s.subrange(0, i));
        assert(all_digits(p));
        lemma_digits_val_nonneg(p.drop_last());
        lemma_digits_val_prefix(s, i + 1);
    }
}

/// A run of `k` digits followed by the sequence's end or a non-digit is
/// exactly the leading digit run.
pub proof fn lemma_digit_run(s: Seq<char>, k: int)
    requires
        0 <= k <= s.len(),
        forall|j: int| 0 <= j < k ==> is_digit(#[trigger] s[j]),
        k == s.len() || !is_digit(s[k]),
    ensures
        digit_run_len(s) == k,
    decreases s.len(),
{
    if k == 0 {
    } else {
        let t = s.subrange(1, s.len() as int);
        assert(forall|j: int| 0 <= j < k - 1 ==> is_digit(#[trigger] t[j]));
        assert(k - 1 == t.len() || !is_digit(t[k - 1]));
        lemma_digit_run(t, k - 1);
    }
}

fn is_digit_char(c: char) -> (r: bool)
    ensures
        r == is_digit(c),
{
    let u: u32 = c as u32;
    48 <= u && u <= 57
}

/// The numeric value of a decimal digit character.
fn digit_value(c: char) -> (r: u64)
    requires
        is_digit(c),
    ensures
        r == digit_val(c),
        r < 10,
{
    (c as u32 - 48) as u64
}

/// The end of the run of digit characters that starts at `from`.
fn scan_digits(s: &str, from: usize) -> (end: usize)
    requires
        from <= s@.len(),
    ensures
        from <= end <= s@.len(),
        forall|k: int| from <= k < end ==> is_digit(#[trigger] s@[k]),
        end < s@.len() ==> !is_digit(s@[end as int]),
{
    let n: usize = s.unicode_len();
    let mut i: usize = from;
    loop
        invariant
            from <= i <= n,
            n == s@.len(),
            forall|k: int| from <= k < i ==> is_digit(#[trigger] s@[k]),
        decreases n - i,
    {
        if i == n {
            return i;
        }
        let c = s.get_char(i);
        if !is_digit_char(c) {
            return i;
        }
        i = i + 1;
    }
}

/// The digit part of a subject count: the text with a single leading
/// plus sign, if any, removed.
pub open spec fn subjects_digits(s: Seq<char>) -> Seq<char> {
    if s.len() > 0 && s[0] == '+' {
        s.subrange(1, s.len() as int)
    } else {
        s
    }
}

/// Whether the text denotes an acceptable subject count: at least one
/// digit after an optional plus sign, a positive value, and small enough
/// for the counter.
pub open spec fn subjects_valid(s: Seq<char>) -> bool {
    let d = subjects_digits(s);
    &&& d.len() > 0
    &&& all_digits(d)
    &&& 0 < digits_val(d) <= u32::MAX
}

/// The sign denoted by a marks text: negative exactly when it starts
/// with a minus sign.
pub open spec fn marks_sign(s: Seq<char>) -> int {
    if s.len() > 0 && s[0] == '-' {
        -1
    } else {
        1
    }
}

/// The marks text with a single leading sign, if any, removed.
pub open spec fn marks_body(s: Seq<char>) -> Seq<char> {
    if s.len() > 0 && (s[0] == '-' || s[0] == '+') {
        s.subrange(1, s.len() as int)
    } else {
        s
    }
}

/// Whether the unsigned part of a marks text is a plain decimal number:
/// a run of digits, optionally followed by a dot and more digits, with at
/// least one digit somewhere.
pub open spec fn marks_shape(s: Seq<char>) -> bool {
    let b = marks_body(s);
    let il = digit_run_len(b);
    if il == b.len() {
        il > 0
    } else {
        &&& b[il] == '.'
        &&& all_digits(b.subrange(il + 1, b.len() as int))
        &&& (il > 0 || b.len() > il + 1)
    }
}

/// The fraction digits of a marks text, empty when there is no dot.
pub open spec fn marks_frac(s: Seq<char>) -> Seq<char> {
    let b = marks_body(s);
    let il = digit_run_len(b);
    if il == b.len() {
        Seq::<char>::empty()
    } else {
        b.subrange(il + 1, b.len() as int)
    }
}

/// The hundredths denoted by fraction digits: the first reads as tenths,
/// the second as hundredths, and any further digits are ignored.
pub open spec fn spec_frac2(f: Seq<char>) -> int
    recommends
        all_digits(f),
{
    if f.len() >= 2 {
        digit_val(f[0]) * 10 + digit_val(f[1])
    } else if f.len() == 1 {
        digit_val(f[0]) * 10
    } else {
        0
    }
}

/// The magnitude of a marks text, in hundredths of a mark.
pub open spec fn marks_magnitude(s: Seq<char>) -> int {
    let b = marks_body(s);
    let il = digit_run_len(b);
    digits_val(b.subrange(0, il)) * 100 + spec_frac2(marks_frac(s))
}

/// Whether the text denotes acceptable total marks: a well-shaped signed
/// decimal whose whole part fits the fixed-point range.
pub open spec fn marks_valid(s: Seq<char>) -> bool {
    let b = marks_body(s);
    let il = digit_run_len(b);
    &&& marks_shape(s)
    &&& digits_val(b.subrange(0, il)) <= MAX_WHOLE
}

/// The signed hundredths denoted by a marks text.
pub open spec fn spec_marks(s: Seq<char>) -> int {
    marks_sign(s) * marks_magnitude(s)
}

/// The number denoted by the digit characters in `[start, end)`, unless
/// it exceeds `bound`.
fn digits_value_bounded(s: &str, start: usize, end: usize, bound: u64) -> (r: Option<u64>)
    requires
        start <= end <= s@.len(),
        forall|k: int| start <= k < end ==> is_digit(#[trigger] s@[k]),
        bound <= 1_000_000_000_000,
    ensures
        match r {
            Some(v) => v == digits_val(s@.subrange(start as int, end as int)) && v <= bound,
            None => digits_val(s@.subrange(start as int, end as int)) > bound,
        },
{
    let ghost whole = s@.subrange(start as int, end as int);
    proof {
        assert(all_digits(whole));
    }
    let mut acc: u64 = 0;
    let mut i: usize = start;
    proof {
        assert(s@.subrange(start as int, start as int) =~= Seq::<char>::empty());
    }
    loop
        invariant
            start <= i <= end <= s@.len(),
            forall|k: int| start <= k < end ==> is_digit(#[trigger] s@[k]),
            bound <= 1_000_000_000_000,
            whole == s@.subrange(start as int, end as int),
            all_digits(whole),
            acc == digits_val(s@.subrange(start as int, i as int)),
            acc <= bound,
        decreases end - i,
    {
        if i == end {
            proof {
                assert(s@.subrange(start as int, i as int) =~= whole);
            }
            return Some(acc);
        }
        let c = s.get_char(i);
        let d = digit_value(c);
        let v: u64 = acc * 10 + d;
        proof {
            let p = s@.subrange(start as int, i + 1);
            assert(p.drop_last() =~= s@.subrange(start as int, i as int));
            assert(p.last() == s@[i as int]);
            assert(digits_val(p) == acc * 10 + d);
        }
        if v > bound {
            proof {
                let ghost rel_end = i + 1 - start;
                assert(whole.subrange(0, rel_end) =~= s@.subrange(start as int, i + 1));
                lemma_digits_val_prefix(whole, rel_end);
            }
            return None;
        }
        acc = v;
        i = i + 1;
    }
}

/// Reads a subject count: an optional plus sign followed by decimal
/// digits. Returns the denoted number when it is positive and fits the
/// counter, and nothing on any other text — in particular on zero, on a
/// minus sign, and on a value too large for the counter.
pub fn parse_subjects(s: &str) -> (r: Option<u32>)
    ensures
        r is Some <==> subjects_valid(s@),
        r matches Some(v) ==> v == digits_val(subjects_digits(s@)) && v >= 1,
{
    let n: usize = s.unicode_len();
    let start: usize = if n > 0 && s.get_char(0) == '+' {
        1
    } else {
        0
    };
    let ghost d = subjects_digits(s@);
    proof {
        assert(d =~= s@.subrange(start as int, n as int));
    }
    let e = scan_digits(s, start);
    if e < n {
        proof {
            assert(d[e - start] == s@[e as int]);
            assert(!all_digits(d));
        }
        return None;
    }
    if e == start {
        return None;
    }
    match digits_value_bounded(s, start, n, 0xffff_ffff) {
        None => None,
        Some(v) => {
            proof {
                assert(s@.subrange(start as int, n as int) == d);
            }
            if v == 0 {
                None
            } else {
                Some(v as u32)
            }
        },
    }
}

/// Reads total marks: an optional sign, then a plain decimal number with
/// an optional dot — digits, a dot and digits, either side possibly
/// empty but not both. The result is in hundredths of a mark; fraction
/// digits beyond the second are ignored. Returns nothing when the text
/// has any other shape or its whole part exceeds `MAX_WHOLE`.
pub fn parse_marks(s: &str) -> (r: Option<i64>)
    ensures
        r is Some <==> marks_valid(s@),
        r matches Some(v) ==> v == spec_marks(s@) && -MARKS_BOUND <= v <= MARKS_BOUND,
{
    let n: usize = s.unicode_len();
    let mut neg: bool = false;
    let mut istart: usize = 0;
    if n > 0 {
        let c0 = s.get_char(0);
        if c0 == '-' {
            neg = true;
            istart = 1;
        } else if c0 == '+' {
            istart = 1;
        }
    }
    let ghost b = marks_body(s@);
    proof {
        assert(b =~= s@.subrange(istart as int, n as int));
    }
    let ie = scan_digits(s, istart);
    proof {
        lemma_digit_run_from(s@, istart as int, ie as int, n as int);
    }
    let ghost il = digit_run_len(b);
    let ghost ipart = b.subrange(0, il);
    proof {
        assert(ipart =~= s@.subrange(istart as int, ie as int));
    }
    let mut fstart: usize = ie;
    let mut fend: usize = ie;
    if ie < n {
        let c = s.get_char(ie);
        if c != '.' {
            return None;
        }
        fstart = ie + 1;
        let fe = scan_digits(s, fstart);
        if fe < n {
            proof {
                let f = b.subrange(il + 1, b.len() as int);
                assert(f[fe - fstart] == s@[fe as int]);
                assert(!all_digits(f));
            }
            return None;
        }
        fend = n;
        proof {
            assert(marks_frac(s@) =~= s@.subrange(fstart as int, n as int));
        }
    } else {
        proof {
            assert(marks_frac(s@) =~= Seq::<char>::empty());
        }
    }
    if ie == istart && fend == fstart {
        return None;
    }
    let w = match digits_value_bounded(s, istart, ie, MAX_WHOLE) {
        None => {
            return None;
        },
        Some(w) => w,
    };
    let flen: usize = fend - fstart;
    let f2: u64 = if flen >= 2 {
        let d0 = digit_value(s.get_char(fstart));
        let d1 = digit_value(s.get_char(fstart + 1));
        d0 * 10 + d1
    } else if flen == 1 {
        digit_value(s.get_char(fstart)) * 10
    } else {
        0
    };
    proof {
        assert(f2 == spec_frac2(marks_frac(s@)));
        assert(f2 <= 99);
    }
    let mag: u64 = w * 100 + f2;
    let v: i64 = if neg {
        -(mag as i64)
    } else {
        mag as i64
    };
    proof {
        assert(marks_valid(s@));
        assert(v == spec_marks(s@));
    }
    Some(v)
}

/// A scan that finds digits from `from` up to `upto`, and a non-digit or
/// the end there, pins the leading digit run of the tail starting at
/// `from`.
proof fn lemma_digit_run_from(s: Seq<char>, from: int, upto: int, n: int)
    requires
        0 <= from <= upto <= n,
        n == s.len(),
        forall|k: int| from <= k < upto ==> is_digit(#[trigger] s[k]),
        upto < n ==> !is_digit(s[upto]),
    ensures
        digit_run_len(s.subrange(from, n)) == upto - from,
{
    let t = s.subrange(from, n);
    assert(forall|j: int| 0 <= j < upto - from ==> is_digit(#[trigger] t[j]));
    lemma_digit_run(t, upto - from);
}

} // verus!
