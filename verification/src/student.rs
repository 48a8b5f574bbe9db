use vstd::prelude::*;
use crate::MARKS_BOUND;

verus! {

/// Letter classification of an average, from best to worst.
#[derive(Clone, Copy, Debug, PartialEq, Eq, Structural)]
pub enum Grade {
    A,
    B,
    C,
    D,
}

/// One student's captured fields. Total marks are kept in hundredths of a
/// mark, so two-decimal values are represented exactly.
pub struct Student {
    pub name: String,
    pub total_marks: i64,
    pub num_subjects: u32,
}

/// The average of `t` hundredths over `n` subjects, rounded to the nearest
/// hundredth; a half rounds away from zero.
pub open spec fn spec_average(t: int, n: int) -> int
    recommends
        n >= 1,
{
    if t >= 0 {
        (2 * t + n) / (2 * n)
    } else {
        -((2 * (-t) + n) / (2 * n))
    }
}

/// The grade band that contains the exact (unrounded) average `t / (100 n)`.
/// A band's lower bound is inclusive: exactly 90 marks per subject is an A.
pub open spec fn spec_grade(t: int, n: int) -> Grade
    recommends
        n >= 1,
{
    if t >= 9000 * n {
        Grade::A
    } else if t >= 7500 * n {
        Grade::B
    } else if t >= 6000 * n {
        Grade::C
    } else {
        Grade::D
    }
}

impl Grade {
    /// The band's letter.
    pub open spec fn spec_letter(self) -> Seq<char> {
        match self {
            Grade::A => seq!['A'],
            Grade::B => seq!['B'],
            Grade::C => seq!['C'],
            Grade::D => seq!['D'],
        }
    }

    /// The band's letter as text.
    pub fn letter(&self) -> (r: String)
        ensures
            r@ == self.spec_letter(),
    {
        proof {
            reveal_strlit("A");
            reveal_strlit("B");
            reveal_strlit("C");
            reveal_strlit("D");
        }
        match self {
            Grade::A => String::from_str("A"),
            Grade::B => String::from_str("B"),
            Grade::C => String::from_str("C"),
            Grade::D => String::from_str("D"),
        }
    }
}

impl Student {
    /// A record is well formed when it has at least one subject and its
    /// total marks fit the fixed-point representation.
    pub open spec fn wf(self) -> bool {
        &&& self.num_subjects >= 1
        &&& -MARKS_BOUND <= self.total_marks <= MARKS_BOUND
    }

    pub fn new(name: String, total_marks: i64, num_subjects: u32) -> (s: Student)
        requires
            num_subjects >= 1,
            -MARKS_BOUND <= total_marks <= MARKS_BOUND,
        ensures
            s.wf(),
            s.name == name,
            s.total_marks == total_marks,
            s.num_subjects == num_subjects,
    {
        Student { name, total_marks, num_subjects }
    }

    /// Total marks divided by the number of subjects, as hundredths of a
    /// mark rounded to the nearest hundredth.
    pub fn average(&self) -> (r: i64)
        requires
            self.wf(),
        ensures
            r == spec_average(self.total_marks as int, self.num_subjects as int),
            -(MARKS_BOUND + 1) <= r <= MARKS_BOUND + 1,
    {
        let n: u64 = self.num_subjects as u64;
        if self.total_marks >= 0 {
            let t: u64 = self.total_marks as u64;
            let q: u64 = (2 * t + n) / (2 * n);
            proof {
                lemma_round_div_bound(t as int, n as int);
            }
            q as i64
        } else {
            let t: u64 = (-self.total_marks) as u64;
            let q: u64 = (2 * t + n) / (2 * n);
            proof {
                lemma_round_div_bound(t as int, n as int);
            }
            -(q as i64)
        }
    }

    /// The grade band of the exact average, evaluated without rounding.
    pub fn grade(&self) -> (g: Grade)
        requires
            self.wf(),
        ensures
            g == spec_grade(self.total_marks as int, self.num_subjects as int),
    {
        let t: i64 = self.total_marks;
        let n: i64 = self.num_subjects as i64;
        if t >= 9000 * n {
            Grade::A
        } else if t >= 7500 * n {
            Grade::B
        } else if t >= 6000 * n {
            Grade::C
        } else {
            Grade::D
        }
    }
}

/// The average is the quotient of total marks over the subject count,
/// exact up to the representation: the rounded value differs from the
/// true quotient `t / n` by at most half a hundredth in either direction.
pub proof fn lemma_average_within_half(t: int, n: int)
    requires
        1 <= n,
    ensures
        -n <= 2 * (n * spec_average(t, n) - t) <= n,
{
    if t >= 0 {
        lemma_round_rem(t, n);
    } else {
        lemma_round_rem(-t, n);
        let q = (2 * (-t) + n) / (2 * n);
        assert(n * spec_average(t, n) - t == -(n * q - (-t))) by (nonlinear_arith)
            requires
                spec_average(t, n) == -q,
        ;
    }
}

/// When the subject count divides the total evenly, the average is that
/// quotient with no rounding at all: `average * n == t` exactly.
pub proof fn lemma_average_exact(t: int, n: int)
    requires
        1 <= n,
        t % n == 0,
    ensures
        spec_average(t, n) * n == t,
{
    lemma_average_within_half(t, n);
    let a = spec_average(t, n);
    assert(t % n == 0 ==> (t == n * (t / n))) by {
        vstd::arithmetic::div_mod::lemma_fundamental_div_mod(t, n);
    }
    let k = t / n;
    assert(a == k) by (nonlinear_arith)
        requires
            -n <= 2 * (n * a - t) <= n,
            t == n * k,
            n >= 1,
    ;
    assert(a * n == t) by (nonlinear_arith)
        requires
            a == k,
            t == n * k,
    ;
}

/// Each record falls in exactly one grade band: the four threshold
/// conditions on the exact average are mutually exclusive and cover every
/// total, and the returned grade is the band that holds.
pub proof fn lemma_grade_bands(t: int, n: int)
    requires
        1 <= n,
    ensures
        (spec_grade(t, n) == Grade::A <==> 9000 * n <= t),
        (spec_grade(t, n) == Grade::B <==> 7500 * n <= t < 9000 * n),
        (spec_grade(t, n) == Grade::C <==> 6000 * n <= t < 7500 * n),
        (spec_grade(t, n) == Grade::D <==> t < 6000 * n),
{
}

/// Average and grade are functions of the record's fields alone: two
/// results that meet the metric contracts for the same fields are equal,
/// so computing either metric twice yields identical values.
pub proof fn lemma_metrics_deterministic(t: int, n: int, a1: int, a2: int, g1: Grade, g2: Grade)
    requires
        a1 == spec_average(t, n),
        a2 == spec_average(t, n),
        g1 == spec_grade(t, n),
        g2 == spec_grade(t, n),
    ensures
        a1 == a2,
        g1 == g2,
{
}

/// For nonnegative `t` the rounding error of the averaged quotient lies in
/// the half-open interval `(-n, n]`, measured as `2 * (n * q - t)`.
proof fn lemma_round_rem(t: int, n: int)
    requires
        0 <= t,
        1 <= n,
    ensures
        -n < 2 * (n * ((2 * t + n) / (2 * n)) - t) <= n,
{
    let d = 2 * n;
    let x = 2 * t + n;
    let q = x / d;
    let r = x % d;
    vstd::arithmetic::div_mod::lemma_fundamental_div_mod(x, d);
    vstd::arithmetic::div_mod::lemma_mod_division_less_than_divisor(x, d);
    assert(-n < 2 * (n * q - t) <= n) by (nonlinear_arith)
        requires
            x == d * q + r,
            0 <= r < d,
            d == 2 * n,
            x == 2 * t + n,
            n >= 1,
    ;
}

/// The rounded quotient of nonnegative `t` over `n` is nonnegative and at
/// most one above `t`; in particular it stays within the fixed-point
/// range.
proof fn lemma_round_div_bound(t: int, n: int)
    requires
        0 <= t,
        1 <= n,
    ensures
        0 <= (2 * t + n) / (2 * n) <= t + 1,
{
    let d = 2 * n;
    let x = 2 * t + n;
    let q = x / d;
    let r = x % d;
    vstd::arithmetic::div_mod::lemma_fundamental_div_mod(x, d);
    vstd::arithmetic::div_mod::lemma_mod_division_less_than_divisor(x, d);
    vstd::arithmetic::div_mod::lemma_div_pos_is_pos(x, d);
    assert(q <= t + 1) by (nonlinear_arith)
        requires
            x == d * q + r,
            0 <= r < d,
            d == 2 * n,
            x == 2 * t + n,
            n >= 1,
            t >= 0,
            q >= 0,
    ;
}

} // verus!

