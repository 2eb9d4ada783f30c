//! Non-negative decimal numbers read from evidence text, kept as thousandths.

use vstd::prelude::*;

verus! {

/// A non-negative decimal number: its value in thousandths (saturating at
/// `u64::MAX`), and whether digits beyond the third decimal place are non-zero.
#[derive(Debug, Clone, Copy, PartialEq, Eq, Structural)]
pub struct Decimal {
    pub thousandths: u64,
    pub finer: bool,
}

/// Whether `c` is an ASCII digit.
pub open spec fn is_digit(c: char) -> bool {
    '0' <= c && c <= '9'
}

/// Whether `c` may belong to a decimal number written with digits and a point.
pub open spec fn is_number_char(c: char) -> bool {
    is_digit(c) || c == '.'
}

/// The value of the ASCII digit `c`.
pub open spec fn digit_value(c: char) -> nat {
    ((c as u32) - ('0' as u32)) as nat
}

/// The value of the decimal digits `s`, most significant first.
pub open spec fn digits_value(s: Seq<char>) -> nat
    decreases s.len(),
{
    if s.len() == 0 {
        0
    } else {
        digits_value(s.drop_last()) * 10 + digit_value(s.last())
    }
}

/// `v`, or `u64::MAX` where `v` exceeds it.
pub open spec fn saturate(v: nat) -> u64 {
    if v >= u64::MAX {
        u64::MAX
    } else {
        v as u64
    }
}

/// The index of the first point in `s` at or after `i`, or `s.len()`.
pub open spec fn point_from(s: Seq<char>, i: int) -> int
    decreases s.len() - i,
{
    if i >= s.len() {
        s.len() as int
    } else if s[i] == '.' {
        i
    } else {
        point_from(s, i + 1)
    }
}

/// The first three fraction digits, padded with zeros.
pub open spec fn first_three(f: Seq<char>) -> Seq<char> {
    Seq::new(3, |i: int| if i < f.len() { f[i] } else { '0' })
}

/// Whether a fraction digit beyond the third is not zero.
pub open spec fn has_finer(f: Seq<char>) -> bool {
    exists|i: int| 3 <= i < f.len() && f[i] != '0'
}

/// The number written by `s`, a run of digits and points, as a decimal number
/// parser reads it: `None` unless it holds at most one point and some digit.
pub open spec fn decimal_of(s: Seq<char>) -> Option<Decimal> {
    let p = point_from(s, 0);
    let whole = s.take(p);
    let frac = if p < s.len() { s.skip(p + 1) } else { Seq::empty() };
    if point_from(s, p + 1) < s.len() && p < s.len() {
        None
    } else if whole.len() + frac.len() == 0 {
        None
    } else {
        Some(
            Decimal {
                thousandths: saturate(digits_value(whole + first_three(frac))),
                finer: has_finer(frac),
            },
        )
    }
}

impl Decimal {
    /// The whole number `n`.
    pub fn whole(n: u64) -> (r: Decimal)
        requires
            n <= u64::MAX / 1000,
        ensures
            r.thousandths == n * 1000,
            !r.finer,
    {
        Decimal { thousandths: n * 1000, finer: false }
    }

    /// Whether the number is at most the whole number `n`.
    pub open spec fn spec_at_most(self, n: nat) -> bool {
        self.thousandths < n * 1000 || (self.thousandths == n * 1000 && !self.finer)
    }

    /// Whether the number is at least the whole number `n`.
    pub open spec fn spec_at_least(self, n: nat) -> bool {
        self.thousandths >= n * 1000
    }

    /// Whether the number is at most `n`.
    pub fn at_most(&self, n: u64) -> (r: bool)
        requires
            n <= u64::MAX / 1000,
        ensures
            r == self.spec_at_most(n as nat),
    {
        self.thousandths < n * 1000 || (self.thousandths == n * 1000 && !self.finer)
    }

    /// Whether the number is at least `n`.
    pub fn at_least(&self, n: u64) -> (r: bool)
        requires
            n <= u64::MAX / 1000,
        ensures
            r == self.spec_at_least(n as nat),
    {
        self.thousandths >= n * 1000
    }
}

/// One decimal step: `acc * 10 + d`, saturating.
fn step(acc: u64, d: u64, Ghost(v): Ghost<nat>) -> (r: u64)
    requires
        d <= 9,
        acc == saturate(v),
    ensures
        r == saturate((v * 10 + d) as nat),
{
    if acc > (u64::MAX - d) / 10 {
        assert(v * 10 + d >= u64::MAX) by (nonlinear_arith)
            requires
                acc == saturate(v),
                acc > (u64::MAX - d) / 10,
                d <= 9,
        {
            if v < u64::MAX {
                assert(acc == v);
            }
        }
        u64::MAX
    } else {
        assert(acc == v) by {
            if v >= u64::MAX {
                assert(acc == u64::MAX);
            }
        }
        assert(acc * 10 + d <= u64::MAX) by (nonlinear_arith)
            requires
                acc <= (u64::MAX - d) / 10,
                d <= 9,
        ;
        acc * 10 + d
    }
}

proof fn lemma_point_from_bounds(s: Seq<char>, i: int)
    requires
        0 <= i,
    ensures
        i <= s.len() ==> i <= point_from(s, i) <= s.len(),
        point_from(s, i) < s.len() ==> s[point_from(s, i)] == '.',
        forall|k: int| i <= k < point_from(s, i) ==> s[k] != '.',
    decreases s.len() - i,
{
    if i < s.len() && s[i] != '.' {
        lemma_point_from_bounds(s, i + 1);
    }
}

/// The value of the digits `d`, saturating.
fn digits_saturated(d: &[char]) -> (r: u64)
    requires
        forall|i: int| 0 <= i < d@.len() ==> is_digit(#[trigger] d@[i]),
    ensures
        r == saturate(digits_value(d@)),
{
    let mut acc: u64 = 0;
    let mut i: usize = 0;
    assert(d@.take(0) =~= Seq::<char>::empty());
    while i < d.len()
        invariant
            i <= d@.len(),
            forall|k: int| 0 <= k < d@.len() ==> is_digit(#[trigger] d@[k]),
            acc == saturate(digits_value(d@.take(i as int))),
        decreases d@.len() - i,
    {
        let c = d[i];
        assert(is_digit(d@[i as int]));
        let v = (c as u32 - '0' as u32) as u64;
        assert(d@.take(i + 1).drop_last() =~= d@.take(i as int));
        acc = step(acc, v, Ghost(digits_value(d@.take(i as int))));
        i += 1;
    }
    assert(d@.take(i as int) =~= d@);
    acc
}

/// Reads the run `s[a..b]` of digits and points as `decimal_of` states.
pub fn read_decimal(s: &[char], a: usize, b: usize) -> (r: Option<Decimal>)
    requires
        a <= b <= s@.len(),
        forall|i: int| a <= i < b ==> is_number_char(#[trigger] s@[i]),
    ensures
        r == decimal_of(s@.subrange(a as int, b as int)),
{
    let run = crate::text::copy_range(s, a, b);
    let n = run.len();
    assert forall|i: int| 0 <= i < n implies is_number_char(#[trigger] run@[i]) by {
        assert(run@[i] == s@[a + i]);
    }
    let mut p: usize = 0;
    while p < n && run[p] != '.'
        invariant
            n == run@.len(),
            p <= n,
            point_from(run@, 0) == point_from(run@, p as int),
        decreases n - p,
    {
        p += 1;
    }
    let mut q: usize = if p < n {
        p + 1
    } else {
        n
    };
    proof {
        lemma_point_from_bounds(run@, 0);
    }
    if p < n {
        while q < n && run[q] != '.'
            invariant
                n == run@.len(),
                p < q <= n,
                point_from(run@, p + 1) == point_from(run@, q as int),
            decreases n - q,
        {
            q += 1;
        }
        if q < n {
            return None;
        }
    }
    let whole = crate::text::copy_range(run.as_slice(), 0, p);
    let frac = if p < n {
        crate::text::copy_range(run.as_slice(), p + 1, n)
    } else {
        Vec::new()
    };
    assert(whole@ =~= run@.take(p as int));
    assert(p < n ==> frac@ =~= run@.skip(p + 1));
    if whole.len() + frac.len() == 0 {
        return None;
    }
    proof {
        lemma_point_from_bounds(run@, p + 1);
        assert forall|k: int| 0 <= k < whole@.len() implies is_digit(#[trigger] whole@[k]) by {
            assert(whole@[k] == run@[k]);
        }
        assert forall|k: int| 0 <= k < frac@.len() implies is_digit(#[trigger] frac@[k]) by {
            assert(frac@[k] == run@[p + 1 + k]);
        }
    }
    let mut digs = whole;
    let mut t: usize = 0;
    while t < 3
        invariant
            t <= 3,
            digs@ == run@.take(p as int) + first_three(frac@).take(t as int),
            forall|k: int| 0 <= k < frac@.len() ==> is_digit(#[trigger] frac@[k]),
            forall|k: int| 0 <= k < digs@.len() ==> is_digit(#[trigger] digs@[k]),
        decreases 3 - t,
    {
        let c = if t < frac.len() {
            frac[t]
        } else {
            '0'
        };
        digs.push(c);
        t += 1;
        assert(digs@ =~= run@.take(p as int) + first_three(frac@).take(t as int));
    }
    assert(first_three(frac@).take(3) =~= first_three(frac@));
    let thousandths = digits_saturated(digs.as_slice());
    let mut finer = false;
    let mut k: usize = 3;
    while k < frac.len()
        invariant
            3 <= k,
            finer == exists|j: int| 3 <= j < k && j < frac@.len() && frac@[j] != '0',
        decreases frac@.len() - k,
    {
        if frac[k] != '0' {
            finer = true;
        }
        k += 1;
    }
    proof {
        assert(s@.subrange(a as int, b as int) == run@);
        if finer {
            let j = choose|j: int| 3 <= j < k && j < frac@.len() && frac@[j] != '0';
            assert(has_finer(frac@));
        }
        if has_finer(frac@) {
            let j = choose|j: int| 3 <= j < frac@.len() && frac@[j] != '0';
            assert(3 <= j < k);
        }
    }
    Some(Decimal { thousandths, finer })
}

} // verus!
