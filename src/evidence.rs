//! Evidence carried by gated events: backpressure checks on `build.done`,
//! verification on `review.done` and the quality report on `verify.*`.

use vstd::prelude::*;
use crate::ansi::{lemma_strip_ansi_idempotent, strip_ansi, strip_ansi_chars};
use crate::decimal::{Decimal, decimal_of, is_digit, is_number_char, read_decimal};
use crate::text::{
    chars_of, contains, contains_exec, has_prefix, segment_sep, split_chars, split_pieces,
    starts_with_exec, trim, trim_chars,
};

verus! {

/// What `str::to_lowercase` makes of the characters `s`.
pub uninterp spec fn lower_of(s: Seq<char>) -> Seq<char>;

/// Relies on `str::to_lowercase`: the result depends on the characters alone.
#[verifier::external_body]
pub fn lowercase_chars(s: &[char]) -> (r: Vec<char>)
    ensures
        r@ == lower_of(s@),
{
    s.iter().collect::<String>().to_lowercase().chars().collect()
}

/// The trimmed pieces of `s` between line breaks and commas.
pub open spec fn segments(s: Seq<char>) -> Seq<Seq<char>> {
    split_pieces(s, segment_sep(true)).map_values(|p: Seq<char>| trim(p))
}

/// The trimmed segments of `s`, as `segments` states.
pub fn segments_of(s: &[char]) -> (r: Vec<Vec<char>>)
    ensures
        r@.len() == segments(s@).len(),
        forall|k: int| 0 <= k < r@.len() ==> #[trigger] r@[k]@ == segments(s@)[k],
{
    let pieces = split_chars(s, true);
    let mut r: Vec<Vec<char>> = Vec::new();
    let mut k: usize = 0;
    while k < pieces.len()
        invariant
            pieces@.len() == split_pieces(s@, segment_sep(true)).len(),
            forall|j: int|
                0 <= j < pieces@.len() ==> #[trigger] pieces@[j]@ == split_pieces(
                    s@,
                    segment_sep(true),
                )[j],
            k <= pieces@.len(),
            r@.len() == k,
            forall|j: int| 0 <= j < k ==> #[trigger] r@[j]@ == segments(s@)[j],
        decreases pieces@.len() - k,
    {
        r.push(trim_chars(pieces[k].as_slice()));
        k += 1;
    }
    r
}

/// The keys whose segment the evidence parser looks up.
#[derive(Debug, Clone, Copy, PartialEq, Eq, Structural)]
pub enum SegmentKey {
    Complexity,
    Duplication,
    Performance,
    Specs,
    Mutants,
}

/// Whether `seg` is the segment of `key`.
pub open spec fn is_key_segment(key: SegmentKey, seg: Seq<char>) -> bool {
    match key {
        SegmentKey::Complexity => has_prefix(lower_of(seg), "complexity:"@),
        SegmentKey::Duplication => has_prefix(lower_of(seg), "duplication:"@),
        SegmentKey::Performance => has_prefix(lower_of(seg), "performance:"@) || has_prefix(
            lower_of(seg),
            "perf:"@,
        ),
        SegmentKey::Specs => has_prefix(lower_of(seg), "specs:"@),
        SegmentKey::Mutants => contains(seg, "mutants:"@),
    }
}

/// The first segment of `segs` that is the segment of `key`.
pub open spec fn key_segment(segs: Seq<Seq<char>>, key: SegmentKey) -> Option<Seq<char>>
    decreases segs.len(),
{
    if segs.len() == 0 {
        None
    } else if is_key_segment(key, segs[0]) {
        Some(segs[0])
    } else {
        key_segment(segs.drop_first(), key)
    }
}

fn is_key_segment_exec(key: SegmentKey, seg: &[char]) -> (r: bool)
    ensures
        r == is_key_segment(key, seg@),
{
    match key {
        SegmentKey::Mutants => contains_exec(seg, chars_of("mutants:").as_slice()),
        _ => {
            let low = lowercase_chars(seg);
            match key {
                SegmentKey::Complexity => starts_with_exec(
                    low.as_slice(),
                    chars_of("complexity:").as_slice(),
                ),
                SegmentKey::Duplication => starts_with_exec(
                    low.as_slice(),
                    chars_of("duplication:").as_slice(),
                ),
                SegmentKey::Performance => starts_with_exec(
                    low.as_slice(),
                    chars_of("performance:").as_slice(),
                ) || starts_with_exec(low.as_slice(), chars_of("perf:").as_slice()),
                _ => starts_with_exec(low.as_slice(), chars_of("specs:").as_slice()),
            }
        },
    }
}

/// The first segment of `segs` that is the segment of `key`.
fn find_key_segment(segs: &Vec<Vec<char>>, key: SegmentKey) -> (r: Option<usize>)
    ensures
        match r {
            Some(i) => i < segs@.len() && key_segment(segs@.map_values(|v: Vec<char>| v@), key)
                == Some(segs@[i as int]@),
            None => key_segment(segs@.map_values(|v: Vec<char>| v@), key) is None,
        },
{
    let ghost all = segs@.map_values(|v: Vec<char>| v@);
    let mut i: usize = 0;
    assert(all.skip(0) =~= all);
    while i < segs.len()
        invariant
            all == segs@.map_values(|v: Vec<char>| v@),
            i <= segs@.len(),
            key_segment(all, key) == key_segment(all.skip(i as int), key),
        decreases segs@.len() - i,
    {
        assert(all.skip(i as int)[0] == segs@[i as int]@);
        if is_key_segment_exec(key, segs[i].as_slice()) {
            return Some(i);
        }
        assert(all.skip(i as int).drop_first() =~= all.skip(i + 1));
        i += 1;
    }
    None
}

/// The index of the first digit of `s` at or after `i`, or `s.len()`.
pub open spec fn digit_from(s: Seq<char>, i: int) -> int
    decreases s.len() - i,
{
    if i >= s.len() {
        s.len() as int
    } else if is_digit(s[i]) {
        i
    } else {
        digit_from(s, i + 1)
    }
}

/// The end of the run of digits and points that starts at `i`.
pub open spec fn run_end(s: Seq<char>, i: int) -> int
    decreases s.len() - i,
{
    if i >= s.len() {
        s.len() as int
    } else if is_number_char(s[i]) {
        run_end(s, i + 1)
    } else {
        i
    }
}

/// The start of the run of digits and points that ends just before `p`.
pub open spec fn run_start(s: Seq<char>, p: int) -> int
    decreases p,
{
    if p > 0 && p <= s.len() && is_number_char(s[p - 1]) {
        run_start(s, p - 1)
    } else {
        p
    }
}

/// The index of the first `c` in `s`, or `s.len()`.
pub open spec fn char_from(s: Seq<char>, c: char, i: int) -> int
    decreases s.len() - i,
{
    if i >= s.len() {
        s.len() as int
    } else if s[i] == c {
        i
    } else {
        char_from(s, c, i + 1)
    }
}

/// The first number in `s`: the run of digits and points that starts at its
/// first digit.
pub open spec fn first_number(s: Seq<char>) -> Option<Decimal> {
    let st = digit_from(s, 0);
    if st < s.len() {
        decimal_of(s.subrange(st, run_end(s, st)))
    } else {
        None
    }
}

/// The percentage in `s`: the run of digits and points just before its first `%`.
pub open spec fn percentage(s: Seq<char>) -> Option<Decimal> {
    let p = char_from(s, '%', 0);
    if p < s.len() {
        let st = run_start(s, p);
        if st < p {
            decimal_of(s.subrange(st, p))
        } else {
            None
        }
    } else {
        None
    }
}

proof fn lemma_run_end(s: Seq<char>, i: int)
    requires
        0 <= i <= s.len(),
    ensures
        i <= run_end(s, i) <= s.len(),
        forall|k: int| i <= k < run_end(s, i) ==> is_number_char(#[trigger] s[k]),
    decreases s.len() - i,
{
    if i < s.len() && is_number_char(s[i]) {
        lemma_run_end(s, i + 1);
    }
}

proof fn lemma_run_start(s: Seq<char>, p: int)
    requires
        0 <= p <= s.len(),
    ensures
        0 <= run_start(s, p) <= p,
        forall|k: int| run_start(s, p) <= k < p ==> is_number_char(#[trigger] s[k]),
    decreases p,
{
    if p > 0 && is_number_char(s[p - 1]) {
        lemma_run_start(s, p - 1);
    }
}

/// The first number in `s`, as `first_number` states.
pub fn extract_first_number(s: &[char]) -> (r: Option<Decimal>)
    ensures
        r == first_number(s@),
{
    let n = s.len();
    let mut i: usize = 0;
    while i < n && !('0' <= s[i] && s[i] <= '9')
        invariant
            n == s@.len(),
            i <= n,
            digit_from(s@, 0) == digit_from(s@, i as int),
        decreases n - i,
    {
        i += 1;
    }
    if i == n {
        return None;
    }
    let mut j = i;
    while j < n && (('0' <= s[j] && s[j] <= '9') || s[j] == '.')
        invariant
            n == s@.len(),
            i <= j <= n,
            run_end(s@, i as int) == run_end(s@, j as int),
            forall|k: int| i <= k < j ==> is_number_char(#[trigger] s@[k]),
        decreases n - j,
    {
        j += 1;
    }
    read_decimal(s, i, j)
}

/// The percentage in `s`, as `percentage` states.
pub fn extract_percentage(s: &[char]) -> (r: Option<Decimal>)
    ensures
        r == percentage(s@),
{
    let n = s.len();
    let mut p: usize = 0;
    while p < n && s[p] != '%'
        invariant
            n == s@.len(),
            p <= n,
            char_from(s@, '%', 0) == char_from(s@, '%', p as int),
        decreases n - p,
    {
        p += 1;
    }
    if p == n {
        return None;
    }
    let mut st = p;
    while st > 0 && (('0' <= s[st - 1] && s[st - 1] <= '9') || s[st - 1] == '.')
        invariant
            n == s@.len(),
            st <= p < n,
            run_start(s@, p as int) == run_start(s@, st as int),
            forall|k: int| st <= k < p ==> is_number_char(#[trigger] s@[k]),
        decreases st,
    {
        st -= 1;
    }
    if st == p {
        return None;
    }
    read_decimal(s, st, p)
}


/// Status of mutation testing evidence.
#[derive(Debug, Clone, Copy, PartialEq, Eq, Structural)]
pub enum MutationStatus {
    Pass,
    Warn,
    Fail,
    Unknown,
}

/// Mutation testing evidence of a `build.done` payload: its status and score.
#[derive(Debug, Clone, Copy, PartialEq, Eq, Structural)]
pub struct MutationEvidence {
    pub status: MutationStatus,
    pub score_percent: Option<Decimal>,
}

/// Backpressure evidence of a `build.done` payload.
#[derive(Debug, Clone, Copy, PartialEq, Eq, Structural)]
pub struct BackpressureEvidence {
    pub tests_passed: bool,
    pub lint_passed: bool,
    pub typecheck_passed: bool,
    pub audit_passed: bool,
    pub coverage_passed: bool,
    pub complexity_score: Option<Decimal>,
    pub duplication_passed: bool,
    pub performance_regression: Option<bool>,
    pub mutants: Option<MutationEvidence>,
    /// `None` where the payload does not report specs; `Some(false)` blocks.
    pub specs_verified: Option<bool>,
}

/// The largest complexity score that passes.
pub const COMPLEXITY_THRESHOLD: u64 = 10;

/// The smallest coverage percentage that passes a quality report.
pub const COVERAGE_THRESHOLD: u64 = 80;

/// The smallest mutation score that passes a quality report.
pub const MUTATION_THRESHOLD: u64 = 70;

impl BackpressureEvidence {
    /// Whether every required check passed: the six boolean checks, a complexity
    /// score of at most 10, no performance regression and no failed specs.
    /// Mutation evidence only warns.
    pub open spec fn spec_all_passed(self) -> bool {
        &&& self.tests_passed
        &&& self.lint_passed
        &&& self.typecheck_passed
        &&& self.audit_passed
        &&& self.coverage_passed
        &&& (self.complexity_score matches Some(c) && c.spec_at_most(
            COMPLEXITY_THRESHOLD as nat,
        ))
        &&& self.duplication_passed
        &&& self.performance_regression != Some(true)
        &&& self.specs_verified != Some(false)
    }

    /// Whether every required check passed, as `spec_all_passed` states.
    pub fn all_passed(&self) -> (r: bool)
        ensures
            r == self.spec_all_passed(),
    {
        let complexity_ok = match self.complexity_score {
            Some(c) => c.at_most(COMPLEXITY_THRESHOLD),
            None => false,
        };
        let perf_ok = match self.performance_regression {
            Some(b) => !b,
            None => true,
        };
        let specs_ok = match self.specs_verified {
            Some(b) => b,
            None => true,
        };
        self.tests_passed && self.lint_passed && self.typecheck_passed && self.audit_passed
            && self.coverage_passed && complexity_ok && self.duplication_passed && perf_ok
            && specs_ok
    }
}

/// Verification evidence of a `review.done` payload.
#[derive(Debug, Clone, Copy, PartialEq, Eq, Structural)]
pub struct ReviewEvidence {
    pub tests_passed: bool,
    pub build_passed: bool,
}

impl ReviewEvidence {
    /// Whether both tests and build passed.
    pub fn is_verified(&self) -> (r: bool)
        ensures
            r == (self.tests_passed && self.build_passed),
    {
        self.tests_passed && self.build_passed
    }
}

/// The quality report of a `verify.*` payload.
#[derive(Debug, Clone, Copy, PartialEq, Eq, Structural)]
pub struct QualityReport {
    pub tests_passed: Option<bool>,
    pub lint_passed: Option<bool>,
    pub audit_passed: Option<bool>,
    pub coverage_percent: Option<Decimal>,
    pub mutation_percent: Option<Decimal>,
    pub complexity_score: Option<Decimal>,
    /// `None` where the payload does not report specs; `Some(false)` fails.
    pub specs_verified: Option<bool>,
}

/// The dimensions of a quality report, in the order they are reported.
pub open spec fn quality_dimensions() -> Seq<Seq<char>> {
    seq!["tests"@, "lint"@, "audit"@, "coverage"@, "mutation"@, "complexity"@, "specs"@]
}

impl QualityReport {
    /// The report with nothing reported.
    pub open spec fn empty() -> QualityReport {
        QualityReport {
            tests_passed: None,
            lint_passed: None,
            audit_passed: None,
            coverage_percent: None,
            mutation_percent: None,
            complexity_score: None,
            specs_verified: None,
        }
    }

    /// Whether the dimension at `k` of `quality_dimensions` fails.
    pub open spec fn dimension_fails(self, k: int) -> bool {
        if k == 0 {
            self.tests_passed != Some(true)
        } else if k == 1 {
            self.lint_passed != Some(true)
        } else if k == 2 {
            self.audit_passed != Some(true)
        } else if k == 3 {
            !(self.coverage_percent matches Some(c) && c.spec_at_least(COVERAGE_THRESHOLD as nat))
        } else if k == 4 {
            !(self.mutation_percent matches Some(c) && c.spec_at_least(MUTATION_THRESHOLD as nat))
        } else if k == 5 {
            !(self.complexity_score matches Some(c) && c.spec_at_most(
                COMPLEXITY_THRESHOLD as nat,
            ))
        } else {
            self.specs_verified == Some(false)
        }
    }

    /// Whether every dimension passes: tests, lint and audit pass, coverage is at
    /// least 80, mutation at least 70, complexity at most 10, and specs did not fail.
    pub open spec fn spec_meets_thresholds(self) -> bool {
        forall|k: int| 0 <= k < 7 ==> !#[trigger] self.dimension_fails(k)
    }

    /// Whether every dimension passes, as `spec_meets_thresholds` states.
    pub fn meets_thresholds(&self) -> (r: bool)
        ensures
            r == self.spec_meets_thresholds(),
    {
        let dims = self.failed_flags();
        let r = !dims[0] && !dims[1] && !dims[2] && !dims[3] && !dims[4] && !dims[5] && !dims[6];
        proof {
            if !r {
                let k = choose|k: int| 0 <= k < 7 && dims@[k];
                assert(self.dimension_fails(k));
            }
        }
        r
    }

    /// For each dimension of `quality_dimensions`, whether it fails.
    fn failed_flags(&self) -> (r: Vec<bool>)
        ensures
            r@.len() == 7,
            forall|k: int| 0 <= k < 7 ==> r@[k] == #[trigger] self.dimension_fails(k),
    {
        let mut r: Vec<bool> = Vec::new();
        r.push(!matches!(self.tests_passed, Some(true)));
        r.push(!matches!(self.lint_passed, Some(true)));
        r.push(!matches!(self.audit_passed, Some(true)));
        r.push(
            match self.coverage_percent {
                Some(c) => !c.at_least(COVERAGE_THRESHOLD),
                None => true,
            },
        );
        r.push(
            match self.mutation_percent {
                Some(c) => !c.at_least(MUTATION_THRESHOLD),
                None => true,
            },
        );
        r.push(
            match self.complexity_score {
                Some(c) => !c.at_most(COMPLEXITY_THRESHOLD),
                None => true,
            },
        );
        r.push(matches!(self.specs_verified, Some(false)));
        r
    }

    /// The names of the failing dimensions, in the order of `quality_dimensions`.
    pub fn failed_dimensions(&self) -> (r: Vec<&'static str>)
        ensures
            r@.len() == failed_names(*self).len(),
            forall|k: int| 0 <= k < r@.len() ==> r@[k]@ == #[trigger] failed_names(*self)[k],
    {
        let flags = self.failed_flags();
        let mut r: Vec<&'static str> = Vec::new();
        let mut k: usize = 0;
        while k < 7
            invariant
                k <= 7,
                flags@.len() == 7,
                forall|j: int| 0 <= j < 7 ==> flags@[j] == #[trigger] self.dimension_fails(j),
                r@.len() == failed_names_upto(*self, k as int).len(),
                forall|j: int|
                    0 <= j < r@.len() ==> r@[j]@ == #[trigger] failed_names_upto(*self, k as int)[j],
            decreases 7 - k,
        {
            if flags[k] {
                let name = dimension_name(k);
                r.push(name);
            }
            k += 1;
        }
        r
    }
}

/// The failing dimensions among the first `k` of `quality_dimensions`.
pub open spec fn failed_names_upto(r: QualityReport, k: int) -> Seq<Seq<char>>
    decreases k,
{
    if k <= 0 {
        Seq::empty()
    } else {
        let prev = failed_names_upto(r, k - 1);
        if r.dimension_fails(k - 1) {
            prev.push(quality_dimensions()[k - 1])
        } else {
            prev
        }
    }
}

/// The failing dimensions of `r`, in the order of `quality_dimensions`.
pub open spec fn failed_names(r: QualityReport) -> Seq<Seq<char>> {
    failed_names_upto(r, 7)
}

/// The name of the dimension at `k` of `quality_dimensions`.
fn dimension_name(k: usize) -> (r: &'static str)
    requires
        k < 7,
    ensures
        r@ == quality_dimensions()[k as int],
{
    if k == 0 {
        "tests"
    } else if k == 1 {
        "lint"
    } else if k == 2 {
        "audit"
    } else if k == 3 {
        "coverage"
    } else if k == 4 {
        "mutation"
    } else if k == 5 {
        "complexity"
    } else {
        "specs"
    }
}


/// Whether the stripped payload `c` mentions any backpressure check.
pub open spec fn mentions_backpressure(c: Seq<char>) -> bool {
    contains(c, "tests:"@) || contains(c, "lint:"@) || contains(c, "typecheck:"@) || contains(
        c,
        "audit:"@,
    ) || contains(c, "coverage:"@) || contains(c, "complexity:"@) || contains(
        c,
        "duplication:"@,
    ) || contains(c, "performance:"@) || contains(c, "perf:"@) || contains(c, "mutants:"@)
        || contains(c, "specs:"@)
}

/// A verdict read from `seg`: `Some(true)` where its lowercase form holds `pass`,
/// else `Some(false)` where it holds `fail`, else `None`.
pub open spec fn verdict_of(seg: Option<Seq<char>>, pass: Seq<char>, fail: Seq<char>) -> Option<
    bool,
> {
    match seg {
        Some(g) => if contains(lower_of(g), pass) {
            Some(true)
        } else if contains(lower_of(g), fail) {
            Some(false)
        } else {
            None
        },
        None => None,
    }
}

/// Whether the performance segment `seg` reports a regression.
pub open spec fn regression_of(seg: Option<Seq<char>>) -> Option<bool> {
    match seg {
        Some(g) => {
            let n = lower_of(g);
            if contains(n, "regression"@) || contains(n, "fail"@) {
                Some(true)
            } else if contains(n, "pass"@) || contains(n, "ok"@) || contains(n, "improved"@) {
                Some(false)
            } else {
                None
            }
        },
        None => None,
    }
}

/// The mutation evidence of the mutants segment `seg`.
pub open spec fn mutation_of(seg: Option<Seq<char>>) -> Option<MutationEvidence> {
    match seg {
        Some(g) => {
            let n = lower_of(g);
            Some(
                MutationEvidence {
                    status: if contains(n, "mutants: pass"@) {
                        MutationStatus::Pass
                    } else if contains(n, "mutants: warn"@) {
                        MutationStatus::Warn
                    } else if contains(n, "mutants: fail"@) {
                        MutationStatus::Fail
                    } else {
                        MutationStatus::Unknown
                    },
                    score_percent: percentage(g),
                },
            )
        },
        None => None,
    }
}

/// The backpressure evidence of `payload`: `None` where its stripped text
/// mentions no check.
pub open spec fn backpressure_of(payload: Seq<char>) -> Option<BackpressureEvidence> {
    let c = strip_ansi(payload);
    let segs = segments(c);
    if mentions_backpressure(c) {
        Some(
            BackpressureEvidence {
                tests_passed: contains(c, "tests: pass"@),
                lint_passed: contains(c, "lint: pass"@),
                typecheck_passed: contains(c, "typecheck: pass"@),
                audit_passed: contains(c, "audit: pass"@),
                coverage_passed: contains(c, "coverage: pass"@),
                complexity_score: match key_segment(segs, SegmentKey::Complexity) {
                    Some(g) => first_number(g),
                    None => None,
                },
                duplication_passed: verdict_of(
                    key_segment(segs, SegmentKey::Duplication),
                    "duplication: pass"@,
                    "duplication: fail"@,
                ) == Some(true),
                performance_regression: regression_of(key_segment(segs, SegmentKey::Performance)),
                mutants: mutation_of(key_segment(segs, SegmentKey::Mutants)),
                specs_verified: verdict_of(
                    key_segment(segs, SegmentKey::Specs),
                    "specs: pass"@,
                    "specs: fail"@,
                ),
            },
        )
    } else {
        None
    }
}

/// The review evidence of `payload`: `None` where its stripped text mentions
/// neither `tests:` nor `build:`.
pub open spec fn review_of(payload: Seq<char>) -> Option<ReviewEvidence> {
    let c = strip_ansi(payload);
    if contains(c, "tests:"@) || contains(c, "build:"@) {
        Some(
            ReviewEvidence {
                tests_passed: contains(c, "tests: pass"@),
                build_passed: contains(c, "build: pass"@),
            },
        )
    } else {
        None
    }
}

fn has(s: &[char], pat: &str) -> (r: bool)
    ensures
        r == contains(s@, pat@),
{
    contains_exec(s, chars_of(pat).as_slice())
}

fn verdict_exec(seg: Option<&Vec<char>>, pass: &str, fail: &str) -> (r: Option<bool>)
    ensures
        r == verdict_of(
            match seg {
                Some(g) => Some(g@),
                None => None,
            },
            pass@,
            fail@,
        ),
{
    match seg {
        Some(g) => {
            let n = lowercase_chars(g.as_slice());
            if has(n.as_slice(), pass) {
                Some(true)
            } else if has(n.as_slice(), fail) {
                Some(false)
            } else {
                None
            }
        },
        None => None,
    }
}

/// The segment of `key` among `segs`, if any.
fn key_segment_exec(segs: &Vec<Vec<char>>, key: SegmentKey) -> (r: Option<&Vec<char>>)
    ensures
        match r {
            Some(g) => key_segment(segs@.map_values(|v: Vec<char>| v@), key) == Some(g@),
            None => key_segment(segs@.map_values(|v: Vec<char>| v@), key) is None,
        },
{
    match find_key_segment(segs, key) {
        Some(i) => Some(&segs[i]),
        None => None,
    }
}

/// Parses backpressure evidence of a `build.done` payload, as `backpressure_of`
/// states.
pub fn backpressure_evidence(payload: &str) -> (r: Option<BackpressureEvidence>)
    ensures
        r == backpressure_of(payload@),
{
    let clean = strip_ansi_chars(chars_of(payload).as_slice());
    let c = clean.as_slice();
    let segs = segments_of(c);
    let ghost sv = segs@.map_values(|v: Vec<char>| v@);
    assert(sv =~= segments(clean@));
    let mentioned = has(c, "tests:") || has(c, "lint:") || has(c, "typecheck:") || has(
        c,
        "audit:",
    ) || has(c, "coverage:") || has(c, "complexity:") || has(c, "duplication:") || has(
        c,
        "performance:",
    ) || has(c, "perf:") || has(c, "mutants:") || has(c, "specs:");
    if !mentioned {
        return None;
    }
    let complexity_score = match key_segment_exec(&segs, SegmentKey::Complexity) {
        Some(g) => extract_first_number(g.as_slice()),
        None => None,
    };
    let dup = verdict_exec(
        key_segment_exec(&segs, SegmentKey::Duplication),
        "duplication: pass",
        "duplication: fail",
    );
    let performance_regression = match key_segment_exec(&segs, SegmentKey::Performance) {
        Some(g) => {
            let n = lowercase_chars(g.as_slice());
            if has(n.as_slice(), "regression") || has(n.as_slice(), "fail") {
                Some(true)
            } else if has(n.as_slice(), "pass") || has(n.as_slice(), "ok") || has(
                n.as_slice(),
                "improved",
            ) {
                Some(false)
            } else {
                None
            }
        },
        None => None,
    };
    let mutants = match key_segment_exec(&segs, SegmentKey::Mutants) {
        Some(g) => {
            let n = lowercase_chars(g.as_slice());
            let status = if has(n.as_slice(), "mutants: pass") {
                MutationStatus::Pass
            } else if has(n.as_slice(), "mutants: warn") {
                MutationStatus::Warn
            } else if has(n.as_slice(), "mutants: fail") {
                MutationStatus::Fail
            } else {
                MutationStatus::Unknown
            };
            Some(MutationEvidence { status, score_percent: extract_percentage(g.as_slice()) })
        },
        None => None,
    };
    let specs_verified = verdict_exec(
        key_segment_exec(&segs, SegmentKey::Specs),
        "specs: pass",
        "specs: fail",
    );
    Some(
        BackpressureEvidence {
            tests_passed: has(c, "tests: pass"),
            lint_passed: has(c, "lint: pass"),
            typecheck_passed: has(c, "typecheck: pass"),
            audit_passed: has(c, "audit: pass"),
            coverage_passed: has(c, "coverage: pass"),
            complexity_score,
            duplication_passed: match dup {
                Some(b) => b,
                None => false,
            },
            performance_regression,
            mutants,
            specs_verified,
        },
    )
}

/// Parses review evidence of a `review.done` payload, as `review_of` states.
pub fn review_evidence(payload: &str) -> (r: Option<ReviewEvidence>)
    ensures
        r == review_of(payload@),
{
    let clean = strip_ansi_chars(chars_of(payload).as_slice());
    let c = clean.as_slice();
    if has(c, "tests:") || has(c, "build:") {
        Some(ReviewEvidence { tests_passed: has(c, "tests: pass"), build_passed: has(c, "build: pass") })
    } else {
        None
    }
}


/// `Some(true)` where `n` holds `pass`, else `Some(false)` where it holds `fail`.
pub open spec fn pass_fail(n: Seq<char>) -> Option<bool> {
    if contains(n, "pass"@) {
        Some(true)
    } else if contains(n, "fail"@) {
        Some(false)
    } else {
        None
    }
}

/// The percentage in `seg`, or else its first number.
pub open spec fn percent_or_number(seg: Seq<char>) -> Option<Decimal> {
    match percentage(seg) {
        Some(d) => Some(d),
        None => first_number(seg),
    }
}

/// The report and the seen flag after reading one more segment.
pub open spec fn quality_step(acc: (QualityReport, bool), seg: Seq<char>) -> (QualityReport, bool) {
    let r = acc.0;
    let n = lower_of(seg);
    if seg.len() == 0 {
        acc
    } else if has_prefix(n, "quality.tests:"@) {
        (QualityReport { tests_passed: pass_fail(n), ..r }, true)
    } else if has_prefix(n, "quality.lint:"@) {
        (QualityReport { lint_passed: pass_fail(n), ..r }, true)
    } else if has_prefix(n, "quality.audit:"@) {
        (QualityReport { audit_passed: pass_fail(n), ..r }, true)
    } else if has_prefix(n, "quality.coverage:"@) {
        (QualityReport { coverage_percent: percent_or_number(seg), ..r }, true)
    } else if has_prefix(n, "quality.mutation:"@) {
        (QualityReport { mutation_percent: percent_or_number(seg), ..r }, true)
    } else if has_prefix(n, "quality.complexity:"@) {
        (QualityReport { complexity_score: first_number(seg), ..r }, true)
    } else if has_prefix(n, "quality.specs:"@) {
        (QualityReport { specs_verified: pass_fail(n), ..r }, true)
    } else {
        acc
    }
}

/// The report read from `segs` in order, later keys overriding earlier ones,
/// and whether any quality key was seen.
pub open spec fn quality_scan(segs: Seq<Seq<char>>) -> (QualityReport, bool)
    decreases segs.len(),
{
    if segs.len() == 0 {
        (QualityReport::empty(), false)
    } else {
        quality_step(quality_scan(segs.drop_last()), segs.last())
    }
}

/// The quality report of `payload`: `None` where no segment of its stripped
/// text starts with a `quality.` key.
pub open spec fn quality_of(payload: Seq<char>) -> Option<QualityReport> {
    let scan = quality_scan(segments(strip_ansi(payload)));
    if scan.1 {
        Some(scan.0)
    } else {
        None
    }
}

fn quality_step_exec(r: QualityReport, seen: bool, seg: &[char]) -> (out: (QualityReport, bool))
    ensures
        out == quality_step((r, seen), seg@),
{
    if seg.len() == 0 {
        return (r, seen);
    }
    let n = lowercase_chars(seg);
    let nl = n.as_slice();
    let verdict = if has(nl, "pass") {
        Some(true)
    } else if has(nl, "fail") {
        Some(false)
    } else {
        None
    };
    let pct = match extract_percentage(seg) {
        Some(d) => Some(d),
        None => extract_first_number(seg),
    };
    if starts_with_exec(nl, chars_of("quality.tests:").as_slice()) {
        (QualityReport { tests_passed: verdict, ..r }, true)
    } else if starts_with_exec(nl, chars_of("quality.lint:").as_slice()) {
        (QualityReport { lint_passed: verdict, ..r }, true)
    } else if starts_with_exec(nl, chars_of("quality.audit:").as_slice()) {
        (QualityReport { audit_passed: verdict, ..r }, true)
    } else if starts_with_exec(nl, chars_of("quality.coverage:").as_slice()) {
        (QualityReport { coverage_percent: pct, ..r }, true)
    } else if starts_with_exec(nl, chars_of("quality.mutation:").as_slice()) {
        (QualityReport { mutation_percent: pct, ..r }, true)
    } else if starts_with_exec(nl, chars_of("quality.complexity:").as_slice()) {
        (QualityReport { complexity_score: extract_first_number(seg), ..r }, true)
    } else if starts_with_exec(nl, chars_of("quality.specs:").as_slice()) {
        (QualityReport { specs_verified: verdict, ..r }, true)
    } else {
        (r, seen)
    }
}

/// Parses the quality report of a `verify.*` payload, as `quality_of` states.
pub fn quality_report(payload: &str) -> (r: Option<QualityReport>)
    ensures
        r == quality_of(payload@),
{
    let clean = strip_ansi_chars(chars_of(payload).as_slice());
    let segs = segments_of(clean.as_slice());
    let ghost sv = segs@.map_values(|v: Vec<char>| v@);
    assert(sv =~= segments(clean@));
    let mut report = QualityReport {
        tests_passed: None,
        lint_passed: None,
        audit_passed: None,
        coverage_percent: None,
        mutation_percent: None,
        complexity_score: None,
        specs_verified: None,
    };
    let mut seen = false;
    let mut i: usize = 0;
    assert(sv.take(0) =~= Seq::<Seq<char>>::empty());
    while i < segs.len()
        invariant
            sv == segs@.map_values(|v: Vec<char>| v@),
            i <= segs@.len(),
            (report, seen) == quality_scan(sv.take(i as int)),
        decreases segs@.len() - i,
    {
        assert(sv.take(i + 1).drop_last() =~= sv.take(i as int));
        assert(sv.take(i + 1).last() == segs@[i as int]@);
        let out = quality_step_exec(report, seen, segs[i].as_slice());
        report = out.0;
        seen = out.1;
        i += 1;
    }
    assert(sv.take(i as int) =~= sv);
    if seen {
        Some(report)
    } else {
        None
    }
}


/// Evidence parsing gives the same result on text stripped of escape sequences
/// once or twice: stripping is idempotent.
pub proof fn law_evidence_strip_idempotent(x: Seq<char>)
    ensures
        backpressure_of(strip_ansi(x)) == backpressure_of(strip_ansi(strip_ansi(x))),
        review_of(strip_ansi(x)) == review_of(strip_ansi(strip_ansi(x))),
        quality_of(strip_ansi(x)) == quality_of(strip_ansi(strip_ansi(x))),
{
    lemma_strip_ansi_idempotent(x);
}

} // verus!
