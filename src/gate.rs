//! Validation of gated journal events: `build.done`, `review.done` and
//! `verify.passed` pass only with evidence; failures become blocking events.

use vstd::prelude::*;
use crate::evidence::{backpressure_of, quality_of, review_of, failed_names, BackpressureEvidence, QualityReport};
use crate::parser::EventParser;
use crate::tea::{TestStrategy, string_views};
use crate::text::{chars_of, decimal_digits, lines, lines_of, owned, push_str, str_eq, string_of, trim, trim_chars, u64_text};

verus! {

/// A well-formed journal line: a topic, an optional payload, and the triage
/// decision or test strategy that the payload holds, where the reader found one.
#[derive(Debug)]
pub struct JournalEvent {
    pub topic: String,
    pub payload: Option<String>,
    pub triage: Option<crate::triage::TriageDecision>,
    pub strategy: Option<TestStrategy>,
}

/// A journal line that could not be read as an event.
#[derive(Debug)]
pub struct MalformedLine {
    pub line_number: u64,
    pub content: String,
    pub error: String,
}

/// What one read of the journal returns, in file order.
#[derive(Debug)]
pub struct ParseResult {
    pub events: Vec<JournalEvent>,
    pub malformed: Vec<MalformedLine>,
}

/// A failure to record in the recovery queue.
#[derive(Debug)]
pub struct RecoveryRecord {
    pub task_id: String,
    pub reason: String,
}

impl JournalEvent {
    /// The topic and payload of the line; a missing payload reads as empty.
    pub open spec fn view_pair(&self) -> (Seq<char>, Seq<char>) {
        (
            self.topic@,
            match self.payload {
                Some(p) => p@,
                None => Seq::empty(),
            },
        )
    }
}

/// The message of a `build.done` without evidence.
pub open spec fn missing_evidence_msg() -> Seq<char> {
    "Missing backpressure evidence. Include 'tests: pass', 'lint: pass', 'typecheck: pass', 'audit: pass', 'coverage: pass', 'complexity: <score>', 'duplication: pass', 'performance: pass' (optional), 'specs: pass' (optional) in build.done payload."@
}

/// `seq![x]` when `c` holds, else nothing.
pub open spec fn seq_if(c: bool, x: Seq<char>) -> Seq<Seq<char>> {
    if c {
        seq![x]
    } else {
        Seq::empty()
    }
}

/// The checks that `ev` fails, in the order they are listed.
pub open spec fn backpressure_failures(ev: BackpressureEvidence) -> Seq<Seq<char>> {
    seq_if(!ev.tests_passed, "tests"@) + seq_if(!ev.lint_passed, "lint"@) + seq_if(
        !ev.typecheck_passed,
        "typecheck"@,
    ) + seq_if(!ev.audit_passed, "audit"@) + seq_if(!ev.coverage_passed, "coverage"@) + seq_if(
        !(ev.complexity_score matches Some(c) && c.spec_at_most(10)),
        "complexity"@,
    ) + seq_if(!ev.duplication_passed, "duplication"@) + seq_if(
        ev.performance_regression == Some(true),
        "performance"@,
    ) + seq_if(ev.specs_verified == Some(false), "specs"@)
}

/// The message of a `build.done` whose checks failed, naming them.
pub open spec fn failed_checks_msg(ev: BackpressureEvidence) -> Seq<char> {
    "Backpressure checks failed: "@ + join(backpressure_failures(ev), ", "@)
        + ". Fix them before emitting build.done."@
}

/// The message of a `review.done` whose checks failed.
pub open spec fn review_failed_msg() -> Seq<char> {
    "Review verification failed. Run tests and build before emitting review.done."@
}

/// The message of a `review.done` without evidence.
pub open spec fn review_missing_msg() -> Seq<char> {
    "Missing verification evidence. Include 'tests: pass' and 'build: pass' in review.done payload."@
}

/// The message of a `verify.passed` below the thresholds, naming the failed
/// dimensions.
pub open spec fn quality_failed_msg(r: QualityReport) -> Seq<char> {
    "Quality thresholds failed: "@ + join(failed_names(r), ", "@)
        + ". Include quality.tests, quality.coverage, quality.lint, quality.audit, quality.mutation, quality.complexity with thresholds in verify.passed payload."@
}

/// The message of a `verify.passed` without a quality report.
pub open spec fn quality_missing_msg() -> Seq<char> {
    "Missing quality report. Include quality.tests, quality.coverage, quality.lint, quality.audit, quality.mutation, quality.complexity in verify.passed payload."@
}

/// The task a blocked payload is about: its first line, trimmed, or `unknown`
/// for an empty payload.
pub open spec fn task_id_of(payload: Seq<char>) -> Seq<char> {
    if lines(payload).len() > 0 {
        trim(lines(payload)[0])
    } else {
        "unknown"@
    }
}

/// The task id of a blocked payload, as `task_id_of` states.
pub fn extract_task_id(payload: &str) -> (r: String)
    ensures
        r@ == task_id_of(payload@),
{
    let ls = lines_of(chars_of(payload).as_slice());
    if ls.len() > 0 {
        string_of(trim_chars(ls[0].as_slice()).as_slice())
    } else {
        owned("unknown")
    }
}

/// The violations of the mandatory categories among the first `n` of `cats`.
pub open spec fn category_errors(ev: BackpressureEvidence, cats: Seq<Seq<char>>, n: int) -> Seq<
    Seq<char>,
>
    decreases n,
{
    if n <= 0 {
        Seq::empty()
    } else {
        let prev = category_errors(ev, cats, n - 1);
        let c = cats[n - 1];
        if c == "unit"@ && !ev.tests_passed {
            prev.push("Mandatory unit tests failed"@)
        } else if c == "lint"@ && !ev.lint_passed {
            prev.push("Mandatory linting failed"@)
        } else if c == "security"@ && !ev.audit_passed {
            prev.push("Mandatory security audit failed"@)
        } else {
            prev
        }
    }
}

/// The violations of strategy `s` by evidence `ev`: failed coverage where the
/// strategy asks for some, then each failed mandatory category.
pub open spec fn strategy_errors(
    ev: BackpressureEvidence,
    s: Option<<TestStrategy as View>::V>,
) -> Seq<Seq<char>> {
    match s {
        None => Seq::empty(),
        Some(st) => {
            let cov = if !ev.coverage_passed && st.1 > 0 {
                seq![
                    "Coverage check failed (Required: "@ + decimal_digits(st.1 as nat) + "%)"@,
                ]
            } else {
                Seq::empty()
            };
            cov + category_errors(ev, st.2, st.2.len() as int)
        },
    }
}

/// `parts` joined with `sep`.
pub open spec fn join(parts: Seq<Seq<char>>, sep: Seq<char>) -> Seq<char>
    decreases parts.len(),
{
    if parts.len() == 0 {
        Seq::empty()
    } else if parts.len() == 1 {
        parts[0]
    } else {
        join(parts.drop_last(), sep) + sep + parts.last()
    }
}

/// What the evidence filter makes of one journal event under strategy `s`: the topic and
/// payload to publish, and the reason to record for recovery, if any.
pub open spec fn gate_of(
    topic: Seq<char>,
    payload: Seq<char>,
    s: Option<<TestStrategy as View>::V>,
) -> (Seq<char>, Seq<char>, Option<(Seq<char>, Seq<char>)>) {
    if topic == "build.done"@ {
        match backpressure_of(payload) {
            None => ("build.blocked"@, missing_evidence_msg(), Some(("unknown"@, missing_evidence_msg()))),
            Some(ev) => {
                let errs = strategy_errors(ev, s);
                if ev.spec_all_passed() && errs.len() == 0 {
                    (topic, payload, None)
                } else {
                    let msg = if errs.len() > 0 {
                        "TEA Strategy Gate Violation: "@ + join(errs, ", "@)
                    } else {
                        failed_checks_msg(ev)
                    };
                    ("build.blocked"@, msg, Some((task_id_of(payload), msg)))
                }
            },
        }
    } else if topic == "review.done"@ {
        match review_of(payload) {
            Some(ev) => if ev.tests_passed && ev.build_passed {
                (topic, payload, None)
            } else {
                ("review.blocked"@, review_failed_msg(), None)
            },
            None => ("review.blocked"@, review_missing_msg(), None),
        }
    } else if topic == "verify.passed"@ {
        match quality_of(payload) {
            Some(r) => if r.spec_meets_thresholds() {
                (topic, payload, None)
            } else {
                ("verify.failed"@, quality_failed_msg(r), None)
            },
            None => ("verify.failed"@, quality_missing_msg(), None),
        }
    } else {
        (topic, payload, None)
    }
}

/// The violations of `strategy` by `ev`, as `strategy_errors` states.
fn strategy_errors_exec(ev: &BackpressureEvidence, strategy: &Option<TestStrategy>) -> (r: Vec<String>)
    ensures
        string_views(r@) == strategy_errors(
            *ev,
            match strategy {
                Some(s) => Some(s@),
                None => None,
            },
        ),
{
    let mut r: Vec<String> = Vec::new();
    match strategy {
        None => {
            assert(string_views(r@) =~= Seq::<Seq<char>>::empty());
            r
        },
        Some(st) => {
            if !ev.coverage_passed && st.min_coverage > 0 {
                let mut m = owned("Coverage check failed (Required: ");
                push_str(&mut m, u64_text(st.min_coverage as u64).as_str());
                push_str(&mut m, "%)");
                r.push(m);
            }
            let ghost base = string_views(r@);
            let ghost cats = string_views(st.mandatory_categories@);
            assert(string_views(r@) =~= base + category_errors(*ev, cats, 0));
            let mut k: usize = 0;
            while k < st.mandatory_categories.len()
                invariant
                    k <= st.mandatory_categories@.len(),
                    cats == string_views(st.mandatory_categories@),
                    string_views(r@) == base + category_errors(*ev, cats, k as int),
                decreases st.mandatory_categories@.len() - k,
            {
                let c = st.mandatory_categories[k].as_str();
                let ghost prev = r@;
                assert(cats[k as int] == c@);
                let ghost before = category_errors(*ev, cats, k as int);
                if str_eq(c, "unit") && !ev.tests_passed {
                    r.push(owned("Mandatory unit tests failed"));
                    assert(string_views(r@) =~= string_views(prev).push("Mandatory unit tests failed"@));
                    assert(category_errors(*ev, cats, k + 1) == before.push("Mandatory unit tests failed"@));
                } else if str_eq(c, "lint") && !ev.lint_passed {
                    r.push(owned("Mandatory linting failed"));
                    assert(string_views(r@) =~= string_views(prev).push("Mandatory linting failed"@));
                    assert(category_errors(*ev, cats, k + 1) == before.push("Mandatory linting failed"@));
                } else if str_eq(c, "security") && !ev.audit_passed {
                    r.push(owned("Mandatory security audit failed"));
                    assert(string_views(r@) =~= string_views(prev).push("Mandatory security audit failed"@));
                    assert(category_errors(*ev, cats, k + 1) == before.push("Mandatory security audit failed"@));
                } else {
                    assert(category_errors(*ev, cats, k + 1) == before);
                }
                assert(string_views(r@) =~= base + category_errors(*ev, cats, k + 1));
                k += 1;
            }
            assert(base + category_errors(*ev, cats, k as int) =~= strategy_errors(*ev, Some(st@)));
            r
        },
    }
}

/// The strings of `parts` joined with `sep`, as `join` states.
pub fn join_strings(parts: &Vec<String>, sep: &str) -> (r: String)
    ensures
        r@ == join(string_views(parts@), sep@),
{
    let mut out = owned("");
    proof {
        reveal_strlit("");
    }
    let mut k: usize = 0;
    while k < parts.len()
        invariant
            k <= parts@.len(),
            out@ == join(string_views(parts@).take(k as int), sep@),
        decreases parts@.len() - k,
    {
        let ghost pv = string_views(parts@);
        assert(pv.take(k + 1).drop_last() =~= pv.take(k as int));
        assert(pv.take(k + 1).last() == parts@[k as int]@);
        if k > 0 {
            push_str(&mut out, sep);
        } else {
            assert(pv.take(1) =~= seq![pv[0]]);
        }
        push_str(&mut out, parts[k].as_str());
        k += 1;
        if k == 1 {
            assert(out@ =~= pv.take(1)[0]);
        }
    }
    assert(string_views(parts@).take(k as int) =~= string_views(parts@));
    out
}

/// What the evidence filter makes of one journal event, as `gate_of` states.
pub fn gate_event(topic: &str, payload: &str, strategy: &Option<TestStrategy>) -> (r: (
    String,
    String,
    Option<RecoveryRecord>,
))
    ensures
        ({
            let g = gate_of(
                topic@,
                payload@,
                match strategy {
                    Some(s) => Some(s@),
                    None => None,
                },
            );
            &&& r.0@ == g.0
            &&& r.1@ == g.1
            &&& match r.2 {
                Some(rec) => g.2 == Some((rec.task_id@, rec.reason@)),
                None => g.2 is None,
            }
        }),
{
    if str_eq(topic, "build.done") {
        match EventParser::parse_backpressure_evidence(payload) {
            None => {
                let msg = "Missing backpressure evidence. Include 'tests: pass', 'lint: pass', 'typecheck: pass', 'audit: pass', 'coverage: pass', 'complexity: <score>', 'duplication: pass', 'performance: pass' (optional), 'specs: pass' (optional) in build.done payload.";
                (owned("build.blocked"), owned(msg), Some(RecoveryRecord { task_id: owned("unknown"), reason: owned(msg) }))
            },
            Some(ev) => {
                let errs = strategy_errors_exec(&ev, strategy);
                if ev.all_passed() && errs.len() == 0 {
                    (owned(topic), owned(payload), None)
                } else {
                    let msg = if errs.len() > 0 {
                        let mut m = owned("TEA Strategy Gate Violation: ");
                        push_str(&mut m, join_strings(&errs, ", ").as_str());
                        m
                    } else {
                        let mut m = owned("Backpressure checks failed: ");
                        push_str(&mut m, join_strings(&backpressure_failures_exec(&ev), ", ").as_str());
                        push_str(&mut m, ". Fix them before emitting build.done.");
                        m
                    };
                    let reason = msg.clone();
                    (owned("build.blocked"), msg, Some(RecoveryRecord { task_id: extract_task_id(payload), reason }))
                }
            },
        }
    } else if str_eq(topic, "review.done") {
        match EventParser::parse_review_evidence(payload) {
            Some(ev) => if ev.is_verified() {
                (owned(topic), owned(payload), None)
            } else {
                (owned("review.blocked"), owned("Review verification failed. Run tests and build before emitting review.done."), None)
            },
            None => (owned("review.blocked"), owned("Missing verification evidence. Include 'tests: pass' and 'build: pass' in review.done payload."), None),
        }
    } else if str_eq(topic, "verify.passed") {
        match EventParser::parse_quality_report(payload) {
            Some(rep) => if rep.meets_thresholds() {
                (owned(topic), owned(payload), None)
            } else {
                {
                    let mut m = owned("Quality thresholds failed: ");
                    push_str(&mut m, join_strings(&failed_names_exec(&rep), ", ").as_str());
                    push_str(&mut m, ". Include quality.tests, quality.coverage, quality.lint, quality.audit, quality.mutation, quality.complexity with thresholds in verify.passed payload.");
                    (owned("verify.failed"), m, None)
                }
            },
            None => (owned("verify.failed"), owned("Missing quality report. Include quality.tests, quality.coverage, quality.lint, quality.audit, quality.mutation, quality.complexity in verify.passed payload."), None),
        }
    } else {
        (owned(topic), owned(payload), None)
    }
}


fn push_if(v: &mut Vec<String>, c: bool, x: &str)
    ensures
        string_views(final(v)@) == string_views(old(v)@) + seq_if(c, x@),
{
    let ghost before = v@;
    if c {
        v.push(owned(x));
        assert(string_views(v@) =~= string_views(before) + seq_if(c, x@));
    } else {
        assert(string_views(v@) =~= string_views(before) + seq_if(c, x@));
    }
}

/// The checks that `ev` fails, as `backpressure_failures` states.
fn backpressure_failures_exec(ev: &BackpressureEvidence) -> (r: Vec<String>)
    ensures
        string_views(r@) == backpressure_failures(*ev),
{
    let mut v: Vec<String> = Vec::new();
    assert(string_views(v@) =~= Seq::<Seq<char>>::empty());
    push_if(&mut v, !ev.tests_passed, "tests");
    push_if(&mut v, !ev.lint_passed, "lint");
    push_if(&mut v, !ev.typecheck_passed, "typecheck");
    push_if(&mut v, !ev.audit_passed, "audit");
    push_if(&mut v, !ev.coverage_passed, "coverage");
    let complexity_ok = match ev.complexity_score {
        Some(c) => c.at_most(10),
        None => false,
    };
    push_if(&mut v, !complexity_ok, "complexity");
    push_if(&mut v, !ev.duplication_passed, "duplication");
    push_if(&mut v, ev.performance_regression == Some(true), "performance");
    push_if(&mut v, ev.specs_verified == Some(false), "specs");
    assert(string_views(v@) =~= backpressure_failures(*ev));
    v
}

/// The failed dimensions of `r` as strings, as `failed_names` states.
fn failed_names_exec(r: &QualityReport) -> (out: Vec<String>)
    ensures
        string_views(out@) == failed_names(*r),
{
    let dims = r.failed_dimensions();
    let mut out: Vec<String> = Vec::new();
    let mut k: usize = 0;
    while k < dims.len()
        invariant
            k <= dims@.len(),
            dims@.len() == failed_names(*r).len(),
            forall|i: int| 0 <= i < dims@.len() ==> dims@[i]@ == #[trigger] failed_names(*r)[i],
            string_views(out@) == failed_names(*r).take(k as int),
        decreases dims@.len() - k,
    {
        let ghost before = out@;
        let item = owned(dims[k]);
        assert(item@ == failed_names(*r)[k as int]);
        out.push(item);
        assert(string_views(out@) =~= string_views(before).push(item@));
        assert(failed_names(*r).take(k + 1) =~= failed_names(*r).take(k as int).push(failed_names(*r)[k as int]));
        k += 1;
    }
    assert(failed_names(*r).take(k as int) =~= failed_names(*r));
    out
}

} // verus!
