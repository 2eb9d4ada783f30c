//! Triage: classifying a task as a simple fix or a full planning job.

use vstd::prelude::*;
use crate::evidence::{lower_of, lowercase_chars};
use crate::text::{chars_of, contains, contains_exec, string_of};

verus! {

/// The routing path that triage chooses.
#[derive(Debug, Clone, Copy, PartialEq, Eq, Structural)]
pub enum RoutingMode {
    /// Direct implementation without full planning.
    Simple,
    /// Planning before implementation.
    Full,
}

/// The result of triage: a mode, a reason, and a confidence in hundredths
/// (`0..=100`).
#[derive(Debug)]
pub struct TriageDecision {
    pub mode: RoutingMode,
    pub reason: String,
    pub confidence: u32,
}

impl Clone for TriageDecision {
    fn clone(&self) -> (r: TriageDecision)
        ensures
            r == *self,
    {
        TriageDecision { mode: self.mode, reason: self.reason.clone(), confidence: self.confidence }
    }
}

/// Keywords that suggest a simple fix.
pub open spec fn simple_keywords() -> Seq<Seq<char>> {
    seq![
        "typo"@, "readme"@, "comment"@, "rename"@, "format"@, "spelling"@, "grammar"@,
        "ignore"@, "changelog"@, "todo"@,
    ]
}

/// Keywords that suggest a full planning job.
pub open spec fn full_keywords() -> Seq<Seq<char>> {
    seq![
        "feature"@, "implement"@, "refactor"@, "design"@, "api"@, "component"@,
        "integration"@, "fix bug"@, "module"@, "system"@, "rewrite"@,
    ]
}

/// Whether some keyword of `kws` occurs in `text`.
pub open spec fn any_keyword(text: Seq<char>, kws: Seq<Seq<char>>) -> bool {
    exists|i: int| 0 <= i < kws.len() && contains(text, #[trigger] kws[i])
}

/// The mode and confidence that triage gives a description whose lowercase
/// form is `lower` and whose length is `len` characters: simple keywords and no
/// full ones give Simple (90); full keywords or more than 200 characters give
/// Full (85); fewer than 40 characters give Simple (80); anything else Full (60).
pub open spec fn triage_of(lower: Seq<char>, len: nat) -> (RoutingMode, u32) {
    let simple = any_keyword(lower, simple_keywords());
    let full = any_keyword(lower, full_keywords());
    if simple && !full {
        (RoutingMode::Simple, 90)
    } else if full || len > 200 {
        (RoutingMode::Full, 85)
    } else if len < 40 {
        (RoutingMode::Simple, 80)
    } else {
        (RoutingMode::Full, 60)
    }
}

/// Whether some keyword of `kws` occurs in `text`.
fn any_keyword_exec(text: &[char], kws: &Vec<&str>, Ghost(spec_kws): Ghost<Seq<Seq<char>>>) -> (r:
    bool)
    requires
        kws@.len() == spec_kws.len(),
        forall|i: int| 0 <= i < kws@.len() ==> (#[trigger] kws@[i])@ == spec_kws[i],
    ensures
        r == any_keyword(text@, spec_kws),
{
    let mut i: usize = 0;
    while i < kws.len()
        invariant
            i <= kws@.len(),
            kws@.len() == spec_kws.len(),
            forall|j: int| 0 <= j < kws@.len() ==> (#[trigger] kws@[j])@ == spec_kws[j],
            forall|j: int| 0 <= j < i ==> !contains(text@, #[trigger] spec_kws[j]),
        decreases kws@.len() - i,
    {
        if contains_exec(text, chars_of(kws[i]).as_slice()) {
            assert(contains(text@, spec_kws[i as int]));
            return true;
        }
        i += 1;
    }
    false
}

/// The triage hat: a keyword heuristic over the task description.
#[derive(Debug)]
pub struct TriageHat {}

impl TriageHat {
    /// A triage hat.
    pub fn new() -> (r: TriageHat) {
        TriageHat {  }
    }

    /// Classifies `task_description` as `triage_of` states.
    pub fn analyze(&self, task_description: &str) -> (r: TriageDecision)
        ensures
            (r.mode, r.confidence) == triage_of(
                lower_of(task_description@),
                task_description@.len(),
            ),
            r.confidence <= 100,
    {
        let desc = chars_of(task_description);
        let lower = lowercase_chars(desc.as_slice());
        let (mode, confidence) = classify(lower.as_slice(), desc.len());
        let reason = if confidence == 90 {
            "Task contains 'simple' keywords and no complex indicators"
        } else if confidence == 85 {
            if desc.len() > 200 && !any_keyword_exec(lower.as_slice(), &full_keyword_list(), Ghost(full_keywords())) {
                "Task description is substantial, suggesting complexity"
            } else {
                "Task contains complex keywords (e.g., feature, refactor)"
            }
        } else if confidence == 80 {
            "Task description is very short and contains no complex indicators"
        } else {
            "Task is ambiguous; defaulting to Full Planning Path for safety"
        };
        TriageDecision { mode, reason: string_of(chars_of(reason).as_slice()), confidence }
    }
}

fn simple_keyword_list() -> (r: Vec<&'static str>)
    ensures
        r@.len() == simple_keywords().len(),
        forall|i: int| 0 <= i < r@.len() ==> (#[trigger] r@[i])@ == simple_keywords()[i],
{
    vec!["typo", "readme", "comment", "rename", "format", "spelling", "grammar", "ignore", "changelog", "todo"]
}

fn full_keyword_list() -> (r: Vec<&'static str>)
    ensures
        r@.len() == full_keywords().len(),
        forall|i: int| 0 <= i < r@.len() ==> (#[trigger] r@[i])@ == full_keywords()[i],
{
    vec!["feature", "implement", "refactor", "design", "api", "component", "integration", "fix bug", "module", "system", "rewrite"]
}

/// The mode and confidence, in hundredths, for a description whose lowercase
/// characters are `lower` and whose length is `len` characters, as `triage_of`
/// states.
pub fn classify(lower: &[char], len: usize) -> (r: (RoutingMode, u32))
    ensures
        r == triage_of(lower@, len as nat),
{
    let has_simple = any_keyword_exec(lower, &simple_keyword_list(), Ghost(simple_keywords()));
    let has_full = any_keyword_exec(lower, &full_keyword_list(), Ghost(full_keywords()));
    if has_simple && !has_full {
        (RoutingMode::Simple, 90)
    } else if has_full || len > 200 {
        (RoutingMode::Full, 85)
    } else if len < 40 {
        (RoutingMode::Simple, 80)
    } else {
        (RoutingMode::Full, 60)
    }
}

} // verus!
