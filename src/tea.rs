//! Risk-tiered test strategies.

use vstd::prelude::*;
use crate::evidence::{lower_of, lowercase_chars};
use crate::text::{chars_of, contains, contains_exec, owned, push_str};

verus! {

/// Safety tiers for risk-based verification.
#[derive(Debug, Clone, Copy, PartialEq, Eq, Structural)]
pub enum SafetyTier {
    /// High rigor: 95% coverage, integration tests, zero lint warnings.
    Tier1,
    /// Standard: 80% coverage, unit tests, zero lint errors.
    Tier2,
    /// Minimal: a smoke test.
    Tier3,
}

impl SafetyTier {
    /// The name of the tier.
    pub fn name(&self) -> (r: &'static str)
        ensures
            r@ == tier_name(*self),
    {
        match self {
            SafetyTier::Tier1 => "Tier1",
            SafetyTier::Tier2 => "Tier2",
            SafetyTier::Tier3 => "Tier3",
        }
    }
}

/// The name of `t`.
pub open spec fn tier_name(t: SafetyTier) -> Seq<char> {
    match t {
        SafetyTier::Tier1 => "Tier1"@,
        SafetyTier::Tier2 => "Tier2"@,
        SafetyTier::Tier3 => "Tier3"@,
    }
}

/// A risk-based test strategy: a tier, the minimum coverage in percent, the
/// test categories that must pass, the gates that block completion, and why.
#[derive(Debug)]
pub struct TestStrategy {
    pub tier: SafetyTier,
    pub min_coverage: u32,
    pub mandatory_categories: Vec<String>,
    pub hard_gates: Vec<String>,
    pub reason: String,
}

impl View for TestStrategy {
    type V = (SafetyTier, u32, Seq<Seq<char>>, Seq<Seq<char>>, Seq<char>);

    open spec fn view(&self) -> Self::V {
        (
            self.tier,
            self.min_coverage,
            string_views(self.mandatory_categories@),
            string_views(self.hard_gates@),
            self.reason@,
        )
    }
}

impl Clone for TestStrategy {
    fn clone(&self) -> (r: TestStrategy)
        ensures
            r@ == self@,
    {
        let mandatory_categories = self.mandatory_categories.clone();
        let hard_gates = self.hard_gates.clone();
        assert(mandatory_categories@ =~= self.mandatory_categories@);
        assert(hard_gates@ =~= self.hard_gates@);
        TestStrategy {
            tier: self.tier,
            min_coverage: self.min_coverage,
            mandatory_categories,
            hard_gates,
            reason: self.reason.clone(),
        }
    }
}

/// The views of a list of strings.
pub open spec fn string_views(v: Seq<String>) -> Seq<Seq<char>> {
    v.map_values(|s: String| s@)
}

/// The minimum coverage of each tier.
pub open spec fn tier_coverage(t: SafetyTier) -> u32 {
    match t {
        SafetyTier::Tier1 => 95,
        SafetyTier::Tier2 => 80,
        SafetyTier::Tier3 => 0,
    }
}

/// The mandatory test categories of each tier.
pub open spec fn tier_categories(t: SafetyTier) -> Seq<Seq<char>> {
    match t {
        SafetyTier::Tier1 => seq!["unit"@, "integration"@, "lint"@, "security"@],
        SafetyTier::Tier2 => seq!["unit"@, "lint"@],
        SafetyTier::Tier3 => seq!["smoke"@],
    }
}

/// The hard gates of each tier.
pub open spec fn tier_gates(t: SafetyTier) -> Seq<Seq<char>> {
    match t {
        SafetyTier::Tier1 => seq!["zero_lint_warnings"@, "specs_verified"@],
        SafetyTier::Tier2 => seq!["zero_lint_errors"@],
        SafetyTier::Tier3 => Seq::empty(),
    }
}

fn strings(items: Vec<&str>) -> (r: Vec<String>)
    ensures
        r@.len() == items@.len(),
        forall|i: int| 0 <= i < items@.len() ==> (#[trigger] r@[i])@ == items@[i]@,
{
    let mut r: Vec<String> = Vec::new();
    let mut i: usize = 0;
    while i < items.len()
        invariant
            i <= items@.len(),
            r@.len() == i,
            forall|j: int| 0 <= j < i ==> (#[trigger] r@[j])@ == items@[j]@,
        decreases items@.len() - i,
    {
        r.push(owned(items[i]));
        i += 1;
    }
    r
}

impl TestStrategy {
    /// The strategy of `tier`, with its coverage, categories and gates.
    pub fn for_tier(tier: SafetyTier, reason: &str) -> (r: TestStrategy)
        ensures
            r.tier == tier,
            r.min_coverage == tier_coverage(tier),
            string_views(r.mandatory_categories@) == tier_categories(tier),
            string_views(r.hard_gates@) == tier_gates(tier),
            r.reason@ == reason@,
    {
        let (cov, cats, gates) = match tier {
            SafetyTier::Tier1 => (
                95,
                vec!["unit", "integration", "lint", "security"],
                vec!["zero_lint_warnings", "specs_verified"],
            ),
            SafetyTier::Tier2 => (80, vec!["unit", "lint"], vec!["zero_lint_errors"]),
            SafetyTier::Tier3 => (0, vec!["smoke"], Vec::new()),
        };
        let mandatory_categories = strings(cats);
        let hard_gates = strings(gates);
        assert(string_views(mandatory_categories@) =~= tier_categories(tier));
        assert(string_views(hard_gates@) =~= tier_gates(tier));
        TestStrategy { tier, min_coverage: cov, mandatory_categories, hard_gates, reason: owned(reason) }
    }

}

/// The module keywords and the tier each suggests.
pub open spec fn tier_matrix() -> Seq<(Seq<char>, SafetyTier)> {
    seq![
        ("auth"@, SafetyTier::Tier1), ("core"@, SafetyTier::Tier1),
        ("security"@, SafetyTier::Tier1), ("database"@, SafetyTier::Tier1),
        ("api"@, SafetyTier::Tier2), ("backend"@, SafetyTier::Tier2),
        ("logic"@, SafetyTier::Tier2), ("docs"@, SafetyTier::Tier3),
        ("readme"@, SafetyTier::Tier3), ("ui"@, SafetyTier::Tier3),
        ("frontend"@, SafetyTier::Tier3),
    ]
}

/// Whether a keyword of `m` with tier `t` occurs in `text`.
pub open spec fn matrix_hit(text: Seq<char>, m: Seq<(Seq<char>, SafetyTier)>, t: SafetyTier) -> bool {
    exists|i: int| 0 <= i < m.len() && (#[trigger] m[i]).1 == t && contains(text, m[i].0)
}

/// The tier the matrix `m` suggests for `text`: Tier 1 if a Tier 1 keyword
/// occurs, else Tier 3 if a Tier 3 keyword occurs, else Tier 2.
pub open spec fn matrix_tier(text: Seq<char>, m: Seq<(Seq<char>, SafetyTier)>) -> SafetyTier {
    if matrix_hit(text, m, SafetyTier::Tier1) {
        SafetyTier::Tier1
    } else if matrix_hit(text, m, SafetyTier::Tier3) {
        SafetyTier::Tier3
    } else {
        SafetyTier::Tier2
    }
}

/// The tier for a context whose lowercase form is `lower`: `simple` or `minor`
/// give Tier 3, else `complex` or `refactor` give Tier 1, else the matrix decides.
pub open spec fn strategy_tier(lower: Seq<char>) -> SafetyTier {
    if contains(lower, "simple"@) || contains(lower, "minor"@) {
        SafetyTier::Tier3
    } else if contains(lower, "complex"@) || contains(lower, "refactor"@) {
        SafetyTier::Tier1
    } else {
        matrix_tier(lower, tier_matrix())
    }
}

/// The test architect hat: maps a task or plan to a risk tier.
pub struct TEAHat {
    matrix: Vec<(String, SafetyTier)>,
}

impl TEAHat {
    /// The keyword matrix this hat uses.
    pub closed spec fn matrix_view(&self) -> Seq<(Seq<char>, SafetyTier)> {
        self.matrix@.map_values(|e: (String, SafetyTier)| (e.0@, e.1))
    }

    /// A test architect with the default keyword matrix.
    pub fn new() -> (r: TEAHat)
        ensures
            r.matrix_view() == tier_matrix(),
    {
        let entries: Vec<(&str, SafetyTier)> = vec![
            ("auth", SafetyTier::Tier1), ("core", SafetyTier::Tier1),
            ("security", SafetyTier::Tier1), ("database", SafetyTier::Tier1),
            ("api", SafetyTier::Tier2), ("backend", SafetyTier::Tier2),
            ("logic", SafetyTier::Tier2), ("docs", SafetyTier::Tier3),
            ("readme", SafetyTier::Tier3), ("ui", SafetyTier::Tier3),
            ("frontend", SafetyTier::Tier3),
        ];
        let mut matrix: Vec<(String, SafetyTier)> = Vec::new();
        let mut i: usize = 0;
        while i < entries.len()
            invariant
                i <= entries@.len(),
                matrix@.len() == i,
                forall|j: int|
                    0 <= j < i ==> (#[trigger] matrix@[j]).0@ == entries@[j].0@ && matrix@[j].1
                        == entries@[j].1,
            decreases entries@.len() - i,
        {
            matrix.push((owned(entries[i].0), entries[i].1));
            i += 1;
        }
        let r = TEAHat { matrix };
        assert(r.matrix_view() =~= tier_matrix());
        r
    }

    /// The strategy for `context`, of the tier that `strategy_tier` gives.
    pub fn design_strategy(&self, context: &str) -> (r: TestStrategy)
        requires
            self.matrix_view() == tier_matrix(),
        ensures
            r.tier == strategy_tier(lower_of(context@)),
            r.min_coverage == tier_coverage(r.tier),
            string_views(r.mandatory_categories@) == tier_categories(r.tier),
            string_views(r.hard_gates@) == tier_gates(r.tier),
    {
        let lower = lowercase_chars(chars_of(context).as_slice());
        let selected = self.tier_for(lower.as_slice());
        let mut reason = owned("Determined tier ");
        push_str(&mut reason, selected.name());
        push_str(&mut reason, " based on context analysis");
        TestStrategy::for_tier(selected, reason.as_str())
    }

    /// The tier for a context whose lowercase characters are `text`, as
    /// `strategy_tier` states.
    pub fn tier_for(&self, text: &[char]) -> (r: SafetyTier)
        requires
            self.matrix_view() == tier_matrix(),
        ensures
            r == strategy_tier(text@),
    {
        let ghost m = self.matrix_view();
        let mut selected = SafetyTier::Tier2;
        let mut i: usize = 0;
        let mut found_one = false;
        while i < self.matrix.len() && !found_one
            invariant
                m == self.matrix_view(),
                i <= self.matrix@.len(),
                found_one ==> selected == SafetyTier::Tier1 && matrix_hit(
                    text@,
                    m,
                    SafetyTier::Tier1,
                ),
                !found_one ==> !matrix_hit(text@, m.take(i as int), SafetyTier::Tier1),
                !found_one ==> (selected == SafetyTier::Tier3) == matrix_hit(
                    text@,
                    m.take(i as int),
                    SafetyTier::Tier3,
                ),
                !found_one ==> selected != SafetyTier::Tier1,
            decreases self.matrix@.len() - i,
        {
            let entry = &self.matrix[i];
            let ghost e = m[i as int];
            assert(e.0 == entry.0@ && e.1 == entry.1);
            assert(m.take(i + 1) =~= m.take(i as int).push(e));
            if contains_exec(text, chars_of(entry.0.as_str()).as_slice()) {
                if entry.1 == SafetyTier::Tier1 {
                    selected = SafetyTier::Tier1;
                    found_one = true;
                } else if entry.1 == SafetyTier::Tier3 && selected == SafetyTier::Tier2 {
                    selected = SafetyTier::Tier3;
                }
            }
            proof {
                if !found_one {
                    assert(matrix_hit(text@, m.take(i + 1), SafetyTier::Tier1) ==> matrix_hit(
                        text@,
                        m.take(i as int),
                        SafetyTier::Tier1,
                    ) || (e.1 == SafetyTier::Tier1 && contains(text@, e.0))) by {
                        if matrix_hit(text@, m.take(i + 1), SafetyTier::Tier1) {
                            let k = choose|k: int|
                                0 <= k < m.take(i + 1).len() && (#[trigger] m.take(i + 1)[k]).1
                                    == SafetyTier::Tier1 && contains(text@, m.take(i + 1)[k].0);
                            if k < i {
                                assert(m.take(i as int)[k] == m.take(i + 1)[k]);
                            }
                        }
                    }
                    if matrix_hit(text@, m.take(i as int), SafetyTier::Tier3) {
                        let k = choose|k: int|
                            0 <= k < m.take(i as int).len() && (#[trigger] m.take(i as int)[k]).1
                                == SafetyTier::Tier3 && contains(text@, m.take(i as int)[k].0);
                        assert(m.take(i + 1)[k] == m.take(i as int)[k]);
                    }
                    if matrix_hit(text@, m.take(i + 1), SafetyTier::Tier3) {
                        let k = choose|k: int|
                            0 <= k < m.take(i + 1).len() && (#[trigger] m.take(i + 1)[k]).1
                                == SafetyTier::Tier3 && contains(text@, m.take(i + 1)[k].0);
                        if k < i {
                            assert(m.take(i as int)[k] == m.take(i + 1)[k]);
                        }
                    }
                    if e.1 == SafetyTier::Tier3 && contains(text@, e.0) {
                        assert(m.take(i + 1)[i as int] == e);
                    }
                } else {
                    assert(m[i as int] == e);
                }
            }
            i += 1;
        }
        proof {
            if !found_one {
                assert(m.take(i as int) =~= m);
            }
        }
        if contains_exec(text, chars_of("simple").as_slice()) || contains_exec(
            text,
            chars_of("minor").as_slice(),
        ) {
            selected = SafetyTier::Tier3;
        } else if contains_exec(text, chars_of("complex").as_slice()) || contains_exec(
            text,
            chars_of("refactor").as_slice(),
        ) {
            selected = SafetyTier::Tier1;
        }
        selected
    }
}

} // verus!
