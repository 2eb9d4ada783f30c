//! Hats: the personas that subscribe to topics and publish others.

use vstd::prelude::*;
use crate::text::{chars_of, string_of};
use crate::topic::{Topic, pattern_matches, is_wildcard};

verus! {

/// Unique identifier of a hat.
#[derive(Debug)]
pub struct HatId {
    id: String,
}

impl View for HatId {
    type V = Seq<char>;

    closed spec fn view(&self) -> Seq<char> {
        self.id@
    }
}

impl Clone for HatId {
    fn clone(&self) -> (r: HatId)
        ensures
            r == *self,
    {
        HatId { id: self.id.clone() }
    }
}

impl HatId {
    /// A hat id with the given text.
    pub fn new(id: &str) -> (r: HatId)
        ensures
            r@ == id@,
    {
        let v = chars_of(id);
        HatId { id: string_of(v.as_slice()) }
    }

    /// The id as a string slice.
    pub fn as_str(&self) -> (r: &str)
        ensures
            r@ == self@,
    {
        self.id.as_str()
    }

    /// Whether two ids are the same text.
    pub fn same(&self, other: &HatId) -> (r: bool)
        ensures
            r == (self@ == other@),
    {
        crate::text::str_eq(self.id.as_str(), other.id.as_str())
    }
}

impl PartialEq for HatId {
    fn eq(&self, other: &HatId) -> (r: bool) {
        self.same(other)
    }
}

impl vstd::std_specs::cmp::PartialEqSpecImpl for HatId {
    open spec fn obeys_eq_spec() -> bool {
        true
    }

    open spec fn eq_spec(&self, other: &HatId) -> bool {
        self@ == other@
    }
}

/// The names of a list of topics.
pub open spec fn topic_names(ts: Seq<Topic>) -> Seq<Seq<char>> {
    ts.map_values(|t: Topic| t@)
}

/// Whether some pattern of `subs` matches `topic`.
pub open spec fn subscribed(subs: Seq<Seq<char>>, topic: Seq<char>) -> bool {
    exists|i: int| 0 <= i < subs.len() && pattern_matches(#[trigger] subs[i], topic)
}

/// Whether some pattern of `subs` other than the global wildcard matches `topic`.
pub open spec fn specifically_subscribed(subs: Seq<Seq<char>>, topic: Seq<char>) -> bool {
    exists|i: int|
        0 <= i < subs.len() && !is_wildcard(#[trigger] subs[i]) && pattern_matches(subs[i], topic)
}

/// Whether `subs` is non-empty and holds only the global wildcard.
pub open spec fn fallback_only(subs: Seq<Seq<char>>) -> bool {
    subs.len() > 0 && forall|i: int| 0 <= i < subs.len() ==> is_wildcard(#[trigger] subs[i])
}

/// A persona: an id, a name, a description, the topic patterns it subscribes
/// to, the topics it is expected to publish, and its instructions.
#[derive(Debug)]
pub struct Hat {
    pub id: HatId,
    pub name: String,
    pub description: String,
    pub subscriptions: Vec<Topic>,
    pub publishes: Vec<Topic>,
    pub instructions: String,
}

impl Clone for Hat {
    fn clone(&self) -> (r: Hat)
        ensures
            r.id == self.id,
            r.name == self.name,
            r.description == self.description,
            r.subscriptions@ == self.subscriptions@,
            r.publishes@ == self.publishes@,
            r.instructions == self.instructions,
    {
        let subscriptions = self.subscriptions.clone();
        let publishes = self.publishes.clone();
        assert(subscriptions@ =~= self.subscriptions@);
        assert(publishes@ =~= self.publishes@);
        Hat {
            id: self.id.clone(),
            name: self.name.clone(),
            description: self.description.clone(),
            subscriptions,
            publishes,
            instructions: self.instructions.clone(),
        }
    }
}

impl Hat {
    /// The subscription patterns of this hat.
    pub open spec fn subs(&self) -> Seq<Seq<char>> {
        topic_names(self.subscriptions@)
    }

    /// The topics this hat publishes.
    pub open spec fn pubs(&self) -> Seq<Seq<char>> {
        topic_names(self.publishes@)
    }

    /// A hat with the given id and name and nothing else.
    pub fn new(id: &str, name: &str) -> (r: Hat)
        ensures
            r.id@ == id@,
            r.name@ == name@,
            r.description@.len() == 0,
            r.subs().len() == 0,
            r.pubs().len() == 0,
            r.instructions@.len() == 0,
    {
        Hat {
            id: HatId::new(id),
            name: string_of(chars_of(name).as_slice()),
            description: String::new(),
            subscriptions: Vec::new(),
            publishes: Vec::new(),
            instructions: String::new(),
        }
    }

    /// This hat with the given description.
    pub fn with_description(self, description: &str) -> (r: Hat)
        ensures
            r.description@ == description@,
            r.id == self.id,
            r.name == self.name,
            r.subscriptions == self.subscriptions,
            r.publishes == self.publishes,
            r.instructions == self.instructions,
    {
        let mut h = self;
        h.description = string_of(chars_of(description).as_slice());
        h
    }

    /// This hat with the given instructions.
    pub fn with_instructions(self, instructions: &str) -> (r: Hat)
        ensures
            r.instructions@ == instructions@,
            r.id == self.id,
            r.name == self.name,
            r.description == self.description,
            r.subscriptions == self.subscriptions,
            r.publishes == self.publishes,
    {
        let mut h = self;
        h.instructions = string_of(chars_of(instructions).as_slice());
        h
    }

    /// This hat with one more subscription pattern, placed last.
    pub fn subscribe(self, topic: &str) -> (r: Hat)
        ensures
            r.subs() == self.subs().push(topic@),
            r.id == self.id,
            r.name == self.name,
            r.description == self.description,
            r.publishes == self.publishes,
            r.instructions == self.instructions,
    {
        let mut h = self;
        h.subscriptions.push(Topic::new(topic));
        assert(topic_names(h.subscriptions@) =~= topic_names(self.subscriptions@).push(topic@));
        h
    }

    /// This hat with the given published topics.
    pub fn with_publishes(self, publishes: Vec<Topic>) -> (r: Hat)
        ensures
            r.publishes == publishes,
            r.id == self.id,
            r.name == self.name,
            r.description == self.description,
            r.subscriptions == self.subscriptions,
            r.instructions == self.instructions,
    {
        let mut h = self;
        h.publishes = publishes;
        h
    }

    /// This hat with one more published topic, placed last.
    pub fn publish(self, topic: &str) -> (r: Hat)
        ensures
            r.pubs() == self.pubs().push(topic@),
            r.id == self.id,
            r.name == self.name,
            r.description == self.description,
            r.subscriptions == self.subscriptions,
            r.instructions == self.instructions,
    {
        let mut h = self;
        h.publishes.push(Topic::new(topic));
        assert(topic_names(h.publishes@) =~= topic_names(self.publishes@).push(topic@));
        h
    }

    /// The hat of single-hat mode: `default`, subscribed to `*`, publishing `task.done`.
    pub fn default_single() -> (r: Hat)
        ensures
            r.id@ == "default"@,
            r.subs() == seq!["*"@],
            r.pubs() == seq!["task.done"@],
    {
        Hat::new("default", "Default").with_description("Default single-hat mode handler").subscribe(
            "*",
        ).publish("task.done")
    }

    /// The planner: triggered by `task.start`, `task.resume`, `build.done` and
    /// `build.blocked`; publishes `build.task`.
    pub fn default_planner() -> (r: Hat)
        ensures
            r.id@ == "planner"@,
            r.subs() == seq!["task.start"@, "task.resume"@, "build.done"@, "build.blocked"@],
            r.pubs() == seq!["build.task"@],
    {
        Hat::new("planner", "Planner").with_description(
            "Plans and prioritizes tasks, delegates to Builder",
        ).subscribe("task.start").subscribe("task.resume").subscribe("build.done").subscribe(
            "build.blocked",
        ).publish("build.task")
    }

    /// The builder: triggered by `build.task`; publishes `build.done` or `build.blocked`.
    pub fn default_builder() -> (r: Hat)
        ensures
            r.id@ == "builder"@,
            r.subs() == seq!["build.task"@],
            r.pubs() == seq!["build.done"@, "build.blocked"@],
    {
        Hat::new("builder", "Builder").with_description(
            "Implements code changes, runs backpressure",
        ).subscribe("build.task").publish("build.done").publish("build.blocked")
    }

    /// The executor of the simple path: triggered by `test.strategy`; publishes
    /// `build.done` or `build.blocked`.
    pub fn default_simple_executor() -> (r: Hat)
        ensures
            r.id@ == "simple-executor"@,
            r.subs() == seq!["test.strategy"@],
            r.pubs() == seq!["build.done"@, "build.blocked"@],
    {
        Hat::new("simple-executor", "Simple Executor").with_description(
            "Directly implements minor fixes without full planning",
        ).subscribe("test.strategy").publish("build.done").publish("build.blocked")
    }

    /// The test architect: triggered by `triage.decision` and `plan.ready`;
    /// publishes `test.strategy`.
    pub fn default_tea() -> (r: Hat)
        ensures
            r.id@ == "tea"@,
            r.subs() == seq!["triage.decision"@, "plan.ready"@],
            r.pubs() == seq!["test.strategy"@],
    {
        Hat::new("tea", "TEA (Test Architect)").with_description(
            "Designs risk-based testing strategies and enforces quality gates",
        ).subscribe("triage.decision").subscribe("plan.ready").publish("test.strategy")
    }

    /// Whether some subscription of this hat matches the topic named `topic`.
    pub fn is_subscribed_str(&self, topic: &str) -> (r: bool)
        ensures
            r == subscribed(self.subs(), topic@),
    {
        let mut i: usize = 0;
        while i < self.subscriptions.len()
            invariant
                i <= self.subscriptions@.len(),
                forall|j: int| 0 <= j < i ==> !pattern_matches(#[trigger] self.subs()[j], topic@),
            decreases self.subscriptions@.len() - i,
        {
            if self.subscriptions[i].matches_str(topic) {
                assert(pattern_matches(self.subs()[i as int], topic@));
                return true;
            }
            i += 1;
        }
        false
    }

    /// Whether some subscription of this hat matches `topic`.
    pub fn is_subscribed(&self, topic: &Topic) -> (r: bool)
        ensures
            r == subscribed(self.subs(), topic@),
    {
        self.is_subscribed_str(topic.as_str())
    }

    /// Whether a subscription other than the global wildcard matches `topic`.
    pub fn has_specific_subscription(&self, topic: &Topic) -> (r: bool)
        ensures
            r == specifically_subscribed(self.subs(), topic@),
    {
        let mut i: usize = 0;
        while i < self.subscriptions.len()
            invariant
                i <= self.subscriptions@.len(),
                forall|j: int|
                    0 <= j < i ==> !(!is_wildcard(#[trigger] self.subs()[j]) && pattern_matches(
                        self.subs()[j],
                        topic@,
                    )),
            decreases self.subscriptions@.len() - i,
        {
            let s = &self.subscriptions[i];
            if !s.is_global_wildcard() && s.matches(topic) {
                assert(!is_wildcard(self.subs()[i as int]));
                return true;
            }
            i += 1;
        }
        false
    }

    /// Whether this hat has subscriptions and all of them are the global wildcard.
    pub fn is_fallback_only(&self) -> (r: bool)
        ensures
            r == fallback_only(self.subs()),
    {
        if self.subscriptions.len() == 0 {
            return false;
        }
        let mut i: usize = 0;
        while i < self.subscriptions.len()
            invariant
                i <= self.subscriptions@.len(),
                forall|j: int| 0 <= j < i ==> is_wildcard(#[trigger] self.subs()[j]),
            decreases self.subscriptions@.len() - i,
        {
            if !self.subscriptions[i].is_global_wildcard() {
                assert(!is_wildcard(self.subs()[i as int]));
                return false;
            }
            i += 1;
        }
        true
    }
}

} // verus!
