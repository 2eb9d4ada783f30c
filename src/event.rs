//! Events: the immutable records routed between hats.

use vstd::prelude::*;
use crate::hat::HatId;
use crate::options::ProactiveOptions;
use crate::tea::TestStrategy;
use crate::text::owned;
use crate::topic::Topic;
use crate::triage::{RoutingMode, TriageDecision};

verus! {

/// An event: a topic, a payload, the hat that published it, an optional target
/// hat for direct handoff, and optional attachments.
#[derive(Debug)]
pub struct Event {
    pub topic: Topic,
    pub payload: String,
    pub source: Option<HatId>,
    pub target: Option<HatId>,
    pub triage: Option<TriageDecision>,
    pub strategy: Option<TestStrategy>,
    pub options: Option<ProactiveOptions>,
}

/// The view of an optional hat id.
pub open spec fn id_view(h: Option<HatId>) -> Option<Seq<char>> {
    match h {
        Some(id) => Some(id@),
        None => None,
    }
}

/// The view of an optional triage decision.
pub open spec fn triage_view(t: Option<TriageDecision>) -> Option<(RoutingMode, Seq<char>, u32)> {
    match t {
        Some(d) => Some((d.mode, d.reason@, d.confidence)),
        None => None,
    }
}

/// What an event holds, as text and plain values.
pub type EventView = (
    Seq<char>,
    Seq<char>,
    Option<Seq<char>>,
    Option<Seq<char>>,
    Option<(RoutingMode, Seq<char>, u32)>,
    Option<<TestStrategy as View>::V>,
    Option<<ProactiveOptions as View>::V>,
);

impl View for Event {
    type V = EventView;

    open spec fn view(&self) -> EventView {
        (
            self.topic@,
            self.payload@,
            id_view(self.source),
            id_view(self.target),
            triage_view(self.triage),
            match self.strategy {
                Some(s) => Some(s@),
                None => None,
            },
            match self.options {
                Some(o) => Some(o@),
                None => None,
            },
        )
    }
}

impl Clone for Event {
    fn clone(&self) -> (r: Event)
        ensures
            r@ == self@,
    {
        Event {
            topic: self.topic.clone(),
            payload: self.payload.clone(),
            source: match &self.source {
                Some(h) => Some(h.clone()),
                None => None,
            },
            target: match &self.target {
                Some(h) => Some(h.clone()),
                None => None,
            },
            triage: match &self.triage {
                Some(t) => Some(t.clone()),
                None => None,
            },
            strategy: match &self.strategy {
                Some(t) => Some(t.clone()),
                None => None,
            },
            options: match &self.options {
                Some(t) => Some(t.clone()),
                None => None,
            },
        }
    }
}

/// The views of a list of events.
pub open spec fn event_views(v: Seq<Event>) -> Seq<EventView> {
    v.map_values(|e: Event| e@)
}

impl Event {
    /// The target of the event, as text.
    pub open spec fn target_view(&self) -> Option<Seq<char>> {
        id_view(self.target)
    }

    /// The source of the event, as text.
    pub open spec fn source_view(&self) -> Option<Seq<char>> {
        id_view(self.source)
    }

    /// An event with the given topic and payload and nothing attached.
    pub fn new(topic: &str, payload: &str) -> (r: Event)
        ensures
            r.topic@ == topic@,
            r.payload@ == payload@,
            r.source is None,
            r.target is None,
            r.triage is None,
            r.strategy is None,
            r.options is None,
    {
        Event {
            topic: Topic::new(topic),
            payload: owned(payload),
            source: None,
            target: None,
            triage: None,
            strategy: None,
            options: None,
        }
    }

    /// This event with the given source hat.
    pub fn with_source(self, source: &str) -> (r: Event)
        ensures
            r.source_view() == Some(source@),
            r.topic == self.topic,
            r.payload == self.payload,
            r.target == self.target,
            r.triage == self.triage,
            r.strategy == self.strategy,
            r.options == self.options,
    {
        let mut e = self;
        e.source = Some(HatId::new(source));
        e
    }

    /// This event with the given target hat.
    pub fn with_target(self, target: &str) -> (r: Event)
        ensures
            r.target_view() == Some(target@),
            r.topic == self.topic,
            r.payload == self.payload,
            r.source == self.source,
            r.triage == self.triage,
            r.strategy == self.strategy,
            r.options == self.options,
    {
        let mut e = self;
        e.target = Some(HatId::new(target));
        e
    }

    /// This event with a triage decision attached.
    pub fn with_triage(self, triage: TriageDecision) -> (r: Event)
        ensures
            r.triage == Some(triage),
            r.topic == self.topic,
            r.payload == self.payload,
            r.target == self.target,
            r.source == self.source,
            r.strategy == self.strategy,
            r.options == self.options,
    {
        let mut e = self;
        e.triage = Some(triage);
        e
    }

    /// This event with a test strategy attached.
    pub fn with_strategy(self, strategy: TestStrategy) -> (r: Event)
        ensures
            r.strategy == Some(strategy),
            r.topic == self.topic,
            r.payload == self.payload,
            r.target == self.target,
            r.source == self.source,
            r.triage == self.triage,
            r.options == self.options,
    {
        let mut e = self;
        e.strategy = Some(strategy);
        e
    }

    /// This event with proactive options attached.
    pub fn with_options(self, options: ProactiveOptions) -> (r: Event)
        ensures
            r.options == Some(options),
            r.topic == self.topic,
            r.payload == self.payload,
            r.target == self.target,
            r.source == self.source,
            r.triage == self.triage,
            r.strategy == self.strategy,
    {
        let mut e = self;
        e.options = Some(options);
        e
    }
}

} // verus!
