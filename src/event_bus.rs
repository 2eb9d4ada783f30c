//! The event bus: topic routing with specific subscriptions before wildcard
//! fallbacks, direct handoff to a target, and a separate queue for `human.*`.

use vstd::prelude::*;
use crate::event::{Event, EventView, event_views};
use crate::hat::{Hat, HatId, specifically_subscribed, subscribed};
use crate::tea::TestStrategy;
use crate::text::{chars_of, has_prefix, starts_with_exec, str_eq};
use crate::triage::RoutingMode;

verus! {

/// The ids of `hats`, in order.
pub open spec fn ids_of(hats: Seq<Hat>) -> Seq<Seq<char>> {
    hats.map_values(|h: Hat| h.id@)
}

/// Whether the ids of `hats` are pairwise distinct.
pub open spec fn distinct_ids(hats: Seq<Hat>) -> bool {
    forall|i: int, j: int|
        0 <= i < hats.len() && 0 <= j < hats.len() && i != j ==> (#[trigger] hats[i]).id@ != (
        #[trigger] hats[j]).id@
}

/// Whether `topic` goes to the human queue.
pub open spec fn is_human_topic(topic: Seq<char>) -> bool {
    has_prefix(topic, "human."@)
}

/// Whether routing mode `mode` keeps the hat `id` from receiving `topic`: in
/// Simple mode `planner` does not get `task.start`; in Full mode
/// `simple-executor` does not get `triage.decision`.
pub open spec fn excluded(mode: Option<RoutingMode>, id: Seq<char>, topic: Seq<char>) -> bool {
    match mode {
        Some(RoutingMode::Simple) => id == "planner"@ && topic == "task.start"@,
        Some(RoutingMode::Full) => id == "simple-executor"@ && topic == "triage.decision"@,
        None => false,
    }
}

/// Whether `h` is a specific subscriber of `topic` under `mode`.
pub open spec fn specific_for(mode: Option<RoutingMode>, h: Hat, topic: Seq<char>) -> bool {
    !excluded(mode, h.id@, topic) && specifically_subscribed(h.subs(), topic)
}

/// Whether `h` receives `topic` only through the global wildcard under `mode`.
pub open spec fn fallback_for(mode: Option<RoutingMode>, h: Hat, topic: Seq<char>) -> bool {
    !excluded(mode, h.id@, topic) && !specifically_subscribed(h.subs(), topic) && subscribed(
        h.subs(),
        topic,
    )
}

/// Whether some hat of `hats` is a specific subscriber of `topic` under `mode`.
pub open spec fn any_specific(mode: Option<RoutingMode>, hats: Seq<Hat>, topic: Seq<char>) -> bool {
    exists|k: int| 0 <= k < hats.len() && specific_for(mode, #[trigger] hats[k], topic)
}

/// Whether the hat at `k` receives an event on `topic` with `target`: never for
/// a `human.*` topic; only the target where there is one; else the specific
/// subscribers where there are any, else the wildcard fallbacks.
pub open spec fn routed_to(
    mode: Option<RoutingMode>,
    hats: Seq<Hat>,
    k: int,
    topic: Seq<char>,
    target: Option<Seq<char>>,
) -> bool {
    if is_human_topic(topic) {
        false
    } else {
        match target {
            Some(t) => hats[k].id@ == t,
            None => if any_specific(mode, hats, topic) {
                specific_for(mode, hats[k], topic)
            } else {
                fallback_for(mode, hats[k], topic)
            },
        }
    }
}

/// The ids of the hats among the first `n` of `hats` that receive the event.
pub open spec fn recipients_upto(
    mode: Option<RoutingMode>,
    hats: Seq<Hat>,
    topic: Seq<char>,
    target: Option<Seq<char>>,
    n: int,
) -> Seq<Seq<char>>
    decreases n,
{
    if n <= 0 {
        Seq::empty()
    } else {
        let prev = recipients_upto(mode, hats, topic, target, n - 1);
        if routed_to(mode, hats, n - 1, topic, target) {
            prev.push(hats[n - 1].id@)
        } else {
            prev
        }
    }
}

/// The routing mode after publishing `e`: a `triage.decision` event that carries
/// a decision sets it.
pub open spec fn mode_after(mode: Option<RoutingMode>, e: EventView) -> Option<RoutingMode> {
    if e.0 == "triage.decision"@ && e.4 is Some {
        Some(e.4.unwrap().0)
    } else {
        mode
    }
}

/// The state of a bus as plain values: hats, queues, human queue, mode, strategy.
pub open spec fn bus_state(b: &EventBus) -> (
    Seq<Hat>,
    Seq<Seq<EventView>>,
    Seq<EventView>,
    Option<RoutingMode>,
    Option<<TestStrategy as View>::V>,
) {
    (b.hat_list(), b.queues(), b.human_queue(), b.mode(), b.strategy())
}

/// Whether `new` is what publishing the event `ev` on `old` leaves.
pub open spec fn publish_post(old: &EventBus, ev: EventView, new: &EventBus) -> bool {
    &&& new.hat_list() == old.hat_list()
    &&& new.mode() == mode_after(old.mode(), ev)
    &&& new.strategy() == (if ev.0 == "test.strategy"@ && ev.5 is Some {
        ev.5
    } else {
        old.strategy()
    })
    &&& new.human_queue() == (if is_human_topic(ev.0) {
        old.human_queue().push(ev)
    } else {
        old.human_queue()
    })
    &&& new.queues().len() == old.queues().len()
    &&& forall|k: int|
        0 <= k < old.queues().len() ==> #[trigger] new.queues()[k] == (if routed_to(
            new.mode(),
            old.hat_list(),
            k,
            ev.0,
            ev.3,
        ) {
            old.queues()[k].push(ev)
        } else {
            old.queues()[k]
        })
}

/// Everything a bus holds, as plain values: hats, hat queues, human queue,
/// routing mode, active strategy, and the events observers have not yet taken.
pub type BusModel = (
    Seq<Hat>,
    Seq<Seq<EventView>>,
    Seq<EventView>,
    Option<RoutingMode>,
    Option<<TestStrategy as View>::V>,
    Seq<EventView>,
);

/// The model of `b`.
pub open spec fn bus_model(b: &EventBus) -> BusModel {
    (b.hat_list(), b.queues(), b.human_queue(), b.mode(), b.strategy(), b.observed_view())
}

/// The bus after publishing `ev` on a bus modelled by `m`.
pub open spec fn publish_step(m: BusModel, ev: EventView) -> BusModel {
    let mode = mode_after(m.3, ev);
    (
        m.0,
        Seq::new(
            m.1.len(),
            |k: int|
                if routed_to(mode, m.0, k, ev.0, ev.3) {
                    m.1[k].push(ev)
                } else {
                    m.1[k]
                },
        ),
        if is_human_topic(ev.0) {
            m.2.push(ev)
        } else {
            m.2
        },
        mode,
        if ev.0 == "test.strategy"@ && ev.5 is Some {
            ev.5
        } else {
            m.4
        },
        m.5.push(ev),
    )
}

/// The bus after publishing `evs` in order.
pub open spec fn publish_all(m: BusModel, evs: Seq<EventView>) -> BusModel
    decreases evs.len(),
{
    if evs.len() == 0 {
        m
    } else {
        publish_step(publish_all(m, evs.drop_last()), evs.last())
    }
}

/// Publishing one more event after a sequence is publishing the longer sequence.
pub proof fn lemma_publish_all_push(m: BusModel, evs: Seq<EventView>, ev: EventView)
    ensures
        publish_all(m, evs.push(ev)) == publish_step(publish_all(m, evs), ev),
{
    assert(evs.push(ev).drop_last() =~= evs);
}

/// Publishing two sequences one after the other is publishing their concatenation.
pub proof fn lemma_publish_all_concat(m: BusModel, a: Seq<EventView>, b: Seq<EventView>)
    ensures
        publish_all(publish_all(m, a), b) == publish_all(m, a + b),
    decreases b.len(),
{
    if b.len() == 0 {
        assert(a + b =~= a);
    } else {
        lemma_publish_all_concat(m, a, b.drop_last());
        assert((a + b).drop_last() =~= a + b.drop_last());
    }
}

/// A hat receives a published event on a topic outside `human.*` exactly when
/// it is the event's target, or the event has no target and either some hat
/// subscribes to the topic specifically and this hat is one of them, or none
/// does and this hat reaches the topic through the global wildcard.
pub proof fn law_routing(
    mode: Option<RoutingMode>,
    hats: Seq<Hat>,
    k: int,
    topic: Seq<char>,
    target: Option<Seq<char>>,
)
    requires
        0 <= k < hats.len(),
        !is_human_topic(topic),
    ensures
        routed_to(mode, hats, k, topic, target) <==> (target == Some(hats[k].id@) || (target is None
            && any_specific(mode, hats, topic) && specific_for(mode, hats[k], topic)) || (
        target is None && !any_specific(mode, hats, topic) && fallback_for(mode, hats[k], topic))),
{
}

/// An event on a `human.*` topic reaches no hat's queue; it goes to the human
/// queue alone.
pub proof fn law_human_events_bypass_hats(
    old: &EventBus,
    ev: EventView,
    new: &EventBus,
)
    requires
        publish_post(old, ev, new),
        is_human_topic(ev.0),
    ensures
        new.queues() == old.queues(),
        new.human_queue() == old.human_queue().push(ev),
{
    assert(new.queues() =~= old.queues());
}

/// Publishing is deterministic: the same event published on two buses in the
/// same state leaves them in the same state, so replaying an ingest on an
/// identical bus gives an identical bus.
pub proof fn law_publish_deterministic(
    a: &EventBus,
    b: &EventBus,
    ev: EventView,
    a2: &EventBus,
    b2: &EventBus,
)
    requires
        bus_state(a) == bus_state(b),
        publish_post(a, ev, a2),
        publish_post(b, ev, b2),
    ensures
        bus_state(a2) == bus_state(b2),
{
    assert(a2.queues() =~= b2.queues());
}

proof fn lemma_post_step(old: &EventBus, ev: EventView, new: &EventBus)
    requires
        publish_post(old, ev, new),
        new.observed_view() == old.observed_view().push(ev),
    ensures
        bus_model(new) == publish_step(bus_model(old), ev),
{
    let m = publish_step(bus_model(old), ev);
    assert(new.queues() =~= m.1);
}

/// The views of a list of hat ids.
pub open spec fn hat_id_views(v: Seq<HatId>) -> Seq<Seq<char>> {
    v.map_values(|h: HatId| h@)
}

/// The central pub/sub hub: registered hats, a queue of pending events per hat,
/// the queue of human events, the routing mode and the active strategy.
pub struct EventBus {
    hats: Vec<Hat>,
    pending: Vec<Vec<Event>>,
    human_pending: Vec<Event>,
    routing_mode: Option<RoutingMode>,
    active_strategy: Option<TestStrategy>,
    observed: Vec<Event>,
}

impl EventBus {
    /// The events published since observers last took them, in publish order.
    pub closed spec fn observed_view(&self) -> Seq<EventView> {
        event_views(self.observed@)
    }

    /// The registered hats, in order of registration.
    pub closed spec fn hat_list(&self) -> Seq<Hat> {
        self.hats@
    }

    /// The pending events of each hat, aligned with `hat_list`.
    pub closed spec fn queues(&self) -> Seq<Seq<EventView>> {
        self.pending@.map_values(|q: Vec<Event>| event_views(q@))
    }

    /// The pending human events.
    pub closed spec fn human_queue(&self) -> Seq<EventView> {
        event_views(self.human_pending@)
    }

    /// The routing mode.
    pub closed spec fn mode(&self) -> Option<RoutingMode> {
        self.routing_mode
    }

    /// The active test strategy.
    pub closed spec fn strategy(&self) -> Option<<TestStrategy as View>::V> {
        match self.active_strategy {
            Some(s) => Some(s@),
            None => None,
        }
    }

    /// A well-formed bus has one queue per hat and distinct hat ids.
    pub proof fn lemma_wf(&self)
        requires
            self.wf(),
        ensures
            self.queues().len() == self.hat_list().len(),
            distinct_ids(self.hat_list()),
    {
    }

    /// The bus invariant: one queue per hat and distinct hat ids.
    pub closed spec fn wf(&self) -> bool {
        &&& self.pending@.len() == self.hats@.len()
        &&& distinct_ids(self.hats@)
    }

    /// An empty bus.
    pub fn new() -> (r: EventBus)
        ensures
            r.wf(),
            r.hat_list().len() == 0,
            r.queues().len() == 0,
            r.human_queue().len() == 0,
            r.mode() is None,
            r.strategy() is None,
            r.observed_view().len() == 0,
    {
        EventBus {
            hats: Vec::new(),
            pending: Vec::new(),
            human_pending: Vec::new(),
            routing_mode: None,
            active_strategy: None,
            observed: Vec::new(),
        }
    }

    /// Sets the routing mode.
    pub fn set_routing_mode(&mut self, mode: RoutingMode)
        ensures
            final(self).mode() == Some(mode),
            final(self).hat_list() == old(self).hat_list(),
            final(self).queues() == old(self).queues(),
            final(self).human_queue() == old(self).human_queue(),
            final(self).strategy() == old(self).strategy(),
            final(self).wf() == old(self).wf(),
    {
        self.routing_mode = Some(mode);
    }

    /// The routing mode.
    pub fn routing_mode(&self) -> (r: Option<RoutingMode>)
        ensures
            r == self.mode(),
    {
        self.routing_mode
    }

    /// Sets the active test strategy.
    pub fn set_active_strategy(&mut self, strategy: TestStrategy)
        ensures
            final(self).strategy() == Some(strategy@),
            final(self).mode() == old(self).mode(),
            final(self).hat_list() == old(self).hat_list(),
            final(self).queues() == old(self).queues(),
            final(self).human_queue() == old(self).human_queue(),
            final(self).wf() == old(self).wf(),
    {
        self.active_strategy = Some(strategy);
    }

    /// The active test strategy.
    pub fn active_strategy(&self) -> (r: Option<&TestStrategy>)
        ensures
            match r {
                Some(s) => self.strategy() == Some(s@),
                None => self.strategy() is None,
            },
    {
        match &self.active_strategy {
            Some(s) => Some(s),
            None => None,
        }
    }

    /// The index of the hat whose id is `id`.
    fn index_of(&self, id: &str) -> (r: Option<usize>)
        requires
            self.wf(),
        ensures
            match r {
                Some(k) => k < self.hats@.len() && self.hats@[k as int].id@ == id@,
                None => forall|k: int| 0 <= k < self.hats@.len() ==> self.hats@[k].id@ != id@,
            },
    {
        let mut k: usize = 0;
        while k < self.hats.len()
            invariant
                k <= self.hats@.len(),
                forall|j: int| 0 <= j < k ==> self.hats@[j].id@ != id@,
            decreases self.hats@.len() - k,
        {
            if str_eq(self.hats[k].id.as_str(), id) {
                return Some(k);
            }
            k += 1;
        }
        None
    }
}


/// Appends `e` to the queue at `k`.
fn push_at(qs: &mut Vec<Vec<Event>>, k: usize, e: Event)
    requires
        k < old(qs)@.len(),
    ensures
        final(qs)@.len() == old(qs)@.len(),
        forall|j: int|
            0 <= j < old(qs)@.len() && j != k ==> #[trigger] final(qs)@[j] == old(qs)@[j],
        final(qs)@[k as int]@ == old(qs)@[k as int]@.push(e),
{
    let mut q = qs.remove(k);
    q.push(e);
    qs.insert(k, q);
}

/// Empties the queue at `k` and returns what it held.
fn take_at(qs: &mut Vec<Vec<Event>>, k: usize) -> (r: Vec<Event>)
    requires
        k < old(qs)@.len(),
    ensures
        final(qs)@.len() == old(qs)@.len(),
        forall|j: int|
            0 <= j < old(qs)@.len() && j != k ==> #[trigger] final(qs)@[j] == old(qs)@[j],
        final(qs)@[k as int]@.len() == 0,
        r == old(qs)@[k as int],
{
    let q = qs.remove(k);
    qs.insert(k, Vec::new());
    q
}

impl EventBus {
    /// Takes the events published since the last call, in publish order, for
    /// the observers that record or display them.
    pub fn take_observed(&mut self) -> (r: Vec<Event>)
        requires
            old(self).wf(),
        ensures
            final(self).wf(),
            event_views(r@) == old(self).observed_view(),
            final(self).observed_view().len() == 0,
            bus_state(final(self)) == bus_state(old(self)),
    {
        let mut r: Vec<Event> = Vec::new();
        std::mem::swap(&mut r, &mut self.observed);
        proof {
            assert(event_views(self.observed@) =~= Seq::<EventView>::empty());
        }
        r
    }

    /// Registers `hat`. A hat with the same id is replaced and keeps its queue;
    /// a new hat comes last, with an empty queue.
    pub fn register(&mut self, hat: Hat)
        requires
            old(self).wf(),
        ensures
            final(self).wf(),
            ({
                let ids = ids_of(old(self).hat_list());
                if ids.contains(hat.id@) {
                    let k = ids.index_of(hat.id@);
                    &&& final(self).hat_list() == old(self).hat_list().update(k, hat)
                    &&& final(self).queues() == old(self).queues()
                } else {
                    &&& final(self).hat_list() == old(self).hat_list().push(hat)
                    &&& final(self).queues() == old(self).queues().push(Seq::empty())
                }
            }),
            final(self).human_queue() == old(self).human_queue(),
            final(self).mode() == old(self).mode(),
            final(self).strategy() == old(self).strategy(),
    {
        let ghost ids = ids_of(self.hats@);
        match self.index_of(hat.id.as_str()) {
            Some(k) => {
                proof {
                    assert(ids[k as int] == hat.id@);
                    assert(ids.contains(hat.id@));
                    let f = ids.index_of(hat.id@);
                    assert(ids[f] == hat.id@);
                    assert(f == k) by {
                        if f != k {
                            assert(self.hats@[f].id@ == self.hats@[k as int].id@);
                        }
                    }
                }
                self.hats.set(k, hat);
                proof {
                    assert forall|i: int, j: int|
                        0 <= i < self.hats@.len() && 0 <= j < self.hats@.len() && i != j implies (
                        #[trigger] self.hats@[i]).id@ != (#[trigger] self.hats@[j]).id@ by {
                        assert(old(self).hats@[k as int].id@ == self.hats@[k as int].id@);
                        if i != k && j != k {
                            assert(self.hats@[i] == old(self).hats@[i]);
                            assert(self.hats@[j] == old(self).hats@[j]);
                        } else if i == k {
                            assert(self.hats@[j] == old(self).hats@[j]);
                        } else {
                            assert(self.hats@[i] == old(self).hats@[i]);
                        }
                    }
                }
            },
            None => {
                proof {
                    if ids.contains(hat.id@) {
                        let f = ids.index_of(hat.id@);
                        assert(self.hats@[f].id@ == hat.id@);
                    }
                }
                self.hats.push(hat);
                self.pending.push(Vec::new());
                proof {
                    assert(event_views(self.pending@.last()@) =~= Seq::<EventView>::empty());
                    assert forall|i: int| 0 <= i < old(self).pending@.len() implies #[trigger] self.pending@[i]
                        == old(self).pending@[i] by {}
                    assert(self.queues() =~= old(self).queues().push(Seq::empty()));
                    assert forall|i: int, j: int|
                        0 <= i < self.hats@.len() && 0 <= j < self.hats@.len() && i != j implies (
                        #[trigger] self.hats@[i]).id@ != (#[trigger] self.hats@[j]).id@ by {
                        let n = old(self).hats@.len() as int;
                        if i < n && j < n {
                            assert(self.hats@[i] == old(self).hats@[i]);
                            assert(self.hats@[j] == old(self).hats@[j]);
                        } else if i < n {
                            assert(self.hats@[i] == old(self).hats@[i]);
                        } else {
                            assert(self.hats@[j] == old(self).hats@[j]);
                        }
                    }
                }
            },
        }
    }

    /// Takes all pending events of the hat `hat_id`, leaving its queue empty.
    pub fn take_pending(&mut self, hat_id: &HatId) -> (r: Vec<Event>)
        requires
            old(self).wf(),
        ensures
            final(self).wf(),
            final(self).hat_list() == old(self).hat_list(),
            final(self).human_queue() == old(self).human_queue(),
            final(self).mode() == old(self).mode(),
            final(self).strategy() == old(self).strategy(),
            ({
                let ids = ids_of(old(self).hat_list());
                if ids.contains(hat_id@) {
                    let k = ids.index_of(hat_id@);
                    &&& event_views(r@) == old(self).queues()[k]
                    &&& final(self).queues() == old(self).queues().update(k, Seq::empty())
                } else {
                    &&& r@.len() == 0
                    &&& final(self).queues() == old(self).queues()
                }
            }),
    {
        let ghost ids = ids_of(self.hats@);
        match self.index_of(hat_id.as_str()) {
            Some(k) => {
                proof {
                    assert(ids[k as int] == hat_id@);
                    let f = ids.index_of(hat_id@);
                    assert(f == k) by {
                        if f != k {
                            assert(self.hats@[f].id@ == self.hats@[k as int].id@);
                        }
                    }
                }
                let r = take_at(&mut self.pending, k);
                proof {
                    assert(event_views(self.pending@[k as int]@) =~= Seq::<EventView>::empty());
                    assert(self.queues() =~= old(self).queues().update(k as int, Seq::empty()));
                }
                r
            },
            None => {
                proof {
                    if ids.contains(hat_id@) {
                        let f = ids.index_of(hat_id@);
                        assert(self.hats@[f].id@ == hat_id@);
                    }
                }
                Vec::new()
            },
        }
    }

    /// Takes all pending human events.
    pub fn take_human_pending(&mut self) -> (r: Vec<Event>)
        requires
            old(self).wf(),
        ensures
            final(self).wf(),
            event_views(r@) == old(self).human_queue(),
            final(self).human_queue().len() == 0,
            final(self).hat_list() == old(self).hat_list(),
            final(self).queues() == old(self).queues(),
            final(self).mode() == old(self).mode(),
            final(self).strategy() == old(self).strategy(),
    {
        let mut r: Vec<Event> = Vec::new();
        std::mem::swap(&mut r, &mut self.human_pending);
        proof {
            assert(event_views(self.human_pending@) =~= Seq::<EventView>::empty());
        }
        r
    }

    /// The pending events of the hat `hat_id`, if it is registered.
    pub fn peek_pending(&self, hat_id: &HatId) -> (r: Option<&Vec<Event>>)
        requires
            self.wf(),
        ensures
            match r {
                Some(q) => ids_of(self.hat_list()).contains(hat_id@) && event_views(q@)
                    == self.queues()[ids_of(self.hat_list()).index_of(hat_id@)],
                None => !ids_of(self.hat_list()).contains(hat_id@),
            },
    {
        let ghost ids = ids_of(self.hats@);
        match self.index_of(hat_id.as_str()) {
            Some(k) => {
                proof {
                    assert(ids[k as int] == hat_id@);
                    let f = ids.index_of(hat_id@);
                    assert(f == k) by {
                        if f != k {
                            assert(self.hats@[f].id@ == self.hats@[k as int].id@);
                        }
                    }
                }
                Some(&self.pending[k])
            },
            None => {
                proof {
                    if ids.contains(hat_id@) {
                        let f = ids.index_of(hat_id@);
                        assert(self.hats@[f].id@ == hat_id@);
                    }
                }
                None
            },
        }
    }

    /// The pending human events.
    pub fn peek_human_pending(&self) -> (r: &[Event])
        ensures
            event_views(r@) == self.human_queue(),
    {
        self.human_pending.as_slice()
    }

    /// Whether some hat, or the human queue, has pending events.
    pub fn has_pending(&self) -> (r: bool)
        requires
            self.wf(),
        ensures
            r == (self.human_queue().len() > 0 || exists|k: int|
                0 <= k < self.queues().len() && #[trigger] self.queues()[k].len() > 0),
    {
        if self.human_pending.len() > 0 {
            return true;
        }
        match self.next_index_with_pending() {
            Some(k) => {
                assert(self.queues()[k as int].len() > 0);
                true
            },
            None => false,
        }
    }

    /// Whether human events are pending.
    pub fn has_human_pending(&self) -> (r: bool)
        ensures
            r == (self.human_queue().len() > 0),
    {
        self.human_pending.len() > 0
    }

    fn next_index_with_pending(&self) -> (r: Option<usize>)
        requires
            self.wf(),
        ensures
            match r {
                Some(k) => k < self.queues().len() && self.queues()[k as int].len() > 0 && forall|
                    j: int,
                | 0 <= j < k ==> #[trigger] self.queues()[j].len() == 0,
                None => forall|j: int|
                    0 <= j < self.queues().len() ==> #[trigger] self.queues()[j].len() == 0,
            },
    {
        let mut k: usize = 0;
        while k < self.pending.len()
            invariant
                k <= self.pending@.len(),
                forall|j: int| 0 <= j < k ==> #[trigger] self.queues()[j].len() == 0,
            decreases self.pending@.len() - k,
        {
            if self.pending[k].len() > 0 {
                return Some(k);
            }
            k += 1;
        }
        None
    }

    /// The first hat, in order of registration, with pending events.
    pub fn next_hat_with_pending(&self) -> (r: Option<&HatId>)
        requires
            self.wf(),
        ensures
            match r {
                Some(id) => exists|k: int|
                    0 <= k < self.queues().len() && #[trigger] self.queues()[k].len() > 0
                        && self.hat_list()[k].id@ == id@ && forall|j: int|
                        0 <= j < k ==> #[trigger] self.queues()[j].len() == 0,
                None => forall|j: int|
                    0 <= j < self.queues().len() ==> #[trigger] self.queues()[j].len() == 0,
            },
    {
        match self.next_index_with_pending() {
            Some(k) => Some(&self.hats[k].id),
            None => None,
        }
    }

    /// The hat registered under `id`.
    pub fn get_hat(&self, id: &HatId) -> (r: Option<&Hat>)
        requires
            self.wf(),
        ensures
            match r {
                Some(h) => ids_of(self.hat_list()).contains(id@) && *h == self.hat_list()[ids_of(
                    self.hat_list(),
                ).index_of(id@)],
                None => !ids_of(self.hat_list()).contains(id@),
            },
    {
        let ghost ids = ids_of(self.hats@);
        match self.index_of(id.as_str()) {
            Some(k) => {
                proof {
                    assert(ids[k as int] == id@);
                    let f = ids.index_of(id@);
                    assert(f == k) by {
                        if f != k {
                            assert(self.hats@[f].id@ == self.hats@[k as int].id@);
                        }
                    }
                }
                Some(&self.hats[k])
            },
            None => {
                proof {
                    if ids.contains(id@) {
                        let f = ids.index_of(id@);
                        assert(self.hats@[f].id@ == id@);
                    }
                }
                None
            },
        }
    }

    /// The ids of the registered hats, in order of registration.
    pub fn hat_ids(&self) -> (r: Vec<HatId>)
        ensures
            hat_id_views(r@) == ids_of(self.hat_list()),
    {
        let mut r: Vec<HatId> = Vec::new();
        let mut k: usize = 0;
        while k < self.hats.len()
            invariant
                k <= self.hats@.len(),
                hat_id_views(r@) == ids_of(self.hats@).take(k as int),
            decreases self.hats@.len() - k,
        {
            let ghost prev = r@;
            r.push(self.hats[k].id.clone());
            assert(r@ == prev.push(r@.last()));
            assert(hat_id_views(r@) =~= hat_id_views(prev).push(self.hats@[k as int].id@));
            k += 1;
            assert(hat_id_views(r@) =~= ids_of(self.hats@).take(k as int));
        }
        assert(ids_of(self.hats@).take(k as int) =~= ids_of(self.hats@));
        r
    }
}


/// Whether `mode` keeps the hat `id` from receiving `topic`, as `excluded` states.
fn excluded_exec(mode: Option<RoutingMode>, id: &str, topic: &str) -> (r: bool)
    ensures
        r == excluded(mode, id@, topic@),
{
    match mode {
        Some(RoutingMode::Simple) => str_eq(id, "planner") && str_eq(topic, "task.start"),
        Some(RoutingMode::Full) => str_eq(id, "simple-executor") && str_eq(
            topic,
            "triage.decision",
        ),
        None => false,
    }
}

/// No hat that is not routed to shows up among the recipients.
pub proof fn lemma_recipients_none(
    mode: Option<RoutingMode>,
    hats: Seq<Hat>,
    topic: Seq<char>,
    target: Option<Seq<char>>,
    n: int,
)
    requires
        forall|k: int| 0 <= k < n ==> !routed_to(mode, hats, k, topic, target),
    ensures
        recipients_upto(mode, hats, topic, target, n) == Seq::<Seq<char>>::empty(),
    decreases n,
{
    if n > 0 {
        lemma_recipients_none(mode, hats, topic, target, n - 1);
    }
}

/// With distinct ids, an event targeted at a registered hat has that hat as
/// its only recipient.
pub proof fn lemma_recipients_target(
    mode: Option<RoutingMode>,
    hats: Seq<Hat>,
    topic: Seq<char>,
    t: Seq<char>,
    k: int,
    n: int,
)
    requires
        !is_human_topic(topic),
        0 <= k < hats.len(),
        hats[k].id@ == t,
        distinct_ids(hats),
        n <= hats.len(),
    ensures
        recipients_upto(mode, hats, topic, Some(t), n) == if k < n {
            seq![t]
        } else {
            Seq::<Seq<char>>::empty()
        },
    decreases n,
{
    if n > 0 {
        lemma_recipients_target(mode, hats, topic, t, k, n - 1);
        if n - 1 != k {
            assert(hats[n - 1].id@ != hats[k].id@);
        }
    }
}

impl EventBus {
    /// Publishes `event` and returns the ids of the hats that received it.
    ///
    /// A `triage.decision` event with a decision attached sets the routing
    /// mode, and a `test.strategy` event with a strategy attached sets the
    /// active strategy. A `human.*` event joins the human queue and reaches no
    /// hat. An event with a target reaches that hat alone, if it is registered.
    /// Any other event reaches the hats that subscribe to its topic specifically
    /// where there are some, and else the hats that reach it by the global
    /// wildcard; the routing mode keeps `planner` from `task.start` (Simple) and
    /// `simple-executor` from `triage.decision` (Full).
    pub fn publish(&mut self, event: Event) -> (r: Vec<HatId>)
        requires
            old(self).wf(),
        ensures
            final(self).wf(),
            final(self).hat_list() == old(self).hat_list(),
            final(self).mode() == mode_after(old(self).mode(), event@),
            final(self).strategy() == (if event.topic@ == "test.strategy"@ && event.strategy is Some {
                Some(event.strategy.unwrap()@)
            } else {
                old(self).strategy()
            }),
            final(self).human_queue() == (if is_human_topic(event.topic@) {
                old(self).human_queue().push(event@)
            } else {
                old(self).human_queue()
            }),
            final(self).queues().len() == old(self).queues().len(),
            forall|k: int|
                0 <= k < old(self).queues().len() ==> #[trigger] final(self).queues()[k] == (if routed_to(
                    final(self).mode(),
                    old(self).hat_list(),
                    k,
                    event.topic@,
                    event.target_view(),
                ) {
                    old(self).queues()[k].push(event@)
                } else {
                    old(self).queues()[k]
                }),
            publish_post(old(self), event@, final(self)),
            final(self).observed_view() == old(self).observed_view().push(event@),
            bus_model(final(self)) == publish_step(bus_model(old(self)), event@),
            hat_id_views(r@) == recipients_upto(
                final(self).mode(),
                old(self).hat_list(),
                event.topic@,
                event.target_view(),
                old(self).hat_list().len() as int,
            ),
    {
        let seen = event.clone();
        self.observed.push(seen);
        proof {
            assert(event_views(self.observed@) =~= event_views(old(self).observed@).push(event@));
        }
        let ghost obs = self.observed@;
        let topic = event.topic.as_str();
        if str_eq(topic, "triage.decision") {
            match &event.triage {
                Some(d) => {
                    self.routing_mode = Some(d.mode);
                },
                None => {},
            }
        }
        if str_eq(topic, "test.strategy") {
            match &event.strategy {
                Some(st) => {
                    self.active_strategy = Some(st.clone());
                },
                None => {},
            }
        }
        let ghost hats = self.hats@;
        let ghost mode = self.routing_mode;
        let ghost strat = self.active_strategy;
        assert(self.strategy() == (if event.topic@ == "test.strategy"@ && event.strategy is Some {
            Some(event.strategy.unwrap()@)
        } else {
            old(self).strategy()
        }));
        let ghost ev = event@;
        let ghost target = event.target_view();
        assert(mode == mode_after(old(self).mode(), ev));
        if starts_with_exec(chars_of(topic).as_slice(), chars_of("human.").as_slice()) {
            proof {
                lemma_recipients_none(mode, hats, ev.0, target, hats.len() as int);
            }
            self.human_pending.push(event);
            proof {
                assert(event_views(self.human_pending@) =~= old(self).human_queue().push(ev));
                assert(self.queues() =~= old(self).queues());
            }
            proof {
                lemma_post_step(old(self), ev, self);
            }
            return Vec::new();
        }
        assert(!is_human_topic(ev.0));
        match &event.target {
            Some(t) => {
                let found = self.index_of(t.as_str());
                match found {
                    Some(k) => {
                        proof {
                            lemma_recipients_target(mode, hats, ev.0, t@, k as int, hats.len() as int);
                        }
                        let copy = event.clone();
                        let id = t.clone();
                        push_at(&mut self.pending, k, copy);
                        proof {
                            assert(event_views(self.pending@[k as int]@) =~= old(self).queues()[k as int].push(ev));
                            assert forall|j: int| 0 <= j < old(self).queues().len() implies #[trigger] self.queues()[j] == (if routed_to(mode, hats, j, ev.0, target) {
                                old(self).queues()[j].push(ev)
                            } else {
                                old(self).queues()[j]
                            }) by {
                                if j != k {
                                    assert(hats[j].id@ != hats[k as int].id@);
                                }
                            }
                        }
                        let mut r: Vec<HatId> = Vec::new();
                        r.push(id);
                        assert(hat_id_views(r@) =~= seq![t@]);
                        proof {
                            lemma_post_step(old(self), ev, self);
                        }
                        return r;
                    },
                    None => {
                        proof {
                            lemma_recipients_none(mode, hats, ev.0, target, hats.len() as int);
                            assert(self.queues() =~= old(self).queues());
                        }
                        proof {
                            lemma_post_step(old(self), ev, self);
                        }
                        return Vec::new();
                    },
                }
            },
            None => {},
        }
        let n = self.hats.len();
        // Whether some hat subscribes to the topic specifically.
        let mut any = false;
        let mut k: usize = 0;
        while k < n
            invariant
                n == self.hats@.len(),
                hats == self.hats@,
                mode == self.routing_mode,
                topic@ == ev.0,
                event@ == ev,
                k <= n,
                any == exists|j: int| 0 <= j < k && specific_for(mode, #[trigger] hats[j], ev.0),
                self.observed@ == obs,
            decreases n - k,
        {
            let h = &self.hats[k];
            if !excluded_exec(self.routing_mode, h.id.as_str(), topic) && h.has_specific_subscription(
                &event.topic,
            ) {
                assert(specific_for(mode, hats[k as int], ev.0));
                any = true;
            }
            k += 1;
        }
        assert(any == any_specific(mode, hats, ev.0));
        let mut r: Vec<HatId> = Vec::new();
        let mut k: usize = 0;
        while k < n
            invariant
                n == self.hats@.len(),
                hats == self.hats@,
                mode == self.routing_mode,
                topic@ == ev.0,
                event@ == ev,
                target is None,
                !is_human_topic(ev.0),
                any == any_specific(mode, hats, ev.0),
                self.pending@.len() == n,
                distinct_ids(hats),
                k <= n,
                forall|j: int|
                    0 <= j < n ==> #[trigger] event_views(self.pending@[j]@) == (if j < k && routed_to(mode, hats, j, ev.0, target) {
                        old(self).queues()[j].push(ev)
                    } else {
                        old(self).queues()[j]
                    }),
                hat_id_views(r@) == recipients_upto(mode, hats, ev.0, target, k as int),
                self.human_pending == old(self).human_pending,
                self.active_strategy == strat,
                self.observed@ == obs,
            decreases n - k,
        {
            let h = &self.hats[k];
            let is_spec = !excluded_exec(self.routing_mode, h.id.as_str(), topic) && h.has_specific_subscription(&event.topic);
            let chosen = if any {
                is_spec
            } else {
                !excluded_exec(self.routing_mode, h.id.as_str(), topic) && !h.has_specific_subscription(&event.topic) && h.is_subscribed(&event.topic)
            };
            assert(chosen == routed_to(mode, hats, k as int, ev.0, target));
            if chosen {
                let id = h.id.clone();
                let copy = event.clone();
                let ghost prev = r@;
                let ghost before = self.pending@;
                push_at(&mut self.pending, k, copy);
                r.push(id);
                proof {
                    assert(event_views(self.pending@[k as int]@) =~= event_views(before[k as int]@).push(ev));
                    assert(hat_id_views(r@) =~= hat_id_views(prev).push(hats[k as int].id@));
                    assert forall|j: int| 0 <= j < n && j != k implies #[trigger] self.pending@[j] == before[j] by {}
                }
            }
            k += 1;
        }
        proof {
            assert forall|j: int| 0 <= j < old(self).queues().len() implies #[trigger] self.queues()[j] == (if routed_to(mode, hats, j, ev.0, target) {
                old(self).queues()[j].push(ev)
            } else {
                old(self).queues()[j]
            }) by {
                assert(self.queues()[j] == event_views(self.pending@[j]@));
            }
        }
        proof {
            lemma_post_step(old(self), ev, self);
        }
        r
    }
}

} // verus!
