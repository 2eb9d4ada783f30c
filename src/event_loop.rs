//! The iteration engine: initialization with triage and strategy, hat
//! selection, journal ingest with gates and thrashing detection, and the
//! termination policy. Waiting, the agent run, and the files stay with the caller,
//! which hands their results in.

use vstd::prelude::*;
use crate::event::Event;
use crate::event_bus::{EventBus, ids_of, bus_model, publish_all, publish_step, lemma_publish_all_push, lemma_publish_all_concat, BusModel};
use crate::event::{EventView, event_views, triage_view};
use crate::text::decimal_digits;
use crate::gate::{JournalEvent, MalformedLine, ParseResult, RecoveryRecord, gate_event, gate_of, task_id_of, extract_task_id};
use crate::hat::{Hat, HatId, subscribed};
use crate::json::{strategy_to_json, triage_to_json, triage_json, strategy_json};
use crate::tea::{TEAHat, TestStrategy, string_views, tier_matrix};
use crate::termination::{TerminationReason, format_duration, termination_status_text, reason_name, status_text, duration_text, exit_code_of};
use crate::text::{chars_of, has_prefix, owned, push_str, str_eq, string_of, u64_text};
use crate::thrash::{bump, count_of, find_entry, thrash_step};
use crate::triage::{TriageDecision, TriageHat, triage_of};
use crate::records::UserPrompt;
use crate::parser::{EventParser, attr_of};
use crate::tea::strategy_tier;
use crate::evidence::lower_of;
use crate::gate::join_strings;

verus! {

/// The limits and switches of the loop. Cost is counted in millionths of a dollar.
#[derive(Debug)]
pub struct LoopConfig {
    pub completion_promise: String,
    pub max_iterations: u32,
    pub max_runtime_seconds: u64,
    pub max_cost_micros: Option<u64>,
    pub max_consecutive_failures: u32,
    pub persistent: bool,
    pub starting_event: Option<String>,
}

impl LoopConfig {
    /// The default limits: 100 iterations, four hours, no cost limit, five
    /// failures in a row; not persistent; starting with `task.start`.
    pub fn new(completion_promise: &str) -> (r: LoopConfig)
        ensures
            r.completion_promise@ == completion_promise@,
            r.max_iterations == 100,
            r.max_runtime_seconds == 14400,
            r.max_cost_micros is None,
            r.max_consecutive_failures == 5,
            !r.persistent,
            r.starting_event is None,
    {
        LoopConfig {
            completion_promise: owned(completion_promise),
            max_iterations: 100,
            max_runtime_seconds: 14400,
            max_cost_micros: None,
            max_consecutive_failures: 5,
            persistent: false,
            starting_event: None,
        }
    }
}

/// Counters and running totals of the loop.
#[derive(Debug)]
pub struct LoopState {
    pub iteration: u32,
    pub elapsed_seconds: u64,
    pub cumulative_cost_micros: u64,
    pub consecutive_failures: u32,
    pub consecutive_malformed_events: u32,
    /// How often each task was blocked.
    pub task_block_counts: Vec<(String, u32)>,
    pub abandoned_tasks: Vec<String>,
    pub abandoned_task_redispatches: u32,
    pub last_hat: Option<HatId>,
    pub last_snapshot_sha: Option<String>,
    pub is_halted: bool,
    pub completion_requested: bool,
    pub triage_decision: Option<TriageDecision>,
    pub active_strategy: Option<TestStrategy>,
    pub human_decision: Option<String>,
    /// How often each hat was activated.
    pub hat_activation_counts: Vec<(String, u32)>,
    /// The hats that reached their activation limit.
    pub exhausted_hats: Vec<String>,
    /// Options put to a human and not yet decided.
    pub active_options: Option<crate::options::ProactiveOptions>,
}

impl LoopState {
    /// The block counts as text and numbers.
    pub open spec fn counts(&self) -> Seq<(Seq<char>, u32)> {
        self.task_block_counts@.map_values(|e: (String, u32)| (e.0@, e.1))
    }

    /// The activation counts as text and numbers.
    pub open spec fn activations(&self) -> Seq<(Seq<char>, u32)> {
        self.hat_activation_counts@.map_values(|e: (String, u32)| (e.0@, e.1))
    }

    /// The abandoned tasks as text.
    pub open spec fn abandoned(&self) -> Seq<Seq<char>> {
        string_views(self.abandoned_tasks@)
    }

    /// The active strategy as plain values.
    pub open spec fn strategy_view(&self) -> Option<<TestStrategy as View>::V> {
        match self.active_strategy {
            Some(s) => Some(s@),
            None => None,
        }
    }

    /// The state of a loop that has not run.
    pub fn new() -> (r: LoopState)
        ensures
            r.iteration == 0,
            r.elapsed_seconds == 0,
            r.cumulative_cost_micros == 0,
            r.consecutive_failures == 0,
            r.consecutive_malformed_events == 0,
            r.counts().len() == 0,
            r.abandoned().len() == 0,
            r.abandoned_task_redispatches == 0,
            r.last_hat is None,
            !r.is_halted,
            !r.completion_requested,
            r.active_strategy is None,
    {
        let r = LoopState {
            iteration: 0,
            elapsed_seconds: 0,
            cumulative_cost_micros: 0,
            consecutive_failures: 0,
            consecutive_malformed_events: 0,
            task_block_counts: Vec::new(),
            abandoned_tasks: Vec::new(),
            abandoned_task_redispatches: 0,
            last_hat: None,
            last_snapshot_sha: None,
            is_halted: false,
            completion_requested: false,
            triage_decision: None,
            active_strategy: None,
            human_decision: None,
            hat_activation_counts: Vec::new(),
            exhausted_hats: Vec::new(),
            active_options: None,
        };
        assert(r.counts() =~= Seq::<(Seq<char>, u32)>::empty());
        assert(r.abandoned() =~= Seq::<Seq<char>>::empty());
        r
    }
}

/// The termination reason for `st` under `cfg`, first match winning: the
/// iteration, runtime, cost and failure limits, three thrashing redispatches,
/// three malformed lines in a row, then the stop and restart requests.
pub open spec fn termination_of(
    st: &LoopState,
    cfg: &LoopConfig,
    stop_requested: bool,
    restart_requested: bool,
) -> Option<TerminationReason> {
    if st.iteration >= cfg.max_iterations {
        Some(TerminationReason::MaxIterations)
    } else if st.elapsed_seconds >= cfg.max_runtime_seconds {
        Some(TerminationReason::MaxRuntime)
    } else if cfg.max_cost_micros is Some && st.cumulative_cost_micros >= cfg.max_cost_micros.unwrap() {
        Some(TerminationReason::MaxCost)
    } else if st.consecutive_failures >= cfg.max_consecutive_failures {
        Some(TerminationReason::ConsecutiveFailures)
    } else if st.abandoned_task_redispatches >= 3 {
        Some(TerminationReason::LoopThrashing)
    } else if st.consecutive_malformed_events >= 3 {
        Some(TerminationReason::ValidationFailure)
    } else if stop_requested {
        Some(TerminationReason::Stopped)
    } else if restart_requested {
        Some(TerminationReason::RestartRequested)
    } else {
        None
    }
}

/// The termination reason, as `termination_of` states.
pub fn check_termination(
    st: &LoopState,
    cfg: &LoopConfig,
    stop_requested: bool,
    restart_requested: bool,
) -> (r: Option<TerminationReason>)
    ensures
        r == termination_of(st, cfg, stop_requested, restart_requested),
{
    if st.iteration >= cfg.max_iterations {
        return Some(TerminationReason::MaxIterations);
    }
    if st.elapsed_seconds >= cfg.max_runtime_seconds {
        return Some(TerminationReason::MaxRuntime);
    }
    match cfg.max_cost_micros {
        Some(m) => {
            if st.cumulative_cost_micros >= m {
                return Some(TerminationReason::MaxCost);
            }
        },
        None => {},
    }
    if st.consecutive_failures >= cfg.max_consecutive_failures {
        return Some(TerminationReason::ConsecutiveFailures);
    }
    if st.abandoned_task_redispatches >= 3 {
        return Some(TerminationReason::LoopThrashing);
    }
    if st.consecutive_malformed_events >= 3 {
        return Some(TerminationReason::ValidationFailure);
    }
    if stop_requested {
        return Some(TerminationReason::Stopped);
    }
    if restart_requested {
        return Some(TerminationReason::RestartRequested);
    }
    None
}

/// After three malformed lines in a row, and with no earlier limit reached, the
/// termination check reports a validation failure.
pub proof fn law_malformed_lines_terminate(
    st: &LoopState,
    cfg: &LoopConfig,
    stop_requested: bool,
    restart_requested: bool,
)
    requires
        st.consecutive_malformed_events >= 3,
        st.iteration < cfg.max_iterations,
        st.elapsed_seconds < cfg.max_runtime_seconds,
        cfg.max_cost_micros matches Some(m) ==> st.cumulative_cost_micros < m,
        st.consecutive_failures < cfg.max_consecutive_failures,
        st.abandoned_task_redispatches < 3,
    ensures
        termination_of(st, cfg, stop_requested, restart_requested) == Some(
            TerminationReason::ValidationFailure,
        ),
{
}


/// The topic and payload of each journal event.
pub open spec fn journal_pairs(evs: Seq<JournalEvent>) -> Seq<(Seq<char>, Seq<char>)> {
    evs.map_values(|e: JournalEvent| e.view_pair())
}

/// The events that the evidence filter lets through or synthesizes for `pairs`, in
/// order: completion events are dropped, every other event is gated.
pub open spec fn gated(
    pairs: Seq<(Seq<char>, Seq<char>)>,
    completion: Seq<char>,
    s: Option<<TestStrategy as View>::V>,
) -> Seq<(Seq<char>, Seq<char>)>
    decreases pairs.len(),
{
    if pairs.len() == 0 {
        Seq::empty()
    } else {
        let prev = gated(pairs.drop_last(), completion, s);
        let e = pairs.last();
        if e.0 == completion {
            prev
        } else {
            let g = gate_of(e.0, e.1, s);
            prev.push((g.0, g.1))
        }
    }
}

/// The recovery records that the evidence filter produces for `pairs`, in order.
pub open spec fn recoveries(
    pairs: Seq<(Seq<char>, Seq<char>)>,
    completion: Seq<char>,
    s: Option<<TestStrategy as View>::V>,
) -> Seq<(Seq<char>, Seq<char>)>
    decreases pairs.len(),
{
    if pairs.len() == 0 {
        Seq::empty()
    } else {
        let prev = recoveries(pairs.drop_last(), completion, s);
        let e = pairs.last();
        if e.0 == completion {
            prev
        } else {
            match gate_of(e.0, e.1, s).2 {
                Some(r) => prev.push(r),
                None => prev,
            }
        }
    }
}

/// Whether the batch `pairs` asks for completion: its last event is on the
/// completion topic.
pub open spec fn completion_in(pairs: Seq<(Seq<char>, Seq<char>)>, completion: Seq<char>) -> bool {
    pairs.len() > 0 && pairs.last().0 == completion
}

/// The tasks of the `build.blocked` events among `vs`, in order.
pub open spec fn blocked_tasks(vs: Seq<(Seq<char>, Seq<char>)>) -> Seq<Seq<char>>
    decreases vs.len(),
{
    if vs.len() == 0 {
        Seq::empty()
    } else {
        let prev = blocked_tasks(vs.drop_last());
        if vs.last().0 == "build.blocked"@ {
            prev.push(task_id_of(vs.last().1))
        } else {
            prev
        }
    }
}

/// A `build.done` that the evidence filter lets through carries evidence that passes
/// every check and the active strategy; any other `build.done` becomes
/// `build.blocked` before it reaches a hat.
pub proof fn law_failed_build_never_dispatched(
    pairs: Seq<(Seq<char>, Seq<char>)>,
    completion: Seq<char>,
    s: Option<<TestStrategy as View>::V>,
    k: int,
)
    requires
        0 <= k < gated(pairs, completion, s).len(),
        gated(pairs, completion, s)[k].0 == "build.done"@,
    ensures
        ({
            let p = gated(pairs, completion, s)[k].1;
            &&& crate::evidence::backpressure_of(p) matches Some(ev)
            &&& ev.spec_all_passed()
            &&& crate::gate::strategy_errors(ev, s).len() == 0
        }),
    decreases pairs.len(),
{
    let prev = gated(pairs.drop_last(), completion, s);
    if k < prev.len() {
        law_failed_build_never_dispatched(pairs.drop_last(), completion, s, k);
    } else {
        let e = pairs.last();
        let g = gate_of(e.0, e.1, s);
        reveal_strlit("build.done");
        reveal_strlit("build.blocked");
        reveal_strlit("review.done");
        reveal_strlit("review.blocked");
        reveal_strlit("verify.passed");
        reveal_strlit("verify.failed");
        assert(e.0 != completion);
        assert(gated(pairs, completion, s)[k] == (g.0, g.1));
        if e.0 == "build.done"@ {
            if crate::evidence::backpressure_of(e.1) is None {
                assert("build.blocked"@[6] != "build.done"@[6]);
            } else {
                let ev = crate::evidence::backpressure_of(e.1).unwrap();
                if !(ev.spec_all_passed() && crate::gate::strategy_errors(ev, s).len() == 0) {
                    assert("build.blocked"@[6] != "build.done"@[6]);
                }
            }
        } else if e.0 == "review.done"@ {
            assert("review.blocked"@[0] != "build.done"@[0]);
            assert("review.done"@[0] != "build.done"@[0]);
        } else if e.0 == "verify.passed"@ {
            assert("verify.failed"@[0] != "build.done"@[0]);
            assert("verify.passed"@[0] != "build.done"@[0]);
        }
    }
}

/// The topics and payloads of the events the evidence filter publishes are
/// those `gated` lists.
pub proof fn lemma_gated_views_pairs(
    evs: Seq<JournalEvent>,
    completion: Seq<char>,
    s: Option<<TestStrategy as View>::V>,
)
    ensures
        gated_views(evs, completion, s).map_values(|v: EventView| (v.0, v.1)) == gated(
            journal_pairs(evs),
            completion,
            s,
        ),
    decreases evs.len(),
{
    if evs.len() > 0 {
        lemma_gated_views_pairs(evs.drop_last(), completion, s);
        assert(journal_pairs(evs).drop_last() =~= journal_pairs(evs.drop_last()));
        let a = gated_views(evs, completion, s).map_values(|v: EventView| (v.0, v.1));
        let p = gated_views(evs.drop_last(), completion, s).map_values(|v: EventView| (v.0, v.1));
        if evs.last().topic@ == completion {
            assert(a =~= p);
        } else {
            assert(a =~= p.push((gated_view(evs.last(), s).0, gated_view(evs.last(), s).1)));
        }
    } else {
        assert(gated_views(evs, completion, s).map_values(|v: EventView| (v.0, v.1)) =~= Seq::<(Seq<char>, Seq<char>)>::empty());
    }
}

/// No `build.done` that lacks passing evidence is published by an ingest, to a
/// hat or to an observer: each event the evidence filter publishes on that
/// topic carries evidence that passes every check and the active strategy.
pub proof fn law_failed_build_never_published(
    evs: Seq<JournalEvent>,
    completion: Seq<char>,
    s: Option<<TestStrategy as View>::V>,
    k: int,
)
    requires
        0 <= k < gated_views(evs, completion, s).len(),
        gated_views(evs, completion, s)[k].0 == "build.done"@,
    ensures
        ({
            let p = gated_views(evs, completion, s)[k].1;
            &&& crate::evidence::backpressure_of(p) matches Some(ev)
            &&& ev.spec_all_passed()
            &&& crate::gate::strategy_errors(ev, s).len() == 0
        }),
{
    lemma_gated_views_pairs(evs, completion, s);
    let g = gated(journal_pairs(evs), completion, s);
    assert(g[k] == (gated_views(evs, completion, s)[k].0, gated_views(evs, completion, s)[k].1));
    law_failed_build_never_dispatched(journal_pairs(evs), completion, s, k);
}

/// A completion event anywhere but last in a batch is ignored: removing it
/// changes neither the events that go on nor whether completion is requested.
pub proof fn law_completion_only_last(
    pairs: Seq<(Seq<char>, Seq<char>)>,
    completion: Seq<char>,
    s: Option<<TestStrategy as View>::V>,
    i: int,
)
    requires
        0 <= i < pairs.len() - 1,
        pairs[i].0 == completion,
    ensures
        gated(pairs.remove(i), completion, s) == gated(pairs, completion, s),
        recoveries(pairs.remove(i), completion, s) == recoveries(pairs, completion, s),
        completion_in(pairs.remove(i), completion) == completion_in(pairs, completion),
    decreases pairs.len(),
{
    let q = pairs.remove(i);
    assert(q.last() == pairs.last());
    assert(q.len() > 0);
    if i < pairs.len() - 2 {
        law_completion_only_last(pairs.drop_last(), completion, s, i);
        assert(q.drop_last() =~= pairs.drop_last().remove(i));
    } else {
        assert(q.drop_last() =~= pairs.drop_last().drop_last());
        assert(pairs.drop_last().last() == pairs[i]);
        assert(gated(pairs.drop_last(), completion, s) == gated(
            pairs.drop_last().drop_last(),
            completion,
            s,
        ));
        assert(recoveries(pairs.drop_last(), completion, s) == recoveries(
            pairs.drop_last().drop_last(),
            completion,
            s,
        ));
    }
    assert(gated(q.drop_last(), completion, s) == gated(pairs.drop_last(), completion, s));
    assert(recoveries(q.drop_last(), completion, s) == recoveries(
        pairs.drop_last(),
        completion,
        s,
    ));
}

/// A completion event anywhere but last in a batch publishes nothing: removing
/// it leaves the published events unchanged.
pub proof fn law_completion_not_last_publishes_nothing(
    evs: Seq<JournalEvent>,
    completion: Seq<char>,
    s: Option<<TestStrategy as View>::V>,
    i: int,
)
    requires
        0 <= i < evs.len() - 1,
        evs[i].topic@ == completion,
    ensures
        gated_views(evs.remove(i), completion, s) == gated_views(evs, completion, s),
    decreases evs.len(),
{
    let q = evs.remove(i);
    assert(q.last() == evs.last());
    assert(q.len() > 0);
    if i < evs.len() - 2 {
        law_completion_not_last_publishes_nothing(evs.drop_last(), completion, s, i);
        assert(q.drop_last() =~= evs.drop_last().remove(i));
    } else {
        assert(q.drop_last() =~= evs.drop_last().drop_last());
        assert(evs.drop_last().last() == evs[i]);
        assert(gated_views(evs.drop_last(), completion, s) == gated_views(evs.drop_last().drop_last(), completion, s));
    }
    assert(gated_views(q.drop_last(), completion, s) == gated_views(evs.drop_last(), completion, s));
}

/// The bus after an ingest of `evs` and `malformed` on a bus modelled by `b`,
/// with block counts `counts`, abandoned tasks `abandoned`, strategy `s` and
/// completion topic `completion`: the `event.malformed` events, then the
/// abandonments, then the events the evidence filter lets through.
pub open spec fn ingest_bus(
    b: BusModel,
    counts: Seq<(Seq<char>, u32)>,
    abandoned: Seq<Seq<char>>,
    s: Option<<TestStrategy as View>::V>,
    completion: Seq<char>,
    evs: Seq<JournalEvent>,
    malformed: Seq<MalformedLine>,
) -> BusModel {
    publish_all(
        b,
        malformed_views(malformed) + abandoned_views(
            crate::thrash::thrash_run(counts, abandoned, blocked_tasks(gated(journal_pairs(evs), completion, s))).2,
        ) + gated_views(evs, completion, s),
    )
}

/// An ingest is deterministic: two loops whose bus, block counts, abandoned
/// tasks, strategy and completion topic agree end with the same bus after
/// ingesting the same read.
pub proof fn law_ingest_deterministic(
    b1: BusModel,
    b2: BusModel,
    counts: Seq<(Seq<char>, u32)>,
    abandoned: Seq<Seq<char>>,
    s: Option<<TestStrategy as View>::V>,
    completion: Seq<char>,
    evs: Seq<JournalEvent>,
    malformed: Seq<MalformedLine>,
)
    requires
        b1 == b2,
    ensures
        ingest_bus(b1, counts, abandoned, s, completion, evs, malformed) == ingest_bus(
            b2,
            counts,
            abandoned,
            s,
            completion,
            evs,
            malformed,
        ),
{
}

/// What an ingest reports to the caller.
#[derive(Debug)]
pub struct IngestOutcome {
    /// Whether some published event has no subscriber among the custom hats.
    pub has_orphans: bool,
    /// Failures to record in the recovery queue, with the last snapshot.
    pub recovery: Vec<RecoveryRecord>,
    /// The payload of the first `human.interact` event, to hand to a human.
    pub human_question: Option<String>,
    /// The events published after the evidence filter, in order.
    pub published: Vec<Event>,
}

/// The orchestrator: configuration, loop state, the bus, the custom hats, the
/// triage and test architect hats, and the audit entries waiting to be written.
pub struct EventLoop {
    config: LoopConfig,
    state: LoopState,
    bus: EventBus,
    registry: Vec<Hat>,
    triage_hat: TriageHat,
    tea_hat: TEAHat,
    audit: Vec<(String, String)>,
    settings: Vec<(String, HatSettings)>,
    guidance: Vec<String>,
}

/// Per-hat limits: how often the hat may be activated, and the topic to
/// publish for it when it wrote no event.
#[derive(Debug)]
pub struct HatSettings {
    pub max_activations: Option<u32>,
    pub default_publishes: Option<String>,
}

impl EventLoop {
    /// The loop invariant: a well-formed bus on which `ralph` is registered, and
    /// the default tier matrix.
    pub closed spec fn inv(&self) -> bool {
        &&& self.bus.wf()
        &&& ids_of(self.bus.hat_list()).contains("ralph"@)
        &&& self.tea_hat.matrix_view() == tier_matrix()
    }

    /// The loop state.
    pub closed spec fn st(&self) -> &LoopState {
        &self.state
    }

    /// The configuration.
    pub closed spec fn cfg(&self) -> &LoopConfig {
        &self.config
    }

    /// The configured hat settings: id, activation limit, default topic.
    pub closed spec fn settings_view(&self) -> Seq<(Seq<char>, Option<u32>, Option<Seq<char>>)> {
        self.settings@.map_values(|e: (String, HatSettings)| (e.0@, e.1.max_activations, opt_view(e.1.default_publishes)))
    }

    /// The guidance received and not yet taken.
    pub closed spec fn guidance_view(&self) -> Seq<Seq<char>> {
        string_views(self.guidance@)
    }

    /// The custom hats.
    pub closed spec fn custom_hats(&self) -> Seq<Hat> {
        self.registry@
    }

    /// The bus.
    pub closed spec fn bus_view(&self) -> &EventBus {
        &self.bus
    }

    /// A loop over the custom `hats`, each registered on the bus, and `ralph`,
    /// subscribed to `*`, registered last so that no custom hat replaces it.
    pub fn new(config: LoopConfig, hats: Vec<Hat>) -> (r: EventLoop)
        ensures
            r.inv(),
            r.custom_hats() == hats@,
            r.st().iteration == 0,
            r.st().consecutive_malformed_events == 0,
            r.st().abandoned_task_redispatches == 0,
            !r.st().completion_requested,
            r.cfg() == config,
    {
        let mut bus = EventBus::new();
        let mut k: usize = 0;
        while k < hats.len()
            invariant
                k <= hats@.len(),
                bus.wf(),
            decreases hats@.len() - k,
        {
            bus.register(hats[k].clone());
            k += 1;
        }
        let ralph = Hat::new("ralph", "Ralph").subscribe("*");
        let ghost rid = ralph.id@;
        let ghost before = bus.hat_list();
        bus.register(ralph);
        proof {
            let ids = ids_of(bus.hat_list());
            if ids_of(before).contains(rid) {
                let k = ids_of(before).index_of(rid);
                assert(ids[k] == rid);
            } else {
                assert(ids[ids.len() - 1] == rid);
            }
        }
        EventLoop {
            config,
            state: LoopState::new(),
            bus,
            registry: hats,
            triage_hat: TriageHat::new(),
            tea_hat: TEAHat::new(),
            audit: Vec::new(),
            settings: Vec::new(),
            guidance: Vec::new(),
        }
    }
}


/// Whether `v` holds the text `t`.
pub fn contains_string(v: &Vec<String>, t: &str) -> (r: bool)
    ensures
        r == string_views(v@).contains(t@),
{
    let mut i: usize = 0;
    while i < v.len()
        invariant
            i <= v@.len(),
            forall|j: int| 0 <= j < i ==> string_views(v@)[j] != t@,
        decreases v@.len() - i,
    {
        if str_eq(v[i].as_str(), t) {
            assert(string_views(v@)[i as int] == t@);
            return true;
        }
        i += 1;
    }
    false
}

/// `v + 1`, or `u32::MAX` where that overflows.
pub open spec fn sat_inc(v: u32) -> u32 {
    if v < u32::MAX {
        (v + 1) as u32
    } else {
        u32::MAX
    }
}

/// `v + n`, or `u32::MAX` where that overflows.
pub open spec fn sat_add(v: u32, n: nat) -> u32 {
    if v + n < u32::MAX {
        (v + n) as u32
    } else {
        u32::MAX
    }
}

fn inc(v: u32) -> (r: u32)
    ensures
        r == sat_inc(v),
{
    if v < u32::MAX {
        v + 1
    } else {
        u32::MAX
    }
}

/// The text of an event that prompts a hat: task starts and resumptions wrap
/// their payload in `<top-level-prompt>` tags.
pub open spec fn event_line(topic: Seq<char>, payload: Seq<char>) -> Seq<char> {
    if topic == "task.start"@ || topic == "task.resume"@ {
        "Event: "@ + topic + " - <top-level-prompt>\n"@ + payload + "\n</top-level-prompt>"@
    } else {
        "Event: "@ + topic + " - "@ + payload
    }
}

/// The text of `e` in a prompt, as `event_line` states.
pub fn format_event(e: &Event) -> (r: String)
    ensures
        r@ == event_line(e.topic@, e.payload@),
{
    let t = e.topic.as_str();
    let mut out = owned("Event: ");
    push_str(&mut out, t);
    if str_eq(t, "task.start") || str_eq(t, "task.resume") {
        push_str(&mut out, " - <top-level-prompt>\n");
        push_str(&mut out, e.payload.as_str());
        push_str(&mut out, "\n</top-level-prompt>");
    } else {
        push_str(&mut out, " - ");
        push_str(&mut out, e.payload.as_str());
    }
    out
}

impl EventLoop {
    /// The loop state.
    pub fn state(&self) -> (r: &LoopState)
        ensures
            r == self.st(),
    {
        &self.state
    }

    /// The configuration.
    pub fn config(&self) -> (r: &LoopConfig)
        ensures
            r == self.cfg(),
    {
        &self.config
    }

    /// The bus.
    pub fn bus(&self) -> (r: &EventBus)
        ensures
            r == self.bus_view(),
            self.inv() ==> r.wf(),
    {
        &self.bus
    }

    /// Records the snapshot taken before the task started.
    pub fn record_snapshot(&mut self, sha: &str)
        requires
            old(self).inv(),
        ensures
            final(self).inv(),
            final(self).st().last_snapshot_sha matches Some(s) && s@ == sha@,
            final(self).st().iteration == old(self).st().iteration,
    {
        self.state.last_snapshot_sha = Some(owned(sha));
    }

    /// Records the wall-clock time since the loop started; time never goes back.
    pub fn record_elapsed(&mut self, seconds: u64)
        requires
            old(self).inv(),
        ensures
            final(self).inv(),
            final(self).st().elapsed_seconds == if seconds > old(self).st().elapsed_seconds {
                seconds
            } else {
                old(self).st().elapsed_seconds
            },
            final(self).st().elapsed_seconds >= old(self).st().elapsed_seconds,
            final(self).st().iteration == old(self).st().iteration,
    {
        if seconds > self.state.elapsed_seconds {
            self.state.elapsed_seconds = seconds;
        }
    }

    /// Adds `micros` millionths of a dollar to the cost, saturating.
    pub fn add_cost(&mut self, micros: u64)
        requires
            old(self).inv(),
        ensures
            final(self).inv(),
            final(self).st().cumulative_cost_micros == if old(self).st().cumulative_cost_micros
                + micros <= u64::MAX {
                (old(self).st().cumulative_cost_micros + micros) as u64
            } else {
                u64::MAX
            },
    {
        if self.state.cumulative_cost_micros <= u64::MAX - micros {
            self.state.cumulative_cost_micros = self.state.cumulative_cost_micros + micros;
        } else {
            self.state.cumulative_cost_micros = u64::MAX;
        }
    }

    /// Publishes `event` on the bus and returns its recipients.
    pub fn publish(&mut self, event: Event) -> (r: Vec<HatId>)
        requires
            old(self).inv(),
        ensures
            final(self).inv(),
            final(self).st() == old(self).st(),
            final(self).bus_view().hat_list() == old(self).bus_view().hat_list(),
    {
        self.bus.publish(event)
    }

    /// Whether the loop was stopped by `termination_of`, as the iteration ends.
    pub fn check_termination(&self, stop_requested: bool, restart_requested: bool) -> (r: Option<
        TerminationReason,
    >)
        ensures
            r == termination_of(self.st(), self.cfg(), stop_requested, restart_requested),
    {
        check_termination(&self.state, &self.config, stop_requested, restart_requested)
    }

    /// Records the end of an iteration run by `hat_id`: one more iteration, the
    /// failure count reset on success and raised on failure, and the last hat;
    /// then checks for termination.
    pub fn process_output(
        &mut self,
        hat_id: &HatId,
        success: bool,
        stop_requested: bool,
        restart_requested: bool,
    ) -> (r: Option<TerminationReason>)
        requires
            old(self).inv(),
            old(self).st().iteration < u32::MAX,
        ensures
            final(self).inv(),
            final(self).st().iteration == old(self).st().iteration + 1,
            final(self).st().elapsed_seconds == old(self).st().elapsed_seconds,
            final(self).st().consecutive_failures == if success {
                0
            } else {
                sat_inc(old(self).st().consecutive_failures)
            },
            final(self).st().last_hat matches Some(h) && h@ == hat_id@,
            final(self).st().consecutive_malformed_events == old(self).st().consecutive_malformed_events,
            final(self).st().abandoned_task_redispatches == old(self).st().abandoned_task_redispatches,
            final(self).st().cumulative_cost_micros == old(self).st().cumulative_cost_micros,
            final(self).cfg() == old(self).cfg(),
            r == termination_of(final(self).st(), final(self).cfg(), stop_requested, restart_requested),
    {
        self.state.iteration = self.state.iteration + 1;
        self.state.last_hat = Some(hat_id.clone());
        if success {
            self.state.consecutive_failures = 0;
        } else {
            self.state.consecutive_failures = inc(self.state.consecutive_failures);
        }
        check_termination(&self.state, &self.config, stop_requested, restart_requested)
    }

    /// Whether a hat or the human queue has pending events.
    pub fn has_pending_events(&self) -> (r: bool)
        requires
            self.inv(),
        ensures
            r == (self.bus_view().human_queue().len() > 0 || exists|k: int|
                0 <= k < self.bus_view().queues().len() && #[trigger] self.bus_view().queues()[k].len() > 0),
    {
        self.bus.has_pending()
    }

    /// Whether human events are pending.
    pub fn has_pending_human_events(&self) -> (r: bool)
        ensures
            r == (self.bus_view().human_queue().len() > 0),
    {
        self.bus.has_human_pending()
    }

    /// The hat to run next: none without pending events; `ralph` where only
    /// human events are pending or custom hats exist; in solo mode the first hat
    /// with pending events.
    pub fn next_hat(&self) -> (r: Option<HatId>)
        requires
            self.inv(),
        ensures
            match r {
                Some(h) => (self.custom_hats().len() > 0 || forall|j: int|
                    0 <= j < self.bus_view().queues().len() ==> #[trigger] self.bus_view().queues()[j].len()
                        == 0) ==> h@ == "ralph"@,
                None => forall|j: int|
                    0 <= j < self.bus_view().queues().len() ==> #[trigger] self.bus_view().queues()[j].len()
                        == 0,
            },
            r is None <==> !(self.bus_view().human_queue().len() > 0 || exists|k: int|
                0 <= k < self.bus_view().queues().len() && #[trigger] self.bus_view().queues()[k].len() > 0),
    {
        let ralph = HatId::new("ralph");
        let next = self.bus.next_hat_with_pending();
        if self.bus.has_human_pending() {
            if next.is_none() || self.registry.len() > 0 {
                return Some(ralph);
            }
        }
        match next {
            None => None,
            Some(id) => {
                if self.registry.len() == 0 {
                    Some(id.clone())
                } else {
                    Some(ralph)
                }
            },
        }
    }
}


/// `c` hundredths written with two decimals, such as `0.85`.
fn two_decimals(c: u32) -> (r: String) {
    let mut out = u64_text((c / 100) as u64);
    push_str(&mut out, ".");
    if c % 100 < 10 {
        push_str(&mut out, "0");
    }
    push_str(&mut out, u64_text((c % 100) as u64).as_str());
    out
}

impl EventLoop {
    /// The audit entries (kind and details) recorded since the last call.
    pub fn take_audit_entries(&mut self) -> (r: Vec<(String, String)>)
        requires
            old(self).inv(),
        ensures
            final(self).inv(),
            final(self).st() == old(self).st(),
    {
        let mut r: Vec<(String, String)> = Vec::new();
        std::mem::swap(&mut r, &mut self.audit);
        r
    }

    /// Starts the loop with `prompt_content` on the configured starting topic,
    /// `task.start` by default; nothing happens while the recovery queue blocks.
    /// A `task.start` is triaged and given a strategy first: `triage.decision`
    /// and `test.strategy` are published, then the start event.
    pub fn initialize(&mut self, prompt_content: &str, recovery_blocked: bool)
        requires
            old(self).inv(),
        ensures
            final(self).inv(),
            recovery_blocked ==> final(self).st() == old(self).st() && final(self).bus_view()
                == old(self).bus_view(),
            !recovery_blocked && old(self).cfg().starting_event is None ==> (final(self).st().triage_decision matches Some(d)
                && final(self).st().active_strategy matches Some(st) && bus_model(final(self).bus_view())
                == publish_all(bus_model(old(self).bus_view()), start_events(prompt_content@, d, st))),
            !recovery_blocked && old(self).cfg().starting_event is None ==> {
                &&& final(self).st().triage_decision matches Some(d) && (d.mode, d.confidence)
                    == triage_of(lower_of(prompt_content@), prompt_content@.len())
                    && final(self).bus_view().mode() == Some(d.mode)
                &&& final(self).st().active_strategy matches Some(st) && st.tier == strategy_tier(
                    lower_of(prompt_content@),
                )
            },
    {
        if recovery_blocked {
            return;
        }
        let topic = match &self.config.starting_event {
            Some(t) => t.clone(),
            None => owned("task.start"),
        };
        self.initialize_with_topic(topic.as_str(), prompt_content);
    }

    /// Starts the loop again with `task.resume`, whatever the starting topic.
    pub fn initialize_resume(&mut self, prompt_content: &str)
        requires
            old(self).inv(),
        ensures
            final(self).inv(),
    {
        self.initialize_with_topic("task.resume", prompt_content);
    }

    fn initialize_with_topic(&mut self, topic: &str, prompt_content: &str)
        requires
            old(self).inv(),
        ensures
            final(self).inv(),
            topic@ == "task.start"@ ==> (final(self).st().triage_decision matches Some(d)
                && final(self).st().active_strategy matches Some(st)
                && bus_model(final(self).bus_view()) == publish_all(bus_model(old(self).bus_view()), start_events(prompt_content@, d, st))),
            topic@ != "task.start"@ ==> bus_model(final(self).bus_view()) == publish_step(
                bus_model(old(self).bus_view()),
                plain_view(topic@, prompt_content@),
            ),
            topic@ == "task.start"@ ==> {
                &&& final(self).st().triage_decision matches Some(d) && (d.mode, d.confidence)
                    == triage_of(lower_of(prompt_content@), prompt_content@.len())
                    && final(self).bus_view().mode() == Some(d.mode)
                &&& final(self).st().active_strategy matches Some(st) && st.tier == strategy_tier(
                    lower_of(prompt_content@),
                )
            },
    {
        let ghost b0 = bus_model(&self.bus);
        let mut triage: Option<TriageDecision> = None;
        if str_eq(topic, "task.start") {
            let decision = self.triage_hat.analyze(prompt_content);
            self.state.triage_decision = Some(decision.clone());
            let mut details = owned("Mode: ");
            push_str(
                &mut details,
                match decision.mode {
                    crate::triage::RoutingMode::Simple => "Simple",
                    crate::triage::RoutingMode::Full => "Full",
                },
            );
            push_str(&mut details, " | Reason: ");
            push_str(&mut details, decision.reason.as_str());
            push_str(&mut details, " | Confidence: ");
            push_str(&mut details, two_decimals(decision.confidence).as_str());
            self.audit.push((owned("TRIAGE_DECISION"), details));
            let payload = triage_to_json(&decision);
            let decision_event = Event::new("triage.decision", payload.as_str()).with_triage(
                decision.clone(),
            );
            let ghost v1 = decision_event@;
            self.bus.publish(decision_event);
            let ghost b1 = bus_model(&self.bus);
            let ghost mode = decision.mode;
            assert(self.bus.mode() == Some(mode));
            triage = Some(decision);
            let strategy = self.tea_hat.design_strategy(prompt_content);
            self.state.active_strategy = Some(strategy.clone());
            let mut sd = owned("Tier: ");
            push_str(&mut sd, strategy.tier.name());
            push_str(&mut sd, " | MinCoverage: ");
            push_str(&mut sd, u64_text(strategy.min_coverage as u64).as_str());
            push_str(&mut sd, "% | Categories: ");
            push_str(&mut sd, join_strings(&strategy.mandatory_categories, ", ").as_str());
            self.audit.push((owned("TEA_STRATEGY"), sd));
            let strategy_json = strategy_to_json(&strategy);
            let strategy_event = Event::new("test.strategy", strategy_json.as_str()).with_strategy(
                strategy,
            );
            let ghost v2 = strategy_event@;
            self.bus.publish(strategy_event);
            proof {
                assert(bus_model(&self.bus) == publish_step(publish_step(b0, v1), v2));
                let evs = start_events(
                    prompt_content@,
                    self.state.triage_decision.unwrap(),
                    self.state.active_strategy.unwrap(),
                );
                let e2 = evs.drop_last();
                let e1 = e2.drop_last();
                let e0 = e1.drop_last();
                assert(e0 =~= Seq::<EventView>::empty());
                assert(e1.last() == evs[0]);
                assert(e2.last() == evs[1]);
                assert(publish_all(b0, e0) == b0);
                assert(v1 == evs[0]);
                assert(v2 == evs[1]);
                assert(publish_all(b0, e1) == publish_step(b0, evs[0]));
                assert(bus_model(&self.bus) == publish_all(b0, e2));
                reveal_strlit("test.strategy");
                reveal_strlit("triage.decision");
                assert("test.strategy"@[1] != "triage.decision"@[1]);
            }
            assert(self.bus.mode() == Some(mode));
        }
        let mut start_event = Event::new(topic, prompt_content);
        match triage {
            Some(d) => {
                start_event = start_event.with_triage(d);
            },
            None => {},
        }
        let ghost m = self.bus.mode();
        let ghost bpre = bus_model(&self.bus);
        let ghost v3 = start_event@;
        self.bus.publish(start_event);
        proof {
            if topic@ == "task.start"@ {
                let d = self.state.triage_decision.unwrap();
                let st = self.state.active_strategy.unwrap();
                let evs = start_events(prompt_content@, d, st);
                assert(bpre == publish_all(b0, evs.drop_last()));
                assert(v3 == evs[2]);
            } else {
                assert(v3 == plain_view(topic@, prompt_content@));
            }
            if topic@ == "task.start"@ {
                reveal_strlit("task.start");
                reveal_strlit("triage.decision");
                assert(topic@[1] != "triage.decision"@[1]);
                assert(self.bus.mode() == m);
            }
        }
    }

    /// Recovers a stalled loop: publishes `task.resume` with a recovery note,
    /// targeted at the last hat when that is not `ralph`.
    pub fn inject_fallback_event(&mut self) -> (r: bool)
        requires
            old(self).inv(),
        ensures
            final(self).inv(),
            final(self).st() == old(self).st(),
            r,
            bus_model(final(self).bus_view()) == publish_step(
                bus_model(old(self).bus_view()),
                fallback_view(old(self).st().last_hat),
            ),
    {
        let mut e = Event::new(
            "task.resume",
            "RECOVERY: Previous iteration did not publish an event. Review the scratchpad and either dispatch the next task or complete the loop.",
        );
        match &self.state.last_hat {
            Some(h) => {
                if !str_eq(h.as_str(), "ralph") {
                    e.target = Some(h.clone());
                }
            },
            None => {},
        }
        self.bus.publish(e);
        true
    }

    /// Answers a pending completion request: none without one; in persistent
    /// mode `task.resume` is published and the loop goes on; else it completes.
    pub fn check_completion_event(&mut self) -> (r: Option<TerminationReason>)
        requires
            old(self).inv(),
        ensures
            final(self).inv(),
            !final(self).st().completion_requested,
            r == if old(self).st().completion_requested && !old(self).cfg().persistent {
                Some(TerminationReason::CompletionPromise)
            } else {
                None
            },
            bus_model(final(self).bus_view()) == if old(self).st().completion_requested
                && old(self).cfg().persistent {
                publish_step(bus_model(old(self).bus_view()), persistent_resume_view())
            } else {
                bus_model(old(self).bus_view())
            },
    {
        if !self.state.completion_requested {
            return None;
        }
        self.state.completion_requested = false;
        if self.config.persistent {
            let resume = Event::new(
                "task.resume",
                "Persistent mode: loop staying alive after completion signal. Check for new tasks or await human guidance.",
            );
            self.bus.publish(resume);
            return None;
        }
        Some(TerminationReason::CompletionPromise)
    }

    /// Publishes `loop.terminate` for `reason` to observers and returns it: the
    /// reason, its status, the iteration count, the duration and the exit code.
    pub fn publish_terminate_event(&mut self, reason: &TerminationReason) -> (r: Event)
        requires
            old(self).inv(),
        ensures
            final(self).inv(),
            r@ == plain_view(
                "loop.terminate"@,
                terminate_payload(*reason, old(self).st().iteration as nat, old(self).st().elapsed_seconds as nat),
            ),
            bus_model(final(self).bus_view()) == publish_step(bus_model(old(self).bus_view()), r@),
    {
        let mut payload = owned("## Reason\n");
        push_str(&mut payload, reason.as_str());
        push_str(&mut payload, "\n\n## Status\n");
        push_str(&mut payload, termination_status_text(reason));
        push_str(&mut payload, "\n\n## Summary\n- Iterations: ");
        push_str(&mut payload, u64_text(self.state.iteration as u64).as_str());
        push_str(&mut payload, "\n- Duration: ");
        push_str(&mut payload, format_duration(self.state.elapsed_seconds).as_str());
        push_str(&mut payload, "\n- Exit code: ");
        let code = reason.exit_code();
        assert(code >= 0);
        push_str(&mut payload, u64_text(code as u64).as_str());
        let event = Event::new("loop.terminate", payload.as_str());
        self.bus.publish(event.clone());
        event
    }
}


/// The text of the events `evs` in a prompt, and whether no event line has
/// been written yet: one line per event, human guidance as its own section.
pub open spec fn body_state(evs: Seq<EventView>) -> (Seq<char>, bool)
    decreases evs.len(),
{
    if evs.len() == 0 {
        (Seq::empty(), true)
    } else {
        let prev = body_state(evs.drop_last());
        let e = evs.last();
        if e.0 != "human.guidance"@ {
            (prev.0 + (if prev.1 { Seq::empty() } else { "\n"@ }) + event_line(e.0, e.1), false)
        } else {
            (prev.0 + "## HUMAN GUIDANCE\n"@ + e.1 + "\n\n"@, prev.1)
        }
    }
}

/// What a prompt holds before its events: the human decision to obey, the
/// skills text, and the scratchpad section.
pub open spec fn prompt_head(decision: Option<Seq<char>>, skills: Seq<char>, path: Seq<char>, pad: Seq<char>) -> Seq<char> {
    (match decision {
        Some(d) => decision_banner(d),
        None => Seq::empty(),
    }) + (if skills.len() > 0 { skills + "\n\n"@ } else { Seq::empty() })
        + crate::scratchpad::scratchpad_section(path, pad)
}

/// The directive that puts the human's decision `d` before everything else.
pub open spec fn decision_banner(d: Seq<char>) -> Seq<char> {
    "\n\n### SOVEREIGN COMMAND\n[HUMAN DECISION: Use Option "@ + d
        + "]\nYou MUST strictly adhere to this choice. Do not attempt to re-triage or suggest alternatives.\n\n"@
}

/// The topic and payload of each event.
pub open spec fn event_pairs(v: Seq<Event>) -> Seq<(Seq<char>, Seq<char>)> {
    v.map_values(|e: Event| (e.topic@, e.payload@))
}

/// The view of a plain event on `topic` with `payload` and nothing attached.
pub open spec fn plain_view(topic: Seq<char>, payload: Seq<char>) -> EventView {
    (topic, payload, None, None, None, None, None)
}

/// The `event.malformed` event for a malformed line.
pub open spec fn malformed_view(m: MalformedLine) -> EventView {
    plain_view(
        "event.malformed"@,
        "Line "@ + decimal_digits(m.line_number as nat) + ": "@ + m.error@ + "\nContent: "@ + m.content@,
    )
}

/// The `event.malformed` events for `ms`, in order.
pub open spec fn malformed_views(ms: Seq<MalformedLine>) -> Seq<EventView> {
    ms.map_values(|m: MalformedLine| malformed_view(m))
}

/// The `build.task.abandoned` event for the task `t`.
pub open spec fn abandoned_view(t: Seq<char>) -> EventView {
    plain_view(
        "build.task.abandoned"@,
        "Task '"@ + t + "' abandoned after 3 consecutive build.blocked events"@,
    )
}

/// The `build.task.abandoned` events for the tasks `ts`, in order.
pub open spec fn abandoned_views(ts: Seq<Seq<char>>) -> Seq<EventView> {
    ts.map_values(|t: Seq<char>| abandoned_view(t))
}

/// The view of an optional strategy.
pub open spec fn strategy_opt_view(s: Option<TestStrategy>) -> Option<<TestStrategy as View>::V> {
    match s {
        Some(x) => Some(x@),
        None => None,
    }
}

/// The event that the evidence filter publishes for the journal event `e`:
/// what `gate_of` makes of it, keeping the attached decision and strategy when
/// the topic passes unchanged.
pub open spec fn gated_view(e: JournalEvent, s: Option<<TestStrategy as View>::V>) -> EventView {
    let p = e.view_pair();
    let g = gate_of(p.0, p.1, s);
    (
        g.0,
        g.1,
        None,
        None,
        if g.0 == p.0 { triage_view(e.triage) } else { None },
        if g.0 == p.0 { strategy_opt_view(e.strategy) } else { None },
        None,
    )
}

/// The events published for the journal events `evs`, in order: completion
/// events are dropped, every other event goes through the evidence filter.
pub open spec fn gated_views(
    evs: Seq<JournalEvent>,
    completion: Seq<char>,
    s: Option<<TestStrategy as View>::V>,
) -> Seq<EventView>
    decreases evs.len(),
{
    if evs.len() == 0 {
        Seq::empty()
    } else {
        let prev = gated_views(evs.drop_last(), completion, s);
        if evs.last().topic@ == completion {
            prev
        } else {
            prev.push(gated_view(evs.last(), s))
        }
    }
}

/// The events that start a task with `prompt`: the triage decision `d`, the
/// strategy `s`, then `task.start` carrying the decision.
pub open spec fn start_events(prompt: Seq<char>, d: TriageDecision, s: TestStrategy) -> Seq<EventView> {
    let tv = Some((d.mode, d.reason@, d.confidence));
    seq![
        ("triage.decision"@, triage_json(d.mode, d.reason@, d.confidence), None, None, tv, None, None),
        ("test.strategy"@, strategy_json(s@), None, None, None, Some(s@), None),
        ("task.start"@, prompt, None, None, tv, None, None),
    ]
}

/// The `task.resume` that keeps a persistent loop alive after completion.
pub open spec fn persistent_resume_view() -> EventView {
    plain_view(
        "task.resume"@,
        "Persistent mode: loop staying alive after completion signal. Check for new tasks or await human guidance."@,
    )
}

/// The `task.resume` that recovers a stalled loop, targeted at the last hat
/// when that is not `ralph`.
pub open spec fn fallback_view(last_hat: Option<HatId>) -> EventView {
    (
        "task.resume"@,
        "RECOVERY: Previous iteration did not publish an event. Review the scratchpad and either dispatch the next task or complete the loop."@,
        None,
        match last_hat {
            Some(h) => if h@ != "ralph"@ { Some(h@) } else { None },
            None => None,
        },
        None,
        None,
        None,
    )
}

/// The payload of `loop.terminate`.
pub open spec fn terminate_payload(reason: TerminationReason, iterations: nat, seconds: nat) -> Seq<char> {
    "## Reason\n"@ + reason_name(reason) + "\n\n## Status\n"@ + status_text(reason)
        + "\n\n## Summary\n- Iterations: "@ + decimal_digits(iterations) + "\n- Duration: "@
        + duration_text(seconds) + "\n- Exit code: "@ + decimal_digits(exit_code_of(reason) as nat)
}

/// The settings of `id` among `settings`: the first entry for it.
pub open spec fn settings_for(settings: Seq<(Seq<char>, Option<u32>, Option<Seq<char>>)>, id: Seq<char>) -> Option<(Option<u32>, Option<Seq<char>>)>
    decreases settings.len(),
{
    if settings.len() == 0 {
        None
    } else if settings[0].0 == id {
        Some((settings[0].1, settings[0].2))
    } else {
        settings_for(settings.drop_first(), id)
    }
}

/// The activation limit configured for `id`.
pub open spec fn activation_limit(settings: Seq<(Seq<char>, Option<u32>, Option<Seq<char>>)>, id: Seq<char>) -> Option<u32> {
    match settings_for(settings, id) {
        Some(p) => p.0,
        None => None,
    }
}

/// The default topic configured for `id`.
pub open spec fn default_topic(settings: Seq<(Seq<char>, Option<u32>, Option<Seq<char>>)>, id: Seq<char>) -> Option<Seq<char>> {
    match settings_for(settings, id) {
        Some(p) => p.1,
        None => None,
    }
}

/// The view of an optional string.
pub open spec fn opt_view(o: Option<String>) -> Option<Seq<char>> {
    match o {
        Some(t) => Some(t@),
        None => None,
    }
}

/// The activation counts after one more activation of each of `ids`.
pub open spec fn bump_all(counts: Seq<(Seq<char>, u32)>, ids: Seq<Seq<char>>) -> Seq<(Seq<char>, u32)>
    decreases ids.len(),
{
    if ids.len() == 0 {
        counts
    } else {
        bump(bump_all(counts, ids.drop_last()), ids.last())
    }
}

/// Whether one of `hats` subscribes to `topic`.
pub open spec fn any_subscriber(hats: Seq<Hat>, topic: Seq<char>) -> bool {
    exists|k: int| 0 <= k < hats.len() && subscribed(#[trigger] hats[k].subs(), topic)
}

/// The payload of the first event of `vs` from `i` on whose topic is `topic`.
pub open spec fn first_payload_on(vs: Seq<(Seq<char>, Seq<char>)>, topic: Seq<char>, i: int) -> Option<Seq<char>>
    decreases vs.len() - i,
{
    if i < 0 || i >= vs.len() {
        None
    } else if vs[i].0 == topic {
        Some(vs[i].1)
    } else {
        first_payload_on(vs, topic, i + 1)
    }
}

/// The recovery records as text.
pub open spec fn recovery_pairs(v: Seq<RecoveryRecord>) -> Seq<(Seq<char>, Seq<char>)> {
    v.map_values(|r: RecoveryRecord| (r.task_id@, r.reason@))
}

/// The malformed-line counter after reading `m` malformed lines, reset when the
/// same read found a well-formed event.
pub open spec fn malformed_after(old_count: u32, m: nat, any_event: bool) -> u32 {
    if any_event {
        0
    } else {
        sat_add(old_count, m)
    }
}

impl EventLoop {
    /// Whether a custom hat subscribes to `topic`.
    pub open spec fn has_subscriber(&self, topic: Seq<char>) -> bool {
        any_subscriber(self.custom_hats(), topic)
    }

    fn has_subscriber_exec(&self, topic: &str) -> (r: bool)
        ensures
            r == self.has_subscriber(topic@),
    {
        let mut k: usize = 0;
        while k < self.registry.len()
            invariant
                k <= self.registry@.len(),
                forall|j: int| 0 <= j < k ==> !subscribed(#[trigger] self.registry@[j].subs(), topic@),
            decreases self.registry@.len() - k,
        {
            if self.registry[k].is_subscribed_str(topic) {
                assert(subscribed(self.custom_hats()[k as int].subs(), topic@));
                return true;
            }
            k += 1;
        }
        false
    }

    /// Counts one more block of `task` and abandons it on the third, as
    /// `thrash_step` states; an abandonment publishes `build.task.abandoned` and
    /// counts a redispatch.
    fn record_block(&mut self, task: String)
        requires
            old(self).inv(),
        ensures
            final(self).inv(),
            ({
                let step = thrash_step(old(self).st().counts(), old(self).st().abandoned(), task@);
                &&& final(self).st().counts() == step.0
                &&& final(self).st().abandoned() == step.1
                &&& final(self).st().abandoned_task_redispatches == if step.2 {
                    sat_inc(old(self).st().abandoned_task_redispatches)
                } else {
                    old(self).st().abandoned_task_redispatches
                }
            }),
            final(self).st().consecutive_malformed_events == old(self).st().consecutive_malformed_events,
            final(self).st().completion_requested == old(self).st().completion_requested,
            final(self).st().is_halted == old(self).st().is_halted,
            final(self).st().iteration == old(self).st().iteration,
            final(self).st().strategy_view() == old(self).st().strategy_view(),
            final(self).cfg() == old(self).cfg(),
            final(self).custom_hats() == old(self).custom_hats(),
            bus_model(final(self).bus_view()) == if thrash_step(old(self).st().counts(), old(self).st().abandoned(), task@).2 {
                publish_step(bus_model(old(self).bus_view()), abandoned_view(task@))
            } else {
                bus_model(old(self).bus_view())
            },
    {
        let ghost c0 = self.state.counts();
        let count: u32;
        match find_entry(&self.state.task_block_counts, task.as_str()) {
            Some(i) => {
                let c = self.state.task_block_counts[i].1;
                count = inc(c);
                let entry = (task.clone(), count);
                self.state.task_block_counts.set(i, entry);
                proof {
                    assert(self.state.counts() =~= bump(c0, task@));
                }
            },
            None => {
                count = 1;
                self.state.task_block_counts.push((task.clone(), 1));
                proof {
                    assert(self.state.counts() =~= bump(c0, task@));
                }
            },
        }
        proof {
            crate::thrash::lemma_bump(c0, task@, task@);
        }
        assert(count_of(self.state.counts(), task@) == count);
        if count >= 3 && !contains_string(&self.state.abandoned_tasks, task.as_str()) {
            let mut msg = owned("Task '");
            push_str(&mut msg, task.as_str());
            push_str(&mut msg, "' abandoned after 3 consecutive build.blocked events");
            let ghost a0 = self.state.abandoned();
            self.state.abandoned_tasks.push(task);
            assert(self.state.abandoned() =~= a0.push(task@));
            self.state.abandoned_task_redispatches = inc(self.state.abandoned_task_redispatches);
            self.bus.publish(Event::new("build.task.abandoned", msg.as_str()));
        }
    }

    /// Ingests one read of the journal.
    ///
    /// Each malformed line publishes `event.malformed` and counts toward the
    /// malformed-line counter, which a well-formed event in the same read resets.
    /// Events pass the evidence filter in journal order: a completion event is honoured only
    /// when it is last, and otherwise dropped; `build.done`, `review.done` and
    /// `verify.passed` without passing evidence become blocking events, and a
    /// blocked build halts the loop and is recorded for recovery. Each
    /// `build.blocked` counts toward thrashing. Then the gated events are published.
    pub fn process_events(&mut self, batch: ParseResult) -> (r: IngestOutcome)
        requires
            old(self).inv(),
        ensures
            final(self).inv(),
            final(self).st().consecutive_malformed_events == malformed_after(
                old(self).st().consecutive_malformed_events,
                batch.malformed@.len(),
                batch.events@.len() > 0,
            ),
            final(self).st().completion_requested == (old(self).st().completion_requested
                || completion_in(journal_pairs(batch.events@), old(self).cfg().completion_promise@)),
            event_pairs(r.published@) == gated(
                journal_pairs(batch.events@),
                old(self).cfg().completion_promise@,
                old(self).st().strategy_view(),
            ),
            recovery_pairs(r.recovery@) == recoveries(
                journal_pairs(batch.events@),
                old(self).cfg().completion_promise@,
                old(self).st().strategy_view(),
            ),
            final(self).st().is_halted == (old(self).st().is_halted || r.recovery@.len() > 0),
            ({
                let run = crate::thrash::thrash_run(
                    old(self).st().counts(),
                    old(self).st().abandoned(),
                    blocked_tasks(event_pairs(r.published@)),
                );
                &&& final(self).st().counts() == run.0
                &&& final(self).st().abandoned() == run.1
                &&& final(self).st().abandoned_task_redispatches == sat_add(
                    old(self).st().abandoned_task_redispatches,
                    run.2.len(),
                )
            }),
            final(self).st().iteration == old(self).st().iteration,
            final(self).cfg() == old(self).cfg(),
            match r.human_question {
                Some(q) => first_payload_on(event_pairs(r.published@), "human.interact"@, 0) == Some(q@),
                None => first_payload_on(event_pairs(r.published@), "human.interact"@, 0) is None,
            },
            r.has_orphans == exists|j: int|
                0 <= j < r.published@.len() && !old(self).has_subscriber(#[trigger] r.published@[j].topic@),
            event_views(r.published@) == gated_views(
                batch.events@,
                old(self).cfg().completion_promise@,
                old(self).st().strategy_view(),
            ),
            bus_model(final(self).bus_view()) == publish_all(
                bus_model(old(self).bus_view()),
                malformed_views(batch.malformed@) + abandoned_views(
                    crate::thrash::thrash_run(
                        old(self).st().counts(),
                        old(self).st().abandoned(),
                        blocked_tasks(event_pairs(r.published@)),
                    ).2,
                ) + gated_views(
                    batch.events@,
                    old(self).cfg().completion_promise@,
                    old(self).st().strategy_view(),
                ),
            ),
            bus_model(final(self).bus_view()) == ingest_bus(
                bus_model(old(self).bus_view()),
                old(self).st().counts(),
                old(self).st().abandoned(),
                old(self).st().strategy_view(),
                old(self).cfg().completion_promise@,
                batch.events@,
                batch.malformed@,
            ),
    {
        let ghost pairs = journal_pairs(batch.events@);
        let ghost b0 = bus_model(&self.bus);
        let ghost comp = self.config.completion_promise@;
        let ghost strat = self.state.strategy_view();
        let ghost m0 = self.state.consecutive_malformed_events;
        let ghost flag0 = self.state.completion_requested;
        let ghost halted0 = self.state.is_halted;
        let ghost counts0 = self.state.counts();
        let ghost abandoned0 = self.state.abandoned();
        let ghost red0 = self.state.abandoned_task_redispatches;
        let ghost cfg0 = self.config;
        let ghost hats0 = self.registry@;
        // Malformed lines.
        let mut i: usize = 0;
        while i < batch.malformed.len()
            invariant
                self.inv(),
                i <= batch.malformed@.len(),
                self.state.consecutive_malformed_events == sat_add(m0, i as nat),
                bus_model(&self.bus) == publish_all(b0, malformed_views(batch.malformed@.take(i as int))),
                self.state.completion_requested == flag0,
                self.state.is_halted == halted0,
                self.state.counts() == counts0,
                self.state.abandoned() == abandoned0,
                self.state.abandoned_task_redispatches == red0,
                self.state.strategy_view() == strat,
                self.state.iteration == old(self).st().iteration,
                self.config == cfg0,
                self.registry@ == hats0,
            decreases batch.malformed@.len() - i,
        {
            let m = &batch.malformed[i];
            let mut payload = owned("Line ");
            push_str(&mut payload, u64_text(m.line_number).as_str());
            push_str(&mut payload, ": ");
            push_str(&mut payload, m.error.as_str());
            push_str(&mut payload, "\nContent: ");
            push_str(&mut payload, m.content.as_str());
            let ghost before = bus_model(&self.bus);
            self.bus.publish(Event::new("event.malformed", payload.as_str()));
            proof {
                reveal_strlit("");
                let mv = malformed_views(batch.malformed@.take(i as int));
                assert(malformed_views(batch.malformed@.take(i + 1)) =~= mv.push(malformed_view(*m)));
                lemma_publish_all_push(b0, mv, malformed_view(*m));
            }
            self.state.consecutive_malformed_events = inc(self.state.consecutive_malformed_events);
            i += 1;
        }
        assert(batch.malformed@.take(i as int) =~= batch.malformed@);
        let ghost b1 = bus_model(&self.bus);
        if batch.events.len() > 0 {
            self.state.consecutive_malformed_events = 0;
        }
        let n = batch.events.len();
        let mut published: Vec<Event> = Vec::new();
        let mut recovery: Vec<RecoveryRecord> = Vec::new();
        let mut k: usize = 0;
        assert(pairs.take(0) =~= Seq::<(Seq<char>, Seq<char>)>::empty());
        assert(event_pairs(published@) =~= Seq::<(Seq<char>, Seq<char>)>::empty());
        assert(recovery_pairs(recovery@) =~= Seq::<(Seq<char>, Seq<char>)>::empty());
        assert(batch.events@.take(0) =~= Seq::<JournalEvent>::empty());
        assert(event_views(published@) =~= Seq::<EventView>::empty());
        while k < n
            invariant
                self.inv(),
                n == batch.events@.len(),
                pairs == journal_pairs(batch.events@),
                comp == self.config.completion_promise@,
                k <= n,
                event_pairs(published@) == gated(pairs.take(k as int), comp, strat),
                event_views(published@) == gated_views(batch.events@.take(k as int), comp, strat),
                bus_model(&self.bus) == b1,
                recovery_pairs(recovery@) == recoveries(pairs.take(k as int), comp, strat),
                self.state.completion_requested == (flag0 || (k == n && completion_in(pairs, comp))),
                self.state.is_halted == (halted0 || recovery@.len() > 0),
                self.state.consecutive_malformed_events == malformed_after(m0, batch.malformed@.len(), n > 0),
                self.state.counts() == counts0,
                self.state.abandoned() == abandoned0,
                self.state.abandoned_task_redispatches == red0,
                self.state.strategy_view() == strat,
                self.state.iteration == old(self).st().iteration,
                self.config == cfg0,
                self.registry@ == hats0,
            decreases n - k,
        {
            let ev = &batch.events[k];
            let topic = ev.topic.as_str();
            let payload = match &ev.payload {
                Some(p) => p.clone(),
                None => owned(""),
            };
            proof {
                reveal_strlit("");
                assert(pairs.take(k + 1).drop_last() =~= pairs.take(k as int));
                assert(pairs.take(k + 1).last() == pairs[k as int]);
                assert(pairs[k as int] == ev.view_pair());
                assert(payload@ == ev.view_pair().1);
                assert(batch.events@.take(k + 1).drop_last() =~= batch.events@.take(k as int));
                assert(batch.events@.take(k + 1).last() == *ev);
            }
            if str_eq(topic, self.config.completion_promise.as_str()) {
                if k + 1 == n {
                    self.state.completion_requested = true;
                    assert(pairs.last() == pairs[k as int]);
                }
            } else {
                let g = gate_event(topic, payload.as_str(), &self.state.active_strategy);
                let ghost pp = event_pairs(published@);
                let ghost pv = event_views(published@);
                let ghost rp = recovery_pairs(recovery@);
                let mut e = Event::new(g.0.as_str(), g.1.as_str());
                if str_eq(g.0.as_str(), topic) {
                    match &ev.triage {
                        Some(d) => {
                            e.triage = Some(d.clone());
                        },
                        None => {},
                    }
                    match &ev.strategy {
                        Some(st) => {
                            e.strategy = Some(st.clone());
                        },
                        None => {},
                    }
                }
                assert(e@ == gated_view(*ev, strat));
                published.push(e);
                assert(event_pairs(published@) =~= pp.push((g.0@, g.1@)));
                assert(event_views(published@) =~= pv.push(gated_view(*ev, strat)));
                match g.2 {
                    Some(rec) => {
                        let mut note = owned("Backpressure failure: ");
                        push_str(&mut note, rec.reason.as_str());
                        let ghost rv = (rec.task_id@, rec.reason@);
                        recovery.push(rec);
                        assert(recovery_pairs(recovery@) =~= rp.push(rv));
                        self.state.is_halted = true;
                        self.audit.push((owned("LOOP_HALTED"), note));
                    },
                    None => {},
                }
            }
            proof {
                if k + 1 == n && pairs[k as int].0 != comp {
                    assert(pairs.last() == pairs[k as int]);
                }
            }
            k += 1;
        }
        assert(pairs.take(n as int) =~= pairs);
        assert(batch.events@.take(n as int) =~= batch.events@);
        // Thrashing.
        let ghost vp = event_pairs(published@);
        let ghost gv = event_views(published@);
        let mut j: usize = 0;
        assert(abandoned_views(Seq::<Seq<char>>::empty()) =~= Seq::<EventView>::empty());
        assert(blocked_tasks(vp.take(0)) =~= Seq::<Seq<char>>::empty()) by {
            assert(vp.take(0) =~= Seq::<(Seq<char>, Seq<char>)>::empty());
        }
        assert(vp.take(0) =~= Seq::<(Seq<char>, Seq<char>)>::empty());
        while j < published.len()
            invariant
                self.inv(),
                vp == event_pairs(published@),
                j <= published@.len(),
                ({
                    let run = crate::thrash::thrash_run(counts0, abandoned0, blocked_tasks(vp.take(j as int)));
                    &&& self.state.counts() == run.0
                    &&& self.state.abandoned() == run.1
                    &&& self.state.abandoned_task_redispatches == sat_add(red0, run.2.len())
                    &&& bus_model(&self.bus) == publish_all(b1, abandoned_views(run.2))
                }),
                self.state.completion_requested == (flag0 || completion_in(pairs, comp)),
                self.state.is_halted == (halted0 || recovery@.len() > 0),
                self.state.consecutive_malformed_events == malformed_after(m0, batch.malformed@.len(), n > 0),
                self.state.strategy_view() == strat,
                self.state.iteration == old(self).st().iteration,
                self.config == cfg0,
                self.registry@ == hats0,
            decreases published@.len() - j,
        {
            let e = &published[j];
            proof {
                assert(vp.take(j + 1).drop_last() =~= vp.take(j as int));
                assert(vp.take(j + 1).last() == vp[j as int]);
            }
            if str_eq(e.topic.as_str(), "build.blocked") {
                let task = extract_task_id(e.payload.as_str());
                let ghost before = crate::thrash::thrash_run(counts0, abandoned0, blocked_tasks(vp.take(j as int)));
                let ghost tv = task@;
                self.record_block(task);
                proof {
                    let ts = blocked_tasks(vp.take(j + 1));
                    assert(ts.drop_last() =~= blocked_tasks(vp.take(j as int)));
                    assert(ts.last() == tv);
                    let after = crate::thrash::thrash_run(counts0, abandoned0, ts);
                    if crate::thrash::thrash_step(before.0, before.1, tv).2 {
                        assert(after.2 == before.2.push(tv));
                        assert(abandoned_views(after.2) =~= abandoned_views(before.2).push(abandoned_view(tv)));
                        lemma_publish_all_push(b1, abandoned_views(before.2), abandoned_view(tv));
                    }
                }
            }
            j += 1;
        }
        assert(vp.take(published@.len() as int) =~= vp);
        let ghost b2 = bus_model(&self.bus);
        // The first question for a human.
        let mut human_question: Option<String> = None;
        let mut q: usize = 0;
        while q < published.len() && human_question.is_none()
            invariant
                q <= published@.len(),
                vp == event_pairs(published@),
                human_question is None ==> first_payload_on(vp, "human.interact"@, 0) == first_payload_on(vp, "human.interact"@, q as int),
                human_question matches Some(hq) ==> first_payload_on(vp, "human.interact"@, 0) == Some(hq@),
            decreases published@.len() - q,
        {
            assert(vp[q as int] == (published@[q as int].topic@, published@[q as int].payload@));
            if str_eq(published[q].topic.as_str(), "human.interact") {
                human_question = Some(published[q].payload.clone());
            }
            q += 1;
        }
        // Route.
        let mut has_orphans = false;
        let ghost st_fin = self.state;
        let mut p: usize = 0;
        assert(gv.take(0) =~= Seq::<EventView>::empty());
        while p < published.len()
            invariant
                self.inv(),
                p <= published@.len(),
                self.state == st_fin,
                self.config == cfg0,
                self.registry@ == hats0,
                has_orphans == exists|j: int| 0 <= j < p && !any_subscriber(hats0, #[trigger] published@[j].topic@),
                gv == event_views(published@),
                bus_model(&self.bus) == publish_all(b2, gv.take(p as int)),
            decreases published@.len() - p,
        {
            if !self.has_subscriber_exec(published[p].topic.as_str()) {
                has_orphans = true;
            }
            proof {
                if !any_subscriber(hats0, published@[p as int].topic@) {
                    assert(exists|j: int| 0 <= j < p + 1 && !any_subscriber(hats0, #[trigger] published@[j].topic@));
                }
            }
            let copy = published[p].clone();
            self.bus.publish(copy);
            proof {
                assert(gv.take(p + 1) =~= gv.take(p as int).push(gv[p as int]));
                lemma_publish_all_push(b2, gv.take(p as int), gv[p as int]);
            }
            p += 1;
        }
        proof {
            assert(gv.take(p as int) =~= gv);
            let run = crate::thrash::thrash_run(counts0, abandoned0, blocked_tasks(vp));
            lemma_publish_all_concat(b0, malformed_views(batch.malformed@), abandoned_views(run.2));
            lemma_publish_all_concat(b0, malformed_views(batch.malformed@) + abandoned_views(run.2), gv);
        }
        IngestOutcome { has_orphans, recovery, human_question, published }
    }
}


impl EventLoop {
    /// Composes the prompt for `hat_id`, or none while the recovery queue blocks
    /// the loop, which is then halted and its events stay pending.
    ///
    /// `ralph` takes the pending events of every hat and the human events; any
    /// other hat takes its own. The prompt holds, in order: the human decision
    /// to obey, if one is pending; `skills`; the scratchpad section; the events,
    /// one per line.
    pub fn build_prompt(
        &mut self,
        hat_id: &HatId,
        recovery_blocked: bool,
        skills: &str,
        scratchpad_path: &str,
        scratchpad: &str,
    ) -> (r: Option<String>)
        requires
            old(self).inv(),
        ensures
            final(self).inv(),
            final(self).st().is_halted == recovery_blocked,
            recovery_blocked ==> r is None && final(self).bus_view() == old(self).bus_view(),
            !recovery_blocked ==> r is Some && final(self).st().human_decision is None,
            !recovery_blocked && old(self).st().human_decision is Some ==> has_prefix(
                r.unwrap()@,
                decision_banner(old(self).st().human_decision.unwrap()@),
            ),
            !recovery_blocked ==> forall|h: Seq<char>|
                string_views(old(self).st().exhausted_hats@).contains(h) ==> string_views(
                    final(self).st().exhausted_hats@,
                ).contains(h),
            !recovery_blocked && string_views(old(self).st().exhausted_hats@).no_duplicates()
                ==> string_views(final(self).st().exhausted_hats@).no_duplicates(),
            !recovery_blocked ==> has_prefix(
                r.unwrap()@,
                prompt_head(opt_view(old(self).st().human_decision), skills@, scratchpad_path@, scratchpad@),
            ),
            !recovery_blocked && hat_id@ != "ralph"@ ==> ({
                let ids = ids_of(old(self).bus_view().hat_list());
                let taken = if ids.contains(hat_id@) {
                    old(self).bus_view().queues()[ids.index_of(hat_id@)]
                } else {
                    Seq::empty()
                };
                &&& r.unwrap()@ == prompt_head(
                    opt_view(old(self).st().human_decision),
                    skills@,
                    scratchpad_path@,
                    scratchpad@,
                ) + body_state(taken).0
                &&& final(self).bus_view().queues() == if ids.contains(hat_id@) {
                    old(self).bus_view().queues().update(ids.index_of(hat_id@), Seq::empty())
                } else {
                    old(self).bus_view().queues()
                }
                &&& final(self).bus_view().hat_list() == old(self).bus_view().hat_list()
            }),
    {
        if recovery_blocked {
            self.state.is_halted = true;
            return None;
        }
        self.state.is_halted = false;
        let mut events: Vec<Event> = Vec::new();
        if str_eq(hat_id.as_str(), "ralph") {
            let registered = self.bus.hat_ids();
            let mut names: Vec<String> = Vec::new();
            let mut n: usize = 0;
            while n < registered.len()
                invariant
                    n <= registered@.len(),
                decreases registered@.len() - n,
            {
                names.push(owned(registered[n].as_str()));
                n += 1;
            }
            let names = sort_texts(names);
            let mut ids: Vec<HatId> = Vec::new();
            let mut n: usize = 0;
            while n < names.len()
                invariant
                    n <= names@.len(),
                decreases names@.len() - n,
            {
                ids.push(HatId::new(names[n].as_str()));
                n += 1;
            }
            let mut k: usize = 0;
            let mut system_events: Vec<Event> = Vec::new();
            while k < ids.len()
                invariant
                    self.inv(),
                    k <= ids@.len(),
                    !self.state.is_halted,
                    self.state.human_decision == old(self).st().human_decision,
                    forall|h: Seq<char>|
                        string_views(old(self).st().exhausted_hats@).contains(h) ==> string_views(
                            self.state.exhausted_hats@,
                        ).contains(h),
                    string_views(old(self).st().exhausted_hats@).no_duplicates() ==> string_views(
                        self.state.exhausted_hats@,
                    ).no_duplicates(),
                decreases ids@.len() - k,
            {
                let ghost ex_before = string_views(self.state.exhausted_hats@);
                let mut taken = self.bus.take_pending(&ids[k]);
                if taken.len() > 0 {
                    let mut keep = true;
                    if self.registry.len() > 0 {
                        let (drop, exhausted) = self.check_hat_exhaustion(&ids[k], &taken);
                        proof {
                            let ex_after = string_views(self.state.exhausted_hats@);
                            if exhausted is Some {
                                assert forall|h: Seq<char>| ex_before.contains(h) implies ex_after.contains(h) by {
                                    let q = choose|q: int| 0 <= q < ex_before.len() && ex_before[q] == h;
                                    assert(ex_after[q] == h);
                                }
                                if ex_before.no_duplicates() {
                                    assert forall|a: int, b: int| 0 <= a < ex_after.len() && 0 <= b < ex_after.len() && a != b implies ex_after[a] != ex_after[b] by {
                                        if a < ex_before.len() && b < ex_before.len() {
                                        } else if a < ex_before.len() {
                                            assert(ex_before.contains(ex_before[a]));
                                        } else {
                                            assert(ex_before.contains(ex_before[b]));
                                        }
                                    }
                                }
                            } else {
                                assert(ex_after == ex_before);
                            }
                        }
                        if drop {
                            keep = false;
                            match exhausted {
                                Some(e) => {
                                    events.push(e.clone());
                                    system_events.push(e);
                                },
                                None => {},
                            }
                        }
                    }
                    if keep {
                        events.append(&mut taken);
                    }
                }
                k += 1;
            }
            let mut human = self.bus.take_human_pending();
            events.append(&mut human);
            let mut q: usize = 0;
            let ghost st1 = self.state;
            while q < system_events.len()
                invariant
                    self.inv(),
                    q <= system_events@.len(),
                    !self.state.is_halted,
                    self.state.human_decision == old(self).st().human_decision,
                    self.state == st1,
                decreases system_events@.len() - q,
            {
                self.bus.publish(system_events[q].clone());
                q += 1;
            }
            if self.registry.len() > 0 {
                let mut active: Vec<String> = Vec::new();
                let mut q: usize = 0;
                while q < events.len()
                    invariant
                        q <= events@.len(),
                    decreases events@.len() - q,
                {
                    if !str_eq(events[q].topic.as_str(), "human.guidance") {
                        match self.get_for_topic(events[q].topic.as_str()) {
                            Some(h) => {
                                let id = self.registry[h].id.as_str();
                                if !contains_string(&active, id) {
                                    active.push(owned(id));
                                }
                            },
                            None => {},
                        }
                    }
                    q += 1;
                }
                self.record_hat_activations(&active);
            }
        } else {
            events = self.bus.take_pending(hat_id);
        }
        let ghost exm = self.state.exhausted_hats;
        let mut prompt = owned("");
        proof {
            reveal_strlit("");
        }
        let ghost old_decision = self.state.human_decision;
        let decision = self.state.human_decision.take();
        match decision {
            Some(d) => {
                push_str(&mut prompt, "\n\n### SOVEREIGN COMMAND\n[HUMAN DECISION: Use Option ");
                push_str(&mut prompt, d.as_str());
                push_str(
                    &mut prompt,
                    "]\nYou MUST strictly adhere to this choice. Do not attempt to re-triage or suggest alternatives.\n\n",
                );
            },
            None => {},
        }
        let ghost after_banner = prompt@;
        assert(old_decision is Some ==> after_banner == decision_banner(old_decision.unwrap()@));
        assert(old_decision is None ==> after_banner =~= Seq::<char>::empty());
        if !skills.is_empty() {
            push_str(&mut prompt, skills);
            push_str(&mut prompt, "\n\n");
        }
        push_str(
            &mut prompt,
            crate::scratchpad::scratchpad_section_of(scratchpad_path, scratchpad).as_str(),
        );
        let mut first = true;
        let mut k: usize = 0;
        let ghost head = prompt@;
        assert(head.subrange(0, after_banner.len() as int) =~= after_banner);
        assert(head =~= prompt_head(opt_view(old_decision), skills@, scratchpad_path@, scratchpad@));
        let ghost ev = event_views(events@);
        let ghost qmid = self.bus.queues();
        let ghost hmid = self.bus.hat_list();
        assert(ev.take(0) =~= Seq::<EventView>::empty());
        assert(prompt@ =~= head + body_state(ev.take(0)).0);
        while k < events.len()
            invariant
                k <= events@.len(),
                ev == event_views(events@),
                self.inv(),
                self.state.is_halted == recovery_blocked,
                self.state.human_decision is None,
                self.state.exhausted_hats == exm,
                self.bus.queues() == qmid,
                self.bus.hat_list() == hmid,
                prompt@.len() >= head.len(),
                prompt@.subrange(0, head.len() as int) == head,
                prompt@ == head + body_state(ev.take(k as int)).0,
                first == body_state(ev.take(k as int)).1,
            decreases events@.len() - k,
        {
            assert(ev.take(k + 1).drop_last() =~= ev.take(k as int));
            assert(ev.take(k + 1).last() == events@[k as int]@);
            let ghost before = prompt@;
            if !str_eq(events[k].topic.as_str(), "human.guidance") {
                if !first {
                    push_str(&mut prompt, "\n");
                }
                push_str(&mut prompt, format_event(&events[k]).as_str());
                first = false;
            } else {
                self.guidance.push(events[k].payload.clone());
                let mut g = owned("## HUMAN GUIDANCE\n");
                push_str(&mut g, events[k].payload.as_str());
                push_str(&mut g, "\n\n");
                push_str(&mut prompt, g.as_str());
            }
            assert(prompt@.subrange(0, before.len() as int) =~= before);
            assert(prompt@.subrange(0, head.len() as int) =~= before.subrange(0, head.len() as int));
            proof {
                reveal_strlit("");
                assert(prompt@ =~= head + body_state(ev.take(k + 1)).0);
            }
            k += 1;
        }
        assert(ev.take(k as int) =~= ev);
        proof {
            if old_decision is Some {
                let b = decision_banner(old_decision.unwrap()@);
                assert(prompt@.subrange(0, head.len() as int).subrange(0, b.len() as int) =~= prompt@.subrange(0, b.len() as int));
            }
        }
        Some(prompt)
    }
}


/// The index of the first event of `events` on topic `user.prompt`.
pub open spec fn first_user_prompt(events: Seq<Event>, i: int) -> Option<int>
    decreases events.len() - i,
{
    if i < 0 || i >= events.len() {
        None
    } else if events[i].topic@ == "user.prompt"@ {
        Some(i)
    } else {
        first_user_prompt(events, i + 1)
    }
}

impl EventLoop {
    /// The first `user.prompt` among `events`: its text is the payload, its id
    /// the payload's `id="..."` attribute, or else `fallback_id`.
    pub fn check_for_user_prompt(&self, events: &[Event], fallback_id: &str) -> (r: Option<
        UserPrompt,
    >)
        ensures
            match first_user_prompt(events@, 0) {
                Some(i) => r matches Some(p) && p.text@ == events@[i].payload@ && p.id@ == match attr_of(
                    events@[i].payload@,
                    "id"@,
                ) {
                    Some(v) => v,
                    None => fallback_id@,
                },
                None => r is None,
            },
    {
        let mut i: usize = 0;
        while i < events.len()
            invariant
                i <= events@.len(),
                first_user_prompt(events@, 0) == first_user_prompt(events@, i as int),
            decreases events@.len() - i,
        {
            if str_eq(events[i].topic.as_str(), "user.prompt") {
                let payload = events[i].payload.as_str();
                let id = match EventParser::extract_attr(payload, "id") {
                    Some(v) => v,
                    None => owned(fallback_id),
                };
                return Some(UserPrompt { id, text: owned(payload) });
            }
            i += 1;
        }
        None
    }
}


/// The first of `hats` from `i` on that subscribes to `topic`.
pub open spec fn hat_for_topic(hats: Seq<Hat>, topic: Seq<char>, i: int) -> Option<int>
    decreases hats.len() - i,
{
    if i < 0 || i >= hats.len() {
        None
    } else if subscribed(hats[i].subs(), topic) {
        Some(i)
    } else {
        hat_for_topic(hats, topic, i + 1)
    }
}

impl EventLoop {
    /// The custom hat that handles `topic`: the first one subscribed to it.
    pub fn get_for_topic(&self, topic: &str) -> (r: Option<usize>)
        ensures
            match r {
                Some(k) => k < self.custom_hats().len() && hat_for_topic(self.custom_hats(), topic@, 0) == Some(k as int),
                None => hat_for_topic(self.custom_hats(), topic@, 0) is None,
            },
    {
        let mut k: usize = 0;
        while k < self.registry.len()
            invariant
                k <= self.registry@.len(),
                hat_for_topic(self.registry@, topic@, 0) == hat_for_topic(self.registry@, topic@, k as int),
            decreases self.registry@.len() - k,
        {
            if self.registry[k].is_subscribed_str(topic) {
                return Some(k);
            }
            k += 1;
        }
        None
    }

    /// The topics the custom hat `hat_id` publishes; none for an unknown hat.
    pub fn get_hat_publishes(&self, hat_id: &HatId) -> (r: Vec<String>)
        ensures
            (exists|k: int| 0 <= k < self.custom_hats().len() && (#[trigger] self.custom_hats()[k]).id@ == hat_id@)
                || r@.len() == 0,
            forall|k: int|
                0 <= k < self.custom_hats().len() && (#[trigger] self.custom_hats()[k]).id@ == hat_id@
                    && (forall|j: int| 0 <= j < k ==> self.custom_hats()[j].id@ != hat_id@) ==> string_views(r@)
                    == self.custom_hats()[k].pubs(),
    {
        let mut k: usize = 0;
        while k < self.registry.len()
            invariant
                k <= self.registry@.len(),
                forall|j: int| 0 <= j < k ==> self.registry@[j].id@ != hat_id@,
            decreases self.registry@.len() - k,
        {
            if self.registry[k].id.same(hat_id) {
                assert(self.custom_hats()[k as int].id@ == hat_id@);
                let h = &self.registry[k];
                let mut r: Vec<String> = Vec::new();
                let mut i: usize = 0;
                while i < h.publishes.len()
                    invariant
                        i <= h.publishes@.len(),
                        string_views(r@) == h.pubs().take(i as int),
                    decreases h.publishes@.len() - i,
                {
                    let ghost prev = r@;
                    r.push(h.publishes[i].to_text());
                    assert(string_views(r@) =~= string_views(prev).push(h.publishes@[i as int]@));
                    i += 1;
                    assert(h.pubs().take(i as int) =~= h.pubs().take(i - 1).push(h.publishes@[i - 1]@));
                }
                assert(h.pubs().take(i as int) =~= h.pubs());
                proof {
                    assert forall|q: int|
                        0 <= q < self.custom_hats().len() && (#[trigger] self.custom_hats()[q]).id@ == hat_id@
                            && (forall|j: int| 0 <= j < q ==> self.custom_hats()[j].id@ != hat_id@) implies q == k by {
                        if q < k {
                        } else if q > k {
                            assert(self.custom_hats()[k as int].id@ == hat_id@);
                        }
                    }
                }
                return r;
            }
            k += 1;
        }
        Vec::new()
    }

    /// Whether the agent output tags an event on the completion topic.
    pub fn check_ralph_completion(&self, output: &str) -> (r: bool)
        ensures
            r == exists|k: int|
                0 <= k < crate::parser::tags_from(output@, 0).len() && (#[trigger] crate::parser::tags_from(output@, 0)[k]).0
                    == self.cfg().completion_promise@,
    {
        let events = EventParser::new().parse(output);
        let ghost tags = crate::parser::tags_from(output@, 0);
        assert(events@.map_values(|e: Event| crate::parser::tag_of(e)) == tags);
        assert(tags.len() == events@.len());
        let mut k: usize = 0;
        while k < events.len()
            invariant
                k <= events@.len(),
                events@.map_values(|e: Event| crate::parser::tag_of(e)) == tags,
                tags == crate::parser::tags_from(output@, 0),
                tags.len() == events@.len(),
                forall|j: int| 0 <= j < k ==> tags[j].0 != self.cfg().completion_promise@,
            decreases events@.len() - k,
        {
            assert(tags[k as int] == crate::parser::tag_of(events@[k as int]));
            if str_eq(events[k].topic.as_str(), self.config.completion_promise.as_str()) {
                assert(tags[k as int].0 == self.cfg().completion_promise@);
                return true;
            }
            k += 1;
        }
        false
    }

    /// The name of the active strategy's tier, or `Unknown`.
    pub fn current_risk_tier(&self) -> (r: String)
        ensures
            r@ == match self.st().active_strategy {
                Some(s) => crate::tea::tier_name(s.tier),
                None => "Unknown"@,
            },
    {
        match &self.state.active_strategy {
            Some(s) => owned(s.tier.name()),
            None => owned("Unknown"),
        }
    }

    /// The task in progress; task tracking is not finer than this.
    pub fn active_task_id(&self) -> (r: String)
        ensures
            r@ == "pending"@,
    {
        owned("pending")
    }

    /// The custom hat that handles the first pending event of the first hat,
    /// in bus order, that has one with a handler; else `ralph`.
    pub fn get_active_hat_id(&self) -> (r: HatId)
        requires
            self.inv(),
    {
        let ids = self.bus.hat_ids();
        let mut k: usize = 0;
        while k < ids.len()
            invariant
                k <= ids@.len(),
                self.bus.wf(),
            decreases ids@.len() - k,
        {
            match self.bus.peek_pending(&ids[k]) {
                Some(events) => {
                    if events.len() > 0 {
                        match self.get_for_topic(events[0].topic.as_str()) {
                            Some(h) => {
                                return self.registry[h].id.clone();
                            },
                            None => {},
                        }
                    }
                },
                None => {},
            }
            k += 1;
        }
        HatId::new("ralph")
    }
}


/// `v` sorted in text order.
pub fn sort_texts(v: Vec<String>) -> (r: Vec<String>)
    ensures
        r@.len() == v@.len(),
        forall|i: int, j: int| 0 <= i < j < r@.len() ==> !crate::skills::text_lt(r@[j]@, r@[i]@),
{
    let mut r: Vec<String> = Vec::new();
    let mut k: usize = 0;
    while k < v.len()
        invariant
            k <= v@.len(),
            r@.len() == k,
            forall|i: int, j: int| 0 <= i < j < r@.len() ==> !crate::skills::text_lt(r@[j]@, r@[i]@),
        decreases v@.len() - k,
    {
        let x = v[k].clone();
        let xc = chars_of(x.as_str());
        let mut pos: usize = 0;
        while pos < r.len() && !crate::skills::text_lt_exec(xc.as_slice(), chars_of(r[pos].as_str()).as_slice())
            invariant
                pos <= r@.len(),
                xc@ == x@,
                forall|i: int| 0 <= i < pos ==> !crate::skills::text_lt(x@, r@[i]@),
            decreases r@.len() - pos,
        {
            pos += 1;
        }
        let ghost before = r@;
        proof {
            assert forall|i: int| pos <= i < before.len() implies !crate::skills::text_lt(before[i]@, x@) by {
                assert(crate::skills::text_lt(x@, before[pos as int]@));
                if crate::skills::text_lt(before[i]@, x@) {
                    crate::skills::lemma_lt_transitive(before[i]@, x@, before[pos as int]@);
                    if i == pos {
                        crate::skills::lemma_lt_irreflexive(before[i]@);
                    }
                }
            }
        }
        r.insert(pos, x);
        proof {
            assert forall|i: int, j: int| 0 <= i < j < r@.len() implies !crate::skills::text_lt(r@[j]@, r@[i]@) by {
                if j < pos {
                    assert(r@[i] == before[i] && r@[j] == before[j]);
                } else if j == pos {
                    assert(r@[i] == before[i]);
                } else if i < pos {
                    assert(r@[i] == before[i] && r@[j] == before[j - 1]);
                } else if i == pos {
                    assert(r@[j] == before[j - 1]);
                } else {
                    assert(r@[i] == before[i - 1] && r@[j] == before[j - 1]);
                }
            }
        }
        k += 1;
    }
    r
}

impl EventLoop {
    /// Sets the activation limit and the default topic of the hat `hat_id`.
    pub fn configure_hat(&mut self, hat_id: &str, settings: HatSettings)
        requires
            old(self).inv(),
        ensures
            final(self).inv(),
            final(self).st() == old(self).st(),
            settings_for(final(self).settings_view(), hat_id@) == Some((settings.max_activations, opt_view(settings.default_publishes))),
            forall|other: Seq<char>| other != hat_id@ ==> settings_for(final(self).settings_view(), other) == settings_for(old(self).settings_view(), other),
    {
        let ghost sv = (hat_id@, settings.max_activations, opt_view(settings.default_publishes));
        let ghost old_view = self.settings_view();
        let entry = (owned(hat_id), settings);
        self.settings.insert(0, entry);
        proof {
            assert(self.settings_view() =~= seq![sv] + old_view);
            assert((seq![sv] + old_view).drop_first() =~= old_view);
        }
    }

    fn settings_of(&self, hat_id: &str) -> (r: Option<&HatSettings>)
        ensures
            match r {
                Some(st) => settings_for(self.settings_view(), hat_id@) == Some((st.max_activations, opt_view(st.default_publishes))),
                None => settings_for(self.settings_view(), hat_id@) is None,
            },
    {
        let ghost sv = self.settings_view();
        let mut k: usize = 0;
        assert(sv.skip(0) =~= sv);
        while k < self.settings.len()
            invariant
                k <= self.settings@.len(),
                sv == self.settings_view(),
                settings_for(sv, hat_id@) == settings_for(sv.skip(k as int), hat_id@),
            decreases self.settings@.len() - k,
        {
            assert(sv.skip(k as int)[0] == sv[k as int]);
            if str_eq(self.settings[k].0.as_str(), hat_id) {
                return Some(&self.settings[k].1);
            }
            assert(sv.skip(k as int).drop_first() =~= sv.skip(k + 1));
            k += 1;
        }
        None
    }

    /// Whether the hat `hat_id` has reached its activation limit. Its pending
    /// events are then dropped; the first time, `<hat>.exhausted` is returned,
    /// listing the dropped topics in order.
    pub fn check_hat_exhaustion(&mut self, hat_id: &HatId, dropped: &Vec<Event>) -> (r: (bool, Option<Event>))
        requires
            old(self).inv(),
        ensures
            final(self).inv(),
            r.1 matches Some(e) ==> r.0 && e.topic@ == hat_id@ + ".exhausted"@ && string_views(
                final(self).st().exhausted_hats@,
            ) == string_views(old(self).st().exhausted_hats@).push(hat_id@),
            string_views(old(self).st().exhausted_hats@).contains(hat_id@) ==> r.1 is None,
            r.1 is None ==> final(self).st().exhausted_hats@ == old(self).st().exhausted_hats@,
            final(self).st().iteration == old(self).st().iteration,
            final(self).st().counts() == old(self).st().counts(),
            final(self).st().consecutive_malformed_events == old(self).st().consecutive_malformed_events,
            final(self).st().is_halted == old(self).st().is_halted,
            final(self).st().human_decision == old(self).st().human_decision,
            r.0 == (activation_limit(old(self).settings_view(), hat_id@) is Some && count_of(
                old(self).st().activations(),
                hat_id@,
            ) >= activation_limit(old(self).settings_view(), hat_id@).unwrap()),
            r.1 is Some <==> (r.0 && !string_views(old(self).st().exhausted_hats@).contains(hat_id@)),
    {
        let max = match self.settings_of(hat_id.as_str()) {
            Some(st) => match st.max_activations {
                Some(m) => m,
                None => {
                    return (false, None);
                },
            },
            None => {
                return (false, None);
            },
        };
        let count = match find_entry(&self.state.hat_activation_counts, hat_id.as_str()) {
            Some(i) => self.state.hat_activation_counts[i].1,
            None => 0,
        };
        if count < max {
            return (false, None);
        }
        if contains_string(&self.state.exhausted_hats, hat_id.as_str()) {
            return (true, None);
        }
        let ghost before = self.state.exhausted_hats@;
        self.state.exhausted_hats.push(owned(hat_id.as_str()));
        assert(string_views(self.state.exhausted_hats@) =~= string_views(before).push(hat_id@));
        let mut topics: Vec<String> = Vec::new();
        let mut k: usize = 0;
        while k < dropped.len()
            invariant
                k <= dropped@.len(),
            decreases dropped@.len() - k,
        {
            topics.push(dropped[k].topic.to_text());
            k += 1;
        }
        let topics = sort_texts(topics);
        let mut payload = owned("Hat '");
        push_str(&mut payload, hat_id.as_str());
        push_str(&mut payload, "' exhausted.\n- max_activations: ");
        push_str(&mut payload, u64_text(max as u64).as_str());
        push_str(&mut payload, "\n- activations: ");
        push_str(&mut payload, u64_text(count as u64).as_str());
        push_str(&mut payload, "\n- dropped_topics:\n  - ");
        push_str(&mut payload, join_strings(&topics, "\n  - ").as_str());
        let mut topic = owned(hat_id.as_str());
        push_str(&mut topic, ".exhausted");
        (true, Some(Event::new(topic.as_str(), payload.as_str())))
    }

    /// Counts one more activation of each of `hat_ids`.
    pub fn record_hat_activations(&mut self, hat_ids: &Vec<String>)
        requires
            old(self).inv(),
        ensures
            final(self).inv(),
            final(self).st().iteration == old(self).st().iteration,
            final(self).st().is_halted == old(self).st().is_halted,
            final(self).st().human_decision == old(self).st().human_decision,
            final(self).st().activations() == bump_all(old(self).st().activations(), string_views(hat_ids@)),
            final(self).st().exhausted_hats == old(self).st().exhausted_hats,
    {
        let mut k: usize = 0;
        assert(string_views(hat_ids@).take(0) =~= Seq::<Seq<char>>::empty());
        while k < hat_ids.len()
            invariant
                k <= hat_ids@.len(),
                self.state.activations() == bump_all(old(self).st().activations(), string_views(hat_ids@).take(k as int)),
                self.state.exhausted_hats == old(self).st().exhausted_hats,
                self.inv(),
                self.state.iteration == old(self).st().iteration,
                self.state.is_halted == old(self).st().is_halted,
                self.state.human_decision == old(self).st().human_decision,
            decreases hat_ids@.len() - k,
        {
            let id = hat_ids[k].as_str();
            let ghost c0 = self.state.activations();
            let ghost ids = string_views(hat_ids@);
            assert(ids.take(k + 1).drop_last() =~= ids.take(k as int));
            assert(ids.take(k + 1).last() == id@);
            match find_entry(&self.state.hat_activation_counts, id) {
                Some(i) => {
                    let c = self.state.hat_activation_counts[i].1;
                    self.state.hat_activation_counts.set(i, (owned(id), inc(c)));
                    assert(self.state.activations() =~= bump(c0, id@));
                },
                None => {
                    self.state.hat_activation_counts.push((owned(id), 1));
                    assert(self.state.activations() =~= bump(c0, id@));
                },
            }
            k += 1;
        }
        assert(string_views(hat_ids@).take(k as int) =~= string_views(hat_ids@));
    }

    /// After a hat ran and wrote no event, publishes its default topic, if it
    /// has one, as an event from that hat.
    pub fn check_default_publishes(&mut self, hat_id: &HatId, events_written: usize)
        requires
            old(self).inv(),
        ensures
            final(self).inv(),
            final(self).st() == old(self).st(),
            bus_model(final(self).bus_view()) == if events_written == 0 && default_topic(old(self).settings_view(), hat_id@) is Some {
                publish_step(
                    bus_model(old(self).bus_view()),
                    (default_topic(old(self).settings_view(), hat_id@).unwrap(), Seq::empty(), Some(hat_id@), None, None, None, None),
                )
            } else {
                bus_model(old(self).bus_view())
            },
    {
        if events_written > 0 {
            return;
        }
        let topic = match self.settings_of(hat_id.as_str()) {
            Some(st) => match &st.default_publishes {
                Some(t) => t.clone(),
                None => {
                    return;
                },
            },
            None => {
                return;
            },
        };
        let mut e = Event::new(topic.as_str(), "");
        e.source = Some(hat_id.clone());
        proof {
            reveal_strlit("");
            assert(e.payload@ =~= Seq::<char>::empty());
            assert(e.topic@ == default_topic(self.settings_view(), hat_id@).unwrap());
        }
        self.bus.publish(e);
    }
}


/// The ids of the options of `o`.
pub open spec fn option_ids(o: crate::options::ProactiveOptions) -> Seq<Seq<char>> {
    o.options@.map_values(|c: crate::options::OptionChoice| c.id@)
}

/// The first id from `i` on whose upper-case form is `answer`, else the first id.
pub open spec fn choose_from(ids: Seq<Seq<char>>, upper_ids: Seq<Seq<char>>, answer: Seq<char>, i: int) -> Seq<char>
    decreases ids.len() - i,
{
    if i < 0 || i >= ids.len() || i >= upper_ids.len() {
        ids[0]
    } else if upper_ids[i] == answer {
        ids[i]
    } else {
        choose_from(ids, upper_ids, answer, i + 1)
    }
}

/// What `str::to_uppercase` makes of the characters `s`.
pub uninterp spec fn upper_of(s: Seq<char>) -> Seq<char>;

/// Relies on `str::to_uppercase`: the result depends on the characters alone.
#[verifier::external_body]
fn uppercase(s: &str) -> (r: String)
    ensures
        r@ == upper_of(s@),
{
    s.to_uppercase()
}

/// The markdown block that keeps one piece of human guidance in the scratchpad.
pub open spec fn guidance_entry_text(timestamp: Seq<char>, payload: Seq<char>) -> Seq<char> {
    "\n### HUMAN GUIDANCE ("@ + timestamp + ")\n\n"@ + payload + "\n"@
}

/// The scratchpad block for `payload` received at `timestamp`.
pub fn guidance_entry(timestamp: &str, payload: &str) -> (r: String)
    ensures
        r@ == guidance_entry_text(timestamp@, payload@),
{
    let mut out = owned("\n### HUMAN GUIDANCE (");
    push_str(&mut out, timestamp);
    push_str(&mut out, ")\n\n");
    push_str(&mut out, payload);
    push_str(&mut out, "\n");
    out
}

impl EventLoop {
    /// The guidance received since the last call, to keep in the scratchpad.
    pub fn take_guidance(&mut self) -> (r: Vec<String>)
        requires
            old(self).inv(),
        ensures
            final(self).inv(),
            final(self).st() == old(self).st(),
            string_views(r@) == old(self).guidance_view(),
            final(self).guidance_view().len() == 0,
    {
        let mut r: Vec<String> = Vec::new();
        std::mem::swap(&mut r, &mut self.guidance);
        assert(string_views(self.guidance@) =~= Seq::<Seq<char>>::empty());
        r
    }

    /// Stores the options of a `human.interact` question, to be decided before
    /// the next prompt.
    pub fn set_active_options(&mut self, options: crate::options::ProactiveOptions)
        requires
            old(self).inv(),
        ensures
            final(self).inv(),
            final(self).st().active_options == Some(options),
            final(self).st().iteration == old(self).st().iteration,
    {
        self.state.active_options = Some(options);
    }

    /// Records the human's `answer` to the pending options: the chosen option
    /// is the one whose id matches the trimmed answer, ignoring case, else the
    /// first. The decision is audited, kept for the next prompt, and published
    /// as `human.response`. Returns the chosen id; none without pending options
    /// or without any option.
    pub fn record_human_decision(&mut self, answer: &str) -> (r: Option<String>)
        requires
            old(self).inv(),
        ensures
            final(self).inv(),
            final(self).st().active_options is None,
            old(self).st().active_options is None ==> r is None,
            r matches Some(id) ==> final(self).st().human_decision matches Some(d) && d@ == id@,
            (old(self).st().active_options matches Some(o) && o.options@.len() > 0) ==> (r matches Some(
                id,
            ) && id@ == choose_from(
                option_ids(old(self).st().active_options.unwrap()),
                option_ids(old(self).st().active_options.unwrap()).map_values(|x: Seq<char>| upper_of(x)),
                upper_of(crate::text::trim(answer@)),
                0,
            )),
            final(self).st().iteration == old(self).st().iteration,
    {
        let options = match self.state.active_options.take() {
            Some(o) => o,
            None => {
                return None;
            },
        };
        if options.options.len() == 0 {
            return None;
        }
        let trimmed = string_of(crate::text::trim_chars(chars_of(answer).as_slice()).as_slice());
        let selection = uppercase(trimmed.as_str());
        let ghost ids = option_ids(options);
        let ghost ups = ids.map_values(|x: Seq<char>| upper_of(x));
        let ghost ans = upper_of(crate::text::trim(answer@));
        let mut chosen = options.options[0].id.clone();
        let mut k: usize = 0;
        let mut found = false;
        while k < options.options.len() && !found
            invariant
                k <= options.options@.len(),
                ids == option_ids(options),
                ups == ids.map_values(|x: Seq<char>| upper_of(x)),
                ans == selection@,
                ids.len() > 0,
                !found ==> chosen@ == ids[0] && choose_from(ids, ups, ans, 0) == choose_from(ids, ups, ans, k as int),
                found ==> chosen@ == choose_from(ids, ups, ans, 0),
            decreases options.options@.len() - k,
        {
            assert(ids[k as int] == options.options@[k as int].id@);
            if str_eq(uppercase(options.options[k].id.as_str()).as_str(), selection.as_str()) {
                chosen = options.options[k].id.clone();
                found = true;
            }
            k += 1;
        }
        self.state.human_decision = Some(chosen.clone());
        let mut details = owned("Question: ");
        push_str(&mut details, options.question.as_str());
        push_str(&mut details, " | Selected: ");
        push_str(&mut details, chosen.as_str());
        self.audit.push((owned("HUMAN_DECISION"), details));
        let mut payload = owned("Human Decision: Use Option ");
        push_str(&mut payload, chosen.as_str());
        self.bus.publish(Event::new("human.response", payload.as_str()));
        Some(chosen)
    }
}


impl EventLoop {
    /// The events published since the last call, in publish order, for the
    /// observers that record or display them.
    pub fn take_observed(&mut self) -> (r: Vec<Event>)
        requires
            old(self).inv(),
        ensures
            final(self).inv(),
            crate::event::event_views(r@) == old(self).bus_view().observed_view(),
            final(self).st() == old(self).st(),
    {
        self.bus.take_observed()
    }

    /// The mission-control snapshot of the loop for `objective`.
    pub fn status_snapshot(&self, objective: &str, recovery_blocked: bool) -> (r: crate::records::CaptainStatus)
        ensures
            r.objective@ == objective@,
            r.active_task.id@ == "pending"@,
            r.active_task.title@ == "In Progress"@,
            r.active_task.hat@ == match self.st().last_hat {
                Some(h) => h@,
                None => "ralph"@,
            },
            r.active_task.risk_tier@ == match self.st().active_strategy {
                Some(s) => crate::tea::tier_name(s.tier),
                None => "Unknown"@,
            },
            r.health.iteration == self.st().iteration,
            r.health.max_iterations == self.cfg().max_iterations,
            r.health.elapsed_seconds == self.st().elapsed_seconds,
            r.health.cumulative_cost_micros == self.st().cumulative_cost_micros,
            r.safety.last_snapshot_sha@ == match self.st().last_snapshot_sha {
                Some(s) => s@,
                None => "None"@,
            },
            r.safety.is_halted == self.st().is_halted,
            r.safety.recovery_queue_blocked == recovery_blocked,
    {
        crate::records::CaptainStatus {
            objective: owned(objective),
            active_task: crate::records::ActiveTaskInfo {
                id: owned("pending"),
                title: owned("In Progress"),
                hat: match &self.state.last_hat {
                    Some(h) => owned(h.as_str()),
                    None => owned("ralph"),
                },
                risk_tier: self.current_risk_tier(),
            },
            health: crate::records::OrchestrationHealth {
                iteration: self.state.iteration,
                max_iterations: self.config.max_iterations,
                elapsed_seconds: self.state.elapsed_seconds,
                cumulative_cost_micros: self.state.cumulative_cost_micros,
            },
            safety: crate::records::SafetyStatus {
                last_snapshot_sha: match &self.state.last_snapshot_sha {
                    Some(s) => owned(s.as_str()),
                    None => owned("None"),
                },
                is_halted: self.state.is_halted,
                recovery_queue_blocked: recovery_blocked,
            },
        }
    }
}

} // verus!
