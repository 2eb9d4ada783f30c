use ralph_core::{Event, EventBus, Hat, HatId, RoutingMode, Topic, TriageDecision};

fn decision(mode: RoutingMode) -> TriageDecision {
    TriageDecision { mode, reason: "test".to_string(), confidence: 90 }
}

#[test]
fn test_subscription_matching() {
    let hat = Hat::new("impl", "Implementer").subscribe("impl.*").subscribe("task.start");

    assert!(hat.is_subscribed(&Topic::new("impl.done")));
    assert!(hat.is_subscribed(&Topic::new("task.start")));
    assert!(!hat.is_subscribed(&Topic::new("review.done")));
}

#[test]
fn test_default_single_hat() {
    let hat = Hat::default_single();
    assert!(hat.is_subscribed(&Topic::new("anything")));
    assert!(hat.is_subscribed(&Topic::new("impl.done")));
}

#[test]
fn test_default_planner_hat() {
    let hat = Hat::default_planner();
    assert_eq!(hat.id.as_str(), "planner");
    assert!(hat.is_subscribed(&Topic::new("task.start")));
    assert!(hat.is_subscribed(&Topic::new("task.resume")));
    assert!(hat.is_subscribed(&Topic::new("build.done")));
    assert!(hat.is_subscribed(&Topic::new("build.blocked")));
    assert!(!hat.is_subscribed(&Topic::new("build.task")));
}

#[test]
fn test_default_builder_hat() {
    let hat = Hat::default_builder();
    assert_eq!(hat.id.as_str(), "builder");
    assert!(hat.is_subscribed(&Topic::new("build.task")));
    assert!(!hat.is_subscribed(&Topic::new("task.start")));
    assert!(!hat.is_subscribed(&Topic::new("build.done")));
}

#[test]
fn prefix_pattern_needs_the_dot() {
    let p = Topic::new("task.*");
    assert!(p.matches_str("task.start"));
    assert!(!p.matches_str("taskforce"));
    assert!(!p.matches_str("task"));
    assert!(Topic::new("*").is_global_wildcard());
    assert!(!Topic::new("task.*").is_global_wildcard());
}

#[test]
fn specific_and_fallback_subscriptions() {
    let ralph = Hat::new("ralph", "Ralph").subscribe("*");
    assert!(ralph.is_fallback_only());
    assert!(!ralph.has_specific_subscription(&Topic::new("build.done")));
    let planner = Hat::default_planner();
    assert!(planner.has_specific_subscription(&Topic::new("build.done")));
    assert!(!planner.is_fallback_only());
    assert!(!Hat::new("empty", "Empty").is_fallback_only());
}

#[test]
fn default_hats_have_their_topics() {
    let tea = Hat::default_tea();
    assert_eq!(tea.id.as_str(), "tea");
    assert!(tea.is_subscribed_str("triage.decision"));
    assert!(tea.is_subscribed_str("plan.ready"));
    let exec = Hat::default_simple_executor();
    assert_eq!(exec.id.as_str(), "simple-executor");
    assert!(exec.is_subscribed_str("test.strategy"));
    assert_eq!(exec.publishes.len(), 2);
    assert_eq!(HatId::new("x").as_str(), "x");
}

#[test]
fn test_publish_to_subscriber() {
    let mut bus = EventBus::new();
    let hat = Hat::new("impl", "Implementer").subscribe("task.*");
    bus.register(hat);

    let recipients = bus.publish(Event::new("task.start", "Start implementing"));

    assert_eq!(recipients.len(), 1);
    assert_eq!(recipients[0].as_str(), "impl");
}

#[test]
fn test_no_match() {
    let mut bus = EventBus::new();
    let hat = Hat::new("impl", "Implementer").subscribe("task.*");
    bus.register(hat);

    let recipients = bus.publish(Event::new("review.done", "Review complete"));

    assert!(recipients.is_empty());
}

#[test]
fn test_direct_target() {
    let mut bus = EventBus::new();
    bus.register(Hat::new("impl", "Implementer").subscribe("task.*"));
    bus.register(Hat::new("inspector", "Inspector").subscribe("impl.*"));

    let event = Event::new("handoff", "Please inspect").with_target("inspector");
    let recipients = bus.publish(event);

    assert_eq!(recipients.len(), 1);
    assert_eq!(recipients[0].as_str(), "inspector");
}

#[test]
fn test_take_pending() {
    let mut bus = EventBus::new();
    bus.register(Hat::new("impl", "Implementer").subscribe("*"));

    bus.publish(Event::new("task.start", "Start"));
    bus.publish(Event::new("task.continue", "Continue"));

    let hat_id = HatId::new("impl");
    let events = bus.take_pending(&hat_id);

    assert_eq!(events.len(), 2);
    assert!(bus.take_pending(&hat_id).is_empty());
}

#[test]
fn test_human_events_use_separate_queue() {
    let mut bus = EventBus::new();
    bus.register(Hat::new("ralph", "Ralph").subscribe("*"));

    bus.publish(Event::new("human.interact", "question"));
    bus.publish(Event::new("human.response", "hello"));
    bus.publish(Event::new("human.guidance", "note"));

    assert_eq!(bus.peek_human_pending().len(), 3);
    assert_eq!(bus.peek_pending(&HatId::new("ralph")).map(|events| events.len()).unwrap_or(0), 0);

    let taken = bus.take_human_pending();
    assert_eq!(taken.len(), 3);
    assert!(!bus.has_human_pending());
}

#[test]
fn test_self_routing_allowed() {
    let mut bus = EventBus::new();
    bus.register(Hat::new("planner", "Planner").subscribe("build.done"));

    let event = Event::new("build.done", "Done").with_source("planner");
    let recipients = bus.publish(event);

    assert_eq!(recipients.len(), 1);
    assert_eq!(recipients[0].as_str(), "planner");
}

#[test]
fn test_peek_pending_does_not_consume() {
    let mut bus = EventBus::new();
    bus.register(Hat::new("impl", "Implementer").subscribe("*"));

    bus.publish(Event::new("task.start", "Start"));
    bus.publish(Event::new("task.continue", "Continue"));

    let hat_id = HatId::new("impl");
    let peeked = bus.peek_pending(&hat_id);
    assert!(peeked.is_some());
    assert_eq!(peeked.unwrap().len(), 2);

    let peeked_again = bus.peek_pending(&hat_id);
    assert!(peeked_again.is_some());
    assert_eq!(peeked_again.unwrap().len(), 2);

    let taken = bus.take_pending(&hat_id);
    assert_eq!(taken.len(), 2);

    let peeked_after_take = bus.peek_pending(&hat_id);
    assert!(peeked_after_take.is_none() || peeked_after_take.unwrap().is_empty());
}

#[test]
fn specific_subscribers_win_over_wildcard() {
    let mut bus = EventBus::new();
    bus.register(Hat::new("ralph", "Ralph").subscribe("*"));
    bus.register(Hat::new("builder", "Builder").subscribe("build.task"));

    let r = bus.publish(Event::new("build.task", "do it"));
    assert_eq!(r.len(), 1);
    assert_eq!(r[0].as_str(), "builder");

    let r = bus.publish(Event::new("orphan.topic", "nobody"));
    assert_eq!(r.len(), 1);
    assert_eq!(r[0].as_str(), "ralph");
}

#[test]
fn target_to_unknown_hat_reaches_nobody() {
    let mut bus = EventBus::new();
    bus.register(Hat::new("ralph", "Ralph").subscribe("*"));
    let r = bus.publish(Event::new("handoff", "x").with_target("ghost"));
    assert!(r.is_empty());
    assert!(!bus.has_pending());
}

#[test]
fn human_topics_never_reach_hats() {
    let mut bus = EventBus::new();
    bus.register(Hat::new("watcher", "Watcher").subscribe("human.interact"));
    let r = bus.publish(Event::new("human.interact", "?").with_target("watcher"));
    assert!(r.is_empty());
    assert!(bus.peek_pending(&HatId::new("watcher")).unwrap().is_empty());
    assert!(bus.has_human_pending());
}

#[test]
fn routing_mode_filters_planner_and_simple_executor() {
    let mut bus = EventBus::new();
    bus.register(Hat::new("planner", "Planner").subscribe("task.start"));
    bus.register(Hat::new("simple-executor", "Simple").subscribe("triage.decision"));
    bus.register(Hat::new("ralph", "Ralph").subscribe("*"));

    bus.publish(Event::new("triage.decision", "{}").with_triage(decision(RoutingMode::Simple)));
    assert_eq!(bus.routing_mode(), Some(RoutingMode::Simple));
    let r = bus.publish(Event::new("task.start", "go"));
    assert_eq!(r.len(), 1);
    assert_eq!(r[0].as_str(), "ralph");

    bus.set_routing_mode(RoutingMode::Full);
    let r = bus.publish(Event::new("triage.decision", "{}"));
    assert_eq!(r.len(), 1);
    assert_eq!(r[0].as_str(), "ralph");
}

#[test]
fn register_replaces_hat_with_same_id() {
    let mut bus = EventBus::new();
    bus.register(Hat::new("a", "First").subscribe("x"));
    bus.publish(Event::new("x", "1"));
    bus.register(Hat::new("a", "Second").subscribe("y"));
    assert_eq!(bus.hat_ids().len(), 1);
    assert_eq!(bus.get_hat(&HatId::new("a")).unwrap().name, "Second");
    assert_eq!(bus.peek_pending(&HatId::new("a")).unwrap().len(), 1);
    assert_eq!(bus.next_hat_with_pending().unwrap().as_str(), "a");
}

#[test]
fn identical_publishes_leave_identical_buses() {
    let build = || {
        let mut bus = EventBus::new();
        bus.register(Hat::new("ralph", "Ralph").subscribe("*"));
        bus.register(Hat::new("builder", "Builder").subscribe("build.*"));
        bus.publish(Event::new("build.task", "a"));
        bus.publish(Event::new("human.guidance", "b"));
        bus.publish(Event::new("other", "c"));
        bus
    };
    let mut a = build();
    let mut b = build();
    for id in ["ralph", "builder"] {
        let qa: Vec<String> = a.take_pending(&HatId::new(id)).iter().map(|e| e.payload.clone()).collect();
        let qb: Vec<String> = b.take_pending(&HatId::new(id)).iter().map(|e| e.payload.clone()).collect();
        assert_eq!(qa, qb);
    }
    assert_eq!(a.take_human_pending().len(), b.take_human_pending().len());
}

#[test]
fn observers_see_every_event_once_in_order() {
    let mut bus = EventBus::new();
    bus.register(Hat::new("impl", "Implementer").subscribe("task.*"));
    bus.publish(Event::new("task.start", "Start"));
    bus.publish(Event::new("other.event", "Other"));
    bus.publish(Event::new("human.guidance", "Note"));
    let seen: Vec<String> = bus.take_observed().iter().map(|e| e.payload.clone()).collect();
    assert_eq!(seen, vec!["Start", "Other", "Note"]);
    assert!(bus.take_observed().is_empty());
}
