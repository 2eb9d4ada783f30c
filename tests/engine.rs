use ralph_core::event_loop::{format_event, HatSettings};
use ralph_core::prompt::{InjectSettings, TaskLine, ready_tasks_section, truncate_to_budget};
use ralph_core::{AuditLogger, RecoveryQueue, StatusManager};
use ralph_core::json::{format_hundredths, strategy_to_json, triage_to_json};
use ralph_core::scratchpad::{scratchpad_section_of, truncate_scratchpad};
use ralph_core::termination::{format_duration, termination_status_text};
use ralph_core::{
    Event, EventLoop, Hat, HatId, JournalEvent, LoopConfig, MalformedLine, ParseResult,
    RoutingMode, SafetyTier, TEAHat, TerminationReason, TestStrategy, TriageHat,
};

fn journal(items: &[(&str, Option<&str>)]) -> ParseResult {
    ParseResult {
        events: items
            .iter()
            .map(|(t, p)| JournalEvent { topic: t.to_string(), payload: p.map(|s| s.to_string()), triage: None, strategy: None })
            .collect(),
        malformed: Vec::new(),
    }
}

fn topics(events: &[Event]) -> Vec<String> {
    events.iter().map(|e| e.topic.as_str().to_string()).collect()
}

const ALL_PASS: &str = "tests: pass\nlint: pass\ntypecheck: pass\naudit: pass\ncoverage: pass\ncomplexity: 7\nduplication: pass";

fn triage_hats() -> Vec<Hat> {
    vec![
        Hat::new("planner", "Planner").subscribe("task.start"),
        Hat::new("simple-executor", "Simple Executor").subscribe("triage.decision"),
    ]
}

#[test]
fn test_triage_routing_full() {
    let mut event_loop = EventLoop::new(LoopConfig::new("LOOP_COMPLETE"), triage_hats());

    event_loop.initialize("Implement a complex new feature with database integration", false);

    assert_eq!(event_loop.bus().routing_mode(), Some(RoutingMode::Full));

    let planner_pending = event_loop.bus().peek_pending(&HatId::new("planner"));
    assert!(planner_pending.is_some() && !planner_pending.unwrap().is_empty());

    let simple_pending = event_loop.bus().peek_pending(&HatId::new("simple-executor"));
    assert!(simple_pending.is_none() || simple_pending.unwrap().is_empty());
}

#[test]
fn test_simple_path_flow() {
    let hats = vec![
        Hat::new("planner", "Planner").subscribe("task.start"),
        Hat::new("tea", "TEA").subscribe("triage.decision").publish("test.strategy"),
        Hat::new("simple-executor", "Simple Executor").subscribe("test.strategy"),
    ];
    let mut event_loop = EventLoop::new(LoopConfig::new("LOOP_COMPLETE"), hats);

    event_loop.initialize("Fix typo", false);

    let tea_pending = event_loop.bus().peek_pending(&HatId::new("tea")).unwrap();
    assert!(tea_pending.iter().any(|e| e.topic.as_str() == "triage.decision"));

    let strategy_event = Event::new("test.strategy", "Verify fix with one test").with_source("tea");
    event_loop.publish(strategy_event);

    let executor_pending = event_loop.bus().peek_pending(&HatId::new("simple-executor")).unwrap();
    assert!(executor_pending.iter().any(|e| e.topic.as_str() == "test.strategy"));

    let planner_pending = event_loop.bus().peek_pending(&HatId::new("planner"));
    assert!(planner_pending.is_none() || planner_pending.unwrap().is_empty());
}

#[test]
fn test_triage_audit_state() {
    let mut event_loop = EventLoop::new(LoopConfig::new("LOOP_COMPLETE"), Vec::new());

    event_loop.initialize("Fix typo in README", false);

    let decision = event_loop.state().triage_decision.as_ref().expect("Decision should be in state");
    assert_eq!(decision.mode, RoutingMode::Simple);
    assert!(decision.reason.contains("keywords"));
}

#[test]
fn simple_path_routing_scenario() {
    let mut event_loop = EventLoop::new(LoopConfig::new("LOOP_COMPLETE"), triage_hats());
    event_loop.initialize("Fix typo in README.md", false);

    assert_eq!(event_loop.bus().routing_mode(), Some(RoutingMode::Simple));
    let planner = event_loop.bus().peek_pending(&HatId::new("planner")).unwrap();
    assert!(planner.iter().all(|e| e.topic.as_str() != "task.start"));
    let exec = event_loop.bus().peek_pending(&HatId::new("simple-executor")).unwrap();
    let decision = exec.iter().find(|e| e.topic.as_str() == "triage.decision").expect("decision");
    assert_eq!(decision.triage.as_ref().unwrap().mode, RoutingMode::Simple);
    assert!(decision.payload.starts_with("{\"mode\":\"Simple\""));
}

#[test]
fn full_path_routing_scenario() {
    let mut event_loop = EventLoop::new(LoopConfig::new("LOOP_COMPLETE"), triage_hats());
    event_loop.initialize("Implement OAuth2 with JWT refresh", false);

    assert_eq!(event_loop.bus().routing_mode(), Some(RoutingMode::Full));
    let planner = event_loop.bus().peek_pending(&HatId::new("planner")).unwrap();
    assert!(planner.iter().any(|e| e.topic.as_str() == "task.start"));
    let exec = event_loop.bus().peek_pending(&HatId::new("simple-executor")).unwrap();
    assert!(exec.is_empty());
}

#[test]
fn initialize_is_refused_while_recovery_blocks() {
    let mut event_loop = EventLoop::new(LoopConfig::new("LOOP_COMPLETE"), triage_hats());
    event_loop.initialize("Fix typo", true);
    assert!(!event_loop.has_pending_events());
    assert!(event_loop.state().triage_decision.is_none());
}

#[test]
fn backpressure_block_scenario() {
    let mut event_loop = EventLoop::new(LoopConfig::new("LOOP_COMPLETE"), vec![Hat::default_planner()]);
    let payload = "tests: pass\nlint: fail\ntypecheck: pass\naudit: pass\ncoverage: pass\ncomplexity: 7\nduplication: pass";
    let outcome = event_loop.process_events(journal(&[("build.done", Some(payload))]));

    assert_eq!(topics(&outcome.published), vec!["build.blocked"]);
    assert_eq!(outcome.published[0].payload, "Backpressure checks failed: lint. Fix them before emitting build.done.");
    assert_eq!(outcome.recovery.len(), 1);
    assert_eq!(outcome.recovery[0].task_id, "tests: pass");
    assert!(event_loop.state().is_halted);
    let planner = event_loop.bus().peek_pending(&HatId::new("planner")).unwrap();
    assert_eq!(topics(planner), vec!["build.blocked"]);
}

#[test]
fn missing_evidence_blocks_build() {
    let mut event_loop = EventLoop::new(LoopConfig::new("LOOP_COMPLETE"), Vec::new());
    let outcome = event_loop.process_events(journal(&[("build.done", Some("done!"))]));
    assert_eq!(topics(&outcome.published), vec!["build.blocked"]);
    assert!(outcome.published[0].payload.starts_with("Missing backpressure evidence."));
    assert_eq!(outcome.recovery[0].task_id, "unknown");
}

#[test]
fn strategy_gate_violation_names_the_failures() {
    let mut event_loop = EventLoop::new(LoopConfig::new("LOOP_COMPLETE"), Vec::new());
    event_loop.initialize("Update the auth core", false);
    let payload = "tests: fail\nlint: pass\ntypecheck: pass\naudit: fail\ncoverage: fail\ncomplexity: 3\nduplication: pass";
    let outcome = event_loop.process_events(journal(&[("build.done", Some(payload))]));
    assert_eq!(
        outcome.published[0].payload,
        "TEA Strategy Gate Violation: Coverage check failed (Required: 95%), Mandatory unit tests failed, Mandatory security audit failed"
    );
}

#[test]
fn review_and_verify_gates() {
    let mut event_loop = EventLoop::new(LoopConfig::new("LOOP_COMPLETE"), Vec::new());
    let outcome = event_loop.process_events(journal(&[
        ("review.done", Some("tests: pass\nbuild: fail")),
        ("review.done", Some("Looks fine")),
        ("verify.passed", Some("quality.tests: pass")),
        ("verify.passed", None),
        ("note", Some("hello")),
    ]));
    assert_eq!(
        topics(&outcome.published),
        vec!["review.blocked", "review.blocked", "verify.failed", "verify.failed", "note"]
    );
    assert!(!event_loop.state().is_halted);
}

#[test]
fn completion_gating_scenario() {
    let mut event_loop = EventLoop::new(LoopConfig::new("LOOP_COMPLETE"), Vec::new());
    let outcome = event_loop.process_events(journal(&[("build.done", Some(ALL_PASS)), ("LOOP_COMPLETE", None)]));
    assert_eq!(topics(&outcome.published), vec!["build.done"]);
    assert!(event_loop.state().completion_requested);
    let reason = event_loop.check_completion_event().unwrap();
    assert_eq!(reason, TerminationReason::CompletionPromise);
    assert_eq!(reason.exit_code(), 0);

    let mut event_loop = EventLoop::new(LoopConfig::new("LOOP_COMPLETE"), Vec::new());
    let outcome = event_loop.process_events(journal(&[("LOOP_COMPLETE", None), ("build.done", Some(ALL_PASS))]));
    assert_eq!(topics(&outcome.published), vec!["build.done"]);
    assert!(!event_loop.state().completion_requested);
    assert_eq!(event_loop.check_completion_event(), None);
}

#[test]
fn persistent_mode_suppresses_completion() {
    let mut config = LoopConfig::new("LOOP_COMPLETE");
    config.persistent = true;
    let mut event_loop = EventLoop::new(config, Vec::new());
    event_loop.process_events(journal(&[("LOOP_COMPLETE", None)]));
    assert_eq!(event_loop.check_completion_event(), None);
    let pending = event_loop.bus().peek_pending(&HatId::new("ralph")).unwrap();
    assert_eq!(topics(pending), vec!["task.resume"]);
}

#[test]
fn thrashing_scenario() {
    let mut event_loop = EventLoop::new(LoopConfig::new("LOOP_COMPLETE"), Vec::new());
    for _ in 0..3 {
        event_loop.process_events(journal(&[("build.blocked", Some("T1\nstill failing"))]));
    }
    assert_eq!(event_loop.state().abandoned_tasks, vec!["T1".to_string()]);
    assert_eq!(event_loop.state().abandoned_task_redispatches, 1);
    event_loop.process_events(journal(&[("build.blocked", Some("T1\nagain"))]));
    assert_eq!(event_loop.state().abandoned_task_redispatches, 1);
    let pending = event_loop.bus().peek_pending(&HatId::new("ralph")).unwrap();
    assert_eq!(pending.iter().filter(|e| e.topic.as_str() == "build.task.abandoned").count(), 1);
    assert_eq!(event_loop.check_termination(false, false), None);

    for task in ["T2", "T3"] {
        for _ in 0..3 {
            event_loop.process_events(journal(&[("build.blocked", Some(task))]));
        }
    }
    assert_eq!(event_loop.state().abandoned_task_redispatches, 3);
    let reason = event_loop.check_termination(false, false).unwrap();
    assert_eq!(reason, TerminationReason::LoopThrashing);
    assert_eq!(reason.as_str(), "loop_thrashing");
    assert_eq!(reason.exit_code(), 1);
}

#[test]
fn malformed_line_termination_scenario() {
    let mut event_loop = EventLoop::new(LoopConfig::new("LOOP_COMPLETE"), Vec::new());
    let batch = ParseResult {
        events: Vec::new(),
        malformed: (1..=3)
            .map(|n| MalformedLine { line_number: n, content: "{oops".to_string(), error: "expected value".to_string() })
            .collect(),
    };
    event_loop.process_events(batch);
    let pending = event_loop.bus().peek_pending(&HatId::new("ralph")).unwrap();
    assert_eq!(topics(pending), vec!["event.malformed", "event.malformed", "event.malformed"]);
    assert_eq!(pending[0].payload, "Line 1: expected value\nContent: {oops");
    let reason = event_loop.check_termination(false, false).unwrap();
    assert_eq!(reason, TerminationReason::ValidationFailure);
    assert_eq!(reason.as_str(), "validation_failure");
    assert_eq!(reason.exit_code(), 1);
}

#[test]
fn well_formed_event_resets_malformed_count() {
    let mut event_loop = EventLoop::new(LoopConfig::new("LOOP_COMPLETE"), Vec::new());
    let mut batch = journal(&[("note", Some("x"))]);
    batch.malformed.push(MalformedLine { line_number: 1, content: "x".to_string(), error: "e".to_string() });
    event_loop.process_events(batch);
    assert_eq!(event_loop.state().consecutive_malformed_events, 0);
}

#[test]
fn empty_journal_leaves_loop_idle() {
    let mut event_loop = EventLoop::new(LoopConfig::new("LOOP_COMPLETE"), Vec::new());
    let outcome = event_loop.process_events(journal(&[]));
    assert!(!outcome.has_orphans);
    assert!(!event_loop.has_pending_events());
    assert_eq!(event_loop.check_termination(false, false), None);
}

#[test]
fn iterations_increase_and_time_never_goes_back() {
    let mut event_loop = EventLoop::new(LoopConfig::new("LOOP_COMPLETE"), Vec::new());
    let ralph = HatId::new("ralph");
    assert_eq!(event_loop.process_output(&ralph, true, false, false), None);
    assert_eq!(event_loop.state().iteration, 1);
    event_loop.record_elapsed(30);
    event_loop.record_elapsed(10);
    assert_eq!(event_loop.state().elapsed_seconds, 30);
    event_loop.process_output(&ralph, false, false, false);
    assert_eq!(event_loop.state().iteration, 2);
    assert_eq!(event_loop.state().consecutive_failures, 1);
    assert_eq!(event_loop.process_output(&ralph, true, true, false), Some(TerminationReason::Stopped));
}

#[test]
fn termination_limits_in_order() {
    let mut config = LoopConfig::new("LOOP_COMPLETE");
    config.max_iterations = 1;
    config.max_cost_micros = Some(1_000_000);
    let mut event_loop = EventLoop::new(config, Vec::new());
    event_loop.add_cost(2_000_000);
    assert_eq!(event_loop.check_termination(false, true), Some(TerminationReason::MaxCost));
    let r = event_loop.process_output(&HatId::new("ralph"), true, false, false).unwrap();
    assert_eq!(r, TerminationReason::MaxIterations);
    assert_eq!(r.exit_code(), 2);
    assert_eq!(TerminationReason::Interrupted.exit_code(), 130);
    assert_eq!(TerminationReason::RestartRequested.exit_code(), 3);
    assert!(TerminationReason::CompletionPromise.is_success());
    assert!(!TerminationReason::Stopped.is_success());
    assert_eq!(termination_status_text(&TerminationReason::MaxRuntime), "Stopped at runtime limit.");
}

#[test]
fn next_hat_prefers_ralph_with_custom_hats() {
    let mut event_loop = EventLoop::new(LoopConfig::new("LOOP_COMPLETE"), vec![Hat::default_builder()]);
    assert!(event_loop.next_hat().is_none());
    event_loop.publish(Event::new("build.task", "do"));
    assert_eq!(event_loop.next_hat().unwrap().as_str(), "ralph");
    let mut solo = EventLoop::new(LoopConfig::new("LOOP_COMPLETE"), Vec::new());
    solo.publish(Event::new("human.guidance", "hi"));
    assert_eq!(solo.next_hat().unwrap().as_str(), "ralph");
}

#[test]
fn fallback_event_targets_the_last_hat() {
    let mut event_loop = EventLoop::new(LoopConfig::new("LOOP_COMPLETE"), vec![Hat::default_builder()]);
    event_loop.process_output(&HatId::new("builder"), true, false, false);
    assert!(event_loop.inject_fallback_event());
    let pending = event_loop.bus().peek_pending(&HatId::new("builder")).unwrap();
    assert_eq!(topics(pending), vec!["task.resume"]);
}

#[test]
fn no_prompt_while_recovery_blocks() {
    let mut event_loop = EventLoop::new(LoopConfig::new("LOOP_COMPLETE"), Vec::new());
    event_loop.publish(Event::new("task.start", "Fix the bug"));
    let ralph = HatId::new("ralph");
    assert!(event_loop.build_prompt(&ralph, true, "", "scratch.md", "").is_none());
    assert!(event_loop.state().is_halted);
    assert!(event_loop.has_pending_events());
    let prompt = event_loop.build_prompt(&ralph, false, "", "scratch.md", "notes").unwrap();
    assert!(!event_loop.state().is_halted);
    assert!(prompt.contains("<scratchpad path=\"scratch.md\">\nnotes\n</scratchpad>"));
    assert!(prompt.ends_with("Event: task.start - <top-level-prompt>\nFix the bug\n</top-level-prompt>"));
    assert!(!event_loop.has_pending_events());
}

#[test]
fn terminate_event_summarises_the_run() {
    let mut event_loop = EventLoop::new(LoopConfig::new("LOOP_COMPLETE"), Vec::new());
    event_loop.record_elapsed(3725);
    let e = event_loop.publish_terminate_event(&TerminationReason::CompletionPromise);
    assert_eq!(e.topic.as_str(), "loop.terminate");
    assert_eq!(
        e.payload,
        "## Reason\ncompleted\n\n## Status\nAll tasks completed successfully.\n\n## Summary\n- Iterations: 0\n- Duration: 1h 2m 5s\n- Exit code: 0"
    );
}

#[test]
fn durations_are_formatted_by_magnitude() {
    assert_eq!(format_duration(0), "0s");
    assert_eq!(format_duration(59), "59s");
    assert_eq!(format_duration(61), "1m 1s");
    assert_eq!(format_duration(7200), "2h 0m 0s");
}

#[test]
fn scratchpad_exactly_at_budget_is_kept() {
    let content = "x".repeat(16000);
    assert_eq!(truncate_scratchpad(&content), content);
}

#[test]
fn scratchpad_one_over_budget_is_marked() {
    let content = format!("# Old\n{}", "y".repeat(15995));
    assert_eq!(content.chars().count(), 16001);
    let out = truncate_scratchpad(&content);
    assert!(out.starts_with("<!-- earlier content truncated (6 chars omitted) -->\n<!-- discarded sections: # Old -->\n\n"));
    assert!(out.ends_with(&"y".repeat(15995)));
    assert_eq!(scratchpad_section_of("p.md", "   \n"), "");
}

#[test]
fn format_event_wraps_top_level_prompts() {
    assert_eq!(format_event(&Event::new("task.resume", "go")), "Event: task.resume - <top-level-prompt>\ngo\n</top-level-prompt>");
    assert_eq!(format_event(&Event::new("build.done", "ok")), "Event: build.done - ok");
}

#[test]
fn test_triage_simple_typo() {
    let triage = TriageHat::new();
    let decision = triage.analyze("Fix a typo in the README.md");
    assert_eq!(decision.mode, RoutingMode::Simple);
}

#[test]
fn test_triage_full_feature() {
    let triage = TriageHat::new();
    let decision = triage.analyze("Implement a new authentication system using OAuth2 and JWT tokens with refresh cycles.");
    assert_eq!(decision.mode, RoutingMode::Full);
}

#[test]
fn triage_confidences() {
    let t = TriageHat::new();
    assert_eq!(t.analyze("Fix typo").confidence, 90);
    assert_eq!(t.analyze("Implement a feature").confidence, 85);
    assert_eq!(t.analyze("Make it nicer").confidence, 80);
    let d = t.analyze("Please have a look at the thing that behaves oddly sometimes");
    assert_eq!((d.mode, d.confidence), (RoutingMode::Full, 60));
}

#[test]
fn test_design_strategy_high_rigor() {
    let tea = TEAHat::new();
    let strategy = tea.design_strategy("Update authentication logic for JWT tokens");
    assert_eq!(strategy.tier, SafetyTier::Tier1);
    assert_eq!(strategy.min_coverage, 95);
}

#[test]
fn test_design_strategy_minimal() {
    let tea = TEAHat::new();
    let strategy = tea.design_strategy("Fix typo in README.md");
    assert_eq!(strategy.tier, SafetyTier::Tier3);
}

#[test]
fn strategy_tiers_and_overrides() {
    let tea = TEAHat::new();
    assert_eq!(tea.design_strategy("Add an api endpoint").tier, SafetyTier::Tier2);
    assert_eq!(tea.design_strategy("A minor auth tweak").tier, SafetyTier::Tier3);
    assert_eq!(tea.design_strategy("Refactor the docs").tier, SafetyTier::Tier1);
    let s = TestStrategy::for_tier(SafetyTier::Tier2, "r");
    assert_eq!(s.min_coverage, 80);
    assert_eq!(s.mandatory_categories, vec!["unit", "lint"]);
    assert_eq!(s.hard_gates, vec!["zero_lint_errors"]);
    assert!(TestStrategy::for_tier(SafetyTier::Tier3, "r").hard_gates.is_empty());
}

#[test]
fn payload_json_round_trips_through_serde() {
    let d = TriageHat::new().analyze("Fix typo \"quoted\"");
    let text = triage_to_json(&d);
    let v: serde_json::Value = serde_json::from_str(&text).unwrap();
    assert_eq!(v["mode"], "Simple");
    assert_eq!(v["reason"], d.reason.as_str());
    assert_eq!(v["confidence"].as_f64(), Some(0.9));
    let s = TestStrategy::for_tier(SafetyTier::Tier1, "line\nbreak");
    let v: serde_json::Value = serde_json::from_str(&strategy_to_json(&s)).unwrap();
    assert_eq!(v["tier"], "Tier1");
    assert_eq!(v["min_coverage"].as_f64(), Some(95.0));
    assert_eq!(v["reason"], "line\nbreak");
    assert_eq!(v["mandatory_categories"][3], "security");
    assert_eq!(format_hundredths(85), "0.85");
    assert_eq!(format_hundredths(5), "0.05");
    assert_eq!(format_hundredths(100), "1.0");
}

#[test]
fn user_prompt_takes_id_from_payload() {
    let event_loop = EventLoop::new(LoopConfig::new("LOOP_COMPLETE"), Vec::new());
    let events = vec![Event::new("note", "x"), Event::new("user.prompt", "<event id=\"q7\">Which DB?</event>")];
    let p = event_loop.check_for_user_prompt(&events, "q0").unwrap();
    assert_eq!(p.id, "q7");
    let events = vec![Event::new("user.prompt", "Which DB?")];
    assert_eq!(event_loop.check_for_user_prompt(&events, "q0").unwrap().id, "q0");
    assert!(event_loop.check_for_user_prompt(&[], "q0").is_none());
}

#[test]
fn exhausted_hat_is_announced_once() {
    let mut event_loop = EventLoop::new(LoopConfig::new("LOOP_COMPLETE"), vec![Hat::default_builder()]);
    event_loop.configure_hat("builder", HatSettings { max_activations: Some(1), default_publishes: None });
    let ralph = HatId::new("ralph");

    event_loop.publish(Event::new("build.task", "first"));
    let prompt = event_loop.build_prompt(&ralph, false, "", "s.md", "").unwrap();
    assert!(prompt.contains("Event: build.task - first"));
    assert_eq!(event_loop.state().hat_activation_counts, vec![("builder".to_string(), 1)]);

    event_loop.publish(Event::new("build.task", "second"));
    event_loop.publish(Event::new("build.task", "another"));
    let prompt = event_loop.build_prompt(&ralph, false, "", "s.md", "").unwrap();
    assert!(prompt.contains("Event: builder.exhausted - Hat 'builder' exhausted.\n- max_activations: 1\n- activations: 1\n- dropped_topics:\n  - build.task\n  - build.task"));
    assert!(!prompt.contains("second"));
    assert_eq!(event_loop.state().exhausted_hats, vec!["builder".to_string()]);

    event_loop.publish(Event::new("build.task", "third"));
    let prompt = event_loop.build_prompt(&ralph, false, "", "s.md", "").unwrap();
    assert!(!prompt.contains("third"));
    assert_eq!(prompt.matches("Hat 'builder' exhausted.").count(), 1);
    assert_eq!(event_loop.state().exhausted_hats.len(), 1);
}

#[test]
fn default_topic_is_published_for_a_silent_hat() {
    let mut event_loop = EventLoop::new(LoopConfig::new("LOOP_COMPLETE"), vec![Hat::default_planner()]);
    event_loop.configure_hat("builder", HatSettings { max_activations: None, default_publishes: Some("build.done".to_string()) });
    let builder = HatId::new("builder");
    event_loop.check_default_publishes(&builder, 2);
    assert!(!event_loop.has_pending_events());
    event_loop.check_default_publishes(&builder, 0);
    let pending = event_loop.bus().peek_pending(&HatId::new("planner")).unwrap();
    assert_eq!(topics(pending), vec!["build.done"]);
    assert_eq!(pending[0].source.as_ref().unwrap().as_str(), "builder");
}

#[test]
fn loop_queries() {
    let mut event_loop = EventLoop::new(LoopConfig::new("LOOP_COMPLETE"), vec![Hat::default_builder(), Hat::default_planner()]);
    assert_eq!(event_loop.get_hat_publishes(&HatId::new("builder")), vec!["build.done", "build.blocked"]);
    assert!(event_loop.get_hat_publishes(&HatId::new("nobody")).is_empty());
    assert!(event_loop.check_ralph_completion("<event topic=\"LOOP_COMPLETE\">done</event>"));
    assert!(!event_loop.check_ralph_completion("LOOP_COMPLETE"));
    assert_eq!(event_loop.current_risk_tier(), "Unknown");
    assert_eq!(event_loop.active_task_id(), "pending");
    assert_eq!(event_loop.get_active_hat_id().as_str(), "ralph");
    event_loop.publish(Event::new("build.task", "x"));
    assert_eq!(event_loop.get_active_hat_id().as_str(), "builder");
    event_loop.initialize("Tweak the readme docs", false);
    assert_eq!(event_loop.current_risk_tier(), "Tier3");
}

#[test]
fn records_have_fixed_layouts() {
    let q = RecoveryQueue::new("/ws");
    assert_eq!(q.path(), "/ws/RECOVERY_QUEUE.md");
    assert!(!RecoveryQueue::blocks("  \n"));
    assert!(RecoveryQueue::blocks("x"));
    let entry = RecoveryQueue::entry("2024-01-01 00:00:00 UTC", "T1", "failed", Some("abc"));
    assert!(entry.contains("- **ID:** T1\n- **Reason:** failed"));
    assert!(entry.contains("`git reset --hard abc`"));
    let entry = RecoveryQueue::entry("t", "T1", "failed", None);
    assert!(entry.contains("Last Safe Snapshot:** `unknown`"));
    assert_eq!(AuditLogger::new("/ws/").path(), "/ws/RequestLog.md");
    assert_eq!(AuditLogger::log_halt("t", "main", "why"), "| t | LOOP_HALTED | main | why |");
    assert_eq!(AuditLogger::log_recovery("t", "main"), "| t | LOOP_RESUMED | main | Recovery queue cleared by human |");
    let m = StatusManager::new("ws");
    assert_eq!(m.json_path(), "ws/.captain-status.json");
    assert_eq!(ralph_core::records::format_cost(1_234_567), "1.2346");
    assert_eq!(ralph_core::records::format_cost(0), "0.0000");
}

#[test]
fn injected_prefix_starts_with_memories() {
    let mut registry = ralph_core::SkillRegistry::new(None);
    registry.register_builtins();
    let settings = InjectSettings { memories_enabled: true, memories_auto: true, memories_budget: 5, tasks_enabled: false, robot_enabled: false };
    let prefix = registry.auto_inject_prefix(&settings, "0123456789");
    assert_eq!(prefix, "56789");
    assert_eq!(truncate_to_budget("abc", 0), "abc");
    let mut o = ralph_core::SkillOverride::none();
    o.auto_inject = Some(true);
    registry.apply_overrides(&vec![("tasks".to_string(), o)]);
    let prefix = registry.auto_inject_prefix(&settings, "");
    assert!(prefix.starts_with("<tasks-skill>\n# Ralph Tasks"));
    assert!(prefix.ends_with("</tasks-skill>"));
}

#[test]
fn ready_tasks_lists_ready_and_blocked() {
    let t1 = TaskLine { id: "t1".into(), title: "One".into(), priority: 20, in_progress: false, blocked_by: vec![] };
    let t1b = TaskLine { id: "t1".into(), title: "One".into(), priority: 20, in_progress: false, blocked_by: vec![] };
    let t2 = TaskLine { id: "t2".into(), title: "Two".into(), priority: 30, in_progress: false, blocked_by: vec!["t1".into()] };
    let s = ready_tasks_section(&vec![t1], &vec![t1b, t2], 3);
    assert_eq!(s, "<ready-tasks>\n## Tasks: 1 ready, 2 open, 3 closed\n\n- [ ] [P20] One (t1)\n\nBlocked:\n- [blocked] [P30] Two (t2) — blocked by: t1\n</ready-tasks>\n\n");
    assert_eq!(ready_tasks_section(&vec![], &vec![], 0), "");
    assert_eq!(ready_tasks_section(&vec![], &vec![], 2), "<ready-tasks>\nNo open tasks. Create tasks with `ralph tools task add`.\n</ready-tasks>\n\n");
}

#[test]
fn human_decision_picks_matching_option() {
    let mut event_loop = EventLoop::new(LoopConfig::new("LOOP_COMPLETE"), Vec::new());
    assert_eq!(event_loop.record_human_decision("a"), None);
    let options = ralph_core::ProactiveOptions {
        question: "UUID or integer ids?".to_string(),
        options: vec![
            ralph_core::OptionChoice { id: "A".into(), description: "UUIDs".into(), pros: vec![], cons: vec![], impact: "migration".into() },
            ralph_core::OptionChoice { id: "B".into(), description: "Integers".into(), pros: vec![], cons: vec![], impact: "none".into() },
        ],
    };
    event_loop.set_active_options(options);
    assert_eq!(event_loop.record_human_decision("  b "), Some("B".to_string()));
    assert_eq!(event_loop.state().human_decision.as_deref(), Some("B"));
    assert!(event_loop.has_pending_human_events());
    let prompt = event_loop.build_prompt(&HatId::new("ralph"), false, "", "s.md", "").unwrap();
    assert!(prompt.contains("[HUMAN DECISION: Use Option B]"));
    assert!(prompt.contains("Event: human.response - Human Decision: Use Option B"));
    let audit = event_loop.take_audit_entries();
    assert!(audit.iter().any(|(k, d)| k == "HUMAN_DECISION" && d == "Question: UUID or integer ids? | Selected: B"));
}

#[test]
fn journal_triage_decision_sets_routing_mode() {
    let mut event_loop = EventLoop::new(LoopConfig::new("LOOP_COMPLETE"), Vec::new());
    let batch = ParseResult {
        events: vec![JournalEvent {
            topic: "triage.decision".to_string(),
            payload: Some("{\"mode\":\"Full\",\"reason\":\"x\",\"confidence\":0.6}".to_string()),
            triage: Some(ralph_core::TriageDecision { mode: RoutingMode::Full, reason: "x".to_string(), confidence: 60 }),
            strategy: None,
        }],
        malformed: Vec::new(),
    };
    event_loop.process_events(batch);
    assert_eq!(event_loop.bus().routing_mode(), Some(RoutingMode::Full));
}

#[test]
fn status_snapshot_reflects_the_loop() {
    let mut event_loop = EventLoop::new(LoopConfig::new("LOOP_COMPLETE"), Vec::new());
    event_loop.record_snapshot("abc123");
    event_loop.process_output(&HatId::new("builder"), true, false, false);
    let s = event_loop.status_snapshot("Ship it", true);
    assert_eq!(s.objective, "Ship it");
    assert_eq!(s.active_task.hat, "builder");
    assert_eq!(s.active_task.risk_tier, "Unknown");
    assert_eq!(s.health.iteration, 1);
    assert_eq!(s.health.max_iterations, 100);
    assert_eq!(s.safety.last_snapshot_sha, "abc123");
    assert!(s.safety.recovery_queue_blocked);
    let md = StatusManager::format_markdown(&s);
    assert!(md.contains("- **Iteration:** 1 / 100\n"));
    assert!(md.contains("- **Status:** HALTED (Recovery Required)\n"));
}

#[test]
fn prompt_collects_events_in_hat_order() {
    let hats = vec![Hat::new("zeta", "Z").subscribe("z.*"), Hat::new("alpha", "A").subscribe("a.*")];
    let mut event_loop = EventLoop::new(LoopConfig::new("LOOP_COMPLETE"), hats);
    event_loop.publish(Event::new("z.go", "last"));
    event_loop.publish(Event::new("a.go", "first"));
    let prompt = event_loop.build_prompt(&HatId::new("ralph"), false, "", "s.md", "").unwrap();
    assert!(prompt.find("first").unwrap() < prompt.find("last").unwrap());
}

#[test]
fn triage_uses_the_listed_keywords() {
    let t = TriageHat::new();
    assert_eq!(t.analyze("fix typo in test").mode, RoutingMode::Simple);
    assert_eq!(t.analyze("Update the build guide").mode, RoutingMode::Simple);
    let lower: Vec<char> = "rewrite the module".chars().collect();
    assert_eq!(ralph_core::triage::classify(&lower, 18), (RoutingMode::Full, 85));
}

#[test]
fn verify_failure_names_the_dimensions() {
    let mut event_loop = EventLoop::new(LoopConfig::new("LOOP_COMPLETE"), Vec::new());
    let outcome = event_loop.process_events(journal(&[("verify.passed", Some("quality.tests: pass\nquality.coverage: 60%\nquality.lint: pass\nquality.audit: pass\nquality.mutation: 75%\nquality.complexity: 3"))]));
    assert!(outcome.published[0].payload.starts_with("Quality thresholds failed: coverage. Include"));
}

#[test]
fn every_ingested_event_reaches_the_observers_in_order() {
    let mut event_loop = EventLoop::new(LoopConfig::new("LOOP_COMPLETE"), Vec::new());
    let mut batch = journal(&[("build.blocked", Some("T9")), ("note", Some("x"))]);
    batch.malformed.push(MalformedLine { line_number: 4, content: "{".to_string(), error: "eof".to_string() });
    event_loop.process_events(batch);
    let seen = event_loop.take_observed();
    assert_eq!(topics(&seen), vec!["event.malformed", "build.blocked", "note"]);
}
