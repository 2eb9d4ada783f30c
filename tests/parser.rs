use ralph_core::ansi::strip_ansi_chars;
use ralph_core::evidence::{extract_first_number, extract_percentage};
use ralph_core::{Decimal, EventParser, MutationStatus};

fn chars(s: &str) -> Vec<char> {
    s.chars().collect()
}

#[test]
fn test_parse_single_event() {
    let output = r#"
Some preamble text.
<event topic="impl.done">
Implemented the authentication module.
</event>
Some trailing text.
"#;
    let parser = EventParser::new();
    let events = parser.parse(output);

    assert_eq!(events.len(), 1);
    assert_eq!(events[0].topic.as_str(), "impl.done");
    assert!(events[0].payload.contains("authentication module"));
}

#[test]
fn test_parse_event_with_target() {
    let output = r#"<event topic="handoff" target="inspector">Please inspect</event>"#;
    let parser = EventParser::new();
    let events = parser.parse(output);

    assert_eq!(events.len(), 1);
    assert_eq!(events[0].target.as_ref().unwrap().as_str(), "inspector");
}

#[test]
fn test_parse_multiple_events() {
    let output = r#"
<event topic="impl.started">Starting work</event>
Working on implementation...
<event topic="impl.done">Finished</event>
"#;
    let parser = EventParser::new();
    let events = parser.parse(output);

    assert_eq!(events.len(), 2);
    assert_eq!(events[0].topic.as_str(), "impl.started");
    assert_eq!(events[1].topic.as_str(), "impl.done");
}

#[test]
fn test_parse_with_source() {
    let output = r#"<event topic="impl.done">Done</event>"#;
    let parser = EventParser::new().with_source("implementer");
    let events = parser.parse(output);

    assert_eq!(events[0].source.as_ref().unwrap().as_str(), "implementer");
}

#[test]
fn test_no_events() {
    let output = "Just regular output with no events.";
    let parser = EventParser::new();
    let events = parser.parse(output);

    assert!(events.is_empty());
}

#[test]
fn test_contains_promise_requires_last_line() {
    assert!(EventParser::contains_promise("LOOP_COMPLETE", "LOOP_COMPLETE"));
    assert!(EventParser::contains_promise("All done!\nLOOP_COMPLETE", "LOOP_COMPLETE"));
    assert!(EventParser::contains_promise("LOOP_COMPLETE   \n\n", "LOOP_COMPLETE"));
    assert!(!EventParser::contains_promise("prefix LOOP_COMPLETE suffix", "LOOP_COMPLETE"));
    assert!(!EventParser::contains_promise("LOOP_COMPLETE\nMore text", "LOOP_COMPLETE"));
    assert!(!EventParser::contains_promise("Any output", "   "));
    assert!(!EventParser::contains_promise("No promise here", "LOOP_COMPLETE"));
}

#[test]
fn test_contains_promise_ignores_event_payloads() {
    let output = r#"<event topic="build.task">Fix LOOP_COMPLETE detection</event>"#;
    assert!(!EventParser::contains_promise(output, "LOOP_COMPLETE"));

    let output = r#"<event topic="build.task">
## Task: Fix completion promise detection
- Given LOOP_COMPLETE appears inside an event tag
- Then it should be ignored
</event>"#;
    assert!(!EventParser::contains_promise(output, "LOOP_COMPLETE"));
}

#[test]
fn test_contains_promise_detects_outside_events() {
    let output = r#"<event topic="build.done">Task complete</event>
All done!
LOOP_COMPLETE"#;
    assert!(EventParser::contains_promise(output, "LOOP_COMPLETE"));

    let output = r#"LOOP_COMPLETE
<event topic="summary">Final summary</event>"#;
    assert!(EventParser::contains_promise(output, "LOOP_COMPLETE"));
}

#[test]
fn test_contains_promise_mixed_content() {
    let output = r#"Working on task...
<event topic="build.task">Fix LOOP_COMPLETE bug</event>
Still working..."#;
    assert!(!EventParser::contains_promise(output, "LOOP_COMPLETE"));

    let output = r#"All tasks done. LOOP_COMPLETE
<event topic="summary">Completed LOOP_COMPLETE task</event>"#;
    assert!(!EventParser::contains_promise(output, "LOOP_COMPLETE"));
}

#[test]
fn test_promise_in_event_tags() {
    let output = r#"<event topic="build.task">Fix LOOP_COMPLETE bug</event>"#;
    assert!(EventParser::promise_in_event_tags(output, "LOOP_COMPLETE"));

    let output = r#"<event topic="build.done">Task complete</event>"#;
    assert!(!EventParser::promise_in_event_tags(output, "LOOP_COMPLETE"));

    let output = "Just regular text with LOOP_COMPLETE";
    assert!(!EventParser::promise_in_event_tags(output, "LOOP_COMPLETE"));

    let output = r#"<event topic="a">first</event>
<event topic="b">contains LOOP_COMPLETE</event>"#;
    assert!(EventParser::promise_in_event_tags(output, "LOOP_COMPLETE"));
}

#[test]
fn test_strip_event_tags() {
    let output = r#"before <event topic="test">payload</event> after"#;
    let stripped = EventParser::strip_event_tags(output);
    assert_eq!(stripped, "before  after");
    assert!(!stripped.contains("payload"));

    let output = r#"start <event topic="a">one</event> middle <event topic="b">two</event> end"#;
    let stripped = EventParser::strip_event_tags(output);
    assert_eq!(stripped, "start  middle  end");

    let output = "just plain text";
    let stripped = EventParser::strip_event_tags(output);
    assert_eq!(stripped, "just plain text");
}

#[test]
fn test_parse_backpressure_evidence_all_pass() {
    let payload = "tests: pass\nlint: pass\ntypecheck: pass\naudit: pass\ncoverage: pass\ncomplexity: 7\nduplication: pass\nperformance: pass";
    let evidence = EventParser::parse_backpressure_evidence(payload).unwrap();
    assert!(evidence.tests_passed);
    assert!(evidence.lint_passed);
    assert!(evidence.typecheck_passed);
    assert!(evidence.audit_passed);
    assert!(evidence.coverage_passed);
    assert_eq!(evidence.complexity_score, Some(Decimal::whole(7)));
    assert!(evidence.duplication_passed);
    assert_eq!(evidence.performance_regression, Some(false));
    assert!(evidence.all_passed());
}

#[test]
fn test_parse_backpressure_evidence_some_fail() {
    let payload = "tests: pass\nlint: fail\ntypecheck: pass\naudit: pass\ncoverage: pass\ncomplexity: 7\nduplication: pass\nperformance: pass";
    let evidence = EventParser::parse_backpressure_evidence(payload).unwrap();
    assert!(evidence.tests_passed);
    assert!(!evidence.lint_passed);
    assert!(evidence.typecheck_passed);
    assert!(evidence.audit_passed);
    assert!(evidence.coverage_passed);
    assert_eq!(evidence.complexity_score, Some(Decimal::whole(7)));
    assert!(evidence.duplication_passed);
    assert_eq!(evidence.performance_regression, Some(false));
    assert!(!evidence.all_passed());
}

#[test]
fn test_parse_backpressure_evidence_missing() {
    let payload = "Task completed successfully";
    let evidence = EventParser::parse_backpressure_evidence(payload);
    assert!(evidence.is_none());
}

#[test]
fn test_parse_backpressure_evidence_partial() {
    let payload = "tests: pass\nSome other text";
    let evidence = EventParser::parse_backpressure_evidence(payload).unwrap();
    assert!(evidence.tests_passed);
    assert!(!evidence.lint_passed);
    assert!(!evidence.typecheck_passed);
    assert!(!evidence.audit_passed);
    assert!(!evidence.coverage_passed);
    assert!(evidence.complexity_score.is_none());
    assert!(!evidence.duplication_passed);
    assert!(evidence.performance_regression.is_none());
    assert!(!evidence.all_passed());
}

#[test]
fn test_parse_backpressure_evidence_with_ansi_codes() {
    let payload = "\x1b[0mtests: pass\x1b[0m\n\x1b[32mlint: pass\x1b[0m\ntypecheck: pass\n\x1b[34maudit: pass\x1b[0m\n\x1b[35mcoverage: pass\x1b[0m\n\x1b[36mcomplexity: 7\x1b[0m\n\x1b[31mduplication: pass\x1b[0m\n\x1b[33mperformance: pass\x1b[0m";
    let evidence = EventParser::parse_backpressure_evidence(payload).unwrap();
    assert!(evidence.tests_passed);
    assert!(evidence.lint_passed);
    assert!(evidence.typecheck_passed);
    assert!(evidence.audit_passed);
    assert!(evidence.coverage_passed);
    assert_eq!(evidence.complexity_score, Some(Decimal::whole(7)));
    assert!(evidence.duplication_passed);
    assert_eq!(evidence.performance_regression, Some(false));
    assert!(evidence.all_passed());
}

#[test]
fn test_parse_backpressure_evidence_with_mutants_pass() {
    let payload = "tests: pass\nlint: pass\ntypecheck: pass\naudit: pass\ncoverage: pass\ncomplexity: 7\nduplication: pass\nperformance: pass\nmutants: pass (82%)";
    let evidence = EventParser::parse_backpressure_evidence(payload).unwrap();
    let mutants = evidence.mutants.as_ref().expect("mutants evidence should parse");
    assert_eq!(mutants.status, MutationStatus::Pass);
    assert_eq!(mutants.score_percent, Some(Decimal::whole(82)));
    assert_eq!(evidence.performance_regression, Some(false));
    assert!(evidence.all_passed());
}

#[test]
fn test_parse_backpressure_evidence_with_mutants_warn() {
    let payload = "tests: pass, lint: pass, typecheck: pass, audit: pass, coverage: pass, complexity: 7, duplication: pass, performance: pass, mutants: warn (65%)";
    let evidence = EventParser::parse_backpressure_evidence(payload).unwrap();
    let mutants = evidence.mutants.as_ref().expect("mutants evidence should parse");
    assert_eq!(mutants.status, MutationStatus::Warn);
    assert_eq!(mutants.score_percent, Some(Decimal::whole(65)));
    assert_eq!(evidence.performance_regression, Some(false));
    assert!(evidence.all_passed());
}

#[test]
fn test_parse_backpressure_evidence_with_performance_regression() {
    let payload = "tests: pass\nlint: pass\ntypecheck: pass\naudit: pass\ncoverage: pass\ncomplexity: 7\nduplication: pass\nperformance: regression";
    let evidence = EventParser::parse_backpressure_evidence(payload).unwrap();
    assert_eq!(evidence.performance_regression, Some(true));
    assert!(!evidence.all_passed());
}

#[test]
fn test_parse_review_evidence_all_pass() {
    let payload = "tests: pass\nbuild: pass";
    let evidence = EventParser::parse_review_evidence(payload).unwrap();
    assert!(evidence.tests_passed);
    assert!(evidence.build_passed);
    assert!(evidence.is_verified());
}

#[test]
fn test_parse_review_evidence_tests_fail() {
    let payload = "tests: fail\nbuild: pass";
    let evidence = EventParser::parse_review_evidence(payload).unwrap();
    assert!(!evidence.tests_passed);
    assert!(evidence.build_passed);
    assert!(!evidence.is_verified());
}

#[test]
fn test_parse_review_evidence_build_fail() {
    let payload = "tests: pass\nbuild: fail";
    let evidence = EventParser::parse_review_evidence(payload).unwrap();
    assert!(evidence.tests_passed);
    assert!(!evidence.build_passed);
    assert!(!evidence.is_verified());
}

#[test]
fn test_parse_review_evidence_missing() {
    let payload = "Looks good, approved!";
    let evidence = EventParser::parse_review_evidence(payload);
    assert!(evidence.is_none());
}

#[test]
fn test_parse_review_evidence_partial() {
    let payload = "tests: pass\nLooks fine";
    let evidence = EventParser::parse_review_evidence(payload).unwrap();
    assert!(evidence.tests_passed);
    assert!(!evidence.build_passed);
    assert!(!evidence.is_verified());
}

#[test]
fn test_parse_review_evidence_with_ansi_codes() {
    let payload = "\x1b[32mtests: pass\x1b[0m\n\x1b[32mbuild: pass\x1b[0m";
    let evidence = EventParser::parse_review_evidence(payload).unwrap();
    assert!(evidence.tests_passed);
    assert!(evidence.build_passed);
    assert!(evidence.is_verified());
}

#[test]
fn test_parse_quality_report_passes_thresholds() {
    let payload = "quality.tests: pass\nquality.coverage: 82% (>=80%)\nquality.lint: pass\nquality.audit: pass\nquality.mutation: 71% (>=70%)\nquality.complexity: 7 (<=10)";
    let report = EventParser::parse_quality_report(payload).unwrap();
    assert_eq!(report.tests_passed, Some(true));
    assert_eq!(report.lint_passed, Some(true));
    assert_eq!(report.audit_passed, Some(true));
    assert_eq!(report.coverage_percent, Some(Decimal::whole(82)));
    assert_eq!(report.mutation_percent, Some(Decimal::whole(71)));
    assert_eq!(report.complexity_score, Some(Decimal::whole(7)));
    assert!(report.meets_thresholds());
}

#[test]
fn test_parse_quality_report_fails_thresholds() {
    let payload = "quality.tests: pass\nquality.coverage: 60%\nquality.lint: fail\nquality.audit: pass\nquality.mutation: 50%\nquality.complexity: 12";
    let report = EventParser::parse_quality_report(payload).unwrap();
    assert!(!report.meets_thresholds());
}

#[test]
fn test_parse_quality_report_missing() {
    let payload = "Looks good, approved!";
    let report = EventParser::parse_quality_report(payload);
    assert!(report.is_none());
}

#[test]
fn test_extract_first_number_quality_line() {
    let value = extract_first_number(&chars("quality.complexity: 7 (<=10)"));
    assert_eq!(value, Some(Decimal::whole(7)));
}

#[test]
fn test_parse_backpressure_evidence_with_specs_pass() {
    let payload = "tests: pass\nlint: pass\ntypecheck: pass\naudit: pass\ncoverage: pass\ncomplexity: 7\nduplication: pass\nperformance: pass\nspecs: pass";
    let evidence = EventParser::parse_backpressure_evidence(payload).unwrap();
    assert_eq!(evidence.specs_verified, Some(true));
    assert!(evidence.all_passed());
}

#[test]
fn test_parse_backpressure_evidence_with_specs_fail() {
    let payload = "tests: pass\nlint: pass\ntypecheck: pass\naudit: pass\ncoverage: pass\ncomplexity: 7\nduplication: pass\nperformance: pass\nspecs: fail";
    let evidence = EventParser::parse_backpressure_evidence(payload).unwrap();
    assert_eq!(evidence.specs_verified, Some(false));
    assert!(!evidence.all_passed(), "specs: fail should block build.done");
}

#[test]
fn test_parse_backpressure_evidence_specs_omitted_does_not_block() {
    let payload = "tests: pass\nlint: pass\ntypecheck: pass\naudit: pass\ncoverage: pass\ncomplexity: 7\nduplication: pass\nperformance: pass";
    let evidence = EventParser::parse_backpressure_evidence(payload).unwrap();
    assert_eq!(evidence.specs_verified, None);
    assert!(evidence.all_passed(), "missing specs should not block build.done");
}

#[test]
fn test_parse_backpressure_evidence_specs_comma_separated() {
    let payload = "tests: pass, lint: pass, typecheck: pass, audit: pass, coverage: pass, complexity: 7, duplication: pass, performance: pass, specs: pass";
    let evidence = EventParser::parse_backpressure_evidence(payload).unwrap();
    assert_eq!(evidence.specs_verified, Some(true));
    assert!(evidence.all_passed());
}

#[test]
fn test_parse_specs_evidence_only() {
    let payload = "specs: pass";
    let evidence = EventParser::parse_backpressure_evidence(payload).unwrap();
    assert_eq!(evidence.specs_verified, Some(true));
}

#[test]
fn test_quality_report_with_specs_pass() {
    let payload = "quality.tests: pass\nquality.coverage: 82%\nquality.lint: pass\nquality.audit: pass\nquality.mutation: 71%\nquality.complexity: 7\nquality.specs: pass";
    let report = EventParser::parse_quality_report(payload).unwrap();
    assert_eq!(report.specs_verified, Some(true));
    assert!(report.meets_thresholds());
}

#[test]
fn test_quality_report_with_specs_fail() {
    let payload = "quality.tests: pass\nquality.coverage: 82%\nquality.lint: pass\nquality.audit: pass\nquality.mutation: 71%\nquality.complexity: 7\nquality.specs: fail";
    let report = EventParser::parse_quality_report(payload).unwrap();
    assert_eq!(report.specs_verified, Some(false));
    assert!(!report.meets_thresholds(), "specs: fail should fail quality thresholds");
    assert!(report.failed_dimensions().contains(&"specs"));
}

#[test]
fn test_quality_report_specs_omitted_passes() {
    let payload = "quality.tests: pass\nquality.coverage: 82%\nquality.lint: pass\nquality.audit: pass\nquality.mutation: 71%\nquality.complexity: 7";
    let report = EventParser::parse_quality_report(payload).unwrap();
    assert_eq!(report.specs_verified, None);
    assert!(report.meets_thresholds(), "missing specs should not fail quality thresholds");
    assert!(!report.failed_dimensions().contains(&"specs"));
}

#[test]
fn test_strip_ansi_function() {
    let payload = "\x1b[0mtests: pass\x1b[0m";
    let evidence = EventParser::parse_backpressure_evidence(payload).unwrap();
    assert!(evidence.tests_passed);

    let payload = "\x1b[1m\x1b[32mtests: pass\x1b[0m";
    let evidence = EventParser::parse_backpressure_evidence(payload).unwrap();
    assert!(evidence.tests_passed);

    let payload = "\x1b[31mtests: fail\x1b[0m\n\x1b[32mlint: pass\x1b[0m";
    let evidence = EventParser::parse_backpressure_evidence(payload).unwrap();
    assert!(!evidence.tests_passed);
    assert!(evidence.lint_passed);
    assert!(!evidence.coverage_passed);
}

#[test]
fn strip_ansi_removes_osc_and_simple_escapes() {
    let stripped: String = strip_ansi_chars(&chars("a\x1b]0;title\x07b\x1b]8;;x\x1b\\c\x1bMd")).into_iter().collect();
    assert_eq!(stripped, "abcd");
}

#[test]
fn strip_ansi_is_idempotent_before_parsing() {
    let raw = "\x1b[32mtests: pass\x1b[0m\n\x1b]0;t\x07lint: fail\ncomplexity: 12";
    let once: String = strip_ansi_chars(&chars(raw)).into_iter().collect();
    let twice: String = strip_ansi_chars(&chars(&once)).into_iter().collect();
    assert_eq!(once, twice);
    assert_eq!(
        EventParser::parse_backpressure_evidence(&once),
        EventParser::parse_backpressure_evidence(&twice)
    );
}

#[test]
fn decimal_values_with_fractions_compare_exactly() {
    assert_eq!(extract_first_number(&chars("complexity: 10.0")), Some(Decimal::whole(10)));
    let d = extract_first_number(&chars("complexity: 10.0001")).unwrap();
    assert!(!d.at_most(10));
    assert_eq!(extract_first_number(&chars("complexity: 7.25")), Some(Decimal { thousandths: 7250, finer: false }));
    assert_eq!(extract_first_number(&chars("complexity: 1.2.3")), None);
    assert_eq!(extract_percentage(&chars("coverage .5%")), Some(Decimal { thousandths: 500, finer: false }));
    assert_eq!(extract_percentage(&chars("no digits %")), None);
}

#[test]
fn complexity_above_ten_fails_backpressure() {
    let payload = "tests: pass\nlint: pass\ntypecheck: pass\naudit: pass\ncoverage: pass\ncomplexity: 11\nduplication: pass";
    let evidence = EventParser::parse_backpressure_evidence(payload).unwrap();
    assert!(!evidence.all_passed());
}

#[test]
fn failed_dimensions_are_listed_in_order() {
    let payload = "quality.tests: pass\nquality.coverage: 60%\nquality.lint: fail\nquality.audit: pass\nquality.mutation: 50%\nquality.complexity: 12";
    let report = EventParser::parse_quality_report(payload).unwrap();
    assert_eq!(report.failed_dimensions(), vec!["lint", "coverage", "mutation", "complexity"]);
}

#[test]
fn ambiguity_request_is_detected_outside_event_tags() {
    assert!(EventParser::parse_ambiguity_request("I NEED CLARIFICATION on the schema"));
    assert!(!EventParser::parse_ambiguity_request("<event topic=\"x\">need clarification</event> done"));
    assert!(!EventParser::parse_ambiguity_request("All good"));
}

#[test]
fn extract_attr_reads_quoted_values() {
    assert_eq!(EventParser::extract_attr("<event topic=\"a.b\" target=\"x\">", "target"), Some("x".to_string()));
    assert_eq!(EventParser::extract_attr("<event topic=\"a.b\">", "target"), None);
}
