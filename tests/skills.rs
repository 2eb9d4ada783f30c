use ralph_core::skills::{split_frontmatter, MEMORIES_SKILL};
use ralph_core::{SkillFrontmatter, SkillOverride, SkillRegistry, SkillSource};

fn strings(v: Option<&serde_yaml::Value>) -> Vec<String> {
    v.and_then(|x| x.as_sequence())
        .map(|s| s.iter().filter_map(|i| i.as_str().map(String::from)).collect())
        .unwrap_or_default()
}

/// Reads frontmatter the way the application does, through serde_yaml.
fn frontmatter_of(yaml: &str) -> Option<SkillFrontmatter> {
    let v: serde_yaml::Value = serde_yaml::from_str(yaml).ok()?;
    if !(v.is_mapping() || v.is_null()) {
        return None;
    }
    Some(SkillFrontmatter {
        name: v.get("name").and_then(|x| x.as_str()).map(String::from),
        description: v.get("description").and_then(|x| x.as_str()).map(String::from),
        hats: strings(v.get("hats")),
        backends: strings(v.get("backends")),
        tags: strings(v.get("tags")),
    })
}

fn register_builtin(registry: &mut SkillRegistry, fallback: &str, raw: &str) {
    let (yaml, body) = split_frontmatter(raw);
    let fm = yaml.and_then(|y| frontmatter_of(&y));
    registry.register_document(fallback, fm, body, SkillSource::BuiltIn);
}

fn override_with(name: &str, o: SkillOverride) -> Vec<(String, SkillOverride)> {
    vec![(name.to_string(), o)]
}

#[test]
fn test_register_builtin_skill() {
    let mut registry = SkillRegistry::new(None);
    register_builtin(&mut registry, "memories", MEMORIES_SKILL);

    let skill = registry.get("ralph-memories").expect("should find built-in skill");
    assert!(matches!(skill.source, SkillSource::BuiltIn));
    assert!(!skill.description.is_empty());
    assert!(skill.content.contains("# Ralph Memories"));
    assert!(!skill.content.contains("name: ralph-memories"));
}

#[test]
fn test_register_builtins() {
    let mut registry = SkillRegistry::new(None);
    registry.register_builtins();

    assert!(registry.get("ralph-memories").is_some());
    assert!(registry.get("tasks").is_some());
}

#[test]
fn test_builtin_skills_present_in_registry() {
    let mut registry = SkillRegistry::new(None);
    registry.register_builtins();
    assert!(registry.get("ralph-memories").is_some(), "Built-in memories skill should be registered");
    assert!(registry.get("tasks").is_some(), "Built-in tasks skill should be registered");
}

#[test]
fn test_get_returns_none_for_unknown() {
    let registry = SkillRegistry::new(None);
    assert!(registry.get("nonexistent").is_none());
}

#[test]
fn test_override_disables_skill() {
    let mut registry = SkillRegistry::new(None);
    registry.register_builtins();
    assert!(registry.get("ralph-memories").is_some());

    let mut o = SkillOverride::none();
    o.enabled = Some(false);
    registry.apply_overrides(&override_with("ralph-memories", o));

    assert!(registry.get("ralph-memories").is_none());
}

#[test]
fn test_override_adds_hat_restriction() {
    let mut registry = SkillRegistry::new(None);
    registry.register_builtins();

    let mut o = SkillOverride::none();
    o.hats = vec!["builder".to_string()];
    registry.apply_overrides(&override_with("ralph-memories", o));

    let skill = registry.get("ralph-memories").unwrap();
    assert_eq!(skill.hats, vec!["builder"]);
}

#[test]
fn test_override_sets_auto_inject() {
    let mut registry = SkillRegistry::new(None);
    registry.register_builtins();

    let mut o = SkillOverride::none();
    o.auto_inject = Some(true);
    registry.apply_overrides(&override_with("ralph-memories", o));

    let skill = registry.get("ralph-memories").unwrap();
    assert!(skill.auto_inject);
}

#[test]
fn test_backend_filtering() {
    let mut registry = SkillRegistry::new(Some("amp"));
    register_builtin(&mut registry, "amp-only", "---\nname: amp-only\ndescription: Amp\nbackends: [amp]\n---\nContent.\n");
    register_builtin(&mut registry, "gemini-only", "---\nname: gemini-only\ndescription: Gemini\nbackends: [gemini]\n---\nContent.\n");
    register_builtin(&mut registry, "any-backend", "---\nname: any-backend\ndescription: Any\n---\nContent.\n");

    let visible = registry.skills_for_hat(None);
    let names: Vec<&str> = visible.iter().map(|s| s.name.as_str()).collect();
    assert!(names.contains(&"amp-only"));
    assert!(!names.contains(&"gemini-only"));
    assert!(names.contains(&"any-backend"));
}

#[test]
fn test_hat_filtering() {
    let mut registry = SkillRegistry::new(None);
    register_builtin(&mut registry, "builder-only", "---\nname: builder-only\ndescription: Builder\nhats: [builder]\n---\nContent.\n");
    register_builtin(&mut registry, "all-hats", "---\nname: all-hats\ndescription: All\n---\nContent.\n");

    let builder_skills = registry.skills_for_hat(Some("builder"));
    let builder_names: Vec<&str> = builder_skills.iter().map(|s| s.name.as_str()).collect();
    assert!(builder_names.contains(&"builder-only"));
    assert!(builder_names.contains(&"all-hats"));

    let inspector_skills = registry.skills_for_hat(Some("inspector"));
    let inspector_names: Vec<&str> = inspector_skills.iter().map(|s| s.name.as_str()).collect();
    assert!(!inspector_names.contains(&"builder-only"));
    assert!(inspector_names.contains(&"all-hats"));
}

#[test]
fn test_auto_inject_skills_only_returns_auto_inject() {
    let mut registry = SkillRegistry::new(None);
    registry.register_builtins();

    let auto = registry.auto_inject_skills(None);
    assert!(auto.is_empty());

    let mut o = SkillOverride::none();
    o.auto_inject = Some(true);
    registry.apply_overrides(&override_with("ralph-memories", o));

    let auto = registry.auto_inject_skills(None);
    assert_eq!(auto.len(), 1);
    assert_eq!(auto[0].name, "ralph-memories");
}

#[test]
fn test_build_index_generates_table() {
    let mut registry = SkillRegistry::new(None);
    registry.register_builtins();

    let index = registry.build_index(None);
    assert!(index.contains("## SKILLS"));
    assert!(index.contains("| Skill | Description | Load Command |"));
    assert!(index.contains("ralph-memories"));
    assert!(index.contains("tasks"));
    assert!(index.contains("`ralph tools skill load"));
}

#[test]
fn test_build_index_empty_registry() {
    let registry = SkillRegistry::new(None);
    let index = registry.build_index(None);
    assert!(index.is_empty());
}

#[test]
fn test_build_index_hat_filtering() {
    let mut registry = SkillRegistry::new(None);
    register_builtin(&mut registry, "builder-only", "---\nname: builder-only\ndescription: Builder\nhats: [builder]\n---\nContent.\n");
    register_builtin(&mut registry, "all-hats", "---\nname: all-hats\ndescription: All\n---\nContent.\n");

    let builder_index = registry.build_index(Some("builder"));
    assert!(builder_index.contains("builder-only"));
    assert!(builder_index.contains("all-hats"));

    let inspector_index = registry.build_index(Some("inspector"));
    assert!(!inspector_index.contains("builder-only"));
    assert!(inspector_index.contains("all-hats"));
}

#[test]
fn skill_registry_test_load_skill_xml_wrapping() {
    let mut registry = SkillRegistry::new(None);
    registry.register_builtins();

    let loaded = registry.load_skill("ralph-memories").expect("should load skill");
    assert!(loaded.starts_with("<ralph-memories-skill>"));
    assert!(loaded.ends_with("</ralph-memories-skill>"));
    assert!(loaded.contains("# Ralph Memories"));
    assert!(!loaded.contains("name: ralph-memories"));
}

#[test]
fn test_load_skill_unknown() {
    let registry = SkillRegistry::new(None);
    assert!(registry.load_skill("nonexistent").is_none());
}

#[test]
fn index_lists_skills_in_name_order() {
    let mut registry = SkillRegistry::new(None);
    register_builtin(&mut registry, "zeta", "Z body");
    register_builtin(&mut registry, "alpha", "A body");
    let index = registry.build_index(None);
    let a = index.find("| alpha |").unwrap();
    let z = index.find("| zeta |").unwrap();
    assert!(a < z);
    assert!(index.ends_with("\nTo load a skill, run the load command. The skill content will guide you.\n"));
}

#[test]
fn test_parse_no_frontmatter() {
    let raw = "# Just Markdown\n\nNo frontmatter here.\n";
    let (fm, body) = split_frontmatter(raw);
    assert!(fm.is_none());
    assert_eq!(body, raw);
}

#[test]
fn test_parse_no_closing_delimiter() {
    let raw = "---\nname: broken\nNo closing delimiter\n";
    let (fm, body) = split_frontmatter(raw);
    assert!(fm.is_none());
    assert_eq!(body, raw);
}

#[test]
fn test_content_body_strips_frontmatter_delimiters() {
    let raw = "---\nname: test\n---\nFirst line of body.\nSecond line.\n";
    let (fm, body) = split_frontmatter(raw);
    assert!(fm.is_some());
    assert!(body.starts_with("First line of body."));
    assert!(body.contains("Second line."));
    assert!(!body.contains("---"));
    assert!(!body.contains("name: test"));
}

#[test]
fn test_empty_frontmatter() {
    let raw = "---\n---\nBody only.\n";
    let (fm, body) = split_frontmatter(raw);
    assert_eq!(fm.as_deref(), Some(""));
    assert!(body.contains("Body only."));
}

const TEST_SKILL: &str = "---\nname: test-skill\ndescription: A test skill for smoke testing the skills system\n---\n\n# Test Skill\n\nUse this skill to check that skills load.\n";
const COMPLEX_TEST_SKILL: &str = "---\nname: complex-test-skill\ndescription: A directory-style test skill for smoke testing\nhats: [builder]\n---\n\n# Complex Test Skill\n\nOnly for the builder.\n";

/// The built-in skills and the two skill documents of the skills directory.
fn fixture_registry(overrides: Vec<(String, SkillOverride)>) -> SkillRegistry {
    let mut registry = SkillRegistry::new(None);
    registry.register_builtins();
    register_builtin(&mut registry, "test-skill", TEST_SKILL);
    register_builtin(&mut registry, "complex-test-skill", COMPLEX_TEST_SKILL);
    registry.apply_overrides(&overrides);
    registry
}

#[test]
fn test_registry_discovers_fixture_skills() {
    let registry = fixture_registry(Vec::new());
    let test_skill = registry.get("test-skill");
    assert!(test_skill.is_some(), "Should discover test-skill.md from fixtures");
    let test_skill = test_skill.unwrap();
    assert_eq!(test_skill.description, "A test skill for smoke testing the skills system");
    assert!(test_skill.content.contains("# Test Skill"));
    let complex_skill = registry.get("complex-test-skill");
    assert!(complex_skill.is_some(), "Should discover complex-test-skill/SKILL.md from fixtures");
    let complex_skill = complex_skill.unwrap();
    assert_eq!(complex_skill.description, "A directory-style test skill for smoke testing");
    assert_eq!(complex_skill.hats, vec!["builder"]);
}

#[test]
fn test_skill_index_lists_all_visible_skills() {
    let registry = fixture_registry(Vec::new());
    let index = registry.build_index(None);
    assert!(index.contains("## SKILLS"), "Index should contain ## SKILLS header");
    assert!(index.contains("ralph-memories"), "Index should list the memories skill");
    assert!(index.contains("tasks"), "Index should list the tasks skill");
    assert!(index.contains("test-skill"), "Index should list the test-skill from fixtures");
    assert!(index.contains("complex-test-skill"), "Index should list the complex-test-skill from fixtures");
    assert!(index.contains("`ralph tools skill load test-skill`"), "Index should contain load command for test-skill");
}

#[test]
fn test_skill_index_hat_filtering() {
    let registry = fixture_registry(Vec::new());
    let builder_index = registry.build_index(Some("builder"));
    assert!(builder_index.contains("complex-test-skill"), "Builder should see complex-test-skill");
    let inspector_index = registry.build_index(Some("inspector"));
    assert!(!inspector_index.contains("complex-test-skill"), "Inspector should NOT see complex-test-skill (restricted to builder)");
    assert!(builder_index.contains("test-skill"), "Builder should see unrestricted test-skill");
    assert!(inspector_index.contains("test-skill"), "Inspector should see unrestricted test-skill");
}

#[test]
fn test_override_disables_skill_in_index() {
    let mut o = SkillOverride::none();
    o.enabled = Some(false);
    let registry = fixture_registry(vec![("test-skill".to_string(), o)]);
    assert!(registry.get("test-skill").is_none(), "test-skill should be disabled by override");
    assert!(registry.get("ralph-memories").is_some());
    assert!(registry.get("complex-test-skill").is_some());
    let index = registry.build_index(None);
    assert!(!index.contains("| test-skill |"), "Disabled test-skill should not appear in index");
}

#[test]
fn smoke_runner_test_load_skill_xml_wrapping() {
    let registry = fixture_registry(Vec::new());
    let loaded = registry.load_skill("test-skill").expect("Should load test-skill");
    assert!(loaded.starts_with("<test-skill-skill>"), "Loaded skill should start with XML open tag");
    assert!(loaded.ends_with("</test-skill-skill>"), "Loaded skill should end with XML close tag");
    assert!(loaded.contains("# Test Skill"), "Loaded skill should contain body content");
    assert!(!loaded.contains("name: test-skill"), "Loaded skill should NOT contain frontmatter");
}
