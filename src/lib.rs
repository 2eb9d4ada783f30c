//! Core of an autonomous agent orchestrator: topic routing, an event bus,
//! evidence gates on agent events, triage and test strategy, and the
//! termination policy of the iteration loop.

pub mod text;
pub mod topic;
pub mod hat;
pub mod ansi;
pub mod decimal;
pub mod evidence;
pub mod triage;
pub mod tea;
pub mod options;
pub mod event;
pub mod event_bus;
pub mod parser;
pub mod termination;
pub mod gate;
pub mod json;
pub mod thrash;
pub mod event_loop;
pub mod scratchpad;
pub mod skills;
pub mod records;

pub use decimal::Decimal;
pub use event::Event;
pub use event_bus::EventBus;
pub use event_loop::{EventLoop, IngestOutcome, LoopConfig, LoopState};
pub use evidence::{BackpressureEvidence, MutationEvidence, MutationStatus, QualityReport, ReviewEvidence};
pub use gate::{JournalEvent, MalformedLine, ParseResult, RecoveryRecord};
pub use hat::{Hat, HatId};
pub use options::{OptionChoice, ProactiveOptions};
pub use parser::EventParser;
pub use records::{ActiveTaskInfo, AuditLogger, CaptainStatus, OrchestrationHealth, RecoveryQueue, SafetyStatus, StatusManager, UserPrompt};
pub use skills::{SkillEntry, SkillFrontmatter, SkillOverride, SkillRegistry, SkillSource};
pub use tea::{SafetyTier, TEAHat, TestStrategy};
pub use termination::TerminationReason;
pub use topic::Topic;
pub use triage::{RoutingMode, TriageDecision, TriageHat};
pub mod prompt;
