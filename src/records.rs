//! The text of the files the loop keeps beside the workspace: the recovery
//! queue, the audit log and the status report. Reading and writing them, and
//! the clock, belong to the caller.

use vstd::prelude::*;
use crate::text::{chars_of, decimal_digits, owned, push_str, trim, trim_chars, u64_text};

verus! {

/// `name` inside the directory `root`.
pub open spec fn joined_path(root: Seq<char>, name: Seq<char>) -> Seq<char> {
    if root.len() == 0 {
        name
    } else if root.last() == '/' {
        root + name
    } else {
        root + "/"@ + name
    }
}

/// `name` inside the directory `root`, as `joined_path` states.
pub fn join_path(root: &str, name: &str) -> (r: String)
    ensures
        r@ == joined_path(root@, name@),
{
    let c = chars_of(root);
    let mut out = owned(root);
    if c.len() > 0 && c[c.len() - 1] != '/' {
        push_str(&mut out, "/");
    }
    push_str(&mut out, name);
    out
}

/// The recovery queue: a file whose non-blank content halts the loop until a
/// human clears it.
#[derive(Debug)]
pub struct RecoveryQueue {
    path: String,
}

/// The recovery entry for a failed task.
pub open spec fn recovery_entry(
    timestamp: Seq<char>,
    task_id: Seq<char>,
    reason: Seq<char>,
    last_sha: Option<Seq<char>>,
) -> Seq<char> {
    let sha = match last_sha {
        Some(s) => s,
        None => "unknown"@,
    };
    let rollback = match last_sha {
        Some(s) => "`git reset --hard "@ + s + "`"@,
        None => "*No snapshot SHA available for automated rollback.*"@,
    };
    "# RECOVERY REQUIRED ("@ + timestamp + ")\n\n## Failed Task\n\n- **ID:** "@ + task_id
        + "\n- **Reason:** "@ + reason + "\n\n## Recovery Options\n\n- **Last Safe Snapshot:** `"@
        + sha + "`\n- **Rollback Command:** "@ + rollback
        + "\n\n---\n\n*Human Commander: Please resolve the issue and CLEAR THIS FILE to resume orchestration.*\n"@
}

impl RecoveryQueue {
    /// The path of the queue file.
    pub closed spec fn path_view(&self) -> Seq<char> {
        self.path@
    }

    /// The queue of the workspace at `workspace_root`: its `RECOVERY_QUEUE.md`.
    pub fn new(workspace_root: &str) -> (r: RecoveryQueue)
        ensures
            r.path_view() == joined_path(workspace_root@, "RECOVERY_QUEUE.md"@),
    {
        RecoveryQueue { path: join_path(workspace_root, "RECOVERY_QUEUE.md") }
    }

    /// The path of the queue file.
    pub fn path(&self) -> (r: &str)
        ensures
            r@ == self.path_view(),
    {
        self.path.as_str()
    }

    /// Whether queue content `content` blocks the loop: it is not blank.
    pub fn blocks(content: &str) -> (r: bool)
        ensures
            r == (trim(content@).len() > 0),
    {
        trim_chars(chars_of(content).as_slice()).len() > 0
    }

    /// The entry that records the failure of `task_id` for `reason`, with the
    /// last snapshot and how to roll back to it.
    pub fn entry(timestamp: &str, task_id: &str, reason: &str, last_sha: Option<&str>) -> (r:
        String)
        ensures
            r@ == recovery_entry(
                timestamp@,
                task_id@,
                reason@,
                match last_sha {
                    Some(s) => Some(s@),
                    None => None,
                },
            ),
    {
        let mut out = owned("# RECOVERY REQUIRED (");
        push_str(&mut out, timestamp);
        push_str(&mut out, ")\n\n## Failed Task\n\n- **ID:** ");
        push_str(&mut out, task_id);
        push_str(&mut out, "\n- **Reason:** ");
        push_str(&mut out, reason);
        push_str(&mut out, "\n\n## Recovery Options\n\n- **Last Safe Snapshot:** `");
        match last_sha {
            Some(s) => {
                push_str(&mut out, s);
                push_str(&mut out, "`\n- **Rollback Command:** ");
                push_str(&mut out, "`git reset --hard ");
                push_str(&mut out, s);
                push_str(&mut out, "`");
            },
            None => {
                push_str(&mut out, "unknown");
                push_str(&mut out, "`\n- **Rollback Command:** ");
                push_str(&mut out, "*No snapshot SHA available for automated rollback.*");
            },
        }
        push_str(
            &mut out,
            "\n\n---\n\n*Human Commander: Please resolve the issue and CLEAR THIS FILE to resume orchestration.*\n",
        );
        out
    }
}

/// The audit log: an append-only markdown table of safety events.
#[derive(Debug)]
pub struct AuditLogger {
    path: String,
}

/// One row of the audit table.
pub open spec fn audit_row(
    timestamp: Seq<char>,
    kind: Seq<char>,
    correlation_id: Seq<char>,
    details: Seq<char>,
) -> Seq<char> {
    "| "@ + timestamp + " | "@ + kind + " | "@ + correlation_id + " | "@ + details + " |"@
}

impl AuditLogger {
    /// The path of the log file.
    pub closed spec fn path_view(&self) -> Seq<char> {
        self.path@
    }

    /// The log of the workspace at `workspace_root`: its `RequestLog.md`.
    pub fn new(workspace_root: &str) -> (r: AuditLogger)
        ensures
            r.path_view() == joined_path(workspace_root@, "RequestLog.md"@),
    {
        AuditLogger { path: join_path(workspace_root, "RequestLog.md") }
    }

    /// The path of the log file.
    pub fn path(&self) -> (r: &str)
        ensures
            r@ == self.path_view(),
    {
        self.path.as_str()
    }

    /// The title and table header of a new log.
    pub fn header() -> (r: &'static str)
        ensures
            r@ == "# Request Log (Audit Trail)\n\n| Timestamp | Event Type | Correlation ID | Details |\n| --- | --- | --- | --- |\n"@,
    {
        "# Request Log (Audit Trail)\n\n| Timestamp | Event Type | Correlation ID | Details |\n| --- | --- | --- | --- |\n"
    }

    /// The row of one event.
    pub fn log_event(timestamp: &str, event_type: &str, correlation_id: &str, details: &str) -> (r:
        String)
        ensures
            r@ == audit_row(timestamp@, event_type@, correlation_id@, details@),
    {
        let mut out = owned("| ");
        push_str(&mut out, timestamp);
        push_str(&mut out, " | ");
        push_str(&mut out, event_type);
        push_str(&mut out, " | ");
        push_str(&mut out, correlation_id);
        push_str(&mut out, " | ");
        push_str(&mut out, details);
        push_str(&mut out, " |");
        out
    }

    /// The row of a halt of the loop.
    pub fn log_halt(timestamp: &str, correlation_id: &str, reason: &str) -> (r: String)
        ensures
            r@ == audit_row(timestamp@, "LOOP_HALTED"@, correlation_id@, reason@),
    {
        AuditLogger::log_event(timestamp, "LOOP_HALTED", correlation_id, reason)
    }

    /// The row of the loop resuming after the recovery queue was cleared.
    pub fn log_recovery(timestamp: &str, correlation_id: &str) -> (r: String)
        ensures
            r@ == audit_row(
                timestamp@,
                "LOOP_RESUMED"@,
                correlation_id@,
                "Recovery queue cleared by human"@,
            ),
    {
        AuditLogger::log_event(
            timestamp,
            "LOOP_RESUMED",
            correlation_id,
            "Recovery queue cleared by human",
        )
    }
}

/// The task in progress, as the status report shows it.
#[derive(Debug)]
pub struct ActiveTaskInfo {
    pub id: String,
    pub title: String,
    pub hat: String,
    pub risk_tier: String,
}

/// Progress and cost of the loop. Cost is in millionths of a dollar.
#[derive(Debug)]
pub struct OrchestrationHealth {
    pub iteration: u32,
    pub max_iterations: u32,
    pub elapsed_seconds: u64,
    pub cumulative_cost_micros: u64,
}

/// The safety state of the loop.
#[derive(Debug)]
pub struct SafetyStatus {
    pub last_snapshot_sha: String,
    pub is_halted: bool,
    pub recovery_queue_blocked: bool,
}

/// The mission-control snapshot written at the top of each iteration.
#[derive(Debug)]
pub struct CaptainStatus {
    pub objective: String,
    pub active_task: ActiveTaskInfo,
    pub health: OrchestrationHealth,
    pub safety: SafetyStatus,
}

/// A cost in millionths of a dollar, rounded to four decimals, as `W.DDDD`.
pub open spec fn cost_text(micros: nat) -> Seq<char> {
    let t = (micros + 50) / 100;
    let f = t % 10000;
    decimal_digits(t / 10000) + "."@ + if f < 10 {
        "000"@
    } else if f < 100 {
        "00"@
    } else if f < 1000 {
        "0"@
    } else {
        Seq::empty()
    } + decimal_digits(f)
}

/// The status word of the safety state.
pub open spec fn status_word(halted: bool, blocked: bool) -> Seq<char> {
    if halted || blocked {
        "HALTED (Recovery Required)"@
    } else {
        "OK"@
    }
}

/// The markdown rendering of a status.
pub open spec fn status_markdown(s: &CaptainStatus) -> Seq<char> {
    "# Captain's Mission Control\n\n## Current Objective\n\n"@ + s.objective@
        + "\n\n## Active Task\n\n- **Hat:** "@ + s.active_task.hat@ + "\n- **Risk Tier:** "@
        + s.active_task.risk_tier@ + "\n\n## Orchestration Health\n\n- **Iteration:** "@
        + decimal_digits(s.health.iteration as nat) + " / "@ + decimal_digits(
        s.health.max_iterations as nat,
    ) + "\n- **Elapsed Time:** "@ + decimal_digits(s.health.elapsed_seconds as nat)
        + "s\n- **Total Cost:** $"@ + cost_text(s.health.cumulative_cost_micros as nat)
        + "\n\n## Safety HUD\n\n- **Last Snapshot SHA:** `"@ + s.safety.last_snapshot_sha@
        + "`\n- **Status:** "@ + status_word(s.safety.is_halted, s.safety.recovery_queue_blocked)
        + "\n"@
}

/// Writes the status files of a workspace.
#[derive(Debug)]
pub struct StatusManager {
    workspace_root: String,
}

impl StatusManager {
    /// The root the manager writes under.
    pub closed spec fn root_view(&self) -> Seq<char> {
        self.workspace_root@
    }

    /// A manager for the workspace at `workspace_root`.
    pub fn new(workspace_root: &str) -> (r: StatusManager)
        ensures
            r.root_view() == workspace_root@,
    {
        StatusManager { workspace_root: owned(workspace_root) }
    }

    /// The path of the machine-readable status.
    pub fn json_path(&self) -> (r: String)
        ensures
            r@ == joined_path(self.root_view(), ".captain-status.json"@),
    {
        join_path(self.workspace_root.as_str(), ".captain-status.json")
    }

    /// The path of the markdown status.
    pub fn markdown_path(&self) -> (r: String)
        ensures
            r@ == joined_path(self.root_view(), ".captain-status.md"@),
    {
        join_path(self.workspace_root.as_str(), ".captain-status.md")
    }

    /// The markdown rendering of `status`, as `status_markdown` states.
    pub fn format_markdown(status: &CaptainStatus) -> (r: String)
        ensures
            r@ == status_markdown(status),
    {
        let mut out = owned("# Captain's Mission Control\n\n## Current Objective\n\n");
        push_str(&mut out, status.objective.as_str());
        push_str(&mut out, "\n\n## Active Task\n\n- **Hat:** ");
        push_str(&mut out, status.active_task.hat.as_str());
        push_str(&mut out, "\n- **Risk Tier:** ");
        push_str(&mut out, status.active_task.risk_tier.as_str());
        push_str(&mut out, "\n\n## Orchestration Health\n\n- **Iteration:** ");
        push_str(&mut out, u64_text(status.health.iteration as u64).as_str());
        push_str(&mut out, " / ");
        push_str(&mut out, u64_text(status.health.max_iterations as u64).as_str());
        push_str(&mut out, "\n- **Elapsed Time:** ");
        push_str(&mut out, u64_text(status.health.elapsed_seconds).as_str());
        push_str(&mut out, "s\n- **Total Cost:** $");
        push_str(&mut out, format_cost(status.health.cumulative_cost_micros).as_str());
        push_str(&mut out, "\n\n## Safety HUD\n\n- **Last Snapshot SHA:** `");
        push_str(&mut out, status.safety.last_snapshot_sha.as_str());
        push_str(&mut out, "`\n- **Status:** ");
        if status.safety.is_halted || status.safety.recovery_queue_blocked {
            push_str(&mut out, "HALTED (Recovery Required)");
        } else {
            push_str(&mut out, "OK");
        }
        push_str(&mut out, "\n");
        out
    }
}

/// A cost in millionths of a dollar, as `cost_text` states.
pub fn format_cost(micros: u64) -> (r: String)
    ensures
        r@ == cost_text(micros as nat),
{
    let q = micros / 100;
    let rem = micros % 100;
    let b: u64 = if rem >= 50 {
        1
    } else {
        0
    };
    let t = q + b;
    assert(t == (micros + 50) / 100) by (nonlinear_arith)
        requires
            q == micros / 100,
            rem == micros % 100,
            b == (if rem >= 50 { 1int } else { 0int }),
            t == q + b,
    ;
    let f = t % 10000;
    let mut out = u64_text(t / 10000);
    push_str(&mut out, ".");
    if f < 10 {
        push_str(&mut out, "000");
    } else if f < 100 {
        push_str(&mut out, "00");
    } else if f < 1000 {
        push_str(&mut out, "0");
    }
    push_str(&mut out, u64_text(f).as_str());
    proof {
        reveal_strlit("");
        assert(out@ =~= cost_text(micros as nat));
    }
    out
}

/// A question the agent asked during planning: its id and text.
#[derive(Debug)]
pub struct UserPrompt {
    pub id: String,
    pub text: String,
}

} // verus!
