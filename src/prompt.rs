//! The sections that precede a hat's prompt: injected memories and skills,
//! and the ready tasks.

use vstd::prelude::*;
use crate::skills::{SkillEntry, SkillRegistry, derefs, entry_names, lemma_lt_irreflexive, names_sorted, text_lt, visible_upto};
use crate::text::{chars_of, copy_range, decimal_digits, owned, push_str, str_eq, string_of, trim, trim_chars, u64_text};
use crate::gate::{join, join_strings};
use crate::tea::string_views;

verus! {

/// `prefix` with `block` appended, a blank line between them.
pub open spec fn add_block(prefix: Seq<char>, block: Seq<char>) -> Seq<char> {
    if prefix.len() == 0 {
        block
    } else {
        prefix + "\n\n"@ + block
    }
}

fn push_block(prefix: &mut String, block: &str)
    ensures
        final(prefix)@ == add_block(old(prefix)@, block@),
{
    if prefix.as_str().is_empty() {
        push_str(prefix, block);
        proof {
            assert(old(prefix)@ =~= Seq::<char>::empty());
        }
    } else {
        push_str(prefix, "\n\n");
        push_str(prefix, block);
    }
}

/// The last `budget` characters of `s`, or all of it when it fits.
pub open spec fn keep_tail(s: Seq<char>, budget: nat) -> Seq<char> {
    if s.len() <= budget {
        s
    } else {
        s.skip(s.len() - budget)
    }
}

/// Memories cut to `budget` characters, keeping the most recent tail; a zero
/// budget keeps everything.
pub fn truncate_to_budget(s: &str, budget: usize) -> (r: String)
    ensures
        r@ == if budget == 0 {
            s@
        } else {
            keep_tail(s@, budget as nat)
        },
{
    let c = chars_of(s);
    if budget == 0 || c.len() <= budget {
        return string_of(c.as_slice());
    }
    let tail = copy_range(c.as_slice(), c.len() - budget, c.len());
    assert(tail@ =~= c@.skip(c@.len() - budget));
    string_of(tail.as_slice())
}

/// A skill's content wrapped in tags named `tag`, trimmed.
pub open spec fn skill_block(tag: Seq<char>, content: Seq<char>) -> Seq<char> {
    "<"@ + tag + ">\n"@ + trim(content) + "\n</"@ + tag + ">"@
}

fn skill_block_exec(tag: &str, content: &str) -> (r: String)
    ensures
        r@ == skill_block(tag@, content@),
{
    let mut out = owned("<");
    push_str(&mut out, tag);
    push_str(&mut out, ">\n");
    push_str(&mut out, string_of(trim_chars(chars_of(content).as_slice()).as_slice()).as_str());
    push_str(&mut out, "\n</");
    push_str(&mut out, tag);
    push_str(&mut out, ">");
    out
}

/// The custom auto-injected skills among `es`, in order, appended to `prefix`:
/// every skill but the built-in tools and human-interaction skills.
pub open spec fn custom_blocks(prefix: Seq<char>, es: Seq<SkillEntry>) -> Seq<char>
    decreases es.len(),
{
    if es.len() == 0 {
        prefix
    } else {
        let p = custom_blocks(prefix, es.drop_last());
        let e = es.last();
        if e.name@ == "ralph-tools"@ || e.name@ == "robot-interaction"@ {
            p
        } else {
            add_block(p, skill_block(e.name@ + "-skill"@, e.content@))
        }
    }
}

/// The index of the first skill named `n` among `entries` from `k` on.
pub open spec fn name_index(entries: Seq<SkillEntry>, n: Seq<char>, k: int) -> Option<int>
    decreases entries.len() - k,
{
    if k < 0 || k >= entries.len() {
        None
    } else if entries[k].name@ == n {
        Some(k)
    } else {
        name_index(entries, n, k + 1)
    }
}

/// The skill named `n` among `entries`, if any.
pub open spec fn named_entry(entries: Seq<SkillEntry>, n: Seq<char>) -> Option<SkillEntry> {
    match name_index(entries, n, 0) {
        Some(i) => Some(entries[i]),
        None => None,
    }
}

proof fn lemma_name_index_at(entries: Seq<SkillEntry>, n: Seq<char>, i: int, k: int)
    requires
        0 <= k <= i < entries.len(),
        entries[i].name@ == n,
        forall|j: int| k <= j < i ==> (#[trigger] entries[j]).name@ != n,
    ensures
        name_index(entries, n, k) == Some(i),
    decreases i - k,
{
    if k < i {
        lemma_name_index_at(entries, n, i, k + 1);
    }
}

proof fn lemma_name_index_none(entries: Seq<SkillEntry>, n: Seq<char>, k: int)
    requires
        0 <= k,
        forall|j: int| k <= j < entries.len() ==> (#[trigger] entries[j]).name@ != n,
    ensures
        name_index(entries, n, k) is None,
    decreases entries.len() - k,
{
    if k < entries.len() {
        lemma_name_index_none(entries, n, k + 1);
    }
}

/// In a registry whose names ascend, an entry with name `n` is the one
/// `named_entry` picks.
proof fn lemma_named_entry(entries: Seq<SkillEntry>, n: Seq<char>, e: SkillEntry)
    requires
        names_sorted(entries),
        entries.contains(e),
        e.name@ == n,
    ensures
        named_entry(entries, n) == Some(e),
{
    let i = choose|i: int| 0 <= i < entries.len() && entries[i] == e;
    assert forall|j: int| 0 <= j < i implies (#[trigger] entries[j]).name@ != n by {
        assert(text_lt(entries[j].name@, entries[i].name@));
        lemma_lt_irreflexive(n);
    }
    lemma_name_index_at(entries, n, i, 0);
}

/// No entry named `n`: `named_entry` finds none.
proof fn lemma_named_entry_none(entries: Seq<SkillEntry>, n: Seq<char>)
    requires
        !entry_names(entries).contains(n),
    ensures
        named_entry(entries, n) is None,
{
    assert forall|j: int| 0 <= j < entries.len() implies (#[trigger] entries[j]).name@ != n by {
        assert(entry_names(entries)[j] == entries[j].name@);
    }
    lemma_name_index_none(entries, n, 0);
}

/// The text injected before a prompt for the registry entries `entries` on
/// `backend`, under `s`, with memory store content `memories`.
pub open spec fn inject_text(
    entries: Seq<SkillEntry>,
    backend: Option<Seq<char>>,
    s: InjectSettings,
    memories: Seq<char>,
) -> Seq<char> {
    let m = if s.memories_enabled && s.memories_auto && memories.len() > 0 {
        if s.memories_budget == 0 {
            memories
        } else {
            keep_tail(memories, s.memories_budget as nat)
        }
    } else {
        Seq::empty()
    };
    let t = match named_entry(entries, "ralph-tools"@) {
        Some(e) => if s.memories_enabled || s.tasks_enabled {
            add_block(m, skill_block("ralph-tools-skill"@, e.content@))
        } else {
            m
        },
        None => m,
    };
    let r = match named_entry(entries, "robot-interaction"@) {
        Some(e) => if s.robot_enabled {
            add_block(t, skill_block("robot-skill"@, e.content@))
        } else {
            t
        },
        None => t,
    };
    custom_blocks(r, visible_upto(entries, backend, None, true, entries.len() as int))
}

/// What to inject before a prompt: memories (when enabled and auto-injected),
/// the tools skill (when memories or tasks are enabled), the human-interaction
/// skill (when humans are reachable), then the other auto-injected skills.
#[derive(Clone, Copy)]
pub struct InjectSettings {
    pub memories_enabled: bool,
    pub memories_auto: bool,
    pub memories_budget: usize,
    pub tasks_enabled: bool,
    pub robot_enabled: bool,
}

impl SkillRegistry {
    /// The injected prefix for a prompt, blocks separated by blank lines;
    /// `memories` is the content of the memory store.
    pub fn auto_inject_prefix(&self, settings: &InjectSettings, memories: &str) -> (r: String)
        requires
            self.wf(),
        ensures
            r@ == inject_text(self.entries(), self.backend(), *settings, memories@),
    {
        let mut prefix = owned("");
        proof {
            reveal_strlit("");
            self.lemma_wf_sorted();
        }
        if settings.memories_enabled && settings.memories_auto && !memories.is_empty() {
            push_str(&mut prefix, truncate_to_budget(memories, settings.memories_budget).as_str());
        }
        let ghost m = if settings.memories_enabled && settings.memories_auto && memories@.len() > 0 {
            if settings.memories_budget == 0 {
                memories@
            } else {
                keep_tail(memories@, settings.memories_budget as nat)
            }
        } else {
            Seq::empty()
        };
        assert(prefix@ =~= m);
        if settings.memories_enabled || settings.tasks_enabled {
            match self.get("ralph-tools") {
                Some(skill) => {
                    proof {
                        lemma_named_entry(self.entries(), "ralph-tools"@, *skill);
                    }
                    let block = skill_block_exec("ralph-tools-skill", skill.content.as_str());
                    push_block(&mut prefix, block.as_str());
                },
                None => {
                    proof {
                        lemma_named_entry_none(self.entries(), "ralph-tools"@);
                    }
                },
            }
        }
        assert(prefix@ == match named_entry(self.entries(), "ralph-tools"@) {
            Some(e) => if settings.memories_enabled || settings.tasks_enabled {
                add_block(m, skill_block("ralph-tools-skill"@, e.content@))
            } else {
                m
            },
            None => m,
        });
        if settings.robot_enabled {
            match self.get("robot-interaction") {
                Some(skill) => {
                    proof {
                        lemma_named_entry(self.entries(), "robot-interaction"@, *skill);
                    }
                    let block = skill_block_exec("robot-skill", skill.content.as_str());
                    push_block(&mut prefix, block.as_str());
                },
                None => {
                    proof {
                        lemma_named_entry_none(self.entries(), "robot-interaction"@);
                    }
                },
            }
        }
        let ghost t = match named_entry(self.entries(), "ralph-tools"@) {
            Some(e) => if settings.memories_enabled || settings.tasks_enabled {
                add_block(m, skill_block("ralph-tools-skill"@, e.content@))
            } else {
                m
            },
            None => m,
        };
        let ghost r0 = prefix@;
        assert(r0 == match named_entry(self.entries(), "robot-interaction"@) {
            Some(e) => if settings.robot_enabled {
                add_block(t, skill_block("robot-skill"@, e.content@))
            } else {
                t
            },
            None => t,
        });
        let auto = self.auto_inject_skills(None);
        let ghost av = derefs(auto@);
        let mut k: usize = 0;
        assert(av.take(0) =~= Seq::<SkillEntry>::empty());
        while k < auto.len()
            invariant
                k <= auto@.len(),
                av == derefs(auto@),
                prefix@ == custom_blocks(r0, av.take(k as int)),
            decreases auto@.len() - k,
        {
            let skill = auto[k];
            assert(av.take(k + 1).drop_last() =~= av.take(k as int));
            assert(av.take(k + 1).last() == *skill);
            if !str_eq(skill.name.as_str(), "ralph-tools") && !str_eq(skill.name.as_str(), "robot-interaction") {
                let mut tag = owned(skill.name.as_str());
                push_str(&mut tag, "-skill");
                let block = skill_block_exec(tag.as_str(), skill.content.as_str());
                push_block(&mut prefix, block.as_str());
            }
            k += 1;
        }
        assert(av.take(k as int) =~= av);
        prefix
    }
}

/// A task as the ready-task section shows it.
#[derive(Debug)]
pub struct TaskLine {
    pub id: String,
    pub title: String,
    pub priority: u32,
    /// Whether work on the task has started.
    pub in_progress: bool,
    pub blocked_by: Vec<String>,
}

/// The line of a ready task.
pub open spec fn ready_line(t: &TaskLine) -> Seq<char> {
    "- "@ + (if t.in_progress { "[~]"@ } else { "[ ]"@ }) + " [P"@ + decimal_digits(t.priority as nat)
        + "] "@ + t.title@ + " ("@ + t.id@ + ")\n"@
}

/// The line of a blocked task.
pub open spec fn blocked_line(t: &TaskLine) -> Seq<char> {
    "- [blocked] [P"@ + decimal_digits(t.priority as nat) + "] "@ + t.title@ + " ("@ + t.id@
        + ") — blocked by: "@ + join(string_views(t.blocked_by@), ", "@) + "\n"@
}

fn ready_line_exec(t: &TaskLine) -> (r: String)
    ensures
        r@ == ready_line(t),
{
    let mut out = owned("- ");
    push_str(&mut out, if t.in_progress { "[~]" } else { "[ ]" });
    push_str(&mut out, " [P");
    push_str(&mut out, u64_text(t.priority as u64).as_str());
    push_str(&mut out, "] ");
    push_str(&mut out, t.title.as_str());
    push_str(&mut out, " (");
    push_str(&mut out, t.id.as_str());
    push_str(&mut out, ")\n");
    out
}

fn blocked_line_exec(t: &TaskLine) -> (r: String)
    ensures
        r@ == blocked_line(t),
{
    let mut out = owned("- [blocked] [P");
    push_str(&mut out, u64_text(t.priority as u64).as_str());
    push_str(&mut out, "] ");
    push_str(&mut out, t.title.as_str());
    push_str(&mut out, " (");
    push_str(&mut out, t.id.as_str());
    push_str(&mut out, ") — blocked by: ");
    push_str(&mut out, join_strings(&t.blocked_by, ", ").as_str());
    push_str(&mut out, "\n");
    out
}

/// Whether some task of `ready` has the id `id`.
pub open spec fn is_ready_id(ready: Seq<TaskLine>, id: Seq<char>) -> bool {
    exists|j: int| 0 <= j < ready.len() && (#[trigger] ready[j]).id@ == id
}

/// The open tasks among the first `n` of `open` that are not ready, in order.
pub open spec fn blocked_upto(ready: Seq<TaskLine>, open: Seq<TaskLine>, n: int) -> Seq<TaskLine>
    decreases n,
{
    if n <= 0 {
        Seq::empty()
    } else {
        let prev = blocked_upto(ready, open, n - 1);
        if is_ready_id(ready, open[n - 1].id@) {
            prev
        } else {
            prev.push(open[n - 1])
        }
    }
}

/// The ready lines of `ts`, in order.
pub open spec fn ready_lines(ts: Seq<TaskLine>) -> Seq<char>
    decreases ts.len(),
{
    if ts.len() == 0 {
        Seq::empty()
    } else {
        ready_lines(ts.drop_last()) + ready_line(&ts.last())
    }
}

/// The blocked lines of `ts`, in order.
pub open spec fn blocked_lines(ts: Seq<TaskLine>) -> Seq<char>
    decreases ts.len(),
{
    if ts.len() == 0 {
        Seq::empty()
    } else {
        blocked_lines(ts.drop_last()) + blocked_line(&ts.last())
    }
}

/// The ready-task section for `ready` and `open` tasks and `closed` closed ones.
pub open spec fn ready_section(ready: Seq<TaskLine>, open: Seq<TaskLine>, closed: nat) -> Seq<char> {
    if open.len() == 0 && closed == 0 {
        Seq::empty()
    } else {
        let blocked = blocked_upto(ready, open, open.len() as int);
        "<ready-tasks>\n"@ + (if ready.len() == 0 && open.len() == 0 {
            "No open tasks. Create tasks with `ralph tools task add`.\n"@
        } else {
            "## Tasks: "@ + decimal_digits(ready.len()) + " ready, "@ + decimal_digits(open.len())
                + " open, "@ + decimal_digits(closed) + " closed\n\n"@ + ready_lines(ready) + (if blocked.len() > 0 {
                "\nBlocked:\n"@ + blocked_lines(blocked)
            } else {
                Seq::empty()
            })
        }) + "</ready-tasks>\n\n"@
    }
}

/// The positions in `open` of the tasks that are not ready, in order.
fn blocked_indices(ready: &Vec<TaskLine>, open: &Vec<TaskLine>) -> (r: Vec<usize>)
    ensures
        r@.len() == blocked_upto(ready@, open@, open@.len() as int).len(),
        forall|i: int|
            0 <= i < r@.len() ==> (#[trigger] r@[i]) < open@.len() && open@[r@[i] as int]
                == blocked_upto(ready@, open@, open@.len() as int)[i],
{
    let mut blocked: Vec<usize> = Vec::new();
    let mut k: usize = 0;
    while k < open.len()
        invariant
            k <= open@.len(),
            blocked@.len() == blocked_upto(ready@, open@, k as int).len(),
            forall|i: int| 0 <= i < blocked@.len() ==> (#[trigger] blocked@[i]) < open@.len() && open@[blocked@[i] as int] == blocked_upto(ready@, open@, k as int)[i],
        decreases open@.len() - k,
    {
        let mut is_ready = false;
        let mut j: usize = 0;
        while j < ready.len()
            invariant
                j <= ready@.len(),
                k < open@.len(),
                is_ready == exists|q: int| 0 <= q < j && (#[trigger] ready@[q]).id@ == open@[k as int].id@,
            decreases ready@.len() - j,
        {
            if str_eq(ready[j].id.as_str(), open[k].id.as_str()) {
                is_ready = true;
            }
            j += 1;
        }
        let ghost prev = blocked@;
        let ghost prevb = blocked_upto(ready@, open@, k as int);
        assert(is_ready == is_ready_id(ready@, open@[k as int].id@));
        if !is_ready {
            blocked.push(k);
        }
        proof {
            let nb = blocked_upto(ready@, open@, k + 1);
            assert forall|i: int| 0 <= i < blocked@.len() implies (#[trigger] blocked@[i]) < open@.len() && open@[blocked@[i] as int] == nb[i] by {
                if i < prev.len() {
                    assert(blocked@[i] == prev[i]);
                    assert(nb[i] == prevb[i]);
                }
            }
        }
        k += 1;
    }
    blocked
}

fn ready_lines_text(ready: &Vec<TaskLine>) -> (r: String)
    ensures
        r@ == ready_lines(ready@),
{
    let mut out = owned("");
    proof {
        reveal_strlit("");
    }
    let mut k: usize = 0;
    assert(ready@.take(0) =~= Seq::<TaskLine>::empty());
    while k < ready.len()
        invariant
            k <= ready@.len(),
            out@ == ready_lines(ready@.take(k as int)),
        decreases ready@.len() - k,
    {
        assert(ready@.take(k + 1).drop_last() =~= ready@.take(k as int));
        assert(ready@.take(k + 1).last() == ready@[k as int]);
        push_str(&mut out, ready_line_exec(&ready[k]).as_str());
        k += 1;
    }
    assert(ready@.take(k as int) =~= ready@);
    out
}

fn blocked_lines_text(open: &Vec<TaskLine>, idx: &Vec<usize>, Ghost(bl): Ghost<Seq<TaskLine>>) -> (r: String)
    requires
        idx@.len() == bl.len(),
        forall|i: int| 0 <= i < idx@.len() ==> (#[trigger] idx@[i]) < open@.len() && open@[idx@[i] as int] == bl[i],
    ensures
        r@ == blocked_lines(bl),
{
    let mut out = owned("");
    proof {
        reveal_strlit("");
    }
    let mut k: usize = 0;
    assert(bl.take(0) =~= Seq::<TaskLine>::empty());
    while k < idx.len()
        invariant
            k <= idx@.len(),
            idx@.len() == bl.len(),
            forall|i: int| 0 <= i < idx@.len() ==> (#[trigger] idx@[i]) < open@.len() && open@[idx@[i] as int] == bl[i],
            out@ == blocked_lines(bl.take(k as int)),
        decreases idx@.len() - k,
    {
        assert(bl.take(k + 1).drop_last() =~= bl.take(k as int));
        assert(bl.take(k + 1).last() == bl[k as int]);
        let t = &open[idx[k]];
        assert(idx@[k as int] < open@.len());
        push_str(&mut out, blocked_line_exec(t).as_str());
        k += 1;
    }
    assert(bl.take(k as int) =~= bl);
    out
}

/// The ready-task section, as `ready_section` states: none when there are no
/// tasks at all; else the counts, one line per ready task, and the open tasks
/// that are not ready, each with its blockers.
pub fn ready_tasks_section(ready: &Vec<TaskLine>, open: &Vec<TaskLine>, closed_count: usize) -> (r: String)
    ensures
        r@ == ready_section(ready@, open@, closed_count as nat),
{
    if open.len() == 0 && closed_count == 0 {
        proof {
            reveal_strlit("");
        }
        return owned("");
    }
    let mut section = owned("<ready-tasks>\n");
    if ready.len() == 0 && open.len() == 0 {
        push_str(&mut section, "No open tasks. Create tasks with `ralph tools task add`.\n");
    } else {
        push_str(&mut section, "## Tasks: ");
        push_str(&mut section, u64_text(ready.len() as u64).as_str());
        push_str(&mut section, " ready, ");
        push_str(&mut section, u64_text(open.len() as u64).as_str());
        push_str(&mut section, " open, ");
        push_str(&mut section, u64_text(closed_count as u64).as_str());
        push_str(&mut section, " closed\n\n");
        push_str(&mut section, ready_lines_text(ready).as_str());
        let idx = blocked_indices(ready, open);
        let ghost bl = blocked_upto(ready@, open@, open@.len() as int);
        if idx.len() > 0 {
            push_str(&mut section, "\nBlocked:\n");
            push_str(&mut section, blocked_lines_text(open, &idx, Ghost(bl)).as_str());
        }
    }
    push_str(&mut section, "</ready-tasks>\n\n");
    assert(section@ =~= ready_section(ready@, open@, closed_count as nat));
    section
}

} // verus!
