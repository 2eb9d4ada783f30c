//! Skills: markdown documents with frontmatter that the loop offers to hats,
//! kept in a registry ordered by name.

use vstd::prelude::*;
use crate::tea::string_views;
use crate::text::{
    chars_of, copy_range, find_pos, find_pos_exec, has_prefix, lemma_find_pos, occurs_at, owned,
    push_str, same_chars, starts_with_exec, string_of, trim_start,
};

verus! {

/// Where a skill comes from.
#[derive(Debug)]
pub enum SkillSource {
    /// Shipped with the library.
    BuiltIn,
    /// Read from the file at this path.
    File(String),
}

/// The frontmatter fields of a skill document.
#[derive(Debug)]
pub struct SkillFrontmatter {
    pub name: Option<String>,
    pub description: Option<String>,
    pub hats: Vec<String>,
    pub backends: Vec<String>,
    pub tags: Vec<String>,
}

impl SkillFrontmatter {
    /// Frontmatter with no field set.
    pub fn empty() -> (r: SkillFrontmatter)
        ensures
            r.name is None,
            r.description is None,
            r.hats@.len() == 0,
            r.backends@.len() == 0,
            r.tags@.len() == 0,
    {
        SkillFrontmatter {
            name: None,
            description: None,
            hats: Vec::new(),
            backends: Vec::new(),
            tags: Vec::new(),
        }
    }
}

/// A registered skill.
#[derive(Debug)]
pub struct SkillEntry {
    pub name: String,
    pub description: String,
    /// The markdown body, frontmatter removed.
    pub content: String,
    pub source: SkillSource,
    /// The hats the skill is restricted to; empty for all.
    pub hats: Vec<String>,
    /// The backends the skill is restricted to; empty for all.
    pub backends: Vec<String>,
    pub tags: Vec<String>,
    /// Whether the whole skill goes into every prompt.
    pub auto_inject: bool,
}

/// A configured change to a registered skill.
#[derive(Debug)]
pub struct SkillOverride {
    pub enabled: Option<bool>,
    pub hats: Vec<String>,
    pub backends: Vec<String>,
    pub tags: Vec<String>,
    pub auto_inject: Option<bool>,
}

impl SkillOverride {
    /// An override that changes nothing.
    pub fn none() -> (r: SkillOverride)
        ensures
            r.enabled is None,
            r.hats@.len() == 0,
            r.backends@.len() == 0,
            r.tags@.len() == 0,
            r.auto_inject is None,
    {
        SkillOverride {
            enabled: None,
            hats: Vec::new(),
            backends: Vec::new(),
            tags: Vec::new(),
            auto_inject: None,
        }
    }
}

/// Whether `a` comes strictly before `b` in lexicographic order of characters.
pub open spec fn text_lt(a: Seq<char>, b: Seq<char>) -> bool
    decreases a.len(),
{
    if b.len() == 0 {
        false
    } else if a.len() == 0 {
        true
    } else if a[0] != b[0] {
        a[0] < b[0]
    } else {
        text_lt(a.drop_first(), b.drop_first())
    }
}

/// Whether `a` comes strictly before `b`, as `text_lt` states.
pub fn text_lt_exec(a: &[char], b: &[char]) -> (r: bool)
    ensures
        r == text_lt(a@, b@),
{
    let mut i: usize = 0;
    assert(a@.skip(0) =~= a@);
    assert(b@.skip(0) =~= b@);
    while i < a.len() && i < b.len() && a[i] == b[i]
        invariant
            i <= a@.len(),
            i <= b@.len(),
            text_lt(a@, b@) == text_lt(a@.skip(i as int), b@.skip(i as int)),
        decreases a@.len() - i,
    {
        assert(a@.skip(i as int).drop_first() =~= a@.skip(i + 1));
        assert(b@.skip(i as int).drop_first() =~= b@.skip(i + 1));
        i += 1;
    }
    assert(a@.skip(i as int).len() == a@.len() - i);
    if i == b.len() {
        false
    } else if i == a.len() {
        true
    } else {
        a[i] < b[i]
    }
}

/// The names of `entries`.
pub open spec fn entry_names(entries: Seq<SkillEntry>) -> Seq<Seq<char>> {
    entries.map_values(|e: SkillEntry| e.name@)
}

/// Whether the names of `entries` strictly ascend.
pub open spec fn names_sorted(entries: Seq<SkillEntry>) -> bool {
    forall|i: int, j: int|
        0 <= i < j < entries.len() ==> text_lt((#[trigger] entries[i]).name@, (#[trigger] entries[j]).name@)
}

/// Whether the skill `e` is visible to `hat` on `backend`: a backend restriction
/// must name the active backend, if there is one; a hat restriction must name
/// the hat, if one is given.
pub open spec fn visible(e: SkillEntry, backend: Option<Seq<char>>, hat: Option<Seq<char>>) -> bool {
    &&& (e.backends@.len() == 0 || backend is None || string_views(e.backends@).contains(
        backend.unwrap(),
    ))
    &&& (e.hats@.len() == 0 || hat is None || string_views(e.hats@).contains(hat.unwrap()))
}

/// The skills of a loop, ordered by name, and the active backend.
pub struct SkillRegistry {
    skills: Vec<SkillEntry>,
    active_backend: Option<String>,
}

/// Whether `v` holds the text `t`.
fn holds(v: &Vec<String>, t: &str) -> (r: bool)
    ensures
        r == string_views(v@).contains(t@),
{
    crate::event_loop::contains_string(v, t)
}

impl SkillRegistry {
    /// The registered skills, in order of name.
    pub closed spec fn entries(&self) -> Seq<SkillEntry> {
        self.skills@
    }

    /// The active backend.
    pub closed spec fn backend(&self) -> Option<Seq<char>> {
        match self.active_backend {
            Some(b) => Some(b@),
            None => None,
        }
    }

    /// The registry invariant: names strictly ascend.
    pub closed spec fn wf(&self) -> bool {
        names_sorted(self.skills@)
    }

    /// The names of a well-formed registry strictly ascend.
    pub proof fn lemma_wf_sorted(&self)
        requires
            self.wf(),
        ensures
            names_sorted(self.entries()),
    {
    }

    /// An empty registry for `active_backend`.
    pub fn new(active_backend: Option<&str>) -> (r: SkillRegistry)
        ensures
            r.wf(),
            r.entries().len() == 0,
            r.backend() == match active_backend {
                Some(b) => Some(b@),
                None => None,
            },
    {
        SkillRegistry {
            skills: Vec::new(),
            active_backend: match active_backend {
                Some(b) => Some(owned(b)),
                None => None,
            },
        }
    }

    /// Whether `skill` is visible to `hat_id`, as `visible` states.
    pub fn is_visible(&self, skill: &SkillEntry, hat_id: Option<&str>) -> (r: bool)
        ensures
            r == visible(
                *skill,
                self.backend(),
                match hat_id {
                    Some(h) => Some(h@),
                    None => None,
                },
            ),
    {
        if skill.backends.len() > 0 {
            match &self.active_backend {
                Some(b) => {
                    if !holds(&skill.backends, b.as_str()) {
                        return false;
                    }
                },
                None => {},
            }
        }
        if skill.hats.len() > 0 {
            match hat_id {
                Some(h) => {
                    if !holds(&skill.hats, h) {
                        return false;
                    }
                },
                None => {},
            }
        }
        true
    }

    /// The position of the skill named `name`, or where it would go.
    fn locate(&self, name: &str) -> (r: (usize, bool))
        requires
            self.wf(),
        ensures
            r.0 <= self.skills@.len(),
            r.1 ==> r.0 < self.skills@.len() && self.skills@[r.0 as int].name@ == name@,
            !r.1 ==> forall|i: int| 0 <= i < self.skills@.len() ==> (#[trigger] self.skills@[i]).name@ != name@,
            forall|i: int| 0 <= i < r.0 ==> text_lt((#[trigger] self.skills@[i]).name@, name@),
            !r.1 ==> forall|i: int| r.0 <= i < self.skills@.len() ==> text_lt(name@, (#[trigger] self.skills@[i]).name@),
    {
        let key = chars_of(name);
        let mut i: usize = 0;
        while i < self.skills.len()
            invariant
                i <= self.skills@.len(),
                key@ == name@,
                names_sorted(self.skills@),
                forall|j: int| 0 <= j < i ==> text_lt((#[trigger] self.skills@[j]).name@, name@),
            decreases self.skills@.len() - i,
        {
            let cur = chars_of(self.skills[i].name.as_str());
            if same_chars(cur.as_slice(), key.as_slice()) {
                proof {
                    assert forall|j: int| 0 <= j < self.skills@.len() && j != i implies (#[trigger] self.skills@[j]).name@ != name@ by {
                        if j < i {
                            lemma_lt_irreflexive(name@);
                        } else {
                            assert(text_lt(self.skills@[i as int].name@, self.skills@[j].name@));
                            lemma_lt_irreflexive(name@);
                        }
                    }
                }
                return (i, true);
            }
            if !text_lt_exec(cur.as_slice(), key.as_slice()) {
                proof {
                    lemma_lt_total(name@, cur@);
                    assert forall|j: int| i <= j < self.skills@.len() implies text_lt(name@, (#[trigger] self.skills@[j]).name@) by {
                        if j > i {
                            assert(text_lt(self.skills@[i as int].name@, self.skills@[j].name@));
                            lemma_lt_transitive(name@, self.skills@[i as int].name@, self.skills@[j].name@);
                        }
                    }
                    assert forall|j: int| 0 <= j < self.skills@.len() implies (#[trigger] self.skills@[j]).name@ != name@ by {
                        if j < i {
                            lemma_lt_irreflexive(name@);
                        } else {
                            lemma_lt_irreflexive(name@);
                        }
                    }
                }
                return (i, false);
            }
            i += 1;
        }
        proof {
            assert forall|j: int| 0 <= j < self.skills@.len() implies (#[trigger] self.skills@[j]).name@ != name@ by {
                lemma_lt_irreflexive(name@);
            }
        }
        (i, false)
    }
}

/// Replacing an entry by one of the same name keeps the set of names.
pub proof fn lemma_names_update(old: Seq<SkillEntry>, pos: int, e: SkillEntry)
    requires
        0 <= pos < old.len(),
        old[pos].name@ == e.name@,
    ensures
        entry_names(old.update(pos, e)) == entry_names(old),
{
    assert(entry_names(old.update(pos, e)) =~= entry_names(old));
}

/// Inserting an entry adds its name to the set of names.
pub proof fn lemma_names_insert(old: Seq<SkillEntry>, pos: int, e: SkillEntry)
    requires
        0 <= pos <= old.len(),
    ensures
        forall|m: Seq<char>|
            #![trigger entry_names(old.insert(pos, e)).contains(m)]
            entry_names(old.insert(pos, e)).contains(m) <==> (entry_names(old).contains(m) || m
                == e.name@),
{
    let n = old.insert(pos, e);
    assert(entry_names(n) =~= entry_names(old).insert(pos, e.name@));
    assert forall|m: Seq<char>|
        #![trigger entry_names(n).contains(m)]
        entry_names(n).contains(m) <==> (entry_names(old).contains(m) || m == e.name@) by {
        let no = entry_names(old);
        let nn = entry_names(n);
        if nn.contains(m) {
            let k = choose|k: int| 0 <= k < nn.len() && nn[k] == m;
            if k < pos {
                assert(no[k] == m);
            } else if k > pos {
                assert(no[k - 1] == m);
            }
        }
        if no.contains(m) {
            let k = choose|k: int| 0 <= k < no.len() && no[k] == m;
            if k < pos {
                assert(nn[k] == m);
            } else {
                assert(nn[k + 1] == m);
            }
        }
        if m == e.name@ {
            assert(nn[pos] == m);
        }
    }
}

/// No text comes strictly before itself.
pub proof fn lemma_lt_irreflexive(a: Seq<char>)
    ensures
        !text_lt(a, a),
    decreases a.len(),
{
    if a.len() > 0 {
        lemma_lt_irreflexive(a.drop_first());
    }
}

/// Of two different texts, one comes strictly before the other.
pub proof fn lemma_lt_total(a: Seq<char>, b: Seq<char>)
    ensures
        a == b || text_lt(a, b) || text_lt(b, a),
    decreases a.len(),
{
    if a.len() > 0 && b.len() > 0 && a[0] == b[0] {
        lemma_lt_total(a.drop_first(), b.drop_first());
        if a.drop_first() == b.drop_first() {
            assert(a =~= seq![a[0]] + a.drop_first());
            assert(b =~= seq![b[0]] + b.drop_first());
        }
    } else if a.len() == 0 && b.len() == 0 {
        assert(a =~= b);
    } else if a.len() > 0 && b.len() > 0 {
        assert(a[0] < b[0] || b[0] < a[0]);
    }
}

/// The order of texts is transitive.
pub proof fn lemma_lt_transitive(a: Seq<char>, b: Seq<char>, c: Seq<char>)
    requires
        text_lt(a, b),
        text_lt(b, c),
    ensures
        text_lt(a, c),
    decreases a.len(),
{
    if a.len() > 0 && b.len() > 0 && c.len() > 0 && a[0] == b[0] && b[0] == c[0] {
        lemma_lt_transitive(a.drop_first(), b.drop_first(), c.drop_first());
    }
}

/// `s` without its leading line breaks.
pub open spec fn skip_newlines(s: Seq<char>) -> Seq<char>
    decreases s.len(),
{
    if s.len() > 0 && s[0] == '\n' {
        skip_newlines(s.drop_first())
    } else {
        s
    }
}

/// The frontmatter text and the body of the skill document `raw`: the document,
/// leading white space aside, opens with `---`, and the frontmatter runs to the
/// next line that starts with `---`; the body follows without leading line
/// breaks. `None` where the document has no complete frontmatter block.
pub open spec fn frontmatter_split(raw: Seq<char>) -> Option<(Seq<char>, Seq<char>)> {
    let t = trim_start(raw);
    if !has_prefix(t, "---"@) {
        None
    } else {
        let a = t.skip(3);
        match find_pos(a, "\n---"@, 0) {
            Some(p) => Some((a.take(p), skip_newlines(a.skip(p + 4)))),
            None => None,
        }
    }
}

fn trim_start_index(s: &[char]) -> (r: usize)
    ensures
        r <= s@.len(),
        trim_start(s@) == s@.skip(r as int),
{
    let mut i: usize = 0;
    assert(s@.skip(0) =~= s@);
    while i < s.len() && crate::text::is_space_exec(s[i])
        invariant
            i <= s@.len(),
            trim_start(s@) == trim_start(s@.skip(i as int)),
        decreases s@.len() - i,
    {
        assert(s@.skip(i as int).drop_first() =~= s@.skip(i + 1));
        i += 1;
    }
    i
}

/// Splits the skill document `raw` into its frontmatter text and its body, as
/// `frontmatter_split` states; without frontmatter, the body is the whole document.
pub fn split_frontmatter(raw: &str) -> (r: (Option<String>, String))
    ensures
        match frontmatter_split(raw@) {
            Some((y, b)) => r.0 matches Some(yt) && yt@ == y && r.1@ == b,
            None => r.0 is None && r.1@ == raw@,
        },
{
    let c = chars_of(raw);
    let n = c.len();
    let st = trim_start_index(c.as_slice());
    let t = copy_range(c.as_slice(), st, n);
    assert(t@ =~= trim_start(c@));
    if !starts_with_exec(t.as_slice(), chars_of("---").as_slice()) {
        return (None, owned(raw));
    }
    proof {
        reveal_strlit("---");
    }
    let a = copy_range(t.as_slice(), 3, t.len());
    assert(a@ =~= t@.skip(3));
    match find_pos_exec(a.as_slice(), chars_of("\n---").as_slice(), 0) {
        None => (None, owned(raw)),
        Some(p) => {
            proof {
                reveal_strlit("\n---");
                lemma_find_pos(a@, "\n---"@, 0);
                assert(occurs_at(a@, "\n---"@, p as int));
            }
            let yaml = copy_range(a.as_slice(), 0, p);
            assert(yaml@ =~= a@.take(p as int));
            let mut b = p + 4;
            assert(a@.subrange(b as int, a@.len() as int) =~= a@.skip(p + 4));
            while b < a.len() && a[b] == '\n'
                invariant
                    p + 4 <= b <= a@.len(),
                    skip_newlines(a@.skip(p + 4)) == skip_newlines(a@.subrange(b as int, a@.len() as int)),
                decreases a@.len() - b,
            {
                assert(a@.subrange(b as int, a@.len() as int).drop_first() =~= a@.subrange(b + 1, a@.len() as int));
                b += 1;
            }
            let body = copy_range(a.as_slice(), b, a.len());
            (Some(string_of(yaml.as_slice())), string_of(body.as_slice()))
        },
    }
}

/// The skills among the first `n` of `entries` visible to `hat` on `backend`.
pub open spec fn visible_upto(
    entries: Seq<SkillEntry>,
    backend: Option<Seq<char>>,
    hat: Option<Seq<char>>,
    auto_only: bool,
    n: int,
) -> Seq<SkillEntry>
    decreases n,
{
    if n <= 0 {
        Seq::empty()
    } else {
        let prev = visible_upto(entries, backend, hat, auto_only, n - 1);
        let e = entries[n - 1];
        if visible(e, backend, hat) && (!auto_only || e.auto_inject) {
            prev.push(e)
        } else {
            prev
        }
    }
}

/// The name a document gets: its frontmatter's, or else `fallback`.
pub open spec fn chosen_name(fm: Option<SkillFrontmatter>, fallback: Seq<char>) -> Seq<char> {
    match fm {
        Some(f) => match f.name {
            Some(n) => n@,
            None => fallback,
        },
        None => fallback,
    }
}

/// The description a document gets: its frontmatter's, or else empty.
pub open spec fn fm_description(fm: Option<SkillFrontmatter>) -> Seq<char> {
    match fm {
        Some(f) => match f.description {
            Some(d) => d@,
            None => Seq::empty(),
        },
        None => Seq::empty(),
    }
}

/// One list of the frontmatter (0: hats, 1: backends, 2: tags), or else empty.
pub open spec fn fm_list(fm: Option<SkillFrontmatter>, which: int) -> Seq<Seq<char>> {
    match fm {
        Some(f) => if which == 0 {
            string_views(f.hats@)
        } else if which == 1 {
            string_views(f.backends@)
        } else {
            string_views(f.tags@)
        },
        None => Seq::empty(),
    }
}

/// Whether `e` is the entry registered from a document with frontmatter `fm`,
/// body `content` and `source`, named `name`: not auto-injected.
pub open spec fn entry_from(e: SkillEntry, name: Seq<char>, fm: Option<SkillFrontmatter>, content: Seq<char>, source: SkillSource) -> bool {
    &&& e.name@ == name
    &&& e.content@ == content
    &&& !e.auto_inject
    &&& e.description@ == fm_description(fm)
    &&& string_views(e.hats@) == fm_list(fm, 0)
    &&& string_views(e.backends@) == fm_list(fm, 1)
    &&& string_views(e.tags@) == fm_list(fm, 2)
    &&& e.source == source
}

/// Whether `e` carries what the override `o` sets: its auto-injection, and
/// each non-empty list of hats, backends and tags.
pub open spec fn override_holds(e: SkillEntry, o: SkillOverride) -> bool {
    &&& (o.auto_inject matches Some(b) ==> e.auto_inject == b)
    &&& (o.hats@.len() > 0 ==> string_views(e.hats@) == string_views(o.hats@))
    &&& (o.backends@.len() > 0 ==> string_views(e.backends@) == string_views(o.backends@))
    &&& (o.tags@.len() > 0 ==> string_views(e.tags@) == string_views(o.tags@))
}

/// Whether the override at `k` is the last one for its name among the first `n`.
pub open spec fn last_for_name(overrides: Seq<(String, SkillOverride)>, k: int, n: int) -> bool {
    forall|j: int| k < j < n ==> (#[trigger] overrides[j]).0@ != overrides[k].0@
}

/// Whether the entry named `name` among `entries`, if there is one, carries `o`.
pub open spec fn named_carries(entries: Seq<SkillEntry>, name: Seq<char>, o: SkillOverride) -> bool {
    entry_names(entries).contains(name) ==> exists|i: int|
        0 <= i < entries.len() && (#[trigger] entries[i]).name@ == name && override_holds(entries[i], o)
}

/// The body of the built-in skill document `raw`: what follows its frontmatter.
pub open spec fn builtin_body(raw: Seq<char>) -> Seq<char> {
    match frontmatter_split(raw) {
        Some(p) => p.1,
        None => raw,
    }
}

/// The skills that the references `v` point to.
pub open spec fn derefs(v: Seq<&SkillEntry>) -> Seq<SkillEntry> {
    v.map_values(|e: &SkillEntry| *e)
}

/// The rows of the skill index for `es`.
pub open spec fn index_rows(es: Seq<SkillEntry>) -> Seq<char>
    decreases es.len(),
{
    if es.len() == 0 {
        Seq::empty()
    } else {
        let e = es.last();
        index_rows(es.drop_last()) + "| "@ + e.name@ + " | "@ + e.description@
            + " | `ralph tools skill load "@ + e.name@ + "` |\n"@
    }
}

/// The skill index for the skills `es`: empty where there are none.
pub open spec fn index_text(es: Seq<SkillEntry>) -> Seq<char> {
    if es.len() == 0 {
        Seq::empty()
    } else {
        "## SKILLS\n\nAvailable skills you can load on demand:\n\n"@
            + "| Skill | Description | Load Command |\n"@ + "|-------|-------------|-------------|\n"@
            + index_rows(es) + "\nTo load a skill, run the load command. The skill content will guide you.\n"@
    }
}

/// A skill wrapped in tags named after it.
pub open spec fn wrapped_skill(name: Seq<char>, content: Seq<char>) -> Seq<char> {
    "<"@ + name + "-skill>\n"@ + content + "\n</"@ + name + "-skill>"@
}

/// The built-in skill on memories, with its frontmatter.
pub const MEMORIES_SKILL: &'static str = "---\nname: ralph-memories\ndescription: Persistent learning across sessions with ralph tools memory\n---\n\n# Ralph Memories\n\nMemories keep what a loop learned for later loops.\n\n- `ralph tools memory add \"<text>\"` records a memory.\n- `ralph tools memory list` shows the memories.\n- `ralph tools memory search <query>` finds memories.\n";

/// The built-in skill on tasks, without frontmatter.
pub const TASKS_SKILL: &'static str = "# Ralph Tasks\n\nTasks track the work items of a loop.\n\n- `ralph tools task add \"<title>\"` creates a task.\n- `ralph tools task ready` lists the tasks that are not blocked.\n- `ralph tools task close <id>` closes a task.\n";

impl SkillRegistry {
    /// Registers a skill read from a document: its name is the frontmatter's, or
    /// else `fallback_name`; a skill of the same name is replaced. Skills start
    /// without auto-injection.
    #[verifier::rlimit(40)]
    pub fn register_document(
        &mut self,
        fallback_name: &str,
        frontmatter: Option<SkillFrontmatter>,
        content: String,
        source: SkillSource,
    )
        requires
            old(self).wf(),
        ensures
            final(self).wf(),
            final(self).backend() == old(self).backend(),
            ({
                let name = chosen_name(frontmatter, fallback_name@);
                &&& exists|i: int|
                    0 <= i < final(self).entries().len() && (#[trigger] final(self).entries()[i]).name@ == name
                        && final(self).entries()[i].content@ == content@ && !final(self).entries()[i].auto_inject
                &&& exists|i: int|
                    0 <= i < final(self).entries().len() && entry_from(
                        #[trigger] final(self).entries()[i],
                        name,
                        frontmatter,
                        content@,
                        source,
                    )
                &&& forall|j: int|
                    0 <= j < old(self).entries().len() && (#[trigger] old(self).entries()[j]).name@ != name
                        ==> final(self).entries().contains(old(self).entries()[j])
                &&& forall|m: Seq<char>|
                    entry_names(final(self).entries()).contains(m) <==> (entry_names(
                        old(self).entries(),
                    ).contains(m) || m == name)
            }),
    {
        let ghost expected = chosen_name(frontmatter, fallback_name@);
        let ghost fdesc = fm_description(frontmatter);
        let ghost fh = fm_list(frontmatter, 0);
        let ghost fb = fm_list(frontmatter, 1);
        let ghost ft = fm_list(frontmatter, 2);
        let ghost src = source;
        let fm = match frontmatter {
            Some(f) => f,
            None => SkillFrontmatter::empty(),
        };
        proof {
            if frontmatter is None {
                assert(string_views(fm.hats@) =~= Seq::<Seq<char>>::empty());
                assert(string_views(fm.backends@) =~= Seq::<Seq<char>>::empty());
                assert(string_views(fm.tags@) =~= Seq::<Seq<char>>::empty());
            }
            assert(string_views(fm.hats@) == fm_list(frontmatter, 0));
            assert(string_views(fm.backends@) == fm_list(frontmatter, 1));
            assert(string_views(fm.tags@) == fm_list(frontmatter, 2));
            assert(fdesc == match fm.description { Some(d) => d@, None => Seq::<char>::empty() });
        }
        let name = match fm.name {
            Some(n) => n,
            None => owned(fallback_name),
        };
        let description = match fm.description {
            Some(d) => d,
            None => String::new(),
        };
        let ghost nv = name@;
        let ghost cv = content@;
        let (pos, found) = self.locate(name.as_str());
        let entry = SkillEntry {
            name,
            description,
            content,
            source,
            hats: fm.hats,
            backends: fm.backends,
            tags: fm.tags,
            auto_inject: false,
        };
        assert(entry_from(entry, nv, frontmatter, cv, src));
        let ghost old_entries = self.skills@;
        assert(nv == expected);
        if found {
            self.skills.set(pos, entry);
            proof {
                assert(self.skills@[pos as int].name@ == nv);
                assert forall|i: int, j: int| 0 <= i < j < self.skills@.len() implies text_lt(
                    (#[trigger] self.skills@[i]).name@,
                    (#[trigger] self.skills@[j]).name@,
                ) by {
                    assert(text_lt(old_entries[i].name@, old_entries[j].name@));
                }
                assert(self.skills@ == old_entries.update(pos as int, self.skills@[pos as int]));
                lemma_names_update(old_entries, pos as int, self.skills@[pos as int]);
                assert(entry_names(old_entries)[pos as int] == nv);
                assert(entry_names(old_entries).contains(nv));
                assert(self.skills@[pos as int].content@ == cv);
                assert(!self.skills@[pos as int].auto_inject);
                assert(self.entries()[pos as int].name@ == expected);
                assert(entry_from(self.entries()[pos as int], expected, frontmatter, cv, src));
                assert forall|j: int| 0 <= j < old_entries.len() && (#[trigger] old_entries[j]).name@ != expected implies self.entries().contains(old_entries[j]) by {
                    assert(j != pos);
                    assert(self.entries()[j] == old_entries[j]);
                }
                assert(old_entries == old(self).entries());
                assert(nv == chosen_name(frontmatter, fallback_name@));
                assert(self.entries() == self.skills@);
                assert(exists|i: int|
                    0 <= i < self.entries().len() && (#[trigger] self.entries()[i]).name@ == chosen_name(frontmatter, fallback_name@)
                        && self.entries()[i].content@ == content@ && !self.entries()[i].auto_inject);
                assert forall|m: Seq<char>|
                    entry_names(self.entries()).contains(m) <==> (entry_names(old(self).entries()).contains(m) || m == chosen_name(frontmatter, fallback_name@)) by {
                }
            }
            return;
        } else {
            self.skills.insert(pos, entry);
            proof {
                assert(self.skills@[pos as int].name@ == nv);
                assert forall|i: int, j: int| 0 <= i < j < self.skills@.len() implies text_lt(
                    (#[trigger] self.skills@[i]).name@,
                    (#[trigger] self.skills@[j]).name@,
                ) by {
                    if j < pos {
                        assert(text_lt(old_entries[i].name@, old_entries[j].name@));
                    } else if j == pos {
                    } else if i < pos {
                        assert(text_lt(old_entries[i].name@, nv));
                        assert(text_lt(nv, old_entries[j - 1].name@));
                        lemma_lt_transitive(old_entries[i].name@, nv, old_entries[j - 1].name@);
                    } else if i == pos {
                        assert(self.skills@[j] == old_entries[j - 1]);
                    } else {
                        assert(text_lt(old_entries[i - 1].name@, old_entries[j - 1].name@));
                    }
                }
                assert(self.skills@ == old_entries.insert(pos as int, self.skills@[pos as int]));
                lemma_names_insert(old_entries, pos as int, self.skills@[pos as int]);
                assert(self.skills@[pos as int].content@ == cv);
                assert(!self.skills@[pos as int].auto_inject);
                assert(self.entries()[pos as int].name@ == expected);
                assert(entry_from(self.entries()[pos as int], expected, frontmatter, cv, src));
                assert forall|j: int| 0 <= j < old_entries.len() && (#[trigger] old_entries[j]).name@ != expected implies self.entries().contains(old_entries[j]) by {
                    if j < pos {
                        assert(self.entries()[j] == old_entries[j]);
                    } else {
                        assert(self.entries()[j + 1] == old_entries[j]);
                    }
                }
                assert(old_entries == old(self).entries());
                assert(nv == chosen_name(frontmatter, fallback_name@));
                assert(exists|i: int|
                    0 <= i < self.entries().len() && (#[trigger] self.entries()[i]).name@ == chosen_name(frontmatter, fallback_name@)
                        && self.entries()[i].content@ == content@ && !self.entries()[i].auto_inject);
                assert forall|m: Seq<char>|
                    entry_names(self.entries()).contains(m) <==> (entry_names(old(self).entries()).contains(m) || m == chosen_name(frontmatter, fallback_name@)) by {
                }
            }
        }
    }

    /// Registers the built-in skills: `ralph-memories`, whose body follows its
    /// frontmatter, and `tasks`; neither is auto-injected.
    pub fn register_builtins(&mut self)
        requires
            old(self).wf(),
        ensures
            final(self).wf(),
            final(self).backend() == old(self).backend(),
            exists|i: int|
                0 <= i < final(self).entries().len() && (#[trigger] final(self).entries()[i]).name@
                    == "ralph-memories"@ && final(self).entries()[i].content@ == builtin_body(MEMORIES_SKILL@)
                    && !final(self).entries()[i].auto_inject && final(self).entries()[i].source == SkillSource::BuiltIn,
            exists|i: int|
                0 <= i < final(self).entries().len() && (#[trigger] final(self).entries()[i]).name@ == "tasks"@
                    && final(self).entries()[i].content@ == TASKS_SKILL@ && !final(self).entries()[i].auto_inject
                    && final(self).entries()[i].source == SkillSource::BuiltIn,
    {
        let (yaml, body) = split_frontmatter(MEMORIES_SKILL);
        let ghost bv = body@;
        assert(bv == builtin_body(MEMORIES_SKILL@));
        let fm = SkillFrontmatter {
            name: Some(owned("ralph-memories")),
            description: Some(owned("Persistent learning across sessions with ralph tools memory")),
            hats: Vec::new(),
            backends: Vec::new(),
            tags: Vec::new(),
        };
        self.register_document("memories", Some(fm), body, SkillSource::BuiltIn);
        let ghost mid = self.entries();
        let ghost k = choose|i: int| 0 <= i < mid.len() && entry_from(mid[i], "ralph-memories"@, Some(fm), bv, SkillSource::BuiltIn);
        self.register_document("tasks", None, owned(TASKS_SKILL), SkillSource::BuiltIn);
        proof {
            reveal_strlit("tasks");
            reveal_strlit("ralph-memories");
            assert(mid[k].name@ != "tasks"@) by {
                assert(mid[k].name@[0] != "tasks"@[0]);
            }
            assert(self.entries().contains(mid[k]));
            let j = choose|j: int| 0 <= j < self.entries().len() && self.entries()[j] == mid[k];
            assert(self.entries()[j].name@ == "ralph-memories"@);
        }
    }

    /// The skill named `name`.
    pub fn get(&self, name: &str) -> (r: Option<&SkillEntry>)
        requires
            self.wf(),
        ensures
            match r {
                Some(e) => e.name@ == name@ && self.entries().contains(*e),
                None => !entry_names(self.entries()).contains(name@),
            },
    {
        let (pos, found) = self.locate(name);
        if found {
            Some(&self.skills[pos])
        } else {
            proof {
                if entry_names(self.skills@).contains(name@) {
                    let k = choose|k: int| 0 <= k < entry_names(self.skills@).len() && entry_names(self.skills@)[k] == name@;
                    assert(self.skills@[k].name@ == name@);
                }
            }
            None
        }
    }

    fn select(&self, hat_id: Option<&str>, auto_only: bool) -> (r: Vec<&SkillEntry>)
        ensures
            derefs(r@) == visible_upto(
                self.entries(),
                self.backend(),
                match hat_id {
                    Some(h) => Some(h@),
                    None => None,
                },
                auto_only,
                self.entries().len() as int,
            ),
    {
        let ghost hv = match hat_id {
            Some(h) => Some(h@),
            None => None,
        };
        let mut r: Vec<&SkillEntry> = Vec::new();
        let mut k: usize = 0;
        while k < self.skills.len()
            invariant
                k <= self.skills@.len(),
                derefs(r@) == visible_upto(self.skills@, self.backend(), hv, auto_only, k as int),
                hv == match hat_id {
                    Some(h) => Some(h@),
                    None => None,
                },
            decreases self.skills@.len() - k,
        {
            let e = &self.skills[k];
            let ghost prev = r@;
            assert(self.skills@[k as int] == *e);
            assert(visible_upto(self.skills@, self.backend(), hv, auto_only, k + 1) == (if visible(*e, self.backend(), hv) && (!auto_only || e.auto_inject) {
                visible_upto(self.skills@, self.backend(), hv, auto_only, k as int).push(*e)
            } else {
                visible_upto(self.skills@, self.backend(), hv, auto_only, k as int)
            }));
            if self.is_visible(e, hat_id) && (!auto_only || e.auto_inject) {
                r.push(e);
                assert(derefs(r@) =~= derefs(prev).push(*e));
            }
            k += 1;
        }
        r
    }

    /// The skills visible to `hat_id`, in order of name.
    pub fn skills_for_hat(&self, hat_id: Option<&str>) -> (r: Vec<&SkillEntry>)
        ensures
            derefs(r@) == visible_upto(
                self.entries(),
                self.backend(),
                match hat_id {
                    Some(h) => Some(h@),
                    None => None,
                },
                false,
                self.entries().len() as int,
            ),
    {
        self.select(hat_id, false)
    }

    /// The auto-injected skills visible to `hat_id`, in order of name.
    pub fn auto_inject_skills(&self, hat_id: Option<&str>) -> (r: Vec<&SkillEntry>)
        ensures
            derefs(r@) == visible_upto(
                self.entries(),
                self.backend(),
                match hat_id {
                    Some(h) => Some(h@),
                    None => None,
                },
                true,
                self.entries().len() as int,
            ),
    {
        self.select(hat_id, true)
    }

    /// The skill index for `hat_id`, as `index_text` states of the visible skills.
    pub fn build_index(&self, hat_id: Option<&str>) -> (r: String)
        ensures
            r@ == index_text(
                visible_upto(
                    self.entries(),
                    self.backend(),
                    match hat_id {
                        Some(h) => Some(h@),
                        None => None,
                    },
                    false,
                    self.entries().len() as int,
                ),
            ),
    {
        let visible = self.select(hat_id, false);
        if visible.len() == 0 {
            proof {
                reveal_strlit("");
                assert(derefs(visible@).len() == 0);
            }
            return owned("");
        }
        let mut out = owned("## SKILLS\n\nAvailable skills you can load on demand:\n\n");
        push_str(&mut out, "| Skill | Description | Load Command |\n");
        push_str(&mut out, "|-------|-------------|-------------|\n");
        let ghost head = out@;
        let ghost vs = derefs(visible@);
        let mut k: usize = 0;
        assert(vs.take(0) =~= Seq::<SkillEntry>::empty());
        assert(out@ =~= head + index_rows(vs.take(0)));
        while k < visible.len()
            invariant
                k <= visible@.len(),
                vs == derefs(visible@),
                out@ == head + index_rows(vs.take(k as int)),
            decreases visible@.len() - k,
        {
            let e = visible[k];
            assert(vs.take(k + 1).drop_last() =~= vs.take(k as int));
            assert(vs.take(k + 1).last() == *e);
            push_str(&mut out, "| ");
            push_str(&mut out, e.name.as_str());
            push_str(&mut out, " | ");
            push_str(&mut out, e.description.as_str());
            push_str(&mut out, " | `ralph tools skill load ");
            push_str(&mut out, e.name.as_str());
            push_str(&mut out, "` |\n");
            k += 1;
            assert(out@ =~= head + index_rows(vs.take(k as int)));
        }
        assert(vs.take(k as int) =~= vs);
        push_str(&mut out, "\nTo load a skill, run the load command. The skill content will guide you.\n");
        assert(out@ =~= index_text(vs));
        out
    }

    /// The skill named `name`, wrapped in tags named after it.
    pub fn load_skill(&self, name: &str) -> (r: Option<String>)
        requires
            self.wf(),
        ensures
            match r {
                Some(t) => exists|i: int|
                    0 <= i < self.entries().len() && (#[trigger] self.entries()[i]).name@ == name@
                        && t@ == wrapped_skill(name@, self.entries()[i].content@),
                None => !entry_names(self.entries()).contains(name@),
            },
    {
        match self.get(name) {
            Some(e) => {
                let mut out = owned("<");
                push_str(&mut out, e.name.as_str());
                push_str(&mut out, "-skill>\n");
                push_str(&mut out, e.content.as_str());
                push_str(&mut out, "\n</");
                push_str(&mut out, e.name.as_str());
                push_str(&mut out, "-skill>");
                proof {
                    let i = choose|i: int| 0 <= i < self.entries().len() && self.entries()[i] == *e;
                    assert(self.entries()[i].name@ == name@);
                }
                Some(out)
            },
            None => None,
        }
    }

    /// Applies configured overrides in order: a disabled skill is removed; else
    /// non-empty hats, backends and tags replace the skill's, and an auto-inject
    /// setting replaces its own.
    pub fn apply_overrides(&mut self, overrides: &Vec<(String, SkillOverride)>)
        requires
            old(self).wf(),
        ensures
            final(self).wf(),
            final(self).backend() == old(self).backend(),
            forall|k: int|
                0 <= k < overrides@.len() && (#[trigger] overrides@[k]).1.enabled == Some(false)
                    ==> !entry_names(final(self).entries()).contains(overrides@[k].0@),
            forall|k: int|
                0 <= k < overrides@.len() && (#[trigger] overrides@[k]).1.enabled != Some(false)
                    && last_for_name(overrides@, k, overrides@.len() as int) ==> named_carries(
                    final(self).entries(),
                    overrides@[k].0@,
                    overrides@[k].1,
                ),
    {
        let mut k: usize = 0;
        while k < overrides.len()
            invariant
                k <= overrides@.len(),
                self.wf(),
                self.backend() == old(self).backend(),
                forall|j: int|
                    0 <= j < k && (#[trigger] overrides@[j]).1.enabled == Some(false)
                        ==> !entry_names(self.entries()).contains(overrides@[j].0@),
                forall|j: int|
                    0 <= j < k && (#[trigger] overrides@[j]).1.enabled != Some(false)
                        && last_for_name(overrides@, j, k as int) ==> named_carries(
                        self.entries(),
                        overrides@[j].0@,
                        overrides@[j].1,
                    ),
            decreases overrides@.len() - k,
        {
            let ghost before_k = self.skills@;
            let name = overrides[k].0.as_str();
            let ghost names_before = entry_names(self.skills@);
            let (pos, found) = self.locate(name);
            if matches!(overrides[k].1.enabled, Some(false)) {
                if found {
                    let ghost before = self.skills@;
                    self.skills.remove(pos);
                    proof {
                        assert forall|i: int, j: int| 0 <= i < j < self.skills@.len() implies text_lt(
                            (#[trigger] self.skills@[i]).name@,
                            (#[trigger] self.skills@[j]).name@,
                        ) by {
                            let bi = if i < pos { i } else { i + 1 };
                            let bj = if j < pos { j } else { j + 1 };
                            assert(self.skills@[i] == before[bi]);
                            assert(self.skills@[j] == before[bj]);
                            assert(text_lt(before[bi].name@, before[bj].name@));
                        }
                        assert forall|m: Seq<char>| entry_names(self.skills@).contains(m) implies entry_names(before).contains(m) && m != name@ by {
                            let q = choose|q: int| 0 <= q < entry_names(self.skills@).len() && entry_names(self.skills@)[q] == m;
                            let bq = if q < pos { q } else { q + 1 };
                            assert(entry_names(before)[bq] == m);
                            assert(before[bq].name@ != name@) by {
                                if bq != pos {
                                    if bq < pos {
                                        assert(text_lt(before[bq].name@, before[pos as int].name@));
                                    } else {
                                        assert(text_lt(before[pos as int].name@, before[bq].name@));
                                    }
                                    lemma_lt_irreflexive(name@);
                                }
                            }
                        }
                    }
                } else {
                    proof {
                        if entry_names(self.skills@).contains(name@) {
                            let q = choose|q: int| 0 <= q < entry_names(self.skills@).len() && entry_names(self.skills@)[q] == name@;
                            assert(self.skills@[q].name@ == name@);
                        }
                    }
                }
            } else if found {
                let o = &overrides[k].1;
                let ghost before_names = entry_names(self.skills@);
                let ghost before = self.skills@;
                let mut entry = self.skills.remove(pos);
                if o.hats.len() > 0 {
                    entry.hats = o.hats.clone();
                }
                if o.backends.len() > 0 {
                    entry.backends = o.backends.clone();
                }
                if o.tags.len() > 0 {
                    entry.tags = o.tags.clone();
                }
                match o.auto_inject {
                    Some(b) => {
                        entry.auto_inject = b;
                    },
                    None => {},
                }
                self.skills.insert(pos, entry);
                proof {
                    assert forall|i: int| 0 <= i < self.skills@.len() implies (#[trigger] self.skills@[i]).name@ == before[i].name@ by {}
                    assert(entry_names(self.skills@) =~= entry_names(before));
                    assert forall|i: int, j: int| 0 <= i < j < self.skills@.len() implies text_lt(
                        (#[trigger] self.skills@[i]).name@,
                        (#[trigger] self.skills@[j]).name@,
                    ) by {
                        assert(text_lt(before[i].name@, before[j].name@));
                    }
                }
            }
            proof {
                let after = self.skills@;
                let nm = overrides@[k as int].0@;
                assert(nm == name@);
                assert forall|j: int|
                    0 <= j < k + 1 && (#[trigger] overrides@[j]).1.enabled != Some(false)
                        && last_for_name(overrides@, j, k + 1) implies named_carries(after, overrides@[j].0@, overrides@[j].1) by {
                    let nj = overrides@[j].0@;
                    if j < k {
                        assert(last_for_name(overrides@, j, k as int));
                        assert(nj != nm);
                        if entry_names(after).contains(nj) {
                            let q = choose|q: int| 0 <= q < entry_names(after).len() && entry_names(after)[q] == nj;
                            assert(after[q].name@ == nj);
                            assert(after[q].name@ != nm);
                            assert(before_k.contains(after[q]));
                            let q0 = choose|q0: int| 0 <= q0 < before_k.len() && before_k[q0] == after[q];
                            assert(entry_names(before_k)[q0] == nj);
                            assert(named_carries(before_k, nj, overrides@[j].1));
                            let i0 = choose|i0: int| 0 <= i0 < before_k.len() && (#[trigger] before_k[i0]).name@ == nj && override_holds(before_k[i0], overrides@[j].1);
                            if i0 != q0 {
                                lemma_lt_irreflexive(nj);
                                if i0 < q0 {
                                    assert(text_lt(before_k[i0].name@, before_k[q0].name@));
                                } else {
                                    assert(text_lt(before_k[q0].name@, before_k[i0].name@));
                                }
                            }
                        }
                    } else {
                        assert(j == k);
                        if entry_names(after).contains(nj) {
                            assert(found);
                            assert(after[pos as int].name@ == nm);
                            assert(override_holds(after[pos as int], overrides@[k as int].1));
                        }
                    }
                }
                assert(forall|m: Seq<char>| entry_names(self.skills@).contains(m) ==> names_before.contains(m));
                assert forall|j: int|
                    0 <= j < k + 1 && (#[trigger] overrides@[j]).1.enabled == Some(false) implies !entry_names(self.entries()).contains(overrides@[j].0@) by {
                    if j < k {
                        assert(!names_before.contains(overrides@[j].0@));
                    }
                }
            }
            k += 1;
        }
    }
}

} // verus!
