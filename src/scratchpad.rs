//! The scratchpad section of a prompt: the agent's working notes, cut to a
//! budget that keeps the most recent tail.

use vstd::prelude::*;
use crate::gate::join;
use crate::text::{
    chars_of, copy_range, decimal_digits, find_pos, find_pos_exec, has_prefix, lemma_find_pos,
    lines, lines_of, occurs_at, owned, push_str, string_of, trim, trim_chars, u64_text,
};
use crate::tea::string_views;

verus! {

/// The scratchpad budget in characters.
pub const SCRATCHPAD_BUDGET: usize = 16000;

/// The lines of `ls` that are markdown headings.
pub open spec fn headings(ls: Seq<Seq<char>>) -> Seq<Seq<char>>
    decreases ls.len(),
{
    if ls.len() == 0 {
        Seq::empty()
    } else {
        let prev = headings(ls.drop_last());
        if ls.last().len() > 0 && ls.last()[0] == '#' {
            prev.push(ls.last())
        } else {
            prev
        }
    }
}

/// Where the kept tail of an oversized scratchpad `c` starts: the line after
/// the cut that leaves `SCRATCHPAD_BUDGET` characters, or the cut itself.
pub open spec fn tail_start(c: Seq<char>) -> int {
    let start = c.len() - SCRATCHPAD_BUDGET;
    match find_pos(c, "\n"@, start) {
        Some(p) => p + 1,
        None => start,
    }
}

/// The marker that replaces the first `n` characters and names the headings
/// `heads` that went with them.
pub open spec fn truncation_marker(n: nat, heads: Seq<Seq<char>>) -> Seq<char> {
    "<!-- earlier content truncated ("@ + decimal_digits(n) + " chars omitted) -->"@ + if heads.len()
        > 0 {
        "\n<!-- discarded sections: "@ + join(heads, " | "@) + " -->"@
    } else {
        Seq::empty()
    }
}

/// The scratchpad `c` within budget: unchanged when it fits, else the marker,
/// a blank line, and the tail from `tail_start`.
pub open spec fn truncated(c: Seq<char>) -> Seq<char> {
    if c.len() <= SCRATCHPAD_BUDGET {
        c
    } else {
        let ls = tail_start(c);
        truncation_marker(ls as nat, headings(lines(c.take(ls)))) + "\n\n"@ + c.skip(ls)
    }
}

/// The scratchpad section for content `c` kept at `path`; none for blank content.
pub open spec fn scratchpad_section(path: Seq<char>, c: Seq<char>) -> Seq<char> {
    if trim(c).len() == 0 {
        Seq::empty()
    } else {
        "<scratchpad path=\""@ + path + "\">\n"@ + truncated(c) + "\n</scratchpad>\n\n"@
    }
}

/// A scratchpad that fits the budget exactly gets no truncation marker.
pub proof fn law_budget_exact_no_marker(c: Seq<char>)
    requires
        c.len() == SCRATCHPAD_BUDGET,
    ensures
        truncated(c) == c,
{
}

/// A scratchpad one character over the budget starts with the truncation marker:
/// nothing of the discarded head stands before it.
pub proof fn law_one_over_budget_marked(c: Seq<char>)
    requires
        c.len() == SCRATCHPAD_BUDGET + 1,
    ensures
        has_prefix(truncated(c), "<!-- earlier content truncated ("@),
{
    let ls = tail_start(c);
    let m = truncation_marker(ls as nat, headings(lines(c.take(ls))));
    let p = "<!-- earlier content truncated ("@;
    assert(truncated(c) == m + "\n\n"@ + c.skip(ls));
    assert(truncated(c).subrange(0, p.len() as int) =~= p);
}

fn headings_of(ls: &Vec<Vec<char>>) -> (r: Vec<String>)
    ensures
        string_views(r@) == headings(ls@.map_values(|l: Vec<char>| l@)),
{
    let ghost lv = ls@.map_values(|l: Vec<char>| l@);
    let mut r: Vec<String> = Vec::new();
    let mut k: usize = 0;
    assert(lv.take(0) =~= Seq::<Seq<char>>::empty());
    assert(string_views(r@) =~= Seq::<Seq<char>>::empty());
    while k < ls.len()
        invariant
            lv == ls@.map_values(|l: Vec<char>| l@),
            k <= ls@.len(),
            string_views(r@) == headings(lv.take(k as int)),
        decreases ls@.len() - k,
    {
        assert(lv.take(k + 1).drop_last() =~= lv.take(k as int));
        assert(lv.take(k + 1).last() == ls@[k as int]@);
        let ghost prev = r@;
        if ls[k].len() > 0 && ls[k][0] == '#' {
            r.push(string_of(ls[k].as_slice()));
            assert(string_views(r@) =~= string_views(prev).push(ls@[k as int]@));
        }
        k += 1;
    }
    assert(lv.take(k as int) =~= lv);
    r
}

/// The scratchpad `content` within budget, as `truncated` states.
pub fn truncate_scratchpad(content: &str) -> (r: String)
    ensures
        r@ == truncated(content@),
{
    let c = chars_of(content);
    let n = c.len();
    if n <= SCRATCHPAD_BUDGET {
        return string_of(c.as_slice());
    }
    let start = n - SCRATCHPAD_BUDGET;
    let nl = chars_of("\n");
    let ls = match find_pos_exec(c.as_slice(), nl.as_slice(), start) {
        Some(p) => {
            proof {
                reveal_strlit("\n");
                lemma_find_pos(c@, "\n"@, start as int);
                assert(occurs_at(c@, "\n"@, p as int));
            }
            p + 1
        },
        None => start,
    };
    assert(ls as int == tail_start(c@));
    let head = copy_range(c.as_slice(), 0, ls);
    assert(head@ =~= c@.take(ls as int));
    let hl = lines_of(head.as_slice());
    assert(hl@.map_values(|l: Vec<char>| l@) =~= lines(head@));
    let heads = headings_of(&hl);
    assert(string_views(heads@) == headings(lines(c@.take(ls as int))));
    let mut out = owned("<!-- earlier content truncated (");
    push_str(&mut out, u64_text(ls as u64).as_str());
    push_str(&mut out, " chars omitted) -->");
    if heads.len() > 0 {
        push_str(&mut out, "\n<!-- discarded sections: ");
        push_str(&mut out, crate::gate::join_strings(&heads, " | ").as_str());
        push_str(&mut out, " -->");
    }
    push_str(&mut out, "\n\n");
    let tail = copy_range(c.as_slice(), ls, n);
    assert(tail@ =~= c@.skip(ls as int));
    push_str(&mut out, string_of(tail.as_slice()).as_str());
    proof {
        let m = truncation_marker(ls as nat, headings(lines(c@.take(ls as int))));
        assert(out@ =~= m + "\n\n"@ + c@.skip(ls as int));
    }
    out
}

/// The scratchpad section for `content` kept at `path`, as `scratchpad_section` states.
pub fn scratchpad_section_of(path: &str, content: &str) -> (r: String)
    ensures
        r@ == scratchpad_section(path@, content@),
{
    if trim_chars(chars_of(content).as_slice()).len() == 0 {
        proof {
            reveal_strlit("");
        }
        return owned("");
    }
    let mut out = owned("<scratchpad path=\"");
    push_str(&mut out, path);
    push_str(&mut out, "\">\n");
    push_str(&mut out, truncate_scratchpad(content).as_str());
    push_str(&mut out, "\n</scratchpad>\n\n");
    out
}

} // verus!
