//! Thrashing detection: a task blocked three times is abandoned, once.

use vstd::prelude::*;
use crate::text::str_eq;

verus! {

/// The index of the first entry of `counts` whose task is `t`.
pub open spec fn entry_of(counts: Seq<(Seq<char>, u32)>, t: Seq<char>) -> Option<int>
    decreases counts.len(),
{
    if counts.len() == 0 {
        None
    } else {
        match entry_of(counts.drop_last(), t) {
            Some(i) => Some(i),
            None => if counts.last().0 == t {
                Some(counts.len() - 1)
            } else {
                None
            },
        }
    }
}

/// How often `t` was blocked according to `counts`.
pub open spec fn count_of(counts: Seq<(Seq<char>, u32)>, t: Seq<char>) -> nat {
    match entry_of(counts, t) {
        Some(i) => counts[i].1 as nat,
        None => 0,
    }
}

/// The counts after one more block of `t`, saturating.
pub open spec fn bump(counts: Seq<(Seq<char>, u32)>, t: Seq<char>) -> Seq<(Seq<char>, u32)> {
    match entry_of(counts, t) {
        Some(i) => counts.update(
            i,
            (t, if counts[i].1 < u32::MAX { (counts[i].1 + 1) as u32 } else { u32::MAX }),
        ),
        None => counts.push((t, 1u32)),
    }
}

/// The state after one more `build.blocked` for `t`: the counts, the abandoned
/// tasks, and whether `build.task.abandoned` is published now. That happens when
/// the count reaches three and `t` was not abandoned before.
pub open spec fn thrash_step(
    counts: Seq<(Seq<char>, u32)>,
    abandoned: Seq<Seq<char>>,
    t: Seq<char>,
) -> (Seq<(Seq<char>, u32)>, Seq<Seq<char>>, bool) {
    let c2 = bump(counts, t);
    if count_of(c2, t) >= 3 && !abandoned.contains(t) {
        (c2, abandoned.push(t), true)
    } else {
        (c2, abandoned, false)
    }
}

proof fn lemma_entry_of(counts: Seq<(Seq<char>, u32)>, t: Seq<char>)
    ensures
        match entry_of(counts, t) {
            Some(i) => 0 <= i < counts.len() && counts[i].0 == t && forall|j: int|
                0 <= j < i ==> counts[j].0 != t,
            None => forall|j: int| 0 <= j < counts.len() ==> counts[j].0 != t,
        },
    decreases counts.len(),
{
    if counts.len() > 0 {
        let p = counts.drop_last();
        lemma_entry_of(p, t);
        assert(forall|j: int| 0 <= j < p.len() ==> p[j] == counts[j]);
    }
}

proof fn lemma_entry_first(counts: Seq<(Seq<char>, u32)>, t: Seq<char>, i: int)
    requires
        0 <= i < counts.len(),
        counts[i].0 == t,
        forall|j: int| 0 <= j < i ==> counts[j].0 != t,
    ensures
        entry_of(counts, t) == Some(i),
    decreases counts.len(),
{
    if i < counts.len() - 1 {
        lemma_entry_first(counts.drop_last(), t, i);
    } else {
        lemma_entry_of(counts.drop_last(), t);
    }
}

/// The count of `t` after `bump` is one more, saturating; other counts stay.
pub proof fn lemma_bump(counts: Seq<(Seq<char>, u32)>, t: Seq<char>, u: Seq<char>)
    ensures
        count_of(bump(counts, t), u) == if u == t {
            if count_of(counts, t) < u32::MAX {
                count_of(counts, t) + 1
            } else {
                u32::MAX as nat
            }
        } else {
            count_of(counts, u)
        },
{
    lemma_entry_of(counts, t);
    lemma_entry_of(counts, u);
    let b = bump(counts, t);
    lemma_entry_of(b, u);
    match entry_of(counts, t) {
        Some(i) => {
            match entry_of(counts, u) {
                Some(k) => {
                    lemma_entry_first(b, u, k);
                },
                None => {
                    if u == t {
                    } else {
                        assert forall|j: int| 0 <= j < b.len() implies b[j].0 != u by {}
                        match entry_of(b, u) {
                            Some(k) => {},
                            None => {},
                        }
                    }
                },
            }
        },
        None => {
            match entry_of(counts, u) {
                Some(k) => {
                    assert(b[k] == counts[k]);
                    lemma_entry_first(b, u, k);
                },
                None => {
                    if u == t {
                        lemma_entry_first(b, u, counts.len() as int);
                    } else {
                        assert forall|j: int| 0 <= j < b.len() implies b[j].0 != u by {}
                        match entry_of(b, u) {
                            Some(k) => {},
                            None => {},
                        }
                    }
                },
            }
        },
    }
}

/// A task already abandoned is never announced again, and a task announced now
/// is abandoned from now on.
pub proof fn law_abandoned_once(counts: Seq<(Seq<char>, u32)>, abandoned: Seq<Seq<char>>, t: Seq<char>)
    ensures
        abandoned.contains(t) ==> !thrash_step(counts, abandoned, t).2,
        thrash_step(counts, abandoned, t).1.contains(t) || count_of(bump(counts, t), t) < 3,
        forall|u: Seq<char>|
            abandoned.contains(u) ==> #[trigger] thrash_step(counts, abandoned, t).1.contains(u),
{
    let r = thrash_step(counts, abandoned, t);
    if r.2 {
        assert(r.1[r.1.len() - 1] == t);
        assert forall|u: Seq<char>| abandoned.contains(u) implies #[trigger] r.1.contains(u) by {
            let k = choose|k: int| 0 <= k < abandoned.len() && abandoned[k] == u;
            assert(r.1[k] == u);
        }
    }
}

/// The blocks of a run: the counts, the abandoned tasks, and how many
/// `build.task.abandoned` announcements each step made, in order.
pub open spec fn thrash_run(
    counts: Seq<(Seq<char>, u32)>,
    abandoned: Seq<Seq<char>>,
    ts: Seq<Seq<char>>,
) -> (Seq<(Seq<char>, u32)>, Seq<Seq<char>>, Seq<Seq<char>>)
    decreases ts.len(),
{
    if ts.len() == 0 {
        (counts, abandoned, Seq::empty())
    } else {
        let prev = thrash_run(counts, abandoned, ts.drop_last());
        let step = thrash_step(prev.0, prev.1, ts.last());
        (step.0, step.1, if step.2 {
            prev.2.push(ts.last())
        } else {
            prev.2
        })
    }
}

/// The number of times `t` occurs in `ts`.
pub open spec fn occurrences(ts: Seq<Seq<char>>, t: Seq<char>) -> nat
    decreases ts.len(),
{
    if ts.len() == 0 {
        0
    } else {
        occurrences(ts.drop_last(), t) + if ts.last() == t {
            1nat
        } else {
            0nat
        }
    }
}

/// Starting from no blocks of `t`, a run of blocks announces the abandonment of
/// `t` exactly once if `t` is blocked at least three times, and never otherwise.
pub proof fn law_abandonment_exactly_once(
    counts: Seq<(Seq<char>, u32)>,
    abandoned: Seq<Seq<char>>,
    ts: Seq<Seq<char>>,
    t: Seq<char>,
)
    requires
        count_of(counts, t) == 0,
        !abandoned.contains(t),
        ts.len() < u32::MAX,
    ensures
        occurrences(thrash_run(counts, abandoned, ts).2, t) == if occurrences(ts, t) >= 3 {
            1nat
        } else {
            0nat
        },
    decreases ts.len(),
{
    lemma_run_counts(counts, abandoned, ts, t);
    if ts.len() > 0 {
        let p = ts.drop_last();
        law_abandonment_exactly_once(counts, abandoned, p, t);
        let prev = thrash_run(counts, abandoned, p);
        lemma_run_counts(counts, abandoned, p, t);
        lemma_bump(prev.0, ts.last(), t);
        let step = thrash_step(prev.0, prev.1, ts.last());
        let out = thrash_run(counts, abandoned, ts).2;
        if step.2 {
            assert(out == prev.2.push(ts.last()));
            assert(out.drop_last() =~= prev.2);
            if ts.last() == t {
                assert(count_of(step.0, t) >= 3);
                assert(!prev.1.contains(t));
                assert(occurrences(p, t) == 2);
            }
        } else {
            assert(out == prev.2);
            if ts.last() == t {
                assert(count_of(step.0, t) == occurrences(p, t) + 1);
                assert(occurrences(p, t) + 1 < 3 || prev.1.contains(t));
            }
        }
    }
}

/// Along a run that starts with no blocks of `t`, the count of `t` is its
/// number of occurrences, and `t` is abandoned exactly when it occurred three
/// times.
proof fn lemma_run_counts(
    counts: Seq<(Seq<char>, u32)>,
    abandoned: Seq<Seq<char>>,
    ts: Seq<Seq<char>>,
    t: Seq<char>,
)
    requires
        count_of(counts, t) == 0,
        !abandoned.contains(t),
        ts.len() < u32::MAX,
    ensures
        count_of(thrash_run(counts, abandoned, ts).0, t) == occurrences(ts, t),
        thrash_run(counts, abandoned, ts).1.contains(t) <==> occurrences(ts, t) >= 3,
        occurrences(ts, t) <= ts.len(),
    decreases ts.len(),
{
    if ts.len() > 0 {
        let p = ts.drop_last();
        lemma_run_counts(counts, abandoned, p, t);
        let prev = thrash_run(counts, abandoned, p);
        lemma_bump(prev.0, ts.last(), t);
        let step = thrash_step(prev.0, prev.1, ts.last());
        if ts.last() != t {
            if step.2 {
                assert(step.1 == prev.1.push(ts.last()));
                if step.1.contains(t) {
                    let k = choose|k: int| 0 <= k < step.1.len() && step.1[k] == t;
                    if k < prev.1.len() {
                        assert(prev.1[k] == t);
                    }
                }
                if prev.1.contains(t) {
                    let k = choose|k: int| 0 <= k < prev.1.len() && prev.1[k] == t;
                    assert(step.1[k] == t);
                }
            }
        } else {
            if step.2 {
                assert(step.1[step.1.len() - 1] == t);
            }
        }
    }
}

/// The position of the entry for `t` in `counts`.
pub fn find_entry(counts: &Vec<(String, u32)>, t: &str) -> (r: Option<usize>)
    ensures
        match r {
            Some(i) => i < counts@.len() && entry_of(
                counts@.map_values(|e: (String, u32)| (e.0@, e.1)),
                t@,
            ) == Some(i as int),
            None => entry_of(counts@.map_values(|e: (String, u32)| (e.0@, e.1)), t@) is None,
        },
{
    let ghost cv = counts@.map_values(|e: (String, u32)| (e.0@, e.1));
    proof {
        lemma_entry_of(cv, t@);
    }
    let mut i: usize = 0;
    while i < counts.len()
        invariant
            cv == counts@.map_values(|e: (String, u32)| (e.0@, e.1)),
            i <= counts@.len(),
            forall|j: int| 0 <= j < i ==> cv[j].0 != t@,
        decreases counts@.len() - i,
    {
        if str_eq(counts[i].0.as_str(), t) {
            proof {
                lemma_entry_first(cv, t@, i as int);
            }
            return Some(i);
        }
        i += 1;
    }
    proof {
        lemma_entry_of(cv, t@);
        match entry_of(cv, t@) {
            Some(k) => {
                assert(cv[k].0 == t@);
            },
            None => {},
        }
    }
    None
}

} // verus!
