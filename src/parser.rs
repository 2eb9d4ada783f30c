//! Inline `<event topic="..." target="...">payload</event>` tags in agent
//! output, completion detection, and the parser's entry points for evidence.

use vstd::prelude::*;
use crate::ansi::{strip_ansi, strip_ansi_chars};
use crate::event::Event;
use crate::evidence::{
    BackpressureEvidence, QualityReport, ReviewEvidence, backpressure_evidence, backpressure_of,
    lower_of, lowercase_chars, quality_of, quality_report, review_evidence, review_of,
};
use crate::hat::HatId;
use crate::text::{
    chars_of, contains, contains_exec, copy_range, extend_chars, find_pos, find_pos_exec,
    lemma_find_pos, lines, lines_of, occurs_at, same_chars, string_of, trim, trim_chars,
};

verus! {

/// The value of the attribute `attr` in the opening tag `tag`: the text after
/// the first `attr="` up to the next `"`.
pub open spec fn attr_of(tag: Seq<char>, attr: Seq<char>) -> Option<Seq<char>> {
    let pat = attr + "=\""@;
    match find_pos(tag, pat, 0) {
        Some(st) => {
            let vs = st + pat.len();
            match find_pos(tag, "\""@, vs) {
                Some(e) => Some(tag.subrange(vs, e)),
                None => None,
            }
        },
        None => None,
    }
}

/// `s` from `i` on, with every `<event ...>...</event>` block removed; an
/// opening without a closing tag keeps the rest.
pub open spec fn strip_tags_from(s: Seq<char>, i: int) -> Seq<char>
    decreases s.len() + 1 - i,
{
    if i < 0 || i > s.len() {
        Seq::empty()
    } else {
        match find_pos(s, "<event "@, i) {
            None => s.subrange(i, s.len() as int),
            Some(st) => {
                proof {
                    reveal_strlit("<event ");
                    lemma_find_pos(s, "<event "@, i);
                }
                match find_pos(s, "</event>"@, st) {
                    Some(ce) => {
                        proof {
                            reveal_strlit("</event>");
                            lemma_find_pos(s, "</event>"@, st);
                        }
                        s.subrange(i, st) + strip_tags_from(s, ce + 8)
                    },
                    None => s.subrange(i, s.len() as int),
                }
            },
        }
    }
}

/// `s` with every `<event ...>...</event>` block removed.
pub open spec fn strip_tags(s: Seq<char>) -> Seq<char> {
    strip_tags_from(s, 0)
}

/// Whether, from `i` on, the payload of some complete event tag holds `p`.
pub open spec fn promise_in_tags_from(s: Seq<char>, p: Seq<char>, i: int) -> bool
    decreases s.len() + 1 - i,
{
    if i < 0 || i > s.len() {
        false
    } else {
        match find_pos(s, "<event "@, i) {
            None => false,
            Some(st) => {
                proof {
                    reveal_strlit("<event ");
                    lemma_find_pos(s, "<event "@, i);
                }
                match find_pos(s, ">"@, st) {
                    None => promise_in_tags_from(s, p, st + 7),
                    Some(te) => {
                        proof {
                            reveal_strlit(">");
                            lemma_find_pos(s, ">"@, st);
                        }
                        match find_pos(s, "</event>"@, te + 1) {
                            None => promise_in_tags_from(s, p, te + 1),
                            Some(ce) => {
                                proof {
                                    reveal_strlit("</event>");
                                    lemma_find_pos(s, "</event>"@, te + 1);
                                }
                                contains(s.subrange(te + 1, ce), p) || promise_in_tags_from(
                                    s,
                                    p,
                                    ce + 8,
                                )
                            },
                        }
                    },
                }
            },
        }
    }
}

/// The events tagged in `s` from `i` on: topic, target and trimmed payload.
pub open spec fn tags_from(s: Seq<char>, i: int) -> Seq<
    (Seq<char>, Option<Seq<char>>, Seq<char>),
>
    decreases s.len() + 1 - i,
{
    if i < 0 || i > s.len() {
        Seq::empty()
    } else {
        match find_pos(s, "<event "@, i) {
            None => Seq::empty(),
            Some(st) => {
                proof {
                    reveal_strlit("<event ");
                    lemma_find_pos(s, "<event "@, i);
                }
                match find_pos(s, ">"@, st) {
                    None => tags_from(s, st + 7),
                    Some(te) => {
                        proof {
                            reveal_strlit(">");
                            lemma_find_pos(s, ">"@, st);
                        }
                        let opening = s.subrange(st, te + 1);
                        match attr_of(opening, "topic"@) {
                            None => tags_from(s, te + 1),
                            Some(topic) => match find_pos(s, "</event>"@, te + 1) {
                                None => tags_from(s, te + 1),
                                Some(ce) => {
                                    proof {
                                        reveal_strlit("</event>");
                                        lemma_find_pos(s, "</event>"@, te + 1);
                                    }
                                    seq![
                                        (
                                            topic,
                                            attr_of(opening, "target"@),
                                            trim(s.subrange(te + 1, ce)),
                                        ),
                                    ] + tags_from(s, ce + 8)
                                },
                            },
                        }
                    },
                }
            },
        }
    }
}

/// The topic, target and payload of `e`.
pub open spec fn tag_of(e: Event) -> (Seq<char>, Option<Seq<char>>, Seq<char>) {
    (e.topic@, e.target_view(), e.payload@)
}

/// The last line of `ls` that is not blank, trimmed.
pub open spec fn last_nonblank(ls: Seq<Seq<char>>) -> Option<Seq<char>>
    decreases ls.len(),
{
    if ls.len() == 0 {
        None
    } else if trim(ls.last()).len() > 0 {
        Some(trim(ls.last()))
    } else {
        last_nonblank(ls.drop_last())
    }
}

/// Whether `output` completes with `promise`: the trimmed promise is not empty,
/// appears in no event tag payload, and is the last non-blank line of the
/// output once event tags are removed.
pub open spec fn completes(output: Seq<char>, promise: Seq<char>) -> bool {
    let p = trim(promise);
    p.len() > 0 && !promise_in_tags_from(output, p, 0) && last_nonblank(lines(strip_tags(output)))
        == Some(p)
}

/// The phrases that signal that the agent needs a human.
pub open spec fn ambiguity_phrases() -> Seq<Seq<char>> {
    seq![
        "need clarification"@, "i am unsure"@, "i'm unsure"@, "i am uncertain"@,
        "i'm uncertain"@, "please provide guidance"@, "waiting for human command"@,
        "ambiguity detected"@, "stuck on technical blocker"@,
    ]
}

/// Whether `output`, stripped of escape sequences, lowercased and stripped of
/// event tags, holds an ambiguity phrase.
pub open spec fn asks_for_help(output: Seq<char>) -> bool {
    let t = strip_tags(lower_of(strip_ansi(output)));
    exists|i: int| 0 <= i < ambiguity_phrases().len() && contains(t, #[trigger] ambiguity_phrases()[i])
}

/// Parser of agent output; the events it reads carry its source hat, if any.
#[derive(Debug)]
pub struct EventParser {
    source: Option<HatId>,
}

impl EventParser {
    /// The source hat attached to parsed events.
    pub closed spec fn source_view(&self) -> Option<Seq<char>> {
        match self.source {
            Some(h) => Some(h@),
            None => None,
        }
    }

    /// A parser without a source hat.
    pub fn new() -> (r: EventParser)
        ensures
            r.source_view() is None,
    {
        EventParser { source: None }
    }

    /// This parser with the given source hat.
    pub fn with_source(self, source: &str) -> (r: EventParser)
        ensures
            r.source_view() == Some(source@),
    {
        EventParser { source: Some(HatId::new(source)) }
    }

    /// The events tagged in `output`, in order, as `tags_from` states; each
    /// carries this parser's source hat.
    pub fn parse(&self, output: &str) -> (r: Vec<Event>)
        ensures
            r@.map_values(|e: Event| tag_of(e)) == tags_from(output@, 0),
            forall|k: int| 0 <= k < r@.len() ==> (#[trigger] r@[k]).source_view() == self.source_view(),
    {
        let sv = chars_of(output);
        let s = sv.as_slice();
        let open = chars_of("<event ");
        let gt = chars_of(">");
        let close = chars_of("</event>");
        let n = s.len();
        let mut r: Vec<Event> = Vec::new();
        let mut i: usize = 0;
        while i <= n
            invariant
                n == s@.len(),
                s@ == output@,
                open@ == "<event "@,
                gt@ == ">"@,
                close@ == "</event>"@,
                i <= n + 8,
                r@.map_values(|e: Event| tag_of(e)) + tags_from(s@, i as int) == tags_from(s@, 0),
                forall|k: int| 0 <= k < r@.len() ==> (#[trigger] r@[k]).source_view() == self.source_view(),
            decreases n + 1 - i,
        {
            match find_pos_exec(s, open.as_slice(), i) {
                None => {
                    assert(r@.map_values(|e: Event| tag_of(e)) + tags_from(s@, i as int) =~= r@.map_values(|e: Event| tag_of(e)));
                    return r;
                },
                Some(st) => {
                    proof {
                        reveal_strlit("<event ");
                        lemma_find_pos(s@, "<event "@, i as int);
                        assert(occurs_at(s@, "<event "@, st as int));
                        assert(i <= st && st + 7 <= n);
                    }
                    match find_pos_exec(s, gt.as_slice(), st) {
                        None => {
                            i = st + 7;
                        },
                        Some(te) => {
                            proof {
                                reveal_strlit(">");
                                lemma_find_pos(s@, ">"@, st as int);
                                assert(occurs_at(s@, ">"@, te as int));
                                assert(st <= te && te + 1 <= n);
                            }
                            let opening = copy_range(s, st, te + 1);
                            match attr_value(opening.as_slice(), "topic") {
                                None => {
                                    i = te + 1;
                                },
                                Some(topic) => {
                                    match find_pos_exec(s, close.as_slice(), te + 1) {
                                        None => {
                                            i = te + 1;
                                        },
                                        Some(ce) => {
                                            proof {
                                                reveal_strlit("</event>");
                                                lemma_find_pos(s@, "</event>"@, te + 1);
                                                assert(occurs_at(s@, "</event>"@, ce as int));
                                                assert(te + 1 <= ce && ce + 8 <= n);
                                            }
                                            let payload = trim_chars(copy_range(s, te + 1, ce).as_slice());
                                            let mut e = Event::new(
                                                string_of(topic.as_slice()).as_str(),
                                                string_of(payload.as_slice()).as_str(),
                                            );
                                            match &self.source {
                                                Some(h) => {
                                                    e.source = Some(h.clone());
                                                },
                                                None => {},
                                            }
                                            match attr_value(opening.as_slice(), "target") {
                                                Some(t) => {
                                                    e.target = Some(HatId::new(string_of(t.as_slice()).as_str()));
                                                },
                                                None => {},
                                            }
                                            let ghost prev = r@;
                                            r.push(e);
                                            proof {
                                                let tg = tags_from(s@, i as int);
                                                assert(tg == seq![tag_of(e)] + tags_from(s@, ce + 8));
                                                assert(r@.map_values(|x: Event| tag_of(x)) =~= prev.map_values(|x: Event| tag_of(x)).push(tag_of(e)));
                                                assert(r@.map_values(|x: Event| tag_of(x)) + tags_from(s@, ce + 8) =~= prev.map_values(|x: Event| tag_of(x)) + tg);
                                            }
                                            i = ce + 8;
                                        },
                                    }
                                },
                            }
                        },
                    }
                },
            }
        }
        r
    }

    /// The value of `attr` in the opening tag `tag`, as `attr_of` states.
    pub fn extract_attr(tag: &str, attr: &str) -> (r: Option<String>)
        ensures
            match r {
                Some(v) => attr_of(tag@, attr@) == Some(v@),
                None => attr_of(tag@, attr@) is None,
            },
    {
        let t = chars_of(tag);
        match attr_value(t.as_slice(), attr) {
            Some(v) => Some(string_of(v.as_slice())),
            None => None,
        }
    }

    /// `output` with every event block removed, as `strip_tags` states.
    pub fn strip_event_tags(output: &str) -> (r: String)
        ensures
            r@ == strip_tags(output@),
    {
        let s = chars_of(output);
        let v = strip_tags_chars(s.as_slice());
        string_of(v.as_slice())
    }

    /// Whether `promise` occurs in the payload of an event tag of `output`.
    pub fn promise_in_event_tags(output: &str, promise: &str) -> (r: bool)
        ensures
            r == promise_in_tags_from(output@, promise@, 0),
    {
        let s = chars_of(output);
        let p = chars_of(promise);
        promise_in_tags_chars(s.as_slice(), p.as_slice())
    }

    /// Whether `output` completes with `promise`, as `completes` states.
    pub fn contains_promise(output: &str, promise: &str) -> (r: bool)
        ensures
            r == completes(output@, promise@),
    {
        let p = trim_chars(chars_of(promise).as_slice());
        if p.len() == 0 {
            return false;
        }
        let s = chars_of(output);
        if promise_in_tags_chars(s.as_slice(), p.as_slice()) {
            return false;
        }
        let stripped = strip_tags_chars(s.as_slice());
        let ls = lines_of(stripped.as_slice());
        let ghost lv = lines(stripped@);
        let mut k = ls.len();
        assert(lv.take(k as int) =~= lv);
        while k > 0
            invariant
                k <= ls@.len(),
                ls@.len() == lv.len(),
                forall|j: int| 0 <= j < ls@.len() ==> #[trigger] ls@[j]@ == lv[j],
                last_nonblank(lv) == last_nonblank(lv.take(k as int)),
                lv == lines(strip_tags(output@)),
                p@ == trim(promise@),
                p@.len() > 0,
                !promise_in_tags_from(output@, p@, 0),
            decreases k,
        {
            let line = trim_chars(ls[k - 1].as_slice());
            assert(lv.take(k as int).last() == lv[k - 1]);
            assert(lv.take(k as int).drop_last() =~= lv.take(k - 1));
            if line.len() > 0 {
                assert(line@ == trim(lv[k - 1]));
                assert(last_nonblank(lv) == Some(line@));
                return same_chars(line.as_slice(), p.as_slice());
            }
            k -= 1;
        }
        false
    }

    /// Whether `output` signals that the agent needs a human, as `asks_for_help` states.
    pub fn parse_ambiguity_request(output: &str) -> (r: bool)
        ensures
            r == asks_for_help(output@),
    {
        let clean = strip_ansi_chars(chars_of(output).as_slice());
        let low = lowercase_chars(clean.as_slice());
        let t = strip_tags_chars(low.as_slice());
        let phrases: Vec<&str> = vec![
            "need clarification", "i am unsure", "i'm unsure", "i am uncertain",
            "i'm uncertain", "please provide guidance", "waiting for human command",
            "ambiguity detected", "stuck on technical blocker",
        ];
        let mut i: usize = 0;
        while i < phrases.len()
            invariant
                i <= phrases@.len(),
                phrases@.len() == ambiguity_phrases().len(),
                forall|j: int| 0 <= j < phrases@.len() ==> (#[trigger] phrases@[j])@ == ambiguity_phrases()[j],
                forall|j: int| 0 <= j < i ==> !contains(t@, #[trigger] ambiguity_phrases()[j]),
                t@ == strip_tags(lower_of(strip_ansi(output@))),
            decreases phrases@.len() - i,
        {
            if contains_exec(t.as_slice(), chars_of(phrases[i]).as_slice()) {
                assert(0 <= i < ambiguity_phrases().len());
                assert(contains(t@, ambiguity_phrases()[i as int]));
                assert(t@ == strip_tags(lower_of(strip_ansi(output@))));
                return true;
            }
            i += 1;
        }
        false
    }

    /// Backpressure evidence of a `build.done` payload.
    pub fn parse_backpressure_evidence(payload: &str) -> (r: Option<BackpressureEvidence>)
        ensures
            r == backpressure_of(payload@),
    {
        backpressure_evidence(payload)
    }

    /// Review evidence of a `review.done` payload.
    pub fn parse_review_evidence(payload: &str) -> (r: Option<ReviewEvidence>)
        ensures
            r == review_of(payload@),
    {
        review_evidence(payload)
    }

    /// The quality report of a `verify.*` payload.
    pub fn parse_quality_report(payload: &str) -> (r: Option<QualityReport>)
        ensures
            r == quality_of(payload@),
    {
        quality_report(payload)
    }
}

/// The value of `attr` in the opening tag `t`.
fn attr_value(t: &[char], attr: &str) -> (r: Option<Vec<char>>)
    ensures
        match r {
            Some(v) => attr_of(t@, attr@) == Some(v@),
            None => attr_of(t@, attr@) is None,
        },
{
    let tl = t.len();
    let mut pat = chars_of(attr);
    extend_chars(&mut pat, chars_of("=\"").as_slice());
    match find_pos_exec(t, pat.as_slice(), 0) {
        Some(st) => {
            proof {
                lemma_find_pos(t@, pat@, 0);
                assert(occurs_at(t@, pat@, st as int));
            }
            let vs = st + pat.len();
            match find_pos_exec(t, chars_of("\"").as_slice(), vs) {
                Some(e) => {
                    proof {
                        lemma_find_pos(t@, "\""@, vs as int);
                    }
                    Some(copy_range(t, vs, e))
                },
                None => None,
            }
        },
        None => None,
    }
}

/// `s` with every event block removed, as `strip_tags` states.
fn strip_tags_chars(s: &[char]) -> (r: Vec<char>)
    ensures
        r@ == strip_tags(s@),
{
    let open = chars_of("<event ");
    let close = chars_of("</event>");
    let n = s.len();
    let mut out: Vec<char> = Vec::new();
    let mut i: usize = 0;
    while i <= n
        invariant
            n == s@.len(),
            open@ == "<event "@,
            close@ == "</event>"@,
            i <= n + 8,
            strip_tags(s@) == out@ + strip_tags_from(s@, i as int),
        decreases n + 1 - i,
    {
        match find_pos_exec(s, open.as_slice(), i) {
            None => {
                extend_chars(&mut out, copy_range(s, i, n).as_slice());
                return out;
            },
            Some(st) => {
                proof {
                    reveal_strlit("<event ");
                    lemma_find_pos(s@, "<event "@, i as int);
                    assert(occurs_at(s@, "<event "@, st as int));
                    assert(i <= st && st + 7 <= n);
                }
                match find_pos_exec(s, close.as_slice(), st) {
                    Some(ce) => {
                        proof {
                            reveal_strlit("</event>");
                            lemma_find_pos(s@, "</event>"@, st as int);
                            assert(occurs_at(s@, "</event>"@, ce as int));
                            assert(st <= ce && ce + 8 <= n);
                        }
                        extend_chars(&mut out, copy_range(s, i, st).as_slice());
                        i = ce + 8;
                    },
                    None => {
                        extend_chars(&mut out, copy_range(s, i, n).as_slice());
                        return out;
                    },
                }
            },
        }
    }
    out
}

/// Whether `p` occurs in the payload of an event tag of `s`.
fn promise_in_tags_chars(s: &[char], p: &[char]) -> (r: bool)
    ensures
        r == promise_in_tags_from(s@, p@, 0),
{
    let open = chars_of("<event ");
    let gt = chars_of(">");
    let close = chars_of("</event>");
    let n = s.len();
    let mut i: usize = 0;
    while i <= n
        invariant
            n == s@.len(),
            open@ == "<event "@,
            gt@ == ">"@,
            close@ == "</event>"@,
            i <= n + 8,
            promise_in_tags_from(s@, p@, 0) == promise_in_tags_from(s@, p@, i as int),
        decreases n + 1 - i,
    {
        match find_pos_exec(s, open.as_slice(), i) {
            None => {
                return false;
            },
            Some(st) => {
                proof {
                    reveal_strlit("<event ");
                    lemma_find_pos(s@, "<event "@, i as int);
                    assert(occurs_at(s@, "<event "@, st as int));
                    assert(i <= st && st + 7 <= n);
                }
                match find_pos_exec(s, gt.as_slice(), st) {
                    None => {
                        i = st + 7;
                    },
                    Some(te) => {
                        proof {
                            reveal_strlit(">");
                            lemma_find_pos(s@, ">"@, st as int);
                            assert(occurs_at(s@, ">"@, te as int));
                            assert(st <= te && te + 1 <= n);
                        }
                        match find_pos_exec(s, close.as_slice(), te + 1) {
                            None => {
                                i = te + 1;
                            },
                            Some(ce) => {
                                proof {
                                    reveal_strlit("</event>");
                                    lemma_find_pos(s@, "</event>"@, te + 1);
                                    assert(occurs_at(s@, "</event>"@, ce as int));
                                    assert(te + 1 <= ce && ce + 8 <= n);
                                }
                                let payload = copy_range(s, te + 1, ce);
                                if contains_exec(payload.as_slice(), p) {
                                    return true;
                                }
                                i = ce + 8;
                            },
                        }
                    },
                }
            },
        }
    }
    false
}

} // verus!
