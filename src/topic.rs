//! Routing keys and subscription patterns.

use vstd::prelude::*;
use crate::text::{chars_of, has_prefix, starts_with_exec, same_chars, string_of};

verus! {

/// Whether `p` is the global wildcard `*`.
pub open spec fn is_wildcard(p: Seq<char>) -> bool {
    p == seq!['*']
}

/// Whether `p` has the shape `P.*`, which matches every topic that begins with `P.`.
pub open spec fn is_prefix_pattern(p: Seq<char>) -> bool {
    p.len() >= 2 && p.last() == '*' && p[p.len() - 2] == '.'
}

/// Whether the subscription pattern `pattern` matches `topic`: the pattern is the
/// global wildcard, equals the topic, or is `P.*` and the topic begins with `P.`.
pub open spec fn pattern_matches(pattern: Seq<char>, topic: Seq<char>) -> bool {
    is_wildcard(pattern) || pattern == topic || (is_prefix_pattern(pattern) && has_prefix(
        topic,
        pattern.drop_last(),
    ))
}

/// A dotted routing key, or a subscription pattern over such keys.
#[derive(Debug)]
pub struct Topic {
    name: String,
}

impl View for Topic {
    type V = Seq<char>;

    closed spec fn view(&self) -> Seq<char> {
        self.name@
    }
}

impl Clone for Topic {
    fn clone(&self) -> (r: Topic)
        ensures
            r == *self,
    {
        Topic { name: self.name.clone() }
    }
}

impl Topic {
    /// A topic with the given name.
    pub fn new(name: &str) -> (r: Topic)
        ensures
            r@ == name@,
    {
        let v = chars_of(name);
        Topic { name: string_of(v.as_slice()) }
    }

    /// The name of the topic.
    pub fn as_str(&self) -> (r: &str)
        ensures
            r@ == self@,
    {
        self.name.as_str()
    }

    /// The name of the topic as an owned string.
    pub fn to_text(&self) -> (r: String)
        ensures
            r@ == self@,
    {
        let v = chars_of(self.name.as_str());
        string_of(v.as_slice())
    }

    /// Whether this is the global wildcard `*`.
    pub fn is_global_wildcard(&self) -> (r: bool)
        ensures
            r == is_wildcard(self@),
    {
        let v = chars_of(self.name.as_str());
        let r = v.len() == 1 && v[0] == '*';
        assert(r ==> v@ =~= seq!['*']);
        r
    }

    /// Whether this pattern matches the topic named `topic`.
    pub fn matches_str(&self, topic: &str) -> (r: bool)
        ensures
            r == pattern_matches(self@, topic@),
    {
        let p = chars_of(self.name.as_str());
        let t = chars_of(topic);
        if p.len() == 1 && p[0] == '*' {
            assert(p@ =~= seq!['*']);
            return true;
        }
        assert(!is_wildcard(p@));
        if same_chars(p.as_slice(), t.as_slice()) {
            return true;
        }
        let n = p.len();
        if n >= 2 && p[n - 1] == '*' && p[n - 2] == '.' {
            let head = crate::text::copy_range(p.as_slice(), 0, n - 1);
            assert(head@ =~= p@.drop_last());
            starts_with_exec(t.as_slice(), head.as_slice())
        } else {
            false
        }
    }

    /// Whether this pattern matches `topic`.
    pub fn matches(&self, topic: &Topic) -> (r: bool)
        ensures
            r == pattern_matches(self@, topic@),
    {
        self.matches_str(topic.as_str())
    }
}

} // verus!
