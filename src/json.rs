//! JSON text of the records the loop publishes as event payloads.

use vstd::prelude::*;
use crate::tea::{TestStrategy, string_views, tier_name};
use crate::text::{decimal_digits, owned, push_str, u64_text};
use crate::triage::{RoutingMode, TriageDecision};

verus! {

/// A lowercase hexadecimal digit.
pub open spec fn hex_digit(d: u32) -> char {
    if d < 10 {
        (('0' as u32) + d) as char
    } else {
        (('a' as u32) + d - 10) as char
    }
}

/// How a JSON string literal writes `c`: quote and backslash escaped, the
/// control characters with short escapes as such, the other control
/// characters as `\u00XX`, everything else as itself.
pub open spec fn json_escape_char(c: char) -> Seq<char> {
    if c == '"' {
        seq!['\\', '"']
    } else if c == '\\' {
        seq!['\\', '\\']
    } else if c == '\u{8}' {
        seq!['\\', 'b']
    } else if c == '\u{c}' {
        seq!['\\', 'f']
    } else if c == '\n' {
        seq!['\\', 'n']
    } else if c == '\r' {
        seq!['\\', 'r']
    } else if c == '\t' {
        seq!['\\', 't']
    } else if (c as u32) < 0x20 {
        seq!['\\', 'u', '0', '0', hex_digit((c as u32) / 16), hex_digit((c as u32) % 16)]
    } else {
        seq![c]
    }
}

/// The escaped characters of `s`.
pub open spec fn json_escaped(s: Seq<char>) -> Seq<char>
    decreases s.len(),
{
    if s.len() == 0 {
        Seq::empty()
    } else {
        json_escaped(s.drop_last()) + json_escape_char(s.last())
    }
}

/// The JSON string literal for the text `s`.
pub open spec fn json_quoted(s: Seq<char>) -> Seq<char> {
    seq!['"'] + json_escaped(s) + seq!['"']
}

/// Relies on `serde_json::to_string` on a string: the JSON literal that
/// `json_quoted` states, as serde_json's escape table writes it.
#[verifier::external_body]
fn quote(s: &str) -> (r: String)
    ensures
        r@ == json_quoted(s@),
{
    serde_json::to_string(s).unwrap_or_default()
}

/// The JSON number of a value given in hundredths, as a float prints: at least
/// one fraction digit, no trailing zero after the first.
pub open spec fn hundredths_text(c: nat) -> Seq<char> {
    let f = c % 100;
    decimal_digits(c / 100) + "."@ + if f == 0 {
        "0"@
    } else if f % 10 == 0 {
        decimal_digits(f / 10)
    } else if f < 10 {
        "0"@ + decimal_digits(f)
    } else {
        decimal_digits(f)
    }
}

/// The value `c` given in hundredths, as `hundredths_text` states.
pub fn format_hundredths(c: u32) -> (r: String)
    ensures
        r@ == hundredths_text(c as nat),
{
    let f = c % 100;
    let mut out = u64_text((c / 100) as u64);
    push_str(&mut out, ".");
    if f == 0 {
        push_str(&mut out, "0");
    } else if f % 10 == 0 {
        push_str(&mut out, u64_text((f / 10) as u64).as_str());
    } else if f < 10 {
        push_str(&mut out, "0");
        push_str(&mut out, u64_text(f as u64).as_str());
    } else {
        push_str(&mut out, u64_text(f as u64).as_str());
    }
    assert(out@ =~= hundredths_text(c as nat));
    out
}

/// The name of a routing mode.
pub open spec fn mode_name(m: RoutingMode) -> Seq<char> {
    match m {
        RoutingMode::Simple => "Simple"@,
        RoutingMode::Full => "Full"@,
    }
}

/// The JSON object of a triage decision.
pub open spec fn triage_json(mode: RoutingMode, reason: Seq<char>, confidence: u32) -> Seq<char> {
    "{\"mode\":\""@ + mode_name(mode) + "\",\"reason\":"@ + json_quoted(reason)
        + ",\"confidence\":"@ + hundredths_text(confidence as nat) + "}"@
}

/// The JSON object of `d`, as `triage_json` states.
pub fn triage_to_json(d: &TriageDecision) -> (r: String)
    ensures
        r@ == triage_json(d.mode, d.reason@, d.confidence),
{
    let mut out = owned("{\"mode\":\"");
    push_str(
        &mut out,
        match d.mode {
            RoutingMode::Simple => "Simple",
            RoutingMode::Full => "Full",
        },
    );
    push_str(&mut out, "\",\"reason\":");
    push_str(&mut out, quote(d.reason.as_str()).as_str());
    push_str(&mut out, ",\"confidence\":");
    push_str(&mut out, format_hundredths(d.confidence).as_str());
    push_str(&mut out, "}");
    assert(out@ =~= triage_json(d.mode, d.reason@, d.confidence));
    out
}

/// The JSON array of the strings `items`.
pub open spec fn json_array(items: Seq<Seq<char>>) -> Seq<char> {
    "["@ + json_items(items) + "]"@
}

/// The JSON literals of `items`, separated by commas.
pub open spec fn json_items(items: Seq<Seq<char>>) -> Seq<char>
    decreases items.len(),
{
    if items.len() == 0 {
        Seq::empty()
    } else if items.len() == 1 {
        json_quoted(items[0])
    } else {
        json_items(items.drop_last()) + ","@ + json_quoted(items.last())
    }
}

fn array_to_json(items: &Vec<String>) -> (r: String)
    ensures
        r@ == json_array(string_views(items@)),
{
    let mut out = owned("[");
    let ghost iv = string_views(items@);
    let ghost start = out@;
    let mut k: usize = 0;
    assert(iv.take(0) =~= Seq::<Seq<char>>::empty());
    assert(out@ =~= start + json_items(iv.take(0)));
    while k < items.len()
        invariant
            k <= items@.len(),
            iv == string_views(items@),
            start == "["@,
            out@ == start + json_items(iv.take(k as int)),
        decreases items@.len() - k,
    {
        assert(iv.take(k + 1).drop_last() =~= iv.take(k as int));
        assert(iv.take(k + 1).last() == items@[k as int]@);
        if k > 0 {
            push_str(&mut out, ",");
        }
        push_str(&mut out, quote(items[k].as_str()).as_str());
        k += 1;
        assert(out@ =~= start + json_items(iv.take(k as int)));
    }
    assert(iv.take(k as int) =~= iv);
    push_str(&mut out, "]");
    assert(out@ =~= json_array(iv));
    out
}

/// The JSON object of a test strategy; the minimum coverage prints as a float.
pub open spec fn strategy_json(s: <TestStrategy as View>::V) -> Seq<char> {
    "{\"tier\":\""@ + tier_name(s.0) + "\",\"min_coverage\":"@ + decimal_digits(s.1 as nat)
        + ".0,\"mandatory_categories\":"@ + json_array(s.2) + ",\"hard_gates\":"@ + json_array(
        s.3,
    ) + ",\"reason\":"@ + json_quoted(s.4) + "}"@
}

/// The JSON object of `s`, as `strategy_json` states.
pub fn strategy_to_json(s: &TestStrategy) -> (r: String)
    ensures
        r@ == strategy_json(s@),
{
    let mut out = owned("{\"tier\":\"");
    push_str(&mut out, s.tier.name());
    push_str(&mut out, "\",\"min_coverage\":");
    push_str(&mut out, u64_text(s.min_coverage as u64).as_str());
    push_str(&mut out, ".0,\"mandatory_categories\":");
    push_str(&mut out, array_to_json(&s.mandatory_categories).as_str());
    push_str(&mut out, ",\"hard_gates\":");
    push_str(&mut out, array_to_json(&s.hard_gates).as_str());
    push_str(&mut out, ",\"reason\":");
    push_str(&mut out, quote(s.reason.as_str()).as_str());
    push_str(&mut out, "}");
    assert(out@ =~= strategy_json(s@));
    out
}

} // verus!
