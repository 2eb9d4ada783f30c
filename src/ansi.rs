//! Removal of terminal escape sequences from agent output.

use vstd::prelude::*;

verus! {

/// The escape character that opens every terminal control sequence.
pub open spec fn esc() -> char {
    '\u{1b}'
}

/// Whether `c` ends a CSI sequence (a byte in `0x40..=0x7E`).
pub open spec fn is_csi_final(c: char) -> bool {
    '\u{40}' <= c && c <= '\u{7e}'
}

/// The index just past the CSI sequence whose parameters start at `i`.
pub open spec fn csi_end(s: Seq<char>, i: int) -> int
    decreases s.len() - i,
{
    if i >= s.len() {
        s.len() as int
    } else if is_csi_final(s[i]) {
        i + 1
    } else {
        csi_end(s, i + 1)
    }
}

/// The index just past the OSC sequence whose text starts at `i`: it ends at BEL
/// or at `ESC \`.
pub open spec fn osc_end(s: Seq<char>, i: int) -> int
    decreases s.len() - i,
{
    if i >= s.len() {
        s.len() as int
    } else if s[i] == '\u{7}' {
        i + 1
    } else if s[i] == esc() && i + 1 < s.len() && s[i + 1] == '\\' {
        i + 2
    } else {
        osc_end(s, i + 1)
    }
}

/// The number of bytes that UTF-8 needs for `c`.
pub open spec fn utf8_width(c: char) -> nat {
    if (c as u32) < 0x80 {
        1
    } else if (c as u32) < 0x800 {
        2
    } else if (c as u32) < 0x10000 {
        3
    } else {
        4
    }
}

/// What remains of the character `c` after `ESC c` is dropped byte-wise: its
/// UTF-8 continuation bytes, each read back as one replacement character.
pub open spec fn escape_remnant(c: char) -> Seq<char> {
    Seq::new((utf8_width(c) - 1) as nat, |k: int| '\u{fffd}')
}

/// `s` with its CSI (`ESC [ ... final`), OSC (`ESC ] ... BEL` or `ESC ] ... ESC \`)
/// and two-character (`ESC c`) escape sequences removed.
pub open spec fn strip_ansi(s: Seq<char>) -> Seq<char>
    decreases s.len(),
{
    if s.len() == 0 {
        Seq::empty()
    } else if s[0] != esc() {
        seq![s[0]] + strip_ansi(s.drop_first())
    } else if s.len() == 1 {
        Seq::empty()
    } else if s[1] == '[' {
        let e = csi_end(s, 2);
        if 2 <= e <= s.len() {
            strip_ansi(s.subrange(e, s.len() as int))
        } else {
            Seq::empty()
        }
    } else if s[1] == ']' {
        let e = osc_end(s, 2);
        if 2 <= e <= s.len() {
            strip_ansi(s.subrange(e, s.len() as int))
        } else {
            Seq::empty()
        }
    } else {
        escape_remnant(s[1]) + strip_ansi(s.subrange(2, s.len() as int))
    }
}

proof fn lemma_csi_end_bounds(s: Seq<char>, i: int)
    requires
        0 <= i,
    ensures
        i <= csi_end(s, i) <= s.len() || (i > s.len() && csi_end(s, i) == s.len()),
        i <= s.len() ==> i <= csi_end(s, i) <= s.len(),
    decreases s.len() - i,
{
    if i < s.len() && !is_csi_final(s[i]) {
        lemma_csi_end_bounds(s, i + 1);
    }
}

proof fn lemma_osc_end_bounds(s: Seq<char>, i: int)
    requires
        0 <= i,
    ensures
        i <= s.len() ==> i <= osc_end(s, i) <= s.len(),
    decreases s.len() - i,
{
    if i < s.len() && s[i] != '\u{7}' && !(s[i] == esc() && i + 1 < s.len() && s[i + 1] == '\\') {
        lemma_osc_end_bounds(s, i + 1);
    }
}

/// Whether `s` holds no escape character.
pub open spec fn escape_free(s: Seq<char>) -> bool {
    forall|i: int| 0 <= i < s.len() ==> s[i] != esc()
}

/// What `strip_ansi` returns holds no escape character.
pub proof fn lemma_strip_ansi_escape_free(s: Seq<char>)
    ensures
        escape_free(strip_ansi(s)),
    decreases s.len(),
{
    if s.len() == 0 {
    } else if s[0] != esc() {
        lemma_strip_ansi_escape_free(s.drop_first());
        let r = strip_ansi(s);
        assert(r == seq![s[0]] + strip_ansi(s.drop_first()));
        assert forall|i: int| 0 <= i < r.len() implies r[i] != esc() by {
            if i > 0 {
                assert(r[i] == strip_ansi(s.drop_first())[i - 1]);
            }
        }
    } else if s.len() == 1 {
    } else if s[1] == '[' {
        lemma_csi_end_bounds(s, 2);
        let e = csi_end(s, 2);
        if 2 <= e <= s.len() {
            lemma_strip_ansi_escape_free(s.subrange(e, s.len() as int));
        }
    } else if s[1] == ']' {
        lemma_osc_end_bounds(s, 2);
        let e = osc_end(s, 2);
        if 2 <= e <= s.len() {
            lemma_strip_ansi_escape_free(s.subrange(e, s.len() as int));
        }
    } else {
        lemma_strip_ansi_escape_free(s.subrange(2, s.len() as int));
        let r = strip_ansi(s);
        let m = escape_remnant(s[1]);
        assert(r == m + strip_ansi(s.subrange(2, s.len() as int)));
        assert forall|i: int| 0 <= i < r.len() implies r[i] != esc() by {
            if i >= m.len() {
                assert(r[i] == strip_ansi(s.subrange(2, s.len() as int))[i - m.len()]);
            }
        }
    }
}

/// Text without escape characters passes through `strip_ansi` unchanged.
pub proof fn lemma_strip_ansi_identity(s: Seq<char>)
    requires
        escape_free(s),
    ensures
        strip_ansi(s) == s,
    decreases s.len(),
{
    if s.len() > 0 {
        assert(s[0] != esc());
        lemma_strip_ansi_identity(s.drop_first());
        assert(seq![s[0]] + s.drop_first() =~= s);
    }
}

/// Stripping escape sequences twice gives what stripping once gives.
pub proof fn lemma_strip_ansi_idempotent(s: Seq<char>)
    ensures
        strip_ansi(strip_ansi(s)) == strip_ansi(s),
{
    lemma_strip_ansi_escape_free(s);
    lemma_strip_ansi_identity(strip_ansi(s));
}

/// The number of replacement characters that `escape_remnant(c)` holds.
fn remnant_len(c: char) -> (r: usize)
    ensures
        r == utf8_width(c) - 1,
{
    let v = c as u32;
    if v < 0x80 {
        0
    } else if v < 0x800 {
        1
    } else if v < 0x10000 {
        2
    } else {
        3
    }
}

/// `s` with its terminal escape sequences removed, as `strip_ansi` states.
pub fn strip_ansi_chars(s: &[char]) -> (r: Vec<char>)
    ensures
        r@ == strip_ansi(s@),
{
    let n = s.len();
    let mut out: Vec<char> = Vec::new();
    let mut i: usize = 0;
    assert(s@.subrange(0, n as int) =~= s@);
    while i < n
        invariant
            n == s@.len(),
            i <= n,
            strip_ansi(s@) == out@ + strip_ansi(s@.subrange(i as int, n as int)),
        decreases n - i,
    {
        let ghost t = s@.subrange(i as int, n as int);
        let ghost before = out@;
        if s[i] != '\u{1b}' {
            assert(t.drop_first() =~= s@.subrange(i + 1, n as int));
            out.push(s[i]);
            assert(out@ + strip_ansi(s@.subrange(i + 1, n as int)) =~= before + (seq![t[0]]
                + strip_ansi(t.drop_first())));
            i += 1;
        } else if i + 1 == n {
            assert(out@ + strip_ansi(s@.subrange(n as int, n as int)) =~= before);
            i = n;
        } else if s[i + 1] == '[' {
            let mut j = i + 2;
            while j < n && !('\u{40}' <= s[j] && s[j] <= '\u{7e}')
                invariant
                    n == s@.len(),
                    i + 2 <= j <= n,
                    t == s@.subrange(i as int, n as int),
                    csi_end(t, 2) == csi_end(t, j - i),
                decreases n - j,
            {
                assert(t[j - i] == s@[j as int]);
                j += 1;
            }
            if j < n {
                assert(t[j - i] == s@[j as int]);
                j += 1;
            }
            assert(csi_end(t, 2) == j - i);
            assert(t.subrange(j - i, t.len() as int) =~= s@.subrange(j as int, n as int));
            i = j;
        } else if s[i + 1] == ']' {
            let mut j = i + 2;
            let mut done = false;
            while j < n && !done
                invariant
                    n == s@.len(),
                    i + 2 <= j <= n,
                    t == s@.subrange(i as int, n as int),
                    !done ==> osc_end(t, 2) == osc_end(t, j - i),
                    done ==> osc_end(t, 2) == j - i,
                decreases n - j,
            {
                assert(t[j - i] == s@[j as int]);
                if s[j] == '\u{7}' {
                    j += 1;
                    done = true;
                } else if s[j] == '\u{1b}' && j + 1 < n && s[j + 1] == '\\' {
                    assert(t[j - i + 1] == s@[j + 1]);
                    j += 2;
                    done = true;
                } else {
                    j += 1;
                }
            }
            assert(osc_end(t, 2) == j - i);
            assert(t.subrange(j - i, t.len() as int) =~= s@.subrange(j as int, n as int));
            i = j;
        } else {
            let c = s[i + 1];
            let k = remnant_len(c);
            let mut m: usize = 0;
            while m < k
                invariant
                    k == utf8_width(c) - 1,
                    m <= k,
                    out@ == before + Seq::new(m as nat, |q: int| '\u{fffd}'),
                decreases k - m,
            {
                out.push('\u{fffd}');
                m += 1;
                assert(out@ =~= before + Seq::new(m as nat, |q: int| '\u{fffd}'));
            }
            assert(escape_remnant(t[1]) =~= Seq::new(k as nat, |q: int| '\u{fffd}'));
            assert(t.subrange(2, t.len() as int) =~= s@.subrange(i + 2, n as int));
            assert(out@ + strip_ansi(s@.subrange(i + 2, n as int)) =~= before + (escape_remnant(
                t[1],
            ) + strip_ansi(t.subrange(2, t.len() as int))));
            i = i + 2;
        }
    }
    assert(out@ + strip_ansi(s@.subrange(n as int, n as int)) =~= out@);
    out
}

} // verus!
