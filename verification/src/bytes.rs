//! The bytes that carry meaning in the markup and in the emitted escape
//! sequences, and a few operations on byte strings.

use vstd::prelude::*;

verus! {

/// `ESC`, the first byte of every escape sequence.
pub const ESC: u8 = 0x1b;

/// `[`, the second byte of every escape sequence.
pub const BRACKET: u8 = 0x5b;

/// `m`, the last byte of every escape sequence.
pub const FINAL_M: u8 = 0x6d;

/// `;`, which separates the codes within an escape sequence.
pub const SEMICOLON: u8 = 0x3b;

/// `0`, the first ASCII digit.
pub const DIGIT_ZERO: u8 = 0x30;

/// `{`, which opens a styled span.
pub const OPEN: u8 = 0x7b;

/// `}`, which closes styling.
pub const CLOSE: u8 = 0x7d;

/// `$`, which introduces an escaped `$` or `{`.
pub const ESCAPE: u8 = 0x24;

/// The space that ends a style specifier.
pub const SPACE: u8 = 0x20;

/// `.`, which separates the style names of a specifier.
pub const DOT: u8 = 0x2e;

/// `"`, which delimits a quoted text.
pub const QUOTE: u8 = 0x22;

/// The byte of `s` at `i`, or 0 where `i` lies outside `s`.
pub open spec fn byte_at(s: Seq<u8>, i: int) -> u8 {
    if 0 <= i < s.len() {
        s[i]
    } else {
        0
    }
}

/// Reads the byte at `position`, and 0 past the end of `s`.
pub fn index(s: &[u8], position: usize) -> (byte: u8)
    ensures
        byte == byte_at(s@, position as int),
{
    if position < s.len() {
        s[position]
    } else {
        0
    }
}

/// The number of bytes from `from` on that come before the first `stop`,
/// or before the end of `s` where no `stop` follows.
pub open spec fn run_length(s: Seq<u8>, stop: u8, from: int) -> nat
    decreases s.len() - from,
{
    if 0 <= from < s.len() && s[from] != stop {
        1 + run_length(s, stop, from + 1)
    } else {
        0
    }
}

/// The run that starts at `from` stays inside `s`, holds no `stop`, and is
/// followed by a `stop` unless it reaches the end of `s`.
pub proof fn lemma_run_length_bounds(s: Seq<u8>, stop: u8, from: int)
    requires
        0 <= from <= s.len(),
    ensures
        from + run_length(s, stop, from) <= s.len(),
        forall|k: int| from <= k < from + run_length(s, stop, from) ==> s[k] != stop,
        from + run_length(s, stop, from) < s.len() ==> s[from + run_length(s, stop, from)]
            == stop,
    decreases s.len() - from,
{
    if from < s.len() && s[from] != stop {
        lemma_run_length_bounds(s, stop, from + 1);
    }
}

/// A stretch of `n` bytes without `stop` that ends at a `stop` or at the
/// end of `s` is the run that starts at `from`.
pub proof fn lemma_run_length_is(s: Seq<u8>, stop: u8, from: int, n: nat)
    requires
        0 <= from,
        from + n <= s.len(),
        forall|k: int| from <= k < from + n ==> s[k] != stop,
        from + n == s.len() || s[from + n] == stop,
    ensures
        run_length(s, stop, from) == n,
    decreases n,
{
    if n > 0 {
        lemma_run_length_is(s, stop, from + 1, (n - 1) as nat);
    }
}

/// The position of the first `stop` at or after `from`, or the length of
/// `s` where there is none.
pub fn find_byte(s: &[u8], stop: u8, from: usize) -> (end: usize)
    requires
        from <= s.len(),
    ensures
        end == from + run_length(s@, stop, from as int),
        from <= end <= s.len(),
{
    let mut end: usize = from;
    while end < s.len() && s[end] != stop
        invariant
            from <= end <= s.len(),
            forall|k: int| from <= k < end ==> s@[k] != stop,
        decreases s.len() - end,
    {
        end += 1;
    }
    proof {
        lemma_run_length_is(s@, stop, from as int, (end - from) as nat);
    }
    end
}

/// Whether two byte strings hold the same bytes.
pub fn bytes_eq(a: &[u8], b: &[u8]) -> (equal: bool)
    ensures
        equal == (a@ == b@),
{
    if a.len() != b.len() {
        return false;
    }
    let mut i: usize = 0;
    while i < a.len()
        invariant
            i <= a.len(),
            a.len() == b.len(),
            forall|k: int| 0 <= k < i ==> a@[k] == b@[k],
        decreases a.len() - i,
    {
        if a[i] != b[i] {
            assert(a@[i as int] != b@[i as int]);
            return false;
        }
        i += 1;
    }
    assert(a@ =~= b@);
    true
}

} // verus!
