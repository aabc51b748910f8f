//! The code composer: from a style specifier such as `bold.red` to the one
//! escape sequence that switches all of its styles on.

use crate::bytes::{find_byte, run_length, BRACKET, DIGIT_ZERO, DOT, ESC, FINAL_M, SEMICOLON};
use crate::style::{lookup_style, style_code};
use vstd::prelude::*;
use vstd::slice::slice_subrange;

verus! {

/// The pieces of `s` that lie between separators, from position `from` on.
/// A separator at the very end leaves an empty last piece.
pub open spec fn split_from(s: Seq<u8>, sep: u8, from: int) -> Seq<Seq<u8>>
    decreases s.len() - from,
{
    let end = from + run_length(s, sep, from);
    if from < 0 || from > s.len() {
        Seq::empty()
    } else if end >= s.len() {
        seq![s.subrange(from, s.len() as int)]
    } else {
        seq![s.subrange(from, end)] + split_from(s, sep, end + 1)
    }
}

/// The pieces of `s` that lie between separators. There is always at least
/// one piece; the pieces of an empty `s` are one empty piece.
pub open spec fn split(s: Seq<u8>, sep: u8) -> Seq<Seq<u8>> {
    split_from(s, sep, 0)
}

/// Whether the style table knows every one of `tokens`.
pub open spec fn all_known(tokens: Seq<Seq<u8>>) -> bool {
    forall|i: int| 0 <= i < tokens.len() ==> (#[trigger] style_code(tokens[i])) is Some
}

/// The codes of `tokens`, in their order.
pub open spec fn codes_of(tokens: Seq<Seq<u8>>) -> Seq<u8> {
    Seq::new(tokens.len(), |i: int| style_code(tokens[i]).unwrap())
}

/// The ASCII digit for `d`, which is below ten.
pub open spec fn digit(d: nat) -> u8 {
    (DIGIT_ZERO + d) as u8
}

/// `n` written in decimal, without leading zeros.
pub open spec fn decimal(n: nat) -> Seq<u8>
    decreases n,
{
    if n < 10 {
        seq![digit(n)]
    } else {
        decimal(n / 10).push(digit(n % 10))
    }
}

/// The decimal forms of `codes`, with a `;` between neighbours.
pub open spec fn join_codes(codes: Seq<u8>) -> Seq<u8>
    decreases codes.len(),
{
    if codes.len() == 0 {
        Seq::empty()
    } else if codes.len() == 1 {
        decimal(codes[0] as nat)
    } else {
        join_codes(codes.drop_last()) + seq![SEMICOLON] + decimal(codes.last() as nat)
    }
}

/// The escape sequence that sets `codes`: `ESC [`, the codes joined by `;`,
/// and `m`.
pub open spec fn escape_sequence(codes: Seq<u8>) -> Seq<u8> {
    seq![ESC, BRACKET] + join_codes(codes) + seq![FINAL_M]
}

/// The escape sequence for `specifier`: its names are split at `.` and
/// looked up one by one. One unknown name makes the whole specifier
/// unusable.
pub open spec fn compose(specifier: Seq<u8>) -> Option<Seq<u8>> {
    let tokens = split(specifier, DOT);
    if all_known(tokens) {
        Some(escape_sequence(codes_of(tokens)))
    } else {
        None
    }
}

/// Appends `code` in decimal to `out`.
pub fn push_decimal(out: &mut Vec<u8>, code: u8)
    ensures
        final(out)@ == old(out)@ + decimal(code as nat),
{
    reveal_with_fuel(decimal, 3);
    if code >= 100 {
        out.push(DIGIT_ZERO + code / 100);
    }
    if code >= 10 {
        out.push(DIGIT_ZERO + (code / 10) % 10);
    }
    out.push(DIGIT_ZERO + code % 10);
}

/// With one more token at the end, the codes gain that token's code.
proof fn lemma_codes_of_push(tokens: Seq<Seq<u8>>, token: Seq<u8>)
    ensures
        codes_of(tokens.push(token)) == codes_of(tokens).push(style_code(token).unwrap()),
{
    assert(codes_of(tokens.push(token)) =~= codes_of(tokens).push(style_code(token).unwrap()));
}

/// With one more code at the end, the joined form gains a `;`, unless it
/// was empty, and the new code's digits.
proof fn lemma_join_codes_push(codes: Seq<u8>, code: u8)
    ensures
        join_codes(codes.push(code)) == if codes.len() == 0 {
            decimal(code as nat)
        } else {
            join_codes(codes) + seq![SEMICOLON] + decimal(code as nat)
        },
{
    assert(codes.push(code).drop_last() =~= codes);
}

/// Builds the escape sequence for the style specifier `s`, which holds one
/// style name or several separated by `.`. Returns `None` where a name is
/// not in the style table; nothing is emitted for the names before it.
pub fn get_ansi_code_for_color_string(s: &[u8]) -> (sequence: Option<Vec<u8>>)
    ensures
        match sequence {
            Some(bytes) => compose(s@) == Some(bytes@),
            None => compose(s@) is None,
        },
{
    let mut result: Vec<u8> = Vec::new();
    result.push(ESC);
    result.push(BRACKET);
    let ghost mut done: Seq<Seq<u8>> = Seq::empty();
    let mut start: usize = 0;
    let mut last_loop_set: bool = false;
    let mut more: bool = true;
    while more
        invariant
            start <= s.len(),
            all_known(done),
            last_loop_set == (done.len() > 0),
            result@ == seq![ESC, BRACKET] + join_codes(codes_of(done)),
            more ==> split(s@, DOT) == done + split_from(s@, DOT, start as int),
            !more ==> split(s@, DOT) == done,
        decreases s.len() - start + if more { 1int } else { 0int },
    {
        let end: usize = find_byte(s, DOT, start);
        let fragment = slice_subrange(s, start, end);
        let ghost rest = if end >= s.len() {
            Seq::<Seq<u8>>::empty()
        } else {
            split_from(s@, DOT, end + 1)
        };
        assert(split(s@, DOT) == done.push(fragment@) + rest) by {
            assert(split_from(s@, DOT, start as int) == seq![fragment@] + rest);
            assert(done + (seq![fragment@] + rest) =~= done.push(fragment@) + rest);
        }
        match lookup_style(fragment) {
            None => {
                assert(split(s@, DOT)[done.len() as int] == fragment@);
                return None;
            },
            Some(code) => {
                if last_loop_set {
                    result.push(SEMICOLON);
                }
                push_decimal(&mut result, code);
                proof {
                    lemma_codes_of_push(done, fragment@);
                    lemma_join_codes_push(codes_of(done), code);
                    done = done.push(fragment@);
                }
                last_loop_set = true;
            },
        }
        if end >= s.len() {
            more = false;
            assert(done + rest =~= done);
        } else {
            start = end + 1;
        }
    }
    result.push(FINAL_M);
    Some(result)
}

} // verus!
