//! Laws of the composer: what splitting a specifier means, and what an
//! escape sequence is made of.

use crate::bytes::{
    lemma_run_length_bounds, run_length, BRACKET, DIGIT_ZERO, DOT, ESC, FINAL_M, SEMICOLON,
};
use crate::composer::{
    codes_of, compose, decimal, escape_sequence, join_codes, split, split_from,
};
use crate::scanner::{is_control, is_plain, reset_sequence};
use vstd::prelude::*;

verus! {

/// `pieces` with `sep` between neighbours.
pub open spec fn join(pieces: Seq<Seq<u8>>, sep: u8) -> Seq<u8>
    decreases pieces.len(),
{
    if pieces.len() == 0 {
        Seq::empty()
    } else if pieces.len() == 1 {
        pieces[0]
    } else {
        pieces[0] + seq![sep] + join(pieces.drop_first(), sep)
    }
}

/// Whether `piece` holds no `sep`.
pub open spec fn holds_no(piece: Seq<u8>, sep: u8) -> bool {
    forall|k: int| 0 <= k < piece.len() ==> piece[k] != sep
}

proof fn lemma_split_from_is_exact(s: Seq<u8>, sep: u8, from: int)
    requires
        0 <= from <= s.len(),
    ensures
        split_from(s, sep, from).len() >= 1,
        join(split_from(s, sep, from), sep) == s.subrange(from, s.len() as int),
        forall|i: int|
            0 <= i < split_from(s, sep, from).len() ==> holds_no(
                #[trigger] split_from(s, sep, from)[i],
                sep,
            ),
    decreases s.len() - from,
{
    let end = from + run_length(s, sep, from);
    lemma_run_length_bounds(s, sep, from);
    if end < s.len() {
        let piece = s.subrange(from, end);
        let rest = split_from(s, sep, end + 1);
        let pieces = split_from(s, sep, from);
        lemma_split_from_is_exact(s, sep, end + 1);
        assert(pieces == seq![piece] + rest);
        assert(pieces.drop_first() =~= rest);
        assert(piece + seq![sep] + s.subrange(end + 1, s.len() as int) =~= s.subrange(
            from,
            s.len() as int,
        ));
        assert forall|i: int| 0 <= i < pieces.len() implies holds_no(#[trigger] pieces[i], sep) by {
            if i > 0 {
                assert(pieces[i] == rest[i - 1]);
            }
        }
    }
}

/// Splitting loses nothing and finds every separator: there is at least
/// one piece, no piece holds the separator, and the pieces joined by the
/// separator are the text that was split.
pub proof fn lemma_split_is_exact(s: Seq<u8>, sep: u8)
    ensures
        split(s, sep).len() >= 1,
        join(split(s, sep), sep) == s,
        forall|i: int| 0 <= i < split(s, sep).len() ==> holds_no(#[trigger] split(s, sep)[i], sep),
{
    lemma_split_from_is_exact(s, sep, 0);
    assert(s.subrange(0, s.len() as int) =~= s);
}

/// Whether `byte` may stand between `ESC [` and `m`: a decimal digit or `;`.
pub open spec fn is_code_byte(byte: u8) -> bool {
    DIGIT_ZERO <= byte <= DIGIT_ZERO + 9 || byte == SEMICOLON
}

/// Whether every byte of `bytes` is ASCII.
pub open spec fn is_ascii_bytes(bytes: Seq<u8>) -> bool {
    forall|i: int| 0 <= i < bytes.len() ==> #[trigger] bytes[i] <= 0x7f
}

proof fn lemma_decimal_is_digits(n: nat)
    ensures
        decimal(n).len() >= 1,
        forall|i: int|
            0 <= i < decimal(n).len() ==> DIGIT_ZERO <= #[trigger] decimal(n)[i] <= DIGIT_ZERO + 9,
    decreases n,
{
    if n >= 10 {
        lemma_decimal_is_digits(n / 10);
    }
}

proof fn lemma_join_codes_is_code_bytes(codes: Seq<u8>)
    ensures
        codes.len() >= 1 ==> join_codes(codes).len() >= 1,
        forall|i: int|
            0 <= i < join_codes(codes).len() ==> is_code_byte(#[trigger] join_codes(codes)[i]),
    decreases codes.len(),
{
    if codes.len() >= 1 {
        lemma_decimal_is_digits(codes.last() as nat);
        if codes.len() >= 2 {
            lemma_join_codes_is_code_bytes(codes.drop_last());
        }
    }
}

/// The form of an escape sequence: `ESC [`, then digits and `;` only, then
/// `m`.
pub proof fn lemma_escape_sequence_form(codes: Seq<u8>)
    ensures
        escape_sequence(codes).len() >= 3,
        escape_sequence(codes)[0] == ESC,
        escape_sequence(codes)[1] == BRACKET,
        escape_sequence(codes).last() == FINAL_M,
        forall|i: int|
            2 <= i < escape_sequence(codes).len() - 1 ==> is_code_byte(
                #[trigger] escape_sequence(codes)[i],
            ),
{
    lemma_join_codes_is_code_bytes(codes);
    let body = join_codes(codes);
    let sequence = escape_sequence(codes);
    assert forall|i: int| 2 <= i < sequence.len() - 1 implies is_code_byte(
        #[trigger] sequence[i],
    ) by {
        assert(sequence[i] == body[i - 2]);
    }
}

/// Escape sequences are not markup: what the composer builds for a
/// specifier holds no `{`, no `}` and no `$`, and neither does the reset
/// sequence.
pub proof fn lemma_escape_sequences_are_plain(specifier: Seq<u8>)
    ensures
        compose(specifier) matches Some(sequence) ==> is_plain(sequence),
        is_plain(reset_sequence()),
{
    if let Some(sequence) = compose(specifier) {
        lemma_escape_sequence_form(codes_of(split(specifier, DOT)));
        assert forall|i: int| 0 <= i < sequence.len() implies !is_control(
            #[trigger] sequence[i],
        ) by {
            if 2 <= i < sequence.len() - 1 {
                assert(is_code_byte(sequence[i]));
            }
        }
    }
}

/// The escape sequences that the composer builds, and the reset sequence,
/// are ASCII.
pub proof fn lemma_escape_sequences_are_ascii(specifier: Seq<u8>)
    ensures
        compose(specifier) matches Some(sequence) ==> is_ascii_bytes(sequence),
        is_ascii_bytes(reset_sequence()),
{
    if let Some(sequence) = compose(specifier) {
        lemma_escape_sequence_form(codes_of(split(specifier, DOT)));
        assert forall|i: int| 0 <= i < sequence.len() implies #[trigger] sequence[i] <= 0x7f by {
            if 2 <= i < sequence.len() - 1 {
                assert(is_code_byte(sequence[i]));
            }
        }
    }
}

} // verus!
