//! Laws of the encoding: a text in UTF-8 stays in UTF-8.

use crate::bytes::{lemma_run_length_bounds, run_length, CLOSE, ESCAPE, OPEN, QUOTE, SPACE};
use crate::composer::compose;
use crate::error::AnsiError;
use crate::laws::composing::{is_ascii_bytes, lemma_escape_sequences_are_ascii};
use crate::laws::scanning::lemma_plain_stretch;
use crate::scanner::{is_control, reset_sequence, scan, scan_from};
use crate::transform::{is_quoted, transform, unquoted};
use vstd::prelude::*;
use vstd::utf8::{
    is_char_boundary_iff_not_is_continuation_byte, length_of_first_scalar,
    partial_valid_utf8, partial_valid_utf8_extend_ascii_block, pop_first_scalar,
    valid_first_scalar, valid_utf8, valid_utf8_concat, valid_utf8_split,
};

verus! {

proof fn lemma_ascii_is_utf8(bytes: Seq<u8>)
    requires
        is_ascii_bytes(bytes),
    ensures
        valid_utf8(bytes),
{
    assert(bytes.subrange(0, 0) =~= Seq::<u8>::empty());
    assert(partial_valid_utf8(bytes, 0));
    partial_valid_utf8_extend_ascii_block(bytes, 0, bytes.len() as int);
    assert(bytes.subrange(0, bytes.len() as int) =~= bytes);
}

/// What follows an ASCII byte of a text in UTF-8 is in UTF-8.
proof fn lemma_utf8_after_ascii(s: Seq<u8>, i: int)
    requires
        valid_utf8(s),
        0 <= i < s.len(),
        s[i] <= 0x7f,
    ensures
        valid_utf8(s.subrange(i + 1, s.len() as int)),
{
    is_char_boundary_iff_not_is_continuation_byte(s, i);
    valid_utf8_split(s, i);
    let tail = s.subrange(i, s.len() as int);
    assert(tail[0] == s[i]);
    assert(pop_first_scalar(tail) =~= s.subrange(i + 1, s.len() as int));
}

/// What comes before an ASCII byte of a text in UTF-8 is in UTF-8.
proof fn lemma_utf8_before_ascii(s: Seq<u8>, i: int)
    requires
        valid_utf8(s),
        0 <= i < s.len(),
        s[i] <= 0x7f,
    ensures
        valid_utf8(s.subrange(0, i)),
{
    is_char_boundary_iff_not_is_continuation_byte(s, i);
    valid_utf8_split(s, i);
}

proof fn lemma_output_from_is_utf8(text: Seq<u8>, pos: int)
    requires
        0 <= pos <= text.len(),
        valid_utf8(text.subrange(pos, text.len() as int)),
    ensures
        scan_from(text, pos) matches Ok(output) ==> valid_utf8(output),
    decreases text.len() - pos,
{
    let len = text.len() as int;
    let suffix = text.subrange(pos, len);
    if pos < len {
        let byte = text[pos];
        let width = length_of_first_scalar(suffix);
        assert(suffix[0] == byte);
        assert(valid_first_scalar(suffix));
        assert(pop_first_scalar(suffix) =~= text.subrange(pos + width, len));
        if byte == OPEN {
            let end = pos + 1 + run_length(text, SPACE, pos + 1);
            lemma_run_length_bounds(text, SPACE, pos + 1);
            let specifier = text.subrange(pos + 1, end);
            lemma_escape_sequences_are_ascii(specifier);
            if let Some(sequence) = compose(specifier) {
                lemma_ascii_is_utf8(sequence);
                if end < len {
                    let tail = text.subrange(pos + 1, len);
                    assert(tail[end - pos - 1] == text[end]);
                    lemma_utf8_after_ascii(tail, end - pos - 1);
                    assert(tail.subrange(end - pos, tail.len() as int) =~= text.subrange(
                        end + 1,
                        len,
                    ));
                    lemma_output_from_is_utf8(text, end + 1);
                    if let Ok(rest) = scan_from(text, end + 1) {
                        valid_utf8_concat(sequence, rest);
                    }
                }
            }
        } else if byte == CLOSE {
            lemma_output_from_is_utf8(text, pos + 1);
            lemma_escape_sequences_are_ascii(Seq::empty());
            lemma_ascii_is_utf8(reset_sequence());
            if let Ok(rest) = scan_from(text, pos + 1) {
                valid_utf8_concat(reset_sequence(), rest);
            }
        } else if byte == ESCAPE {
            if pos + 1 < len && (text[pos + 1] == ESCAPE || text[pos + 1] == OPEN) {
                let tail = text.subrange(pos + 1, len);
                assert(tail[0] == text[pos + 1]);
                lemma_utf8_after_ascii(tail, 0);
                assert(tail.subrange(1, tail.len() as int) =~= text.subrange(pos + 2, len));
                lemma_output_from_is_utf8(text, pos + 2);
                lemma_ascii_is_utf8(seq![text[pos + 1]]);
                if let Ok(rest) = scan_from(text, pos + 2) {
                    valid_utf8_concat(seq![text[pos + 1]], rest);
                }
            }
        } else {
            // The first character of the suffix, of one to four bytes, is copied whole.
            assert forall|k: int| pos <= k < pos + width implies !is_control(#[trigger] text[k]) by {
                assert(text[k] == suffix[k - pos]);
            }
            lemma_plain_stretch(text, pos, width as nat);
            lemma_output_from_is_utf8(text, pos + width);
            if let Ok(rest) = scan_from(text, pos + width) {
                let character = text.subrange(pos, pos + width);
                let output = character + rest;
                assert forall|k: int| 0 <= k < width implies output[k] == suffix[k] by {
                    assert(output[k] == character[k]);
                }
                assert(valid_first_scalar(output));
                assert(pop_first_scalar(output) =~= rest);
            }
        }
    } else {
        assert(scan_from(text, pos) == Ok::<Seq<u8>, AnsiError>(Seq::empty()));
    }
}

/// Text stays text: the output for a text in UTF-8 is in UTF-8. Markup is
/// ASCII, and so is what takes its place; the characters in between are
/// copied whole.
pub proof fn lemma_output_is_utf8(text: Seq<u8>)
    requires
        valid_utf8(text),
    ensures
        scan(text) matches Ok(output) ==> valid_utf8(output),
{
    assert(text.subrange(0, text.len() as int) =~= text);
    lemma_output_from_is_utf8(text, 0);
}

/// Quoted text stays text: the transformed form of a quoted text in UTF-8
/// is in UTF-8.
pub proof fn lemma_transformed_is_utf8(input: Seq<u8>)
    requires
        valid_utf8(input),
    ensures
        transform(input) matches Ok(output) ==> valid_utf8(output),
{
    if is_quoted(input) {
        let last = input.len() - 1;
        let tail = input.subrange(1, input.len() as int);
        lemma_utf8_after_ascii(input, 0);
        assert(tail[last - 1] == input[last]);
        lemma_utf8_before_ascii(tail, last - 1);
        assert(tail.subrange(0, last - 1) =~= unquoted(input));
        lemma_output_is_utf8(unquoted(input));
        if let Ok(body) = scan(unquoted(input)) {
            lemma_ascii_is_utf8(seq![QUOTE]);
            valid_utf8_concat(seq![QUOTE], body);
            valid_utf8_concat(seq![QUOTE] + body, seq![QUOTE]);
        }
    }
}

} // verus!
