//! The transformation as a whole: from the arguments of an invocation to
//! the quoted text that takes their place.
//!
//! An invocation is given exactly one argument, a quoted text. The markup
//! between the quotes is scanned, and the result is put between the same
//! quotes again.

use crate::bytes::{index, QUOTE};
use crate::error::AnsiError;
use crate::laws::encoding::lemma_transformed_is_utf8;
use crate::laws::scanning::{lemma_plain_quoted_text_is_unchanged, lemma_scan_errors};
use crate::scanner::{is_plain, scan, scan_markup};
use vstd::prelude::*;
use vstd::slice::slice_subrange;
use vstd::utf8::valid_utf8;

verus! {

/// One argument of an invocation.
#[derive(Debug)]
pub enum Argument {
    /// A literal, with its text as it was written, delimiters included.
    Literal(Vec<u8>),
    /// Anything that is not a literal.
    Other,
}

/// Whether `input` is one quoted text: a `"`, any bytes, and a `"`.
pub open spec fn is_quoted(input: Seq<u8>) -> bool {
    &&& input.len() >= 2
    &&& input[0] == QUOTE
    &&& input[input.len() - 1] == QUOTE
}

/// What stands between the quotes of `input`.
pub open spec fn unquoted(input: Seq<u8>) -> Seq<u8> {
    input.subrange(1, input.len() - 1)
}

/// `body` between quotes.
pub open spec fn quoted(body: Seq<u8>) -> Seq<u8> {
    seq![QUOTE] + body + seq![QUOTE]
}

/// The transformed form of `input`: what is not one quoted text is refused
/// before anything is scanned; otherwise the text between the quotes is
/// scanned and quoted again.
pub open spec fn transform(input: Seq<u8>) -> Result<Seq<u8>, AnsiError> {
    if is_quoted(input) {
        match scan(unquoted(input)) {
            Ok(body) => Ok(quoted(body)),
            Err(e) => Err(e),
        }
    } else {
        Err(AnsiError::InvalidArgument)
    }
}

/// The text of `arg` where it is a literal; empty otherwise.
pub open spec fn literal_text(arg: Argument) -> Seq<u8> {
    match arg {
        Argument::Literal(text) => text@,
        Argument::Other => Seq::empty(),
    }
}

/// Whether `args` are what an invocation asks for: one argument, and that
/// a literal which is a quoted text.
pub open spec fn is_one_quoted_text(args: Seq<Argument>) -> bool {
    &&& args.len() == 1
    &&& args[0] is Literal
    &&& is_quoted(literal_text(args[0]))
}

/// What an invocation with `args` yields: the transformed form of its one
/// argument. No argument, more than one, or one that is not a quoted text
/// is refused.
pub open spec fn expansion(args: Seq<Argument>) -> Result<Seq<u8>, AnsiError> {
    if is_one_quoted_text(args) {
        transform(literal_text(args[0]))
    } else {
        Err(AnsiError::InvalidArgument)
    }
}

/// Transforms the quoted text `input`, quotes included, into the quoted
/// text in which the markup has become escape sequences.
///
/// Fails with `InvalidArgument` where `input` is not one quoted text, and
/// with the scanner's error where the markup is faulty. A text without `{`,
/// `}` and `$` comes back as it is, and a text in UTF-8 stays in UTF-8.
pub fn transform_literal(input: &[u8]) -> (result: Result<Vec<u8>, AnsiError>)
    ensures
        match result {
            Ok(bytes) => transform(input@) == Ok::<Seq<u8>, AnsiError>(bytes@),
            Err(e) => transform(input@) == Err::<Seq<u8>, AnsiError>(e),
        },
        result == Err::<Vec<u8>, AnsiError>(AnsiError::InvalidArgument) <==> !is_quoted(input@),
        is_quoted(input@) && is_plain(input@) ==> result is Ok && result.unwrap()@ == input@,
        valid_utf8(input@) ==> (result matches Ok(bytes) ==> valid_utf8(bytes@)),
{
    let len: usize = input.len();
    if len < 2 || index(input, 0) != QUOTE || index(input, len - 1) != QUOTE {
        return Err(AnsiError::InvalidArgument);
    }
    proof {
        lemma_scan_errors(unquoted(input@));
        if is_plain(input@) {
            lemma_plain_quoted_text_is_unchanged(input@);
        }
        if valid_utf8(input@) {
            lemma_transformed_is_utf8(input@);
        }
    }
    match scan_markup(slice_subrange(input, 1, len - 1)) {
        Ok(mut body) => {
            let mut result: Vec<u8> = Vec::new();
            result.push(QUOTE);
            result.append(&mut body);
            result.push(QUOTE);
            assert(result@ =~= quoted(scan(unquoted(input@)).unwrap()));
            Ok(result)
        },
        Err(e) => Err(e),
    }
}

/// Colours a string literal: `args` are the arguments of the invocation,
/// and the result is the text of the literal that takes its place.
///
/// Fails with `InvalidArgument` unless `args` is exactly one literal that
/// is a quoted text; this is decided before anything is scanned. Fails with
/// the scanner's error where the markup is faulty. A literal without `{`,
/// `}` and `$` comes back as it is, and a literal in UTF-8 stays in UTF-8.
pub fn ansi_string(args: &[Argument]) -> (result: Result<Vec<u8>, AnsiError>)
    ensures
        match result {
            Ok(bytes) => expansion(args@) == Ok::<Seq<u8>, AnsiError>(bytes@),
            Err(e) => expansion(args@) == Err::<Seq<u8>, AnsiError>(e),
        },
        result == Err::<Vec<u8>, AnsiError>(AnsiError::InvalidArgument) <==> !is_one_quoted_text(
            args@,
        ),
        is_one_quoted_text(args@) && is_plain(literal_text(args@[0])) ==> result is Ok
            && result.unwrap()@ == literal_text(args@[0]),
        is_one_quoted_text(args@) && valid_utf8(literal_text(args@[0])) ==> (result matches Ok(
            bytes,
        ) ==> valid_utf8(bytes@)),
{
    if args.len() != 1 {
        return Err(AnsiError::InvalidArgument);
    }
    match &args[0] {
        Argument::Literal(text) => transform_literal(text.as_slice()),
        Argument::Other => Err(AnsiError::InvalidArgument),
    }
}

} // verus!
