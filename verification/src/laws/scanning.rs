//! Laws of the scanner: what is copied, what fails, and what a second pass
//! would do.

use crate::bytes::{run_length, CLOSE, ESCAPE, OPEN, SPACE};
use crate::composer::compose;
use crate::error::AnsiError;
use crate::laws::composing::lemma_escape_sequences_are_plain;
use crate::scanner::{
    is_control, is_plain, lemma_machine_matches_scan, lemma_prepend_twice, prepend,
    reset_sequence, scan, scan_from, ScanState, ScannerView,
};
use crate::transform::{is_quoted, quoted, transform, unquoted};
use vstd::prelude::*;

verus! {

/// A stretch of bytes that are not markup is copied.
pub proof fn lemma_plain_stretch(text: Seq<u8>, pos: int, n: nat)
    requires
        0 <= pos,
        pos + n <= text.len(),
        forall|k: int| pos <= k < pos + n ==> !is_control(#[trigger] text[k]),
    ensures
        scan_from(text, pos) == prepend(text.subrange(pos, pos + n), scan_from(text, pos + n)),
    decreases n,
{
    if n == 0 {
        assert(text.subrange(pos, pos) =~= Seq::<u8>::empty());
        if let Ok(bytes) = scan_from(text, pos) {
            assert(Seq::<u8>::empty() + bytes =~= bytes);
        }
    } else {
        assert(!is_control(text[pos]));
        lemma_plain_stretch(text, pos + 1, (n - 1) as nat);
        lemma_prepend_twice(
            seq![text[pos]],
            text.subrange(pos + 1, pos + n),
            scan_from(text, pos + n),
        );
        assert(seq![text[pos]] + text.subrange(pos + 1, pos + n) =~= text.subrange(pos, pos + n));
    }
}

/// Identity on plain text: a text that holds no `{`, no `}` and no `$` is
/// its own output.
pub proof fn lemma_plain_text_is_unchanged(text: Seq<u8>)
    requires
        is_plain(text),
    ensures
        scan(text) == Ok::<Seq<u8>, AnsiError>(text),
{
    lemma_plain_stretch(text, 0, text.len());
    assert(text.subrange(0, text.len() as int) + Seq::<u8>::empty() =~= text);
}

/// Identity on plain quoted text: a quoted text that holds no `{`, no `}`
/// and no `$` is transformed into itself.
pub proof fn lemma_plain_quoted_text_is_unchanged(input: Seq<u8>)
    requires
        is_quoted(input),
        is_plain(input),
    ensures
        transform(input) == Ok::<Seq<u8>, AnsiError>(input),
{
    let body = unquoted(input);
    assert(is_plain(body)) by {
        assert forall|i: int| 0 <= i < body.len() implies !is_control(
            #[trigger] body[i],
        ) by {
            assert(body[i] == input[i + 1]);
        }
    }
    lemma_plain_text_is_unchanged(body);
    assert(quoted(body) =~= input);
}

proof fn lemma_scan_from_errors(text: Seq<u8>, pos: int)
    ensures
        scan_from(text, pos) matches Err(e) ==> e != AnsiError::InvalidArgument,
    decreases text.len() - pos,
{
    if 0 <= pos < text.len() {
        if text[pos] == OPEN {
            let end = pos + 1 + run_length(text, SPACE, pos + 1);
            if end < text.len() {
                lemma_scan_from_errors(text, end + 1);
            }
        } else if text[pos] == ESCAPE {
            if pos + 1 < text.len() {
                lemma_scan_from_errors(text, pos + 2);
            }
        } else {
            lemma_scan_from_errors(text, pos + 1);
        }
    }
}

/// The scanner knows two faults only: an escape that is not completed and a
/// style name that is not known. It never refuses a text as a whole.
pub proof fn lemma_scan_errors(text: Seq<u8>)
    ensures
        scan(text) matches Err(e) ==> e == AnsiError::UnterminatedEscape || e
            == AnsiError::UnknownStyleToken,
{
    lemma_scan_from_errors(text, 0);
}

/// Whether `text` ends outside any construct: it can be scanned to its end
/// without an error, and neither a style specifier nor an escape is open
/// there.
pub open spec fn ends_outside_constructs(text: Seq<u8>) -> bool {
    match ScannerView::initial().run(text, 0) {
        Ok(last) => last.state == ScanState::Normal,
        Err(_) => false,
    }
}

/// `s` with `head` in front of its output.
spec fn with_output_prefix(head: Seq<u8>, s: ScannerView) -> ScannerView {
    ScannerView { state: s.state, specifier: s.specifier, output: head + s.output }
}

/// `with_output_prefix` applied to a state that was reached, if one was.
spec fn map_output_prefix(head: Seq<u8>, r: Result<ScannerView, AnsiError>) -> Result<
    ScannerView,
    AnsiError,
> {
    match r {
        Ok(s) => Ok(with_output_prefix(head, s)),
        Err(e) => Err(e),
    }
}

/// Outside a style specifier, no specifier bytes are kept.
spec fn tidy(s: ScannerView) -> bool {
    s.state != ScanState::CapturingSpecifier ==> s.specifier.len() == 0
}

proof fn lemma_run_is_tidy(s: ScannerView, text: Seq<u8>, pos: int)
    requires
        tidy(s),
    ensures
        s.run(text, pos) matches Ok(last) ==> tidy(last),
    decreases text.len() - pos,
{
    if 0 <= pos < text.len() {
        if let Ok(next) = s.step(text[pos]) {
            lemma_run_is_tidy(next, text, pos + 1);
        }
    }
}

proof fn lemma_step_with_prefix(head: Seq<u8>, s: ScannerView, byte: u8)
    ensures
        with_output_prefix(head, s).step(byte) == map_output_prefix(head, s.step(byte)),
{
    if let Ok(next) = s.step(byte) {
        let prefixed = with_output_prefix(head, s).step(byte);
        assert(prefixed is Ok);
        assert(prefixed.unwrap().output =~= head + next.output);
    }
}

proof fn lemma_run_with_prefix(head: Seq<u8>, s: ScannerView, text: Seq<u8>, pos: int)
    ensures
        with_output_prefix(head, s).run(text, pos) == map_output_prefix(head, s.run(text, pos)),
    decreases text.len() - pos,
{
    if 0 <= pos < text.len() {
        lemma_step_with_prefix(head, s, text[pos]);
        if let Ok(next) = s.step(text[pos]) {
            lemma_run_with_prefix(head, next, text, pos + 1);
        }
    }
}

proof fn lemma_finish_with_prefix(head: Seq<u8>, s: ScannerView)
    ensures
        with_output_prefix(head, s).finish() == prepend(head, s.finish()),
{
    if let Ok(bytes) = s.finish() {
        assert(with_output_prefix(head, s).finish().unwrap() =~= head + bytes);
    }
}

proof fn lemma_run_in_second_part(s: ScannerView, a: Seq<u8>, b: Seq<u8>, k: int)
    requires
        0 <= k <= b.len(),
    ensures
        s.run(a + b, a.len() + k) == s.run(b, k),
    decreases b.len() - k,
{
    if k < b.len() {
        assert((a + b)[a.len() + k] == b[k]);
        if let Ok(next) = s.step(b[k]) {
            lemma_run_in_second_part(next, a, b, k + 1);
        }
    }
}

proof fn lemma_run_in_first_part(s: ScannerView, a: Seq<u8>, b: Seq<u8>, pos: int)
    requires
        0 <= pos <= a.len(),
    ensures
        s.run(a + b, pos) == match s.run(a, pos) {
            Ok(mid) => mid.run(a + b, a.len() as int),
            Err(e) => Err(e),
        },
    decreases a.len() - pos,
{
    if pos < a.len() {
        assert((a + b)[pos] == a[pos]);
        if let Ok(next) = s.step(a[pos]) {
            lemma_run_in_first_part(next, a, b, pos + 1);
        }
    }
}

/// Independent pieces: where `a` ends outside any construct, the output for
/// `a` followed by `b` is the output for `a` followed by the output for `b`.
/// Nothing that `a` opened or set is remembered in `b`.
pub proof fn lemma_scan_of_concatenation(a: Seq<u8>, b: Seq<u8>)
    requires
        ends_outside_constructs(a),
    ensures
        scan(a) is Ok,
        scan(a + b) == prepend(scan(a).unwrap(), scan(b)),
        ends_outside_constructs(b) ==> ends_outside_constructs(a + b),
{
    let first = ScannerView::initial();
    let mid = first.run(a, 0).unwrap();
    lemma_run_is_tidy(first, a, 0);
    lemma_machine_matches_scan(a);
    lemma_machine_matches_scan(b);
    lemma_machine_matches_scan(a + b);
    lemma_run_in_first_part(first, a, b, 0);
    lemma_run_in_second_part(mid, a, b, 0);
    assert(mid == with_output_prefix(mid.output, first)) by {
        assert(mid.output + first.output =~= mid.output);
        assert(mid.specifier =~= first.specifier);
    }
    lemma_run_with_prefix(mid.output, first, b, 0);
    if let Ok(last) = first.run(b, 0) {
        lemma_finish_with_prefix(mid.output, last);
    }
}

/// Flat reset: a `}` that stands outside any construct always emits the
/// reset sequence. It does not matter how many spans were opened before it,
/// or whether any was.
pub proof fn lemma_close_always_resets(before: Seq<u8>, after: Seq<u8>)
    requires
        ends_outside_constructs(before),
    ensures
        scan(before) is Ok,
        scan(before + seq![CLOSE] + after) == prepend(
            scan(before).unwrap() + reset_sequence(),
            scan(after),
        ),
{
    let close = seq![CLOSE];
    assert(scan(close) == Ok::<Seq<u8>, AnsiError>(reset_sequence())) by {
        assert(scan_from(close, 1) == Ok::<Seq<u8>, AnsiError>(Seq::empty()));
        assert(reset_sequence() + Seq::<u8>::empty() =~= reset_sequence());
    }
    assert(ends_outside_constructs(close)) by {
        let first = ScannerView::initial();
        let next = first.step(CLOSE).unwrap();
        assert(first.run(close, 0) == next.run(close, 1));
        assert(next.run(close, 1) == Ok::<ScannerView, AnsiError>(next));
    }
    lemma_scan_of_concatenation(before, close);
    lemma_scan_of_concatenation(before + close, after);
}

proof fn lemma_plain_run(s: ScannerView, text: Seq<u8>, pos: int)
    requires
        is_plain(text),
        s.state == ScanState::Normal,
    ensures
        s.run(text, pos) matches Ok(last) && last.state == ScanState::Normal,
    decreases text.len() - pos,
{
    if 0 <= pos < text.len() {
        assert(!is_control(text[pos]));
        lemma_plain_run(s.step(text[pos]).unwrap(), text, pos + 1);
    }
}

/// An unmatched `}` resets all the same: after a text without any markup, a
/// `}` emits the reset sequence, though no span was ever opened.
pub proof fn lemma_unmatched_close_resets(before: Seq<u8>, after: Seq<u8>)
    requires
        is_plain(before),
    ensures
        scan(before + seq![CLOSE] + after) == prepend(before + reset_sequence(), scan(after)),
{
    lemma_plain_run(ScannerView::initial(), before, 0);
    lemma_plain_text_is_unchanged(before);
    lemma_close_always_resets(before, after);
}

/// Whether `text` holds no `$`.
pub open spec fn is_escape_free(text: Seq<u8>) -> bool {
    forall|i: int| 0 <= i < text.len() ==> #[trigger] text[i] != ESCAPE
}

proof fn lemma_plain_concatenation(a: Seq<u8>, b: Seq<u8>)
    requires
        is_plain(a),
        is_plain(b),
    ensures
        is_plain(a + b),
{
    assert forall|i: int| 0 <= i < (a + b).len() implies !is_control(#[trigger] (a + b)[i]) by {
        if i < a.len() {
            assert((a + b)[i] == a[i]);
        } else {
            assert((a + b)[i] == b[i - a.len()]);
        }
    }
}

proof fn lemma_output_from_is_plain(text: Seq<u8>, pos: int)
    requires
        is_escape_free(text),
        0 <= pos,
    ensures
        scan_from(text, pos) matches Ok(output) ==> is_plain(output),
    decreases text.len() - pos,
{
    if pos < text.len() {
        if text[pos] == OPEN {
            let end = pos + 1 + run_length(text, SPACE, pos + 1);
            let specifier = text.subrange(pos + 1, end);
            lemma_escape_sequences_are_plain(specifier);
            if end < text.len() {
                lemma_output_from_is_plain(text, end + 1);
                if let (Some(sequence), Ok(rest)) = (compose(specifier), scan_from(text, end + 1)) {
                    lemma_plain_concatenation(sequence, rest);
                }
            }
        } else if text[pos] == CLOSE {
            lemma_output_from_is_plain(text, pos + 1);
            lemma_escape_sequences_are_plain(Seq::empty());
            if let Ok(rest) = scan_from(text, pos + 1) {
                lemma_plain_concatenation(reset_sequence(), rest);
            }
        } else {
            lemma_output_from_is_plain(text, pos + 1);
            if let Ok(rest) = scan_from(text, pos + 1) {
                lemma_plain_concatenation(seq![text[pos]], rest);
            }
        }
    }
}

/// Without escapes, one pass is enough: the output for a text that holds
/// no `$` holds no markup, so that a second pass would hand it back as it
/// is.
pub proof fn lemma_output_of_escape_free_text_is_plain(text: Seq<u8>)
    requires
        is_escape_free(text),
    ensures
        scan(text) matches Ok(output) ==> is_plain(output) && scan(output) == Ok::<
            Seq<u8>,
            AnsiError,
        >(output),
{
    lemma_output_from_is_plain(text, 0);
    if let Ok(output) = scan(text) {
        lemma_plain_text_is_unchanged(output);
    }
}

/// Not idempotent: the output of a pass is not markup to be read again.
/// After any plain text, `$$` leaves a bare `$` in the output, and on that
/// output a second pass fails.
pub proof fn lemma_second_pass_can_fail(before: Seq<u8>)
    requires
        is_plain(before),
    ensures
        scan(before + seq![ESCAPE, ESCAPE]) == Ok::<Seq<u8>, AnsiError>(before + seq![ESCAPE]),
        scan(before + seq![ESCAPE]) == Err::<Seq<u8>, AnsiError>(AnsiError::UnterminatedEscape),
{
    let twice = seq![ESCAPE, ESCAPE];
    let once = seq![ESCAPE];
    assert(scan(twice) == Ok::<Seq<u8>, AnsiError>(once)) by {
        assert(scan_from(twice, 2) == Ok::<Seq<u8>, AnsiError>(Seq::empty()));
        assert(seq![twice[1]] + Seq::<u8>::empty() =~= once);
    }
    lemma_plain_run(ScannerView::initial(), before, 0);
    lemma_plain_text_is_unchanged(before);
    lemma_scan_of_concatenation(before, twice);
    lemma_scan_of_concatenation(before, once);
}

} // verus!
