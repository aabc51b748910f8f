//! The markup scanner: one pass over the bytes of a text, in which markup
//! becomes escape sequences and everything else is copied.
//!
//! What a text stands for is said twice. [`scan`] reads the text as a
//! grammar would, construct by construct. [`Scanner`] is the machine that
//! takes one byte at a time and keeps its place in one of three states.
//! [`lemma_machine_matches_scan`] shows that both give the same result.

use crate::bytes::{
    lemma_run_length_is, run_length, BRACKET, CLOSE, DIGIT_ZERO, ESC, ESCAPE, FINAL_M, OPEN, SPACE,
};
use crate::composer::{compose, get_ansi_code_for_color_string};
use crate::error::AnsiError;
use crate::laws::encoding::lemma_output_is_utf8;
use crate::laws::scanning::lemma_plain_text_is_unchanged;
use vstd::prelude::*;
use vstd::utf8::valid_utf8;

verus! {

/// `ESC [ 0 m`, which switches every style off.
pub open spec fn reset_sequence() -> Seq<u8> {
    seq![ESC, BRACKET, DIGIT_ZERO, FINAL_M]
}

/// `head` in front of what `tail` produced. A failure stays a failure.
pub open spec fn prepend(head: Seq<u8>, tail: Result<Seq<u8>, AnsiError>) -> Result<
    Seq<u8>,
    AnsiError,
> {
    match tail {
        Ok(bytes) => Ok(head + bytes),
        Err(e) => Err(e),
    }
}

/// The output for the part of `text` that starts at `pos`.
///
/// - `{` takes the bytes up to the next space, or up to the end of the text
///   where no space follows, as a style specifier, and stands for its escape
///   sequence. The space is consumed and not copied.
/// - `}` stands for the reset sequence, whether or not a span is open.
/// - `$$` stands for `$`, and `${` for `{`. A `$` before anything else, or at
///   the end, is an error.
/// - Any other byte stands for itself.
///
/// The first construct that fails, from the left, decides the error.
pub open spec fn scan_from(text: Seq<u8>, pos: int) -> Result<Seq<u8>, AnsiError>
    decreases text.len() - pos,
{
    if pos < 0 || pos >= text.len() {
        Ok(Seq::empty())
    } else if text[pos] == OPEN {
        let end = pos + 1 + run_length(text, SPACE, pos + 1);
        match compose(text.subrange(pos + 1, end)) {
            Some(sequence) => if end < text.len() {
                prepend(sequence, scan_from(text, end + 1))
            } else {
                Ok(sequence)
            },
            None => Err(AnsiError::UnknownStyleToken),
        }
    } else if text[pos] == CLOSE {
        prepend(reset_sequence(), scan_from(text, pos + 1))
    } else if text[pos] == ESCAPE {
        if pos + 1 < text.len() && (text[pos + 1] == ESCAPE || text[pos + 1] == OPEN) {
            prepend(seq![text[pos + 1]], scan_from(text, pos + 2))
        } else {
            Err(AnsiError::UnterminatedEscape)
        }
    } else {
        prepend(seq![text[pos]], scan_from(text, pos + 1))
    }
}

/// Whether `byte` is one of the three bytes that the markup gives a
/// meaning to: `{`, `}` and `$`.
pub open spec fn is_control(byte: u8) -> bool {
    byte == OPEN || byte == CLOSE || byte == ESCAPE
}

/// Whether `text` holds no markup at all.
pub open spec fn is_plain(text: Seq<u8>) -> bool {
    forall|i: int| 0 <= i < text.len() ==> !is_control(#[trigger] text[i])
}

/// The output for `text`, or the reason why it has none.
pub open spec fn scan(text: Seq<u8>) -> Result<Seq<u8>, AnsiError> {
    scan_from(text, 0)
}

/// Where the scanner stands between two bytes.
#[derive(Clone, Copy, Debug, PartialEq, Eq, Structural)]
pub enum ScanState {
    /// Outside any construct: the next byte is copied or starts a construct.
    Normal,
    /// After `{`: the next byte belongs to the style specifier, or is the
    /// space that ends it.
    CapturingSpecifier,
    /// After `$`: the next byte must be `$` or `{`.
    AfterEscape,
}

/// A scanner as a mathematical value.
pub struct ScannerView {
    /// The state between the last byte taken and the next.
    pub state: ScanState,
    /// The bytes of the style specifier taken so far; empty unless the
    /// state is `CapturingSpecifier`.
    pub specifier: Seq<u8>,
    /// Everything emitted so far.
    pub output: Seq<u8>,
}

impl ScannerView {
    /// The scanner before the first byte.
    pub open spec fn initial() -> ScannerView {
        ScannerView { state: ScanState::Normal, specifier: Seq::empty(), output: Seq::empty() }
    }

    /// The scanner after it has taken `byte`, or the error that `byte`
    /// causes.
    pub open spec fn step(self, byte: u8) -> Result<ScannerView, AnsiError> {
        match self.state {
            ScanState::Normal => if byte == OPEN {
                Ok(
                    ScannerView {
                        state: ScanState::CapturingSpecifier,
                        specifier: Seq::empty(),
                        output: self.output,
                    },
                )
            } else if byte == CLOSE {
                Ok(
                    ScannerView {
                        state: ScanState::Normal,
                        specifier: Seq::empty(),
                        output: self.output + reset_sequence(),
                    },
                )
            } else if byte == ESCAPE {
                Ok(
                    ScannerView {
                        state: ScanState::AfterEscape,
                        specifier: Seq::empty(),
                        output: self.output,
                    },
                )
            } else {
                Ok(
                    ScannerView {
                        state: ScanState::Normal,
                        specifier: Seq::empty(),
                        output: self.output.push(byte),
                    },
                )
            },
            ScanState::AfterEscape => if byte == ESCAPE || byte == OPEN {
                Ok(
                    ScannerView {
                        state: ScanState::Normal,
                        specifier: Seq::empty(),
                        output: self.output.push(byte),
                    },
                )
            } else {
                Err(AnsiError::UnterminatedEscape)
            },
            ScanState::CapturingSpecifier => if byte == SPACE {
                match compose(self.specifier) {
                    Some(sequence) => Ok(
                        ScannerView {
                            state: ScanState::Normal,
                            specifier: Seq::empty(),
                            output: self.output + sequence,
                        },
                    ),
                    None => Err(AnsiError::UnknownStyleToken),
                }
            } else {
                Ok(
                    ScannerView {
                        state: ScanState::CapturingSpecifier,
                        specifier: self.specifier.push(byte),
                        output: self.output,
                    },
                )
            },
        }
    }

    /// The scanner after it has taken the bytes of `text` from `pos` on, or
    /// the first error on the way.
    pub open spec fn run(self, text: Seq<u8>, pos: int) -> Result<ScannerView, AnsiError>
        decreases text.len() - pos,
    {
        if pos < 0 || pos >= text.len() {
            Ok(self)
        } else {
            match self.step(text[pos]) {
                Ok(next) => next.run(text, pos + 1),
                Err(e) => Err(e),
            }
        }
    }

    /// What the scanner hands out when the text ends here. A specifier
    /// that is still open ends with the text; an escape that is still open
    /// is an error.
    pub open spec fn finish(self) -> Result<Seq<u8>, AnsiError> {
        match self.state {
            ScanState::Normal => Ok(self.output),
            ScanState::AfterEscape => Err(AnsiError::UnterminatedEscape),
            ScanState::CapturingSpecifier => match compose(self.specifier) {
                Some(sequence) => Ok(self.output + sequence),
                None => Err(AnsiError::UnknownStyleToken),
            },
        }
    }
}

/// What the machine makes of `text`: every byte taken in turn, then the end.
pub open spec fn machine_output(text: Seq<u8>) -> Result<Seq<u8>, AnsiError> {
    match ScannerView::initial().run(text, 0) {
        Ok(last) => last.finish(),
        Err(e) => Err(e),
    }
}

/// The position of the construct that the scanner is in the middle of,
/// when it stands before the byte at `pos`.
spec fn construct_start(s: ScannerView, pos: int) -> int {
    match s.state {
        ScanState::Normal => pos,
        ScanState::AfterEscape => pos - 1,
        ScanState::CapturingSpecifier => pos - 1 - s.specifier.len(),
    }
}

/// The scanner `s`, standing before the byte at `pos`, agrees with the
/// reading of `text` by [`scan`]: what it has emitted and what is still to
/// be read from the start of its current construct make up `scan(text)`.
spec fn keeps_pace(s: ScannerView, text: Seq<u8>, pos: int) -> bool {
    let start = construct_start(s, pos);
    &&& 0 <= start <= pos <= text.len()
    &&& scan(text) == prepend(s.output, scan_from(text, start))
    &&& match s.state {
        ScanState::Normal => true,
        ScanState::AfterEscape => text[start] == ESCAPE,
        ScanState::CapturingSpecifier => {
            &&& text[start] == OPEN
            &&& text.subrange(start + 1, pos) == s.specifier
            &&& forall|k: int| start < k < pos ==> text[k] != SPACE
        },
    }
}

/// Two pieces put in front one after the other are their concatenation put
/// in front.
pub proof fn lemma_prepend_twice(a: Seq<u8>, b: Seq<u8>, tail: Result<Seq<u8>, AnsiError>)
    ensures
        prepend(a, prepend(b, tail)) == prepend(a + b, tail),
{
    if let Ok(bytes) = tail {
        assert(a + (b + bytes) =~= (a + b) + bytes);
    }
}

proof fn lemma_step_keeps_pace(s: ScannerView, text: Seq<u8>, pos: int)
    requires
        keeps_pace(s, text, pos),
        pos < text.len(),
    ensures
        match s.step(text[pos]) {
            Ok(next) => keeps_pace(next, text, pos + 1),
            Err(e) => scan(text) == Err::<Seq<u8>, AnsiError>(e),
        },
{
    let byte = text[pos];
    let start = construct_start(s, pos);
    match s.state {
        ScanState::Normal => {
            if byte == OPEN {
                assert(text.subrange(pos + 1, pos + 1) =~= Seq::<u8>::empty());
            } else if byte == CLOSE {
                lemma_prepend_twice(s.output, reset_sequence(), scan_from(text, pos + 1));
            } else if byte == ESCAPE {
            } else {
                lemma_prepend_twice(s.output, seq![byte], scan_from(text, pos + 1));
                assert(s.output + seq![byte] =~= s.output.push(byte));
            }
        },
        ScanState::AfterEscape => {
            if byte == ESCAPE || byte == OPEN {
                lemma_prepend_twice(s.output, seq![byte], scan_from(text, pos + 1));
                assert(s.output + seq![byte] =~= s.output.push(byte));
            }
        },
        ScanState::CapturingSpecifier => {
            if byte == SPACE {
                lemma_run_length_is(text, SPACE, start + 1, (pos - start - 1) as nat);
                if let Some(sequence) = compose(s.specifier) {
                    lemma_prepend_twice(s.output, sequence, scan_from(text, pos + 1));
                }
            } else {
                assert(text.subrange(start + 1, pos + 1) =~= s.specifier.push(byte));
            }
        },
    }
}

proof fn lemma_finish_keeps_pace(s: ScannerView, text: Seq<u8>)
    requires
        keeps_pace(s, text, text.len() as int),
    ensures
        s.finish() == scan(text),
{
    let start = construct_start(s, text.len() as int);
    match s.state {
        ScanState::Normal => {
            assert(s.output + Seq::<u8>::empty() =~= s.output);
        },
        ScanState::AfterEscape => {},
        ScanState::CapturingSpecifier => {
            lemma_run_length_is(text, SPACE, start + 1, (text.len() - start - 1) as nat);
        },
    }
}

proof fn lemma_run_keeps_pace(s: ScannerView, text: Seq<u8>, pos: int)
    requires
        keeps_pace(s, text, pos),
    ensures
        match s.run(text, pos) {
            Ok(last) => last.finish() == scan(text),
            Err(e) => scan(text) == Err::<Seq<u8>, AnsiError>(e),
        },
    decreases text.len() - pos,
{
    if pos < text.len() {
        lemma_step_keeps_pace(s, text, pos);
        if let Ok(next) = s.step(text[pos]) {
            lemma_run_keeps_pace(next, text, pos + 1);
        }
    } else {
        lemma_finish_keeps_pace(s, text);
    }
}

/// The machine and the grammar agree: taking the bytes of a text one by one,
/// as [`Scanner`] does, gives what [`scan`] says of the whole text, output or
/// error.
pub proof fn lemma_machine_matches_scan(text: Seq<u8>)
    ensures
        machine_output(text) == scan(text),
{
    let first = ScannerView::initial();
    assert(keeps_pace(first, text, 0)) by {
        if let Ok(bytes) = scan(text) {
            assert(Seq::<u8>::empty() + bytes =~= bytes);
        }
    }
    lemma_run_keeps_pace(first, text, 0);
}

/// The scanner: it is fed a text byte by byte and turns markup into escape
/// sequences as it goes.
pub struct Scanner {
    state: ScanState,
    specifier: Vec<u8>,
    output: Vec<u8>,
}

impl View for Scanner {
    type V = ScannerView;

    closed spec fn view(&self) -> ScannerView {
        ScannerView {
            state: self.state,
            specifier: if self.state == ScanState::CapturingSpecifier {
                self.specifier@
            } else {
                Seq::empty()
            },
            output: self.output@,
        }
    }
}

impl Scanner {
    /// A scanner that has taken no byte yet.
    pub fn new() -> (scanner: Scanner)
        ensures
            scanner@ == ScannerView::initial(),
    {
        Scanner { state: ScanState::Normal, specifier: Vec::new(), output: Vec::new() }
    }

    /// The state in which the scanner waits for the next byte.
    pub fn state(&self) -> (state: ScanState)
        ensures
            state == self@.state,
    {
        self.state
    }

    /// Takes the next byte of the text. On an error the scanner is left as
    /// it was.
    pub fn feed(&mut self, byte: u8) -> (result: Result<(), AnsiError>)
        ensures
            match result {
                Ok(()) => old(self)@.step(byte) == Ok::<ScannerView, AnsiError>(final(self)@),
                Err(e) => {
                    &&& old(self)@.step(byte) == Err::<ScannerView, AnsiError>(e)
                    &&& final(self)@ == old(self)@
                },
            },
    {
        match self.state {
            ScanState::Normal => {
                if byte == OPEN {
                    self.specifier.clear();
                    self.state = ScanState::CapturingSpecifier;
                } else if byte == CLOSE {
                    self.output.push(ESC);
                    self.output.push(BRACKET);
                    self.output.push(DIGIT_ZERO);
                    self.output.push(FINAL_M);
                    assert(self.output@ =~= old(self).output@ + reset_sequence());
                } else if byte == ESCAPE {
                    self.state = ScanState::AfterEscape;
                } else {
                    self.output.push(byte);
                }
                Ok(())
            },
            ScanState::AfterEscape => {
                if byte == ESCAPE || byte == OPEN {
                    self.output.push(byte);
                    self.state = ScanState::Normal;
                    Ok(())
                } else {
                    Err(AnsiError::UnterminatedEscape)
                }
            },
            ScanState::CapturingSpecifier => {
                if byte == SPACE {
                    match get_ansi_code_for_color_string(self.specifier.as_slice()) {
                        Some(mut sequence) => {
                            self.output.append(&mut sequence);
                            self.state = ScanState::Normal;
                            Ok(())
                        },
                        None => Err(AnsiError::UnknownStyleToken),
                    }
                } else {
                    self.specifier.push(byte);
                    Ok(())
                }
            },
        }
    }

    /// Ends the text and hands out the output.
    pub fn finish(self) -> (result: Result<Vec<u8>, AnsiError>)
        ensures
            match result {
                Ok(bytes) => self@.finish() == Ok::<Seq<u8>, AnsiError>(bytes@),
                Err(e) => self@.finish() == Err::<Seq<u8>, AnsiError>(e),
            },
    {
        let Scanner { state, specifier, output } = self;
        let mut output = output;
        match state {
            ScanState::Normal => Ok(output),
            ScanState::AfterEscape => Err(AnsiError::UnterminatedEscape),
            ScanState::CapturingSpecifier => {
                match get_ansi_code_for_color_string(specifier.as_slice()) {
                    Some(mut sequence) => {
                        output.append(&mut sequence);
                        Ok(output)
                    },
                    None => Err(AnsiError::UnknownStyleToken),
                }
            },
        }
    }
}

/// Transforms `text`: style spans become escape sequences, `}` becomes the
/// reset sequence, `$$` and `${` become `$` and `{`, and every other byte is
/// copied. The text is read once, from left to right; on an error nothing
/// is handed back but the error. A text without `{`, `}` and `$` comes back
/// as it is. The output for a text in UTF-8 is in UTF-8.
pub fn scan_markup(text: &[u8]) -> (result: Result<Vec<u8>, AnsiError>)
    ensures
        match result {
            Ok(bytes) => scan(text@) == Ok::<Seq<u8>, AnsiError>(bytes@),
            Err(e) => scan(text@) == Err::<Seq<u8>, AnsiError>(e),
        },
        is_plain(text@) ==> result is Ok && result.unwrap()@ == text@,
        valid_utf8(text@) ==> (result matches Ok(bytes) ==> valid_utf8(bytes@)),
{
    let mut scanner = Scanner::new();
    let mut pos: usize = 0;
    proof {
        lemma_machine_matches_scan(text@);
        if is_plain(text@) {
            lemma_plain_text_is_unchanged(text@);
        }
        if valid_utf8(text@) {
            lemma_output_is_utf8(text@);
        }
    }
    while pos < text.len()
        invariant
            pos <= text.len(),
            ScannerView::initial().run(text@, 0) == scanner@.run(text@, pos as int),
            machine_output(text@) == scan(text@),
            is_plain(text@) ==> scan(text@) == Ok::<Seq<u8>, AnsiError>(text@),
            valid_utf8(text@) ==> (scan(text@) matches Ok(output) ==> valid_utf8(output)),
        decreases text.len() - pos,
    {
        match scanner.feed(text[pos]) {
            Ok(()) => {},
            Err(e) => {
                return Err(e);
            },
        }
        pos += 1;
    }
    scanner.finish()
}

} // verus!
