use ansi_markup::{scan_markup, AnsiError, ScanState, Scanner};

#[test]
fn plain_text_is_unchanged() {
    assert_eq!(scan_markup(b"hello world"), Ok(b"hello world".to_vec()));
    assert_eq!(scan_markup(b"a.b;c[d]e\"f\\n"), Ok(b"a.b;c[d]e\"f\\n".to_vec()));
    assert_eq!(scan_markup(b" "), Ok(b" ".to_vec()));
}

#[test]
fn empty_text_gives_empty_output() {
    assert_eq!(scan_markup(b""), Ok(Vec::new()));
}

#[test]
fn bytes_outside_ascii_are_copied() {
    let text = "gr\u{fc}n \u{2713} \u{1f600}".as_bytes();
    assert_eq!(scan_markup(text), Ok(text.to_vec()));
    assert_eq!(scan_markup(&[0xff, 0x00, 0x80]), Ok(vec![0xff, 0x00, 0x80]));
}

#[test]
fn text_in_utf8_stays_in_utf8() {
    let text = "{bold.red \u{26a0} Gr\u{fc}\u{df}e}, {green \u{4f60}\u{597d}} $$ ${ \u{1f600}}";
    let output = scan_markup(text.as_bytes()).unwrap();
    assert_eq!(
        String::from_utf8(output),
        Ok(String::from(
            "\u{1b}[1;31m\u{26a0} Gr\u{fc}\u{df}e\u{1b}[0m, \u{1b}[32m\u{4f60}\u{597d}\u{1b}[0m $ { \u{1f600}\u{1b}[0m"
        ))
    );
}

#[test]
fn characters_outside_ascii_in_a_specifier_are_unknown() {
    assert_eq!(scan_markup("{gr\u{fc}n x}".as_bytes()), Err(AnsiError::UnknownStyleToken));
}

#[test]
fn green_span() {
    assert_eq!(scan_markup(b"{green Done}"), Ok(b"\x1b[32mDone\x1b[0m".to_vec()));
}

#[test]
fn bold_red_span() {
    assert_eq!(scan_markup(b"{bold.red Alert}"), Ok(b"\x1b[1;31mAlert\x1b[0m".to_vec()));
}

#[test]
fn escapes_give_literal_symbols() {
    assert_eq!(scan_markup(b"a${b c$$d"), Ok(b"a{b c$d".to_vec()));
    assert_eq!(scan_markup(b"$$"), Ok(b"$".to_vec()));
    assert_eq!(scan_markup(b"${"), Ok(b"{".to_vec()));
    assert_eq!(scan_markup(b"$${green x}"), Ok(b"$\x1b[32mx\x1b[0m".to_vec()));
}

#[test]
fn unknown_style_fails() {
    assert_eq!(scan_markup(b"{unknown x}"), Err(AnsiError::UnknownStyleToken));
    assert_eq!(scan_markup(b"ok {bold.nope x}"), Err(AnsiError::UnknownStyleToken));
    assert_eq!(scan_markup(b"{ x}"), Err(AnsiError::UnknownStyleToken));
}

#[test]
fn escape_at_the_end_fails() {
    assert_eq!(scan_markup(b"abc$"), Err(AnsiError::UnterminatedEscape));
    assert_eq!(scan_markup(b"$"), Err(AnsiError::UnterminatedEscape));
}

#[test]
fn escape_before_another_byte_fails() {
    assert_eq!(scan_markup(b"$x"), Err(AnsiError::UnterminatedEscape));
    assert_eq!(scan_markup(b"$}"), Err(AnsiError::UnterminatedEscape));
    assert_eq!(scan_markup(b"$ "), Err(AnsiError::UnterminatedEscape));
    assert_eq!(scan_markup(b"price: $5"), Err(AnsiError::UnterminatedEscape));
}

#[test]
fn unmatched_close_still_resets() {
    assert_eq!(scan_markup(b"x}"), Ok(b"x\x1b[0m".to_vec()));
    assert_eq!(scan_markup(b"}"), Ok(b"\x1b[0m".to_vec()));
    assert_eq!(scan_markup(b"}}"), Ok(b"\x1b[0m\x1b[0m".to_vec()));
}

#[test]
fn styling_is_flat() {
    assert_eq!(
        scan_markup(b"{bold a{red b}c}"),
        Ok(b"\x1b[1ma\x1b[31mb\x1b[0mc\x1b[0m".to_vec())
    );
}

#[test]
fn only_the_first_space_ends_the_specifier() {
    assert_eq!(scan_markup(b"{red  x}"), Ok(b"\x1b[31m x\x1b[0m".to_vec()));
    assert_eq!(scan_markup(b"{red }"), Ok(b"\x1b[31m\x1b[0m".to_vec()));
}

#[test]
fn specifier_without_space_runs_to_the_end() {
    assert_eq!(scan_markup(b"a{green"), Ok(b"a\x1b[32m".to_vec()));
    assert_eq!(scan_markup(b"{red}"), Err(AnsiError::UnknownStyleToken));
    assert_eq!(scan_markup(b"{"), Err(AnsiError::UnknownStyleToken));
    assert_eq!(scan_markup(b"{red\nx}"), Err(AnsiError::UnknownStyleToken));
}

#[test]
fn control_bytes_inside_a_specifier_belong_to_it() {
    assert_eq!(scan_markup(b"{re$$d x}"), Err(AnsiError::UnknownStyleToken));
    assert_eq!(scan_markup(b"{{red x}"), Err(AnsiError::UnknownStyleToken));
}

#[test]
fn the_first_fault_from_the_left_decides() {
    assert_eq!(scan_markup(b"{nope x} $"), Err(AnsiError::UnknownStyleToken));
    assert_eq!(scan_markup(b"$x {nope y}"), Err(AnsiError::UnterminatedEscape));
    assert_eq!(scan_markup(b"{green ok} $"), Err(AnsiError::UnterminatedEscape));
}

#[test]
fn a_second_pass_is_not_a_no_op() {
    let once = scan_markup(b"$$$$").unwrap();
    assert_eq!(once, b"$$".to_vec());
    let twice = scan_markup(&once).unwrap();
    assert_eq!(twice, b"$".to_vec());
    assert_ne!(once, twice);
    assert_eq!(scan_markup(&twice), Err(AnsiError::UnterminatedEscape));
}

#[test]
fn a_second_pass_reads_unescaped_symbols_as_markup() {
    let once = scan_markup(b"${green x}").unwrap();
    assert_eq!(once, b"{green x\x1b[0m".to_vec());
    let twice = scan_markup(&once).unwrap();
    assert_eq!(twice, b"\x1b[32mx\x1b[0m".to_vec());
    let once = scan_markup(b"100$$ {bold off}").unwrap();
    assert_eq!(once, b"100$ \x1b[1moff\x1b[0m".to_vec());
    assert_eq!(scan_markup(&once), Err(AnsiError::UnterminatedEscape));
}

#[test]
fn a_second_pass_keeps_output_that_came_without_escapes() {
    let once = scan_markup(b"{bold.red Alert}: {green ok} }").unwrap();
    assert_eq!(once, b"\x1b[1;31mAlert\x1b[0m: \x1b[32mok\x1b[0m \x1b[0m".to_vec());
    assert_eq!(scan_markup(&once), Ok(once));
}

#[test]
fn output_of_pieces_is_the_pieces_output() {
    let a = scan_markup(b"{bold a} ").unwrap();
    let b = scan_markup(b"{red b}}").unwrap();
    let mut joined = a.clone();
    joined.extend_from_slice(&b);
    assert_eq!(scan_markup(b"{bold a} {red b}}"), Ok(joined));
}

#[test]
fn new_scanner_is_normal() {
    let scanner = Scanner::new();
    assert_eq!(scanner.state(), ScanState::Normal);
    assert_eq!(scanner.finish(), Ok(Vec::new()));
}

#[test]
fn scanner_walks_through_its_states() {
    let mut scanner = Scanner::new();
    assert_eq!(scanner.feed(b'a'), Ok(()));
    assert_eq!(scanner.state(), ScanState::Normal);
    assert_eq!(scanner.feed(b'$'), Ok(()));
    assert_eq!(scanner.state(), ScanState::AfterEscape);
    assert_eq!(scanner.feed(b'{'), Ok(()));
    assert_eq!(scanner.state(), ScanState::Normal);
    assert_eq!(scanner.feed(b'{'), Ok(()));
    assert_eq!(scanner.state(), ScanState::CapturingSpecifier);
    assert_eq!(scanner.feed(b'd'), Ok(()));
    assert_eq!(scanner.feed(b'i'), Ok(()));
    assert_eq!(scanner.feed(b'm'), Ok(()));
    assert_eq!(scanner.state(), ScanState::CapturingSpecifier);
    assert_eq!(scanner.feed(b' '), Ok(()));
    assert_eq!(scanner.state(), ScanState::Normal);
    assert_eq!(scanner.feed(b'}'), Ok(()));
    assert_eq!(scanner.state(), ScanState::Normal);
    assert_eq!(scanner.finish(), Ok(b"a{\x1b[2m\x1b[0m".to_vec()));
}

#[test]
fn scanner_is_unchanged_by_a_refused_byte() {
    let mut scanner = Scanner::new();
    assert_eq!(scanner.feed(b'$'), Ok(()));
    assert_eq!(scanner.feed(b'x'), Err(AnsiError::UnterminatedEscape));
    assert_eq!(scanner.state(), ScanState::AfterEscape);
    assert_eq!(scanner.feed(b'$'), Ok(()));
    assert_eq!(scanner.finish(), Ok(b"$".to_vec()));

    let mut scanner = Scanner::new();
    assert_eq!(scanner.feed(b'{'), Ok(()));
    assert_eq!(scanner.feed(b'r'), Ok(()));
    assert_eq!(scanner.feed(b' '), Err(AnsiError::UnknownStyleToken));
    assert_eq!(scanner.state(), ScanState::CapturingSpecifier);
    assert_eq!(scanner.feed(b'e'), Ok(()));
    assert_eq!(scanner.feed(b'd'), Ok(()));
    assert_eq!(scanner.feed(b' '), Ok(()));
    assert_eq!(scanner.finish(), Ok(b"\x1b[31m".to_vec()));
}

#[test]
fn scanner_finish_depends_on_the_state() {
    let mut scanner = Scanner::new();
    assert_eq!(scanner.feed(b'$'), Ok(()));
    assert_eq!(scanner.finish(), Err(AnsiError::UnterminatedEscape));

    let mut scanner = Scanner::new();
    assert_eq!(scanner.feed(b'{'), Ok(()));
    assert_eq!(scanner.finish(), Err(AnsiError::UnknownStyleToken));

    let mut scanner = Scanner::new();
    for byte in b"{bold.blue" {
        assert_eq!(scanner.feed(*byte), Ok(()));
    }
    assert_eq!(scanner.finish(), Ok(b"\x1b[1;34m".to_vec()));
}

#[test]
fn a_new_specifier_starts_empty() {
    let mut scanner = Scanner::new();
    for byte in b"{red a}{" {
        assert_eq!(scanner.feed(*byte), Ok(()));
    }
    for byte in b"dim b" {
        assert_eq!(scanner.feed(*byte), Ok(()));
    }
    assert_eq!(scanner.finish(), Ok(b"\x1b[31ma\x1b[0m\x1b[2mb".to_vec()));
}
