use ansi_markup::composer::push_decimal;
use ansi_markup::get_ansi_code_for_color_string;

#[test]
fn one_name_gives_one_code() {
    assert_eq!(get_ansi_code_for_color_string(b"green"), Some(b"\x1b[32m".to_vec()));
    assert_eq!(get_ansi_code_for_color_string(b"bold"), Some(b"\x1b[1m".to_vec()));
    assert_eq!(get_ansi_code_for_color_string(b"bg_bright_white"), Some(b"\x1b[107m".to_vec()));
}

#[test]
fn several_names_are_joined_by_semicolons() {
    assert_eq!(get_ansi_code_for_color_string(b"bold.red"), Some(b"\x1b[1;31m".to_vec()));
    assert_eq!(
        get_ansi_code_for_color_string(b"bold.underline.bg_gray"),
        Some(b"\x1b[1;4;100m".to_vec())
    );
}

#[test]
fn codes_keep_the_order_of_the_names() {
    assert_eq!(get_ansi_code_for_color_string(b"red.bold"), Some(b"\x1b[31;1m".to_vec()));
    assert_eq!(get_ansi_code_for_color_string(b"dim.dim"), Some(b"\x1b[2;2m".to_vec()));
}

#[test]
fn one_unknown_name_spoils_the_specifier() {
    assert_eq!(get_ansi_code_for_color_string(b"unknown"), None);
    assert_eq!(get_ansi_code_for_color_string(b"unknown.red"), None);
    assert_eq!(get_ansi_code_for_color_string(b"bold.unknown"), None);
    assert_eq!(get_ansi_code_for_color_string(b"bold.unknown.red"), None);
}

#[test]
fn empty_names_are_unknown() {
    assert_eq!(get_ansi_code_for_color_string(b""), None);
    assert_eq!(get_ansi_code_for_color_string(b"."), None);
    assert_eq!(get_ansi_code_for_color_string(b"bold."), None);
    assert_eq!(get_ansi_code_for_color_string(b".bold"), None);
    assert_eq!(get_ansi_code_for_color_string(b"bold..red"), None);
}

#[test]
fn only_the_dot_separates_names() {
    assert_eq!(get_ansi_code_for_color_string(b"bold,red"), None);
    assert_eq!(get_ansi_code_for_color_string(b"bold;red"), None);
    assert_eq!(get_ansi_code_for_color_string(b"bold red"), None);
}

#[test]
fn decimal_has_no_leading_zeros() {
    let mut out = Vec::new();
    push_decimal(&mut out, 0);
    assert_eq!(out, b"0".to_vec());
    let mut out = Vec::new();
    push_decimal(&mut out, 9);
    assert_eq!(out, b"9".to_vec());
    let mut out = Vec::new();
    push_decimal(&mut out, 10);
    assert_eq!(out, b"10".to_vec());
    let mut out = Vec::new();
    push_decimal(&mut out, 99);
    assert_eq!(out, b"99".to_vec());
    let mut out = Vec::new();
    push_decimal(&mut out, 100);
    assert_eq!(out, b"100".to_vec());
    let mut out = Vec::new();
    push_decimal(&mut out, 107);
    assert_eq!(out, b"107".to_vec());
    let mut out = Vec::new();
    push_decimal(&mut out, 255);
    assert_eq!(out, b"255".to_vec());
}

#[test]
fn decimal_is_appended_to_what_is_there() {
    let mut out = b"\x1b[1;".to_vec();
    push_decimal(&mut out, 31);
    assert_eq!(out, b"\x1b[1;31".to_vec());
}
