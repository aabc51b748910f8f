use ansi_markup::lookup_style;

#[test]
fn text_attributes_have_their_codes() {
    assert_eq!(lookup_style(b"bold"), Some(1));
    assert_eq!(lookup_style(b"dim"), Some(2));
    assert_eq!(lookup_style(b"italic"), Some(3));
    assert_eq!(lookup_style(b"underline"), Some(4));
    assert_eq!(lookup_style(b"inverse"), Some(7));
    assert_eq!(lookup_style(b"hidden"), Some(8));
    assert_eq!(lookup_style(b"strikethrough"), Some(9));
}

#[test]
fn foreground_colours_have_their_codes() {
    assert_eq!(lookup_style(b"black"), Some(30));
    assert_eq!(lookup_style(b"red"), Some(31));
    assert_eq!(lookup_style(b"green"), Some(32));
    assert_eq!(lookup_style(b"yellow"), Some(33));
    assert_eq!(lookup_style(b"blue"), Some(34));
    assert_eq!(lookup_style(b"magenta"), Some(35));
    assert_eq!(lookup_style(b"cyan"), Some(36));
    assert_eq!(lookup_style(b"white"), Some(37));
    assert_eq!(lookup_style(b"gray"), Some(90));
}

#[test]
fn bright_foreground_colours_have_their_codes() {
    assert_eq!(lookup_style(b"bright_red"), Some(91));
    assert_eq!(lookup_style(b"bright_green"), Some(92));
    assert_eq!(lookup_style(b"bright_yellow"), Some(93));
    assert_eq!(lookup_style(b"bright_blue"), Some(94));
    assert_eq!(lookup_style(b"bright_magenta"), Some(95));
    assert_eq!(lookup_style(b"bright_cyan"), Some(96));
    assert_eq!(lookup_style(b"bright_white"), Some(97));
}

#[test]
fn background_colours_have_their_codes() {
    assert_eq!(lookup_style(b"bg_black"), Some(40));
    assert_eq!(lookup_style(b"bg_red"), Some(41));
    assert_eq!(lookup_style(b"bg_green"), Some(42));
    assert_eq!(lookup_style(b"bg_yellow"), Some(43));
    assert_eq!(lookup_style(b"bg_blue"), Some(44));
    assert_eq!(lookup_style(b"bg_magenta"), Some(45));
    assert_eq!(lookup_style(b"bg_cyan"), Some(46));
    assert_eq!(lookup_style(b"bg_white"), Some(47));
    assert_eq!(lookup_style(b"bg_gray"), Some(100));
}

#[test]
fn bright_background_colours_have_their_codes() {
    assert_eq!(lookup_style(b"bg_bright_red"), Some(101));
    assert_eq!(lookup_style(b"bg_bright_green"), Some(102));
    assert_eq!(lookup_style(b"bg_bright_yellow"), Some(103));
    assert_eq!(lookup_style(b"bg_bright_blue"), Some(104));
    assert_eq!(lookup_style(b"bg_bright_magenta"), Some(105));
    assert_eq!(lookup_style(b"bg_bright_cyan"), Some(106));
    assert_eq!(lookup_style(b"bg_bright_white"), Some(107));
}

#[test]
fn names_outside_the_table_are_unknown() {
    assert_eq!(lookup_style(b"unknown"), None);
    assert_eq!(lookup_style(b""), None);
    assert_eq!(lookup_style(b"bright_black"), None);
    assert_eq!(lookup_style(b"bg_bright_black"), None);
    assert_eq!(lookup_style(b"bright_gray"), None);
    assert_eq!(lookup_style(b"grey"), None);
    assert_eq!(lookup_style(b"31"), None);
}

#[test]
fn names_are_matched_exactly() {
    assert_eq!(lookup_style(b"Bold"), None);
    assert_eq!(lookup_style(b"RED"), None);
    assert_eq!(lookup_style(b" red"), None);
    assert_eq!(lookup_style(b"red "), None);
    assert_eq!(lookup_style(b"re"), None);
    assert_eq!(lookup_style(b"reds"), None);
    assert_eq!(lookup_style(b"bg-red"), None);
    assert_eq!(lookup_style(b"bold.red"), None);
}
