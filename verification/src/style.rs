//! The style table: the fixed vocabulary of style names and the SGR code
//! that each of them stands for.
//!
//! | names | codes |
//! |---|---|
//! | `bold`, `dim`, `italic`, `underline` | 1 to 4 |
//! | `inverse`, `hidden`, `strikethrough` | 7 to 9 |
//! | `black`, `red`, `green`, `yellow`, `blue`, `magenta`, `cyan`, `white` | 30 to 37 |
//! | `gray`, then `bright_red` to `bright_white` | 90 to 97 |
//! | `bg_black` to `bg_white` | 40 to 47 |
//! | `bg_gray`, then `bg_bright_red` to `bg_bright_white` | 100 to 107 |

use crate::bytes::bytes_eq;
use vstd::prelude::*;
use vstd::string::StringSliceAdditionalSpecFns;

verus! {

/// Whether `token` is `name`, byte for byte.
pub open spec fn named(token: Seq<u8>, name: &str) -> bool {
    token == name.spec_bytes()
}

/// The code of the style that `token` names, or `None` where the table has
/// no such name. Names are matched exactly: case matters, and nothing is
/// trimmed.
#[verifier::opaque]
pub open spec fn style_code(token: Seq<u8>) -> Option<u8> {
    if named(token, "bold") {
        Some(1u8)
    } else if named(token, "dim") {
        Some(2u8)
    } else if named(token, "italic") {
        Some(3u8)
    } else if named(token, "underline") {
        Some(4u8)
    } else if named(token, "inverse") {
        Some(7u8)
    } else if named(token, "hidden") {
        Some(8u8)
    } else if named(token, "strikethrough") {
        Some(9u8)
    } else if named(token, "black") {
        Some(30u8)
    } else if named(token, "red") {
        Some(31u8)
    } else if named(token, "green") {
        Some(32u8)
    } else if named(token, "yellow") {
        Some(33u8)
    } else if named(token, "blue") {
        Some(34u8)
    } else if named(token, "magenta") {
        Some(35u8)
    } else if named(token, "cyan") {
        Some(36u8)
    } else if named(token, "white") {
        Some(37u8)
    } else if named(token, "gray") {
        Some(90u8)
    } else if named(token, "bright_red") {
        Some(91u8)
    } else if named(token, "bright_green") {
        Some(92u8)
    } else if named(token, "bright_yellow") {
        Some(93u8)
    } else if named(token, "bright_blue") {
        Some(94u8)
    } else if named(token, "bright_magenta") {
        Some(95u8)
    } else if named(token, "bright_cyan") {
        Some(96u8)
    } else if named(token, "bright_white") {
        Some(97u8)
    } else if named(token, "bg_black") {
        Some(40u8)
    } else if named(token, "bg_red") {
        Some(41u8)
    } else if named(token, "bg_green") {
        Some(42u8)
    } else if named(token, "bg_yellow") {
        Some(43u8)
    } else if named(token, "bg_blue") {
        Some(44u8)
    } else if named(token, "bg_magenta") {
        Some(45u8)
    } else if named(token, "bg_cyan") {
        Some(46u8)
    } else if named(token, "bg_white") {
        Some(47u8)
    } else if named(token, "bg_gray") {
        Some(100u8)
    } else if named(token, "bg_bright_red") {
        Some(101u8)
    } else if named(token, "bg_bright_green") {
        Some(102u8)
    } else if named(token, "bg_bright_yellow") {
        Some(103u8)
    } else if named(token, "bg_bright_blue") {
        Some(104u8)
    } else if named(token, "bg_bright_magenta") {
        Some(105u8)
    } else if named(token, "bg_bright_cyan") {
        Some(106u8)
    } else if named(token, "bg_bright_white") {
        Some(107u8)
    } else {
        None
    }
}

fn is_named(token: &[u8], name: &str) -> (same: bool)
    ensures
        same == named(token@, name),
{
    bytes_eq(token, name.as_bytes())
}

/// Looks `token` up in the style table.
pub fn lookup_style(token: &[u8]) -> (code: Option<u8>)
    ensures
        code == style_code(token@),
{
    reveal(style_code);
    if is_named(token, "bold") {
        Some(1)
    } else if is_named(token, "dim") {
        Some(2)
    } else if is_named(token, "italic") {
        Some(3)
    } else if is_named(token, "underline") {
        Some(4)
    } else if is_named(token, "inverse") {
        Some(7)
    } else if is_named(token, "hidden") {
        Some(8)
    } else if is_named(token, "strikethrough") {
        Some(9)
    } else if is_named(token, "black") {
        Some(30)
    } else if is_named(token, "red") {
        Some(31)
    } else if is_named(token, "green") {
        Some(32)
    } else if is_named(token, "yellow") {
        Some(33)
    } else if is_named(token, "blue") {
        Some(34)
    } else if is_named(token, "magenta") {
        Some(35)
    } else if is_named(token, "cyan") {
        Some(36)
    } else if is_named(token, "white") {
        Some(37)
    } else if is_named(token, "gray") {
        Some(90)
    } else if is_named(token, "bright_red") {
        Some(91)
    } else if is_named(token, "bright_green") {
        Some(92)
    } else if is_named(token, "bright_yellow") {
        Some(93)
    } else if is_named(token, "bright_blue") {
        Some(94)
    } else if is_named(token, "bright_magenta") {
        Some(95)
    } else if is_named(token, "bright_cyan") {
        Some(96)
    } else if is_named(token, "bright_white") {
        Some(97)
    } else if is_named(token, "bg_black") {
        Some(40)
    } else if is_named(token, "bg_red") {
        Some(41)
    } else if is_named(token, "bg_green") {
        Some(42)
    } else if is_named(token, "bg_yellow") {
        Some(43)
    } else if is_named(token, "bg_blue") {
        Some(44)
    } else if is_named(token, "bg_magenta") {
        Some(45)
    } else if is_named(token, "bg_cyan") {
        Some(46)
    } else if is_named(token, "bg_white") {
        Some(47)
    } else if is_named(token, "bg_gray") {
        Some(100)
    } else if is_named(token, "bg_bright_red") {
        Some(101)
    } else if is_named(token, "bg_bright_green") {
        Some(102)
    } else if is_named(token, "bg_bright_yellow") {
        Some(103)
    } else if is_named(token, "bg_bright_blue") {
        Some(104)
    } else if is_named(token, "bg_bright_magenta") {
        Some(105)
    } else if is_named(token, "bg_bright_cyan") {
        Some(106)
    } else if is_named(token, "bg_bright_white") {
        Some(107)
    } else {
        None
    }
}

} // verus!
