//! The closed set of accent color names, their validation, and the fixed
//! table mapping each name to its color value.

use vstd::prelude::*;
use crate::strutil::str_eq;

verus! {

/// The seven accepted accent color names.
pub open spec fn is_valid_color(s: Seq<char>) -> bool {
    ||| s == "red"@
    ||| s == "orange"@
    ||| s == "yellow"@
    ||| s == "green"@
    ||| s == "blue"@
    ||| s == "indigo"@
    ||| s == "violet"@
}

/// The message returned when a color name is rejected: it names the offending
/// value and enumerates all seven accepted names.
pub open spec fn invalid_color_msg(c: Seq<char>) -> Seq<char> {
    "Invalid color '"@ + c + "'. Valid colors: red, orange, yellow, green, blue, indigo, violet"@
}

/// Accepts exactly the seven valid color names; rejects everything else with
/// a message listing the valid options.
pub fn validate_color(color: &str) -> (r: Result<(), String>)
    ensures
        r is Ok <==> is_valid_color(color@),
        r matches Err(m) ==> m@ == invalid_color_msg(color@),
{
    if str_eq(color, "red") || str_eq(color, "orange") || str_eq(color, "yellow")
        || str_eq(color, "green") || str_eq(color, "blue") || str_eq(color, "indigo")
        || str_eq(color, "violet") {
        Ok(())
    } else {
        let m = String::from_str("Invalid color '").concat(color).concat(
            "'. Valid colors: red, orange, yellow, green, blue, indigo, violet",
        );
        Err(m)
    }
}

/// The fixed color table: 8-bit red/green/blue components for each of the
/// seven names, and nothing for any other input.
pub open spec fn color_rgb_spec(s: Seq<char>) -> Option<(u8, u8, u8)> {
    if s == "red"@ {
        Some((0xe5u8, 0x3eu8, 0x3eu8))
    } else if s == "orange"@ {
        Some((0xedu8, 0x89u8, 0x36u8))
    } else if s == "yellow"@ {
        Some((0xecu8, 0xc9u8, 0x4bu8))
    } else if s == "green"@ {
        Some((0x38u8, 0xa1u8, 0x69u8))
    } else if s == "blue"@ {
        Some((0x31u8, 0x82u8, 0xceu8))
    } else if s == "indigo"@ {
        Some((0x5au8, 0x67u8, 0xd8u8))
    } else if s == "violet"@ {
        Some((0x9fu8, 0x7au8, 0xeau8))
    } else {
        None
    }
}

/// Look up the color value for a name. Returns a value for exactly the seven
/// valid names.
pub fn color_rgb(color: &str) -> (r: Option<(u8, u8, u8)>)
    ensures
        r == color_rgb_spec(color@),
        r is Some <==> is_valid_color(color@),
{
    if str_eq(color, "red") {
        Some((0xe5, 0x3e, 0x3e))
    } else if str_eq(color, "orange") {
        Some((0xed, 0x89, 0x36))
    } else if str_eq(color, "yellow") {
        Some((0xec, 0xc9, 0x4b))
    } else if str_eq(color, "green") {
        Some((0x38, 0xa1, 0x69))
    } else if str_eq(color, "blue") {
        Some((0x31, 0x82, 0xce))
    } else if str_eq(color, "indigo") {
        Some((0x5a, 0x67, 0xd8))
    } else if str_eq(color, "violet") {
        Some((0x9f, 0x7a, 0xea))
    } else {
        None
    }
}

/// The path of a color variant's bundled icon, relative to the resource
/// directory: the fixed convention the packaging step follows.
pub open spec fn icon_relative_path_spec(color: Seq<char>) -> Seq<char> {
    "icons/colors/"@ + color + "/128x128@2x.png"@
}

/// Build the relative path of the bundled icon for a color name.
pub fn icon_relative_path(color: &str) -> (r: String)
    ensures
        r@ == icon_relative_path_spec(color@),
{
    String::from_str("icons/colors/").concat(color).concat("/128x128@2x.png")
}

/// A name is accepted by `validate_color` exactly when `color_rgb_spec`
/// yields a value for it.
pub proof fn lemma_valid_color_iff_rgb(s: Seq<char>)
    ensures
        is_valid_color(s) <==> color_rgb_spec(s) is Some,
{
}

} // verus!
