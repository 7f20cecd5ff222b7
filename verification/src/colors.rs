//! Terminal colours: the codes of the select-graphic-rendition escape
//! sequence, and text wrapped in such a sequence.

use vstd::prelude::*;
use vstd::string::*;
use crate::text::{replace_text, replaced, same_text};

verus! {

/// The code of a named colour; the code of black text for a name that is
/// not a colour. A colour is named by its hue, `bright_` before it for the
/// bright variant, and `_fg` or `_bg` behind it for text or background.
pub open spec fn color_code_of(name: Seq<char>) -> Seq<char> {
    if name == "black_fg"@ {
        "30"@
    } else if name == "red_fg"@ {
        "31"@
    } else if name == "green_fg"@ {
        "32"@
    } else if name == "yellow_fg"@ {
        "33"@
    } else if name == "blue_fg"@ {
        "34"@
    } else if name == "magenta_fg"@ {
        "35"@
    } else if name == "cyan_fg"@ {
        "36"@
    } else if name == "white_fg"@ {
        "37"@
    } else if name == "bright_black_fg"@ {
        "90"@
    } else if name == "bright_red_fg"@ {
        "91"@
    } else if name == "bright_green_fg"@ {
        "92"@
    } else if name == "bright_yellow_fg"@ {
        "93"@
    } else if name == "bright_blue_fg"@ {
        "94"@
    } else if name == "bright_magenta_fg"@ {
        "95"@
    } else if name == "bright_cyan_fg"@ {
        "96"@
    } else if name == "bright_white_fg"@ {
        "97"@
    } else if name == "black_bg"@ {
        "40"@
    } else if name == "red_bg"@ {
        "41"@
    } else if name == "green_bg"@ {
        "42"@
    } else if name == "yellow_bg"@ {
        "43"@
    } else if name == "blue_bg"@ {
        "44"@
    } else if name == "magenta_bg"@ {
        "45"@
    } else if name == "cyan_bg"@ {
        "46"@
    } else if name == "white_bg"@ {
        "47"@
    } else if name == "bright_black_bg"@ {
        "100"@
    } else if name == "bright_red_bg"@ {
        "101"@
    } else if name == "bright_green_bg"@ {
        "102"@
    } else if name == "bright_yellow_bg"@ {
        "103"@
    } else if name == "bright_blue_bg"@ {
        "104"@
    } else if name == "bright_magenta_bg"@ {
        "105"@
    } else if name == "bright_cyan_bg"@ {
        "106"@
    } else if name == "bright_white_bg"@ {
        "107"@
    } else {
        "30"@
    }
}

/// The code of a named rendition: `1` for `bold`, `0` for `normal` and for
/// every other name.
pub open spec fn sgr_code_of(name: Seq<char>) -> Seq<char> {
    if name == "normal"@ {
        "0"@
    } else if name == "bold"@ {
        "1"@
    } else {
        "0"@
    }
}

/// The code of the colour named `color`.
pub fn color_code(color: &str) -> (code: &'static str)
    ensures
        code@ == color_code_of(color@),
{
    if same_text(color, "black_fg") {
        "30"
    } else if same_text(color, "red_fg") {
        "31"
    } else if same_text(color, "green_fg") {
        "32"
    } else if same_text(color, "yellow_fg") {
        "33"
    } else if same_text(color, "blue_fg") {
        "34"
    } else if same_text(color, "magenta_fg") {
        "35"
    } else if same_text(color, "cyan_fg") {
        "36"
    } else if same_text(color, "white_fg") {
        "37"
    } else if same_text(color, "bright_black_fg") {
        "90"
    } else if same_text(color, "bright_red_fg") {
        "91"
    } else if same_text(color, "bright_green_fg") {
        "92"
    } else if same_text(color, "bright_yellow_fg") {
        "93"
    } else if same_text(color, "bright_blue_fg") {
        "94"
    } else if same_text(color, "bright_magenta_fg") {
        "95"
    } else if same_text(color, "bright_cyan_fg") {
        "96"
    } else if same_text(color, "bright_white_fg") {
        "97"
    } else if same_text(color, "black_bg") {
        "40"
    } else if same_text(color, "red_bg") {
        "41"
    } else if same_text(color, "green_bg") {
        "42"
    } else if same_text(color, "yellow_bg") {
        "43"
    } else if same_text(color, "blue_bg") {
        "44"
    } else if same_text(color, "magenta_bg") {
        "45"
    } else if same_text(color, "cyan_bg") {
        "46"
    } else if same_text(color, "white_bg") {
        "47"
    } else if same_text(color, "bright_black_bg") {
        "100"
    } else if same_text(color, "bright_red_bg") {
        "101"
    } else if same_text(color, "bright_green_bg") {
        "102"
    } else if same_text(color, "bright_yellow_bg") {
        "103"
    } else if same_text(color, "bright_blue_bg") {
        "104"
    } else if same_text(color, "bright_magenta_bg") {
        "105"
    } else if same_text(color, "bright_cyan_bg") {
        "106"
    } else if same_text(color, "bright_white_bg") {
        "107"
    } else {
        "30"
    }
}

/// The code of the rendition named `sgr`.
pub fn sgr_code(sgr: &str) -> (code: &'static str)
    ensures
        code@ == sgr_code_of(sgr@),
{
    if same_text(sgr, "normal") {
        "0"
    } else if same_text(sgr, "bold") {
        "1"
    } else {
        "0"
    }
}

/// The full name of the text colour `color` under `theme`: the bright
/// variant under the bright theme, where white stands in for black.
pub open spec fn text_color_name(theme: Seq<char>, color: Seq<char>) -> Seq<char> {
    if theme == "bright"@ {
        replaced("bright_"@ + color + "_fg"@, "black"@, "white"@)
    } else {
        color + "_fg"@
    }
}

/// `text` between the escape sequence that switches the rendition `sgr`
/// and, if `color` is not empty, that text colour on, and the sequence that
/// switches all off.
pub open spec fn formatted(
    theme: Seq<char>,
    sgr: Seq<char>,
    color: Seq<char>,
    text: Seq<char>,
) -> Seq<char> {
    if color.len() == 0 {
        "\x1b["@ + sgr_code_of(sgr) + "m"@ + text + "\x1b[0m"@
    } else {
        "\x1b["@ + sgr_code_of(sgr) + ";"@ + color_code_of(text_color_name(theme, color)) + "m"@
            + text + "\x1b[0m"@
    }
}

/// `text` wrapped for the terminal in the rendition `sgr` and the text
/// colour `color` of `theme`.
pub fn format(theme: &str, sgr: &str, color: &str, text: &str) -> (wrapped: String)
    ensures
        wrapped@ == formatted(theme@, sgr@, color@, text@),
{
    let mut wrapped = String::from_str("\x1b[");
    wrapped.append(sgr_code(sgr));
    if !color.is_empty() {
        let name: String = if same_text(theme, "bright") {
            let mut bright = String::from_str("bright_");
            bright.append(color);
            bright.append("_fg");
            replace_text(bright.as_str(), "black", "white")
        } else {
            let mut plain = String::from_str(color);
            plain.append("_fg");
            plain
        };
        wrapped.append(";");
        wrapped.append(color_code(name.as_str()));
    }
    wrapped.append("m");
    wrapped.append(text);
    wrapped.append("\x1b[0m");
    wrapped
}

} // verus!
