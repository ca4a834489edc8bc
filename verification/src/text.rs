//! Human-readable diagnostic texts, built from literal pieces and decimal numbers.

use vstd::prelude::*;
use vstd::string::StringExecFns;

verus! {

/// The decimal digit character for `d` (`0 <= d < 10`).
pub open spec fn digit_char(d: int) -> char {
    (48 + d) as char
}

/// Decimal rendering of `n`, most significant digit first, without leading zeros.
pub open spec fn decimal(n: nat) -> Seq<char>
    decreases n,
{
    if n < 10 {
        seq![digit_char(n as int)]
    } else {
        decimal(n / 10).push(digit_char((n % 10) as int))
    }
}

/// The one-character text of digit `d`.
fn digit_str(d: u64) -> (text: &'static str)
    requires
        d < 10,
    ensures
        text@ == seq![digit_char(d as int)],
{
    proof {
        reveal_strlit("0");
        reveal_strlit("1");
        reveal_strlit("2");
        reveal_strlit("3");
        reveal_strlit("4");
        reveal_strlit("5");
        reveal_strlit("6");
        reveal_strlit("7");
        reveal_strlit("8");
        reveal_strlit("9");
    }
    if d == 0 {
        "0"
    } else if d == 1 {
        "1"
    } else if d == 2 {
        "2"
    } else if d == 3 {
        "3"
    } else if d == 4 {
        "4"
    } else if d == 5 {
        "5"
    } else if d == 6 {
        "6"
    } else if d == 7 {
        "7"
    } else if d == 8 {
        "8"
    } else {
        "9"
    }
}

/// Renders `n` in decimal, as `Display` does for unsigned integers.
pub fn decimal_string(n: u64) -> (text: String)
    ensures
        text@ == decimal(n as nat),
    decreases n,
{
    if n < 10 {
        String::from_str(digit_str(n))
    } else {
        let mut text = decimal_string(n / 10);
        text.append(digit_str(n % 10));
        text
    }
}

/// Appends the decimal rendering of `n` to `text`.
fn push_decimal(text: &mut String, n: u64)
    ensures
        final(text)@ == old(text)@ + decimal(n as nat),
{
    let digits = decimal_string(n);
    text.append(digits.as_str());
}

/// The text `"ROI {x},{y} {width}x{height} is outside {shape_width}x{shape_height}"`.
pub open spec fn roi_outside_text(
    x: u32,
    y: u32,
    width: u32,
    height: u32,
    shape_width: u32,
    shape_height: u32,
) -> Seq<char> {
    "ROI "@ + decimal(x as nat) + ","@ + decimal(y as nat) + " "@ + decimal(width as nat) + "x"@ + decimal(
        height as nat,
    ) + " is outside "@ + decimal(shape_width as nat) + "x"@ + decimal(shape_height as nat)
}

/// The text `"row {y} exceeds height {height}"`.
pub open spec fn row_exceeds_text(y: u32, height: u32) -> Seq<char> {
    "row "@ + decimal(y as nat) + " exceeds height "@ + decimal(height as nat)
}

/// The text `"pixel {x},{y} exceeds {width}x{height}"`.
pub open spec fn pixel_exceeds_text(x: u32, y: u32, width: u32, height: u32) -> Seq<char> {
    "pixel "@ + decimal(x as nat) + ","@ + decimal(y as nat) + " exceeds "@ + decimal(width as nat) + "x"@
        + decimal(height as nat)
}

/// The text `"channel {channel} exceeds {channels}"`.
pub open spec fn channel_exceeds_text(channel: usize, channels: usize) -> Seq<char> {
    "channel "@ + decimal(channel as nat) + " exceeds "@ + decimal(channels as nat)
}

/// The text `"MultiBand { channels: {channels}, bytes_per_channel: {bytes_per_channel} }"`.
pub open spec fn multiband_text(channels: u8, bytes_per_channel: u8) -> Seq<char> {
    "MultiBand { channels: "@ + decimal(channels as nat) + ", bytes_per_channel: "@ + decimal(
        bytes_per_channel as nat,
    ) + " }"@
}

/// Renders an out-of-bounds region of interest.
pub fn roi_outside_reason(
    x: u32,
    y: u32,
    width: u32,
    height: u32,
    shape_width: u32,
    shape_height: u32,
) -> (text: String)
    ensures
        text@ == roi_outside_text(x, y, width, height, shape_width, shape_height),
{
    let mut text = String::from_str("ROI ");
    push_decimal(&mut text, x as u64);
    text.append(",");
    push_decimal(&mut text, y as u64);
    text.append(" ");
    push_decimal(&mut text, width as u64);
    text.append("x");
    push_decimal(&mut text, height as u64);
    text.append(" is outside ");
    push_decimal(&mut text, shape_width as u64);
    text.append("x");
    push_decimal(&mut text, shape_height as u64);
    text
}

/// Renders a row index past the image height.
pub fn row_exceeds_reason(y: u32, height: u32) -> (text: String)
    ensures
        text@ == row_exceeds_text(y, height),
{
    let mut text = String::from_str("row ");
    push_decimal(&mut text, y as u64);
    text.append(" exceeds height ");
    push_decimal(&mut text, height as u64);
    text
}

/// Renders a pixel coordinate outside the image.
pub fn pixel_exceeds_reason(x: u32, y: u32, width: u32, height: u32) -> (text: String)
    ensures
        text@ == pixel_exceeds_text(x, y, width, height),
{
    let mut text = String::from_str("pixel ");
    push_decimal(&mut text, x as u64);
    text.append(",");
    push_decimal(&mut text, y as u64);
    text.append(" exceeds ");
    push_decimal(&mut text, width as u64);
    text.append("x");
    push_decimal(&mut text, height as u64);
    text
}

/// Renders a channel index past the channel count.
pub fn channel_exceeds_reason(channel: usize, channels: usize) -> (text: String)
    ensures
        text@ == channel_exceeds_text(channel, channels),
{
    let mut text = String::from_str("channel ");
    push_decimal(&mut text, channel as u64);
    text.append(" exceeds ");
    push_decimal(&mut text, channels as u64);
    text
}

/// Renders the name of a multi-band pixel format.
pub fn multiband_reason(channels: u8, bytes_per_channel: u8) -> (text: String)
    ensures
        text@ == multiband_text(channels, bytes_per_channel),
{
    let mut text = String::from_str("MultiBand { channels: ");
    push_decimal(&mut text, channels as u64);
    text.append(", bytes_per_channel: ");
    push_decimal(&mut text, bytes_per_channel as u64);
    text.append(" }");
    text
}

/// Copies a string literal.
pub(crate) fn text_of(literal: &str) -> (text: String)
    ensures
        text@ == literal@,
{
    String::from_str(literal)
}

/// Whether `text` is the literal `label`.
pub(crate) fn text_is(text: &String, label: &str) -> (equal: bool)
    ensures
        equal == (text@ == label@),
{
    let expected = String::from_str(label);
    *text == expected
}

} // verus!
