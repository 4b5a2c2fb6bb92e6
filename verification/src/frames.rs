//! The names under which the frames of a recording are stored.
//!
//! A frame is stored under the time at which its recording began and its
//! number, written in decimal and padded with zeros to five digits. The
//! session that stores a frame and the worker that renders it build the
//! name on their own, so both take it from here.

use vstd::prelude::*;
use vstd::string::StringExecFns;

verus! {

/// The width to which a frame number is padded.
pub const FRAME_DIGITS: usize = 5;

/// The character of the decimal digit `d`.
pub open spec fn digit_char(d: int) -> char
    recommends
        0 <= d < 10,
{
    if d == 0 {
        '0'
    } else if d == 1 {
        '1'
    } else if d == 2 {
        '2'
    } else if d == 3 {
        '3'
    } else if d == 4 {
        '4'
    } else if d == 5 {
        '5'
    } else if d == 6 {
        '6'
    } else if d == 7 {
        '7'
    } else if d == 8 {
        '8'
    } else {
        '9'
    }
}

/// The decimal numeral of `n`, without leading zeros.
pub open spec fn decimal(n: nat) -> Seq<char>
    decreases n,
{
    if n < 10 {
        seq![digit_char(n as int)]
    } else {
        decimal(n / 10).push(digit_char((n % 10) as int))
    }
}

/// The decimal numeral of `n`, with zeros before it where it has fewer than
/// `width` digits.
pub open spec fn zero_padded(n: nat, width: nat) -> Seq<char> {
    if decimal(n).len() >= width {
        decimal(n)
    } else {
        Seq::new((width - decimal(n).len()) as nat, |i: int| '0') + decimal(n)
    }
}

/// The key of frame `frame` of the recording that began at `timestamp`.
pub open spec fn frame_key_text(timestamp: Seq<char>, frame: nat) -> Seq<char> {
    timestamp + "/"@ + zero_padded(frame, FRAME_DIGITS as nat) + ".json"@
}

/// The name of the image that frame `frame` is rendered to.
pub open spec fn image_name_text(frame: nat) -> Seq<char> {
    zero_padded(frame, FRAME_DIGITS as nat) + ".png"@
}

/// A numeral has at least one digit, and no more digits than the number
/// has predecessors.
pub proof fn lemma_decimal_len(n: nat)
    ensures
        1 <= decimal(n).len() <= n + 1,
    decreases n,
{
    if n >= 10 {
        lemma_decimal_len(n / 10);
    }
}

/// The text of the decimal digit `d`.
fn digit_text(d: usize) -> (text: &'static str)
    requires
        d < 10,
    ensures
        text@ == seq![digit_char(d as int)],
{
    proof {
        reveal_strlit("0");
        reveal_strlit("1");
        reveal_strlit("2");
        reveal_strlit("3");
        reveal_strlit("4");
        reveal_strlit("5");
        reveal_strlit("6");
        reveal_strlit("7");
        reveal_strlit("8");
        reveal_strlit("9");
    }
    let text = match d {
        0 => "0",
        1 => "1",
        2 => "2",
        3 => "3",
        4 => "4",
        5 => "5",
        6 => "6",
        7 => "7",
        8 => "8",
        _ => "9",
    };
    assert(text@ =~= seq![digit_char(d as int)]);
    text
}

/// Writes `n` in decimal, and counts its digits.
fn decimal_text(n: usize) -> (numeral: (String, usize))
    ensures
        numeral.0@ == decimal(n as nat),
        numeral.1 == decimal(n as nat).len(),
    decreases n,
{
    if n < 10 {
        (String::from_str(digit_text(n)), 1)
    } else {
        let (head, count) = decimal_text(n / 10);
        proof {
            lemma_decimal_len((n / 10) as nat);
        }
        (head.concat(digit_text(n % 10)), count + 1)
    }
}

/// Writes a frame number: in decimal, padded with zeros to five digits.
pub fn frame_number(frame: usize) -> (text: String)
    ensures
        text@ == zero_padded(frame as nat, FRAME_DIGITS as nat),
{
    let (numeral, count) = decimal_text(frame);
    let mut text = String::new();
    let mut width = count;
    proof {
        reveal_strlit("0");
    }
    while width < FRAME_DIGITS
        invariant
            count <= width,
            width <= FRAME_DIGITS || width == count,
            text@ == Seq::new((width - count) as nat, |i: int| '0'),
            "0"@ == seq!['0'],
        decreases FRAME_DIGITS - width,
    {
        text.append("0");
        width += 1;
        assert(text@ == Seq::new((width - count) as nat, |i: int| '0'));
    }
    text.append(numeral.as_str());
    assert(text@ == zero_padded(frame as nat, FRAME_DIGITS as nat));
    text
}

/// Builds the key of frame `frame` of the recording that began at
/// `timestamp`: the timestamp, a slash, the frame number and `.json`.
pub fn frame_key(timestamp: &str, frame: usize) -> (key: String)
    ensures
        key@ == frame_key_text(timestamp@, frame as nat),
{
    let mut key = String::from_str(timestamp);
    key.append("/");
    key.append(frame_number(frame).as_str());
    key.append(".json");
    key
}

/// Builds the name of the image that frame `frame` is rendered to: the
/// frame number and `.png`.
pub fn image_name(frame: usize) -> (name: String)
    ensures
        name@ == image_name_text(frame as nat),
{
    let mut name = frame_number(frame);
    name.append(".png");
    name
}

} // verus!
