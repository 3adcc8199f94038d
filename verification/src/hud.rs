//! The two texts that a session shows: the score readout and the caption at
//! the end of the game.

use vstd::prelude::*;
use vstd::string::StringExecFns;

verus! {

/// Distance of the caption from the left edge of the window, in pixels.
pub const CAPTION_LEFT: u32 = 300;

/// Distance of the caption from the top edge of the window, in pixels.
pub const CAPTION_TOP: u32 = 250;

/// A text at a fixed place in the window.
#[derive(Debug)]
pub struct Caption {
    pub text: String,
    pub left: u32,
    pub top: u32,
}

/// The character for a digit.
pub open spec fn digit_char(digit: nat) -> char {
    if digit == 0 {
        '0'
    } else if digit == 1 {
        '1'
    } else if digit == 2 {
        '2'
    } else if digit == 3 {
        '3'
    } else if digit == 4 {
        '4'
    } else if digit == 5 {
        '5'
    } else if digit == 6 {
        '6'
    } else if digit == 7 {
        '7'
    } else if digit == 8 {
        '8'
    } else {
        '9'
    }
}

/// A number in decimal digits, without leading zeros.
pub open spec fn decimal(n: nat) -> Seq<char>
    decreases n,
{
    if n < 10 {
        seq![digit_char(n)]
    } else {
        decimal(n / 10).push(digit_char(n % 10))
    }
}

/// What the score readout starts with.
pub open spec fn score_prefix() -> Seq<char> {
    seq!['S', 'c', 'o', 'r', 'e', ':', ' ']
}

/// The text of the caption at the end of the game.
pub open spec fn game_over_text() -> Seq<char> {
    seq!['G', 'a', 'm', 'e', ' ', 'O', 'v', 'e', 'r', '!']
}

/// One digit as text.
fn digit_text(digit: u64) -> (text: &'static str)
    requires
        digit < 10,
    ensures
        text@ == seq![digit_char(digit as nat)],
{
    proof {
        reveal_strlit("0");
        reveal_strlit("1");
        reveal_strlit("2");
        reveal_strlit("3");
        reveal_strlit("4");
        reveal_strlit("5");
        reveal_strlit("6");
        reveal_strlit("7");
        reveal_strlit("8");
        reveal_strlit("9");
    }
    let text = if digit == 0 {
        "0"
    } else if digit == 1 {
        "1"
    } else if digit == 2 {
        "2"
    } else if digit == 3 {
        "3"
    } else if digit == 4 {
        "4"
    } else if digit == 5 {
        "5"
    } else if digit == 6 {
        "6"
    } else if digit == 7 {
        "7"
    } else if digit == 8 {
        "8"
    } else {
        "9"
    };
    assert(text@ =~= seq![digit_char(digit as nat)]);
    text
}

/// Appends `n` in decimal digits to `text`.
fn append_decimal(text: &mut String, n: u64)
    ensures
        final(text)@ == old(text)@ + decimal(n as nat),
    decreases n,
{
    if n >= 10 {
        append_decimal(text, n / 10);
    }
    text.append(digit_text(n % 10));
    assert(text@ =~= old(text)@ + decimal(n as nat));
}

/// The score readout: the word, a colon, a space and the score in decimal
/// digits.
pub fn score_text(score: u64) -> (text: String)
    ensures
        text@ == score_prefix() + decimal(score as nat),
{
    proof {
        reveal_strlit("Score: ");
    }
    let mut text = String::from_str("Score: ");
    assert(text@ =~= score_prefix());
    append_decimal(&mut text, score);
    text
}

/// The caption that is shown once, when the game is over.
pub fn game_over_caption() -> (caption: Caption)
    ensures
        caption.text@ == game_over_text(),
        caption.left == CAPTION_LEFT,
        caption.top == CAPTION_TOP,
{
    proof {
        reveal_strlit("Game Over!");
    }
    let text = String::from_str("Game Over!");
    assert(text@ =~= game_over_text());
    Caption { text, left: CAPTION_LEFT, top: CAPTION_TOP }
}

} // verus!
