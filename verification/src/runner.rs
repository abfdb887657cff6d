//! The host side of the game: reading an instruction typed by the user.
//!
//! A line is cut into words at white space. The first word names the
//! command, in any mix of upper and lower case; the words after it are its
//! arguments. Whatever cannot be understood asks for the help text.

use crate::embedded::message::{DisplayMode, Message};
use vstd::prelude::*;

verus! {

/// What the user asked for.
#[derive(Clone, Copy, Debug, PartialEq, Eq, Structural)]
pub enum Command {
    /// Send this message to the board.
    Send(Message),
    /// Show the help text.
    Help,
    /// Stop the runner.
    Exit,
}

/// The words of a line, as `str::split_whitespace` cuts them: the maximal
/// runs of characters that are not white space, from left to right.
pub uninterp spec fn words_of(line: Seq<char>) -> Seq<Seq<char>>;

/// An ASCII upper-case letter turned into lower case; any other character
/// unchanged.
pub open spec fn ascii_lower(c: char) -> char {
    if 'A' <= c <= 'Z' {
        ((c as u8) + 32) as char
    } else {
        c
    }
}

/// Equality of two texts up to the case of ASCII letters.
pub open spec fn same_word(a: Seq<char>, b: Seq<char>) -> bool {
    &&& a.len() == b.len()
    &&& forall|i: int| 0 <= i < a.len() ==> ascii_lower(#[trigger] a[i]) == ascii_lower(b[i])
}

/// The value of a decimal digit.
pub open spec fn digit_value(c: char) -> Option<int> {
    if '0' <= c <= '9' {
        Some(c as int - '0' as int)
    } else {
        None
    }
}

/// The number that a non-empty run of decimal digits writes.
pub open spec fn digits_value(text: Seq<char>) -> Option<int>
    decreases text.len(),
{
    if text.len() == 0 {
        None
    } else if text.len() == 1 {
        digit_value(text[0])
    } else {
        match (digits_value(text.drop_last()), digit_value(text.last())) {
            (Some(high), Some(low)) => Some(10 * high + low),
            _ => None,
        }
    }
}

/// The `i8` that `text` writes: digits, with `+` or `-` in front if wanted,
/// and a value that fits.
pub open spec fn i8_of(text: Seq<char>) -> Option<i8> {
    let value = if text.len() > 0 && text[0] == '-' {
        match digits_value(text.skip(1)) {
            Some(v) => Some(-v),
            None => None,
        }
    } else if text.len() > 0 && text[0] == '+' {
        digits_value(text.skip(1))
    } else {
        digits_value(text)
    };
    match value {
        Some(v) => if i8::MIN <= v <= i8::MAX {
            Some(v as i8)
        } else {
            None
        },
        None => None,
    }
}

/// The `u8` that `text` writes: digits, with `+` in front if wanted, and a
/// value that fits.
pub open spec fn u8_of(text: Seq<char>) -> Option<u8> {
    let value = if text.len() > 0 && text[0] == '+' {
        digits_value(text.skip(1))
    } else {
        digits_value(text)
    };
    match value {
        Some(v) => if v <= u8::MAX {
            Some(v as u8)
        } else {
            None
        },
        None => None,
    }
}

/// The word at position `index`, if the line has that many words.
pub open spec fn word_at(words: Seq<Seq<char>>, index: int) -> Option<Seq<char>> {
    if 0 <= index < words.len() {
        Some(words[index])
    } else {
        None
    }
}

/// The `i8` argument at position `index`.
pub open spec fn i8_at(words: Seq<Seq<char>>, index: int) -> Option<i8> {
    match word_at(words, index) {
        Some(word) => i8_of(word),
        None => None,
    }
}

/// The `u8` argument at position `index`.
pub open spec fn u8_at(words: Seq<Seq<char>>, index: int) -> Option<u8> {
    match word_at(words, index) {
        Some(word) => u8_of(word),
        None => None,
    }
}

/// The command that the words of a line ask for.
pub open spec fn command_of(words: Seq<Seq<char>>) -> Command {
    if words.len() == 0 {
        Command::Help
    } else if same_word(words[0], "help"@) {
        Command::Help
    } else if same_word(words[0], "exit"@) || same_word(words[0], "quit"@) {
        Command::Exit
    } else if same_word(words[0], "move"@) {
        match (i8_at(words, 1), i8_at(words, 2)) {
            (Some(dx), Some(dy)) => Command::Send(Message::Move { dx, dy }),
            _ => Command::Help,
        }
    } else if same_word(words[0], "move_to"@) || same_word(words[0], "moveto"@) {
        match (u8_at(words, 1), u8_at(words, 2)) {
            (Some(x), Some(y)) => Command::Send(Message::MoveTo { x, y }),
            _ => Command::Help,
        }
    } else if same_word(words[0], "mode"@) {
        match word_at(words, 1) {
            Some(mode) => if same_word(mode, "trail"@) {
                Command::Send(Message::SetDisplayMode(DisplayMode::Trail))
            } else if same_word(mode, "steps"@) {
                Command::Send(Message::SetDisplayMode(DisplayMode::Steps))
            } else {
                Command::Help
            },
            None => Command::Help,
        }
    } else if same_word(words[0], "reset"@) {
        Command::Send(Message::Reset)
    } else {
        Command::Help
    }
}

/// The views of a list of words.
pub open spec fn word_views(words: Seq<String>) -> Seq<Seq<char>> {
    words.map_values(|word: String| word@)
}

/// Calls `str::split_whitespace` and collects the words. Trusted: the words
/// are the ones named by [`words_of`].
#[verifier::external_body]
fn split_words(line: &str) -> (words: Vec<String>)
    ensures
        word_views(words@) == words_of(line@),
{
    line.split_whitespace().map(|word| word.to_string()).collect()
}

/// Calls `str::eq_ignore_ascii_case`. Trusted: two texts are equal in this
/// sense when they have the same length and agree place by place once ASCII
/// upper-case letters are turned into lower case.
#[verifier::external_body]
fn eq_ignore_case(a: &str, b: &str) -> (same: bool)
    ensures
        same == same_word(a@, b@),
{
    a.eq_ignore_ascii_case(b)
}

/// Calls `str::parse::<i8>`. Trusted: the text is accepted when it is a run
/// of decimal digits, with one `+` or `-` in front if wanted, whose value
/// fits an `i8`.
#[verifier::external_body]
fn parse_i8(text: &str) -> (value: Option<i8>)
    ensures
        value == i8_of(text@),
{
    text.parse::<i8>().ok()
}

/// Calls `str::parse::<u8>`. Trusted: the text is accepted when it is a run
/// of decimal digits, with one `+` in front if wanted, whose value fits a
/// `u8`.
#[verifier::external_body]
fn parse_u8(text: &str) -> (value: Option<u8>)
    ensures
        value == u8_of(text@),
{
    text.parse::<u8>().ok()
}

/// Reads the `i8` argument at position `index`.
fn i8_argument(words: &Vec<String>, index: usize) -> (value: Option<i8>)
    ensures
        value == i8_at(word_views(words@), index as int),
{
    if index < words.len() {
        parse_i8(words[index].as_str())
    } else {
        None
    }
}

/// Reads the `u8` argument at position `index`.
fn u8_argument(words: &Vec<String>, index: usize) -> (value: Option<u8>)
    ensures
        value == u8_at(word_views(words@), index as int),
{
    if index < words.len() {
        parse_u8(words[index].as_str())
    } else {
        None
    }
}

/// Reads the command that the words of a line ask for.
pub fn parse_words(words: &Vec<String>) -> (command: Command)
    ensures
        command == command_of(word_views(words@)),
{
    if words.len() == 0 {
        return Command::Help;
    }
    let cmd = words[0].as_str();
    assert(word_views(words@)[0] == cmd@);
    if eq_ignore_case(cmd, "help") {
        return Command::Help;
    }
    if eq_ignore_case(cmd, "exit") || eq_ignore_case(cmd, "quit") {
        return Command::Exit;
    }
    if eq_ignore_case(cmd, "move") {
        let dx = match i8_argument(words, 1) {
            Some(v) => v,
            None => return Command::Help,
        };
        let dy = match i8_argument(words, 2) {
            Some(v) => v,
            None => return Command::Help,
        };
        return Command::Send(Message::Move { dx, dy });
    }
    if eq_ignore_case(cmd, "move_to") || eq_ignore_case(cmd, "moveto") {
        let x = match u8_argument(words, 1) {
            Some(v) => v,
            None => return Command::Help,
        };
        let y = match u8_argument(words, 2) {
            Some(v) => v,
            None => return Command::Help,
        };
        return Command::Send(Message::MoveTo { x, y });
    }
    if eq_ignore_case(cmd, "mode") {
        if words.len() < 2 {
            return Command::Help;
        }
        let mode_str = words[1].as_str();
        assert(word_views(words@)[1] == mode_str@);
        let mode = if eq_ignore_case(mode_str, "trail") {
            DisplayMode::Trail
        } else if eq_ignore_case(mode_str, "steps") {
            DisplayMode::Steps
        } else {
            return Command::Help;
        };
        return Command::Send(Message::SetDisplayMode(mode));
    }
    if eq_ignore_case(cmd, "reset") {
        return Command::Send(Message::Reset);
    }
    Command::Help
}

/// Reads the instruction typed on one line.
pub fn parse_instruction(line: &str) -> (command: Command)
    ensures
        command == command_of(words_of(line@)),
{
    let words = split_words(line);
    parse_words(&words)
}

} // verus!
