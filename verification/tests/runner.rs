use mygrep::embedded::message::{DisplayMode, Message};
use mygrep::runner::{parse_instruction, parse_words, Command};

fn words(list: &[&str]) -> Vec<String> {
    list.iter().map(|w| w.to_string()).collect()
}

#[test]
fn blank_line_asks_for_help() {
    assert_eq!(parse_instruction(""), Command::Help);
    assert_eq!(parse_instruction("   \t "), Command::Help);
}

#[test]
fn help_in_any_case() {
    assert_eq!(parse_instruction("help"), Command::Help);
    assert_eq!(parse_instruction("HeLP"), Command::Help);
}

#[test]
fn exit_and_quit() {
    assert_eq!(parse_instruction("exit"), Command::Exit);
    assert_eq!(parse_instruction("QUIT"), Command::Exit);
    assert_eq!(parse_instruction("  quit   now"), Command::Exit);
}

#[test]
fn relative_move() {
    assert_eq!(parse_instruction("move 3 -4"), Command::Send(Message::Move { dx: 3, dy: -4 }));
    assert_eq!(parse_instruction("MOVE +7 0"), Command::Send(Message::Move { dx: 7, dy: 0 }));
    assert_eq!(
        parse_instruction("move -128 127"),
        Command::Send(Message::Move { dx: -128, dy: 127 })
    );
    assert_eq!(parse_instruction("\tmove\t1   2  "), Command::Send(Message::Move { dx: 1, dy: 2 }));
}

#[test]
fn relative_move_ignores_what_follows_its_arguments() {
    assert_eq!(parse_instruction("move 1 2 3 x"), Command::Send(Message::Move { dx: 1, dy: 2 }));
}

#[test]
fn relative_move_with_a_bad_argument_asks_for_help() {
    assert_eq!(parse_instruction("move"), Command::Help);
    assert_eq!(parse_instruction("move 1"), Command::Help);
    assert_eq!(parse_instruction("move 128 0"), Command::Help);
    assert_eq!(parse_instruction("move 0 -129"), Command::Help);
    assert_eq!(parse_instruction("move a 1"), Command::Help);
    assert_eq!(parse_instruction("move 1 1.5"), Command::Help);
    assert_eq!(parse_instruction("move - 1"), Command::Help);
    assert_eq!(parse_instruction("move 1 +"), Command::Help);
    assert_eq!(parse_instruction("move --1 1"), Command::Help);
}

#[test]
fn absolute_move() {
    assert_eq!(parse_instruction("move_to 10 20"), Command::Send(Message::MoveTo { x: 10, y: 20 }));
    assert_eq!(parse_instruction("MoveTo 0 255"), Command::Send(Message::MoveTo { x: 0, y: 255 }));
    assert_eq!(parse_instruction("moveto +5 007"), Command::Send(Message::MoveTo { x: 5, y: 7 }));
}

#[test]
fn absolute_move_with_a_bad_argument_asks_for_help() {
    assert_eq!(parse_instruction("move_to 256 0"), Command::Help);
    assert_eq!(parse_instruction("move_to -1 0"), Command::Help);
    assert_eq!(parse_instruction("move_to -0 0"), Command::Help);
    assert_eq!(parse_instruction("move_to 1"), Command::Help);
    assert_eq!(parse_instruction("move-to 1 1"), Command::Help);
}

#[test]
fn display_modes() {
    assert_eq!(
        parse_instruction("mode trail"),
        Command::Send(Message::SetDisplayMode(DisplayMode::Trail))
    );
    assert_eq!(
        parse_instruction("Mode STEPS"),
        Command::Send(Message::SetDisplayMode(DisplayMode::Steps))
    );
    assert_eq!(parse_instruction("mode"), Command::Help);
    assert_eq!(parse_instruction("mode both"), Command::Help);
}

#[test]
fn reset_command() {
    assert_eq!(parse_instruction("reset"), Command::Send(Message::Reset));
    assert_eq!(parse_instruction("Reset please"), Command::Send(Message::Reset));
}

#[test]
fn unknown_command_asks_for_help() {
    assert_eq!(parse_instruction("jump 1 2"), Command::Help);
    assert_eq!(parse_instruction("helper"), Command::Help);
    assert_eq!(parse_instruction("résumé"), Command::Help);
}

#[test]
fn words_are_read_without_a_line() {
    assert_eq!(parse_words(&words(&[])), Command::Help);
    assert_eq!(parse_words(&words(&["move", "-5", "5"])), Command::Send(Message::Move { dx: -5, dy: 5 }));
    assert_eq!(parse_words(&words(&["mode", "Trail"])), Command::Send(Message::SetDisplayMode(DisplayMode::Trail)));
    assert_eq!(parse_words(&words(&["move 1 2"])), Command::Help);
}

/// The number that `text` writes, read by hand: digits with an optional
/// sign in front, nothing else.
fn decimal(text: &str, signed: bool) -> Option<i64> {
    let (negative, digits) = match text.chars().next() {
        Some('-') if signed => (true, &text[1..]),
        Some('+') => (false, &text[1..]),
        _ => (false, text),
    };
    if digits.is_empty() {
        return None;
    }
    let mut value: i64 = 0;
    for c in digits.chars() {
        if !('0'..='9').contains(&c) {
            return None;
        }
        value = (value * 10 + (c as i64 - '0' as i64)).min(1_000_000);
    }
    Some(if negative { -value } else { value })
}

fn short_texts() -> Vec<String> {
    let alphabet = ['+', '-', '0', '1', '2', '5', '8', '9', 'a', '_', '.', '٣'];
    let mut texts = vec![String::new()];
    let mut last = vec![String::new()];
    for _ in 0..4 {
        let mut next = Vec::new();
        for text in last.iter() {
            for c in alphabet.iter() {
                let mut longer = text.clone();
                longer.push(*c);
                next.push(longer);
            }
        }
        texts.extend(next.iter().cloned());
        last = next;
    }
    texts
}

#[test]
fn relative_move_reads_numbers_as_written() {
    for text in short_texts() {
        let expected = match decimal(&text, true) {
            Some(v) if (-128..=127).contains(&v) => {
                Command::Send(Message::Move { dx: v as i8, dy: 1 })
            }
            _ => Command::Help,
        };
        assert_eq!(parse_words(&words(&["move", &text, "1"])), expected, "text {:?}", text);
    }
}

#[test]
fn absolute_move_reads_numbers_as_written() {
    for text in short_texts() {
        let expected = match decimal(&text, false) {
            Some(v) if (0..=255).contains(&v) => Command::Send(Message::MoveTo { x: 3, y: v as u8 }),
            _ => Command::Help,
        };
        assert_eq!(parse_words(&words(&["moveto", "3", &text])), expected, "text {:?}", text);
    }
}

#[test]
fn command_names_ignore_the_case_of_ascii_letters_only() {
    let letters = ['r', 'R', 'e', 'E', 's', 'S', 't', 'T', 'ſ', 'é', 'K', '\u{212a}', '3'];
    let mut names = vec![String::new()];
    for _ in 0..5 {
        let mut next = Vec::new();
        for name in names.iter() {
            for c in ['r', 'R', 'e', 'E'].iter().chain(letters.iter().skip(4)) {
                if name.chars().count() < 5 {
                    let mut longer = name.clone();
                    longer.push(*c);
                    next.push(longer);
                }
            }
        }
        names = next;
        if names.len() > 20000 {
            names.truncate(20000);
        }
    }
    names.push("reset".to_string());
    names.push("RESET".to_string());
    names.push("ReSeT".to_string());
    names.push("reſet".to_string());
    names.push("rese\u{212a}".to_string());
    for name in names {
        let folded: Vec<char> = name
            .chars()
            .map(|c| if ('A'..='Z').contains(&c) { ((c as u8) + 32) as char } else { c })
            .collect();
        let expected = if folded == ['r', 'e', 's', 'e', 't'] {
            Command::Send(Message::Reset)
        } else {
            Command::Help
        };
        assert_eq!(parse_words(&words(&[&name])), expected, "name {:?}", name);
    }
}

#[test]
fn lines_are_cut_at_any_white_space() {
    assert_eq!(
        parse_instruction("move\u{a0}1\u{2003}2"),
        Command::Send(Message::Move { dx: 1, dy: 2 })
    );
    assert_eq!(parse_instruction("\n\nmode\r\nsteps\n"), Command::Send(Message::SetDisplayMode(DisplayMode::Steps)));
    assert_eq!(parse_instruction("move1 2"), Command::Help);
}
