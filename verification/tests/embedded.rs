use mygrep::embedded::drawing::{digits_of, glyph_fits_at, number_fits, trail_visible};
use mygrep::embedded::font::{NUMBERS, ONE, ZERO};
use mygrep::embedded::frame::{FrameEvent, Framer, FRAME_CAPACITY};
use mygrep::embedded::game::{handle_message, process_packet, GameState, PacketOutcome};
use mygrep::embedded::message::{checksum_for, DisplayMode, Envelope, Message};
use mygrep::embedded::ring_buffer::{RingBuffer, BUFFER_SIZE};
use mygrep::embedded::screen::{Brightness, Mode, Screen, SsiWord};
use mygrep::embedded::trail::{Trail, MAX_POINTS};

fn cmd(word: u16) -> SsiWord {
    SsiWord { mode: Mode::Cmd, word }
}

fn data(word: u16) -> SsiWord {
    SsiWord { mode: Mode::Data, word }
}

fn pixel(screen: &Screen, x: u8, y: u8) -> u8 {
    let byte = screen.byte_at(x as usize / 2, y as usize);
    if x % 2 == 1 {
        byte & 0x0f
    } else {
        byte >> 4
    }
}

/// The pixels that the words in the outbox touch, in the order written.
fn touched(words: &[SsiWord]) -> Vec<(u8, u8)> {
    assert_eq!(words.len() % 7, 0);
    words
        .chunks(7)
        .map(|w| {
            assert_eq!(w[0], cmd(0x15));
            assert_eq!(w[2], cmd(127));
            assert_eq!(w[3], cmd(0x75));
            assert_eq!(w[5], cmd(79));
            assert_eq!(w[6].mode, Mode::Data);
            (w[1].word as u8, w[4].word as u8)
        })
        .collect()
}

#[test]
fn ring_buffer_is_first_in_first_out() {
    let mut ring = RingBuffer::new();
    assert!(ring.is_empty());
    assert_eq!(ring.pop(), None);
    ring.push(1);
    ring.push(2);
    ring.push(3);
    assert!(!ring.is_empty());
    assert_eq!(ring.pop(), Some(1));
    assert_eq!(ring.pop(), Some(2));
    ring.push(4);
    assert_eq!(ring.pop(), Some(3));
    assert_eq!(ring.pop(), Some(4));
    assert_eq!(ring.pop(), None);
    assert!(ring.is_empty());
}

#[test]
fn ring_buffer_that_is_full_is_not_empty() {
    let mut ring = RingBuffer::new();
    for i in 0..BUFFER_SIZE {
        ring.push(i as u8);
    }
    assert!(!ring.is_empty());
    for i in 0..BUFFER_SIZE {
        assert_eq!(ring.pop(), Some(i as u8));
    }
    assert!(ring.is_empty());
}

#[test]
fn ring_buffer_overwrites_its_oldest_byte() {
    let mut ring = RingBuffer::new();
    for i in 0..(BUFFER_SIZE + 3) {
        ring.push((i % 251) as u8);
    }
    for i in 3..(BUFFER_SIZE + 3) {
        assert_eq!(ring.pop(), Some((i % 251) as u8));
    }
    assert_eq!(ring.pop(), None);
}

#[test]
fn ring_buffer_wraps_around_many_times() {
    let mut ring = RingBuffer::new();
    let mut next_in: u32 = 0;
    let mut next_out: u32 = 0;
    for round in 0..1000 {
        for _ in 0..(round % 7 + 1) {
            ring.push((next_in % 256) as u8);
            next_in += 1;
        }
        for _ in 0..(round % 7 + 1) {
            assert_eq!(ring.pop(), Some((next_out % 256) as u8));
            next_out += 1;
        }
    }
    assert!(ring.is_empty());
}

#[test]
fn trail_starts_with_one_point() {
    let trail = Trail::new(5, 6);
    assert!(!trail.is_empty());
    assert_eq!(trail.len(), 1);
    assert_eq!(trail.point(0), (5, 6));
}

#[test]
fn trail_grows_and_is_cleared() {
    let mut trail = Trail::new(1, 1);
    trail.push(2, 1);
    trail.push(3, 1);
    assert_eq!(trail.len(), 3);
    assert_eq!(trail.point(2), (3, 1));
    trail.clear(9, 9);
    assert_eq!(trail.len(), 1);
    assert_eq!(trail.point(0), (9, 9));
}

#[test]
fn trail_that_is_full_forgets_its_oldest_point() {
    let mut trail = Trail::new(0, 0);
    for i in 1..MAX_POINTS {
        trail.push((i % 256) as u8, (i / 256) as u8);
    }
    assert_eq!(trail.len(), MAX_POINTS);
    assert_eq!(trail.point(0), (0, 0));
    trail.push(77, 78);
    assert_eq!(trail.len(), MAX_POINTS);
    assert_eq!(trail.point(0), (1, 0));
    assert_eq!(trail.point(MAX_POINTS - 2), (255, 1));
    assert_eq!(trail.point(MAX_POINTS - 1), (77, 78));
}

#[test]
fn checksum_is_the_wrapping_sum() {
    assert_eq!(checksum_for(&[]), 0);
    assert_eq!(checksum_for(&[1, 2, 3]), 6);
    assert_eq!(checksum_for(&[200, 100]), 44);
    assert_eq!(checksum_for(&[255, 255, 2]), 0);
    assert_eq!(checksum_for(&[0, 3, 252]), 255);
}

#[test]
fn envelope_carries_the_checksum_of_the_encoding() {
    let encoded = [0u8, 3, 252];
    let envelope = Envelope::new(Message::Move { dx: 3, dy: -4 }, &encoded);
    assert_eq!(envelope.msg, Message::Move { dx: 3, dy: -4 });
    assert_eq!(envelope.checksum, 255);
    assert!(envelope.is_intact(&encoded));
    assert!(!envelope.is_intact(&[0, 3, 251]));
}

#[test]
fn framer_cuts_packets_at_zero_bytes() {
    let mut framer = Framer::new();
    assert_eq!(framer.push(5), FrameEvent::Pending);
    assert_eq!(framer.push(6), FrameEvent::Pending);
    assert_eq!(framer.push(0), FrameEvent::Frame(vec![5, 6]));
    assert_eq!(framer.push(0), FrameEvent::Pending);
    assert_eq!(framer.push(9), FrameEvent::Pending);
    assert_eq!(framer.push(0), FrameEvent::Frame(vec![9]));
}

#[test]
fn framer_throws_away_a_packet_that_is_too_long() {
    let mut framer = Framer::new();
    for i in 0..FRAME_CAPACITY {
        assert_eq!(framer.push(i as u8 + 1), FrameEvent::Pending);
    }
    assert_eq!(framer.push(99), FrameEvent::TooLong);
    assert_eq!(framer.push(7), FrameEvent::Pending);
    assert_eq!(framer.push(0), FrameEvent::Frame(vec![7]));
}

#[test]
fn framer_takes_a_packet_of_full_length() {
    let mut framer = Framer::new();
    let packet: Vec<u8> = (1..=FRAME_CAPACITY as u8).collect();
    for byte in packet.iter() {
        assert_eq!(framer.push(*byte), FrameEvent::Pending);
    }
    assert_eq!(framer.push(0), FrameEvent::Frame(packet));
}

#[test]
fn brightness_keeps_its_level() {
    assert_eq!(Brightness::new(6).value(), 6);
    assert_eq!(Brightness::new(0).value(), 0);
    assert_eq!(Brightness::white().value(), 15);
}

#[test]
fn fresh_screen_is_dark_and_silent() {
    let mut screen = Screen::new();
    assert_eq!(screen.byte_at(0, 0), 0);
    assert_eq!(screen.byte_at(63, 79), 0);
    assert!(screen.take_output().is_empty());
}

#[test]
fn pixel_in_an_even_column_goes_to_the_high_half() {
    let mut screen = Screen::new();
    screen.draw_pixel(10, 3, Brightness::new(6));
    assert_eq!(screen.byte_at(5, 3), 0x60);
    assert_eq!(
        screen.take_output(),
        vec![cmd(0x15), cmd(5), cmd(127), cmd(0x75), cmd(3), cmd(79), data(0x60)]
    );
    assert!(screen.take_output().is_empty());
}

#[test]
fn pixel_in_an_odd_column_goes_to_the_low_half() {
    let mut screen = Screen::new();
    screen.draw_pixel(10, 3, Brightness::new(6));
    screen.draw_pixel(11, 3, Brightness::new(9));
    assert_eq!(screen.byte_at(5, 3), 0x69);
    screen.draw_pixel(10, 3, Brightness::new(1));
    assert_eq!(screen.byte_at(5, 3), 0x19);
    assert_eq!(pixel(&screen, 10, 3), 1);
    assert_eq!(pixel(&screen, 11, 3), 9);
    let words = screen.take_output();
    assert_eq!(words.len(), 21);
    assert_eq!(words[13], data(0x69));
    assert_eq!(words[20], data(0x19));
}

#[test]
fn pixel_in_the_last_column_and_row() {
    let mut screen = Screen::new();
    screen.draw_pixel(127, 63, Brightness::white());
    assert_eq!(screen.byte_at(63, 63), 0x0f);
    assert_eq!(
        screen.take_output(),
        vec![cmd(0x15), cmd(63), cmd(127), cmd(0x75), cmd(63), cmd(79), data(0x0f)]
    );
}

#[test]
fn clear_fills_every_byte() {
    let mut screen = Screen::new();
    screen.draw_pixel(4, 4, Brightness::new(3));
    screen.take_output();
    screen.clear(Brightness::new(10));
    for y in 0..80 {
        for column in 0..64 {
            assert_eq!(screen.byte_at(column, y), 0xaa);
        }
    }
    let words = screen.take_output();
    assert_eq!(words.len(), 6 + 64 * 80);
    assert_eq!(&words[..6], &[cmd(0x75), cmd(0), cmd(79), cmd(0x15), cmd(0), cmd(127)]);
    assert!(words[6..].iter().all(|w| *w == data(0xaa)));
}

#[test]
fn flat_line_runs_from_end_to_end() {
    let mut screen = Screen::new();
    screen.draw_line(2, 5, 6, 5, Brightness::new(6));
    let words = screen.take_output();
    // two pixels share a byte, so the column word is half the pixel column
    assert_eq!(touched(&words), vec![(1, 5), (1, 5), (2, 5), (2, 5), (3, 5)]);
    for x in 2..=6 {
        assert_eq!(pixel(&screen, x, 5), 6);
    }
    assert_eq!(pixel(&screen, 1, 5), 0);
    assert_eq!(pixel(&screen, 7, 5), 0);
}

#[test]
fn line_of_one_point() {
    let mut screen = Screen::new();
    screen.draw_line(9, 9, 9, 9, Brightness::new(2));
    assert_eq!(touched(&screen.take_output()), vec![(4, 9)]);
    assert_eq!(pixel(&screen, 9, 9), 2);
}

#[test]
fn steep_line_going_up_and_left() {
    let mut screen = Screen::new();
    screen.draw_line(4, 6, 2, 0, Brightness::new(5));
    let lit: Vec<(u8, u8)> = (0..7u8)
        .flat_map(|y| (0..8u8).map(move |x| (x, y)))
        .filter(|(x, y)| pixel(&screen, *x, *y) == 5)
        .collect();
    assert_eq!(lit, vec![(2, 0), (2, 1), (3, 2), (3, 3), (3, 4), (4, 5), (4, 6)]);
    let path = touched(&screen.take_output());
    assert_eq!(path.len(), 7);
    assert_eq!(path[0], (2, 6));
    assert_eq!(path[6], (1, 0));
}

#[test]
fn diagonal_line() {
    let mut screen = Screen::new();
    screen.draw_line(0, 0, 3, 3, Brightness::new(7));
    for k in 0..4u8 {
        assert_eq!(pixel(&screen, k, k), 7);
    }
    assert_eq!(pixel(&screen, 1, 0), 0);
    assert_eq!(screen.take_output().len(), 4 * 7);
}

#[test]
fn shallow_line_steps_once_in_the_middle() {
    let mut screen = Screen::new();
    screen.draw_line(0, 0, 3, 1, Brightness::new(4));
    let lit: Vec<(u8, u8)> = (0..2u8)
        .flat_map(|y| (0..4u8).map(move |x| (x, y)))
        .filter(|(x, y)| pixel(&screen, *x, *y) == 4)
        .collect();
    assert_eq!(lit, vec![(0, 0), (1, 0), (2, 1), (3, 1)]);
}

#[test]
fn glyph_of_zero_is_drawn_pixel_by_pixel() {
    let mut screen = Screen::new();
    screen.draw_character(8, 2, &ZERO, Brightness::new(3));
    for i in 0..16u8 {
        for j in 0..8u8 {
            let expected = if ZERO[i as usize][j as usize] { 3 } else { 0 };
            assert_eq!(pixel(&screen, 8 + j, 2 + i), expected);
        }
    }
    let set: usize = ZERO.iter().map(|row| row.iter().filter(|b| **b).count()).sum();
    assert_eq!(screen.take_output().len(), set * 7);
}

#[test]
fn glyph_of_one_is_a_bar() {
    let mut screen = Screen::new();
    screen.draw_character(0, 0, &ONE, Brightness::new(1));
    assert_eq!(touched(&screen.take_output()), vec![(0, 1), (1, 1), (1, 1), (2, 1), (2, 1), (3, 1)]);
    assert_eq!(NUMBERS[1], ONE);
    assert_eq!(NUMBERS[0], ZERO);
}

#[test]
fn filled_box_goes_column_by_column() {
    let mut screen = Screen::new();
    screen.draw_filled_box(4, 1, 6, 2, Brightness::new(8));
    assert_eq!(
        touched(&screen.take_output()),
        vec![(2, 1), (2, 2), (2, 1), (2, 2), (3, 1), (3, 2)]
    );
    for x in 4..=6 {
        for y in 1..=2 {
            assert_eq!(pixel(&screen, x, y), 8);
        }
    }
    assert_eq!(pixel(&screen, 7, 1), 0);
    assert_eq!(pixel(&screen, 4, 3), 0);
}

#[test]
fn box_with_corners_on_the_wrong_side_is_empty() {
    let mut screen = Screen::new();
    screen.draw_filled_box(6, 1, 4, 2, Brightness::new(8));
    screen.draw_filled_box(4, 2, 6, 1, Brightness::new(8));
    screen.draw_filled_box(200, 1, 100, 2, Brightness::new(8));
    assert!(screen.take_output().is_empty());
}

#[test]
fn number_is_written_most_significant_digit_first() {
    let mut screen = Screen::new();
    screen.draw_number(4, 4, 10, Brightness::new(2));
    let mut expected = Screen::new();
    expected.draw_character(4, 4, &ONE, Brightness::new(2));
    expected.draw_character(13, 4, &ZERO, Brightness::new(2));
    assert_eq!(screen.take_output(), expected.take_output());
}

#[test]
fn number_zero_is_one_glyph() {
    let mut screen = Screen::new();
    screen.draw_number(4, 4, 0, Brightness::new(2));
    let mut expected = Screen::new();
    expected.draw_character(4, 4, &ZERO, Brightness::new(2));
    assert_eq!(screen.take_output(), expected.take_output());
}

#[test]
fn number_of_ten_digits() {
    let mut screen = Screen::new();
    screen.draw_number(4, 4, 1_101_001_011, Brightness::new(2));
    let mut expected = Screen::new();
    let digits = [1usize, 1, 0, 1, 0, 0, 1, 0, 1, 1];
    for (k, digit) in digits.iter().enumerate() {
        expected.draw_character(4 + 9 * k as u8, 4, &NUMBERS[*digit], Brightness::new(2));
    }
    assert_eq!(screen.take_output(), expected.take_output());
}

#[test]
fn step_counter_clears_to_white_first() {
    let mut screen = Screen::new();
    screen.render_step_counter(1, Brightness::new(0));
    let mut expected = Screen::new();
    expected.clear(Brightness::white());
    expected.draw_character(4, 4, &ONE, Brightness::new(0));
    assert_eq!(screen.take_output(), expected.take_output());
    assert_eq!(pixel(&screen, 5, 5), 0);
    assert_eq!(pixel(&screen, 4, 5), 15);
}

#[test]
fn trail_is_drawn_as_lines_with_the_player_at_its_end() {
    let mut trail = Trail::new(1, 1);
    trail.push(3, 1);
    trail.push(3, 2);
    let mut screen = Screen::new();
    screen.draw_trail(&trail, Brightness::new(6), Brightness::new(0));
    let mut expected = Screen::new();
    expected.clear(Brightness::white());
    expected.draw_line(1, 1, 3, 1, Brightness::new(6));
    expected.draw_line(3, 1, 3, 2, Brightness::new(6));
    expected.draw_pixel(3, 2, Brightness::new(0));
    assert_eq!(screen.take_output(), expected.take_output());
    assert_eq!(pixel(&screen, 2, 1), 6);
    assert_eq!(pixel(&screen, 3, 2), 0);
    assert_eq!(pixel(&screen, 0, 0), 15);
}

#[test]
fn trail_of_one_point_is_just_the_player() {
    let trail = Trail::new(7, 7);
    let mut screen = Screen::new();
    screen.draw_trail(&trail, Brightness::new(6), Brightness::new(0));
    let words = screen.take_output();
    assert_eq!(words.len(), 6 + 64 * 80 + 7);
    assert_eq!(pixel(&screen, 7, 7), 0);
    assert_eq!(pixel(&screen, 6, 7), 15);
}

#[test]
fn game_starts_in_the_middle() {
    let game = GameState::new();
    assert_eq!(game.position(), (64, 40));
    assert_eq!(game.total_steps(), 0);
    assert_eq!(game.display_mode(), DisplayMode::Trail);
    assert_eq!(game.trail().len(), 1);
    assert_eq!(game.trail().point(0), (64, 40));
}

#[test]
fn relative_move_goes_along_the_columns_first() {
    let mut game = GameState::new();
    let mut screen = Screen::new();
    handle_message(Message::Move { dx: 2, dy: -1 }, &mut game, &mut screen);
    assert_eq!(game.position(), (66, 39));
    assert_eq!(game.total_steps(), 1);
    assert_eq!(game.trail().len(), 4);
    assert_eq!(game.trail().point(1), (65, 40));
    assert_eq!(game.trail().point(2), (66, 40));
    assert_eq!(game.trail().point(3), (66, 39));
    let mut expected = Screen::new();
    for (from, to) in [((64, 40), (65, 40)), ((65, 40), (66, 40)), ((66, 40), (66, 39))] {
        expected.draw_line(from.0, from.1, to.0, to.1, Brightness::new(6));
        expected.draw_pixel(to.0, to.1, Brightness::new(0));
    }
    assert_eq!(screen.take_output(), expected.take_output());
    assert_eq!(pixel(&screen, 65, 40), 6);
    assert_eq!(pixel(&screen, 66, 39), 0);
}

#[test]
fn move_of_no_step_changes_nothing() {
    let mut game = GameState::new();
    let mut screen = Screen::new();
    handle_message(Message::Move { dx: 0, dy: 0 }, &mut game, &mut screen);
    assert_eq!(game.position(), (64, 40));
    assert_eq!(game.total_steps(), 0);
    assert_eq!(game.trail().len(), 1);
    assert!(screen.take_output().is_empty());
}

#[test]
fn absolute_move_ends_at_its_goal() {
    let mut game = GameState::new();
    let mut screen = Screen::new();
    handle_message(Message::MoveTo { x: 60, y: 43 }, &mut game, &mut screen);
    assert_eq!(game.position(), (60, 43));
    assert_eq!(game.total_steps(), 1);
    assert_eq!(game.trail().len(), 8);
    assert_eq!(screen.take_output().len(), 7 * (2 + 1) * 7);
}

#[test]
fn player_stops_at_the_edge_of_the_screen() {
    let mut game = GameState::new();
    let mut screen = Screen::new();
    handle_message(Message::Move { dx: 100, dy: 0 }, &mut game, &mut screen);
    assert_eq!(game.position(), (127, 40));
    assert_eq!(game.trail().len(), 101);
    handle_message(Message::MoveTo { x: 200, y: 40 }, &mut game, &mut screen);
    assert_eq!(game.position(), (127, 40));
    assert_eq!(game.total_steps(), 2);
    handle_message(Message::Move { dx: 0, dy: -100 }, &mut game, &mut screen);
    assert_eq!(game.position(), (127, 0));
}

#[test]
fn steps_mode_counts_without_drawing_the_trail() {
    let mut game = GameState::new();
    let mut screen = Screen::new();
    handle_message(Message::SetDisplayMode(DisplayMode::Steps), &mut game, &mut screen);
    assert_eq!(game.display_mode(), DisplayMode::Steps);
    let mut expected = Screen::new();
    expected.render_step_counter(0, Brightness::new(0));
    assert_eq!(screen.take_output(), expected.take_output());
    handle_message(Message::Move { dx: 1, dy: 20 }, &mut game, &mut screen);
    assert_eq!(game.position(), (65, 60));
    assert_eq!(game.total_steps(), 1);
    assert_eq!(game.trail().len(), 22);
    let mut counted = Screen::new();
    counted.render_step_counter(1, Brightness::new(0));
    assert_eq!(screen.take_output(), counted.take_output());
}

#[test]
fn switching_to_the_trail_draws_it() {
    let mut game = GameState::new();
    let mut screen = Screen::new();
    handle_message(Message::Move { dx: 1, dy: 0 }, &mut game, &mut screen);
    screen.take_output();
    handle_message(Message::SetDisplayMode(DisplayMode::Trail), &mut game, &mut screen);
    let mut expected = Screen::new();
    expected.draw_trail(game.trail(), Brightness::new(6), Brightness::new(0));
    assert_eq!(screen.take_output(), expected.take_output());
}

#[test]
fn reset_puts_the_player_back() {
    let mut game = GameState::new();
    let mut screen = Screen::new();
    handle_message(Message::Move { dx: -3, dy: 3 }, &mut game, &mut screen);
    handle_message(Message::Reset, &mut game, &mut screen);
    assert_eq!(game.position(), (64, 40));
    assert_eq!(game.total_steps(), 0);
    assert_eq!(game.trail().len(), 1);
    assert_eq!(game.trail().point(0), (64, 40));
    assert_eq!(game.display_mode(), DisplayMode::Trail);
    assert_eq!(pixel(&screen, 64, 40), 0);
    assert_eq!(pixel(&screen, 63, 40), 15);
}

#[test]
fn move_player_with_more_steps_than_distance_stays_on_the_goal() {
    let mut game = GameState::new();
    let mut screen = Screen::new();
    game.move_player(&mut screen, 1, 0, 3);
    assert_eq!(game.position(), (65, 40));
    assert_eq!(game.trail().len(), 4);
    assert_eq!(game.trail().point(3), (65, 40));
    assert_eq!(game.total_steps(), 1);
}

#[test]
fn packet_with_the_right_checksum_is_carried_out() {
    let mut game = GameState::new();
    let mut screen = Screen::new();
    let encoded = [0u8, 2, 0];
    let envelope = Envelope::new(Message::Move { dx: 2, dy: 0 }, &encoded);
    let outcome = process_packet(Some(envelope), Some(&encoded), &mut game, &mut screen);
    assert_eq!(outcome, PacketOutcome::Handled);
    assert_eq!(game.position(), (66, 40));
}

#[test]
fn packet_with_a_wrong_checksum_is_dropped() {
    let mut game = GameState::new();
    let mut screen = Screen::new();
    let envelope = Envelope { msg: Message::Move { dx: 2, dy: 0 }, checksum: 3 };
    let outcome = process_packet(Some(envelope), Some(&[0, 2, 0]), &mut game, &mut screen);
    assert_eq!(outcome, PacketOutcome::ChecksumMismatch);
    assert_eq!(game.position(), (64, 40));
    assert!(screen.take_output().is_empty());
}

#[test]
fn packet_that_cannot_be_decoded_or_checked_is_dropped() {
    let mut game = GameState::new();
    let mut screen = Screen::new();
    assert_eq!(process_packet(None, None, &mut game, &mut screen), PacketOutcome::Malformed);
    assert_eq!(process_packet(None, Some(&[1]), &mut game, &mut screen), PacketOutcome::Malformed);
    let envelope = Envelope { msg: Message::Reset, checksum: 3 };
    assert_eq!(
        process_packet(Some(envelope), None, &mut game, &mut screen),
        PacketOutcome::ChecksumUnavailable
    );
    assert_eq!(game.position(), (64, 40));
    assert!(screen.take_output().is_empty());
}

#[test]
fn digits_are_most_significant_first() {
    assert_eq!(digits_of(0), vec![0]);
    assert_eq!(digits_of(7), vec![7]);
    assert_eq!(digits_of(10), vec![1, 0]);
    assert_eq!(digits_of(4_294_967_295), vec![4, 2, 9, 4, 9, 6, 7, 2, 9, 5]);
    assert_eq!(digits_of(1_000_000_000), vec![1, 0, 0, 0, 0, 0, 0, 0, 0, 0]);
}

#[test]
fn glyph_fits_while_its_pixels_are_on_the_display() {
    assert!(glyph_fits_at(0, 0, &ZERO));
    assert!(glyph_fits_at(120, 48, &ZERO));
    assert!(!glyph_fits_at(121, 48, &ZERO));
    assert!(!glyph_fits_at(120, 49, &ZERO));
    // the glyph of 1 is a bar in its second row that leaves the last column free
    assert!(glyph_fits_at(121, 62, &ONE));
    assert!(!glyph_fits_at(122, 62, &ONE));
    assert!(!glyph_fits_at(121, 63, &ONE));
    assert!(!glyph_fits_at(250, 0, &ONE));
}

#[test]
fn number_fits_only_with_digits_that_have_a_glyph() {
    assert!(number_fits(4, 4, 0));
    assert!(number_fits(4, 4, 1));
    assert!(number_fits(4, 4, 1_111_111_111));
    assert!(!number_fits(4, 4, 2));
    assert!(!number_fits(4, 4, 19));
    assert!(!number_fits(4, 4, 4_294_967_295));
    assert!(number_fits(4, 62, 1));
    assert!(!number_fits(4, 63, 1));
    assert!(!number_fits(4, 60, 0));
    assert!(!number_fits(120, 4, 10));
}

#[test]
fn trail_is_visible_while_it_stays_on_the_rows_that_can_be_drawn() {
    let mut trail = Trail::new(127, 63);
    assert!(trail_visible(&trail));
    trail.push(0, 0);
    assert!(trail_visible(&trail));
    trail.push(5, 64);
    assert!(!trail_visible(&trail));
    trail.clear(128, 0);
    assert!(!trail_visible(&trail));
}

#[test]
fn game_tells_which_messages_it_can_carry_out() {
    let mut game = GameState::new();
    let mut screen = Screen::new();
    assert!(game.can_show());
    assert!(game.can_handle(Message::Reset));
    assert!(game.can_handle(Message::Move { dx: 0, dy: 0 }));
    assert!(game.can_handle(Message::Move { dx: 100, dy: 23 }));
    assert!(!game.can_handle(Message::Move { dx: 100, dy: 24 }));
    assert!(game.can_handle(Message::Move { dx: -100, dy: -27 }));
    assert!(!game.can_handle(Message::Move { dx: -100, dy: -28 }));
    assert!(!game.can_handle(Message::Move { dx: -128, dy: 0 }));
    assert!(game.can_handle(Message::MoveTo { x: 255, y: 63 }));
    assert!(!game.can_handle(Message::MoveTo { x: 0, y: 64 }));
    assert!(game.can_handle(Message::SetDisplayMode(DisplayMode::Steps)));
    assert!(game.can_move(5, 23, 28));
    assert!(!game.can_move(5, 24, 29));
    assert!(game.can_move(5, 24, 28));
    assert!(game.can_move(0, 100, 0));
    handle_message(Message::SetDisplayMode(DisplayMode::Steps), &mut game, &mut screen);
    // the count goes from 0 to 1, and 1 has a glyph
    assert!(game.can_handle(Message::Move { dx: 0, dy: 30 }));
    handle_message(Message::Move { dx: 0, dy: 30 }, &mut game, &mut screen);
    assert_eq!(game.position(), (64, 70));
    // the next count would be 2, which has no glyph
    assert!(!game.can_handle(Message::Move { dx: 1, dy: 0 }));
    assert!(game.can_handle(Message::Move { dx: 0, dy: 0 }));
    // the trail has left the rows that can be drawn on
    assert!(!game.can_handle(Message::SetDisplayMode(DisplayMode::Trail)));
    assert!(game.can_handle(Message::SetDisplayMode(DisplayMode::Steps)));
    assert!(game.can_handle(Message::Reset));
}
