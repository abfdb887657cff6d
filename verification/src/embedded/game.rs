//! The game: a player that is moved over the screen pixel by pixel, the
//! trail it leaves, and the count of the moves made.

use crate::embedded::drawing::{
    decimal_digits, digits_fit, number_fits, points_visible, trail_visible,
};
use crate::embedded::message::{DisplayMode, Envelope, Message};
use crate::embedded::screen::{
    line_points, Brightness, Screen, ScreenState, HEIGHT, MAX_LEVEL, VISIBLE_ROWS, WIDTH,
};
use crate::embedded::trail::{Trail, MAX_POINTS};
use vstd::prelude::*;

verus! {

/// Grey level of the trail.
pub const TRAIL_LEVEL: u8 = 6;

/// Grey level of the player.
pub const PLAYER_LEVEL: u8 = 0;

/// What a game holds, as plain values.
pub struct GameView {
    pub x: u8,
    pub y: u8,
    pub trail: Seq<(u8, u8)>,
    pub total_steps: u32,
    pub display_mode: DisplayMode,
}

/// The state of the game: where the player is, where it has been, how many
/// moves were made and what the screen shows.
pub struct GameState {
    x: u8,
    y: u8,
    trail: Trail,
    total_steps: u32,
    display_mode: DisplayMode,
}

impl View for GameState {
    type V = GameView;

    closed spec fn view(&self) -> GameView {
        GameView {
            x: self.x,
            y: self.y,
            trail: self.trail@,
            total_steps: self.total_steps,
            display_mode: self.display_mode,
        }
    }
}

/// A trail once `point` has been added: a full trail first loses its oldest
/// point.
pub open spec fn pushed(trail: Seq<(u8, u8)>, point: (u8, u8)) -> Seq<(u8, u8)> {
    (if trail.len() == MAX_POINTS {
        trail.skip(1)
    } else {
        trail
    }).push(point)
}

/// One pixel nearer to the goal: `at` moved by one in the direction of the
/// sign of `delta`, and kept between 0 and `limit`.
pub open spec fn nudged(at: u8, delta: int, limit: u8) -> u8 {
    let target = if delta > 0 {
        at + 1
    } else {
        at - 1
    };
    if target < 0 {
        0
    } else if target > limit {
        limit
    } else {
        target as u8
    }
}

/// What is left of `delta` once a step has been taken in its direction.
pub open spec fn reduced(delta: int) -> int {
    if delta > 0 {
        delta - 1
    } else {
        delta + 1
    }
}

/// A player on the move: where it is, and what is left to go in each
/// direction.
pub struct Stride {
    pub x: u8,
    pub y: u8,
    pub dx: int,
    pub dy: int,
}

impl Stride {
    /// One step: a column nearer while columns are left, else a row nearer
    /// while rows are left, else on the spot.
    pub open spec fn step(self) -> Stride {
        if self.dx != 0 {
            Stride { x: nudged(self.x, self.dx, (WIDTH - 1) as u8), dx: reduced(self.dx), ..self }
        } else if self.dy != 0 {
            Stride { y: nudged(self.y, self.dy, (HEIGHT - 1) as u8), dy: reduced(self.dy), ..self }
        } else {
            self
        }
    }

    /// The stride after `steps` steps.
    pub open spec fn after(self, steps: nat) -> Stride
        decreases steps,
    {
        if steps == 0 {
            self
        } else {
            self.after((steps - 1) as nat).step()
        }
    }

    /// The player starts and stays on the rows that can be drawn on for
    /// `steps` steps.
    pub open spec fn stays_visible(self, steps: nat) -> bool {
        forall|k: nat| k <= steps ==> (#[trigger] self.after(k)).y < VISIBLE_ROWS
    }

    /// The number of row steps among the first `steps` steps: rows are only
    /// walked once the columns are done.
    pub open spec fn rows_walked(self, steps: nat) -> int {
        let spare = steps - magnitude(self.dx);
        if spare <= 0 {
            0
        } else if spare >= magnitude(self.dy) {
            magnitude(self.dy)
        } else {
            spare
        }
    }

    /// The row reached once `rows` row steps have been taken.
    pub open spec fn row_after(self, rows: int) -> int {
        let goal = if self.dy > 0 {
            self.y + rows
        } else {
            self.y - rows
        };
        if goal < 0 {
            0
        } else if goal > HEIGHT - 1 {
            HEIGHT - 1
        } else {
            goal
        }
    }

    /// Where the rows stand after `steps` steps, in closed form.
    pub proof fn lemma_rows_after(self, steps: nat)
        requires
            self.y < HEIGHT,
        ensures
            self.after(steps).y == self.row_after(self.rows_walked(steps)),
            self.after(steps).dy == (if self.dy > 0 {
                self.dy - self.rows_walked(steps)
            } else {
                self.dy + self.rows_walked(steps)
            }),
            self.after(steps).dx == (if steps >= magnitude(self.dx) {
                0
            } else if self.dx > 0 {
                self.dx - steps
            } else {
                self.dx + steps
            }),
        decreases steps,
    {
        if steps > 0 {
            self.lemma_rows_after((steps - 1) as nat);
        }
    }

    /// A walk stays on the rows that can be drawn on exactly when it starts
    /// and ends on them: on its way the player never leaves the rows between
    /// the two.
    pub proof fn lemma_stays_visible(self, steps: nat)
        requires
            self.y < HEIGHT,
        ensures
            self.stays_visible(steps) <==> self.y < VISIBLE_ROWS && self.after(steps).y
                < VISIBLE_ROWS,
    {
        if self.y < VISIBLE_ROWS && self.after(steps).y < VISIBLE_ROWS {
            assert forall|k: nat| k <= steps implies (#[trigger] self.after(k)).y
                < VISIBLE_ROWS by {
                self.lemma_rows_after(k);
                self.lemma_rows_after(steps);
            }
        }
        if self.stays_visible(steps) {
            assert(self.after(0).y < VISIBLE_ROWS);
            assert(self.after(steps).y < VISIBLE_ROWS);
        }
    }
}

impl GameView {
    /// The game at its start: the player in the middle, a trail of that one
    /// point, no move made, the trail shown.
    pub open spec fn initial() -> GameView {
        GameView {
            x: (WIDTH / 2) as u8,
            y: (HEIGHT / 2) as u8,
            trail: seq![((WIDTH / 2) as u8, (HEIGHT / 2) as u8)],
            total_steps: 0,
            display_mode: DisplayMode::Trail,
        }
    }

    /// Whether the screen can show this game: the trail lies on the rows that
    /// can be drawn on, or the count of moves can be written.
    pub open spec fn showable(self) -> bool {
        match self.display_mode {
            DisplayMode::Trail => points_visible(self.trail),
            DisplayMode::Steps => digits_fit(4, 4, decimal_digits(self.total_steps as nat)),
        }
    }

    /// The screen once it shows this game.
    pub open spec fn shown_on(self, screen: ScreenState) -> ScreenState {
        match self.display_mode {
            DisplayMode::Trail => screen.with_trail(self.trail, TRAIL_LEVEL, PLAYER_LEVEL),
            DisplayMode::Steps => screen.cleared(MAX_LEVEL).with_number(
                4,
                4,
                self.total_steps,
                PLAYER_LEVEL,
            ),
        }
    }

    /// The game put back to its start; what the screen shows is kept.
    pub open spec fn reset(self) -> GameView {
        GameView { display_mode: self.display_mode, ..GameView::initial() }
    }

    /// The count of moves after one more move.
    pub open spec fn next_count(self) -> u32 {
        if self.total_steps == u32::MAX {
            0
        } else {
            (self.total_steps + 1) as u32
        }
    }

    /// The player of this game about to go `dx` columns and `dy` rows.
    pub open spec fn stride(self, dx: int, dy: int) -> Stride {
        Stride { x: self.x, y: self.y, dx, dy }
    }

    /// The game after `steps` steps of a move: the player is where its
    /// stride has taken it, and every point reached has joined the trail.
    pub open spec fn walked(self, dx: int, dy: int, steps: nat) -> GameView
        decreases steps,
    {
        if steps == 0 {
            self
        } else {
            let before = self.walked(dx, dy, (steps - 1) as nat);
            let at = self.stride(dx, dy).after(steps);
            GameView { x: at.x, y: at.y, trail: pushed(before.trail, (at.x, at.y)), ..before }
        }
    }

    /// The screen after `steps` steps of a move: while the trail is shown,
    /// each step is drawn as a line from where the player was to where it
    /// is, with the player at its end.
    pub open spec fn walk_drawn(self, screen: ScreenState, dx: int, dy: int, steps: nat)
        -> ScreenState
        decreases steps,
    {
        if steps == 0 || self.display_mode != DisplayMode::Trail {
            screen
        } else {
            let from = self.stride(dx, dy).after((steps - 1) as nat);
            let to = self.stride(dx, dy).after(steps);
            self.walk_drawn(screen, dx, dy, (steps - 1) as nat).with_pixels(
                line_points(from.x, from.y, to.x, to.y),
                TRAIL_LEVEL,
            ).with_pixel(to.x, to.y, PLAYER_LEVEL)
        }
    }

    /// Whether a move of `steps` steps can be shown: while the trail is
    /// shown the player stays on the rows that can be drawn on, and where
    /// the count of moves is shown the new count can be written.
    pub open spec fn can_move(self, dx: int, dy: int, steps: nat) -> bool {
        steps > 0 ==> match self.display_mode {
            DisplayMode::Trail => self.stride(dx, dy).stays_visible(steps),
            DisplayMode::Steps => digits_fit(4, 4, decimal_digits(self.next_count() as nat)),
        }
    }

    /// The game and the screen after a move of `steps` steps: the walk, then
    /// one more on the count of moves, and the count written where the
    /// screen shows it. A move of no step changes nothing.
    pub open spec fn moved(self, screen: ScreenState, dx: int, dy: int, steps: nat) -> (
        GameView,
        ScreenState,
    ) {
        if steps == 0 {
            (self, screen)
        } else {
            let game = GameView {
                total_steps: self.next_count(),
                ..self.walked(dx, dy, steps)
            };
            let drawn = self.walk_drawn(screen, dx, dy, steps);
            (
                game,
                if self.display_mode == DisplayMode::Steps {
                    drawn.cleared(MAX_LEVEL).with_number(4, 4, game.total_steps, PLAYER_LEVEL)
                } else {
                    drawn
                },
            )
        }
    }
}

/// The distance that a relative move asks for.
pub open spec fn magnitude(delta: int) -> int {
    if delta < 0 {
        -delta
    } else {
        delta
    }
}

/// The steps that a relative move takes.
pub open spec fn steps_of(dx: int, dy: int) -> nat {
    (magnitude(dx) + magnitude(dy)) as nat
}

/// Whether a message can be carried out: the steps of a relative move can
/// be counted in an `i8`, and what the message makes the screen show can be
/// shown.
pub open spec fn can_handle(game: GameView, msg: Message) -> bool {
    match msg {
        Message::Move { dx, dy } => steps_of(dx as int, dy as int) <= i8::MAX && game.can_move(
            dx as int,
            dy as int,
            steps_of(dx as int, dy as int),
        ),
        Message::MoveTo { x, y } => game.can_move(
            x - game.x,
            y - game.y,
            steps_of(x - game.x, y - game.y),
        ),
        Message::Reset => true,
        Message::SetDisplayMode(mode) => (GameView { display_mode: mode, ..game }).showable(),
    }
}

/// The game and the screen once a message has been carried out.
pub open spec fn handled(game: GameView, screen: ScreenState, msg: Message) -> (
    GameView,
    ScreenState,
) {
    match msg {
        Message::Move { dx, dy } => game.moved(
            screen,
            dx as int,
            dy as int,
            steps_of(dx as int, dy as int),
        ),
        Message::MoveTo { x, y } => game.moved(
            screen,
            x - game.x,
            y - game.y,
            steps_of(x - game.x, y - game.y),
        ),
        Message::Reset => (game.reset(), game.reset().shown_on(screen)),
        Message::SetDisplayMode(mode) => {
            let switched = GameView { display_mode: mode, ..game };
            (switched, switched.shown_on(screen))
        },
    }
}

impl GameState {
    /// The player is on the screen and the trail fits its storage.
    pub closed spec fn wf(&self) -> bool {
        &&& self.trail.wf()
        &&& self.x < WIDTH
        &&& self.y < HEIGHT
    }

    /// A game at its start.
    pub fn new() -> (game: GameState)
        ensures
            game.wf(),
            game@ == GameView::initial(),
    {
        let x = WIDTH / 2;
        let y = HEIGHT / 2;
        GameState {
            x,
            y,
            trail: Trail::new(x, y),
            total_steps: 0,
            display_mode: DisplayMode::Trail,
        }
    }

    /// Where the player is.
    pub fn position(&self) -> (at: (u8, u8))
        ensures
            at == (self@.x, self@.y),
    {
        (self.x, self.y)
    }

    /// The number of moves made.
    pub fn total_steps(&self) -> (count: u32)
        ensures
            count == self@.total_steps,
    {
        self.total_steps
    }

    /// What the screen shows.
    pub fn display_mode(&self) -> (mode: DisplayMode)
        ensures
            mode == self@.display_mode,
    {
        self.display_mode
    }

    /// The trail of the player.
    pub fn trail(&self) -> (trail: &Trail)
        ensures
            trail@ == self@.trail,
            self.wf() ==> trail.wf(),
    {
        &self.trail
    }

    /// Puts the player back in the middle, forgets the trail and the count of
    /// moves, and shows the game again.
    pub fn reset(&mut self, screen: &mut Screen)
        ensures
            final(self).wf(),
            final(self)@ == old(self)@.reset(),
            final(screen)@ == old(self)@.reset().shown_on(old(screen)@),
    {
        proof {
            lemma_fresh_game_showable(self@.display_mode);
        }
        self.x = WIDTH / 2;
        self.y = HEIGHT / 2;
        self.total_steps = 0;
        self.trail.clear(self.x, self.y);
        self.refresh_display(screen);
    }

    /// Shows the game on the screen: the trail, or the count of moves.
    pub fn refresh_display(&self, screen: &mut Screen)
        requires
            self.wf(),
            self@.showable(),
        ensures
            final(screen)@ == self@.shown_on(old(screen)@),
    {
        match self.display_mode {
            DisplayMode::Trail => {
                screen.draw_trail(
                    &self.trail,
                    Brightness::new(TRAIL_LEVEL),
                    Brightness::new(PLAYER_LEVEL),
                )
            },
            DisplayMode::Steps => screen.render_step_counter(
                self.total_steps,
                Brightness::new(PLAYER_LEVEL),
            ),
        }
    }

    /// Whether the screen can show the game as it is.
    pub fn can_show(&self) -> (ok: bool)
        requires
            self.wf(),
        ensures
            ok == self@.showable(),
    {
        match self.display_mode {
            DisplayMode::Trail => trail_visible(&self.trail),
            DisplayMode::Steps => number_fits(4, 4, self.total_steps),
        }
    }

    /// Whether a move of `steps` steps can be shown.
    pub fn can_move(&self, dx: i16, dy: i16, steps: u16) -> (ok: bool)
        requires
            self.wf(),
        ensures
            ok == self@.can_move(dx as int, dy as int, steps as nat),
    {
        if steps == 0 {
            return true;
        }
        match self.display_mode {
            DisplayMode::Trail => {
                let ghost stride = self@.stride(dx as int, dy as int);
                proof {
                    stride.lemma_stays_visible(steps as nat);
                    stride.lemma_rows_after(steps as nat);
                }
                let across: i32 = if dx < 0 {
                    -(dx as i32)
                } else {
                    dx as i32
                };
                let down: i32 = if dy < 0 {
                    -(dy as i32)
                } else {
                    dy as i32
                };
                let spare: i32 = steps as i32 - across;
                let rows: i32 = if spare <= 0 {
                    0
                } else if spare >= down {
                    down
                } else {
                    spare
                };
                let goal: i32 = if dy > 0 {
                    self.y as i32 + rows
                } else {
                    self.y as i32 - rows
                };
                let last: i32 = if goal < 0 {
                    0
                } else if goal > HEIGHT as i32 - 1 {
                    HEIGHT as i32 - 1
                } else {
                    goal
                };
                self.y < VISIBLE_ROWS && last < VISIBLE_ROWS as i32
            },
            DisplayMode::Steps => number_fits(4, 4, self.total_steps.wrapping_add(1)),
        }
    }

    /// Whether `msg` can be carried out.
    pub fn can_handle(&self, msg: Message) -> (ok: bool)
        requires
            self.wf(),
        ensures
            ok == can_handle(self@, msg),
    {
        match msg {
            Message::Move { dx, dy } => {
                let across: i16 = if dx < 0 {
                    -(dx as i16)
                } else {
                    dx as i16
                };
                let down: i16 = if dy < 0 {
                    -(dy as i16)
                } else {
                    dy as i16
                };
                across + down <= i8::MAX as i16 && self.can_move(
                    dx as i16,
                    dy as i16,
                    (across + down) as u16,
                )
            },
            Message::MoveTo { x, y } => {
                let dx = x as i16 - self.x as i16;
                let dy = y as i16 - self.y as i16;
                let across: i16 = if dx < 0 {
                    -dx
                } else {
                    dx
                };
                let down: i16 = if dy < 0 {
                    -dy
                } else {
                    dy
                };
                self.can_move(dx, dy, (across + down) as u16)
            },
            Message::Reset => true,
            Message::SetDisplayMode(mode) => match mode {
                DisplayMode::Trail => trail_visible(&self.trail),
                DisplayMode::Steps => number_fits(4, 4, self.total_steps),
            },
        }
    }

    /// Moves the player `steps` steps: first along the columns while `dx`
    /// lasts, then along the rows while `dy` lasts.
    pub fn move_player(&mut self, screen: &mut Screen, dx: i16, dy: i16, steps: u16)
        requires
            old(self).wf(),
            old(self)@.can_move(dx as int, dy as int, steps as nat),
        ensures
            final(self).wf(),
            (final(self)@, final(screen)@) == old(self)@.moved(
                old(screen)@,
                dx as int,
                dy as int,
                steps as nat,
            ),
    {
        if steps == 0 {
            return ;
        }
        let ghost start = self@;
        let ghost ground = screen@;
        let ghost stride = start.stride(dx as int, dy as int);
        let ghost goal_dx = dx as int;
        let ghost goal_dy = dy as int;
        let mut dx = dx;
        let mut dy = dy;
        let mut done: u16 = 0;
        while done < steps
            invariant
                done <= steps,
                self.wf(),
                stride == start.stride(goal_dx, goal_dy),
                start.can_move(goal_dx, goal_dy, steps as nat),
                self@ == start.walked(goal_dx, goal_dy, done as nat),
                screen@ == start.walk_drawn(ground, goal_dx, goal_dy, done as nat),
                self@.display_mode == start.display_mode,
                self@.total_steps == start.total_steps,
                (Stride { x: self@.x, y: self@.y, dx: dx as int, dy: dy as int }) == stride.after(
                    done as nat,
                ),
            decreases steps - done,
        {
            let prev_x = self.x;
            let prev_y = self.y;
            if dx != 0 {
                if dx > 0 {
                    self.x = if self.x >= WIDTH - 1 {
                        WIDTH - 1
                    } else {
                        self.x + 1
                    };
                    dx -= 1;
                } else {
                    self.x = if self.x == 0 {
                        0
                    } else {
                        self.x - 1
                    };
                    dx += 1;
                }
            } else if dy != 0 {
                if dy > 0 {
                    self.y = if self.y >= HEIGHT - 1 {
                        HEIGHT - 1
                    } else {
                        self.y + 1
                    };
                    dy -= 1;
                } else {
                    self.y = if self.y == 0 {
                        0
                    } else {
                        self.y - 1
                    };
                    dy += 1;
                }
            }
            self.trail.push(self.x, self.y);
            proof {
                assert(stride.after((done + 1) as nat) == stride.after(done as nat).step());
                if start.display_mode == DisplayMode::Trail {
                    assert(stride.after(done as nat).y < VISIBLE_ROWS);
                    assert(stride.after((done + 1) as nat).y < VISIBLE_ROWS);
                }
            }
            if self.display_mode == DisplayMode::Trail {
                screen.draw_line(prev_x, prev_y, self.x, self.y, Brightness::new(TRAIL_LEVEL));
                screen.draw_pixel(self.x, self.y, Brightness::new(PLAYER_LEVEL));
            }
            done += 1;
        }
        self.total_steps = self.total_steps.wrapping_add(1);
        if self.display_mode == DisplayMode::Steps {
            screen.render_step_counter(self.total_steps, Brightness::new(PLAYER_LEVEL));
        }
    }
}

/// A game at its start can always be shown: its trail is the middle of the
/// screen, and its count of moves is 0.
pub proof fn lemma_fresh_game_showable(mode: DisplayMode)
    ensures
        (GameView { display_mode: mode, ..GameView::initial() }).showable(),
{
    let game = GameView { display_mode: mode, ..GameView::initial() };
    assert(decimal_digits(0) =~= seq![0u8]);
    assert forall|i: int, j: int|
        0 <= i < crate::embedded::font::GLYPH_ROWS && 0 <= j < crate::embedded::font::GLYPH_COLUMNS
            && #[trigger] crate::embedded::font::digit_bits(0)[i][j] implies 4 + j < WIDTH && 4 + i
        < VISIBLE_ROWS by {}
}

/// Carries out a message.
pub fn handle_message(msg: Message, game: &mut GameState, screen: &mut Screen)
    requires
        old(game).wf(),
        can_handle(old(game)@, msg),
    ensures
        final(game).wf(),
        (final(game)@, final(screen)@) == handled(old(game)@, old(screen)@, msg),
{
    match msg {
        Message::Move { dx, dy } => {
            let across: i8 = if dx < 0 {
                -dx
            } else {
                dx
            };
            let down: i8 = if dy < 0 {
                -dy
            } else {
                dy
            };
            let steps = (across + down) as u16;
            game.move_player(screen, dx as i16, dy as i16, steps);
        },
        Message::MoveTo { x, y } => {
            let dx = x as i16 - game.x as i16;
            let dy = y as i16 - game.y as i16;
            let across: i16 = if dx < 0 {
                -dx
            } else {
                dx
            };
            let down: i16 = if dy < 0 {
                -dy
            } else {
                dy
            };
            let steps = (across + down) as u16;
            game.move_player(screen, dx, dy, steps);
        },
        Message::Reset => game.reset(screen),
        Message::SetDisplayMode(mode) => {
            game.display_mode = mode;
            game.refresh_display(screen);
        },
    }
}

/// What became of a packet.
#[derive(Clone, Copy, Debug, PartialEq, Eq, Structural)]
pub enum PacketOutcome {
    /// The message was carried out.
    Handled,
    /// The packet could not be decoded.
    Malformed,
    /// The message could not be encoded again to check its sum.
    ChecksumUnavailable,
    /// The checksum that came with the message is not the sum of its bytes.
    ChecksumMismatch,
}

/// What becomes of a packet, given what decoding it gave and the bytes that
/// its message is encoded as.
pub open spec fn packet_outcome(decoded: Option<Envelope>, encoded: Option<Seq<u8>>)
    -> PacketOutcome {
    match (decoded, encoded) {
        (None, _) => PacketOutcome::Malformed,
        (Some(envelope), None) => PacketOutcome::ChecksumUnavailable,
        (Some(envelope), Some(bytes)) => if envelope.checksum
            == crate::embedded::message::checksum_of(bytes) {
            PacketOutcome::Handled
        } else {
            PacketOutcome::ChecksumMismatch
        },
    }
}

/// Takes in a packet. `decoded` is what decoding the packet gave, `None`
/// where it could not be decoded; `encoded` are the bytes that the decoded
/// message is encoded as, `None` where it could not be encoded. The message
/// is carried out when its checksum is right, and dropped otherwise.
pub fn process_packet(
    decoded: Option<Envelope>,
    encoded: Option<&[u8]>,
    game: &mut GameState,
    screen: &mut Screen,
) -> (outcome: PacketOutcome)
    requires
        old(game).wf(),
        packet_outcome(
            decoded,
            match encoded {
                Some(bytes) => Some(bytes@),
                None => None,
            },
        ) == PacketOutcome::Handled ==> can_handle(old(game)@, decoded.unwrap().msg),
    ensures
        final(game).wf(),
        outcome == packet_outcome(
            decoded,
            match encoded {
                Some(bytes) => Some(bytes@),
                None => None,
            },
        ),
        (final(game)@, final(screen)@) == (if outcome == PacketOutcome::Handled {
            handled(old(game)@, old(screen)@, decoded.unwrap().msg)
        } else {
            (old(game)@, old(screen)@)
        }),
{
    match decoded {
        Some(envelope) => {
            match encoded {
                Some(bytes) => {
                    if envelope.is_intact(bytes) {
                        handle_message(envelope.msg, game, screen);
                        PacketOutcome::Handled
                    } else {
                        PacketOutcome::ChecksumMismatch
                    }
                },
                None => PacketOutcome::ChecksumUnavailable,
            }
        },
        None => PacketOutcome::Malformed,
    }
}

} // verus!
