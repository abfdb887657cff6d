//! The display: a frame buffer of 4-bit pixels, two to a byte, and the words
//! that have to go to the display controller for each drawing operation.
//!
//! Nothing here touches the hardware. Every operation updates the frame
//! buffer and appends the words it owes to an outbox; the caller takes the
//! outbox and clocks the words out.

use vstd::prelude::*;

verus! {

/// Width of the display in pixels.
pub const WIDTH: u8 = 128;

/// Number of rows the frame buffer holds.
pub const HEIGHT: u8 = 80;

/// Number of rows that can be drawn on.
pub const VISIBLE_ROWS: u8 = 64;

/// Bytes in one row of the frame buffer: two pixels to a byte.
pub const ROW_BYTES: usize = 64;

/// Rows in the frame buffer.
pub const ROWS: usize = 80;

/// Command word that selects the column window.
pub const SET_COLUMN: u16 = 0x15;

/// Command word that selects the row window.
pub const SET_ROW: u16 = 0x75;

/// The brightest level.
pub const MAX_LEVEL: u8 = 15;

/// A grey level of a pixel, from 0 to [`MAX_LEVEL`].
#[derive(Clone, Copy, Debug, PartialEq, Eq)]
pub struct Brightness {
    level: u8,
}

impl Brightness {
    #[verifier::type_invariant]
    spec fn in_range(self) -> bool {
        self.level <= MAX_LEVEL
    }

    /// The grey level.
    pub closed spec fn level(self) -> u8 {
        self.level
    }

    /// The grey level `level`.
    pub fn new(level: u8) -> (brightness: Brightness)
        requires
            level <= MAX_LEVEL,
        ensures
            brightness.level() == level,
    {
        Brightness { level }
    }

    /// The brightest level.
    pub fn white() -> (brightness: Brightness)
        ensures
            brightness.level() == MAX_LEVEL,
    {
        Brightness { level: MAX_LEVEL }
    }

    /// The grey level as a number.
    pub fn value(self) -> (level: u8)
        ensures
            level == self.level(),
            level <= MAX_LEVEL,
    {
        proof {
            use_type_invariant(&self);
        }
        self.level
    }
}

/// Whether the controller takes a word as a command or as pixel data.
#[derive(Clone, Copy, Debug, PartialEq, Eq, Structural)]
pub enum Mode {
    Cmd,
    Data,
}

/// A word for the display controller and the mode it is sent in.
#[derive(Clone, Copy, Debug, PartialEq, Eq, Structural)]
pub struct SsiWord {
    pub mode: Mode,
    pub word: u16,
}

/// A command word.
pub open spec fn cmd(word: u16) -> SsiWord {
    SsiWord { mode: Mode::Cmd, word }
}

/// A data word.
pub open spec fn data(word: u16) -> SsiWord {
    SsiWord { mode: Mode::Data, word }
}

/// The byte that holds the pixel in column `x` once that pixel has the grey
/// level `level`: odd columns live in the low half of the byte, even columns
/// in the high half, and the other half is kept.
pub open spec fn blend(current: u8, x: u8, level: u8) -> u8 {
    if x % 2 == 1 {
        (current & 0xf0) | level
    } else {
        (current & 0x0f) | (level << 4)
    }
}

/// The byte that fills two pixels with the grey level `level`.
pub open spec fn solid(level: u8) -> u8 {
    level | (level << 4)
}

/// The words that put one byte on the display at pixel column `x`, row `y`:
/// the column window, the row window, then the byte.
pub open spec fn pixel_words(x: u8, y: u8, value: u8) -> Seq<SsiWord> {
    seq![
        cmd(SET_COLUMN),
        cmd((x / 2) as u16),
        cmd((WIDTH - 1) as u16),
        cmd(SET_ROW),
        cmd(y as u16),
        cmd((HEIGHT - 1) as u16),
        data(value as u16),
    ]
}

/// The words that open the whole display for writing: the row window, then
/// the column window.
pub open spec fn window_words() -> Seq<SsiWord> {
    seq![
        cmd(SET_ROW),
        cmd(0),
        cmd((HEIGHT - 1) as u16),
        cmd(SET_COLUMN),
        cmd(0),
        cmd((WIDTH - 1) as u16),
    ]
}

/// What a screen holds: the frame buffer, row by row, and the words that
/// wait in the outbox.
pub struct ScreenState {
    pub frame: Seq<Seq<u8>>,
    pub sent: Seq<SsiWord>,
}

impl ScreenState {
    /// The frame buffer has [`ROWS`] rows of [`ROW_BYTES`] bytes.
    pub open spec fn wf(self) -> bool {
        &&& self.frame.len() == ROWS
        &&& forall|y: int| 0 <= y < ROWS ==> (#[trigger] self.frame[y]).len() == ROW_BYTES
    }

    /// The grey level of the pixel at `(x, y)`.
    pub open spec fn pixel(self, x: u8, y: u8) -> u8 {
        let byte = self.frame[y as int][(x / 2) as int];
        if x % 2 == 1 {
            byte & 0x0f
        } else {
            byte >> 4
        }
    }

    /// The screen once the pixel at `(x, y)` has been drawn with `level`.
    pub open spec fn with_pixel(self, x: u8, y: u8, level: u8) -> ScreenState {
        let value = blend(self.frame[y as int][(x / 2) as int], x, level);
        ScreenState {
            frame: self.frame.update(y as int, self.frame[y as int].update((x / 2) as int, value)),
            sent: self.sent + pixel_words(x, y, value),
        }
    }

    /// The screen once the pixels `points` have been drawn with `level`, one
    /// after the other.
    pub open spec fn with_pixels(self, points: Seq<(u8, u8)>, level: u8) -> ScreenState
        decreases points.len(),
    {
        if points.len() == 0 {
            self
        } else {
            self.with_pixels(points.drop_last(), level).with_pixel(
                points.last().0,
                points.last().1,
                level,
            )
        }
    }

    /// The screen once it has been filled with `level`: every byte of the
    /// frame buffer is solid, and the window words and one data word for each
    /// byte have been added to the outbox.
    pub open spec fn cleared(self, level: u8) -> ScreenState {
        ScreenState {
            frame: Seq::new(ROWS as nat, |y: int| Seq::new(ROW_BYTES as nat, |x: int| solid(level))),
            sent: self.sent + window_words() + Seq::new(
                (ROWS * ROW_BYTES) as nat,
                |i: int| data(solid(level) as u16),
            ),
        }
    }
}

/// Drawing a pixel sets that pixel and leaves every other pixel as it was.
pub proof fn lemma_with_pixel(state: ScreenState, x: u8, y: u8, level: u8)
    requires
        state.wf(),
        x < WIDTH,
        y < HEIGHT,
        level <= MAX_LEVEL,
    ensures
        state.with_pixel(x, y, level).wf(),
        state.with_pixel(x, y, level).pixel(x, y) == level,
        forall|x2: u8, y2: u8|
            x2 < WIDTH && y2 < HEIGHT && (x2 != x || y2 != y) ==> #[trigger] state.with_pixel(
                x,
                y,
                level,
            ).pixel(x2, y2) == state.pixel(x2, y2),
{
    let after = state.with_pixel(x, y, level);
    let current = state.frame[y as int][(x / 2) as int];
    let value = blend(current, x, level);
    assert(after.frame[y as int][(x / 2) as int] == value);
    assert(((current & 0xf0) | level) & 0x0f == level && ((current & 0xf0) | level) >> 4 == current
        >> 4) by (bit_vector)
        requires
            level <= 15,
    ;
    assert(((current & 0x0f) | (level << 4)) >> 4 == level && ((current & 0x0f) | (level << 4))
        & 0x0f == current & 0x0f) by (bit_vector)
        requires
            level <= 15,
    ;
    assert forall|x2: u8, y2: u8|
        x2 < WIDTH && y2 < HEIGHT && (x2 != x || y2 != y) implies #[trigger] after.pixel(x2, y2)
        == state.pixel(x2, y2) by {
        if y2 == y && x2 / 2 == x / 2 {
            assert(x2 % 2 != x % 2);
        } else if y2 == y {
            assert(after.frame[y2 as int][(x2 / 2) as int] == state.frame[y2 as int][(x2
                / 2) as int]);
        } else {
            assert(after.frame[y2 as int] == state.frame[y2 as int]);
        }
    }
}

/// Whether a line that spans `width` columns and `height` rows, and has
/// come `a` columns and `b` rows from its start, moves on by a column.
pub open spec fn steps_column(width: int, height: int, a: int, b: int) -> bool {
    a < width && 2 * width * (b + 1) >= height * (2 * a + 1)
}

/// Whether such a line moves on by a row.
pub open spec fn steps_row(width: int, height: int, a: int, b: int) -> bool {
    b < height && width * (2 * b + 1) <= 2 * height * (a + 1)
}

/// How far the offset `(a, b)` is from the end of such a line, in steps.
pub open spec fn steps_left(width: int, height: int, a: int, b: int) -> int {
    (if a < width {
        width - a
    } else {
        0
    }) + (if b < height {
        height - b
    } else {
        0
    })
}

/// The rest of such a line from the point that lies `a` columns and `b` rows
/// from its start, as offsets from the start. The line ends at the offset
/// `(width, height)`.
pub open spec fn line_offsets(width: int, height: int, a: int, b: int) -> Seq<(int, int)>
    decreases steps_left(width, height, a, b),
{
    let a2 = if steps_column(width, height, a, b) {
        a + 1
    } else {
        a
    };
    let b2 = if steps_row(width, height, a, b) {
        b + 1
    } else {
        b
    };
    if a2 == a && b2 == b {
        seq![(a, b)]
    } else {
        seq![(a, b)] + line_offsets(width, height, a2, b2)
    }
}

/// The distance between two coordinates.
pub open spec fn span(from: u8, to: u8) -> int {
    if from <= to {
        to - from
    } else {
        from - to
    }
}

/// The coordinate that lies `offset` steps from `from` in the direction of
/// `to`.
pub open spec fn toward(from: u8, to: u8, offset: int) -> int {
    if from < to {
        from + offset
    } else {
        from - offset
    }
}

/// The pixels of the line from `(x0, y0)` to `(x1, y1)`, in the order in
/// which they are drawn.
pub open spec fn line_points(x0: u8, y0: u8, x1: u8, y1: u8) -> Seq<(u8, u8)> {
    line_offsets(span(x0, x1), span(y0, y1), 0, 0).map_values(
        |offset: (int, int)| (toward(x0, x1, offset.0) as u8, toward(y0, y1, offset.1) as u8),
    )
}

/// A line that has not arrived moves on, and it moves on by a column or a
/// row only where it has not yet come as far as it spans.
pub proof fn lemma_line_moves_on(width: int, height: int, a: int, b: int)
    requires
        0 <= a <= width,
        0 <= b <= height,
        !(a == width && b == height),
    ensures
        steps_column(width, height, a, b) || steps_row(width, height, a, b),
        steps_column(width, height, a, b) <==> 2 * width * (b + 1) >= height * (2 * a + 1),
        steps_row(width, height, a, b) <==> width * (2 * b + 1) <= 2 * height * (a + 1),
{
    assert(2 * width * (b + 1) >= height * (2 * a + 1) ==> a < width) by (nonlinear_arith)
        requires
            0 <= a <= width,
            0 <= b <= height,
            !(a == width && b == height),
    ;
    assert(width * (2 * b + 1) <= 2 * height * (a + 1) ==> b < height) by (nonlinear_arith)
        requires
            0 <= a <= width,
            0 <= b <= height,
            !(a == width && b == height),
    ;
    assert(2 * width * (b + 1) >= height * (2 * a + 1) || width * (2 * b + 1) <= 2 * height * (a
        + 1)) by (nonlinear_arith)
        requires
            0 <= a <= width,
            0 <= b <= height,
    ;
}

/// A line stays between its ends and arrives: every offset of the rest of a
/// line lies between `(a, b)` and `(width, height)`, the first is `(a, b)`,
/// the last is `(width, height)`, and from one offset to the next the line
/// moves by at most one column and one row.
pub proof fn lemma_line_arrives(width: int, height: int, a: int, b: int)
    requires
        0 <= a <= width,
        0 <= b <= height,
    ensures
        line_offsets(width, height, a, b).len() >= 1,
        line_offsets(width, height, a, b)[0] == (a, b),
        line_offsets(width, height, a, b).last() == (width, height),
        forall|k: int|
            0 <= k < line_offsets(width, height, a, b).len() ==> a <= (#[trigger] line_offsets(
                width,
                height,
                a,
                b,
            )[k]).0 <= width && b <= line_offsets(width, height, a, b)[k].1 <= height,
        forall|k: int|
            0 <= k < line_offsets(width, height, a, b).len() - 1 ==> {
                let here = #[trigger] line_offsets(width, height, a, b)[k];
                let next = line_offsets(width, height, a, b)[k + 1];
                here.0 <= next.0 <= here.0 + 1 && here.1 <= next.1 <= here.1 + 1 && here != next
            },
    decreases steps_left(width, height, a, b),
{
    let line = line_offsets(width, height, a, b);
    if a == width && b == height {
        assert(line =~= seq![(a, b)]);
    } else {
        lemma_line_moves_on(width, height, a, b);
        let a2 = if steps_column(width, height, a, b) {
            a + 1
        } else {
            a
        };
        let b2 = if steps_row(width, height, a, b) {
            b + 1
        } else {
            b
        };
        lemma_line_arrives(width, height, a2, b2);
        let rest = line_offsets(width, height, a2, b2);
        assert(line =~= seq![(a, b)] + rest);
        assert forall|k: int| 0 <= k < line.len() implies a <= (#[trigger] line[k]).0 <= width
            && b <= line[k].1 <= height by {
            if k > 0 {
                assert(line[k] == rest[k - 1]);
            }
        }
        assert forall|k: int| 0 <= k < line.len() - 1 implies {
            let here = #[trigger] line[k];
            let next = line[k + 1];
            here.0 <= next.0 <= here.0 + 1 && here.1 <= next.1 <= here.1 + 1 && here != next
        } by {
            assert(line[k + 1] == rest[k]);
            if k > 0 {
                assert(line[k] == rest[k - 1]);
            }
        }
    }
}

/// The frame buffer and the outbox.
pub struct Screen {
    fb: [[u8; ROW_BYTES]; ROWS],
    out: Vec<SsiWord>,
}

impl View for Screen {
    type V = ScreenState;

    closed spec fn view(&self) -> ScreenState {
        ScreenState { frame: Seq::new(ROWS as nat, |y: int| self.fb@[y]@), sent: self.out@ }
    }
}

impl Screen {
    /// A dark screen with an empty outbox.
    pub fn new() -> (screen: Screen)
        ensures
            screen@.wf(),
            screen@.sent == Seq::<SsiWord>::empty(),
            forall|x: u8, y: u8| x < WIDTH && y < HEIGHT ==> #[trigger] screen@.pixel(x, y) == 0,
    {
        let screen = Screen { fb: [[0;ROW_BYTES];ROWS], out: Vec::new() };
        assert(0u8 & 0x0f == 0 && 0u8 >> 4 == 0) by (bit_vector);
        screen
    }

    /// The frame buffer always has its full size.
    pub proof fn lemma_wf(&self)
        ensures
            self@.wf(),
    {
    }

    /// Hands over the words that wait in the outbox and empties it.
    pub fn take_output(&mut self) -> (words: Vec<SsiWord>)
        ensures
            words@ == old(self)@.sent,
            final(self)@ == (ScreenState { sent: Seq::empty(), ..old(self)@ }),
    {
        let mut words: Vec<SsiWord> = Vec::new();
        words.append(&mut self.out);
        assert(self@.frame =~= old(self)@.frame);
        words
    }

    /// The byte of the frame buffer that holds the pixels `2 * column` and
    /// `2 * column + 1` of row `y`.
    pub fn byte_at(&self, column: usize, y: usize) -> (byte: u8)
        requires
            column < ROW_BYTES,
            y < ROWS,
        ensures
            byte == self@.frame[y as int][column as int],
    {
        self.fb[y][column]
    }

    fn write_ssi(&mut self, mode: Mode, word: u16)
        ensures
            final(self).fb == old(self).fb,
            final(self)@ == (ScreenState {
                sent: old(self)@.sent.push(SsiWord { mode, word }),
                ..old(self)@
            }),
    {
        self.out.push(SsiWord { mode, word });
        assert(self@.frame =~= old(self)@.frame);
    }

    fn set_col(&mut self, min_curr: u8, max: u8)
        ensures
            final(self).fb == old(self).fb,
            final(self)@ == (ScreenState {
                sent: old(self)@.sent + seq![
                    cmd(SET_COLUMN),
                    cmd(min_curr as u16),
                    cmd(max as u16),
                ],
                ..old(self)@
            }),
    {
        self.write_ssi(Mode::Cmd, SET_COLUMN);
        self.write_ssi(Mode::Cmd, min_curr as u16);
        self.write_ssi(Mode::Cmd, max as u16);
        assert(self@.sent =~= old(self)@.sent + seq![
            cmd(SET_COLUMN),
            cmd(min_curr as u16),
            cmd(max as u16),
        ]);
    }

    fn set_row(&mut self, min_curr: u8, max: u8)
        ensures
            final(self).fb == old(self).fb,
            final(self)@ == (ScreenState {
                sent: old(self)@.sent + seq![cmd(SET_ROW), cmd(min_curr as u16), cmd(max as u16)],
                ..old(self)@
            }),
    {
        self.write_ssi(Mode::Cmd, SET_ROW);
        self.write_ssi(Mode::Cmd, min_curr as u16);
        self.write_ssi(Mode::Cmd, max as u16);
        assert(self@.sent =~= old(self)@.sent + seq![
            cmd(SET_ROW),
            cmd(min_curr as u16),
            cmd(max as u16),
        ]);
    }

    /// Draws the pixel at `(x, y)`.
    pub fn draw_pixel(&mut self, x: u8, y: u8, brightness: Brightness)
        requires
            x < WIDTH,
            y < VISIBLE_ROWS,
        ensures
            final(self)@ == old(self)@.with_pixel(x, y, brightness.level()),
    {
        let ghost before = self@;
        self.set_col(x / 2, WIDTH - 1);
        self.set_row(y, HEIGHT - 1);
        let level = brightness.value();
        let current = self.fb[y as usize][x as usize / 2];
        let value = if x % 2 == 1 {
            (current & 0xf0) | level
        } else {
            (current & 0x0f) | (level << 4)
        };
        self.fb[y as usize][x as usize / 2] = value;
        self.write_ssi(Mode::Data, value as u16);
        proof {
            let after = before.with_pixel(x, y, level);
            assert(self@.sent =~= after.sent);
            assert(self@.frame =~= after.frame) by {
                assert forall|row: int| 0 <= row < ROWS implies self@.frame[row]
                    =~= after.frame[row] by {}
            }
        }
    }

    /// Fills the whole screen with one grey level.
    pub fn clear(&mut self, brightness: Brightness)
        ensures
            final(self)@ == old(self)@.cleared(brightness.level()),
    {
        let ghost before = self@;
        self.set_row(0, HEIGHT - 1);
        self.set_col(0, WIDTH - 1);
        let level = brightness.value();
        let pix = level | (level << 4);
        let ghost start = before.sent + window_words();
        assert(self@.sent =~= start);
        let mut x: usize = 0;
        while x < ROW_BYTES
            invariant
                x <= ROW_BYTES,
                pix == solid(level),
                self@.sent == start + Seq::new((x * ROWS) as nat, |i: int| data(pix as u16)),
                forall|row: int, column: int|
                    0 <= row < ROWS && 0 <= column < x ==> self.fb@[row]@[column] == pix,
            decreases ROW_BYTES - x,
        {
            let mut y: usize = 0;
            while y < ROWS
                invariant
                    x < ROW_BYTES,
                    y <= ROWS,
                    pix == solid(level),
                    self@.sent == start + Seq::new(
                        (x * ROWS + y) as nat,
                        |i: int| data(pix as u16),
                    ),
                    forall|row: int, column: int|
                        0 <= row < ROWS && 0 <= column < x ==> self.fb@[row]@[column] == pix,
                    forall|row: int| 0 <= row < y ==> self.fb@[row]@[x as int] == pix,
                decreases ROWS - y,
            {
                self.write_ssi(Mode::Data, pix as u16);
                let ghost held = self.fb;
                self.fb[y][x] = pix;
                proof {
                    assert(self.fb@[y as int]@ =~= held@[y as int]@.update(x as int, pix));
                    assert forall|row: int| 0 <= row < ROWS && row != y implies self.fb@[row]
                        == held@[row] by {}
                    assert forall|row: int, column: int|
                        0 <= row < ROWS && 0 <= column < x implies self.fb@[row]@[column]
                        == pix by {
                        assert(held@[row]@[column] == pix);
                    }
                    assert forall|row: int| 0 <= row < y + 1 implies self.fb@[row]@[x as int]
                        == pix by {
                        if row < y {
                            assert(held@[row]@[x as int] == pix);
                        }
                    }
                }
                y += 1;
                assert(self@.sent =~= start + Seq::new(
                    (x * ROWS + y) as nat,
                    |i: int| data(pix as u16),
                ));
            }
            x += 1;
        }
        proof {
            let after = before.cleared(level);
            assert(self@.sent =~= after.sent);
            assert(self@.frame =~= after.frame) by {
                assert forall|row: int| 0 <= row < ROWS implies self@.frame[row]
                    =~= after.frame[row] by {}
            }
        }
    }

    /// Draws the line from `(x0, y0)` to `(x1, y1)`, both ends included.
    pub fn draw_line(&mut self, x0: u8, y0: u8, x1: u8, y1: u8, brightness: Brightness)
        requires
            x0 < WIDTH,
            x1 < WIDTH,
            y0 < VISIBLE_ROWS,
            y1 < VISIBLE_ROWS,
        ensures
            final(self)@ == old(self)@.with_pixels(line_points(x0, y0, x1, y1), brightness.level()),
    {
        let ghost before = self@;
        let ghost level = brightness.level();
        let ghost width = span(x0, x1);
        let ghost height = span(y0, y1);
        let ghost place = |offset: (int, int)|
            (toward(x0, x1, offset.0) as u8, toward(y0, y1, offset.1) as u8);
        let ghost whole = line_offsets(width, height, 0, 0);
        let ghost mut drawn: Seq<(int, int)> = Seq::empty();
        let ghost mut a: int = 0;
        let ghost mut b: int = 0;
        let mut x: i16 = x0 as i16;
        let mut y: i16 = y0 as i16;
        let x_end: i16 = x1 as i16;
        let y_end: i16 = y1 as i16;
        let dx: i16 = if x_end >= x {
            x_end - x
        } else {
            x - x_end
        };
        let dy: i16 = if y_end >= y {
            y - y_end
        } else {
            y_end - y
        };
        let sx: i16 = if x < x_end {
            1
        } else {
            -1
        };
        let sy: i16 = if y < y_end {
            1
        } else {
            -1
        };
        let mut err: i16 = dx + dy;
        assert(drawn.map_values(place) =~= Seq::<(u8, u8)>::empty());
        assert(width * (0 + 1) - height * (0 + 1) == width - height) by (nonlinear_arith);
        loop
            invariant_except_break
                drawn + line_offsets(width, height, a, b) == whole,
                self@ == before.with_pixels(drawn.map_values(place), level),
            invariant
                level == brightness.level(),
                width == span(x0, x1),
                height == span(y0, y1),
                whole == line_offsets(width, height, 0, 0),
                place == (|offset: (int, int)|
                    (toward(x0, x1, offset.0) as u8, toward(y0, y1, offset.1) as u8)),
                x0 < WIDTH,
                x1 < WIDTH,
                y0 < VISIBLE_ROWS,
                y1 < VISIBLE_ROWS,
                dx == width,
                dy == -height,
                sx == (if x0 < x1 {
                    1i16
                } else {
                    -1i16
                }),
                sy == (if y0 < y1 {
                    1i16
                } else {
                    -1i16
                }),
                x_end == x1,
                y_end == y1,
                0 <= a <= width,
                0 <= b <= height,
                x == toward(x0, x1, a),
                y == toward(y0, y1, b),
                err == width * (b + 1) - height * (a + 1),
                -2 * height <= err <= 2 * width,
            ensures
                self@ == before.with_pixels(whole.map_values(place), level),
            decreases steps_left(width, height, a, b),
        {
            let ghost held = drawn;
            self.draw_pixel(x as u8, y as u8, brightness);
            proof {
                drawn = drawn.push((a, b));
                assert(drawn.map_values(place).drop_last() =~= held.map_values(place));
                assert(drawn.map_values(place).last() == (x as u8, y as u8));
            }
            if x == x_end && y == y_end {
                proof {
                    assert(a == width && b == height);
                    assert(line_offsets(width, height, a, b) =~= seq![(a, b)]);
                    assert(drawn =~= whole);
                }
                break ;
            }
            proof {
                lemma_line_moves_on(width, height, a, b);
                let a2 = if steps_column(width, height, a, b) {
                    a + 1
                } else {
                    a
                };
                let b2 = if steps_row(width, height, a, b) {
                    b + 1
                } else {
                    b
                };
                assert(line_offsets(width, height, a, b) =~= seq![(a, b)] + line_offsets(
                    width,
                    height,
                    a2,
                    b2,
                ));
                assert(drawn + line_offsets(width, height, a2, b2) =~= whole);
                assert(2 * err >= -height <==> 2 * width * (b + 1) >= height * (2 * a + 1))
                    by (nonlinear_arith)
                    requires
                        err == width * (b + 1) - height * (a + 1),
                ;
                assert(2 * err <= width <==> width * (2 * b + 1) <= 2 * height * (a + 1))
                    by (nonlinear_arith)
                    requires
                        err == width * (b + 1) - height * (a + 1),
                ;
                assert(width * (b + 1) - height * (a + 1 + 1) == width * (b + 1) - height * (a + 1)
                    - height) by (nonlinear_arith);
                assert(width * (b + 1 + 1) - height * (a + 1 + 1) == width * (b + 1) - height * (a
                    + 1 + 1) + width) by (nonlinear_arith);
                assert(width * (b + 1 + 1) - height * (a + 1) == width * (b + 1) - height * (a + 1)
                    + width) by (nonlinear_arith);
            }
            let e2 = 2 * err;
            if e2 >= dy {
                err += dy;
                x += sx;
                proof {
                    a = a + 1;
                }
            }
            if e2 <= dx {
                err += dx;
                y += sy;
                proof {
                    b = b + 1;
                }
            }
        }
    }
}

} // verus!
