//! Drawing that is made of pixels and lines: glyphs, boxes, numbers and the
//! trail.

use crate::embedded::font::{
    digit_bits, glyph_bits, Character, GLYPH_COLUMNS, GLYPH_COUNT, GLYPH_ROWS, NUMBERS,
};
use crate::embedded::screen::{
    line_points, Brightness, Screen, ScreenState, MAX_LEVEL, VISIBLE_ROWS, WIDTH,
};
use crate::embedded::trail::Trail;
use vstd::prelude::*;

verus! {

/// The pixels that the first `cells` cells of a glyph put on the screen when
/// its top left corner is at `(x, y)`: cells are counted row by row, and a
/// cell gives a pixel where its bit is set.
pub open spec fn glyph_points_upto(x: u8, y: u8, bits: Seq<Seq<bool>>, cells: nat) -> Seq<(u8, u8)>
    decreases cells,
{
    if cells == 0 {
        Seq::empty()
    } else {
        let i = (cells - 1) / (GLYPH_COLUMNS as int);
        let j = (cells - 1) % (GLYPH_COLUMNS as int);
        let earlier = glyph_points_upto(x, y, bits, (cells - 1) as nat);
        if bits[i][j] {
            earlier.push(((x + j) as u8, (y + i) as u8))
        } else {
            earlier
        }
    }
}

/// The pixels that a glyph puts on the screen when its top left corner is at
/// `(x, y)`.
pub open spec fn glyph_points(x: u8, y: u8, bits: Seq<Seq<bool>>) -> Seq<(u8, u8)> {
    glyph_points_upto(x, y, bits, (GLYPH_ROWS * GLYPH_COLUMNS) as nat)
}

/// Every pixel of the glyph falls on the part of the screen that can be
/// drawn on.
pub open spec fn glyph_fits(x: u8, y: u8, bits: Seq<Seq<bool>>) -> bool {
    forall|i: int, j: int|
        0 <= i < GLYPH_ROWS && 0 <= j < GLYPH_COLUMNS && #[trigger] bits[i][j] ==> x + j < WIDTH
            && y + i < VISIBLE_ROWS
}

/// The pixels of column `x` from row `y0` to row `y1`, top first.
pub open spec fn column_points(x: u8, y0: u8, y1: u8) -> Seq<(u8, u8)> {
    if y0 <= y1 {
        Seq::new((y1 - y0 + 1) as nat, |i: int| (x, (y0 + i) as u8))
    } else {
        Seq::empty()
    }
}

/// The pixels of the first `columns` columns of a box whose left column is
/// `x0`, column by column.
pub open spec fn box_points_upto(x0: u8, y0: u8, y1: u8, columns: nat) -> Seq<(u8, u8)>
    decreases columns,
{
    if columns == 0 {
        Seq::empty()
    } else {
        box_points_upto(x0, y0, y1, (columns - 1) as nat) + column_points(
            (x0 + columns - 1) as u8,
            y0,
            y1,
        )
    }
}

/// The pixels of the box with the corners `(x0, y0)` and `(x1, y1)`, column
/// by column and top first; none when a corner is on the wrong side.
pub open spec fn box_points(x0: u8, y0: u8, x1: u8, y1: u8) -> Seq<(u8, u8)> {
    if x0 <= x1 {
        box_points_upto(x0, y0, y1, (x1 - x0 + 1) as nat)
    } else {
        Seq::empty()
    }
}

/// The decimal digits of `value`, the most significant first.
pub open spec fn decimal_digits(value: nat) -> Seq<u8>
    decreases value,
{
    if value < 10 {
        seq![value as u8]
    } else {
        decimal_digits(value / 10).push((value % 10) as u8)
    }
}

/// The column of the digit at position `k` of a number that starts in column
/// `origin_x`: digits are 9 pixels apart and never pass column 255.
pub open spec fn digit_column(origin_x: u8, k: nat) -> u8 {
    if origin_x + 9 * k > u8::MAX {
        u8::MAX
    } else {
        (origin_x + 9 * k) as u8
    }
}

/// Every digit has a glyph, and every glyph fits where it is put.
pub open spec fn digits_fit(origin_x: u8, origin_y: u8, digits: Seq<u8>) -> bool {
    forall|k: int|
        0 <= k < digits.len() ==> (#[trigger] digits[k]) < GLYPH_COUNT && glyph_fits(
            digit_column(origin_x, k as nat),
            origin_y,
            digit_bits(digits[k]),
        )
}

/// Every point lies on the part of the screen that can be drawn on.
pub open spec fn points_visible(points: Seq<(u8, u8)>) -> bool {
    forall|k: int|
        0 <= k < points.len() ==> (#[trigger] points[k]).0 < WIDTH && points[k].1 < VISIBLE_ROWS
}

impl ScreenState {
    /// The screen once the first `count` of `digits` have been drawn, the
    /// first digit in column `origin_x`.
    pub open spec fn with_digits(
        self,
        origin_x: u8,
        origin_y: u8,
        digits: Seq<u8>,
        count: nat,
        level: u8,
    ) -> ScreenState
        decreases count,
    {
        if count == 0 {
            self
        } else {
            self.with_digits(origin_x, origin_y, digits, (count - 1) as nat, level).with_pixels(
                glyph_points(
                    digit_column(origin_x, (count - 1) as nat),
                    origin_y,
                    digit_bits(digits[count - 1]),
                ),
                level,
            )
        }
    }

    /// The screen once `value` has been written in decimal with its first
    /// digit at `(origin_x, origin_y)`.
    pub open spec fn with_number(self, origin_x: u8, origin_y: u8, value: u32, level: u8)
        -> ScreenState {
        self.with_digits(
            origin_x,
            origin_y,
            decimal_digits(value as nat),
            decimal_digits(value as nat).len(),
            level,
        )
    }

    /// The screen once the first `count` segments of the path through
    /// `points` have been drawn.
    pub open spec fn with_segments(self, points: Seq<(u8, u8)>, count: nat, level: u8)
        -> ScreenState
        decreases count,
    {
        if count == 0 {
            self
        } else {
            self.with_segments(points, (count - 1) as nat, level).with_pixels(
                line_points(
                    points[count - 1].0,
                    points[count - 1].1,
                    points[count as int].0,
                    points[count as int].1,
                ),
                level,
            )
        }
    }

    /// The screen once the trail through `points` has been drawn on a white
    /// ground: the path in `trail_level`, the last point in `player_level`.
    pub open spec fn with_trail(self, points: Seq<(u8, u8)>, trail_level: u8, player_level: u8)
        -> ScreenState {
        if points.len() == 0 {
            self.cleared(MAX_LEVEL)
        } else {
            self.cleared(MAX_LEVEL).with_segments(
                points,
                (points.len() - 1) as nat,
                trail_level,
            ).with_pixel(points.last().0, points.last().1, player_level)
        }
    }
}

/// The most that can be left of a `u32` once `count` of its digits have been
/// cut off.
pub open spec fn left_after(count: nat) -> nat {
    if count == 0 {
        4294967295
    } else if count == 1 {
        429496729
    } else if count == 2 {
        42949672
    } else if count == 3 {
        4294967
    } else if count == 4 {
        429496
    } else if count == 5 {
        42949
    } else if count == 6 {
        4294
    } else if count == 7 {
        429
    } else if count == 8 {
        42
    } else if count == 9 {
        4
    } else {
        0
    }
}

/// The decimal digits of `value`, the most significant first.
pub fn digits_of(value: u32) -> (digits: Vec<u8>)
    ensures
        digits@ == decimal_digits(value as nat),
        1 <= digits@.len() <= 10,
{
    let ghost all = decimal_digits(value as nat);
    if value == 0 {
        let mut digits: Vec<u8> = Vec::new();
        digits.push(0);
        assert(digits@ =~= all);
        return digits;
    }
    // least significant digit first
    let mut reversed = [0u8;10];
    let mut count: usize = 0;
    let mut rest: u32 = value;
    let ghost mut low: Seq<u8> = Seq::empty();
    assert(all =~= decimal_digits(rest as nat) + low);
    while rest > 0 && count < 10
        invariant
            count <= 10,
            rest <= left_after(count as nat),
            low.len() == count,
            forall|k: int| 0 <= k < count ==> reversed@[k] == low[count - 1 - k],
            rest > 0 ==> all == decimal_digits(rest as nat) + low,
            rest == 0 ==> all == low && count >= 1,
        decreases rest,
    {
        let digit = (rest % 10) as u8;
        proof {
            let longer = seq![digit] + low;
            if rest >= 10 {
                assert(decimal_digits(rest as nat) == decimal_digits(rest as nat / 10).push(digit));
                assert(all =~= decimal_digits(rest as nat / 10) + longer);
            } else {
                assert(decimal_digits(rest as nat) =~= seq![digit]);
                assert(all =~= longer);
            }
            low = longer;
        }
        reversed[count] = digit;
        rest /= 10;
        count += 1;
    }
    assert(rest == 0);
    let mut digits: Vec<u8> = Vec::new();
    let mut idx: usize = count;
    while idx > 0
        invariant
            idx <= count <= 10,
            low.len() == count,
            forall|k: int| 0 <= k < count ==> reversed@[k] == low[count - 1 - k],
            digits@ == low.take(count - idx),
        decreases idx,
    {
        idx -= 1;
        digits.push(reversed[idx]);
        assert(digits@ =~= low.take(count - idx));
    }
    assert(low.take(count as int) =~= low);
    digits
}

/// Whether every pixel of the glyph falls on the part of the screen that can
/// be drawn on when its top left corner is at `(x, y)`.
pub fn glyph_fits_at(x: u8, y: u8, character: &Character) -> (fits: bool)
    ensures
        fits == glyph_fits(x, y, glyph_bits(*character)),
{
    let ghost bits = glyph_bits(*character);
    let mut i: usize = 0;
    while i < GLYPH_ROWS
        invariant
            i <= GLYPH_ROWS,
            bits == glyph_bits(*character),
            forall|r: int, c: int|
                0 <= r < i && 0 <= c < GLYPH_COLUMNS && #[trigger] bits[r][c] ==> x + c < WIDTH && y
                    + r < VISIBLE_ROWS,
        decreases GLYPH_ROWS - i,
    {
        let mut j: usize = 0;
        while j < GLYPH_COLUMNS
            invariant
                i < GLYPH_ROWS,
                j <= GLYPH_COLUMNS,
                bits == glyph_bits(*character),
                forall|r: int, c: int|
                    0 <= r < i && 0 <= c < GLYPH_COLUMNS && #[trigger] bits[r][c] ==> x + c < WIDTH
                        && y + r < VISIBLE_ROWS,
                forall|c: int|
                    0 <= c < j && #[trigger] bits[i as int][c] ==> x + c < WIDTH && y + i
                        < VISIBLE_ROWS,
            decreases GLYPH_COLUMNS - j,
        {
            assert(bits[i as int][j as int] == character@[i as int]@[j as int]);
            if character[i][j] && !(x as usize + j < WIDTH as usize && y as usize + i
                < VISIBLE_ROWS as usize) {
                assert(bits[i as int][j as int]);
                return false;
            }
            j += 1;
        }
        i += 1;
    }
    true
}

/// Whether `value` can be written with its first digit at `(origin_x,
/// origin_y)`: every digit has a glyph, and every glyph fits where it is put.
pub fn number_fits(origin_x: u8, origin_y: u8, value: u32) -> (fits: bool)
    ensures
        fits == digits_fit(origin_x, origin_y, decimal_digits(value as nat)),
{
    let digits = digits_of(value);
    let mut x = origin_x;
    let mut idx: usize = 0;
    while idx < digits.len()
        invariant
            idx <= digits.len(),
            digits@ == decimal_digits(value as nat),
            x == digit_column(origin_x, idx as nat),
            forall|k: int|
                0 <= k < idx ==> (#[trigger] digits@[k]) < GLYPH_COUNT && glyph_fits(
                    digit_column(origin_x, k as nat),
                    origin_y,
                    digit_bits(digits@[k]),
                ),
        decreases digits.len() - idx,
    {
        let digit = digits[idx] as usize;
        if digit >= GLYPH_COUNT {
            return false;
        }
        let glyph = NUMBERS[digit];
        if !glyph_fits_at(x, origin_y, &glyph) {
            return false;
        }
        x = x.saturating_add(9);
        idx += 1;
    }
    true
}

/// Whether every point of the trail lies on the part of the screen that can
/// be drawn on.
pub fn trail_visible(trail: &Trail) -> (visible: bool)
    requires
        trail.wf(),
    ensures
        visible == points_visible(trail@),
{
    let len = trail.len();
    let mut idx: usize = 0;
    while idx < len
        invariant
            idx <= len,
            len == trail@.len(),
            trail.wf(),
            forall|k: int|
                0 <= k < idx ==> (#[trigger] trail@[k]).0 < WIDTH && trail@[k].1 < VISIBLE_ROWS,
        decreases len - idx,
    {
        let point = trail.point(idx);
        if !(point.0 < WIDTH && point.1 < VISIBLE_ROWS) {
            return false;
        }
        idx += 1;
    }
    true
}

impl Screen {
    /// Draws a glyph with its top left corner at `(x, y)`.
    pub fn draw_character(&mut self, x: u8, y: u8, character: &Character, brightness: Brightness)
        requires
            glyph_fits(x, y, glyph_bits(*character)),
        ensures
            final(self)@ == old(self)@.with_pixels(
                glyph_points(x, y, glyph_bits(*character)),
                brightness.level(),
            ),
    {
        let ghost before = self@;
        let ghost bits = glyph_bits(*character);
        let ghost level = brightness.level();
        let mut i: usize = 0;
        while i < GLYPH_ROWS
            invariant
                i <= GLYPH_ROWS,
                bits == glyph_bits(*character),
                level == brightness.level(),
                glyph_fits(x, y, bits),
                self@ == before.with_pixels(
                    glyph_points_upto(x, y, bits, (i * GLYPH_COLUMNS) as nat),
                    level,
                ),
            decreases GLYPH_ROWS - i,
        {
            let mut j: usize = 0;
            while j < GLYPH_COLUMNS
                invariant
                    i < GLYPH_ROWS,
                    j <= GLYPH_COLUMNS,
                    bits == glyph_bits(*character),
                    level == brightness.level(),
                    glyph_fits(x, y, bits),
                    self@ == before.with_pixels(
                        glyph_points_upto(x, y, bits, (i * GLYPH_COLUMNS + j) as nat),
                        level,
                    ),
                decreases GLYPH_COLUMNS - j,
            {
                let ghost cells = (i * GLYPH_COLUMNS + j + 1) as nat;
                proof {
                    assert((cells - 1) / (GLYPH_COLUMNS as int) == i);
                    assert((cells - 1) % (GLYPH_COLUMNS as int) == j);
                    assert(bits[i as int][j as int] == character@[i as int]@[j as int]);
                }
                if character[i][j] {
                    proof {
                        assert(bits[i as int][j as int]);
                        let earlier = glyph_points_upto(x, y, bits, (cells - 1) as nat);
                        let point = ((x + j) as u8, (y + i) as u8);
                        assert(glyph_points_upto(x, y, bits, cells) == earlier.push(point));
                        assert(earlier.push(point).drop_last() =~= earlier);
                    }
                    self.draw_pixel(x + j as u8, y + i as u8, brightness);
                }
                j += 1;
            }
            i += 1;
        }
    }

    /// Fills the box with the corners `(x0, y0)` and `(x1, y1)`.
    pub fn draw_filled_box(&mut self, x0: u8, y0: u8, x1: u8, y1: u8, brightness: Brightness)
        requires
            x0 <= x1 && y0 <= y1 ==> x1 < WIDTH && y1 < VISIBLE_ROWS,
        ensures
            final(self)@ == old(self)@.with_pixels(
                box_points(x0, y0, x1, y1),
                brightness.level(),
            ),
    {
        let ghost before = self@;
        let ghost level = brightness.level();
        if x0 > x1 {
            return ;
        }
        if y0 > y1 {
            proof {
                lemma_empty_box(x0, y0, y1, (x1 - x0 + 1) as nat);
            }
            return ;
        }
        let mut x: u8 = x0;
        while x <= x1
            invariant
                x0 <= x <= x1 + 1,
                x1 < WIDTH,
                y0 <= y1 < VISIBLE_ROWS,
                level == brightness.level(),
                self@ == before.with_pixels(box_points_upto(x0, y0, y1, (x - x0) as nat), level),
            decreases x1 + 1 - x,
        {
            let ghost earlier = box_points_upto(x0, y0, y1, (x - x0) as nat);
            let ghost column = column_points(x, y0, y1);
            let mut y: u8 = y0;
            while y <= y1
                invariant
                    y0 <= y <= y1 + 1,
                    x < WIDTH,
                    y1 < VISIBLE_ROWS,
                    level == brightness.level(),
                    column == column_points(x, y0, y1),
                    self@ == before.with_pixels(earlier + column.take(y - y0), level),
                decreases y1 + 1 - y,
            {
                proof {
                    let done = earlier + column.take(y - y0);
                    let more = earlier + column.take(y - y0 + 1);
                    assert(more.drop_last() =~= done);
                    assert(more.last() == (x, y));
                }
                self.draw_pixel(x, y, brightness);
                y += 1;
            }
            proof {
                assert(column.take(y1 - y0 + 1) =~= column);
                assert((x0 + (x - x0 + 1) - 1) as u8 == x);
            }
            x += 1;
        }
    }

    /// Writes `value` in decimal with its first digit at `(origin_x,
    /// origin_y)`.
    pub fn draw_number(
        &mut self,
        origin_x: u8,
        origin_y: u8,
        value: u32,
        player_brightness: Brightness,
    )
        requires
            digits_fit(origin_x, origin_y, decimal_digits(value as nat)),
        ensures
            final(self)@ == old(self)@.with_number(
                origin_x,
                origin_y,
                value,
                player_brightness.level(),
            ),
    {
        let ghost before = self@;
        let ghost level = player_brightness.level();
        let digits = digits_of(value);
        let mut x = origin_x;
        let mut idx: usize = 0;
        while idx < digits.len()
            invariant
                idx <= digits.len(),
                digits@ == decimal_digits(value as nat),
                level == player_brightness.level(),
                digits_fit(origin_x, origin_y, digits@),
                x == digit_column(origin_x, idx as nat),
                self@ == before.with_digits(origin_x, origin_y, digits@, idx as nat, level),
            decreases digits.len() - idx,
        {
            let digit = digits[idx] as usize;
            assert(digits@[idx as int] < GLYPH_COUNT);
            let glyph = NUMBERS[digit];
            self.draw_character(x, origin_y, &glyph, player_brightness);
            x = x.saturating_add(9);
            idx += 1;
        }
    }

    /// Fills the screen with white and writes the number of steps near its
    /// top left corner.
    pub fn render_step_counter(&mut self, total_steps: u32, player_brightness: Brightness)
        requires
            digits_fit(4, 4, decimal_digits(total_steps as nat)),
        ensures
            final(self)@ == old(self)@.cleared(MAX_LEVEL).with_number(
                4,
                4,
                total_steps,
                player_brightness.level(),
            ),
    {
        self.clear(Brightness::white());
        self.draw_number(4, 4, total_steps, player_brightness);
    }

    /// Fills the screen with white and draws the trail: a line from each
    /// point to the next, and the last point in the player's grey level.
    pub fn draw_trail(
        &mut self,
        trail: &Trail,
        trail_brightness: Brightness,
        player_brightness: Brightness,
    )
        requires
            trail.wf(),
            points_visible(trail@),
        ensures
            final(self)@ == old(self)@.with_trail(
                trail@,
                trail_brightness.level(),
                player_brightness.level(),
            ),
    {
        let ghost before = self@;
        let ghost points = trail@;
        self.clear(Brightness::white());
        if trail.is_empty() {
            return ;
        }
        let ghost ground = self@;
        let len = trail.len();
        let mut prev = trail.point(0);
        let mut idx: usize = 1;
        while idx < len
            invariant
                1 <= idx <= len,
                len == points.len(),
                points == trail@,
                trail.wf(),
                points_visible(points),
                prev == points[idx - 1],
                self@ == ground.with_segments(
                    points,
                    (idx - 1) as nat,
                    trail_brightness.level(),
                ),
            decreases len - idx,
        {
            let curr = trail.point(idx);
            proof {
                assert(points[idx - 1].0 < WIDTH && points[idx as int].0 < WIDTH);
            }
            self.draw_line(prev.0, prev.1, curr.0, curr.1, trail_brightness);
            prev = curr;
            idx += 1;
        }
        proof {
            assert(points[len - 1].0 < WIDTH);
        }
        self.draw_pixel(prev.0, prev.1, player_brightness);
    }
}

/// A box without rows holds no pixel.
pub proof fn lemma_empty_box(x0: u8, y0: u8, y1: u8, columns: nat)
    requires
        y0 > y1,
    ensures
        box_points_upto(x0, y0, y1, columns) == Seq::<(u8, u8)>::empty(),
    decreases columns,
{
    if columns > 0 {
        lemma_empty_box(x0, y0, y1, (columns - 1) as nat);
        assert(box_points_upto(x0, y0, y1, columns) =~= Seq::<(u8, u8)>::empty());
    }
}

} // verus!
