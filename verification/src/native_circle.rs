//! The floating circle: its pixels, its click-or-drag handling, where it
//! and the panels are placed, and what a drop onto it hands over.

use vstd::prelude::*;
use crate::text::{strip_trailing, strip_trailing_char, trim, trim_chars};

verus! {

/// Width of the circle window in pixels.
pub const W: i32 = 72;

/// Height of the circle window in pixels.
pub const H: i32 = 72;

/// A colour channel scaled by an alpha value (premultiplied alpha).
pub open spec fn premultiplied(c: u8, a: u8) -> int {
    c * a / 255
}

/// A BGRA pixel word with premultiplied colour channels.
pub open spec fn bgra_pixel(r: u8, g: u8, b: u8, a: u8) -> int {
    a * 0x1000000 + premultiplied(r, a) * 0x10000 + premultiplied(g, a) * 0x100 + premultiplied(
        b,
        a,
    )
}

/// `(x, y)` lies on the circle window.
pub open spec fn on_canvas(x: i32, y: i32) -> bool {
    0 <= x < W && 0 <= y < H
}

/// Writes the colour `(r, g, b)` with alpha `a` at `(x, y)` of a 72x72
/// bitmap, premultiplied, as a BGRA word; points off the bitmap are ignored.
pub fn set_pixel(pixels: &mut [u32], x: i32, y: i32, r: u8, g: u8, b: u8, a: u8)
    requires
        on_canvas(x, y) ==> y * W + x < old(pixels)@.len(),
    ensures
        on_canvas(x, y) ==> final(pixels)@ == old(pixels)@.update(y * W + x, bgra_pixel(r, g, b, a) as u32),
        !on_canvas(x, y) ==> final(pixels)@ == old(pixels)@,
{
    if x < 0 || y < 0 || x >= W || y >= H {
        return;
    }
    let pa = a as u32;
    assert(r as u32 * pa <= 255 * 255) by (nonlinear_arith)
        requires
            r <= 255,
            pa <= 255,
    ;
    assert(g as u32 * pa <= 255 * 255) by (nonlinear_arith)
        requires
            g <= 255,
            pa <= 255,
    ;
    assert(b as u32 * pa <= 255 * 255) by (nonlinear_arith)
        requires
            b <= 255,
            pa <= 255,
    ;
    let pr = (r as u32 * pa / 255) as u8;
    let pg = (g as u32 * pa / 255) as u8;
    let pb = (b as u32 * pa / 255) as u8;
    let word = (pa << 24) | ((pr as u32) << 16) | ((pg as u32) << 8) | pb as u32;
    proof {
        let pr32 = pr as u32;
        let pg32 = pg as u32;
        let pb32 = pb as u32;
        assert((pa << 24) | (pr32 << 16) | (pg32 << 8) | pb32 == pa * 0x1000000 + pr32 * 0x10000
            + pg32 * 0x100 + pb32) by (bit_vector)
            requires
                pa < 256,
                pr32 < 256,
                pg32 < 256,
                pb32 < 256,
        ;
    }
    pixels[(y * W + x) as usize] = word;
}

/// A pixel word that `set_pixel` writes is a proper premultiplied pixel: it
/// fits in 32 bits, its top byte is the alpha, and no colour channel
/// exceeds the alpha.
pub proof fn law_pixels_are_premultiplied(r: u8, g: u8, b: u8, a: u8)
    ensures
        premultiplied(r, a) <= a,
        premultiplied(g, a) <= a,
        premultiplied(b, a) <= a,
        0 <= bgra_pixel(r, g, b, a) < 0x1_0000_0000,
        bgra_pixel(r, g, b, a) / 0x1000000 == a,
{
    assert forall|c: u8| #[trigger] premultiplied(c, a) <= a && 0 <= premultiplied(c, a) by {
        assert(c * a / 255 <= a && 0 <= c * a / 255) by (nonlinear_arith)
            requires
                c <= 255,
                a <= 255,
        ;
    }
    let pr = premultiplied(r, a);
    let pg = premultiplied(g, a);
    let pb = premultiplied(b, a);
    let low = pr * 0x10000 + pg * 0x100 + pb;
    assert(0 <= low < 0x1000000);
    assert(bgra_pixel(r, g, b, a) == a * 0x1000000 + low);
    assert((a * 0x1000000 + low) / 0x1000000 == a) by (nonlinear_arith)
        requires
            0 <= low < 0x1000000,
            a <= 255,
    ;
}

/// Position of `(x, y)` in the row-major 72x72 pixel buffer.
pub open spec fn pixel_index(x: int, y: int) -> int {
    y * W + x
}

/// The alpha channel of a BGRA pixel word.
pub open spec fn alpha_of(p: u32) -> u8 {
    (p / 0x1000000) as u8
}

/// How far row `dy` of the down-arrow reaches either side of its centre
/// column: the arrow narrows from 8 pixels to its tip over 10 rows.
pub open spec fn arrow_half(dy: int) -> int {
    8 - dy * 8 / 10
}

/// `(x, y)` belongs to the down-arrow, whose top row lies 3 rows above the
/// centre of the circle.
pub open spec fn in_arrow(x: int, y: int) -> bool {
    let dy = y - (H / 2 - 3);
    &&& 0 <= dy < 10
    &&& -arrow_half(dy) <= x - W / 2 <= arrow_half(dy)
}

/// What the arrow leaves at `(x, y)` where the pixel was `p`: on the arrow,
/// wherever the circle covers the pixel, white with the circle's alpha.
pub open spec fn arrow_pixel(p: u32, x: int, y: int) -> u32 {
    if in_arrow(x, y) && alpha_of(p) > 0 {
        bgra_pixel(255, 255, 255, alpha_of(p)) as u32
    } else {
        p
    }
}

/// The arrow pass has reached `(x, y)` once it is past row `row`, or on that
/// row left of column offset `col`.
spec fn arrow_done(x: int, y: int, row: int, col: int) -> bool {
    let dy = y - (H / 2 - 3);
    dy < row || (dy == row && x - W / 2 < col)
}

/// Paints one dot of the progress ring at `(x, y)` in the colour
/// `(r, g, b)`: only where the circle is more than half opaque, and with the
/// circle's alpha there; points off the bitmap are ignored.
pub fn ring_dot(pixels: &mut [u32], x: i32, y: i32, r: u8, g: u8, b: u8)
    requires
        old(pixels)@.len() == W * H,
    ensures
        ({
            let i = pixel_index(x as int, y as int);
            if on_canvas(x, y) && alpha_of(old(pixels)@[i]) > 128 {
                final(pixels)@ == old(pixels)@.update(
                    i,
                    bgra_pixel(r, g, b, alpha_of(old(pixels)@[i])) as u32,
                )
            } else {
                final(pixels)@ == old(pixels)@
            }
        }),
{
    if x < 0 || y < 0 || x >= W || y >= H {
        return;
    }
    let v = pixels[(y * W + x) as usize];
    let base_a = ((v >> 24) & 0xFF) as u8;
    assert((v >> 24) & 0xFF == v / 0x1000000) by (bit_vector);
    if base_a > 128 {
        set_pixel(pixels, x, y, r, g, b, base_a);
    }
}

/// The arrow keeps the circle's outline: every pixel keeps its alpha, and a
/// pixel that the circle does not cover stays as it was.
pub proof fn law_arrow_keeps_alpha(p: u32, x: int, y: int)
    ensures
        alpha_of(arrow_pixel(p, x, y)) == alpha_of(p),
        alpha_of(p) == 0 ==> arrow_pixel(p, x, y) == p,
{
    let a = alpha_of(p);
    if in_arrow(x, y) && a > 0 {
        assert(premultiplied(255, a) == a) by (nonlinear_arith)
            requires
                a <= 255,
        ;
        let w = bgra_pixel(255, 255, 255, a);
        assert(w == a * 0x1010101);
        assert(0 <= w < 0x1_0000_0000) by (nonlinear_arith)
            requires
                w == a * 0x1010101,
                a <= 255,
        ;
        assert(w / 0x1000000 == a) by (nonlinear_arith)
            requires
                w == a * 0x1010101,
                a <= 255,
        ;
    }
}

/// Paints the white down-arrow onto the drawn circle of a 72x72 bitmap.
pub fn draw_arrow(pixels: &mut [u32])
    requires
        old(pixels)@.len() == W * H,
    ensures
        final(pixels)@.len() == W * H,
        forall|x: int, y: int|
            0 <= x < W && 0 <= y < H ==> #[trigger] final(pixels)@[pixel_index(x, y)]
                == arrow_pixel(old(pixels)@[pixel_index(x, y)], x, y),
{
    let ghost orig = pixels@;
    let acx: i32 = W / 2;
    let acy: i32 = H / 2;
    let mut dy: i32 = 0;
    while dy < 10
        invariant
            0 <= dy <= 10,
            acx == W / 2,
            acy == H / 2,
            pixels@.len() == W * H,
            forall|x: int, y: int|
                0 <= x < W && 0 <= y < H ==> #[trigger] pixels@[pixel_index(x, y)] == if arrow_done(
                    x,
                    y,
                    dy as int,
                    -100,
                ) {
                    arrow_pixel(orig[pixel_index(x, y)], x, y)
                } else {
                    orig[pixel_index(x, y)]
                },
        decreases 10 - dy,
    {
        let half: i32 = 8 - dy * 8 / 10;
        let mut dx: i32 = -half;
        while dx <= half
            invariant
                0 <= dy < 10,
                acx == W / 2,
                acy == H / 2,
                half == arrow_half(dy as int),
                -half <= dx <= half + 1,
                pixels@.len() == W * H,
                forall|x: int, y: int|
                    0 <= x < W && 0 <= y < H ==> #[trigger] pixels@[pixel_index(x, y)] == if arrow_done(
                        x,
                        y,
                        dy as int,
                        dx as int,
                    ) {
                        arrow_pixel(orig[pixel_index(x, y)], x, y)
                    } else {
                        orig[pixel_index(x, y)]
                    },
            decreases half + 1 - dx,
        {
            let px = acx + dx;
            let py = acy - 3 + dy;
            let k = (py * W + px) as usize;
            assert(pixels@[pixel_index(px as int, py as int)] == orig[pixel_index(px as int, py as int)]);
            let v = pixels[k];
            let base_a = ((v >> 24) & 0xFF) as u8;
            assert((v >> 24) & 0xFF == v / 0x1000000) by (bit_vector);
            let ghost before = pixels@;
            if base_a > 0 {
                set_pixel(pixels, px, py, 255, 255, 255, base_a);
            }
            proof {
                assert forall|x: int, y: int| 0 <= x < W && 0 <= y < H implies #[trigger] pixels@[pixel_index(x, y)]
                    == if arrow_done(x, y, dy as int, dx + 1) {
                        arrow_pixel(orig[pixel_index(x, y)], x, y)
                    } else {
                        orig[pixel_index(x, y)]
                    } by {
                    if x != px || y != py {
                        assert(pixel_index(x, y) != k);
                        assert(before[pixel_index(x, y)] == pixels@[pixel_index(x, y)]);
                    }
                }
            }
            dx += 1;
        }
        proof {
            assert forall|x: int, y: int| 0 <= x < W && 0 <= y < H implies #[trigger] pixels@[pixel_index(x, y)]
                == if arrow_done(x, y, dy + 1, -100) {
                    arrow_pixel(orig[pixel_index(x, y)], x, y)
                } else {
                    orig[pixel_index(x, y)]
                } by {
                assert(pixels@[pixel_index(x, y)] == if arrow_done(x, y, dy as int, dx as int) {
                    arrow_pixel(orig[pixel_index(x, y)], x, y)
                } else {
                    orig[pixel_index(x, y)]
                });
            }
        }
        dy += 1;
    }
    proof {
        assert forall|x: int, y: int| 0 <= x < W && 0 <= y < H implies #[trigger] pixels@[pixel_index(x, y)]
            == arrow_pixel(orig[pixel_index(x, y)], x, y) by {
            assert(pixels@[pixel_index(x, y)] == if arrow_done(x, y, 10, -100) {
                arrow_pixel(orig[pixel_index(x, y)], x, y)
            } else {
                orig[pixel_index(x, y)]
            });
        }
    }
}

/// Squared distance (in pixels) that the cursor must exceed before a press
/// on the circle becomes a drag.
pub const DRAG_THRESHOLD_SQ: i32 = 25;

/// What the circle window does in answer to a mouse event.
#[derive(Debug, Clone, Copy, PartialEq, Eq, Structural)]
pub enum CircleAction {
    /// Nothing.
    Stay,
    /// Move the window's top-left corner here.
    MoveTo(i32, i32),
    /// Show or hide the panels (a click on the circle).
    TogglePanels,
}

/// A screen position in pixels.
#[derive(Debug, Clone, Copy, PartialEq, Eq, Structural)]
pub struct Point {
    pub x: i32,
    pub y: i32,
}

/// Mouse state of the circle window.
#[derive(Debug, Clone, Copy, PartialEq, Eq, Structural)]
pub struct DragState {
    /// The left button went down on the circle and is still down.
    pub mouse_down: bool,
    /// The press has turned into a drag.
    pub dragging: bool,
    /// Cursor position when the button went down.
    pub cursor_start: Point,
    /// Window position when the button went down.
    pub win_start: Point,
}

impl DragState {
    /// A drag only happens while the button is down.
    pub open spec fn wf(self) -> bool {
        self.dragging ==> self.mouse_down
    }

    /// Cursor displacement since the press.
    pub open spec fn offset(self, cursor: Point) -> (int, int) {
        (cursor.x - self.cursor_start.x, cursor.y - self.cursor_start.y)
    }

    /// The cursor has moved farther from the press point than the threshold.
    pub open spec fn beyond_threshold(self, cursor: Point) -> bool {
        let d = self.offset(cursor);
        d.0 * d.0 + d.1 * d.1 > DRAG_THRESHOLD_SQ
    }

    /// State after a move of the cursor to `cursor`.
    pub open spec fn moved(self, cursor: Point) -> DragState {
        if self.mouse_down && !self.dragging && self.beyond_threshold(cursor) {
            DragState { dragging: true, ..self }
        } else {
            self
        }
    }

    /// Answer to a move of the cursor to `cursor`.
    pub open spec fn move_action(self, cursor: Point) -> CircleAction {
        let d = self.offset(cursor);
        if self.mouse_down && self.moved(cursor).dragging {
            CircleAction::MoveTo((self.win_start.x + d.0) as i32, (self.win_start.y + d.1) as i32)
        } else {
            CircleAction::Stay
        }
    }

    /// State after the button goes down with the cursor at `cursor` and the
    /// window at `window`.
    pub open spec fn pressed(self, cursor: Point, window: Point) -> DragState {
        DragState { mouse_down: true, dragging: false, cursor_start: cursor, win_start: window }
    }

    /// State after the button goes up.
    pub open spec fn released(self) -> DragState {
        DragState { mouse_down: false, dragging: false, ..self }
    }

    /// Answer to the button going up: a press that never became a drag is a click.
    pub open spec fn release_action(self) -> CircleAction {
        if self.mouse_down && !self.dragging {
            CircleAction::TogglePanels
        } else {
            CircleAction::Stay
        }
    }

    /// The arithmetic of a move stays within `i32`.
    pub open spec fn move_fits(self, cursor: Point) -> bool {
        let d = self.offset(cursor);
        self.mouse_down ==> {
            &&& i32::MIN <= d.0 <= i32::MAX
            &&& i32::MIN <= d.1 <= i32::MAX
            &&& (!self.dragging ==> d.0 * d.0 <= i32::MAX && d.1 * d.1 <= i32::MAX && d.0 * d.0
                + d.1 * d.1 <= i32::MAX)
            &&& (self.moved(cursor).dragging ==> i32::MIN <= self.win_start.x + d.0 <= i32::MAX
                && i32::MIN <= self.win_start.y + d.1 <= i32::MAX)
        }
    }

    /// Whether `mouse_move(cursor)` stays within `i32` arithmetic.
    pub fn can_move(&self, cursor: Point) -> (r: bool)
        ensures
            r == self.move_fits(cursor),
    {
        if !self.mouse_down {
            return true;
        }
        let dx: i64 = cursor.x as i64 - self.cursor_start.x as i64;
        let dy: i64 = cursor.y as i64 - self.cursor_start.y as i64;
        let lo: i64 = i32::MIN as i64;
        let hi: i64 = i32::MAX as i64;
        if dx < lo || dx > hi || dy < lo || dy > hi {
            return false;
        }
        let mut drags = self.dragging;
        if !self.dragging {
            assert(0 <= dx * dx <= 0x4000_0000_0000_0000) by (nonlinear_arith)
                requires
                    -0x8000_0000 <= dx <= 0x7fff_ffff,
            ;
            assert(0 <= dy * dy <= 0x4000_0000_0000_0000) by (nonlinear_arith)
                requires
                    -0x8000_0000 <= dy <= 0x7fff_ffff,
            ;
            let sx: i64 = dx * dx;
            let sy: i64 = dy * dy;
            if sx > hi || sy > hi || sx + sy > hi {
                return false;
            }
            drags = sx + sy > DRAG_THRESHOLD_SQ as i64;
        }
        if drags {
            let nx: i64 = self.win_start.x as i64 + dx;
            let ny: i64 = self.win_start.y as i64 + dy;
            nx >= lo && nx <= hi && ny >= lo && ny <= hi
        } else {
            true
        }
    }

    /// No button pressed; both remembered positions are the origin.
    pub fn new() -> (r: DragState)
        ensures
            !r.mouse_down,
            !r.dragging,
            r.wf(),
            r.cursor_start == (Point { x: 0, y: 0 }),
            r.win_start == (Point { x: 0, y: 0 }),
    {
        DragState { mouse_down: false, dragging: false, cursor_start: Point { x: 0, y: 0 }, win_start: Point { x: 0, y: 0 } }
    }

    /// The left button went down with the cursor at `cursor` and the window at `window`.
    pub fn button_down(&mut self, cursor: Point, window: Point)
        ensures
            *final(self) == old(self).pressed(cursor, window),
            final(self).wf(),
    {
        self.mouse_down = true;
        self.dragging = false;
        self.cursor_start = cursor;
        self.win_start = window;
    }

    /// The cursor moved to `cursor`: a press turns into a drag once the
    /// cursor is more than 5 pixels away, and a drag moves the window along.
    pub fn mouse_move(&mut self, cursor: Point) -> (r: CircleAction)
        requires
            old(self).move_fits(cursor),
        ensures
            *final(self) == old(self).moved(cursor),
            r == old(self).move_action(cursor),
            old(self).wf() ==> final(self).wf(),
    {
        if self.mouse_down {
            let dx = cursor.x - self.cursor_start.x;
            let dy = cursor.y - self.cursor_start.y;
            proof {
                if !self.dragging {
                    assert(dx * dx >= 0) by (nonlinear_arith);
                    assert(dy * dy >= 0) by (nonlinear_arith);
                }
            }
            if !self.dragging && dx * dx + dy * dy > DRAG_THRESHOLD_SQ {
                self.dragging = true;
            }
            if self.dragging {
                return CircleAction::MoveTo(self.win_start.x + dx, self.win_start.y + dy);
            }
        }
        CircleAction::Stay
    }

    /// The left button went up: a press that never became a drag toggles the panels.
    pub fn button_up(&mut self) -> (r: CircleAction)
        ensures
            *final(self) == old(self).released(),
            r == old(self).release_action(),
            final(self).wf(),
    {
        let click = self.mouse_down && !self.dragging;
        self.mouse_down = false;
        self.dragging = false;
        if click {
            CircleAction::TogglePanels
        } else {
            CircleAction::Stay
        }
    }
}

/// A press and a release with no movement in between is a click.
pub proof fn law_click_toggles(s: DragState, cursor: Point, window: Point)
    ensures
        s.pressed(cursor, window).release_action() == CircleAction::TogglePanels,
{
}

/// Moving the cursor no farther than the threshold from the press point
/// keeps the press a click.
pub proof fn law_small_move_is_still_a_click(
    s: DragState,
    cursor: Point,
    window: Point,
    to: Point,
)
    requires
        !s.pressed(cursor, window).beyond_threshold(to),
    ensures
        s.pressed(cursor, window).move_action(to) == CircleAction::Stay,
        s.pressed(cursor, window).moved(to).release_action() == CircleAction::TogglePanels,
{
}

/// Once the cursor has moved beyond the threshold, the window follows the
/// cursor and the release is no click.
pub proof fn law_drag_moves_window_and_never_toggles(
    s: DragState,
    cursor: Point,
    window: Point,
    to: Point,
)
    requires
        s.pressed(cursor, window).beyond_threshold(to),
    ensures
        s.pressed(cursor, window).move_action(to) == CircleAction::MoveTo(
            (window.x + (to.x - cursor.x)) as i32,
            (window.y + (to.y - cursor.y)) as i32,
        ),
        s.pressed(cursor, window).moved(to).release_action() == CircleAction::Stay,
{
}

/// A drag stays a drag on every further move until the release.
pub proof fn law_drag_is_kept(s: DragState, to: Point)
    requires
        s.dragging,
    ensures
        s.moved(to).dragging,
        s.moved(to).release_action() == CircleAction::Stay,
{
}

/// State after the cursor moved through `cursors`, in order.
pub open spec fn moved_through(s: DragState, cursors: Seq<Point>) -> DragState
    decreases cursors.len(),
{
    if cursors.len() == 0 {
        s
    } else {
        moved_through(s, cursors.drop_last()).moved(cursors.last())
    }
}

/// One of the first `n` cursors lies beyond the threshold from the press
/// point of `s`.
pub open spec fn went_beyond(s: DragState, cursors: Seq<Point>, n: int) -> bool {
    exists|j: int| 0 <= j < n && #[trigger] s.beyond_threshold(cursors[j])
}

/// Moves after a fresh press only ever turn the press into a drag, as soon
/// as one of them goes beyond the threshold.
proof fn lemma_moved_through(s: DragState, cursors: Seq<Point>)
    requires
        s.mouse_down,
        !s.dragging,
    ensures
        moved_through(s, cursors) == (DragState {
            dragging: went_beyond(s, cursors, cursors.len() as int),
            ..s
        }),
    decreases cursors.len(),
{
    if cursors.len() > 0 {
        let init = cursors.drop_last();
        let n = cursors.len() - 1;
        lemma_moved_through(s, init);
        assert(went_beyond(s, init, n) == went_beyond(s, cursors, n)) by {
            if went_beyond(s, init, n) {
                let j = choose|j: int| 0 <= j < n && #[trigger] s.beyond_threshold(init[j]);
                assert(init[j] == cursors[j]);
            }
            if went_beyond(s, cursors, n) {
                let j = choose|j: int| 0 <= j < n && #[trigger] s.beyond_threshold(cursors[j]);
                assert(init[j] == cursors[j]);
            }
        }
        assert(went_beyond(s, cursors, n + 1) == (went_beyond(s, cursors, n)
            || s.beyond_threshold(cursors[n]))) by {
            if went_beyond(s, cursors, n + 1) && !s.beyond_threshold(cursors[n]) {
                let j = choose|j: int| 0 <= j < n + 1 && #[trigger] s.beyond_threshold(cursors[j]);
                assert(j < n);
            }
        }
    }
}

/// A whole gesture on the circle: the button goes down with the cursor at
/// `cursor` and the window at `window`, the cursor moves through `cursors`,
/// and the button goes up.  Each move leaves the window where it is until
/// some move has gone beyond the threshold; from then on it puts the window
/// at its press position plus the cursor's offset from the press point.  The
/// release toggles the panels exactly when no move went beyond the
/// threshold, and afterwards the button is up and no drag runs.
pub proof fn law_gesture(s: DragState, cursor: Point, window: Point, cursors: Seq<Point>)
    ensures
        ({
            let p = s.pressed(cursor, window);
            &&& forall|i: int|
                0 <= i < cursors.len() ==> #[trigger] moved_through(p, cursors.take(i)).move_action(
                    cursors[i],
                ) == if went_beyond(p, cursors, i + 1) {
                    CircleAction::MoveTo(
                        (window.x + (cursors[i].x - cursor.x)) as i32,
                        (window.y + (cursors[i].y - cursor.y)) as i32,
                    )
                } else {
                    CircleAction::Stay
                }
            &&& moved_through(p, cursors).release_action() == if went_beyond(
                p,
                cursors,
                cursors.len() as int,
            ) {
                CircleAction::Stay
            } else {
                CircleAction::TogglePanels
            }
            &&& !moved_through(p, cursors).released().mouse_down
            &&& !moved_through(p, cursors).released().dragging
        }),
{
    let p = s.pressed(cursor, window);
    lemma_moved_through(p, cursors);
    assert forall|i: int| 0 <= i < cursors.len() implies #[trigger] moved_through(
        p,
        cursors.take(i),
    ).move_action(cursors[i]) == if went_beyond(p, cursors, i + 1) {
        CircleAction::MoveTo(
            (window.x + (cursors[i].x - cursor.x)) as i32,
            (window.y + (cursors[i].y - cursor.y)) as i32,
        )
    } else {
        CircleAction::Stay
    } by {
        let pre = cursors.take(i);
        lemma_moved_through(p, pre);
        assert(went_beyond(p, pre, i) == went_beyond(p, cursors, i)) by {
            if went_beyond(p, pre, i) {
                let j = choose|j: int| 0 <= j < i && #[trigger] p.beyond_threshold(pre[j]);
                assert(pre[j] == cursors[j]);
            }
            if went_beyond(p, cursors, i) {
                let j = choose|j: int| 0 <= j < i && #[trigger] p.beyond_threshold(cursors[j]);
                assert(pre[j] == cursors[j]);
            }
        }
        assert(went_beyond(p, cursors, i + 1) == (went_beyond(p, cursors, i)
            || p.beyond_threshold(cursors[i]))) by {
            if went_beyond(p, cursors, i + 1) && !p.beyond_threshold(cursors[i]) {
                let j = choose|j: int| 0 <= j < i + 1 && #[trigger] p.beyond_threshold(cursors[j]);
                assert(j < i);
            }
        }
    }
}

/// What happens to the circle's mouse state.
pub enum MouseEvent {
    /// The button went down with the cursor and the window at these points.
    Press(Point, Point),
    /// The cursor moved here.
    Move(Point),
    /// The button went up.
    Release,
}

/// State after one mouse event.
pub open spec fn after_event(s: DragState, e: MouseEvent) -> DragState {
    match e {
        MouseEvent::Press(c, w) => s.pressed(c, w),
        MouseEvent::Move(c) => s.moved(c),
        MouseEvent::Release => s.released(),
    }
}

/// State after the mouse events `es`, in order.
pub open spec fn after_events(s: DragState, es: Seq<MouseEvent>) -> DragState
    decreases es.len(),
{
    if es.len() == 0 {
        s
    } else {
        after_event(after_events(s, es.drop_last()), es.last())
    }
}

/// Whatever the mouse does, starting from a state without a drag in
/// progress (as `new` gives), a drag only ever runs while the button is down.
pub proof fn law_drag_only_while_pressed(s: DragState, es: Seq<MouseEvent>)
    requires
        s.wf(),
    ensures
        after_events(s, es).wf(),
    decreases es.len(),
{
    if es.len() > 0 {
        law_drag_only_while_pressed(s, es.drop_last());
    }
}

/// The text dropped onto the circle, cleaned up: without trailing NUL
/// characters and without surrounding whitespace, and nothing when that
/// leaves it empty.
pub fn clean_dropped_text(text: &str) -> (r: Option<String>)
    ensures
        match r {
            Some(t) => t@ == trim_chars(strip_trailing(text@, '\0')) && t@.len() > 0,
            None => trim_chars(strip_trailing(text@, '\0')).len() == 0,
        },
        r matches Some(t) ==> trim_chars(t@) == t@,
{
    let no_nul = strip_trailing_char(text, '\0');
    let t = trim(no_nul.as_str());
    proof {
        crate::text::law_trim_idempotent(strip_trailing(text@, '\0'));
    }
    if t.is_empty() {
        None
    } else {
        Some(t.to_owned())
    }
}

/// Where the panels go: their right edge on the circle's right edge and
/// their bottom on the circle's top, kept on the screen's positive side.
pub fn panels_position(circle_left: i32, circle_top: i32, circle_right: i32, panels_w: i32, panels_h: i32) -> (r: Point)
    requires
        i32::MIN <= circle_right - circle_left <= i32::MAX,
        i32::MIN <= circle_right - panels_w <= i32::MAX,
        i32::MIN <= circle_top - panels_h <= i32::MAX,
    ensures
        r.x == if circle_right - panels_w > 0 { circle_right - panels_w } else { 0 },
        r.y == if circle_top - panels_h > 0 { circle_top - panels_h } else { 0 },
{
    let x = circle_left + (circle_right - circle_left) - panels_w;
    let y = circle_top - panels_h;
    Point { x: if x > 0 { x } else { 0 }, y: if y > 0 { y } else { 0 } }
}

/// Where the circle starts: 12 pixels in from the bottom-right corner of the
/// work area, or, without a work area, 12 pixels from the screen's right
/// edge and 60 from its bottom.
pub fn circle_origin(work_area: Option<Point>, screen: Point, circle_w: i32, circle_h: i32) -> (r: Point)
    requires
        work_area matches Some(wa) ==> i32::MIN <= wa.x - circle_w - 12 && i32::MIN <= wa.y - circle_h - 12
            && wa.x - circle_w - 12 <= i32::MAX && wa.y - circle_h - 12 <= i32::MAX,
        work_area is None ==> i32::MIN <= screen.x - circle_w - 12 <= i32::MAX && i32::MIN
            <= screen.y - circle_h - 60 <= i32::MAX,
        i32::MIN <= (match work_area { Some(wa) => wa.x, None => screen.x }) - circle_w <= i32::MAX,
        i32::MIN <= (match work_area { Some(wa) => wa.y, None => screen.y }) - circle_h <= i32::MAX,
    ensures
        match work_area {
            Some(wa) => r.x == wa.x - circle_w - 12 && r.y == wa.y - circle_h - 12,
            None => r.x == screen.x - circle_w - 12 && r.y == screen.y - circle_h - 60,
        },
{
    match work_area {
        Some(wa) => Point { x: wa.x - circle_w - 12, y: wa.y - circle_h - 12 },
        None => Point { x: screen.x - circle_w - 12, y: screen.y - circle_h - 60 },
    }
}

/// A COM interface identifier.
pub struct Guid {
    pub data1: u32,
    pub data2: u16,
    pub data3: u16,
    pub data4: [u8; 8],
}

/// The trailing bytes shared by `IUnknown` and `IDropTarget`
/// (`{xxxxxxxx-0000-0000-C000-000000000046}`).
pub open spec fn com_base_tail() -> Seq<u8> {
    seq![0xc0u8, 0, 0, 0, 0, 0, 0, 0x46]
}

/// The identifier is `IUnknown` (`{00000000-...}`) or `IDropTarget`
/// (`{00000122-...}`), the interfaces the drop target answers to.
pub open spec fn is_drop_target_iid(g: Guid) -> bool {
    &&& (g.data1 == 0 || g.data1 == 0x122)
    &&& g.data2 == 0
    &&& g.data3 == 0
    &&& g.data4@ == com_base_tail()
}

/// The drop target hands itself out for `IUnknown` and `IDropTarget` only.
pub fn drop_target_supports(riid: &Guid) -> (r: bool)
    ensures
        r == is_drop_target_iid(*riid),
{
    let t = &riid.data4;
    let tail_ok = t[0] == 0xc0 && t[1] == 0 && t[2] == 0 && t[3] == 0 && t[4] == 0 && t[5] == 0
        && t[6] == 0 && t[7] == 0x46;
    proof {
        if tail_ok {
            assert(riid.data4@ =~= com_base_tail());
        } else {
            assert(riid.data4@ != com_base_tail()) by {
                if riid.data4@ == com_base_tail() {
                    assert(riid.data4@[0] == 0xc0u8);
                }
            }
        }
    }
    (riid.data1 == 0 || riid.data1 == 0x122) && riid.data2 == 0 && riid.data3 == 0 && tail_ok
}

} // verus!
