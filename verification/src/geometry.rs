//! Where the window stands and how large it is.
//!
//! Positions on the screen are counted in sub-point units, `POINT` to a logical point: fine
//! enough for every single-precision coordinate from 2 points on. Thumbnails, label strips
//! and the window itself are whole points.

use vstd::prelude::*;

use crate::rows::MAX_ROWS;
use crate::state::WindowPositionState;
use crate::text::same_text;

verus! {

/// Sub-point units in a logical point.
pub const POINT: i64 = 4_194_304;

/// The largest extent of a screen or a window, either way, that the library reckons with.
pub const COORD_LIMIT: i64 = 0x2000_0000_0000_0000;

/// The gap that the window keeps from the edges of the screen: 10 points.
pub const GAP: i64 = 10 * POINT;

/// The smallest edge of an agent thumbnail, in points.
pub const MIN_THUMB: u64 = 24;

/// The least and the greatest height of a row's label strip, in points.
pub const MIN_LABEL_H: u64 = 12;

pub const MAX_LABEL_H: u64 = 22;

/// An extent that the library reckons with.
pub open spec fn on_scale(v: int) -> bool {
    -COORD_LIMIT <= v <= COORD_LIMIT
}

/// Both extents are ones that the library reckons with.
pub open spec fn point_on_scale(p: [i64; 2]) -> bool {
    on_scale(p@[0] as int) && on_scale(p@[1] as int)
}

/// The coordinate that stands for one that is not a number. The next one stands for minus
/// infinity, and `i64::MAX` for infinity.
pub const NOT_A_NUMBER: i64 = i64::MIN;

/// A coordinate that stands for a finite one.
pub open spec fn finite_coord(v: int) -> bool {
    NOT_A_NUMBER + 1 < v < i64::MAX
}

/// Whether a coordinate stands for a finite one.
pub fn is_finite_coord(v: i64) -> (r: bool)
    ensures
        r == finite_coord(v as int),
{
    NOT_A_NUMBER + 1 < v && v < i64::MAX
}

// ---- one axis at a time ----

/// `v`, moved into `[lo, hi]` where it lies outside.
pub open spec fn clamped(v: int, lo: int, hi: int) -> int {
    if v < lo {
        lo
    } else if v > hi {
        hi
    } else {
        v
    }
}

/// A coordinate, moved into `[lo, hi]` where it lies outside. What is not a number stays so.
pub open spec fn clamped_coord(v: int, lo: int, hi: int) -> int {
    if v == NOT_A_NUMBER {
        v
    } else {
        clamped(v, lo, hi)
    }
}

/// The farthest coordinate at which a window of extent `win` still keeps `margin` from the
/// far edge, or `margin` itself where it cannot.
pub open spec fn farthest(screen: int, win: int, margin: int) -> int {
    if screen - win - margin > margin {
        screen - win - margin
    } else {
        margin
    }
}

/// Moves a coordinate so that an extent of `win` keeps `margin` from both edges.
pub fn clamp_axis(pos: i64, screen: i64, win: i64, margin: i64) -> (r: i64)
    requires
        on_scale(screen as int),
        on_scale(win as int),
        0 <= margin <= COORD_LIMIT,
    ensures
        r == clamped_coord(
            pos as int,
            margin as int,
            farthest(screen as int, win as int, margin as int),
        ),
{
    let far: i64 = screen - win - margin;
    let hi: i64 = if far > margin {
        far
    } else {
        margin
    };
    if pos == NOT_A_NUMBER {
        pos
    } else if pos < margin {
        margin
    } else if pos > hi {
        hi
    } else {
        pos
    }
}

// ---- placing the window ----

/// The window stands at the right edge of the screen.
pub open spec fn at_right(position: Seq<char>) -> bool {
    position != "bottom-left"@ && position != "top-left"@
}

/// The window stands at the bottom edge of the screen.
pub open spec fn at_bottom(position: Seq<char>) -> bool {
    position != "top-right"@ && position != "top-left"@
}

/// The coordinate of a window that stands at the far edge, or at the near one.
pub open spec fn anchored(far: bool, screen: int, win: int) -> int {
    if far {
        farthest(screen, win, GAP as int)
    } else {
        GAP as int
    }
}

/// Where a window in the corner `position` stands. Any other name than those of the four
/// corners means the bottom right.
pub open spec fn placed(position: Seq<char>, screen: [i64; 2], win: [i64; 2]) -> (int, int) {
    (
        anchored(at_right(position), screen@[0] as int, win@[0] as int),
        anchored(at_bottom(position), screen@[1] as int, win@[1] as int),
    )
}

/// Where a window of the extent `win` stands in a corner of the screen.
pub fn place_window(position: &str, screen: [i64; 2], win: [i64; 2]) -> (r: [i64; 2])
    requires
        point_on_scale(screen),
        point_on_scale(win),
    ensures
        (r@[0] as int, r@[1] as int) == placed(position@, screen, win),
{
    proof {
        reveal_strlit("bottom-left");
        reveal_strlit("top-left");
        reveal_strlit("top-right");
        assert("bottom-left"@.len() != "top-left"@.len());
        assert("bottom-left"@.len() != "top-right"@.len());
        assert("top-right"@.len() != "top-left"@.len());
    }
    let far_x: i64 = screen[0] - win[0] - GAP;
    let far_y: i64 = screen[1] - win[1] - GAP;
    let (x, y): (i64, i64) = if same_text(position, "bottom-left") {
        (GAP, far_y)
    } else if same_text(position, "top-right") {
        (far_x, GAP)
    } else if same_text(position, "top-left") {
        (GAP, GAP)
    } else {
        (far_x, far_y)
    };
    [clamp_axis(x, screen[0], win[0], GAP), clamp_axis(y, screen[1], win[1], GAP)]
}

/// A position moved so that the window keeps the gap from every edge.
pub open spec fn window_clamped(pos: [i64; 2], screen: [i64; 2], win: [i64; 2]) -> (int, int) {
    (
        clamped_coord(
            pos@[0] as int,
            GAP as int,
            farthest(screen@[0] as int, win@[0] as int, GAP as int),
        ),
        clamped_coord(
            pos@[1] as int,
            GAP as int,
            farthest(screen@[1] as int, win@[1] as int, GAP as int),
        ),
    )
}

/// Moves a position so that the window keeps the gap from every edge.
pub fn clamp_window_position(pos: [i64; 2], screen: [i64; 2], win: [i64; 2]) -> (r: [i64; 2])
    requires
        point_on_scale(screen),
        point_on_scale(win),
    ensures
        (r@[0] as int, r@[1] as int) == window_clamped(pos, screen, win),
{
    [clamp_axis(pos[0], screen[0], win[0], GAP), clamp_axis(pos[1], screen[1], win[1], GAP)]
}

/// A position lies on a screen that starts at the origin.
pub open spec fn on_screen(pos: [i64; 2], screen: [i64; 2]) -> bool {
    0 <= pos@[0] < screen@[0] && 0 <= pos@[1] < screen@[1]
}

/// A saved position as it is restored.
pub open spec fn restored(pos: [i64; 2], screen: [i64; 2], win: [i64; 2]) -> (int, int) {
    if on_screen(pos, screen) {
        window_clamped(pos, screen, win)
    } else {
        (pos@[0] as int, pos@[1] as int)
    }
}

/// Restores a saved position.
///
/// The size of the monitor is known, its origin is not. A saved position outside bounds that
/// start at the origin may be on a secondary monitor, so it is kept instead of being snapped
/// back to the primary one.
pub fn restore_window_position(pos: [i64; 2], screen: [i64; 2], win: [i64; 2]) -> (r: [i64; 2])
    requires
        point_on_scale(screen),
        point_on_scale(win),
    ensures
        (r@[0] as int, r@[1] as int) == restored(pos, screen, win),
{
    if 0 <= pos[0] && pos[0] < screen[0] && 0 <= pos[1] && pos[1] < screen[1] {
        clamp_window_position(pos, screen, win)
    } else {
        pos
    }
}

/// Where the window goes: to the saved position where there is one, as it is restored, else
/// into its corner.
pub open spec fn desired(
    position: Seq<char>,
    saved: Option<WindowPositionState>,
    screen: [i64; 2],
    win: [i64; 2],
) -> (int, int) {
    match saved {
        Some(pos) => restored([pos.x, pos.y], screen, win),
        None => placed(position, screen, win),
    }
}

/// Where the window goes.
pub fn desired_position(
    position: &str,
    saved: Option<WindowPositionState>,
    screen: [i64; 2],
    win: [i64; 2],
) -> (r: WindowPositionState)
    requires
        point_on_scale(screen),
        point_on_scale(win),
    ensures
        (r.x as int, r.y as int) == desired(position@, saved, screen, win),
{
    let r: [i64; 2] = match saved {
        Some(pos) => restore_window_position([pos.x, pos.y], screen, win),
        None => place_window(position, screen, win),
    };
    WindowPositionState { x: r[0], y: r[1] }
}

// ---- whole points ----

/// The nearest whole point; half a point away from both goes away from the origin.
pub open spec fn nearest_point(v: int) -> int {
    if v >= 0 {
        (2 * v + POINT) / (2 * POINT)
    } else {
        -((2 * (-v) + POINT) / (2 * POINT))
    }
}

/// A coordinate in whole points, or the nearest `i32` to it; 0 where it is not a number.
pub open spec fn whole_coord(v: int) -> int {
    if v == NOT_A_NUMBER {
        0
    } else {
        clamped(nearest_point(v), i32::MIN as int, i32::MAX as int)
    }
}

/// The nearest whole point, or the nearest `i32` to it; 0 where it is not a number.
pub fn round_to_i32(v: i64) -> (r: i32)
    ensures
        r == whole_coord(v as int),
{
    if v == NOT_A_NUMBER {
        return 0;
    }
    let w: i128 = v as i128;
    let n: i128 = if w >= 0 {
        (2 * w + POINT as i128) / (2 * POINT as i128)
    } else {
        -((2 * (-w) + POINT as i128) / (2 * POINT as i128))
    };
    if n < -2_147_483_648 {
        -2_147_483_648
    } else if n > 2_147_483_647 {
        2_147_483_647
    } else {
        n as i32
    }
}

/// The nearest whole point, or the nearest `u32` to it.
pub fn round_to_u32(v: i64) -> (r: u32)
    ensures
        r == clamped(nearest_point(v as int), 0, u32::MAX as int),
{
    let w: i128 = v as i128;
    if w < 0 {
        return 0;
    }
    let n: i128 = (2 * w + POINT as i128) / (2 * POINT as i128);
    if n > 0xffff_ffff {
        0xffff_ffff
    } else {
        n as u32
    }
}

// ---- the size of the list ----

/// The measures of the list, in points. Each row stacks a label strip above a row of square
/// thumbnails, so the width comes from the number of agents alone.
#[derive(Clone, Copy, Debug, PartialEq, Eq, Structural)]
pub struct ListLayout {
    pub win_w: u128,
    pub win_h: u128,
    /// The edge of a thumbnail.
    pub thumb: u64,
    /// The height of a label strip.
    pub label_h: u64,
    /// The height of a row.
    pub row_h: u64,
}

/// The edge of a thumbnail: nine tenths of the size preset, to the nearest point.
pub open spec fn thumb_of(size: int) -> int {
    let t = (9 * size + 5) / 10;
    if t < MIN_THUMB {
        MIN_THUMB as int
    } else {
        t
    }
}

/// The height of a label strip: 28 hundredths of the thumbnail, to the nearest point, within
/// its bounds.
pub open spec fn label_of(thumb: int) -> int {
    clamped((28 * thumb + 50) / 100, MIN_LABEL_H as int, MAX_LABEL_H as int)
}

pub open spec fn at_least_one(n: int) -> int {
    if n < 1 {
        1
    } else {
        n
    }
}

/// The width of the list: one thumbnail for each agent of the widest row.
pub open spec fn width_of(max_agents: int, size: int) -> int {
    thumb_of(size) * at_least_one(max_agents)
}

/// The height of a row: a thumbnail and a label strip.
pub open spec fn row_height_of(size: int) -> int {
    thumb_of(size) + label_of(thumb_of(size))
}

/// The height of the list: that of a row for each row.
pub open spec fn height_of(rows: int, size: int) -> int {
    row_height_of(size) * at_least_one(rows)
}

proof fn lemma_product_fits(a: int, n: int)
    requires
        0 <= a <= 0x2_0000_0000,
        0 <= n <= 0xffff_ffff_ffff_ffff,
    ensures
        0 <= a * n <= u128::MAX,
{
    assert(0 <= a * n <= 0x2_0000_0000 * 0xffff_ffff_ffff_ffff) by (nonlinear_arith)
        requires
            0 <= a <= 0x2_0000_0000,
            0 <= n <= 0xffff_ffff_ffff_ffff,
    ;
}

/// Measures a list of `rows` sessions whose widest row shows `max_agents` agents, at the
/// size preset `size` (in points).
pub fn list_layout(rows: usize, max_agents: usize, size: u32) -> (r: ListLayout)
    ensures
        r.thumb == thumb_of(size as int),
        r.label_h == label_of(r.thumb as int),
        r.row_h == r.thumb + r.label_h,
        r.win_w == width_of(max_agents as int, size as int),
        r.win_h == height_of(rows as int, size as int),
{
    let t: u64 = (9 * (size as u64) + 5) / 10;
    let thumb: u64 = if t < MIN_THUMB {
        MIN_THUMB
    } else {
        t
    };
    let l: u64 = (28 * thumb + 50) / 100;
    let label_h: u64 = if l < MIN_LABEL_H {
        MIN_LABEL_H
    } else if l > MAX_LABEL_H {
        MAX_LABEL_H
    } else {
        l
    };
    let row_h: u64 = thumb + label_h;
    let agents: usize = if max_agents < 1 {
        1
    } else {
        max_agents
    };
    let lines: usize = if rows < 1 {
        1
    } else {
        rows
    };
    proof {
        lemma_product_fits(thumb as int, agents as int);
        lemma_product_fits(row_h as int, lines as int);
    }
    let win_w: u128 = (thumb as u128) * (agents as u128);
    let win_h: u128 = (row_h as u128) * (lines as u128);
    ListLayout { win_w, win_h, thumb, label_h, row_h }
}

/// How many rows of `row_h` points there is room for on a screen, `MAX_ROWS` at most. One row
/// is drawn in any case.
pub open spec fn rows_that_fit(screen_h: int, row_h: int) -> int {
    clamped(screen_h / (row_h * POINT), 1, MAX_ROWS as int)
}

/// How many rows there is room for on a screen.
pub fn fitting_rows(screen_h: i64, row_h: u64) -> (r: usize)
    requires
        0 < row_h,
    ensures
        r == rows_that_fit(screen_h as int, row_h as int),
        1 <= r <= MAX_ROWS,
        r > 1 ==> r * (row_h * POINT) <= screen_h,
        r < MAX_ROWS ==> (r + 1) * (row_h * POINT) > screen_h,
{
    let row: i128 = (row_h as i128) * (POINT as i128);
    let room: i128 = screen_h as i128;
    proof {
        assert(0 < row_h * POINT) by (nonlinear_arith)
            requires
                0 < row_h,
                0 < POINT,
        ;
        lemma_quotient(room as int, row as int);
    }
    if room < row {
        return 1;
    }
    let n: i128 = room / row;
    if n > MAX_ROWS as i128 {
        assert(MAX_ROWS * row <= row * n) by (nonlinear_arith)
            requires
                0 < row,
                MAX_ROWS <= n,
        ;
        MAX_ROWS
    } else {
        assert(n * row == row * n && (n + 1) * row == row * (n + 1)) by (nonlinear_arith);
        n as usize
    }
}

proof fn lemma_quotient(v: int, d: int)
    requires
        0 < d,
    ensures
        d * (v / d) <= v < d * (v / d + 1),
        v < d ==> v / d < 1,
        v >= d ==> v / d >= 1,
{
    let q = v / d;
    vstd::arithmetic::div_mod::lemma_fundamental_div_mod(v, d);
    assert(d * q <= v < d * (q + 1)) by (nonlinear_arith)
        requires
            0 < d,
            v == d * q + v % d,
            0 <= v % d < d,
    ;
    if v < d {
        assert(q < 1) by (nonlinear_arith)
            requires
                0 < d,
                d * q < d,
        ;
    } else {
        assert(q >= 1) by (nonlinear_arith)
            requires
                0 < d,
                d <= v < d * (q + 1),
        ;
    }
}

// ---- laws ----

/// A window that fits on the screen keeps the gap from every edge, in whichever corner it is
/// placed.
pub proof fn law_placed_window_keeps_the_gap(
    position: Seq<char>,
    screen: [i64; 2],
    win: [i64; 2],
    axis: int,
)
    requires
        0 <= axis < 2,
        win@[axis] + 2 * GAP <= screen@[axis],
    ensures
        ({
            let p = placed(position, screen, win);
            let v = if axis == 0 {
                p.0
            } else {
                p.1
            };
            GAP <= v && v + win@[axis] + GAP <= screen@[axis]
        }),
{
}

/// A window at the right or at the bottom stays anchored there: its far edge keeps exactly
/// the gap, so that it moves by as much as it grows.
pub proof fn law_far_corner_stays_anchored(screen: int, win: int, wider: int)
    requires
        win <= wider,
        wider + 2 * GAP <= screen,
    ensures
        anchored(true, screen, win) + win + GAP == screen,
        anchored(true, screen, wider) + wider + GAP == screen,
        anchored(true, screen, win) - anchored(true, screen, wider) == wider - win,
{
}

/// The four corners: which edges each of them stands at, and where an unknown name does.
pub proof fn law_corners(position: Seq<char>)
    ensures
        !at_right("top-left"@) && !at_bottom("top-left"@),
        at_right("top-right"@) && !at_bottom("top-right"@),
        !at_right("bottom-left"@) && at_bottom("bottom-left"@),
        at_right("bottom-right"@) && at_bottom("bottom-right"@),
        position != "top-left"@ && position != "top-right"@ && position != "bottom-left"@
            ==> at_right(position) && at_bottom(position),
{
    reveal_strlit("bottom-left");
    reveal_strlit("bottom-right");
    reveal_strlit("top-left");
    reveal_strlit("top-right");
    assert("bottom-left"@.len() == 11);
    assert("bottom-right"@.len() == 12);
    assert("top-left"@.len() == 8);
    assert("top-right"@.len() == 9);
}

/// A window that is too large for the screen keeps the gap from its top left at least.
pub proof fn law_oversized_window_is_at_the_gap(
    position: Seq<char>,
    screen: [i64; 2],
    win: [i64; 2],
)
    requires
        win@[0] + 2 * GAP >= screen@[0],
        win@[1] + 2 * GAP >= screen@[1],
    ensures
        placed(position, screen, win) == (GAP as int, GAP as int),
{
}

/// Clamping leaves a window alone that was placed in a corner.
pub proof fn law_placed_window_is_not_moved(
    position: Seq<char>,
    screen: [i64; 2],
    win: [i64; 2],
    pos: [i64; 2],
)
    requires
        (pos@[0] as int, pos@[1] as int) == placed(position, screen, win),
    ensures
        window_clamped(pos, screen, win) == placed(position, screen, win),
{
}

/// Restoring a position that was restored before changes nothing.
pub proof fn law_restoring_is_idempotent(
    pos: [i64; 2],
    again: [i64; 2],
    screen: [i64; 2],
    win: [i64; 2],
)
    requires
        (again@[0] as int, again@[1] as int) == restored(pos, screen, win),
    ensures
        restored(again, screen, win) == restored(pos, screen, win),
{
}

/// A position on another monitor is kept as it is.
pub proof fn law_restoring_keeps_other_monitors(
    pos: [i64; 2],
    screen: [i64; 2],
    win: [i64; 2],
)
    requires
        pos@[0] < 0 || pos@[0] >= screen@[0] || pos@[1] < 0 || pos@[1] >= screen@[1],
    ensures
        restored(pos, screen, win) == (pos@[0] as int, pos@[1] as int),
{
}

/// A position on the screen is restored so that a window that fits is wholly visible, with
/// the gap around it.
pub proof fn law_restored_window_is_visible(
    pos: [i64; 2],
    screen: [i64; 2],
    win: [i64; 2],
)
    requires
        on_screen(pos, screen),
        win@[0] + 2 * GAP <= screen@[0],
        win@[1] + 2 * GAP <= screen@[1],
    ensures
        ({
            let (x, y) = restored(pos, screen, win);
            &&& GAP <= x && x + win@[0] + GAP <= screen@[0]
            &&& GAP <= y && y + win@[1] + GAP <= screen@[1]
        }),
{
}

/// More rows make the list taller, and more agents in the widest row make it wider.
pub proof fn law_layout_grows(rows: int, more_rows: int, agents: int, more_agents: int, size: int)
    requires
        1 <= rows < more_rows,
        1 <= agents < more_agents,
        0 <= size,
    ensures
        height_of(rows, size) < height_of(more_rows, size),
        width_of(agents, size) < width_of(more_agents, size),
{
    let t = thumb_of(size);
    let h = t + label_of(t);
    assert(t * agents < t * more_agents) by (nonlinear_arith)
        requires
            t > 0,
            agents < more_agents,
    ;
    assert(h * rows < h * more_rows) by (nonlinear_arith)
        requires
            h > 0,
            rows < more_rows,
    ;
}

/// A single row with a single agent is one thumbnail wide, and as high as a thumbnail and its
/// label strip.
pub proof fn law_layout_of_one(size: int)
    requires
        0 <= size,
    ensures
        width_of(1, size) == thumb_of(size),
        height_of(1, size) == thumb_of(size) + label_of(thumb_of(size)),
        height_of(1, size) > thumb_of(size),
        width_of(0, size) == width_of(1, size),
        height_of(0, size) == height_of(1, size),
{
    let t = thumb_of(size);
    let h = t + label_of(t);
    assert(at_least_one(1) == 1 && at_least_one(0) == 1);
    assert(t * 1 == t && h * 1 == h) by (nonlinear_arith);
}

/// A larger size preset makes no list smaller, and makes every list wider and taller once
/// the thumbnail grows.
pub proof fn law_layout_scales(rows: int, agents: int, size: int, larger: int)
    requires
        0 <= size <= larger,
    ensures
        thumb_of(size) <= thumb_of(larger),
        width_of(agents, size) <= width_of(agents, larger),
        height_of(rows, size) <= height_of(rows, larger),
        thumb_of(size) < thumb_of(larger) ==> width_of(agents, size) < width_of(agents, larger)
            && height_of(rows, size) < height_of(rows, larger),
        larger >= 28 && larger >= size + 2 ==> thumb_of(size) < thumb_of(larger),
{
    let (t, u) = (thumb_of(size), thumb_of(larger));
    let (h, k) = (t + label_of(t), u + label_of(u));
    let (m, n) = (at_least_one(agents), at_least_one(rows));
    assert(t <= u);
    assert(t * m <= u * m) by (nonlinear_arith)
        requires
            t <= u,
            m >= 1,
    ;
    assert(h * n <= k * n) by (nonlinear_arith)
        requires
            h <= k,
            n >= 1,
    ;
    if t < u {
        assert(t * m < u * m) by (nonlinear_arith)
            requires
                t < u,
                m >= 1,
        ;
        assert(h * n < k * n) by (nonlinear_arith)
            requires
                h < k,
                n >= 1,
        ;
    }
}

/// As many rows are drawn as fit: two rows or more are no taller together than the screen,
/// and where there are fewer than `MAX_ROWS`, one more would be.
pub proof fn law_rows_fit(screen_h: int, size: int)
    requires
        0 <= size,
    ensures
        ({
            let n = rows_that_fit(screen_h, row_height_of(size));
            &&& 1 <= n <= MAX_ROWS
            &&& forall|rows: int| 1 < rows <= n ==> #[trigger] height_of(rows, size) * POINT
                <= screen_h
            &&& n < MAX_ROWS ==> height_of(n + 1, size) * POINT > screen_h
        }),
{
    let h = row_height_of(size);
    let d = h * POINT;
    let q = screen_h / d;
    let n = rows_that_fit(screen_h, h);
    lemma_quotient(screen_h, d);
    assert forall|rows: int| 1 < rows <= n implies #[trigger] height_of(rows, size) * POINT
        <= screen_h by {
        assert(h * rows * POINT <= screen_h) by (nonlinear_arith)
            requires
                d == h * POINT,
                0 < d,
                rows <= q,
                d * q <= screen_h,
        ;
    }
    if n < MAX_ROWS {
        assert(h * (n + 1) * POINT > screen_h) by (nonlinear_arith)
            requires
                d == h * POINT,
                0 < d,
                q <= n,
                screen_h < d * (q + 1),
        ;
    }
}

/// A coordinate is moved no farther than needed: not at all where it lies within the bounds,
/// and else to the nearer of them.
pub proof fn law_clamped(v: int, lo: int, hi: int)
    requires
        lo <= hi,
    ensures
        lo <= clamped(v, lo, hi) <= hi,
        lo <= v <= hi ==> clamped(v, lo, hi) == v,
        v < lo ==> clamped(v, lo, hi) == lo,
        v > hi ==> clamped(v, lo, hi) == hi,
        v != i64::MIN ==> clamped_coord(v, lo, hi) == clamped(v, lo, hi),
        clamped_coord(i64::MIN as int, lo, hi) == i64::MIN,
{
}

/// Where a window stands in its corner, ten points from the edges. At the left and at the top
/// that is the gap itself; at the right and at the bottom, the window and the gap end with the
/// screen, and where they do not fit, the window starts at the gap. A name that is not that of
/// a corner means the bottom right.
pub proof fn law_window_in_its_corner(position: Seq<char>, screen: [i64; 2], win: [i64; 2])
    ensures
        ({
            let (x, y) = placed(position, screen, win);
            let gap = 10 * 4_194_304;
            let left = position == "top-left"@ || position == "bottom-left"@;
            let top = position == "top-left"@ || position == "top-right"@;
            &&& left || win@[0] + 2 * gap >= screen@[0] ==> x == gap
            &&& !left && win@[0] + 2 * gap <= screen@[0] ==> x + win@[0] + gap == screen@[0]
            &&& top || win@[1] + 2 * gap >= screen@[1] ==> y == gap
            &&& !top && win@[1] + 2 * gap <= screen@[1] ==> y + win@[1] + gap == screen@[1]
        }),
{
}

/// A saved position on the screen is restored with the window ten points from every edge: it
/// is kept where the window stands so already, and else moved to the nearest place where it
/// does, each way by itself. Where there is no such place, the window starts at the gap.
pub proof fn law_restored_position(pos: [i64; 2], screen: [i64; 2], win: [i64; 2], axis: int)
    requires
        0 <= axis < 2,
    ensures
        ({
            let r = restored(pos, screen, win);
            let v = if axis == 0 {
                r.0
            } else {
                r.1
            };
            let gap = 10 * 4_194_304;
            let far = screen@[axis] - win@[axis] - gap;
            let here = 0 <= pos@[0] < screen@[0] && 0 <= pos@[1] < screen@[1];
            &&& !here ==> v == pos@[axis]
            &&& here && gap <= pos@[axis] <= far ==> v == pos@[axis]
            &&& here && pos@[axis] < gap ==> v == gap
            &&& here && gap <= far < pos@[axis] ==> v == far
            &&& here && far < gap ==> v == gap
        }),
{
}

/// Clamping a position does on any screen what restoring does on this one, but for what is not
/// a number.
pub proof fn law_clamped_position(pos: [i64; 2], screen: [i64; 2], win: [i64; 2], axis: int)
    requires
        0 <= axis < 2,
    ensures
        ({
            let r = window_clamped(pos, screen, win);
            let v = if axis == 0 {
                r.0
            } else {
                r.1
            };
            let gap = 10 * 4_194_304;
            let far = screen@[axis] - win@[axis] - gap;
            &&& pos@[axis] == i64::MIN ==> v == pos@[axis]
            &&& gap <= pos@[axis] <= far ==> v == pos@[axis]
            &&& i64::MIN < pos@[axis] < gap ==> v == gap
            &&& gap <= far < pos@[axis] ==> v == far
            &&& i64::MIN < pos@[axis] && far < gap ==> v == gap
        }),
{
}

/// A saved position counts before the corner.
pub proof fn law_saved_position_counts(
    position: Seq<char>,
    pos: WindowPositionState,
    screen: [i64; 2],
    win: [i64; 2],
)
    ensures
        desired(position, Some(pos), screen, win) == restored([pos.x, pos.y], screen, win),
        desired(position, None, screen, win) == placed(position, screen, win),
{
}

/// A coordinate is rounded to the nearest point, and half a point away from zero. What is not
/// a number counts as zero.
pub proof fn law_nearest_point(v: int, w: int)
    ensures
        -2_097_152 <= v - nearest_point(v) * 4_194_304 <= 2_097_152,
        v - nearest_point(v) * 4_194_304 == 2_097_152 ==> v < 0,
        nearest_point(v) * 4_194_304 - v == 2_097_152 ==> v > 0,
        nearest_point(w * 4_194_304) == w,
        v != i64::MIN && -0x8000_0000 <= nearest_point(v) <= 0x7fff_ffff ==> whole_coord(v)
            == nearest_point(v),
        v != i64::MIN && nearest_point(v) < -0x8000_0000 ==> whole_coord(v) == -0x8000_0000,
        v != i64::MIN && nearest_point(v) > 0x7fff_ffff ==> whole_coord(v) == 0x7fff_ffff,
        whole_coord(i64::MIN as int) == 0,
{
    if v >= 0 {
        assert(nearest_point(v) == (2 * v + 4_194_304) / 8_388_608);
    } else {
        assert(nearest_point(v) == -((-2 * v + 4_194_304) / 8_388_608));
    }
    if w >= 0 {
        assert(nearest_point(w * 4_194_304) == (8_388_608 * w + 4_194_304) / 8_388_608);
    } else {
        assert(nearest_point(w * 4_194_304) == -((-8_388_608 * w + 4_194_304) / 8_388_608));
    }
}

/// Every coordinate is finite but three: one for what is not a number, and one for either
/// infinity.
pub proof fn law_finite_coords(v: i64)
    ensures
        finite_coord(v as int) <==> v != i64::MIN && v != i64::MIN + 1 && v != i64::MAX,
{
}

/// How large a list is. A thumbnail is nine tenths of the size preset, to the nearest point, but
/// no less than 24; a label strip is 28 hundredths of the thumbnail, to the nearest point, but
/// between 12 and 22. The list is as wide as its agents and as high as its rows.
pub proof fn law_list_measures(rows: int, agents: int, size: int)
    requires
        1 <= rows,
        1 <= agents,
        0 <= size,
    ensures
        ({
            let t = thumb_of(size);
            let l = label_of(t);
            &&& t >= 24
            &&& t > 24 ==> -5 <= 9 * size - 10 * t < 5
            &&& t == 24 ==> 9 * size < 245
            &&& 12 <= l <= 22
            &&& 12 < l < 22 ==> -50 <= 28 * t - 100 * l < 50
            &&& l == 12 ==> 28 * t < 1250
            &&& l == 22 ==> 28 * t >= 2150
            &&& row_height_of(size) == t + l
            &&& width_of(agents, size) == t * agents
            &&& height_of(rows, size) == (t + l) * rows
            &&& width_of(0, size) == t
            &&& height_of(0, size) == t + l
        }),
{
    law_layout_of_one(size);
}

/// There is room for as many rows as are no taller together than the screen, but for one row in
/// any case and for eight at most.
pub proof fn law_room_for_rows(screen_h: int, row_h: int, n: int)
    requires
        0 < row_h,
        1 <= n <= 8,
    ensures
        n <= rows_that_fit(screen_h, row_h) <==> n == 1 || n * row_h * 4_194_304 <= screen_h,
        1 <= rows_that_fit(screen_h, row_h) <= 8,
{
    let d = row_h * POINT;
    let q = screen_h / d;
    assert(0 < d) by (nonlinear_arith)
        requires
            0 < row_h,
            d == row_h * 4_194_304,
    ;
    lemma_quotient(screen_h, d);
    assert(n * row_h * 4_194_304 == n * d) by (nonlinear_arith)
        requires
            d == row_h * 4_194_304,
    ;
    if n <= q {
        assert(n * d <= screen_h) by (nonlinear_arith)
            requires
                n <= q,
                0 < d,
                d * q <= screen_h,
        ;
    } else {
        assert(n * d > screen_h) by (nonlinear_arith)
            requires
                q + 1 <= n,
                0 < d,
                screen_h < d * (q + 1),
        ;
    }
}

} // verus!
