use vstd::prelude::*;
use vstd::arithmetic::div_mod::{
    lemma_div_is_ordered,
    lemma_div_multiples_vanish_fancy,
    lemma_div_pos_is_pos,
    lemma_fundamental_div_mod,
    lemma_fundamental_div_mod_converse_div,
    lemma_fundamental_div_mod_converse_mod,
};
use crate::buffer::{OffscreenBuffer, Plot};
use crate::vector::{Vector2i32, Vector2u32};

verus! {

/// The pixels (x, y0) .. (x, y1 - 1), top to bottom.
pub open spec fn vline_plots(x: int, y0: int, y1: int, color: u32) -> Seq<Plot>
    decreases y1 - y0,
{
    if y1 <= y0 {
        Seq::empty()
    } else {
        vline_plots(x, y0, y1 - 1, color).push(Plot { x, y: y1 - 1, color })
    }
}

/// The pixels (x0, y) .. (x1 - 1, y), left to right.
pub open spec fn hline_plots(y: int, x0: int, x1: int, color: u32) -> Seq<Plot>
    decreases x1 - x0,
{
    if x1 <= x0 {
        Seq::empty()
    } else {
        hline_plots(y, x0, x1 - 1, color).push(Plot { x: x1 - 1, y, color })
    }
}

/// The pixels of the box [x0, x1) x [y0, y1), column by column.
pub open spec fn rect_plots(x0: int, x1: int, y0: int, y1: int, color: u32) -> Seq<Plot>
    decreases x1 - x0,
{
    if x1 <= x0 {
        Seq::empty()
    } else {
        rect_plots(x0, x1 - 1, y0, y1, color) + vline_plots(x1 - 1, y0, y1, color)
    }
}

pub open spec fn min(a: int, b: int) -> int {
    if a <= b {
        a
    } else {
        b
    }
}

pub open spec fn max(a: int, b: int) -> int {
    if a >= b {
        a
    } else {
        b
    }
}

/// Writing `a` and then `b` is writing `a + b`.
pub proof fn lemma_paint_all_concat(b: OffscreenBuffer, mem: Seq<u32>, xs: Seq<Plot>, ys: Seq<Plot>)
    ensures
        b.paint_all(mem, xs + ys) == b.paint_all(b.paint_all(mem, xs), ys),
    decreases ys.len(),
{
    if ys.len() == 0 {
        assert(xs + ys =~= xs);
    } else {
        lemma_paint_all_concat(b, mem, xs, ys.drop_last());
        assert((xs + ys).drop_last() =~= xs + ys.drop_last());
        assert((xs + ys).last() == ys.last());
    }
}

/// Floor division and Euclidean remainder of `num` by a positive `d`.
fn floor_div_mod(num: i128, d: i128) -> (r: (i128, i128))
    requires
        d > 0,
        -0x1_0000_0000_0000_0000_0000 <= num <= 0x1_0000_0000_0000_0000_0000,
    ensures
        r.0 == num / d,
        r.1 == num % d,
{
    if num >= 0 {
        (num / d, num % d)
    } else {
        let n = -num;
        let q0 = n / d;
        let r0 = n % d;
        proof {
            lemma_fundamental_div_mod(n as int, d as int);
            assert(n == d * q0 + r0);
        }
        if r0 == 0 {
            proof {
                assert(num == (-q0) * d + 0) by (nonlinear_arith)
                    requires
                        n == d * q0 + r0,
                        r0 == 0,
                        num == -n,
                ;
                lemma_fundamental_div_mod_converse_div(num as int, d as int, -q0, 0);
                lemma_fundamental_div_mod_converse_mod(num as int, d as int, -q0, 0);
            }
            (-q0, 0)
        } else {
            proof {
                assert(num == (-q0 - 1) * d + (d - r0)) by (nonlinear_arith)
                    requires
                        n == d * q0 + r0,
                        num == -n,
                ;
                lemma_fundamental_div_mod_converse_div(num as int, d as int, -q0 - 1, d - r0);
                lemma_fundamental_div_mod_converse_mod(num as int, d as int, -q0 - 1, d - r0);
            }
            (-q0 - 1, d - r0)
        }
    }
}

/// Paints the box from `top_left` (inclusive) to `bottom_right` (exclusive),
/// cut at the right and bottom edges of the buffer, column by column.
pub fn fill_rect(buffer: &mut OffscreenBuffer, top_left: Vector2u32, bottom_right: Vector2u32, color: u32)
    requires
        old(buffer).wf(),
    ensures
        final(buffer).wf(),
        final(buffer).same_shape(old(buffer)),
        final(buffer).memory@ == old(buffer).paint_all(
            old(buffer).memory@,
            rect_plots(
                top_left.x as int,
                min(bottom_right.x as int, old(buffer).width as int),
                top_left.y as int,
                min(bottom_right.y as int, old(buffer).height as int),
                color,
            ),
        ),
{
    let ghost b0 = *buffer;
    let start_x = top_left.x;
    let start_y = top_left.y;
    let end_x = if bottom_right.x < buffer.width { bottom_right.x } else { buffer.width };
    let end_y = if bottom_right.y < buffer.height { bottom_right.y } else { buffer.height };

    let mut x = start_x;
    while x < end_x
        invariant
            buffer.wf(),
            buffer.same_shape(&b0),
            start_x <= x,
            x <= end_x || x == start_x,
            end_x <= buffer.width,
            end_y <= buffer.height,
            buffer.memory@ == b0.paint_all(
                b0.memory@,
                rect_plots(start_x as int, x as int, start_y as int, end_y as int, color),
            ),
        decreases end_x - x,
    {
        let ghost before_column = buffer.memory@;
        let mut y = start_y;
        while y < end_y
            invariant
                buffer.wf(),
                buffer.same_shape(&b0),
                x < end_x,
                start_y <= y,
                y <= end_y || y == start_y,
                end_x <= buffer.width,
                end_y <= buffer.height,
                buffer.memory@ == b0.paint_all(
                    before_column,
                    vline_plots(x as int, start_y as int, y as int, color),
                ),
            decreases end_y - y,
        {
            proof {
                b0.lemma_paint_all_push(
                    before_column,
                    vline_plots(x as int, start_y as int, y as int, color),
                    Plot { x: x as int, y: y as int, color },
                );
            }
            buffer.draw_pixel(x, y, color);
            y = y + 1;
        }
        proof {
            if start_y > end_y {
                assert(vline_plots(x as int, start_y as int, y as int, color) =~= Seq::empty());
                assert(vline_plots(x as int, start_y as int, end_y as int, color) =~= Seq::empty());
            }
            lemma_paint_all_concat(
                b0,
                b0.memory@,
                rect_plots(start_x as int, x as int, start_y as int, end_y as int, color),
                vline_plots(x as int, start_y as int, end_y as int, color),
            );
        }
        x = x + 1;
    }
    proof {
        if start_x > end_x {
            assert(rect_plots(start_x as int, x as int, start_y as int, end_y as int, color)
                =~= Seq::empty());
            assert(rect_plots(start_x as int, end_x as int, start_y as int, end_y as int, color)
                =~= Seq::empty());
        }
    }
}

/// `pos` wrapped into `0 .. n`.
fn wrap(pos: i32, n: u32) -> (r: u32)
    requires
        n > 0,
    ensures
        r as int == pos as int % n as int,
        r < n,
{
    let (_q, r) = floor_div_mod(pos as i128, n as i128);
    r as u32
}

/// Paints the whole row `pos`, wrapped into the buffer's height, left to
/// right. An empty buffer is left alone.
pub fn draw_grid_row(buffer: &mut OffscreenBuffer, pos: i32, color: u32)
    requires
        old(buffer).wf(),
    ensures
        final(buffer).wf(),
        final(buffer).same_shape(old(buffer)),
        old(buffer).height == 0 ==> final(buffer).memory@ == old(buffer).memory@,
        old(buffer).height > 0 ==> final(buffer).memory@ == old(buffer).paint_all(
            old(buffer).memory@,
            hline_plots(pos as int % old(buffer).height as int, 0, old(buffer).width as int, color),
        ),
{
    if buffer.height == 0 {
        return;
    }
    let ghost b0 = *buffer;
    let y = wrap(pos, buffer.height);
    let mut x: u32 = 0;
    while x < buffer.width
        invariant
            buffer.wf(),
            buffer.same_shape(&b0),
            x <= buffer.width,
            y < buffer.height,
            buffer.memory@ == b0.paint_all(b0.memory@, hline_plots(y as int, 0, x as int, color)),
        decreases buffer.width - x,
    {
        proof {
            b0.lemma_paint_all_push(
                b0.memory@,
                hline_plots(y as int, 0, x as int, color),
                Plot { x: x as int, y: y as int, color },
            );
        }
        buffer.draw_pixel(x, y, color);
        x = x + 1;
    }
}

/// Paints the whole column `pos`, wrapped into the buffer's width, top to
/// bottom. An empty buffer is left alone.
pub fn draw_grid_column(buffer: &mut OffscreenBuffer, pos: i32, color: u32)
    requires
        old(buffer).wf(),
    ensures
        final(buffer).wf(),
        final(buffer).same_shape(old(buffer)),
        old(buffer).width == 0 ==> final(buffer).memory@ == old(buffer).memory@,
        old(buffer).width > 0 ==> final(buffer).memory@ == old(buffer).paint_all(
            old(buffer).memory@,
            vline_plots(pos as int % old(buffer).width as int, 0, old(buffer).height as int, color),
        ),
{
    if buffer.width == 0 {
        return;
    }
    let ghost b0 = *buffer;
    let x = wrap(pos, buffer.width);
    let mut y: u32 = 0;
    while y < buffer.height
        invariant
            buffer.wf(),
            buffer.same_shape(&b0),
            y <= buffer.height,
            x < buffer.width,
            buffer.memory@ == b0.paint_all(b0.memory@, vline_plots(x as int, 0, y as int, color)),
        decreases buffer.height - y,
    {
        proof {
            b0.lemma_paint_all_push(
                b0.memory@,
                vline_plots(x as int, 0, y as int, color),
                Plot { x: x as int, y: y as int, color },
            );
        }
        buffer.draw_pixel(x, y, color);
        y = y + 1;
    }
}

/// A line set up for drawing: walked along its major axis from `x0` to
/// `x0 + dx` (`dx >= 0`), `dy` along the minor axis, with the axes swapped
/// when `steep`.
pub ghost struct WuLine {
    pub x0: int,
    pub y0: int,
    pub dx: int,
    pub dy: int,
    pub steep: bool,
}

pub open spec fn abs(v: int) -> int {
    if v < 0 {
        -v
    } else {
        v
    }
}

/// The line from `a` to `b`, axes swapped when it is steeper than 45 degrees,
/// and walked from its end with the smaller major coordinate.
pub open spec fn wu_setup(a: Vector2i32, b: Vector2i32) -> WuLine {
    let steep = abs(b.y - a.y) > abs(b.x - a.x);
    let ax: int = if steep { a.y as int } else { a.x as int };
    let ay: int = if steep { a.x as int } else { a.y as int };
    let bx: int = if steep { b.y as int } else { b.x as int };
    let by: int = if steep { b.x as int } else { b.y as int };
    if ax > bx {
        WuLine { x0: bx, y0: by, dx: ax - bx, dy: ay - by, steep }
    } else {
        WuLine { x0: ax, y0: ay, dx: bx - ax, dy: by - ay, steep }
    }
}

/// The whole part of the minor coordinate at step `k`: `y0 + k * dy / dx`,
/// rounded down.
pub open spec fn wu_row(l: WuLine, k: int) -> int {
    if l.dx == 0 {
        l.y0
    } else {
        l.y0 + (k * l.dy) / l.dx
    }
}

/// `(1 - f) * 255` rounded down, where `f` is the fractional part of the
/// minor coordinate at step `k`.
pub open spec fn wu_alpha(l: WuLine, k: int) -> int {
    if l.dx == 0 {
        255
    } else {
        (255 * (l.dx - (k * l.dy) % l.dx)) / l.dx
    }
}

/// `color` with its alpha byte replaced by `alpha`.
pub open spec fn with_alpha(color: u32, alpha: int) -> u32 {
    (color as int % 0x100_0000 + alpha * 0x100_0000) as u32
}

/// A pixel at major coordinate `u` and minor coordinate `v`.
pub open spec fn oriented(l: WuLine, u: int, v: int, color: u32) -> Plot {
    if l.steep {
        Plot { x: v, y: u, color }
    } else {
        Plot { x: u, y: v, color }
    }
}

/// At step `k`, the pixel on the line, in the full colour.
pub open spec fn wu_main(l: WuLine, color: u32, k: int) -> Plot {
    oriented(l, max(l.x0 + k, 0), max(wu_row(l, k), 0), color)
}

/// At step `k`, the pixel next to it, faded by the fractional part.
pub open spec fn wu_side(l: WuLine, color: u32, k: int) -> Plot {
    oriented(l, max(l.x0 + k, 0), max(wu_row(l, k) - 1, 0), with_alpha(color, wu_alpha(l, k)))
}

/// The writes of the first `n` steps, two a step.
pub open spec fn wu_plots(l: WuLine, color: u32, n: int) -> Seq<Plot>
    decreases n,
{
    if n <= 0 {
        Seq::empty()
    } else {
        wu_plots(l, color, n - 1).push(wu_main(l, color, n - 1)).push(wu_side(l, color, n - 1))
    }
}

proof fn lemma_wu_step_bounds(k: int, dx: int, dy: int)
    requires
        0 <= k <= dx,
        0 < dx <= 0x1_0000_0000,
        abs(dy) <= 0x1_0000_0000,
    ensures
        abs(k * dy) <= 0x1_0000_0000_0000_0000,
        -abs(dy) <= (k * dy) / dx <= abs(dy),
        0 <= (255 * (dx - (k * dy) % dx)) / dx <= 255,
{
    let m = abs(dy);
    assert(abs(k * dy) <= dx * m) by (nonlinear_arith)
        requires
            0 <= k <= dx,
            m == abs(dy),
    ;
    assert(dx * m <= 0x1_0000_0000_0000_0000) by (nonlinear_arith)
        requires
            0 < dx <= 0x1_0000_0000,
            0 <= m <= 0x1_0000_0000,
    ;
    let q = (k * dy) / dx;
    let r = (k * dy) % dx;
    lemma_fundamental_div_mod(k * dy, dx);
    assert(q <= m) by (nonlinear_arith)
        requires
            k * dy == dx * q + r,
            0 <= r < dx,
            abs(k * dy) <= dx * m,
            0 < dx,
    ;
    assert(-m <= q) by (nonlinear_arith)
        requires
            k * dy == dx * q + r,
            0 <= r < dx,
            abs(k * dy) <= dx * m,
            0 < dx,
    ;
    lemma_div_pos_is_pos(255 * (dx - r), dx);
    lemma_div_is_ordered(255 * (dx - r), 255 * dx, dx);
    lemma_div_multiples_vanish_fancy(255, 0, dx);
    assert(dx * 255 + 0 == 255 * dx);
}

/// Draws the anti-aliased line from `a` to `b` (screen pixels): one step per
/// pixel along the major axis, each painting the pixel on the line in
/// `color` and the one before it across the line faded by the fractional
/// part. Coordinates below zero are raised to zero; pixels past the right or
/// bottom edge are dropped.
pub fn draw_line(buffer: &mut OffscreenBuffer, a: Vector2i32, b: Vector2i32, color: u32)
    requires
        old(buffer).wf(),
    ensures
        final(buffer).wf(),
        final(buffer).same_shape(old(buffer)),
        final(buffer).memory@ == old(buffer).paint_all(
            old(buffer).memory@,
            wu_plots(wu_setup(a, b), color, wu_setup(a, b).dx + 1),
        ),
{
    let ghost b0 = *buffer;
    let ghost l = wu_setup(a, b);
    let mut x0 = a.x as i64;
    let mut y0 = a.y as i64;
    let mut x1 = b.x as i64;
    let mut y1 = b.y as i64;
    let adx = if x1 >= x0 { x1 - x0 } else { x0 - x1 };
    let ady = if y1 >= y0 { y1 - y0 } else { y0 - y1 };
    let steep = ady > adx;
    if steep {
        let t = x0;
        x0 = y0;
        y0 = t;
        let t = x1;
        x1 = y1;
        y1 = t;
    }
    if x0 > x1 {
        let t = x0;
        x0 = x1;
        x1 = t;
        let t = y0;
        y0 = y1;
        y1 = t;
    }
    let dx = x1 - x0;
    let dy = y1 - y0;
    assert(x0 == l.x0 && y0 == l.y0 && dx == l.dx && dy == l.dy && steep == l.steep);

    let mut k: i64 = 0;
    while k <= dx
        invariant
            buffer.wf(),
            buffer.same_shape(&b0),
            x0 == l.x0,
            y0 == l.y0,
            dx == l.dx,
            dy == l.dy,
            steep == l.steep,
            0 <= dx <= 0x1_0000_0000,
            abs(dy as int) <= 0x1_0000_0000,
            -0x8000_0000 <= x0 < 0x8000_0000,
            -0x8000_0000 <= y0 < 0x8000_0000,
            0 <= k <= dx + 1,
            buffer.memory@ == b0.paint_all(b0.memory@, wu_plots(l, color, k as int)),
        decreases dx + 1 - k,
    {
        let (row, alpha) = if dx == 0 {
            (y0, 255u32)
        } else {
            proof {
                lemma_wu_step_bounds(k as int, dx as int, dy as int);
            }
            let (q, r) = floor_div_mod(k as i128 * dy as i128, dx as i128);
            (y0 + q as i64, ((255 * (dx as i128 - r)) / dx as i128) as u32)
        };
        assert(row == wu_row(l, k as int));
        assert(alpha == wu_alpha(l, k as int));
        let x = x0 + k;
        let u = if x < 0 { 0 } else { x };
        let v = if row < 0 { 0 } else { row };
        let v_side = if row - 1 < 0 { 0 } else { row - 1 };
        let faded = color % 0x100_0000 + alpha * 0x100_0000;
        proof {
            b0.lemma_paint_all_push(b0.memory@, wu_plots(l, color, k as int), wu_main(l, color, k as int));
            b0.lemma_paint_all_push(
                b0.memory@,
                wu_plots(l, color, k as int).push(wu_main(l, color, k as int)),
                wu_side(l, color, k as int),
            );
        }
        if steep {
            buffer.plot(v, u, color);
            buffer.plot(v_side, u, faded);
        } else {
            buffer.plot(u, v, color);
            buffer.plot(u, v_side, faded);
        }
        k = k + 1;
    }
}

/// `m` is the square root of `n`, rounded down.
pub open spec fn is_floor_sqrt(n: int, m: int) -> bool {
    0 <= m && m * m <= n < (m + 1) * (m + 1)
}

pub open spec fn floor_sqrt(n: int) -> int {
    choose|m: int| is_floor_sqrt(n, m)
}

/// The square root of `n`, rounded up.
pub open spec fn ceil_sqrt(n: int) -> int {
    if floor_sqrt(n) * floor_sqrt(n) == n {
        floor_sqrt(n)
    } else {
        floor_sqrt(n) + 1
    }
}

proof fn lemma_square_lt(a: int, b: int)
    requires
        0 <= a,
        0 <= b,
        a * a < b * b,
    ensures
        a < b,
{
    if a >= b {
        assert(a * a >= b * b) by (nonlinear_arith)
            requires
                0 <= b <= a,
        ;
    }
}

proof fn lemma_floor_sqrt_unique(n: int, m: int)
    requires
        is_floor_sqrt(n, m),
    ensures
        floor_sqrt(n) == m,
{
    let f = floor_sqrt(n);
    assert(is_floor_sqrt(n, f));
    if f < m {
        assert((f + 1) * (f + 1) <= m * m) by (nonlinear_arith)
            requires
                0 <= f < m,
        ;
    } else if f > m {
        assert((m + 1) * (m + 1) <= f * f) by (nonlinear_arith)
            requires
                0 <= m < f,
        ;
    }
}

/// The square root of `n`, rounded down.
fn isqrt(n: u128) -> (r: u128)
    ensures
        is_floor_sqrt(n as int, r as int),
        r as int == floor_sqrt(n as int),
        r <= 0xffff_ffff_ffff_ffff,
{
    let mut lo: u128 = 0;
    let mut hi: u128 = 0x1_0000_0000_0000_0000;
    assert(n < hi * hi);
    while hi - lo > 1
        invariant
            lo < hi <= 0x1_0000_0000_0000_0000,
            lo * lo <= n,
            n < hi * hi,
        decreases hi - lo,
    {
        let mid = lo + (hi - lo) / 2;
        assert(mid * mid <= 0xffff_ffff_ffff_ffff * 0xffff_ffff_ffff_ffff) by (nonlinear_arith)
            requires
                mid < 0x1_0000_0000_0000_0000,
        ;
        if mid * mid <= n {
            lo = mid;
        } else {
            hi = mid;
        }
    }
    proof {
        lemma_floor_sqrt_unique(n as int, lo as int);
    }
    lo
}

/// The fade of a pixel at squared distance `d2` from the centre, just past
/// the radius: `(1 - f) * 255` rounded down, where `f` is the fractional part
/// of the distance.
pub open spec fn circle_alpha(d2: int) -> int {
    255 * (floor_sqrt(d2) + 1) - ceil_sqrt(65025 * d2)
}

proof fn lemma_circle_alpha_bounds(d2: int, f: int, g: int)
    requires
        0 <= d2,
        is_floor_sqrt(d2, f),
        is_floor_sqrt(65025 * d2, g),
    ensures
        0 <= circle_alpha(d2) <= 255,
{
    lemma_floor_sqrt_unique(d2, f);
    lemma_floor_sqrt_unique(65025 * d2, g);
    let c = ceil_sqrt(65025 * d2);
    assert((255 * f) * (255 * f) == 65025 * (f * f)) by (nonlinear_arith);
    assert((255 * (f + 1)) * (255 * (f + 1)) == 65025 * ((f + 1) * (f + 1))) by (nonlinear_arith);
    assert(65025 * (f * f) <= 65025 * d2) by (nonlinear_arith)
        requires
            f * f <= d2,
    ;
    assert(65025 * d2 < 65025 * ((f + 1) * (f + 1))) by (nonlinear_arith)
        requires
            d2 < (f + 1) * (f + 1),
    ;
    lemma_square_lt(g, 255 * (f + 1));
    if c < 255 * f {
        assert(c * c < (255 * f) * (255 * f)) by (nonlinear_arith)
            requires
                0 <= c < 255 * f,
        ;
        if g * g != 65025 * d2 {
            assert(c * c >= 65025 * d2);
        }
    }
}

/// What the circle of centre `c` and radius `r` paints at (x, y): the full
/// colour within the radius, a faded colour within one pixel past it,
/// nothing further out.
pub open spec fn circle_pixel(c: Vector2i32, r: int, color: u32, x: int, y: int) -> Seq<Plot> {
    let d2 = (x - c.x) * (x - c.x) + (y - c.y) * (y - c.y);
    if d2 <= r * r {
        seq![Plot { x, y, color }]
    } else if d2 <= (r + 1) * (r + 1) {
        seq![Plot { x, y, color: with_alpha(color, circle_alpha(d2)) }]
    } else {
        Seq::empty()
    }
}

/// The writes of the circle in column `x`, rows `y0 .. y1`.
pub open spec fn circle_column(c: Vector2i32, r: int, color: u32, x: int, y0: int, y1: int) -> Seq<Plot>
    decreases y1 - y0,
{
    if y1 <= y0 {
        Seq::empty()
    } else {
        circle_column(c, r, color, x, y0, y1 - 1) + circle_pixel(c, r, color, x, y1 - 1)
    }
}

/// The writes of the circle over the box [x0, x1) x [y0, y1), column by column.
pub open spec fn circle_scan(
    c: Vector2i32,
    r: int,
    color: u32,
    x0: int,
    x1: int,
    y0: int,
    y1: int,
) -> Seq<Plot>
    decreases x1 - x0,
{
    if x1 <= x0 {
        Seq::empty()
    } else {
        circle_scan(c, r, color, x0, x1 - 1, y0, y1) + circle_column(c, r, color, x1 - 1, y0, y1)
    }
}

/// The square of side `2 * radius + 1` round the centre, cut to the buffer.
pub open spec fn circle_box_start(c: int, r: int) -> int {
    max(c - r, 0)
}

pub open spec fn circle_box_end(c: int, r: int, size: int) -> int {
    min(max(c + r, 0), size - 1) + 1
}

proof fn lemma_paint_one(b: OffscreenBuffer, mem: Seq<u32>, p: Plot)
    ensures
        b.paint_all(mem, seq![p]) == b.paint(mem, p),
{
    let one = seq![p];
    assert(one.drop_last() =~= Seq::<Plot>::empty());
    assert(one.last() == p);
    assert(b.paint_all(mem, one.drop_last()) == mem);
}

/// Draws a filled circle of `radius` pixels round `center` (screen pixels),
/// scanning the square round it that lies in the buffer: pixels within the
/// radius get `color`, those within one more pixel get `color` faded by how
/// far past the radius they lie.
pub fn draw_circle(buffer: &mut OffscreenBuffer, center: Vector2i32, radius: i32, color: u32)
    requires
        old(buffer).wf(),
    ensures
        final(buffer).wf(),
        final(buffer).same_shape(old(buffer)),
        final(buffer).memory@ == old(buffer).paint_all(
            old(buffer).memory@,
            circle_scan(
                center,
                radius as int,
                color,
                circle_box_start(center.x as int, radius as int),
                circle_box_end(center.x as int, radius as int, old(buffer).width as int),
                circle_box_start(center.y as int, radius as int),
                circle_box_end(center.y as int, radius as int, old(buffer).height as int),
            ),
        ),
{
    let ghost b0 = *buffer;
    let r = radius as i64;
    let cx = center.x as i64;
    let cy = center.y as i64;
    let start_x: i64 = if cx - r > 0 { cx - r } else { 0 };
    let start_y: i64 = if cy - r > 0 { cy - r } else { 0 };
    let hi_x: i64 = if cx + r > 0 { cx + r } else { 0 };
    let hi_y: i64 = if cy + r > 0 { cy + r } else { 0 };
    let end_x: i64 = if hi_x < buffer.width as i64 - 1 { hi_x + 1 } else { buffer.width as i64 };
    let end_y: i64 = if hi_y < buffer.height as i64 - 1 { hi_y + 1 } else { buffer.height as i64 };
    assert(0 <= r as int * r as int <= 0x4000_0000_0000_0000) by (nonlinear_arith)
        requires
            -0x8000_0000 <= r < 0x8000_0000,
    ;
    assert(0 <= (r as int + 1) * (r as int + 1) <= 0x4000_0000_0000_0000) by (nonlinear_arith)
        requires
            -0x8000_0000 <= r < 0x8000_0000,
    ;
    let r_in: i128 = r as i128 * r as i128;
    let r_out: i128 = (r as i128 + 1) * (r as i128 + 1);

    let mut x = start_x;
    while x < end_x
        invariant
            buffer.wf(),
            buffer.same_shape(&b0),
            0 <= start_x <= x,
            0 <= start_y,
            x <= end_x || x == start_x,
            end_x <= b0.width,
            end_y <= b0.height,
            cx == center.x,
            cy == center.y,
            r_in == r as int * r as int,
            r_out == (r as int + 1) * (r as int + 1),
            r == radius,
            buffer.memory@ == b0.paint_all(
                b0.memory@,
                circle_scan(center, r as int, color, start_x as int, x as int, start_y as int, end_y as int),
            ),
        decreases end_x - x,
    {
        let ghost before_column = buffer.memory@;
        let mut y = start_y;
        while y < end_y
            invariant
                buffer.wf(),
                buffer.same_shape(&b0),
                0 <= start_x <= x < end_x,
                0 <= start_y <= y,
                y <= end_y || y == start_y,
                end_x <= b0.width,
                end_y <= b0.height,
                cx == center.x,
                cy == center.y,
                r_in == r as int * r as int,
                r_out == (r as int + 1) * (r as int + 1),
                r == radius,
                buffer.memory@ == b0.paint_all(
                    before_column,
                    circle_column(center, r as int, color, x as int, start_y as int, y as int),
                ),
            decreases end_y - y,
        {
            let ddx = (x - cx) as i128;
            let ddy = (y - cy) as i128;
            assert(ddx * ddx <= 0x4_0000_0000_0000_0000) by (nonlinear_arith)
                requires
                    -0x2_0000_0000 <= ddx <= 0x2_0000_0000,
            ;
            assert(ddy * ddy <= 0x4_0000_0000_0000_0000) by (nonlinear_arith)
                requires
                    -0x2_0000_0000 <= ddy <= 0x2_0000_0000,
            ;
            assert(0 <= ddx * ddx && 0 <= ddy * ddy) by (nonlinear_arith);
            let d2 = ddx * ddx + ddy * ddy;
            assert(d2 == (x - center.x) * (x - center.x) + (y - center.y) * (y - center.y)) by (nonlinear_arith)
                requires
                    ddx == x - center.x,
                    ddy == y - center.y,
                    d2 == ddx * ddx + ddy * ddy,
            ;
            let ghost cells = circle_column(center, r as int, color, x as int, start_y as int, y as int);
            proof {
                lemma_paint_all_concat(b0, before_column, cells, circle_pixel(center, r as int, color, x as int, y as int));
                assert(circle_column(center, r as int, color, x as int, start_y as int, y + 1)
                    == cells + circle_pixel(center, r as int, color, x as int, y as int));
            }
            if d2 <= r_in {
                proof {
                    lemma_paint_one(b0, b0.paint_all(before_column, cells), Plot { x: x as int, y: y as int, color });
                }
                buffer.plot(x, y, color);
            } else if d2 <= r_out {
                let f = isqrt(d2 as u128);
                let n = 65025 * d2 as u128;
                let g = isqrt(n);
                let c = if g * g == n { g } else { g + 1 };
                proof {
                    lemma_circle_alpha_bounds(d2 as int, f as int, g as int);
                }
                let alpha = (255 * (f + 1) - c) as u32;
                let faded = color % 0x100_0000 + alpha * 0x100_0000;
                proof {
                    lemma_paint_one(b0, b0.paint_all(before_column, cells), Plot { x: x as int, y: y as int, color: faded });
                }
                buffer.plot(x, y, faded);
            } else {
                assert(circle_pixel(center, r as int, color, x as int, y as int) =~= Seq::<Plot>::empty());
            }
            y = y + 1;
        }
        proof {
            if start_y > end_y {
                assert(circle_column(center, r as int, color, x as int, start_y as int, y as int) =~= Seq::<Plot>::empty());
                assert(circle_column(center, r as int, color, x as int, start_y as int, end_y as int) =~= Seq::<Plot>::empty());
            }
            lemma_paint_all_concat(
                b0,
                b0.memory@,
                circle_scan(center, r as int, color, start_x as int, x as int, start_y as int, end_y as int),
                circle_column(center, r as int, color, x as int, start_y as int, end_y as int),
            );
        }
        x = x + 1;
    }
    proof {
        if start_x > end_x {
            assert(circle_scan(center, r as int, color, start_x as int, x as int, start_y as int, end_y as int) =~= Seq::<Plot>::empty());
            assert(circle_scan(center, r as int, color, start_x as int, end_x as int, start_y as int, end_y as int) =~= Seq::<Plot>::empty());
        }
    }
}

/// The test pattern's pixel in column `x` of row `y`: blue grows from left to
/// right and green from top to bottom, green starting at one; both are
/// shifted by their offsets and wrap at 255.
pub open spec fn gradient_pixel(x: int, y: int, x_offset: u8, y_offset: u8) -> u32 {
    (((y + 1 + y_offset) % 255) * 0x100 + (x + x_offset) % 255) as u32
}

/// Fills every pixel with the test pattern, overwriting what was there; the
/// padding at the end of each row is left alone.
pub fn render_weird_gradient(buffer: &mut OffscreenBuffer, x_offset: u8, y_offset: u8)
    requires
        old(buffer).wf(),
    ensures
        final(buffer).wf(),
        final(buffer).same_shape(old(buffer)),
        forall|i: int|
            0 <= i < final(buffer).memory@.len() ==> #[trigger] final(buffer).memory@[i] == if i
                % old(buffer).stride() < old(buffer).width {
                gradient_pixel(i % old(buffer).stride(), i / old(buffer).stride(), x_offset, y_offset)
            } else {
                old(buffer).memory@[i]
            },
{
    let ghost b0 = *buffer;
    let ghost s = b0.stride();
    let stride = (buffer.pitch / 4) as usize;
    let width = buffer.width as usize;
    let height = buffer.height as usize;
    let len = buffer.memory.len();
    let mut y: usize = 0;
    while y < height
        invariant
            buffer.wf(),
            buffer.same_shape(&b0),
            s == stride,
            width == b0.width,
            width <= stride,
            height == b0.height,
            len == buffer.memory@.len(),
            len == height * stride,
            y <= height,
            forall|i: int|
                0 <= i < len ==> #[trigger] buffer.memory@[i] == if i < y * stride && i % s < width {
                    gradient_pixel(i % s, i / s, x_offset, y_offset)
                } else {
                    b0.memory@[i]
                },
        decreases height - y,
    {
        assert((y + 1) * stride <= height * stride) by (nonlinear_arith)
            requires
                y < height,
        ;
        assert((y + 1) * stride == y * stride + stride) by (nonlinear_arith);
        let row = y * stride;
        let green = ((y as u64 + 1 + y_offset as u64) % 255) as u32;
        let mut x: usize = 0;
        while x < width
            invariant
                buffer.wf(),
                buffer.same_shape(&b0),
                s == stride,
                width == b0.width,
                width <= stride,
                len == buffer.memory@.len(),
                y < height,
                row == y * stride,
                row + stride <= len,
                green == (y + 1 + y_offset) % 255,
                x <= width,
                forall|i: int|
                    0 <= i < len ==> #[trigger] buffer.memory@[i] == if i < row + x && i % s < width {
                        gradient_pixel(i % s, i / s, x_offset, y_offset)
                    } else {
                        b0.memory@[i]
                    },
            decreases width - x,
        {
            let blue = ((x as u64 + x_offset as u64) % 255) as u32;
            proof {
                lemma_fundamental_div_mod_converse_mod(row + x, s, y as int, x as int);
                lemma_fundamental_div_mod_converse_div(row + x, s, y as int, x as int);
            }
            buffer.memory.set(row + x, green * 0x100 + blue);
            x = x + 1;
        }
        proof {
            assert forall|i: int| row + width <= i < row + stride implies #[trigger] (i % s) >= width by {
                lemma_fundamental_div_mod_converse_mod(i, s, y as int, i - row);
            }
        }
        y = y + 1;
    }
    proof {
        assert(y * stride == len);
    }
}

} // verus!
