//! The projector and 2-D renderers: texture packing, scaled cell blits, the
//! top-down view, the minimap, and the per-column 3-D projection, plus the
//! row-major index arithmetic they share with the pixel surface.
//!
//! Every draw is built from two primitives with exact pixel contracts: a
//! horizontal and a vertical run of colors.

use vstd::prelude::*;
use vstd::arithmetic::div_mod::{
    lemma_div_is_ordered,
    lemma_div_is_ordered_by_denominator,
    lemma_div_pos_is_pos,
    lemma_fundamental_div_mod,
    lemma_mod_bound,
};
use crate::framebuffer::Framebuffer;
use crate::player::POSE_MAX;
use crate::FP_ONE;

verus! {

/// Largest accepted texture width and height.
pub const MAX_TEX: usize = 16384;

/// A pixel inside the surface has a row-major index inside the buffer.
pub proof fn lemma_row_major_in_range(x: int, y: int, w: int, h: int)
    requires
        0 <= x < w,
        0 <= y < h,
    ensures
        0 <= y * w + x < w * h,
{
    assert(0 <= y * w + x < w * h) by (nonlinear_arith)
        requires
            0 <= x < w,
            0 <= y < h,
    ;
}

/// A row-major index splits back into its unique row and column.
pub proof fn lemma_row_major_decompose(x: int, y: int, w: int)
    requires
        0 <= x < w,
        0 <= y,
    ensures
        (y * w + x) / w == y,
        (y * w + x) % w == x,
{
    assert((y * w + x) / w == y && (y * w + x) % w == x) by (nonlinear_arith)
        requires
            0 <= x < w,
            0 <= y,
    ;
}

/// Scaling an index `v` out of `s` positions into `t` positions lands
/// strictly inside the `t` positions.
pub proof fn lemma_scale_index(v: int, t: int, s: int)
    requires
        0 <= v < s,
        1 <= t,
    ensures
        0 <= v * t / s <= t - 1,
{
    lemma_fundamental_div_mod(v * t, s);
    assert(0 <= v * t / s < t) by (nonlinear_arith)
        requires
            v * t == s * (v * t / s) + (v * t) % s,
            0 <= (v * t) % s < s,
            0 <= v < s,
            1 <= t,
    ;
}

/// The row and column of a buffer index are nonnegative and inside the
/// surface.
pub proof fn lemma_pixel_coords(p: int, w: int, h: int)
    requires
        0 <= p,
        p < w * h,
        0 <= w,
        0 <= h,
    ensures
        1 <= w,
        0 <= p / w < h,
        0 <= p % w < w,
        p == w * (p / w) + p % w,
{
    assert(1 <= w && 1 <= h) by (nonlinear_arith)
        requires
            0 <= w,
            0 <= h,
            0 < w * h,
    ;
    lemma_fundamental_div_mod(p, w);
    lemma_div_pos_is_pos(p, w);
    lemma_mod_bound(p, w);
    assert(p / w < h) by (nonlinear_arith)
        requires
            p == w * (p / w) + p % w,
            0 <= p % w < w,
            p < w * h,
            1 <= w,
    ;
}

/// The color packed from one RGBA byte quadruple, alpha in the top byte.
pub open spec fn pack_pixel(r: u8, g: u8, b: u8, a: u8) -> u32 {
    ((a as int) * 0x1000000 + (r as int) * 0x10000 + (g as int) * 0x100 + (b as int)) as u32
}

/// Packs a raw RGBA byte stream (as an image decoder delivers it) into one
/// color word per pixel, alpha in the top byte. Trailing bytes short of a
/// full quadruple are dropped.
pub fn pack_rgba(bytes: &Vec<u8>) -> (r: Vec<u32>)
    ensures
        r@.len() == bytes@.len() / 4,
        forall|k: int|
            0 <= k < r@.len() ==> r@[k] == pack_pixel(
                bytes@[4 * k],
                bytes@[4 * k + 1],
                bytes@[4 * k + 2],
                bytes@[4 * k + 3],
            ),
{
    let total = bytes.len();
    let n = total / 4;
    let mut out: Vec<u32> = Vec::new();
    let mut k: usize = 0;
    while k < n
        invariant
            total == bytes@.len(),
            n == bytes@.len() / 4,
            k <= n,
            out@.len() == k,
            forall|q: int|
                0 <= q < k ==> out@[q] == pack_pixel(
                    bytes@[4 * q],
                    bytes@[4 * q + 1],
                    bytes@[4 * q + 2],
                    bytes@[4 * q + 3],
                ),
        decreases n - k,
    {
        proof {
            lemma_fundamental_div_mod(bytes@.len() as int, 4);
            assert(4 * k + 3 < bytes@.len()) by (nonlinear_arith)
                requires
                    k < n,
                    n == bytes@.len() / 4,
                    bytes@.len() == 4 * (bytes@.len() / 4) + bytes@.len() % 4,
                    0 <= bytes@.len() % 4 < 4,
            ;
        }
        let red = bytes[4 * k];
        let green = bytes[4 * k + 1];
        let blue = bytes[4 * k + 2];
        let alpha = bytes[4 * k + 3];
        let color: u32 = (alpha as u32) * 0x1000000 + (red as u32) * 0x10000 + (green as u32)
            * 0x100 + (blue as u32);
        out.push(color);
        k += 1;
    }
    out
}

/// The world-pixel column or row of a fixed-point coordinate, negative
/// coordinates saturating to zero, as the top-down views place the player.
pub fn world_px(v: i64) -> (r: usize)
    requires
        -POSE_MAX <= v <= POSE_MAX,
    ensures
        r == if v < 0 {
            0int
        } else {
            (v as int) / (FP_ONE as int)
        },
        r <= 0x20000000,
{
    if v < 0 {
        0
    } else {
        proof {
            lemma_div_is_ordered(v as int, POSE_MAX as int, FP_ONE as int);
        }
        ((v as u64) / (FP_ONE as u64)) as usize
    }
}

/// Writes the run of `colors` left to right starting at `(dest_x, dest_y)`;
/// pixels falling outside the surface are clipped. The draw color is
/// restored afterwards.
pub fn blit_row(fb: &mut Framebuffer, dest_x: usize, dest_y: usize, colors: &Vec<u32>)
    requires
        old(fb).wf(),
        dest_x + colors@.len() <= 0x40000000,
        dest_y <= 0x40000000,
    ensures
        final(fb).wf(),
        final(fb).width == old(fb).width,
        final(fb).height == old(fb).height,
        final(fb).background_spec() == old(fb).background_spec(),
        final(fb).current_spec() == old(fb).current_spec(),
        forall|p: int|
            0 <= p < final(fb).buffer@.len() ==> final(fb).buffer@[p] == (
            if p / (old(fb).width as int) == dest_y && dest_x <= p % (old(fb).width as int)
                < dest_x + colors@.len() {
                colors@[p % (old(fb).width as int) - dest_x]
            } else {
                old(fb).buffer@[p]
            }),
{
    let saved = fb.current_color();
    let n = colors.len();
    let mut x: usize = 0;
    while x < n
        invariant
            fb.wf(),
            fb.width == old(fb).width,
            fb.height == old(fb).height,
            fb.background_spec() == old(fb).background_spec(),
            fb.current_spec() == saved,
            saved == old(fb).current_spec(),
            n == colors@.len(),
            x <= n,
            dest_x + n <= 0x40000000,
            dest_y <= 0x40000000,
            forall|p: int|
                0 <= p < fb.buffer@.len() ==> fb.buffer@[p] == (
                if p / (old(fb).width as int) == dest_y && dest_x <= p % (old(fb).width as int)
                    < dest_x + x {
                    colors@[p % (old(fb).width as int) - dest_x]
                } else {
                    old(fb).buffer@[p]
                }),
        decreases n - x,
    {
        let c = colors[x];
        fb.set_current_color(c);
        fb.point(dest_x + x, dest_y);
        fb.set_current_color(saved);
        proof {
            let w = old(fb).width as int;
            let h = old(fb).height as int;
            assert forall|p: int| 0 <= p < fb.buffer@.len() implies fb.buffer@[p] == (
            if p / w == dest_y && dest_x <= p % w < dest_x + x + 1 {
                colors@[p % w - dest_x]
            } else {
                old(fb).buffer@[p]
            }) by {
                assert(fb.buffer@.len() == w * h);
                assert(0 <= w && 0 <= h);
                assert(1 <= w && 1 <= h) by (nonlinear_arith)
                    requires
                        0 <= w,
                        0 <= h,
                        0 < w * h,
                ;
                lemma_fundamental_div_mod(p, w);
                assert(p / w < h) by (nonlinear_arith)
                    requires
                        p == w * (p / w) + p % w,
                        0 <= p % w < w,
                        p < w * h,
                        1 <= w,
                ;
                assert(0 <= p % w < w);
                if dest_x + x < w && (dest_y as int) < h {
                    lemma_row_major_in_range(dest_x + x, dest_y as int, w, h);
                    lemma_row_major_decompose(dest_x + x, dest_y as int, w);
                    if p / w == dest_y && p % w == dest_x + x {
                        assert(p == (dest_y as int) * w + (dest_x + x)) by (nonlinear_arith)
                            requires
                                p == w * (p / w) + p % w,
                                p / w == dest_y as int,
                                p % w == dest_x + x,
                        ;
                    }
                } else {
                    if p / w == dest_y && p % w == dest_x + x {
                        assert(false);
                    }
                }
            }
        }
        x += 1;
    }
}

/// Writes the run of `colors` top to bottom starting at `(dest_x, dest_y)`;
/// pixels falling outside the surface are clipped. The draw color is
/// restored afterwards.
pub fn blit_col(fb: &mut Framebuffer, dest_x: usize, dest_y: usize, colors: &Vec<u32>)
    requires
        old(fb).wf(),
        dest_x <= 0x40000000,
        dest_y + colors@.len() <= 0x40000000,
    ensures
        final(fb).wf(),
        final(fb).width == old(fb).width,
        final(fb).height == old(fb).height,
        final(fb).background_spec() == old(fb).background_spec(),
        final(fb).current_spec() == old(fb).current_spec(),
        forall|p: int|
            0 <= p < final(fb).buffer@.len() ==> final(fb).buffer@[p] == (
            if p % (old(fb).width as int) == dest_x && dest_y <= p / (old(fb).width as int)
                < dest_y + colors@.len() {
                colors@[p / (old(fb).width as int) - dest_y]
            } else {
                old(fb).buffer@[p]
            }),
{
    let saved = fb.current_color();
    let n = colors.len();
    let mut y: usize = 0;
    while y < n
        invariant
            fb.wf(),
            fb.width == old(fb).width,
            fb.height == old(fb).height,
            fb.background_spec() == old(fb).background_spec(),
            fb.current_spec() == saved,
            saved == old(fb).current_spec(),
            n == colors@.len(),
            y <= n,
            dest_x <= 0x40000000,
            dest_y + n <= 0x40000000,
            forall|p: int|
                0 <= p < fb.buffer@.len() ==> fb.buffer@[p] == (
                if p % (old(fb).width as int) == dest_x && dest_y <= p / (old(fb).width as int)
                    < dest_y + y {
                    colors@[p / (old(fb).width as int) - dest_y]
                } else {
                    old(fb).buffer@[p]
                }),
        decreases n - y,
    {
        let c = colors[y];
        fb.set_current_color(c);
        fb.point(dest_x, dest_y + y);
        fb.set_current_color(saved);
        proof {
            let w = old(fb).width as int;
            let h = old(fb).height as int;
            assert forall|p: int| 0 <= p < fb.buffer@.len() implies fb.buffer@[p] == (
            if p % w == dest_x && dest_y <= p / w < dest_y + y + 1 {
                colors@[p / w - dest_y]
            } else {
                old(fb).buffer@[p]
            }) by {
                assert(fb.buffer@.len() == w * h);
                assert(0 <= w && 0 <= h);
                assert(1 <= w && 1 <= h) by (nonlinear_arith)
                    requires
                        0 <= w,
                        0 <= h,
                        0 < w * h,
                ;
                lemma_fundamental_div_mod(p, w);
                assert(p / w < h) by (nonlinear_arith)
                    requires
                        p == w * (p / w) + p % w,
                        0 <= p % w < w,
                        p < w * h,
                        1 <= w,
                ;
                assert(0 <= p % w < w);
                if (dest_x as int) < w && dest_y + y < h {
                    lemma_row_major_in_range(dest_x as int, dest_y + y, w, h);
                    lemma_row_major_decompose(dest_x as int, dest_y + y, w);
                    if p % w == dest_x && p / w == dest_y + y {
                        assert(p == (dest_y + y) * w + (dest_x as int)) by (nonlinear_arith)
                            requires
                                p == w * (p / w) + p % w,
                                p / w == dest_y + y,
                                p % w == dest_x as int,
                        ;
                    }
                } else {
                    if p % w == dest_x && p / w == dest_y + y {
                        assert(false);
                    }
                }
            }
        }
        y += 1;
    }
}

} // verus!

verus! {

/// The color a scaled cell blit shows at offset `(ox, oy)` inside a
/// `size` x `size` square: the texture sample at the proportional position.
pub open spec fn block_pixel(
    tex: Seq<u32>,
    tw: int,
    th: int,
    size: int,
    ox: int,
    oy: int,
) -> u32 {
    tex[(oy * th / size) * tw + (ox * tw / size)]
}

/// One row of a scaled cell blit: the colors at offsets `(0..size, oy)`.
fn build_block_row(tex: &Vec<u32>, tw: usize, th: usize, size: usize, oy: usize) -> (r: Vec<u32>)
    requires
        1 <= tw <= MAX_TEX,
        1 <= th <= MAX_TEX,
        tex@.len() == tw * th,
        1 <= size <= 4096,
        oy < size,
    ensures
        r@.len() == size,
        forall|ox: int|
            0 <= ox < size ==> r@[ox] == block_pixel(tex@, tw as int, th as int, size as int, ox, oy as int),
{
    proof {
        lemma_scale_index(oy as int, th as int, size as int);
        assert((oy as int) * (th as int) < 0x4000000int) by (nonlinear_arith)
            requires
                oy < 4096,
                th <= 16384,
                0 <= oy,
        ;
    }
    let tyi = oy * th / size;
    let mut out: Vec<u32> = Vec::new();
    let mut x: usize = 0;
    while x < size
        invariant
            1 <= tw <= MAX_TEX,
            1 <= th <= MAX_TEX,
            tex@.len() == tw * th,
            1 <= size <= 4096,
            oy < size,
            tyi == (oy as int) * (th as int) / (size as int),
            tyi < th,
            x <= size,
            out@.len() == x,
            forall|ox: int|
                0 <= ox < x ==> out@[ox] == block_pixel(
                    tex@,
                    tw as int,
                    th as int,
                    size as int,
                    ox,
                    oy as int,
                ),
        decreases size - x,
    {
        proof {
            lemma_scale_index(x as int, tw as int, size as int);
            lemma_row_major_in_range(
                (x as int) * (tw as int) / (size as int),
                tyi as int,
                tw as int,
                th as int,
            );
            assert((x as int) * (tw as int) < 0x4000000int) by (nonlinear_arith)
                requires
                    x < 4096,
                    tw <= 16384,
                    0 <= x,
            ;
            assert((tw as int) * (th as int) <= 0x10000000int) by (nonlinear_arith)
                requires
                    tw <= 16384,
                    th <= 16384,
                    0 <= tw,
                    0 <= th,
            ;
        }
        let txi = x * tw / size;
        let c = tex[tyi * tw + txi];
        out.push(c);
        x += 1;
    }
    out
}

/// A run of `n` copies of one color.
fn build_const_row(n: usize, color: u32) -> (r: Vec<u32>)
    ensures
        r@.len() == n,
        forall|k: int| 0 <= k < n ==> r@[k] == color,
{
    let mut out: Vec<u32> = Vec::new();
    let mut k: usize = 0;
    while k < n
        invariant
            k <= n,
            out@.len() == k,
            forall|q: int| 0 <= q < k ==> out@[q] == color,
        decreases n - k,
    {
        out.push(color);
        k += 1;
    }
    out
}

/// Blits one `size` x `size` square sampled proportionally from a texture
/// at `(dest_x, dest_y)`; pixels outside the surface are clipped, and the
/// draw color is restored.
pub fn blit_block(
    fb: &mut Framebuffer,
    tex: &Vec<u32>,
    tw: usize,
    th: usize,
    dest_x: usize,
    dest_y: usize,
    size: usize,
)
    requires
        old(fb).wf(),
        1 <= tw <= MAX_TEX,
        1 <= th <= MAX_TEX,
        tex@.len() == tw * th,
        1 <= size <= 4096,
        dest_x + size <= 0x40000000,
        dest_y + size <= 0x40000000,
    ensures
        final(fb).wf(),
        final(fb).width == old(fb).width,
        final(fb).height == old(fb).height,
        final(fb).background_spec() == old(fb).background_spec(),
        final(fb).current_spec() == old(fb).current_spec(),
        forall|p: int|
            0 <= p < final(fb).buffer@.len() ==> final(fb).buffer@[p] == (
            {
                let w = old(fb).width as int;
                if dest_y <= p / w < dest_y + size && dest_x <= p % w < dest_x + size {
                    block_pixel(
                        tex@,
                        tw as int,
                        th as int,
                        size as int,
                        p % w - dest_x,
                        p / w - dest_y,
                    )
                } else {
                    old(fb).buffer@[p]
                }
            }),
{
    let mut y: usize = 0;
    while y < size
        invariant
            fb.wf(),
            fb.width == old(fb).width,
            fb.height == old(fb).height,
            fb.background_spec() == old(fb).background_spec(),
            fb.current_spec() == old(fb).current_spec(),
            1 <= tw <= MAX_TEX,
            1 <= th <= MAX_TEX,
            tex@.len() == tw * th,
            1 <= size <= 4096,
            dest_x + size <= 0x40000000,
            dest_y + size <= 0x40000000,
            y <= size,
            forall|p: int|
                0 <= p < fb.buffer@.len() ==> fb.buffer@[p] == (
                {
                    let w = old(fb).width as int;
                    if dest_y <= p / w < dest_y + y && dest_x <= p % w < dest_x + size {
                        block_pixel(
                            tex@,
                            tw as int,
                            th as int,
                            size as int,
                            p % w - dest_x,
                            p / w - dest_y,
                        )
                    } else {
                        old(fb).buffer@[p]
                    }
                }),
        decreases size - y,
    {
        let row = build_block_row(tex, tw, th, size, y);
        blit_row(fb, dest_x, dest_y + y, &row);
        proof {
            let w = old(fb).width as int;
            assert forall|p: int| 0 <= p < fb.buffer@.len() implies fb.buffer@[p] == (
            if dest_y <= p / w < dest_y + y + 1 && dest_x <= p % w < dest_x + size {
                block_pixel(tex@, tw as int, th as int, size as int, p % w - dest_x, p / w - dest_y)
            } else {
                old(fb).buffer@[p]
            }) by {
                if p / w == dest_y + y && dest_x <= p % w < dest_x + size {
                    assert(fb.buffer@[p] == row@[p % w - dest_x]);
                }
            }
        }
        y += 1;
    }
}

} // verus!

verus! {

/// The color of buffer index `p` after all non-empty grid cells are blitted
/// as `size`-pixel squares: goal cells sample the flag texture, walls the
/// wall texture, and pixels over empty cells or past the grid keep `base`.
pub open spec fn maze_pixel(
    m: crate::maze::Maze,
    size: int,
    wt: Seq<u32>,
    wtw: int,
    wth: int,
    ft: Seq<u32>,
    ftw: int,
    fth: int,
    base: Seq<u32>,
    w: int,
    p: int,
) -> u32 {
    let sx = p % w;
    let sy = p / w;
    let i = sx / size;
    let j = sy / size;
    if j < m.rows_spec() && i < m.cols_spec() && m.tag_at(j, i) != ' ' {
        if m.tag_at(j, i) == 'F' {
            block_pixel(ft, ftw, fth, size, sx % size, sy % size)
        } else {
            block_pixel(wt, wtw, wth, size, sx % size, sy % size)
        }
    } else {
        base[p]
    }
}

/// Whether the cell `(pj, pi)` comes before the cursor `(cj, ci)` in the
/// row-by-row blit order.
pub open spec fn cell_done(pj: int, pi: int, cj: int, ci: int) -> bool {
    pj < cj || (pj == cj && pi < ci)
}

/// Blits every non-empty grid cell as a `size`-pixel square at its
/// pixel-space origin: the goal cell from the flag texture, every other
/// non-empty cell from the wall texture.
pub fn draw_maze_cells(
    fb: &mut Framebuffer,
    maze: &crate::maze::Maze,
    size: usize,
    wall_tex: &Vec<u32>,
    wtw: usize,
    wth: usize,
    flag_tex: &Vec<u32>,
    ftw: usize,
    fth: usize,
)
    requires
        old(fb).wf(),
        maze.wf(),
        1 <= size <= 4096,
        1 <= wtw <= MAX_TEX,
        1 <= wth <= MAX_TEX,
        wall_tex@.len() == wtw * wth,
        1 <= ftw <= MAX_TEX,
        1 <= fth <= MAX_TEX,
        flag_tex@.len() == ftw * fth,
    ensures
        final(fb).wf(),
        final(fb).width == old(fb).width,
        final(fb).height == old(fb).height,
        final(fb).background_spec() == old(fb).background_spec(),
        final(fb).current_spec() == old(fb).current_spec(),
        forall|p: int|
            0 <= p < final(fb).buffer@.len() ==> final(fb).buffer@[p] == maze_pixel(
                *maze,
                size as int,
                wall_tex@,
                wtw as int,
                wth as int,
                flag_tex@,
                ftw as int,
                fth as int,
                old(fb).buffer@,
                old(fb).width as int,
                p,
            ),
{
    let rows = maze.rows();
    let cols = maze.cols();
    proof {
        let w = old(fb).width as int;
        let si = size as int;
        assert forall|p: int| 0 <= p < fb.buffer@.len() implies #[trigger] fb.buffer@[p]
            == fb.buffer@[p] && !cell_done((p / w) / si, (p % w) / si, 0, 0) by {
            lemma_pixel_coords(p, w, old(fb).height as int);
            lemma_div_pos_is_pos(p / w, si);
            lemma_div_pos_is_pos(p % w, si);
        }
    }
    let mut j: usize = 0;
    while j < rows
        invariant
            fb.wf(),
            fb.width == old(fb).width,
            fb.height == old(fb).height,
            fb.background_spec() == old(fb).background_spec(),
            fb.current_spec() == old(fb).current_spec(),
            maze.wf(),
            rows == maze.rows_spec(),
            cols == maze.cols_spec(),
            1 <= size <= 4096,
            1 <= wtw <= MAX_TEX,
            1 <= wth <= MAX_TEX,
            wall_tex@.len() == wtw * wth,
            1 <= ftw <= MAX_TEX,
            1 <= fth <= MAX_TEX,
            flag_tex@.len() == ftw * fth,
            j <= rows,
            forall|p: int|
                0 <= p < fb.buffer@.len() ==> fb.buffer@[p] == (
                {
                    let w = old(fb).width as int;
                    if cell_done((p / w) / (size as int), (p % w) / (size as int), j as int, 0) {
                        maze_pixel(
                            *maze,
                            size as int,
                            wall_tex@,
                            wtw as int,
                            wth as int,
                            flag_tex@,
                            ftw as int,
                            fth as int,
                            old(fb).buffer@,
                            w,
                            p,
                        )
                    } else {
                        old(fb).buffer@[p]
                    }
                }),
        decreases rows - j,
    {
        let mut i: usize = 0;
        while i < cols
            invariant
                fb.wf(),
                fb.width == old(fb).width,
                fb.height == old(fb).height,
                fb.background_spec() == old(fb).background_spec(),
                fb.current_spec() == old(fb).current_spec(),
                maze.wf(),
                rows == maze.rows_spec(),
                cols == maze.cols_spec(),
                1 <= size <= 4096,
                1 <= wtw <= MAX_TEX,
                1 <= wth <= MAX_TEX,
                wall_tex@.len() == wtw * wth,
                1 <= ftw <= MAX_TEX,
                1 <= fth <= MAX_TEX,
                flag_tex@.len() == ftw * fth,
                j < rows,
                i <= cols,
                forall|p: int|
                    0 <= p < fb.buffer@.len() ==> fb.buffer@[p] == (
                    {
                        let w = old(fb).width as int;
                        if cell_done(
                            (p / w) / (size as int),
                            (p % w) / (size as int),
                            j as int,
                            i as int,
                        ) {
                            maze_pixel(
                                *maze,
                                size as int,
                                wall_tex@,
                                wtw as int,
                                wth as int,
                                flag_tex@,
                                ftw as int,
                                fth as int,
                                old(fb).buffer@,
                                w,
                                p,
                            )
                        } else {
                            old(fb).buffer@[p]
                        }
                    }),
            decreases cols - i,
        {
            let c = maze.cell(j, i);
            if c != ' ' {
                proof {
                    assert((i as int) * (size as int) + size <= 0x2000000int) by (nonlinear_arith)
                        requires
                            0 <= i < 4096,
                            1 <= size <= 4096,
                    ;
                    assert((j as int) * (size as int) + size <= 0x2000000int) by (nonlinear_arith)
                        requires
                            0 <= j < 4096,
                            1 <= size <= 4096,
                    ;
                }
                if c == 'F' {
                    blit_block(fb, flag_tex, ftw, fth, i * size, j * size, size);
                } else {
                    blit_block(fb, wall_tex, wtw, wth, i * size, j * size, size);
                }
            }
            proof {
                let w = old(fb).width as int;
                let si = size as int;
                assert forall|p: int| 0 <= p < fb.buffer@.len() implies fb.buffer@[p] == (
                if cell_done((p / w) / si, (p % w) / si, j as int, i + 1) {
                    maze_pixel(
                        *maze,
                        si,
                        wall_tex@,
                        wtw as int,
                        wth as int,
                        flag_tex@,
                        ftw as int,
                        fth as int,
                        old(fb).buffer@,
                        w,
                        p,
                    )
                } else {
                    old(fb).buffer@[p]
                }) by {
                    lemma_pixel_coords(p, w, old(fb).height as int);
                    lemma_div_pos_is_pos(p / w, si);
                    lemma_div_pos_is_pos(p % w, si);
                    let sx = p % w;
                    let sy = p / w;
                    if (j as int) * si <= sy < (j as int) * si + si && (i as int) * si <= sx < (
                    i as int) * si + si {
                        lemma_row_major_decompose(sy - (j as int) * si, j as int, si);
                        lemma_row_major_decompose(sx - (i as int) * si, i as int, si);
                        assert(sy / si == j as int && sy % si == sy - (j as int) * si);
                        assert(sx / si == i as int && sx % si == sx - (i as int) * si);
                    }
                    if sy / si == j as int && sx / si == i as int {
                        lemma_fundamental_div_mod(sy, si);
                        lemma_fundamental_div_mod(sx, si);
                        assert((j as int) * si <= sy < (j as int) * si + si) by (nonlinear_arith)
                            requires
                                sy == si * (sy / si) + sy % si,
                                0 <= sy % si < si,
                                sy / si == j as int,
                        ;
                        assert((i as int) * si <= sx < (i as int) * si + si) by (nonlinear_arith)
                            requires
                                sx == si * (sx / si) + sx % si,
                                0 <= sx % si < si,
                                sx / si == i as int,
                        ;
                    }
                }
            }
            i += 1;
        }
        proof {
            let w = old(fb).width as int;
            let si = size as int;
            assert forall|p: int| 0 <= p < fb.buffer@.len() implies fb.buffer@[p] == (
            if cell_done((p / w) / si, (p % w) / si, j + 1, 0) {
                maze_pixel(
                    *maze,
                    si,
                    wall_tex@,
                    wtw as int,
                    wth as int,
                    flag_tex@,
                    ftw as int,
                    fth as int,
                    old(fb).buffer@,
                    w,
                    p,
                )
            } else {
                old(fb).buffer@[p]
            }) by {
                lemma_pixel_coords(p, w, old(fb).height as int);
                lemma_div_pos_is_pos(p / w, si);
                lemma_div_pos_is_pos(p % w, si);
                let sx = p % w;
                let sy = p / w;
                if cell_done(sy / si, sx / si, j + 1, 0) && !cell_done(sy / si, sx / si, j as int, cols as int) {
                    // the cell is on row j at or past the column count: past
                    // the grid, so the pixel keeps its base color either way
                    assert(sy / si == j as int && sx / si >= cols);
                }
            }
        }
        j += 1;
    }
    proof {
        let w = old(fb).width as int;
        let si = size as int;
        assert forall|p: int| 0 <= p < fb.buffer@.len() implies fb.buffer@[p] == maze_pixel(
            *maze,
            si,
            wall_tex@,
            wtw as int,
            wth as int,
            flag_tex@,
            ftw as int,
            fth as int,
            old(fb).buffer@,
            w,
            p,
        ) by {
            lemma_pixel_coords(p, w, old(fb).height as int);
            lemma_div_pos_is_pos(p / w, si);
            lemma_div_pos_is_pos(p % w, si);
            let sx = p % w;
            let sy = p / w;
            if !cell_done(sy / si, sx / si, rows as int, 0) {
                assert(sy / si >= rows);
            }
        }
    }
}

} // verus!

verus! {

/// The color the top-down views draw the player square with.
pub const PLAYER_COLOR: u32 = 0xFFDDD;

/// Whether buffer index `p` lies inside the player square of the given
/// center and radius (the square clips at the surface edges and at zero).
pub open spec fn marker_covers(cx: int, cy: int, radius: int, w: int, p: int) -> bool {
    let sx = p % w;
    let sy = p / w;
    &&& cx <= sx + radius
    &&& sx <= cx + radius
    &&& cy <= sy + radius
    &&& sy <= cy + radius
}

/// Draws the player as a filled square of the given radius centered on
/// `(cx, cy)`, clipped to the surface; leaves the draw color at
/// [`PLAYER_COLOR`], as the top-down views do.
pub fn draw_player_marker(fb: &mut Framebuffer, cx: usize, cy: usize, radius: usize)
    requires
        old(fb).wf(),
        cx <= 0x20000000,
        cy <= 0x20000000,
        radius <= 4096,
    ensures
        final(fb).wf(),
        final(fb).width == old(fb).width,
        final(fb).height == old(fb).height,
        final(fb).background_spec() == old(fb).background_spec(),
        final(fb).current_spec() == PLAYER_COLOR,
        forall|p: int|
            0 <= p < final(fb).buffer@.len() ==> final(fb).buffer@[p] == (
            if marker_covers(cx as int, cy as int, radius as int, old(fb).width as int, p) {
                PLAYER_COLOR
            } else {
                old(fb).buffer@[p]
            }),
{
    let x0 = if cx < radius {
        0
    } else {
        cx - radius
    };
    let y0 = if cy < radius {
        0
    } else {
        cy - radius
    };
    let row = build_const_row(cx + radius + 1 - x0, PLAYER_COLOR);
    let mut y: usize = y0;
    proof {
        let w = old(fb).width as int;
        assert forall|p: int| 0 <= p < fb.buffer@.len() implies #[trigger] fb.buffer@[p]
            == fb.buffer@[p] && 0 <= p / w && 0 <= p % w by {
            lemma_pixel_coords(p, w, old(fb).height as int);
        }
    }
    while y < cy + radius + 1
        invariant
            fb.wf(),
            fb.width == old(fb).width,
            fb.height == old(fb).height,
            fb.background_spec() == old(fb).background_spec(),
            fb.current_spec() == old(fb).current_spec(),
            cx <= 0x20000000,
            cy <= 0x20000000,
            radius <= 4096,
            x0 == if cx < radius { 0int } else { cx - radius },
            y0 == if cy < radius { 0int } else { cy - radius },
            row@.len() == cx + radius + 1 - x0,
            forall|k: int| 0 <= k < row@.len() ==> row@[k] == PLAYER_COLOR,
            y0 <= y <= cy + radius + 1,
            forall|p: int|
                0 <= p < fb.buffer@.len() ==> fb.buffer@[p] == (
                {
                    let w = old(fb).width as int;
                    if y0 <= p / w < y && x0 <= p % w < x0 + row@.len() {
                        PLAYER_COLOR
                    } else {
                        old(fb).buffer@[p]
                    }
                }),
        decreases cy + radius + 1 - y,
    {
        blit_row(fb, x0, y, &row);
        y += 1;
    }
    fb.set_current_color(PLAYER_COLOR);
    proof {
        let w = old(fb).width as int;
        assert forall|p: int| 0 <= p < fb.buffer@.len() implies fb.buffer@[p] == (
        if marker_covers(cx as int, cy as int, radius as int, w, p) {
            PLAYER_COLOR
        } else {
            old(fb).buffer@[p]
        }) by {
            lemma_pixel_coords(p, w, old(fb).height as int);
        }
    }
}

/// Renders the top-down 2-D view: every non-empty grid cell as a
/// `block_size`-pixel textured square (the goal cell from the flag
/// texture), then the player as a filled square of radius 5 at its world
/// position. Leaves the draw color at [`PLAYER_COLOR`].
pub fn render_2d(
    framebuffer: &mut Framebuffer,
    player: &crate::player::Player,
    maze: &crate::maze::Maze,
    block_size: usize,
    texture: &Vec<u32>,
    texture_width: usize,
    texture_height: usize,
    flag_texture: &Vec<u32>,
    flag_texture_width: usize,
    flag_texture_height: usize,
)
    requires
        old(framebuffer).wf(),
        maze.wf(),
        player.bounded(),
        1 <= block_size <= 4096,
        1 <= texture_width <= MAX_TEX,
        1 <= texture_height <= MAX_TEX,
        texture@.len() == texture_width * texture_height,
        1 <= flag_texture_width <= MAX_TEX,
        1 <= flag_texture_height <= MAX_TEX,
        flag_texture@.len() == flag_texture_width * flag_texture_height,
    ensures
        final(framebuffer).wf(),
        final(framebuffer).width == old(framebuffer).width,
        final(framebuffer).height == old(framebuffer).height,
        final(framebuffer).background_spec() == old(framebuffer).background_spec(),
        final(framebuffer).current_spec() == PLAYER_COLOR,
        forall|p: int|
            0 <= p < final(framebuffer).buffer@.len() ==> final(framebuffer).buffer@[p] == (
            {
                let w = old(framebuffer).width as int;
                let pcx = if player.x < 0 { 0int } else { (player.x as int) / (FP_ONE as int) };
                let pcy = if player.y < 0 { 0int } else { (player.y as int) / (FP_ONE as int) };
                if marker_covers(pcx, pcy, 5, w, p) {
                    PLAYER_COLOR
                } else {
                    maze_pixel(
                        *maze,
                        block_size as int,
                        texture@,
                        texture_width as int,
                        texture_height as int,
                        flag_texture@,
                        flag_texture_width as int,
                        flag_texture_height as int,
                        old(framebuffer).buffer@,
                        w,
                        p,
                    )
                }
            }),
{
    draw_maze_cells(
        framebuffer,
        maze,
        block_size,
        texture,
        texture_width,
        texture_height,
        flag_texture,
        flag_texture_width,
        flag_texture_height,
    );
    let pcx = world_px(player.x);
    let pcy = world_px(player.y);
    draw_player_marker(framebuffer, pcx, pcy, 5);
}

/// Renders the minimap: the same cell blits and player square as the 2-D
/// view, but with the block size and the player position divided by
/// `minimap_scale` and a player radius of 2.
pub fn render_minimap(
    framebuffer: &mut Framebuffer,
    player: &crate::player::Player,
    maze: &crate::maze::Maze,
    block_size: usize,
    texture: &Vec<u32>,
    texture_width: usize,
    texture_height: usize,
    flag_texture: &Vec<u32>,
    flag_texture_width: usize,
    flag_texture_height: usize,
    minimap_scale: usize,
)
    requires
        old(framebuffer).wf(),
        maze.wf(),
        player.bounded(),
        1 <= block_size <= 4096,
        1 <= minimap_scale,
        1 <= block_size / minimap_scale,
        1 <= texture_width <= MAX_TEX,
        1 <= texture_height <= MAX_TEX,
        texture@.len() == texture_width * texture_height,
        1 <= flag_texture_width <= MAX_TEX,
        1 <= flag_texture_height <= MAX_TEX,
        flag_texture@.len() == flag_texture_width * flag_texture_height,
    ensures
        final(framebuffer).wf(),
        final(framebuffer).width == old(framebuffer).width,
        final(framebuffer).height == old(framebuffer).height,
        final(framebuffer).background_spec() == old(framebuffer).background_spec(),
        final(framebuffer).current_spec() == PLAYER_COLOR,
        forall|p: int|
            0 <= p < final(framebuffer).buffer@.len() ==> final(framebuffer).buffer@[p] == (
            {
                let w = old(framebuffer).width as int;
                let scaled = (block_size as int) / (minimap_scale as int);
                let pcx = (if player.x < 0 { 0int } else { (player.x as int) / (FP_ONE as int) })
                    / (minimap_scale as int);
                let pcy = (if player.y < 0 { 0int } else { (player.y as int) / (FP_ONE as int) })
                    / (minimap_scale as int);
                if marker_covers(pcx, pcy, 2, w, p) {
                    PLAYER_COLOR
                } else {
                    maze_pixel(
                        *maze,
                        scaled,
                        texture@,
                        texture_width as int,
                        texture_height as int,
                        flag_texture@,
                        flag_texture_width as int,
                        flag_texture_height as int,
                        old(framebuffer).buffer@,
                        w,
                        p,
                    )
                }
            }),
{
    let scaled_block_size = block_size / minimap_scale;
    draw_maze_cells(
        framebuffer,
        maze,
        scaled_block_size,
        texture,
        texture_width,
        texture_height,
        flag_texture,
        flag_texture_width,
        flag_texture_height,
    );
    let wx = world_px(player.x);
    let wy = world_px(player.y);
    let pcx = wx / minimap_scale;
    let pcy = wy / minimap_scale;
    proof {
        lemma_div_is_ordered_by_denominator(wx as int, 1, minimap_scale as int);
        lemma_div_is_ordered_by_denominator(wy as int, 1, minimap_scale as int);
        assert((wx as int) / 1 == wx as int);
        assert((wy as int) / 1 == wy as int);
    }
    draw_player_marker(framebuffer, pcx, pcy, 2);
}

} // verus!

verus! {

/// The flat sky color of the 3-D view.
pub const SKY_COLOR: u32 = 0x03a9f4;

/// The projection constant: projected wall height is
/// `block_size * PROJECTION_K / distance` screen rows.
pub const PROJECTION_K: usize = 200;

/// The projected wall-strip height for a hit at `dist` (at least 1) world
/// units.
pub open spec fn wall_strip_height(block: int, dist: int) -> int {
    block * (PROJECTION_K as int) / dist
}

/// The first screen row of a wall strip of height `wh` around the horizon
/// `hh`, clipped at the surface top.
pub open spec fn strip_top(hh: int, wh: int) -> int {
    if hh - wh / 2 < 0 {
        0
    } else {
        hh - wh / 2
    }
}

/// One past the last screen row of a wall strip of height `wh` around the
/// horizon `hh`, clipped at the surface bottom `h`.
pub open spec fn strip_bottom(hh: int, wh: int, h: int) -> int {
    if hh + wh / 2 > h {
        h
    } else {
        hh + wh / 2
    }
}

/// The horizontal texture index of a wall strip: the impact point's
/// sub-cell offset along the wall's run direction (its `y` coordinate for
/// the vertical-run tag `'|'`, else its `x`), scaled into the texture
/// width and clamped.
pub open spec fn wall_tex_x_spec(
    tag: char,
    ix: int,
    iy: int,
    block: int,
    tw: int,
) -> int {
    let b = block * (FP_ONE as int);
    let wall_x = (if tag == '|' {
        iy
    } else {
        ix
    }) % b;
    let t = wall_x * tw / b;
    if t < 0 {
        0
    } else if t > tw - 1 {
        tw - 1
    } else {
        t
    }
}

/// The vertical texture index of row offset `off` inside a wall strip of
/// projected height `wh`, scaled into the texture height and clamped.
pub open spec fn wall_tex_y_spec(off: int, th: int, wh: int) -> int {
    let t = off * th / wh;
    if t < 0 {
        0
    } else if t > th - 1 {
        th - 1
    } else {
        t
    }
}

/// The horizontal texture index of a wall strip; always within
/// `[0, texture_width - 1]`, whatever the impact coordinate.
pub fn wall_tex_x(
    impact_tag: char,
    impact_x: i64,
    impact_y: i64,
    block_size: usize,
    texture_width: usize,
) -> (r: usize)
    requires
        0 <= impact_x <= 0x10000000000,
        0 <= impact_y <= 0x10000000000,
        1 <= block_size <= 4096,
        1 <= texture_width <= MAX_TEX,
    ensures
        r == wall_tex_x_spec(
            impact_tag,
            impact_x as int,
            impact_y as int,
            block_size as int,
            texture_width as int,
        ),
        r < texture_width,
{
    proof {
        assert((block_size as int) * (FP_ONE as int) <= 0x10000000int) by (nonlinear_arith)
            requires
                1 <= block_size <= 4096,
                FP_ONE == 65536,
        ;
    }
    let bfp: u64 = (block_size as u64) * (FP_ONE as u64);
    let coord: u64 = if impact_tag == '|' {
        impact_y as u64
    } else {
        impact_x as u64
    };
    proof {
        assert(1 <= bfp <= 0x10000000) by (nonlinear_arith)
            requires
                bfp == block_size * (FP_ONE as int),
                1 <= block_size <= 4096,
                FP_ONE == 65536,
        ;
    }
    let wall_x: u64 = coord % bfp;
    proof {
        lemma_mod_bound(coord as int, bfp as int);
        assert((wall_x as int) * (texture_width as int) < 0x100000000000int) by (nonlinear_arith)
            requires
                0 <= wall_x < 0x10000000,
                0 <= texture_width <= 16384,
        ;
    }
    let t: u64 = wall_x * (texture_width as u64) / bfp;
    proof {
        lemma_scale_index(wall_x as int, texture_width as int, bfp as int);
    }
    let ti = t as usize;
    if ti > texture_width - 1 {
        texture_width - 1
    } else {
        ti
    }
}

/// The vertical texture index of one wall-strip row; always within
/// `[0, texture_height - 1]`, however extreme the projected height.
pub fn wall_tex_y(offset: usize, texture_height: usize, wall_h: usize) -> (r: usize)
    requires
        offset <= 0x100000,
        1 <= texture_height <= MAX_TEX,
        1 <= wall_h,
    ensures
        r == wall_tex_y_spec(offset as int, texture_height as int, wall_h as int),
        r < texture_height,
{
    proof {
        assert((offset as int) * (texture_height as int) <= 0x100000000000int) by (nonlinear_arith)
            requires
                0 <= offset <= 0x100000,
                0 <= texture_height <= 16384,
        ;
    }
    let t: u64 = (offset as u64) * (texture_height as u64) / (wall_h as u64);
    proof {
        lemma_div_pos_is_pos((offset as int) * (texture_height as int), wall_h as int);
        lemma_div_is_ordered_by_denominator(
            (offset as int) * (texture_height as int),
            1,
            wall_h as int,
        );
        assert(((offset as int) * (texture_height as int)) / 1 == (offset as int) * (
        texture_height as int));
    }
    if t > (texture_height - 1) as u64 {
        texture_height - 1
    } else {
        t as usize
    }
}

/// The color the sky and floor fills give buffer index `p`: flat sky above
/// the horizon, the floor texture below it mapped flat onto the screen.
pub open spec fn sky_floor_pixel(
    ft: Seq<u32>,
    ftw: int,
    fth: int,
    w: int,
    h: int,
    p: int,
) -> u32 {
    let sx = p % w;
    let sy = p / w;
    let hh = h / 2;
    if sy < hh {
        SKY_COLOR
    } else {
        ft[((sy - hh) * fth / (h - hh)) * ftw + sx * ftw / w]
    }
}

/// One row of the floor fill: the floor texture mapped flat across the
/// full surface width.
fn build_floor_row(ft: &Vec<u32>, ftw: usize, fth: usize, w: usize, y: usize, hh: usize, h: usize)
    -> (r: Vec<u32>)
    requires
        1 <= ftw <= MAX_TEX,
        1 <= fth <= MAX_TEX,
        ft@.len() == ftw * fth,
        hh == h / 2,
        hh <= y < h,
        h <= MAX_TEX,
        w <= MAX_TEX,
    ensures
        r@.len() == w,
        forall|k: int|
            0 <= k < w ==> r@[k] == ft@[((y - hh) * (fth as int) / (h - hh)) * ftw + k * (
            ftw as int) / (w as int)],
{
    proof {
        lemma_fundamental_div_mod(h as int, 2);
        lemma_scale_index((y - hh) as int, fth as int, (h - hh) as int);
        assert((y as int - hh) * (fth as int) < 0x10000000int) by (nonlinear_arith)
            requires
                0 <= y - hh < 16384,
                fth <= 16384,
        ;
    }
    let ty = (y - hh) * fth / (h - hh);
    let mut out: Vec<u32> = Vec::new();
    let mut x: usize = 0;
    while x < w
        invariant
            1 <= ftw <= MAX_TEX,
            1 <= fth <= MAX_TEX,
            ft@.len() == ftw * fth,
            hh == h / 2,
            hh <= y < h,
            h <= MAX_TEX,
            w <= MAX_TEX,
            ty == (y - hh) as int * (fth as int) / (h - hh),
            0 <= ty < fth,
            x <= w,
            out@.len() == x,
            forall|k: int|
                0 <= k < x ==> out@[k] == ft@[(ty as int) * ftw + k * (ftw as int) / (w as int)],
        decreases w - x,
    {
        proof {
            lemma_scale_index(x as int, ftw as int, w as int);
            lemma_row_major_in_range(
                (x as int) * (ftw as int) / (w as int),
                ty as int,
                ftw as int,
                fth as int,
            );
            assert((x as int) * (ftw as int) < 0x10000000int) by (nonlinear_arith)
                requires
                    0 <= x < 16384,
                    ftw <= 16384,
            ;
            assert((ftw as int) * (fth as int) <= 0x10000000int) by (nonlinear_arith)
                requires
                    0 <= ftw <= 16384,
                    0 <= fth <= 16384,
            ;
        }
        let tx = x * ftw / w;
        out.push(ft[ty * ftw + tx]);
        x += 1;
    }
    out
}

} // verus!

verus! {

/// The color of buffer index `p` after the full 3-D view: the wall strip
/// of that pixel's screen column where one covers it, else the sky or
/// floor fill. Each strip comes from casting the column's ray: a ray that
/// left the grid or stopped on the (transparent) goal draws no strip.
pub open spec fn render3d_pixel(
    m: crate::maze::Maze,
    block: int,
    px: int,
    py: int,
    dirs: Seq<(i64, i64)>,
    wt: Seq<u32>,
    wtw: int,
    wth: int,
    ft: Seq<u32>,
    ftw: int,
    fth: int,
    w: int,
    h: int,
    p: int,
) -> u32 {
    let sx = p % w;
    let sy = p / w;
    let hit = crate::caster::cast_spec(m, block, px, py, dirs[sx].0 as int, dirs[sx].1 as int);
    let hh = h / 2;
    let wh = wall_strip_height(block, hit.distance);
    if hit.tag != ' ' && hit.tag != 'F' && strip_top(hh, wh) <= sy < strip_bottom(hh, wh, h) {
        wt[wall_tex_y_spec(sy - strip_top(hh, wh), wth, wh) * wtw + wall_tex_x_spec(
            hit.tag,
            hit.x,
            hit.y,
            block,
            wtw,
        )]
    } else {
        sky_floor_pixel(ft, ftw, fth, w, h, p)
    }
}

/// The colors of one wall strip, top to bottom.
fn build_strip_col(
    wt: &Vec<u32>,
    wtw: usize,
    wth: usize,
    wh: usize,
    y0: usize,
    y1: usize,
    tex_x: usize,
) -> (r: Vec<u32>)
    requires
        1 <= wtw <= MAX_TEX,
        1 <= wth <= MAX_TEX,
        wt@.len() == wtw * wth,
        tex_x < wtw,
        y0 <= y1,
        y1 - y0 <= wh,
        wh <= 0x100000,
        y0 < y1 ==> 1 <= wh,
    ensures
        r@.len() == y1 - y0,
        forall|k: int|
            0 <= k < y1 - y0 ==> r@[k] == wt@[wall_tex_y_spec(k, wth as int, wh as int) * wtw
                + tex_x],
{
    let n = y1 - y0;
    let mut out: Vec<u32> = Vec::new();
    let mut k: usize = 0;
    while k < n
        invariant
            1 <= wtw <= MAX_TEX,
            1 <= wth <= MAX_TEX,
            wt@.len() == wtw * wth,
            tex_x < wtw,
            n == y1 - y0,
            n <= wh <= 0x100000,
            0 < n ==> 1 <= wh,
            k <= n,
            out@.len() == k,
            forall|q: int|
                0 <= q < k ==> out@[q] == wt@[wall_tex_y_spec(q, wth as int, wh as int) * wtw
                    + tex_x],
        decreases n - k,
    {
        let ty = wall_tex_y(k, wth, wh);
        proof {
            lemma_row_major_in_range(tex_x as int, ty as int, wtw as int, wth as int);
            assert((wtw as int) * (wth as int) <= 0x10000000int) by (nonlinear_arith)
                requires
                    0 <= wtw <= 16384,
                    0 <= wth <= 16384,
            ;
        }
        out.push(wt[ty * wtw + tex_x]);
        k += 1;
    }
    out
}

/// Renders the pseudo-3-D view: a flat sky above the horizon, the floor
/// texture mapped flat below it, then one textured wall strip per screen
/// column, each from casting the column's ray. A column whose ray left the
/// grid, or stopped on the transparent goal cell, keeps sky and floor
/// only. The draw color is restored afterwards.
pub fn render3d(
    framebuffer: &mut Framebuffer,
    player: &crate::player::Player,
    maze: &crate::maze::Maze,
    block_size: usize,
    dirs: &Vec<(i64, i64)>,
    wall_texture: &Vec<u32>,
    wall_texture_width: usize,
    wall_texture_height: usize,
    floor_texture: &Vec<u32>,
    floor_texture_width: usize,
    floor_texture_height: usize,
)
    requires
        old(framebuffer).wf(),
        maze.wf(),
        1 <= block_size <= crate::maze::MAX_BLOCK,
        dirs@.len() == old(framebuffer).width,
        forall|k: int|
            0 <= k < dirs@.len() ==> crate::caster::dir_valid(
                (#[trigger] dirs@[k]).0 as int,
                dirs@[k].1 as int,
            ),
        1 <= wall_texture_width <= MAX_TEX,
        1 <= wall_texture_height <= MAX_TEX,
        wall_texture@.len() == wall_texture_width * wall_texture_height,
        1 <= floor_texture_width <= MAX_TEX,
        1 <= floor_texture_height <= MAX_TEX,
        floor_texture@.len() == floor_texture_width * floor_texture_height,
    ensures
        final(framebuffer).wf(),
        final(framebuffer).width == old(framebuffer).width,
        final(framebuffer).height == old(framebuffer).height,
        final(framebuffer).background_spec() == old(framebuffer).background_spec(),
        final(framebuffer).current_spec() == old(framebuffer).current_spec(),
        forall|p: int|
            0 <= p < final(framebuffer).buffer@.len() ==> final(framebuffer).buffer@[p]
                == render3d_pixel(
                *maze,
                block_size as int,
                player.x as int,
                player.y as int,
                dirs@,
                wall_texture@,
                wall_texture_width as int,
                wall_texture_height as int,
                floor_texture@,
                floor_texture_width as int,
                floor_texture_height as int,
                old(framebuffer).width as int,
                old(framebuffer).height as int,
                p,
            ),
{
    let saved = framebuffer.current_color();
    let w = framebuffer.width;
    let h = framebuffer.height;
    let hh = h / 2;
    let sky_row = build_const_row(w, SKY_COLOR);
    let mut y: usize = 0;
    while y < hh
        invariant
            framebuffer.wf(),
            framebuffer.width == old(framebuffer).width,
            framebuffer.height == old(framebuffer).height,
            framebuffer.background_spec() == old(framebuffer).background_spec(),
            framebuffer.current_spec() == saved,
            w == old(framebuffer).width,
            h == old(framebuffer).height,
            hh == h / 2,
            sky_row@.len() == w,
            forall|k: int| 0 <= k < w ==> sky_row@[k] == SKY_COLOR,
            y <= hh,
            forall|p: int|
                0 <= p < framebuffer.buffer@.len() ==> framebuffer.buffer@[p] == (
                if p / (w as int) < y {
                    SKY_COLOR
                } else {
                    old(framebuffer).buffer@[p]
                }),
        decreases hh - y,
    {
        blit_row(framebuffer, 0, y, &sky_row);
        proof {
            let wi = w as int;
            assert forall|p: int| 0 <= p < framebuffer.buffer@.len() implies framebuffer.buffer@[p]
                == (if p / wi < y + 1 {
                SKY_COLOR
            } else {
                old(framebuffer).buffer@[p]
            }) by {
                lemma_pixel_coords(p, wi, h as int);
            }
        }
        y += 1;
    }
    let mut fy: usize = hh;
    while fy < h
        invariant
            framebuffer.wf(),
            framebuffer.width == old(framebuffer).width,
            framebuffer.height == old(framebuffer).height,
            framebuffer.background_spec() == old(framebuffer).background_spec(),
            framebuffer.current_spec() == saved,
            w == old(framebuffer).width,
            h == old(framebuffer).height,
            hh == h / 2,
            1 <= floor_texture_width <= MAX_TEX,
            1 <= floor_texture_height <= MAX_TEX,
            floor_texture@.len() == floor_texture_width * floor_texture_height,
            hh <= fy <= h,
            forall|p: int|
                0 <= p < framebuffer.buffer@.len() ==> framebuffer.buffer@[p] == (
                if p / (w as int) < hh {
                    SKY_COLOR
                } else if p / (w as int) < fy {
                    sky_floor_pixel(
                        floor_texture@,
                        floor_texture_width as int,
                        floor_texture_height as int,
                        w as int,
                        h as int,
                        p,
                    )
                } else {
                    old(framebuffer).buffer@[p]
                }),
        decreases h - fy,
    {
        let row = build_floor_row(
            floor_texture,
            floor_texture_width,
            floor_texture_height,
            w,
            fy,
            hh,
            h,
        );
        blit_row(framebuffer, 0, fy, &row);
        proof {
            let wi = w as int;
            assert forall|p: int| 0 <= p < framebuffer.buffer@.len() implies framebuffer.buffer@[p]
                == (if p / wi < hh {
                SKY_COLOR
            } else if p / wi < fy + 1 {
                sky_floor_pixel(
                    floor_texture@,
                    floor_texture_width as int,
                    floor_texture_height as int,
                    wi,
                    h as int,
                    p,
                )
            } else {
                old(framebuffer).buffer@[p]
            }) by {
                lemma_pixel_coords(p, wi, h as int);
            }
        }
        fy += 1;
    }
    proof {
        assert forall|p: int| 0 <= p < framebuffer.buffer@.len() implies #[trigger] framebuffer.buffer@[p]
            == sky_floor_pixel(
            floor_texture@,
            floor_texture_width as int,
            floor_texture_height as int,
            w as int,
            h as int,
            p,
        ) by {
            lemma_pixel_coords(p, w as int, h as int);
        }
    }
    let mut i: usize = 0;
    while i < w
        invariant
            framebuffer.wf(),
            framebuffer.width == old(framebuffer).width,
            framebuffer.height == old(framebuffer).height,
            framebuffer.background_spec() == old(framebuffer).background_spec(),
            maze.wf(),
            1 <= block_size <= crate::maze::MAX_BLOCK,
            w == old(framebuffer).width,
            h == old(framebuffer).height,
            hh == h / 2,
            saved == old(framebuffer).current_spec(),
            dirs@.len() == w,
            forall|k: int|
                0 <= k < dirs@.len() ==> crate::caster::dir_valid(
                    (#[trigger] dirs@[k]).0 as int,
                    dirs@[k].1 as int,
                ),
            1 <= wall_texture_width <= MAX_TEX,
            1 <= wall_texture_height <= MAX_TEX,
            wall_texture@.len() == wall_texture_width * wall_texture_height,
            1 <= floor_texture_width <= MAX_TEX,
            1 <= floor_texture_height <= MAX_TEX,
            floor_texture@.len() == floor_texture_width * floor_texture_height,
            i <= w,
            forall|p: int|
                0 <= p < framebuffer.buffer@.len() ==> framebuffer.buffer@[p] == (
                if p % (w as int) < i {
                    render3d_pixel(
                        *maze,
                        block_size as int,
                        player.x as int,
                        player.y as int,
                        dirs@,
                        wall_texture@,
                        wall_texture_width as int,
                        wall_texture_height as int,
                        floor_texture@,
                        floor_texture_width as int,
                        floor_texture_height as int,
                        w as int,
                        h as int,
                        p,
                    )
                } else {
                    sky_floor_pixel(
                        floor_texture@,
                        floor_texture_width as int,
                        floor_texture_height as int,
                        w as int,
                        h as int,
                        p,
                    )
                }),
        decreases w - i,
    {
        let dir = dirs[i];
        let inter = crate::caster::cast_ray(framebuffer, maze, player, dir, block_size, false);
        proof {
            crate::caster::lemma_cast_characterized(
                *maze,
                block_size as int,
                player.x as int,
                player.y as int,
                dir.0 as int,
                dir.1 as int,
            );
        }
        if inter.impact != ' ' && inter.impact != 'F' {
            proof {
                crate::caster::lemma_in_bounds_coord(
                    *maze,
                    block_size as int,
                    inter.impact_pos.0 as int,
                    inter.impact_pos.1 as int,
                );
                assert(maze.cols_spec() * (block_size as int) * (FP_ONE as int)
                    <= 0x10000000000int) by (nonlinear_arith)
                    requires
                        0 <= maze.cols_spec() <= 4096,
                        1 <= block_size <= 4096,
                        FP_ONE == 65536,
                ;
                assert(maze.rows_spec() * (block_size as int) * (FP_ONE as int)
                    <= 0x10000000000int) by (nonlinear_arith)
                    requires
                        0 <= maze.rows_spec() <= 4096,
                        1 <= block_size <= 4096,
                        FP_ONE == 65536,
                ;
            }
            let dist = inter.distance;
            let bk = block_size * PROJECTION_K;
            let whu: u64 = (bk as u64) / (dist as u64);
            proof {
                lemma_div_is_ordered_by_denominator(bk as int, 1, dist as int);
                assert((bk as int) / 1 == bk as int);
                lemma_div_pos_is_pos(bk as int, dist as int);
            }
            let wh = whu as usize;
            let y0 = if hh < wh / 2 {
                0
            } else {
                hh - wh / 2
            };
            let y1 = if hh + wh / 2 > h {
                h
            } else {
                hh + wh / 2
            };
            let tex_x = wall_tex_x(
                inter.impact,
                inter.impact_pos.0,
                inter.impact_pos.1,
                block_size,
                wall_texture_width,
            );
            let colors = build_strip_col(
                wall_texture,
                wall_texture_width,
                wall_texture_height,
                wh,
                y0,
                y1,
                tex_x,
            );
            blit_col(framebuffer, i, y0, &colors);
            proof {
                let wi = w as int;
                assert forall|p: int| 0 <= p < framebuffer.buffer@.len() implies
                    framebuffer.buffer@[p] == (if p % wi < i + 1 {
                    render3d_pixel(
                        *maze,
                        block_size as int,
                        player.x as int,
                        player.y as int,
                        dirs@,
                        wall_texture@,
                        wall_texture_width as int,
                        wall_texture_height as int,
                        floor_texture@,
                        floor_texture_width as int,
                        floor_texture_height as int,
                        wi,
                        h as int,
                        p,
                    )
                } else {
                    sky_floor_pixel(
                        floor_texture@,
                        floor_texture_width as int,
                        floor_texture_height as int,
                        wi,
                        h as int,
                        p,
                    )
                }) by {
                    lemma_pixel_coords(p, wi, h as int);
                }
            }
        } else {
            proof {
                let wi = w as int;
                assert forall|p: int| 0 <= p < framebuffer.buffer@.len() implies
                    framebuffer.buffer@[p] == (if p % wi < i + 1 {
                    render3d_pixel(
                        *maze,
                        block_size as int,
                        player.x as int,
                        player.y as int,
                        dirs@,
                        wall_texture@,
                        wall_texture_width as int,
                        wall_texture_height as int,
                        floor_texture@,
                        floor_texture_width as int,
                        floor_texture_height as int,
                        wi,
                        h as int,
                        p,
                    )
                } else {
                    sky_floor_pixel(
                        floor_texture@,
                        floor_texture_width as int,
                        floor_texture_height as int,
                        wi,
                        h as int,
                        p,
                    )
                }) by {
                    lemma_pixel_coords(p, wi, h as int);
                }
            }
        }
        i += 1;
    }
    framebuffer.set_current_color(saved);
    proof {
        assert forall|p: int| 0 <= p < framebuffer.buffer@.len() implies #[trigger] framebuffer.buffer@[p]
            == render3d_pixel(
            *maze,
            block_size as int,
            player.x as int,
            player.y as int,
            dirs@,
            wall_texture@,
            wall_texture_width as int,
            wall_texture_height as int,
            floor_texture@,
            floor_texture_width as int,
            floor_texture_height as int,
            w as int,
            h as int,
            p,
        ) by {
            lemma_pixel_coords(p, w as int, h as int);
        }
    }
}

} // verus!

verus! {

/// The ray angle of screen column `i` out of `num_rays`: a uniform angular
/// fan of `fov` around the facing angle, not distance-corrected.
pub open spec fn column_angle_spec(facing: int, fov: int, i: int, num_rays: int) -> int {
    facing - fov / 2 + fov * i / num_rays
}

/// The fixed-point ray angle of one screen column, per
/// [`column_angle_spec`].
pub fn column_angle(facing: i64, fov: i64, i: usize, num_rays: usize) -> (r: i64)
    requires
        1 <= num_rays <= 100000,
        i < num_rays,
        -POSE_MAX <= facing <= POSE_MAX,
        0 <= fov <= 0x100000000,
    ensures
        r == column_angle_spec(facing as int, fov as int, i as int, num_rays as int),
{
    let half = ((fov as u64) / 2) as i64;
    proof {
        lemma_div_pos_is_pos(fov as int, 2);
        lemma_div_is_ordered_by_denominator(fov as int, 1, 2);
        assert((fov as int) / 1 == fov as int);
        assert((fov as int) * (i as int) <= 0x800000000000000int) by (nonlinear_arith)
            requires
                0 <= fov <= 0x100000000,
                0 <= i <= 100000,
        ;
    }
    let q64: u64 = ((fov as u64) * (i as u64)) / (num_rays as u64);
    proof {
        lemma_div_pos_is_pos((fov as int) * (i as int), num_rays as int);
        lemma_div_is_ordered_by_denominator((fov as int) * (i as int), 1, num_rays as int);
        assert(((fov as int) * (i as int)) / 1 == (fov as int) * (i as int));
    }
    facing - half + (q64 as i64)
}

/// One row of an image, copied out.
fn build_image_row(image: &Vec<u32>, img_w: usize, y: usize) -> (r: Vec<u32>)
    requires
        (y + 1) * img_w <= image@.len(),
    ensures
        r@.len() == img_w,
        forall|k: int| 0 <= k < img_w ==> r@[k] == image@[(y as int) * img_w + k],
{
    proof {
        assert((y as int) * img_w + img_w == (y + 1) * img_w) by (nonlinear_arith);
        assert(0 <= (y as int) * img_w) by (nonlinear_arith)
            requires
                0 <= y,
                0 <= img_w,
        ;
    }
    let total = image.len();
    let mut out: Vec<u32> = Vec::new();
    let mut k: usize = 0;
    while k < img_w
        invariant
            total == image@.len(),
            (y + 1) * img_w <= image@.len(),
            (y as int) * img_w + img_w == (y + 1) * img_w,
            0 <= (y as int) * img_w,
            k <= img_w,
            out@.len() == k,
            forall|q: int| 0 <= q < k ==> out@[q] == image@[(y as int) * img_w + q],
        decreases img_w - k,
    {
        out.push(image[y * img_w + k]);
        k += 1;
    }
    out
}

/// Draws an image centered on the surface; pixels outside the surface are
/// clipped, and the draw color is restored.
pub fn draw_centered_image(
    framebuffer: &mut Framebuffer,
    image: &Vec<u32>,
    img_width: usize,
    img_height: usize,
    framebuffer_width: usize,
    framebuffer_height: usize,
)
    requires
        old(framebuffer).wf(),
        framebuffer_width == old(framebuffer).width,
        framebuffer_height == old(framebuffer).height,
        img_width <= framebuffer_width,
        img_height <= framebuffer_height,
        image@.len() == img_width * img_height,
    ensures
        final(framebuffer).wf(),
        final(framebuffer).width == old(framebuffer).width,
        final(framebuffer).height == old(framebuffer).height,
        final(framebuffer).background_spec() == old(framebuffer).background_spec(),
        final(framebuffer).current_spec() == old(framebuffer).current_spec(),
        forall|p: int|
            0 <= p < final(framebuffer).buffer@.len() ==> final(framebuffer).buffer@[p] == (
            {
                let w = old(framebuffer).width as int;
                let xo = (framebuffer_width - img_width) as int / 2;
                let yo = (framebuffer_height - img_height) as int / 2;
                if yo <= p / w < yo + img_height && xo <= p % w < xo + img_width {
                    image@[(p / w - yo) * img_width + (p % w - xo)]
                } else {
                    old(framebuffer).buffer@[p]
                }
            }),
{
    let x_offset = (framebuffer_width - img_width) / 2;
    let y_offset = (framebuffer_height - img_height) / 2;
    let mut y: usize = 0;
    while y < img_height
        invariant
            framebuffer.wf(),
            framebuffer.width == old(framebuffer).width,
            framebuffer.height == old(framebuffer).height,
            framebuffer.background_spec() == old(framebuffer).background_spec(),
            framebuffer.current_spec() == old(framebuffer).current_spec(),
            framebuffer_width == old(framebuffer).width,
            framebuffer_height == old(framebuffer).height,
            img_width <= framebuffer_width,
            img_height <= framebuffer_height,
            image@.len() == img_width * img_height,
            x_offset == (framebuffer_width - img_width) as int / 2,
            y_offset == (framebuffer_height - img_height) as int / 2,
            y <= img_height,
            forall|p: int|
                0 <= p < framebuffer.buffer@.len() ==> framebuffer.buffer@[p] == (
                {
                    let w = old(framebuffer).width as int;
                    if y_offset <= p / w < y_offset + y && x_offset <= p % w < x_offset
                        + img_width {
                        image@[(p / w - y_offset) * img_width + (p % w - x_offset)]
                    } else {
                        old(framebuffer).buffer@[p]
                    }
                }),
        decreases img_height - y,
    {
        proof {
            assert((y + 1) * img_width <= img_height * img_width) by (nonlinear_arith)
                requires
                    y < img_height,
                    0 <= img_width,
            ;
            assert(img_height * img_width == img_width * img_height) by (nonlinear_arith);
        }
        let row = build_image_row(image, img_width, y);
        blit_row(framebuffer, x_offset, y_offset + y, &row);
        proof {
            let w = old(framebuffer).width as int;
            assert forall|p: int| 0 <= p < framebuffer.buffer@.len() implies
                framebuffer.buffer@[p] == (if y_offset <= p / w < y_offset + y + 1 && x_offset
                <= p % w < x_offset + img_width {
                image@[(p / w - y_offset) * img_width + (p % w - x_offset)]
            } else {
                old(framebuffer).buffer@[p]
            }) by {
                lemma_pixel_coords(p, w, old(framebuffer).height as int);
            }
        }
        y += 1;
    }
}

} // verus!
