//! The pixel surface: a contiguous buffer of packed colors in row-major
//! order, with a current draw color and a background color.

use vstd::prelude::*;

verus! {

/// Largest accepted surface width and height; keeps `y * width + x` and
/// `width * height` within `usize` on every platform.
pub const MAX_SURFACE: usize = 16384;

/// A width x height surface of packed colors plus the draw-color state.
pub struct Framebuffer {
    pub width: usize,
    pub height: usize,
    pub buffer: Vec<u32>,
    pub background_color: u32,
    pub current_color: u32,
}

impl Framebuffer {
    /// The color that `clear` fills with.
    pub open spec fn background_spec(&self) -> u32 {
        self.background_color
    }

    /// The color that `point` writes.
    pub open spec fn current_spec(&self) -> u32 {
        self.current_color
    }

    /// Well-formedness: the buffer has exactly one packed color per pixel
    /// and the dimensions are within bounds.
    pub open spec fn wf(&self) -> bool {
        &&& self.buffer@.len() == self.width * self.height
        &&& self.width <= MAX_SURFACE
        &&& self.height <= MAX_SURFACE
    }

    /// A black surface with a white draw color.
    pub fn new(width: usize, height: usize) -> (r: Framebuffer)
        requires
            width <= MAX_SURFACE,
            height <= MAX_SURFACE,
        ensures
            r.wf(),
            r.width == width,
            r.height == height,
            forall|p: int| 0 <= p < r.buffer@.len() ==> r.buffer@[p] == 0u32,
            r.background_spec() == 0x000000u32,
            r.current_spec() == 0xFFFFFFu32,
    {
        proof {
            assert(width * height <= 0x10000000int) by (nonlinear_arith)
                requires
                    width <= 16384,
                    height <= 16384,
            ;
        }
        Framebuffer {
            width,
            height,
            buffer: vec![0u32; width * height],
            background_color: 0x000000,
            current_color: 0xFFFFFF,
        }
    }

    /// Fills every pixel with the background color.
    pub fn clear(&mut self)
        requires
            old(self).wf(),
        ensures
            final(self).wf(),
            final(self).width == old(self).width,
            final(self).height == old(self).height,
            final(self).background_spec() == old(self).background_spec(),
            final(self).current_spec() == old(self).current_spec(),
            forall|p: int|
                0 <= p < final(self).buffer@.len() ==> final(self).buffer@[p]
                    == final(self).background_spec(),
    {
        let n = self.buffer.len();
        let mut p: usize = 0;
        while p < n
            invariant
                n == self.buffer@.len(),
                p <= n,
                self.width == old(self).width,
                self.height == old(self).height,
                self.background_spec() == old(self).background_spec(),
                self.current_spec() == old(self).current_spec(),
                forall|q: int| 0 <= q < p ==> self.buffer@[q] == self.background_spec(),
            decreases n - p,
        {
            let c = self.background_color;
            self.buffer.set(p, c);
            p += 1;
        }
    }

    /// Writes the current color at `(x, y)`; out-of-range coordinates are
    /// ignored, never a fault.
    pub fn point(&mut self, x: usize, y: usize)
        requires
            old(self).wf(),
        ensures
            final(self).wf(),
            final(self).width == old(self).width,
            final(self).height == old(self).height,
            final(self).background_spec() == old(self).background_spec(),
            final(self).current_spec() == old(self).current_spec(),
            final(self).buffer@ == if x < old(self).width && y < old(self).height {
                old(self).buffer@.update(
                    (y * old(self).width + x) as int,
                    old(self).current_spec(),
                )
            } else {
                old(self).buffer@
            },
    {
        if x < self.width && y < self.height {
            proof {
                crate::renderer::lemma_row_major_in_range(
                    x as int,
                    y as int,
                    self.width as int,
                    self.height as int,
                );
                assert((y as int) * (self.width as int) + (x as int) < 0x10000000int)
                    by (nonlinear_arith)
                    requires
                        x < self.width <= 16384,
                        y < self.height <= 16384,
                ;
            }
            let idx = y * self.width + x;
            let c = self.current_color;
            self.buffer.set(idx, c);
        }
    }

    /// Sets the color that `clear` will fill with.
    pub fn set_background_color(&mut self, color: u32)
        ensures
            final(self).width == old(self).width,
            final(self).height == old(self).height,
            final(self).buffer@ == old(self).buffer@,
            final(self).background_spec() == color,
            final(self).current_spec() == old(self).current_spec(),
    {
        self.background_color = color;
    }

    /// Sets the color that `point` will write.
    pub fn set_current_color(&mut self, color: u32)
        ensures
            final(self).width == old(self).width,
            final(self).height == old(self).height,
            final(self).buffer@ == old(self).buffer@,
            final(self).background_spec() == old(self).background_spec(),
            final(self).current_spec() == color,
    {
        self.current_color = color;
    }

    /// Reads back the current draw color.
    pub fn current_color(&self) -> (r: u32)
        ensures
            r == self.current_spec(),
    {
        self.current_color
    }
}

} // verus!

verus! {

/// The five-bit pattern of row `i` (top to bottom) of the 5x5 glyph for a
/// decimal digit character; zero for any other character, which therefore
/// draws nothing.
pub open spec fn glyph_row_spec(c: char, i: int) -> u8 {
    if c == '0' {
        if i == 0 { 0x0E } else if i == 1 { 0x11 } else if i == 2 { 0x11 }
        else if i == 3 { 0x11 } else if i == 4 { 0x0E } else { 0 }
    } else if c == '1' {
        if i == 0 { 0x04 } else if i == 1 { 0x0C } else if i == 2 { 0x04 }
        else if i == 3 { 0x04 } else if i == 4 { 0x0E } else { 0 }
    } else if c == '2' {
        if i == 0 { 0x0E } else if i == 1 { 0x01 } else if i == 2 { 0x0E }
        else if i == 3 { 0x10 } else if i == 4 { 0x1F } else { 0 }
    } else if c == '3' {
        if i == 0 { 0x0E } else if i == 1 { 0x01 } else if i == 2 { 0x0E }
        else if i == 3 { 0x01 } else if i == 4 { 0x0E } else { 0 }
    } else if c == '4' {
        if i == 0 { 0x11 } else if i == 1 { 0x11 } else if i == 2 { 0x1F }
        else if i == 3 { 0x01 } else if i == 4 { 0x01 } else { 0 }
    } else if c == '5' {
        if i == 0 { 0x1F } else if i == 1 { 0x10 } else if i == 2 { 0x1E }
        else if i == 3 { 0x01 } else if i == 4 { 0x1E } else { 0 }
    } else if c == '6' {
        if i == 0 { 0x0E } else if i == 1 { 0x10 } else if i == 2 { 0x1E }
        else if i == 3 { 0x11 } else if i == 4 { 0x0E } else { 0 }
    } else if c == '7' {
        if i == 0 { 0x1F } else if i == 1 { 0x01 } else if i == 2 { 0x02 }
        else if i == 3 { 0x04 } else if i == 4 { 0x08 } else { 0 }
    } else if c == '8' {
        if i == 0 { 0x0E } else if i == 1 { 0x11 } else if i == 2 { 0x0E }
        else if i == 3 { 0x11 } else if i == 4 { 0x0E } else { 0 }
    } else if c == '9' {
        if i == 0 { 0x0E } else if i == 1 { 0x11 } else if i == 2 { 0x0F }
        else if i == 3 { 0x01 } else if i == 4 { 0x0E } else { 0 }
    } else {
        0
    }
}

/// Whether the glyph for `c` has an on-pixel at row `i`, column `j`.
pub open spec fn glyph_on(c: char, i: int, j: int) -> bool {
    &&& 0 <= i < 5
    &&& 0 <= j < 5
    &&& (glyph_row_spec(c, i) >> (4 - j) as u8) & 1 == 1
}

/// The glyph row pattern of a digit character, as executable data.
fn glyph_row(c: char, i: usize) -> (r: u8)
    requires
        i < 5,
    ensures
        r == glyph_row_spec(c, i as int),
{
    let rows: (u8, u8, u8, u8, u8) = match c {
        '0' => (0x0E, 0x11, 0x11, 0x11, 0x0E),
        '1' => (0x04, 0x0C, 0x04, 0x04, 0x0E),
        '2' => (0x0E, 0x01, 0x0E, 0x10, 0x1F),
        '3' => (0x0E, 0x01, 0x0E, 0x01, 0x0E),
        '4' => (0x11, 0x11, 0x1F, 0x01, 0x01),
        '5' => (0x1F, 0x10, 0x1E, 0x01, 0x1E),
        '6' => (0x0E, 0x10, 0x1E, 0x11, 0x0E),
        '7' => (0x1F, 0x01, 0x02, 0x04, 0x08),
        '8' => (0x0E, 0x11, 0x0E, 0x11, 0x0E),
        '9' => (0x0E, 0x11, 0x0F, 0x01, 0x0E),
        _ => (0, 0, 0, 0, 0),
    };
    if i == 0 {
        rows.0
    } else if i == 1 {
        rows.1
    } else if i == 2 {
        rows.2
    } else if i == 3 {
        rows.3
    } else {
        rows.4
    }
}

/// Whether a pixel at `(sx, sy)` is lit by the text `chars` drawn at
/// `(x, y)` with a fixed advance of 8 pixels per character.
pub open spec fn text_pixel_on(chars: Seq<char>, x: int, y: int, sx: int, sy: int) -> bool {
    &&& x <= sx
    &&& y <= sy < y + 5
    &&& (sx - x) / 8 < chars.len()
    &&& (sx - x) % 8 < 5
    &&& glyph_on(chars[(sx - x) / 8], sy - y, (sx - x) % 8)
}

impl Framebuffer {
    /// Draws the 5x5 glyph of one character at `(x, y)` in the current
    /// color; characters other than decimal digits draw nothing.
    pub fn draw_char(&mut self, x: usize, y: usize, c: char)
        requires
            old(self).wf(),
            x <= 0x20000000,
            y <= 0x20000000,
        ensures
            final(self).wf(),
            final(self).width == old(self).width,
            final(self).height == old(self).height,
            final(self).background_spec() == old(self).background_spec(),
            final(self).current_spec() == old(self).current_spec(),
            forall|p: int|
                0 <= p < final(self).buffer@.len() ==> final(self).buffer@[p] == (
                {
                    let w = old(self).width as int;
                    if glyph_on(c, p / w - y, p % w - x) {
                        old(self).current_spec()
                    } else {
                        old(self).buffer@[p]
                    }
                }),
    {
        let mut i: usize = 0;
        while i < 5
            invariant
                self.wf(),
                self.width == old(self).width,
                self.height == old(self).height,
                self.background_spec() == old(self).background_spec(),
                self.current_spec() == old(self).current_spec(),
                x <= 0x20000000,
                y <= 0x20000000,
                i <= 5,
                forall|p: int|
                    0 <= p < self.buffer@.len() ==> self.buffer@[p] == (
                    {
                        let w = old(self).width as int;
                        if glyph_on(c, p / w - y, p % w - x) && p / w - y < i {
                            old(self).current_spec()
                        } else {
                            old(self).buffer@[p]
                        }
                    }),
            decreases 5 - i,
        {
            let pattern = glyph_row(c, i);
            let mut j: usize = 0;
            while j < 5
                invariant
                    self.wf(),
                    self.width == old(self).width,
                    self.height == old(self).height,
                    self.background_spec() == old(self).background_spec(),
                    self.current_spec() == old(self).current_spec(),
                    x <= 0x20000000,
                    y <= 0x20000000,
                    i < 5,
                    j <= 5,
                    pattern == glyph_row_spec(c, i as int),
                    forall|p: int|
                        0 <= p < self.buffer@.len() ==> self.buffer@[p] == (
                        {
                            let w = old(self).width as int;
                            if glyph_on(c, p / w - y, p % w - x) && (p / w - y < i || (p / w - y
                                == i && p % w - x < j)) {
                                old(self).current_spec()
                            } else {
                                old(self).buffer@[p]
                            }
                        }),
                decreases 5 - j,
            {
                let bit_on = (pattern >> (4 - j) as u8) & 1 == 1;
                if bit_on {
                    self.point(x + j, y + i);
                }
                proof {
                    let w = old(self).width as int;
                    let h = old(self).height as int;
                    assert forall|p: int| 0 <= p < self.buffer@.len() implies self.buffer@[p] == (
                    if glyph_on(c, p / w - y, p % w - x) && (p / w - y < i || (p / w - y == i && p
                        % w - x < j + 1)) {
                        old(self).current_spec()
                    } else {
                        old(self).buffer@[p]
                    }) by {
                        crate::renderer::lemma_pixel_coords(p, w, h);
                        if x + j < w && y + i < h {
                            crate::renderer::lemma_row_major_in_range(x + j, y + i, w, h);
                            crate::renderer::lemma_row_major_decompose(x + j, y + i, w);
                            if p / w == y + i && p % w == x + j {
                                assert(p == (y + i) * w + (x + j)) by (nonlinear_arith)
                                    requires
                                        p == w * (p / w) + p % w,
                                        p / w == y + i,
                                        p % w == x + j,
                                ;
                            }
                        }
                    }
                }
                j += 1;
            }
            i += 1;
        }
    }

    /// Draws a run of characters at `(x, y)`, 8 pixels apart, in the
    /// current color; only decimal digits produce pixels.
    pub fn draw_text(&mut self, x: usize, y: usize, chars: &Vec<char>)
        requires
            old(self).wf(),
            x + 8 * chars@.len() <= 0x20000000,
            y <= 0x10000000,
        ensures
            final(self).wf(),
            final(self).width == old(self).width,
            final(self).height == old(self).height,
            final(self).background_spec() == old(self).background_spec(),
            final(self).current_spec() == old(self).current_spec(),
            forall|p: int|
                0 <= p < final(self).buffer@.len() ==> final(self).buffer@[p] == (
                {
                    let w = old(self).width as int;
                    if text_pixel_on(chars@, x as int, y as int, p % w, p / w) {
                        old(self).current_spec()
                    } else {
                        old(self).buffer@[p]
                    }
                }),
    {
        let n = chars.len();
        let mut k: usize = 0;
        while k < n
            invariant
                self.wf(),
                self.width == old(self).width,
                self.height == old(self).height,
                self.background_spec() == old(self).background_spec(),
                self.current_spec() == old(self).current_spec(),
                n == chars@.len(),
                x + 8 * n <= 0x20000000,
                y <= 0x10000000,
                k <= n,
                forall|p: int|
                    0 <= p < self.buffer@.len() ==> self.buffer@[p] == (
                    {
                        let w = old(self).width as int;
                        if text_pixel_on(chars@.take(k as int), x as int, y as int, p % w, p
                            / w) {
                            old(self).current_spec()
                        } else {
                            old(self).buffer@[p]
                        }
                    }),
            decreases n - k,
        {
            let c = chars[k];
            self.draw_char(x + 8 * k, y, c);
            proof {
                let w = old(self).width as int;
                let h = old(self).height as int;
                assert forall|p: int| 0 <= p < self.buffer@.len() implies self.buffer@[p] == (
                if text_pixel_on(chars@.take(k + 1), x as int, y as int, p % w, p / w) {
                    old(self).current_spec()
                } else {
                    old(self).buffer@[p]
                }) by {
                    crate::renderer::lemma_pixel_coords(p, w, h);
                    let sx = p % w;
                    let sy = p / w;
                    if x <= sx {
                        vstd::arithmetic::div_mod::lemma_fundamental_div_mod(sx - x, 8);
                    }
                    if x + 8 * k <= sx && sx - (x + 8 * k) < 8 {
                        crate::renderer::lemma_row_major_decompose(sx - (x + 8 * k), k as int, 8);
                        assert((sx - x) / 8 == k && (sx - x) % 8 == sx - (x + 8 * k));
                    }
                }
            }
            k += 1;
        }
        proof {
            assert(chars@.take(n as int) =~= chars@);
        }
    }
}

} // verus!

verus! {

/// The digit character for one decimal digit value.
pub open spec fn digit_char_spec(d: int) -> char {
    if d == 0 { '0' } else if d == 1 { '1' } else if d == 2 { '2' } else if d == 3 { '3' }
    else if d == 4 { '4' } else if d == 5 { '5' } else if d == 6 { '6' } else if d == 7 { '7' }
    else if d == 8 { '8' } else { '9' }
}

/// The decimal digit characters of `n`, most significant first.
pub open spec fn digits_spec(n: int) -> Seq<char>
    decreases n,
{
    if n < 10 {
        seq![digit_char_spec(n)]
    } else {
        digits_spec(n / 10).push(digit_char_spec(n % 10))
    }
}

/// The text the frame-rate overlay shows for `v` hundredths of a frame per
/// second: the whole part, a dot, two fraction digits, and the unit.
pub open spec fn fps_text_spec(v: int) -> Seq<char> {
    digits_spec(v / 100) + seq!['.', digit_char_spec((v % 100) / 10), digit_char_spec(v % 10)]
        + seq![' ', 'F', 'P', 'S']
}

/// The digit character of one decimal digit value.
fn digit_char(d: u32) -> (r: char)
    requires
        d < 10,
    ensures
        r == digit_char_spec(d as int),
{
    match d {
        0 => '0',
        1 => '1',
        2 => '2',
        3 => '3',
        4 => '4',
        5 => '5',
        6 => '6',
        7 => '7',
        8 => '8',
        _ => '9',
    }
}

/// The decimal digit characters of `n`, most significant first.
fn u32_digits(n: u32) -> (r: Vec<char>)
    ensures
        r@ == digits_spec(n as int),
        1 <= r@.len(),
        n < 10 ==> r@.len() <= 1,
        n < 100 ==> r@.len() <= 2,
        n < 1000 ==> r@.len() <= 3,
        n < 10000 ==> r@.len() <= 4,
        n < 100000 ==> r@.len() <= 5,
        n < 1000000 ==> r@.len() <= 6,
        n < 10000000 ==> r@.len() <= 7,
        n < 100000000 ==> r@.len() <= 8,
        n < 1000000000 ==> r@.len() <= 9,
        r@.len() <= 10,
    decreases n,
{
    if n < 10 {
        let mut v: Vec<char> = Vec::new();
        v.push(digit_char(n));
        proof {
            assert(v@ =~= digits_spec(n as int));
        }
        v
    } else {
        let mut v = u32_digits(n / 10);
        v.push(digit_char(n % 10));
        proof {
            assert(v@ =~= digits_spec(n as int));
            if n >= 10 {
                vstd::arithmetic::div_mod::lemma_div_is_ordered_by_denominator(
                    n as int,
                    1,
                    10,
                );
                assert((n as int) / 1 == n as int);
            }
        }
        v
    }
}

impl Framebuffer {
    /// Draws the frame-rate overlay at `(x, y)` in the current color: the
    /// rate in frames per second, given in hundredths, as
    /// `whole.fraction FPS` (only the digits produce pixels).
    pub fn draw_fps(&mut self, x: usize, y: usize, fps_hundredths: u32)
        requires
            old(self).wf(),
            x <= 0x10000000,
            y <= 0x10000000,
        ensures
            final(self).wf(),
            final(self).width == old(self).width,
            final(self).height == old(self).height,
            final(self).background_spec() == old(self).background_spec(),
            final(self).current_spec() == old(self).current_spec(),
            forall|p: int|
                0 <= p < final(self).buffer@.len() ==> final(self).buffer@[p] == (
                {
                    let w = old(self).width as int;
                    if text_pixel_on(
                        fps_text_spec(fps_hundredths as int),
                        x as int,
                        y as int,
                        p % w,
                        p / w,
                    ) {
                        old(self).current_spec()
                    } else {
                        old(self).buffer@[p]
                    }
                }),
    {
        let mut chars = u32_digits(fps_hundredths / 100);
        chars.push('.');
        chars.push(digit_char((fps_hundredths % 100) / 10));
        chars.push(digit_char(fps_hundredths % 10));
        chars.push(' ');
        chars.push('F');
        chars.push('P');
        chars.push('S');
        proof {
            assert((fps_hundredths as int) % 100 / 10 < 10);
            assert(chars@ =~= fps_text_spec(fps_hundredths as int));
        }
        self.draw_text(x, y, &chars);
    }
}

} // verus!
