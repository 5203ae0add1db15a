//! A tiny ARGB painter for the parts that are drawn here (background, border,
//! selection, glyphs), and the two buffers that it paints into in turn.

use vstd::prelude::*;

use crate::theme;
use crate::theme::{Area, Argb, Rect};

verus! {

// --- pixels ----------------------------------------------------------------
/// One pixel as it lies in memory: blue, green, red, alpha.
#[derive(Clone, Copy)]
pub struct Pixel {
    pub b: u8,
    pub g: u8,
    pub r: u8,
    pub a: u8,
}

/// A colour as the pixel it is written as: little-endian 0xAARRGGBB.
pub open spec fn pixel_of(c: Argb) -> Pixel {
    Pixel {
        b: (c % 256) as u8,
        g: (c / 256 % 256) as u8,
        r: (c / 65536 % 256) as u8,
        a: (c / 16777216) as u8,
    }
}

/// `src` over `dst` at `a/255` coverage.
pub open spec fn mixed(src: u8, dst: u8, a: u8) -> u8 {
    ((src * a + dst * (255 - a)) / 255) as u8
}

/// A colour with its coverage over what is there already.
pub open spec fn blended(over: Pixel, under: Pixel) -> Pixel {
    Pixel {
        b: mixed(over.b, under.b, over.a),
        g: mixed(over.g, under.g, over.a),
        r: mixed(over.r, under.r, over.a),
        a: 255,
    }
}

/// A picture: its bytes, four to a pixel, row after row.
pub struct Canvas {
    pub px: Seq<u8>,
    pub w: int,
    pub h: int,
}

impl Canvas {
    /// The bytes are those of the picture, and their offsets fit in 32 bits.
    pub open spec fn wf(self) -> bool {
        &&& self.w >= 0
        &&& self.h >= 0
        &&& self.px.len() == self.w * self.h * 4
        &&& self.px.len() <= i32::MAX
    }

    pub open spec fn has(self, x: int, y: int) -> bool {
        0 <= x < self.w && 0 <= y < self.h
    }

    /// Where the bytes of a pixel start.
    pub open spec fn offset(self, x: int, y: int) -> int {
        (y * self.w + x) * 4
    }

    pub open spec fn pixel(self, x: int, y: int) -> Pixel {
        let o = self.offset(x, y);
        Pixel { b: self.px[o], g: self.px[o + 1], r: self.px[o + 2], a: self.px[o + 3] }
    }
}

/// The pixels of a picture lie inside its bytes, each apart from every other.
proof fn lemma_offset(c: Canvas, x: int, y: int)
    requires
        c.wf(),
        c.has(x, y),
    ensures
        0 <= c.offset(x, y) <= c.px.len() - 4,
        0 <= y * c.w <= i32::MAX,
        forall|i: int, j: int|
            c.has(i, j) && (i != x || j != y) ==> #[trigger] c.offset(i, j) + 4 <= c.offset(x, y)
                || c.offset(x, y) + 4 <= c.offset(i, j),
{
    let (w, h) = (c.w, c.h);
    assert(0 <= y * w && y * w + w <= w * h) by (nonlinear_arith)
        requires
            0 <= y <= h - 1,
            w >= 0,
    ;
    assert forall|i: int, j: int| c.has(i, j) && (i != x || j != y) implies #[trigger] c.offset(
        i,
        j,
    ) + 4 <= c.offset(x, y) || c.offset(x, y) + 4 <= c.offset(i, j) by {
        if j < y {
            assert(j * w + w <= y * w) by (nonlinear_arith)
                requires
                    j + 1 <= y,
                    w >= 0,
            ;
        } else if j > y {
            assert(y * w + w <= j * w) by (nonlinear_arith)
                requires
                    y + 1 <= j,
                    w >= 0,
            ;
        }
    }
}

/// The pixel that a colour is written as.
fn to_pixel(c: Argb) -> (p: Pixel)
    ensures
        p == pixel_of(c),
{
    Pixel {
        b: (c % 256) as u8,
        g: (c / 256 % 256) as u8,
        r: (c / 65536 % 256) as u8,
        a: (c / 16777216) as u8,
    }
}

fn mix(src: u8, dst: u8, a: u8) -> (r: u8)
    ensures
        r == mixed(src, dst, a),
{
    let (s, d, c) = (src as u32, dst as u32, a as u32);
    assert(0 <= s * c <= 255 * c && 0 <= d * (255 - c) <= 255 * (255 - c)) by (nonlinear_arith)
        requires
            s <= 255,
            d <= 255,
            c <= 255,
    ;
    ((s * c + d * (255 - c)) / 255) as u8
}

// --- the painter -----------------------------------------------------------
/// Flat ARGB8888 painter. Everything in this UI is axis-aligned solid fills, so
/// there is no need for a rasteriser.
pub struct Painter<'a> {
    pub px: &'a mut [u8],
    pub w: i32,
    pub h: i32,
}

impl<'a> View for Painter<'a> {
    type V = Canvas;

    open spec fn view(&self) -> Canvas {
        Canvas { px: self.px@, w: self.w as int, h: self.h as int }
    }
}

impl<'a> Painter<'a> {
    /// Wrap a raw ARGB8888 span.
    pub fn new(px: &'a mut [u8], w: i32, h: i32) -> (p: Painter<'a>)
        requires
            (Canvas { px: old(px)@, w: w as int, h: h as int }).wf(),
        ensures
            p@ == (Canvas { px: old(px)@, w: w as int, h: h as int }),
            p@.wf(),
            final(px)@ == final(p.px)@,
    {
        Painter { px, w, h }
    }

    /// Write one pixel.
    fn put(&mut self, x: i32, y: i32, c: Pixel)
        requires
            old(self)@.wf(),
            old(self)@.has(x as int, y as int),
        ensures
            final(self)@.wf(),
            final(self).w == old(self).w,
            final(self).h == old(self).h,
            final(self)@.pixel(x as int, y as int) == c,
            forall|i: int, j: int|
                old(self)@.has(i, j) && (i != x || j != y) ==> #[trigger] final(self)@.pixel(i, j)
                    == old(self)@.pixel(i, j),
            final(final(self).px)@ == final(old(self).px)@,
    {
        let ghost before = self@;
        proof {
            lemma_offset(before, x as int, y as int);
        }
        let o: usize = ((y * self.w + x) * 4) as usize;
        self.px[o] = c.b;
        self.px[o + 1] = c.g;
        self.px[o + 2] = c.r;
        self.px[o + 3] = c.a;
        proof {
            let after = self@;
            assert forall|i: int, j: int| before.has(i, j) && (i != x || j != y) implies #[trigger] after.pixel(
                i,
                j,
            ) == before.pixel(i, j) by {
                lemma_offset(before, i, j);
                assert(before.offset(i, j) == after.offset(i, j));
            }
        }
    }

    /// Read one pixel.
    fn get(&self, x: i32, y: i32) -> (c: Pixel)
        requires
            self@.wf(),
            self@.has(x as int, y as int),
        ensures
            c == self@.pixel(x as int, y as int),
    {
        proof {
            lemma_offset(self@, x as int, y as int);
        }
        let o: usize = ((y * self.w + x) * 4) as usize;
        Pixel { b: self.px[o], g: self.px[o + 1], r: self.px[o + 2], a: self.px[o + 3] }
    }

    /// The whole surface in one colour.
    pub fn fill(&mut self, c: Argb)
        requires
            old(self)@.wf(),
        ensures
            final(self)@.wf(),
            final(self).w == old(self).w,
            final(self).h == old(self).h,
            forall|i: int, j: int|
                old(self)@.has(i, j) ==> #[trigger] final(self)@.pixel(i, j) == pixel_of(c),
            final(final(self).px)@ == final(old(self).px)@,
    {
        let all = Rect { x: 0, y: 0, w: self.w, h: self.h };
        self.rect(all, c);
    }

    /// A solid rectangle, as far as it lies on the surface.
    pub fn rect(&mut self, r: Rect, c: Argb)
        requires
            old(self)@.wf(),
        ensures
            final(self)@.wf(),
            final(self).w == old(self).w,
            final(self).h == old(self).h,
            forall|i: int, j: int|
                old(self)@.has(i, j) ==> #[trigger] final(self)@.pixel(i, j) == if r@.covers(i, j) {
                    pixel_of(c)
                } else {
                    old(self)@.pixel(i, j)
                },
            final(final(self).px)@ == final(old(self).px)@,
    {
        let p = to_pixel(c);
        let (x0, x1) = clip(r.x, r.w, self.w);
        let (y0, y1) = clip(r.y, r.h, self.h);
        let ghost before = *self;
        let mut y = y0;
        while y < y1
            invariant
                self@.wf(),
                self.w == before.w,
                self.h == before.h,
                before@.wf(),
                p == pixel_of(c),
                0 <= x0 && x1 <= self.w,
                0 <= y0 <= y,
                y1 <= self.h,
                forall|i: int, j: int|
                    before@.has(i, j) ==> #[trigger] self@.pixel(i, j) == if x0 <= i < x1 && y0 <= j
                        < y1 && j < y {
                        pixel_of(c)
                    } else {
                        before@.pixel(i, j)
                    },
                final(self.px)@ == final(before.px)@,
            decreases y1 - y,
        {
            let mut x = x0;
            while x < x1
                invariant
                    self@.wf(),
                    self.w == before.w,
                    self.h == before.h,
                    before@.wf(),
                    p == pixel_of(c),
                    0 <= x0 <= x,
                    x1 <= self.w,
                    0 <= y0 <= y < y1 <= self.h,
                    forall|i: int, j: int|
                        before@.has(i, j) ==> #[trigger] self@.pixel(i, j) == if x0 <= i < x1 && y0
                            <= j < y1 && (j < y || (j == y && i < x)) {
                            pixel_of(c)
                        } else {
                            before@.pixel(i, j)
                        },
                    final(self.px)@ == final(before.px)@,
                decreases x1 - x,
            {
                let ghost now = self@;
                self.put(x, y, p);
                assert forall|i: int, j: int| before@.has(i, j) implies #[trigger] self@.pixel(i, j)
                    == if x0 <= i < x1 && y0 <= j < y1 && (j < y || (j == y && i < x + 1)) {
                    pixel_of(c)
                } else {
                    before@.pixel(i, j)
                } by {
                    assert(now.has(i, j));
                    if i != x || j != y {
                        assert(self@.pixel(i, j) == now.pixel(i, j));
                    }
                }
                x = x + 1;
            }
            y = y + 1;
        }
    }

    /// Blend a solid span at `a/255` coverage, clipped to `clip`. Glyph spans
    /// arrive this way: colour plus a coverage alpha.
    pub fn blend(&mut self, r: Rect, c: (u8, u8, u8, u8), clip: Rect)
        requires
            old(self)@.wf(),
        ensures
            final(self)@.wf(),
            final(self).w == old(self).w,
            final(self).h == old(self).h,
            forall|i: int, j: int|
                old(self)@.has(i, j) ==> #[trigger] final(self)@.pixel(i, j) == if c.3 != 0
                    && r@.covers(i, j) && clip@.covers(i, j) {
                    blended(Pixel { b: c.2, g: c.1, r: c.0, a: c.3 }, old(self)@.pixel(i, j))
                } else {
                    old(self)@.pixel(i, j)
                },
            final(final(self).px)@ == final(old(self).px)@,
    {
        let over = Pixel { b: c.2, g: c.1, r: c.0, a: c.3 };
        if over.a == 0 {
            return ;
        }
        let (rx0, rx1) = self::clip(r.x, r.w, self.w);
        let (ry0, ry1) = self::clip(r.y, r.h, self.h);
        let (cx0, cx1) = self::clip(clip.x, clip.w, self.w);
        let (cy0, cy1) = self::clip(clip.y, clip.h, self.h);
        let x0 = greater(rx0, cx0);
        let y0 = greater(ry0, cy0);
        let x1 = lesser(rx1, cx1);
        let y1 = lesser(ry1, cy1);
        let ghost before = *self;
        let mut y = y0;
        while y < y1
            invariant
                self@.wf(),
                self.w == before.w,
                self.h == before.h,
                before@.wf(),
                0 <= x0 && x1 <= self.w,
                0 <= y0 <= y,
                y1 <= self.h,
                forall|i: int, j: int|
                    before@.has(i, j) ==> #[trigger] self@.pixel(i, j) == if x0 <= i < x1 && y0 <= j
                        < y1 && j < y {
                        blended(over, before@.pixel(i, j))
                    } else {
                        before@.pixel(i, j)
                    },
                final(self.px)@ == final(before.px)@,
            decreases y1 - y,
        {
            let mut x = x0;
            while x < x1
                invariant
                    self@.wf(),
                    self.w == before.w,
                    self.h == before.h,
                    before@.wf(),
                    0 <= x0 <= x,
                    x1 <= self.w,
                    0 <= y0 <= y < y1 <= self.h,
                    forall|i: int, j: int|
                        before@.has(i, j) ==> #[trigger] self@.pixel(i, j) == if x0 <= i < x1 && y0
                            <= j < y1 && (j < y || (j == y && i < x)) {
                            blended(over, before@.pixel(i, j))
                        } else {
                            before@.pixel(i, j)
                        },
                    final(self.px)@ == final(before.px)@,
                decreases x1 - x,
            {
                let ghost now = self@;
                let under = self.get(x, y);
                assert(before@.has(x as int, y as int));
                let p = Pixel {
                    b: mix(over.b, under.b, over.a),
                    g: mix(over.g, under.g, over.a),
                    r: mix(over.r, under.r, over.a),
                    a: 255,
                };
                self.put(x, y, p);
                assert forall|i: int, j: int| before@.has(i, j) implies #[trigger] self@.pixel(i, j)
                    == if x0 <= i < x1 && y0 <= j < y1 && (j < y || (j == y && i < x + 1)) {
                    blended(over, before@.pixel(i, j))
                } else {
                    before@.pixel(i, j)
                } by {
                    assert(now.has(i, j));
                    if i != x || j != y {
                        assert(self@.pixel(i, j) == now.pixel(i, j));
                    }
                }
                x = x + 1;
            }
            y = y + 1;
        }
    }

    /// One span of a glyph whose label lies in `at`, clipped to it: `x` and `y`
    /// are relative to the label.
    pub fn glyph(&mut self, at: Rect, x: i32, y: i32, w: u32, h: u32, c: (u8, u8, u8, u8))
        requires
            old(self)@.wf(),
            theme::is_i32(at.x + x),
            theme::is_i32(at.y + y),
        ensures
            final(self)@.wf(),
            final(self).w == old(self).w,
            final(self).h == old(self).h,
            forall|i: int, j: int|
                old(self)@.has(i, j) ==> #[trigger] final(self)@.pixel(i, j) == if c.3 != 0
                    && at@.covers(i, j) && (Area {
                    x: at.x + x,
                    y: at.y + y,
                    w: (w as i32) as int,
                    h: (h as i32) as int,
                }).covers(i, j) {
                    blended(Pixel { b: c.2, g: c.1, r: c.0, a: c.3 }, old(self)@.pixel(i, j))
                } else {
                    old(self)@.pixel(i, j)
                },
            final(final(self).px)@ == final(old(self).px)@,
    {
        let span = Rect { x: at.x + x, y: at.y + y, w: w as i32, h: h as i32 };
        self.blend(span, c, at);
    }

    /// A `width`-thick frame just inside the surface edge.
    pub fn frame(&mut self, width: i32, c: Argb)
        requires
            old(self)@.wf(),
            theme::is_i32(old(self).w - width),
            theme::is_i32(old(self).h - width),
        ensures
            final(self)@.wf(),
            final(self).w == old(self).w,
            final(self).h == old(self).h,
            forall|i: int, j: int|
                old(self)@.has(i, j) ==> #[trigger] final(self)@.pixel(i, j) == if framed(
                    old(self)@,
                    width as int,
                    i,
                    j,
                ) {
                    pixel_of(c)
                } else {
                    old(self)@.pixel(i, j)
                },
            final(final(self).px)@ == final(old(self).px)@,
    {
        let (w, h) = (self.w, self.h);
        let ghost a = self@;
        self.rect(Rect { x: 0, y: 0, w, h: width }, c);
        let ghost b = self@;
        self.rect(Rect { x: 0, y: h - width, w, h: width }, c);
        let ghost d = self@;
        self.rect(Rect { x: 0, y: 0, w: width, h }, c);
        let ghost e = self@;
        self.rect(Rect { x: w - width, y: 0, w: width, h }, c);
        proof {
            let f = self@;
            assert forall|i: int, j: int| a.has(i, j) implies #[trigger] f.pixel(i, j)
                == if framed(a, width as int, i, j) {
                pixel_of(c)
            } else {
                a.pixel(i, j)
            } by {
                assert(b.has(i, j) && d.has(i, j) && e.has(i, j));
                assert(b.pixel(i, j) == b.pixel(i, j));
                assert(d.pixel(i, j) == d.pixel(i, j));
                assert(e.pixel(i, j) == e.pixel(i, j));
            }
        }
    }
}

/// The pixels within `width` of an edge.
pub open spec fn framed(c: Canvas, width: int, x: int, y: int) -> bool {
    x < width || y < width || x >= c.w - width || y >= c.h - width
}

fn greater(a: i32, b: i32) -> (r: i32)
    ensures
        r == theme::at_least(a as int, b as int),
{
    if a < b {
        b
    } else {
        a
    }
}

fn lesser(a: i32, b: i32) -> (r: i32)
    ensures
        r == theme::at_most(a as int, b as int),
{
    if a > b {
        b
    } else {
        a
    }
}

/// The parts of a colour that a glyph is drawn in: red, green and blue.
pub fn rgb(c: Argb) -> (r: (u8, u8, u8))
    ensures
        r.0 == pixel_of(c).r,
        r.1 == pixel_of(c).g,
        r.2 == pixel_of(c).b,
{
    let p = to_pixel(c);
    (p.r, p.g, p.b)
}

/// The part of `from..from + len` that lies in `0..end`.
fn clip(from: i32, len: i32, end: i32) -> (r: (i32, i32))
    requires
        end >= 0,
    ensures
        r.0 == theme::at_least(from as int, 0),
        r.1 == theme::within(from + len, 0, end as int),
{
    let low: i32 = if from < 0 {
        0
    } else {
        from
    };
    let last: i64 = from as i64 + len as i64;
    let high: i32 = if last > end as i64 {
        end
    } else if last < 0 {
        0
    } else {
        last as i32
    };
    (low, high)
}

// --- the buffers -----------------------------------------------------------
/// How many buffers the overlay is painted into in turn, so that the next frame
/// can be drawn without touching the one the compositor is reading.
pub const SLOTS: usize = 2;

/// The picture of the overlay, as it lies in shared memory: one slot after the
/// other.
pub struct Chrome {
    pub w: i32,
    pub h: i32,
    pub slot: usize,
}

/// A picture of that size whose bytes can be counted in 32 bits.
pub open spec fn pictured(w: int, h: int) -> bool {
    w >= 0 && h >= 0 && w * h * 4 <= i32::MAX && w * 4 <= i32::MAX
}

impl Chrome {
    pub open spec fn wf(&self) -> bool {
        pictured(self.w as int, self.h as int) && self.slot < SLOTS
    }

    pub fn new(w: i32, h: i32) -> (c: Chrome)
        requires
            pictured(w as int, h as int),
        ensures
            c.wf(),
            c.w == w,
            c.h == h,
            c.slot == 0,
    {
        Chrome { w, h, slot: 0 }
    }

    /// Bytes in one row.
    pub fn stride(w: i32) -> (r: i32)
        requires
            theme::is_i32(w * 4),
        ensures
            r == w * 4,
    {
        w * 4
    }

    /// Bytes in one slot.
    pub fn slot_len(w: i32, h: i32) -> (r: usize)
        requires
            pictured(w as int, h as int),
        ensures
            r == w * h * 4,
    {
        let s = Self::stride(w);
        assert(s * h == w * h * 4) by (nonlinear_arith)
            requires
                s == w * 4,
        ;
        assert(w * h >= 0) by (nonlinear_arith)
            requires
                w >= 0,
                h >= 0,
        ;
        (s * h) as usize
    }

    /// Flip to the other slot and return its byte offset in the pool, so the
    /// caller can attach the matching buffer.
    pub fn next_slot(&mut self) -> (r: usize)
        requires
            old(self).wf(),
        ensures
            final(self).wf(),
            final(self).slot == 1 - old(self).slot,
            final(self).w == old(self).w,
            final(self).h == old(self).h,
            r == final(self).slot * (old(self).w * old(self).h * 4),
    {
        self.slot = (self.slot + 1) % SLOTS;
        let len = Self::slot_len(self.w, self.h);
        assert(0 * (len as int) == 0 && 1 * (len as int) == len);
        if self.slot == 0 {
            0
        } else {
            len
        }
    }

    /// A painter over one slot of the memory that both lie in.
    pub fn painter<'a>(&self, map: &'a mut [u8], slot: usize) -> (p: Painter<'a>)
        requires
            self.wf(),
            slot < SLOTS,
            old(map)@.len() == self.w * self.h * 4 * SLOTS,
        ensures
            p@.wf(),
            p.w == self.w,
            p.h == self.h,
            p@.px == slot_of(old(map)@, self.w * self.h * 4, slot as int),
            final(p.px)@.len() == p@.px.len() ==> final(map)@.len() == old(map)@.len() && slot_of(
                final(map)@,
                self.w * self.h * 4,
                slot as int,
            ) == final(p.px)@ && slot_of(final(map)@, self.w * self.h * 4, 1 - slot) == slot_of(
                old(map)@,
                self.w * self.h * 4,
                1 - slot,
            ),
    {
        let (w, h) = (self.w, self.h);
        assert(w * h >= 0) by (nonlinear_arith)
            requires
                w >= 0,
                h >= 0,
        ;
        let len = Self::slot_len(w, h);
        let (first, second) = map.split_at_mut(len);
        if slot == 0 {
            Painter { px: first, w, h }
        } else {
            Painter { px: second, w, h }
        }
    }
}

/// The bytes of one of the two slots.
pub open spec fn slot_of(map: Seq<u8>, len: int, slot: int) -> Seq<u8> {
    if slot == 0 {
        map.take(len)
    } else {
        map.skip(len)
    }
}

// --- what holds of every picture -------------------------------------------
/// Blending stays between what is there and what is drawn over it; full coverage
/// leaves only the one, and none the other.
pub proof fn law_blending_lies_between(src: u8, dst: u8, a: u8)
    ensures
        mixed(src, dst, 255) == src,
        mixed(src, dst, 0) == dst,
        src <= dst ==> src <= mixed(src, dst, a) <= dst,
        dst <= src ==> dst <= mixed(src, dst, a) <= src,
{
    let (s, d, c) = (src as int, dst as int, a as int);
    let sum = s * c + d * (255 - c);
    assert(s * 255 + d * (255 - 255) == s * 255);
    assert(s * 0 + d * (255 - 0) == d * 255);
    if s <= d {
        assert(s * 255 <= sum <= d * 255) by (nonlinear_arith)
            requires
                sum == s * c + d * (255 - c),
                0 <= c <= 255,
                s <= d,
        ;
    } else {
        assert(d * 255 <= sum <= s * 255) by (nonlinear_arith)
            requires
                sum == s * c + d * (255 - c),
                0 <= c <= 255,
                d <= s,
        ;
    }
}

/// The two slots of a picture are all of its memory, one after the other: what
/// is painted into one is never seen in the other.
pub proof fn law_slots_share_nothing(map: Seq<u8>, len: int)
    requires
        len >= 0,
        map.len() == len * SLOTS,
    ensures
        slot_of(map, len, 0).len() == len,
        slot_of(map, len, 1).len() == len,
        slot_of(map, len, 0) + slot_of(map, len, 1) == map,
{
    assert(slot_of(map, len, 0) + slot_of(map, len, 1) =~= map);
}

/// A pixel is its colour: blue, green, red and alpha, from the lowest byte to
/// the highest.
pub proof fn law_a_pixel_is_its_colour(c: Argb)
    ensures
        pixel_of(c).b + 256 * pixel_of(c).g + 65536 * pixel_of(c).r + 16777216 * pixel_of(c).a == c,
{
}

/// A pixel lies in four bytes, blue first, where its row and its column put it.
pub proof fn law_a_pixel_lies_in_its_place(c: Canvas, x: int, y: int)
    requires
        c.wf(),
        c.has(x, y),
    ensures
        ({
            let o = 4 * (y * c.w + x);
            let p = c.pixel(x, y);
            &&& 0 <= o && o + 4 <= c.px.len()
            &&& p.b == c.px[o] && p.g == c.px[o + 1] && p.r == c.px[o + 2] && p.a == c.px[o + 3]
        }),
        c.has(x, y) <==> 0 <= x < c.w && 0 <= y < c.h,
{
    lemma_offset(c, x, y);
}

/// A mix is the weighted mean of the two, rounded down.
pub proof fn law_a_mix_is_the_weighted_mean(src: u8, dst: u8, a: u8)
    ensures
        0 <= src * a + dst * (255 - a) - 255 * mixed(src, dst, a) < 255,
{
    let (s, d, c) = (src as int, dst as int, a as int);
    assert(0 <= s * c <= 255 * c && 0 <= d * (255 - c) <= 255 * (255 - c)) by (nonlinear_arith)
        requires
            0 <= s <= 255,
            0 <= d <= 255,
            0 <= c <= 255,
    ;
    assert(0 <= s * c + d * (255 - c) <= 255 * 255);
}

/// Each channel is mixed with its own by the coverage, and what comes of it is
/// opaque.
pub proof fn law_channels_are_mixed_with_their_own(over: Pixel, under: Pixel)
    ensures
        blended(over, under).a == 255,
        blended(over, under).b == mixed(over.b, under.b, over.a),
        blended(over, under).g == mixed(over.g, under.g, over.a),
        blended(over, under).r == mixed(over.r, under.r, over.a),
        over.a == 255 ==> blended(over, under).b == over.b && blended(over, under).g == over.g
            && blended(over, under).r == over.r,
{
    law_blending_lies_between(over.b, under.b, over.a);
    law_blending_lies_between(over.g, under.g, over.a);
    law_blending_lies_between(over.r, under.r, over.a);
}

/// A frame is as thick as it says along each edge, and nowhere else.
pub proof fn law_a_frame_is_along_the_edges(c: Canvas, width: int, x: int, y: int)
    requires
        c.has(x, y),
    ensures
        framed(c, width, x, y) <==> x < width || y < width || c.w - 1 - x < width || c.h - 1 - y
            < width,
{
}

/// The first slot is the first half of the memory, and the second the other.
pub proof fn law_slots_lie_one_after_the_other(map: Seq<u8>, len: int, i: int)
    requires
        0 <= i < len,
        map.len() == 2 * len,
    ensures
        slot_of(map, len, 0)[i] == map[i],
        slot_of(map, len, 1)[i] == map[len + i],
        SLOTS == 2,
{
}

/// A picture's bytes are four to a pixel, and 32 bits can count them.
pub proof fn law_a_picture_takes_four_bytes_a_pixel(w: int, h: int)
    ensures
        pictured(w, h) <==> w >= 0 && h >= 0 && 4 * (w * h) <= 0x7fff_ffff && 4 * w <= 0x7fff_ffff,
{
}

/// A painter paints a picture of its own size.
pub proof fn law_a_canvas_has_its_painters_size(p: Painter<'_>)
    ensures
        p@.w == p.w,
        p@.h == p.h,
{
}

} // verus!
