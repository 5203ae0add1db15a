//! Look and layout: gruvbox dark, a yellow selection that fills the element
//! padding, and a window that hugs the grid.

use vstd::prelude::*;

use crate::words;
use crate::words::Literal;

verus! {

/// 0xAARRGGBB, premultiplied (everything here is opaque).
pub type Argb = u32;

// --- arithmetic ------------------------------------------------------------
/// Division as the machine does it: towards zero. `b` is not zero.
pub open spec fn quot(a: int, b: int) -> int {
    if a >= 0 {
        a / b
    } else {
        -((-a) / b)
    }
}

pub open spec fn at_least(a: int, low: int) -> int {
    if a < low {
        low
    } else {
        a
    }
}

pub open spec fn at_most(a: int, high: int) -> int {
    if a > high {
        high
    } else {
        a
    }
}

/// `a`, moved into `low..=high`.
pub open spec fn within(a: int, low: int, high: int) -> int {
    if a < low {
        low
    } else if a > high {
        high
    } else {
        a
    }
}

pub open spec fn is_i32(a: int) -> bool {
    i32::MIN <= a <= i32::MAX
}

// --- rectangles ------------------------------------------------------------
/// A rectangle as mathematics sees it.
pub struct Area {
    pub x: int,
    pub y: int,
    pub w: int,
    pub h: int,
}

impl Area {
    /// Its measures are ones that 32 bits can say.
    pub open spec fn fits(self) -> bool {
        is_i32(self.x) && is_i32(self.y) && is_i32(self.w) && is_i32(self.h)
    }

    /// So do its far edges.
    pub open spec fn spans(self) -> bool {
        self.fits() && is_i32(self.x + self.w) && is_i32(self.y + self.h)
    }

    pub open spec fn covers(self, x: int, y: int) -> bool {
        self.x <= x < self.x + self.w && self.y <= y < self.y + self.h
    }

    /// `other` lies wholly inside.
    pub open spec fn encloses(self, other: Area) -> bool {
        &&& self.x <= other.x
        &&& self.y <= other.y
        &&& other.x + other.w <= self.x + self.w
        &&& other.y + other.h <= self.y + self.h
    }

    pub open spec fn times(self, scale: int) -> Area {
        Area { x: self.x * scale, y: self.y * scale, w: self.w * scale, h: self.h * scale }
    }
}

#[derive(Clone, Copy, Debug, PartialEq, Eq, Structural)]
pub struct Rect {
    pub x: i32,
    pub y: i32,
    pub w: i32,
    pub h: i32,
}

impl View for Rect {
    type V = Area;

    open spec fn view(&self) -> Area {
        Area { x: self.x as int, y: self.y as int, w: self.w as int, h: self.h as int }
    }
}

/// The area of a rectangle that may not be there.
pub open spec fn area_of(r: Option<Rect>) -> Option<Area> {
    match r {
        Some(r) => Some(r@),
        None => None,
    }
}

impl Rect {
    /// Logical to physical, for painting into a scaled buffer.
    pub fn scaled(self, scale: i32) -> (r: Rect)
        requires
            self@.times(scale as int).fits(),
        ensures
            r@ == self@.times(scale as int),
    {
        Rect { x: self.x * scale, y: self.y * scale, w: self.w * scale, h: self.h * scale }
    }
}

/// `w` by `h`, scaled to fit inside `into` with its proportions kept.
pub open spec fn fitted_size(w: int, h: int, into: Area) -> (int, int) {
    let tall = quot(into.w * h, w);
    let (dw, dh) = if tall > into.h {
        (quot(into.h * w, h), into.h)
    } else {
        (into.w, tall)
    };
    (at_least(dw, 1), at_least(dh, 1))
}

/// Where `w` by `h` goes inside `into`: scaled to fit, and centred.
pub open spec fn fitted(w: int, h: int, into: Area) -> Area {
    if w <= 0 || h <= 0 {
        into
    } else {
        let (dw, dh) = fitted_size(w, h, into);
        Area {
            x: into.x + quot(into.w - dw, 2),
            y: into.y + quot(into.h - dh, 2),
            w: dw,
            h: dh,
        }
    }
}

/// Scale (w, h) to fit inside `box_`, keeping the aspect ratio, and centre it.
/// Windows are usually portrait-ish next to a 16:9 cell, so this letterboxes.
pub fn fit_centred(w: i32, h: i32, box_: Rect) -> (r: Rect)
    requires
        fitted(w as int, h as int, box_@).fits(),
    ensures
        r@ == fitted(w as int, h as int, box_@),
{
    if w <= 0 || h <= 0 {
        return box_;
    }
    let (bw, bh) = (box_.w as i64, box_.h as i64);
    let (w, h) = (w as i64, h as i64);
    assert(-0x8000_0000 * 0x7fff_ffff <= bw * h <= 0x7fff_ffff * 0x7fff_ffff) by (nonlinear_arith)
        requires
            -0x8000_0000 <= bw <= 0x7fff_ffff,
            0 < h <= 0x7fff_ffff,
    ;
    assert(-0x8000_0000 * 0x7fff_ffff <= bh * w <= 0x7fff_ffff * 0x7fff_ffff) by (nonlinear_arith)
        requires
            -0x8000_0000 <= bh <= 0x7fff_ffff,
            0 < w <= 0x7fff_ffff,
    ;
    let mut dw: i64 = bw;
    let mut dh: i64 = bw * h / w;
    if dh > bh {
        dh = bh;
        dw = bh * w / h;
    }
    if dw < 1 {
        dw = 1;
    }
    if dh < 1 {
        dh = 1;
    }
    Rect {
        x: (box_.x as i64 + (bw - dw) / 2) as i32,
        y: (box_.y as i64 + (bh - dh) / 2) as i32,
        w: dw as i32,
        h: dh as i32,
    }
}

// --- the theme -------------------------------------------------------------
pub struct Theme {
    pub bg: Argb,
    /// Label colours.
    pub fg: Argb,
    pub sel_bg: Argb,
    pub sel_fg: Argb,
    pub border: Argb,
    /// Window border, logical px.
    pub border_px: i32,
    /// The box the grid may not exceed, in logical px. Thumbnails are sized to
    /// divide it by the column and row caps below, so a thumbnail is the same
    /// size whether one window is open or thirty: only the window around them
    /// shrinks to hug what is there.
    pub max_w: i32,
    pub max_h: i32,
    /// Padding inside one element, i.e. around its thumbnail.
    pub pad: i32,
    /// Space between elements.
    pub gap: i32,
    /// Margin between the grid and the window edge.
    pub margin: i32,
    /// How many tiles the grid may show at once. Rows beyond `max_rows` scroll.
    pub max_cols: i32,
    pub max_rows: i32,
    /// Gap between a thumbnail and its label.
    pub spacing: i32,
    /// Label font family, resolved against the system's fonts. The default is
    /// the generic "monospace", which becomes whatever fontconfig says that is
    /// here. Size and line height are logical px.
    pub font: String,
    pub font_px: Literal,
    pub line_h: i32,
    /// Draw labels at all.
    pub labels: bool,
}

/// What a theme says, its texts as characters.
pub struct Look {
    pub bg: Argb,
    pub fg: Argb,
    pub sel_bg: Argb,
    pub sel_fg: Argb,
    pub border: Argb,
    pub border_px: i32,
    pub max_w: i32,
    pub max_h: i32,
    pub pad: i32,
    pub gap: i32,
    pub margin: i32,
    pub max_cols: i32,
    pub max_rows: i32,
    pub spacing: i32,
    pub font: Seq<char>,
    pub font_px: Seq<char>,
    pub line_h: i32,
    pub labels: bool,
}

impl View for Theme {
    type V = Look;

    open spec fn view(&self) -> Look {
        Look {
            bg: self.bg,
            fg: self.fg,
            sel_bg: self.sel_bg,
            sel_fg: self.sel_fg,
            border: self.border,
            border_px: self.border_px,
            max_w: self.max_w,
            max_h: self.max_h,
            pad: self.pad,
            gap: self.gap,
            margin: self.margin,
            max_cols: self.max_cols,
            max_rows: self.max_rows,
            spacing: self.spacing,
            font: self.font@,
            font_px: self.font_px@,
            line_h: self.line_h,
            labels: self.labels,
        }
    }
}

impl Look {
    /// The look that nothing was changed of. The box is a placeholder: the
    /// command line resolves it against the display the grid will appear on.
    pub open spec fn standard() -> Look {
        Look {
            bg: 0xff282828,
            fg: 0xffebdbb2,
            sel_bg: 0xffd79921,
            sel_fg: 0xff282828,
            border: 0xffd79921,
            border_px: 2,
            max_w: 1152,
            max_h: 1296,
            pad: 12,
            gap: 15,
            margin: 12,
            max_cols: 4,
            max_rows: 4,
            spacing: 10,
            font: "monospace"@,
            font_px: "13.3"@,
            line_h: 17,
            labels: true,
        }
    }
}

impl Theme {
    /// The font's size is a number. Any lengths make a theme.
    pub open spec fn wf(&self) -> bool {
        self.font_px.wf()
    }

    /// The height that a label and the gap above it take.
    pub open spec fn label_row(&self) -> int {
        if self.labels {
            self.spacing + self.line_h
        } else {
            0
        }
    }
}

impl Default for Theme {
    fn default() -> (t: Self)
        ensures
            t.wf(),
            t@ == Look::standard(),
    {
        proof {
            reveal_strlit("13.3");
            let s = "13.3"@;
            assert(unsigned_is(s));
            reveal_with_fuel(crate::words::digit_run, 4);
            assert(s.drop_first()[0] == '3');
            assert(s.drop_first().drop_first()[0] == '.');
            assert(crate::words::digit_run(s) == 2);
            let rest = s.skip(3);
            assert(rest[0] == '3');
            assert(crate::words::digit_run(rest) == 1);
            assert(rest.skip(1).len() == 0);
            assert(words::is_literal(s));
        }
        Theme {
            bg: 0xff282828,  // gruvbox-dark-bg0
            fg: 0xffebdbb2,  // gruvbox-dark-fg1
            sel_bg: 0xffd79921,  // gruvbox-dark-yellow-dark
            sel_fg: 0xff282828,
            border: 0xffd79921,
            border_px: 2,
            // Placeholders: the command line resolves these against the
            // display the grid will appear on.
            max_w: 1152,
            max_h: 1296,
            pad: 12,
            gap: 15,
            margin: 12,
            // Equal caps make a cell shaped like the display, since max_w and
            // max_h are the same fraction of it.
            max_cols: 4,
            max_rows: 4,
            spacing: 10,
            font: "monospace".to_owned(),
            font_px: Literal { text: "13.3".to_owned() },
            line_h: 17,
            labels: true,
        }
    }
}

spec fn unsigned_is(s: Seq<char>) -> bool {
    crate::words::unsigned(s) == s
}

// --- the layout ------------------------------------------------------------
/// The least whole number whose square is at least `n`.
pub open spec fn ceil_sqrt(n: nat) -> int
    decreases n,
{
    if n == 0 {
        0
    } else {
        let c = ceil_sqrt((n - 1) as nat);
        if c * c >= n {
            c
        } else {
            c + 1
        }
    }
}

pub proof fn lemma_ceil_sqrt(n: nat)
    ensures
        ceil_sqrt(n) >= 0,
        ceil_sqrt(n) * ceil_sqrt(n) >= n,
        n > 0 ==> ceil_sqrt(n) >= 1 && (ceil_sqrt(n) - 1) * (ceil_sqrt(n) - 1) < n,
    decreases n,
{
    if n > 0 {
        lemma_ceil_sqrt((n - 1) as nat);
        let c = ceil_sqrt((n - 1) as nat);
        assert((c + 1) * (c + 1) == c * c + 2 * c + 1) by (nonlinear_arith);
        if c * c >= n {
            if n == 1 {
                assert(c == 0 ==> c * c == 0);
                assert((c - 1) * (c - 1) == c * c - 2 * c + 1) by (nonlinear_arith);
                assert(ceil_sqrt(0) == 0);
            }
        } else {
            assert((c + 1 - 1) * (c + 1 - 1) == c * c);
        }
    }
}

/// The measures of a grid, in logical px.
pub struct Grid {
    pub cols: int,
    pub rows: int,
    pub visible_rows: int,
    pub n: int,
    pub width: int,
    pub height: int,
    pub elem_w: int,
    pub elem_h: int,
    pub margin: int,
    pub gap: int,
    pub pad: int,
    pub tile_h: int,
    pub spacing: int,
    pub line_h: int,
    pub labels: bool,
}

/// One side of a thumbnail: what is left of `room`, divided by `cap`, after the
/// furniture around each.
pub open spec fn thumbnail(room: int, margin: int, gap: int, cap: int, furniture: int) -> int {
    at_least(quot(room - 2 * margin + gap, cap) - furniture, 1)
}

/// The grid for `n` tiles on a display of that size.
pub open spec fn grid(t: Theme, n: int, display: (i32, i32)) -> Grid {
    let n = at_least(n, 0);
    let (cap_cols, cap_rows) = (at_least(t.max_cols as int, 1), at_least(t.max_rows as int, 1));
    // The box may never exceed the display, whatever the config says.
    let box_w = within(t.max_w as int, 1, at_least(display.0 as int, 1));
    let box_h = within(t.max_h as int, 1, at_least(display.1 as int, 1));
    let tile_w = thumbnail(box_w, t.margin as int, t.gap as int, cap_cols, 2 * t.pad + t.gap);
    let tile_h = thumbnail(
        box_h,
        t.margin as int,
        t.gap as int,
        cap_rows,
        2 * t.pad + t.label_row() + t.gap,
    );
    let elem_w = tile_w + 2 * t.pad;
    let elem_h = tile_h + t.label_row() + 2 * t.pad;
    let cols = within(ceil_sqrt(n as nat), 1, cap_cols);
    let rows = (n + cols - 1) / cols;
    let visible_rows = within(cap_rows, 1, at_least(rows, 1));
    Grid {
        cols,
        rows,
        visible_rows,
        n,
        width: cols * elem_w + (cols - 1) * t.gap + 2 * t.margin,
        height: visible_rows * elem_h + (visible_rows - 1) * t.gap + 2 * t.margin,
        elem_w,
        elem_h,
        margin: t.margin as int,
        gap: t.gap as int,
        pad: t.pad as int,
        tile_h,
        spacing: t.spacing as int,
        line_h: t.line_h as int,
        labels: t.labels,
    }
}

impl Grid {
    /// What holds of every grid, and that its measures fit the machine.
    pub open spec fn wf(self) -> bool {
        &&& 0 <= self.n <= i32::MAX
        &&& 1 <= self.cols <= i32::MAX
        &&& self.rows == (self.n + self.cols - 1) / self.cols
        &&& 1 <= self.visible_rows <= at_least(self.rows, 1)
        &&& self.tile_h >= 1
        &&& self.elem_w >= 1 + 2 * self.pad
        &&& self.elem_h == self.tile_h + self.label_row() + 2 * self.pad
        &&& self.width == self.cols * self.elem_w + (self.cols - 1) * self.gap + 2 * self.margin
        &&& self.height == self.visible_rows * self.elem_h + (self.visible_rows - 1) * self.gap + 2
            * self.margin
        &&& self.fits()
    }

    pub open spec fn label_row(self) -> int {
        if self.labels {
            self.spacing + self.line_h
        } else {
            0
        }
    }

    /// A 32-bit coordinate can say how large the overlay and an element are, and
    /// where the boxes on screen begin and end: along a row or a column of them
    /// the first and the last are the outermost.
    pub open spec fn fits(self) -> bool {
        &&& is_i32(self.width)
        &&& is_i32(self.height)
        &&& is_i32(self.elem_w)
        &&& is_i32(self.elem_h)
        &&& is_i32(self.tile_h)
        &&& self.n > 0 ==> self.boxes_span(0, 0) && self.boxes_span(
            self.cols - 1,
            self.visible_rows - 1,
        )
    }

    /// A 32-bit coordinate can say where the boxes in that column and row are.
    pub open spec fn boxes_span(self, col: int, row: int) -> bool {
        &&& self.elem_at(col, row).spans()
        &&& self.tile_at(col, row).spans()
        &&& self.labels ==> self.label_at(col, row).spans()
    }

    /// The furthest the viewport can scroll, in rows.
    pub open spec fn max_scroll(self) -> int {
        at_least(self.rows - self.visible_rows, 0)
    }

    /// Tile `i` is on screen with the viewport at `scroll`.
    pub open spec fn shows(self, i: int, scroll: int) -> bool {
        0 <= i < self.n && 0 <= i / self.cols - scroll < self.visible_rows
    }

    /// The element box in column `col` of row `row` of those on screen.
    pub open spec fn elem_at(self, col: int, row: int) -> Area {
        Area {
            x: self.margin + col * (self.elem_w + self.gap),
            y: self.margin + row * (self.elem_h + self.gap),
            w: self.elem_w,
            h: self.elem_h,
        }
    }

    /// The thumbnail box in it: the top of the element, above the label.
    pub open spec fn tile_at(self, col: int, row: int) -> Area {
        let e = self.elem_at(col, row);
        Area { x: e.x + self.pad, y: e.y + self.pad, w: e.w - 2 * self.pad, h: self.tile_h }
    }

    /// The line of text under the thumbnail.
    pub open spec fn label_at(self, col: int, row: int) -> Area {
        let t = self.tile_at(col, row);
        Area { x: t.x, y: t.y + t.h + self.spacing, w: t.w, h: self.line_h }
    }

    pub open spec fn elem(self, i: int, scroll: int) -> Area {
        self.elem_at(i % self.cols, i / self.cols - scroll)
    }

    pub open spec fn tile(self, i: int, scroll: int) -> Area {
        self.tile_at(i % self.cols, i / self.cols - scroll)
    }

    pub open spec fn label(self, i: int, scroll: int) -> Area {
        self.label_at(i % self.cols, i / self.cols - scroll)
    }

    /// The whole overlay.
    pub open spec fn window(self) -> Area {
        Area { x: 0, y: 0, w: self.width, h: self.height }
    }

    /// Which cell along one axis a coordinate falls in, unless it lands in the
    /// margin or a gap.
    pub open spec fn cell(self, v: int, elem: int, count: int) -> Option<int> {
        let pitch = elem + self.gap;
        let offset = v - self.margin;
        if offset >= 0 && offset / pitch < count && offset % pitch < elem {
            Some(offset / pitch)
        } else {
            None
        }
    }

    /// The cells that this point asks for have a pitch, by which to count them.
    pub open spec fn has_pitch(self, x: int, y: int) -> bool {
        &&& x >= self.margin ==> self.elem_w + self.gap != 0
        &&& y >= self.margin && self.cell(x, self.elem_w, self.cols) is Some ==> self.elem_h
            + self.gap != 0
    }

    /// The tile at a point in surface-local coordinates, if any.
    pub open spec fn hit(self, x: int, y: int, scroll: int) -> Option<int> {
        match (self.cell(x, self.elem_w, self.cols), self.cell(y, self.elem_h, self.visible_rows)) {
            (Some(col), Some(row)) => {
                let i = (row + scroll) * self.cols + col;
                if 0 <= i < self.n {
                    Some(i)
                } else {
                    None
                }
            },
            _ => None,
        }
    }

    /// Where the viewport must sit for row `row` to be on screen, moving as
    /// little as possible from `scroll`.
    pub open spec fn revealed(self, row: int, scroll: int) -> int {
        let top = at_most(row, scroll);
        within(at_least(row - self.visible_rows + 1, top), 0, self.max_scroll())
    }

    /// The tile `by` rows below tile `i`, in its column, as far as there are
    /// rows and tiles.
    pub open spec fn step_row(self, i: int, by: int) -> int {
        let row = within(i / self.cols + by, 0, self.rows - 1);
        at_most(row * self.cols + i % self.cols, self.n - 1)
    }

    pub open spec fn track(self, width: int) -> Area {
        Area {
            x: self.width - self.margin + quot(self.margin - width, 2),
            y: self.margin,
            w: width,
            h: self.height - 2 * self.margin,
        }
    }

    pub open spec fn thumb(self, scroll: int, width: int) -> Area {
        let track = self.track(width);
        let span = at_least(quot(track.h * self.visible_rows, self.rows), width);
        Area {
            x: track.x,
            y: track.y + quot((track.h - span) * scroll, self.max_scroll()),
            w: track.w,
            h: span,
        }
    }
}

/// Steps of one size lead from the first place to the last.
pub proof fn lemma_between(k: int, count: int, pitch: int, scale: int)
    requires
        0 <= k < count,
        scale >= 1,
    ensures
        0 <= (k * pitch) * scale <= ((count - 1) * pitch) * scale || ((count - 1) * pitch) * scale
            <= (k * pitch) * scale <= 0,
        0 <= k * pitch <= (count - 1) * pitch || (count - 1) * pitch <= k * pitch <= 0,
{
    let (a, b) = (k * pitch, (count - 1) * pitch);
    assert(0 <= a <= b || b <= a <= 0) by (nonlinear_arith)
        requires
            a == k * pitch,
            b == (count - 1) * pitch,
            0 <= k <= count - 1,
    ;
    assert(0 <= a * scale <= b * scale || b * scale <= a * scale <= 0) by (nonlinear_arith)
        requires
            0 <= a <= b || b <= a <= 0,
            scale >= 1,
    ;
}

/// The boxes of a grid that fits all fit.
pub proof fn lemma_boxes_span(g: Grid, col: int, row: int)
    requires
        g.wf(),
        g.n > 0,
        0 <= col < g.cols,
        0 <= row < g.visible_rows,
    ensures
        g.boxes_span(col, row),
{
    lemma_between(col, g.cols, g.elem_w + g.gap, 1);
    lemma_between(row, g.visible_rows, g.elem_h + g.gap, 1);
}

/// How many rows a grid has.
pub proof fn lemma_grid_rows(g: Grid)
    requires
        g.wf(),
    ensures
        0 <= g.rows <= g.n,
        g.rows >= 1 <==> g.n >= 1,
{
    lemma_rows(g.n, g.cols);
}

/// How many rows `n` tiles need over `c` columns.
proof fn lemma_rows(n: int, c: int)
    requires
        n >= 0,
        c >= 1,
    ensures
        0 <= (n + c - 1) / c <= n,
        n >= 1 ==> (n + c - 1) / c >= 1,
        n <= ((n + c - 1) / c) * c < n + c,
        forall|i: int| 0 <= i < n ==> 0 <= #[trigger] (i / c) < (n + c - 1) / c,
{
    let rows = (n + c - 1) / c;
    vstd::arithmetic::div_mod::lemma_fundamental_div_mod(n + c - 1, c);
    let m = (n + c - 1) % c;
    assert(c * rows == rows * c) by (nonlinear_arith);
    assert(rows >= 0) by (nonlinear_arith)
        requires
            rows * c > n - 1,
            n >= 0,
            c >= 1,
    ;
    assert(rows <= n) by (nonlinear_arith)
        requires
            rows * c <= n + c - 1,
            c >= 1,
            n >= 0,
    ;
    if n >= 1 {
        assert(rows >= 1) by (nonlinear_arith)
            requires
                rows * c >= n,
                n >= 1,
                c >= 1,
        ;
    }
    assert forall|i: int| 0 <= i < n implies 0 <= #[trigger] (i / c) < rows by {
        vstd::arithmetic::div_mod::lemma_fundamental_div_mod(i, c);
        let q = i / c;
        assert(q >= 0) by (nonlinear_arith)
            requires
                c * q > i - c,
                i >= 0,
                c >= 1,
        ;
        assert(q < rows) by (nonlinear_arith)
            requires
                c * q <= i,
                i < rows * c,
                c >= 1,
        ;
    }
}

/// The measures of a grid, before it is known that they fit a layout.
struct Measures {
    cols: i128,
    rows: i128,
    visible_rows: i128,
    n: i128,
    width: i128,
    height: i128,
    elem_w: i128,
    elem_h: i128,
    tile_w: i128,
    tile_h: i128,
}

fn largest(a: i128, low: i128) -> (r: i128)
    ensures
        r == at_least(a as int, low as int),
{
    if a < low {
        low
    } else {
        a
    }
}

fn clamped(a: i128, low: i128, high: i128) -> (r: i128)
    ensures
        r == within(a as int, low as int, high as int),
{
    if a < low {
        low
    } else if a > high {
        high
    } else {
        a
    }
}

/// The least whole number whose square is at least `n`.
fn square_root_up(n: i128) -> (r: i128)
    requires
        0 <= n <= i32::MAX,
    ensures
        r == ceil_sqrt(n as nat),
        0 <= r <= 0x8000_0000,
{
    proof {
        lemma_ceil_sqrt(n as nat);
    }
    let ghost c = ceil_sqrt(n as nat);
    let mut root: i128 = 0;
    while root * root < n
        invariant
            0 <= n <= i32::MAX,
            0 <= root <= c,
            c * c >= n,
            root <= 0x8000_0000,
            0 <= root * root <= 0x8000_0000 * 0x8000_0000,
        decreases c - root,
    {
        assert(root < c) by (nonlinear_arith)
            requires
                0 <= root <= c,
                root * root < n,
                c * c >= n,
        ;
        assert(root + 1 <= 0x8000_0000) by (nonlinear_arith)
            requires
                root * root < n,
                n <= 0x7fff_ffff,
                root >= 0,
        ;
        root = root + 1;
        assert(0 <= root * root <= 0x8000_0000 * 0x8000_0000) by (nonlinear_arith)
            requires
                0 <= root <= 0x8000_0000,
        ;
    }
    proof {
        if root < c {
            assert(root * root <= (c - 1) * (c - 1)) by (nonlinear_arith)
                requires
                    0 <= root <= c - 1,
            ;
        }
    }
    root
}

/// One side of a thumbnail.
fn thumbnail_side(room: i128, margin: i128, gap: i128, cap: i128, furniture: i128) -> (r: i128)
    requires
        1 <= room <= i32::MAX,
        i32::MIN <= margin <= i32::MAX,
        i32::MIN <= gap <= i32::MAX,
        1 <= cap,
        -0x4_0000_0000 <= furniture <= 0x4_0000_0000,
    ensures
        r == thumbnail(room as int, margin as int, gap as int, cap as int, furniture as int),
        1 <= r <= 0x8_0000_0000,
{
    let left = room - 2 * margin + gap;
    let part = left / cap;
    assert(-0x2_0000_0000 <= part <= 0x2_0000_0000) by (nonlinear_arith)
        requires
            part == quot(left as int, cap as int),
            -0x2_0000_0000 <= left <= 0x2_0000_0000,
            cap >= 1,
    ;
    largest(part - furniture, 1)
}

/// What `count` elements take side by side, with the gaps and the margins.
fn span_of(count: i128, elem: i128, gap: i128, margin: i128) -> (r: i128)
    requires
        1 <= count <= 0x8000_0000,
        -0x10_0000_0000 <= elem <= 0x10_0000_0000,
        i32::MIN <= gap <= i32::MAX,
        i32::MIN <= margin <= i32::MAX,
    ensures
        r == count * elem + (count - 1) * gap + 2 * margin,
{
    assert(-0x8000_0000 * 0x10_0000_0000 <= count * elem <= 0x8000_0000 * 0x10_0000_0000)
        by (nonlinear_arith)
        requires
            1 <= count <= 0x8000_0000,
            -0x10_0000_0000 <= elem <= 0x10_0000_0000,
    ;
    assert(-0x8000_0000 * 0x8000_0000 <= (count - 1) * gap <= 0x8000_0000 * 0x8000_0000)
        by (nonlinear_arith)
        requires
            1 <= count <= 0x8000_0000,
            -0x8000_0000 <= gap <= 0x7fff_ffff,
    ;
    count * elem + (count - 1) * gap + 2 * margin
}

fn measure(t: &Theme, n: i32, display: (i32, i32)) -> (m: Measures)
    ensures
        ({
            let g = grid(*t, n as int, display);
            &&& m.cols == g.cols
            &&& m.rows == g.rows
            &&& m.visible_rows == g.visible_rows
            &&& m.n == g.n
            &&& m.width == g.width
            &&& m.height == g.height
            &&& m.elem_w == g.elem_w
            &&& m.elem_h == g.elem_h
            &&& m.tile_h == g.tile_h
        }),
        m.elem_w == m.tile_w + 2 * t.pad,
        1 <= m.cols <= i32::MAX,
        1 <= m.visible_rows <= i32::MAX,
        0 <= m.n <= i32::MAX,
        1 <= m.tile_w <= 0x8_0000_0000,
        1 <= m.tile_h <= 0x8_0000_0000,
        -0x10_0000_0000 <= m.elem_h <= 0x10_0000_0000,
{
    let n = largest(n as i128, 0);
    let cap_cols = largest(t.max_cols as i128, 1);
    let cap_rows = largest(t.max_rows as i128, 1);
    let box_w = clamped(t.max_w as i128, 1, largest(display.0 as i128, 1));
    let box_h = clamped(t.max_h as i128, 1, largest(display.1 as i128, 1));
    let label_row: i128 = if t.labels {
        t.spacing as i128 + t.line_h as i128
    } else {
        0
    };
    let (pad, gap, margin) = (t.pad as i128, t.gap as i128, t.margin as i128);
    // Divide the box by the caps: what is left after the furniture is one
    // thumbnail.
    let tile_w = thumbnail_side(box_w, margin, gap, cap_cols, 2 * pad + gap);
    let tile_h = thumbnail_side(box_h, margin, gap, cap_rows, 2 * pad + label_row + gap);
    let elem_w = tile_w + 2 * pad;
    let elem_h = tile_h + label_row + 2 * pad;
    // Columns: the balanced rule, so a handful of windows makes a tidy grid
    // rather than one long row, capped by the config.
    let cols = clamped(square_root_up(n), 1, cap_cols);
    proof {
        lemma_rows(n as int, cols as int);
    }
    let rows = (n + cols - 1) / cols;
    let visible_rows = clamped(cap_rows, 1, largest(rows, 1));
    let width = span_of(cols, elem_w, gap, margin);
    let height = span_of(visible_rows, elem_h, gap, margin);
    Measures { cols, rows, visible_rows, n, width, height, elem_w, elem_h, tile_w, tile_h }
}

/// Whether 32 bits can say a coordinate.
pub fn is_coordinate(v: i128) -> (r: bool)
    ensures
        r == is_i32(v as int),
{
    v >= i32::MIN as i128 && v <= i32::MAX as i128
}

/// Whether 32 bits can say where a box begins and ends along one axis.
fn side_spans(from: i128, len: i128) -> (r: bool)
    requires
        -0x10_0000_0000_0000_0000_0000 <= from <= 0x10_0000_0000_0000_0000_0000,
        -0x10_0000_0000 <= len <= 0x10_0000_0000,
    ensures
        r == (is_i32(from as int) && is_i32(len as int) && is_i32(from + len)),
{
    is_coordinate(from) && is_coordinate(len) && is_coordinate(from + len)
}

impl Measures {
    /// Whether 32 bits can say where the boxes in that column and row are.
    fn boxes_span(&self, t: &Theme, col: i128, row: i128) -> (r: bool)
        requires
            0 <= col <= i32::MAX,
            0 <= row <= i32::MAX,
            self.elem_w == self.tile_w + 2 * t.pad,
            1 <= self.tile_w <= 0x8_0000_0000,
            1 <= self.tile_h <= 0x8_0000_0000,
            -0x10_0000_0000 <= self.elem_h <= 0x10_0000_0000,
        ensures
            forall|g: Grid|
                g.elem_w == self.elem_w && g.elem_h == self.elem_h && g.tile_h == self.tile_h
                    && g.margin == t.margin && g.gap == t.gap && g.pad == t.pad && g.spacing
                    == t.spacing && g.line_h == t.line_h && g.labels == t.labels ==> r
                    == #[trigger] g.boxes_span(col as int, row as int),
    {
        let (pitch_w, pitch_h) = (self.elem_w + t.gap as i128, self.elem_h + t.gap as i128);
        proof {
            lemma_steps(col as int, pitch_w as int);
            lemma_steps(row as int, pitch_h as int);
        }
        let x: i128 = t.margin as i128 + col * pitch_w;
        let y: i128 = t.margin as i128 + row * pitch_h;
        let (tx, ty) = (x + t.pad as i128, y + t.pad as i128);
        let ly: i128 = ty + self.tile_h + t.spacing as i128;
        side_spans(x, self.elem_w) && side_spans(y, self.elem_h) && side_spans(tx, self.tile_w)
            && side_spans(ty, self.tile_h) && (!t.labels || side_spans(ly, t.line_h as i128))
    }
}

proof fn lemma_steps(k: int, pitch: int)
    requires
        0 <= k <= 0x7fff_ffff,
        -0x20_0000_0000 <= pitch <= 0x20_0000_0000,
    ensures
        -0x8000_0000 * 0x20_0000_0000 <= k * pitch <= 0x8000_0000 * 0x20_0000_0000,
{
    assert(-0x8000_0000 * 0x20_0000_0000 <= k * pitch <= 0x8000_0000 * 0x20_0000_0000)
        by (nonlinear_arith)
        requires
            0 <= k <= 0x7fff_ffff,
            -0x20_0000_0000 <= pitch <= 0x20_0000_0000,
    ;
}

/// Where every element and thumbnail goes, in logical px.
#[derive(Debug)]
pub struct Layout {
    pub cols: i32,
    /// Rows the whole grid needs, and how many of them fit on screen at once.
    pub rows: i32,
    pub visible_rows: i32,
    /// How many tiles there are, which the last row may not fill.
    pub n: i32,
    pub width: i32,
    pub height: i32,
    pub elem_w: i32,
    pub elem_h: i32,
    pub margin: i32,
    pub gap: i32,
    pub pad: i32,
    pub tile_h: i32,
    pub spacing: i32,
    pub line_h: i32,
    pub labels: bool,
}

impl View for Layout {
    type V = Grid;

    open spec fn view(&self) -> Grid {
        Grid {
            cols: self.cols as int,
            rows: self.rows as int,
            visible_rows: self.visible_rows as int,
            n: self.n as int,
            width: self.width as int,
            height: self.height as int,
            elem_w: self.elem_w as int,
            elem_h: self.elem_h as int,
            margin: self.margin as int,
            gap: self.gap as int,
            pad: self.pad as int,
            tile_h: self.tile_h as int,
            spacing: self.spacing as int,
            line_h: self.line_h as int,
            labels: self.labels,
        }
    }
}

impl Layout {
    pub open spec fn wf(&self) -> bool {
        self@.wf()
    }

    /// Whether the grid for `n` tiles is one that a layout can hold.
    pub fn fits(t: &Theme, n: i32, display: (i32, i32)) -> (r: bool)
        ensures
            r == grid(*t, n as int, display).fits(),
    {
        let m = measure(t, n, display);
        is_coordinate(m.width) && is_coordinate(m.height) && is_coordinate(m.elem_w)
            && is_coordinate(m.elem_h) && is_coordinate(m.tile_h) && (m.n == 0 || m.boxes_span(
            t,
            0,
            0,
        ) && m.boxes_span(t, m.cols - 1, m.visible_rows - 1))
    }

    /// A balanced grid: ceil(sqrt(n)) columns, capped, so the last row isn't
    /// ragged (6 windows make 3x2, not 4x2 with two holes).
    ///
    /// A thumbnail is the size that divides the configured box by the column and
    /// row caps, so it does not change with how many windows are open: one
    /// window gets a normal thumbnail in a small overlay, thirty get the same
    /// thumbnail and scroll. The overlay then hugs whatever is actually there.
    pub fn new(t: &Theme, n: i32, display: (i32, i32)) -> (l: Layout)
        requires
            grid(*t, n as int, display).fits(),
        ensures
            l@ == grid(*t, n as int, display),
            l.wf(),
    {
        let m = measure(t, n, display);
        let ghost g = grid(*t, n as int, display);
        proof {
            lemma_rows(g.n, g.cols);
            assert(g.wf());
        }
        Layout {
            cols: m.cols as i32,
            rows: m.rows as i32,
            visible_rows: m.visible_rows as i32,
            n: m.n as i32,
            width: m.width as i32,
            height: m.height as i32,
            elem_w: m.elem_w as i32,
            elem_h: m.elem_h as i32,
            margin: t.margin,
            gap: t.gap,
            pad: t.pad,
            tile_h: m.tile_h as i32,
            spacing: t.spacing,
            line_h: t.line_h,
            labels: t.labels,
        }
    }

    /// The furthest the viewport can scroll, in rows.
    pub fn max_scroll(&self) -> (r: i32)
        requires
            self.wf(),
        ensures
            r == self@.max_scroll(),
    {
        proof {
            lemma_grid_rows(self@);
        }
        if self.rows < self.visible_rows {
            0
        } else {
            self.rows - self.visible_rows
        }
    }

    pub fn scrollable(&self) -> (r: bool)
        requires
            self.wf(),
        ensures
            r == (self@.max_scroll() > 0),
    {
        self.max_scroll() > 0
    }

    /// The row of tile `i`.
    pub fn row_of(&self, i: usize) -> (r: i32)
        requires
            self.wf(),
        ensures
            r == quot((i as i32) as int, self@.cols),
    {
        i as i32 / self.cols
    }

    /// Where the viewport must sit for tile `i` to be on screen, moving as
    /// little as possible from `scroll`.
    pub fn reveal_tile(&self, i: usize, scroll: i32) -> (r: i32)
        requires
            self.wf(),
        ensures
            r == self@.revealed(quot((i as i32) as int, self@.cols), scroll as int),
    {
        let row = self.row_of(i);
        let top: i32 = if row > scroll {
            scroll
        } else {
            row
        };
        let low: i64 = row as i64 - self.visible_rows as i64 + 1;
        let bottom: i64 = if low < top as i64 {
            top as i64
        } else {
            low
        };
        let max = self.max_scroll();
        if bottom < 0 {
            0
        } else if bottom > max as i64 {
            max
        } else {
            bottom as i32
        }
    }

    /// The element box in column `col` of row `row` of those on screen.
    pub(crate) fn elem_box(&self, col: i32, row: i32) -> (r: Rect)
        requires
            self.wf(),
            self@.n > 0,
            0 <= col < self@.cols,
            0 <= row < self@.visible_rows,
        ensures
            r@ == self@.elem_at(col as int, row as int),
    {
        let (across, down) = (
            self.elem_w as i64 + self.gap as i64,
            self.elem_h as i64 + self.gap as i64,
        );
        proof {
            lemma_boxes_span(self@, col as int, row as int);
            let (c, w, y, h) = (col as int, across as int, row as int, down as int);
            assert(c * w == self@.elem_at(c, y).x - self@.margin);
            assert(y * h == self@.elem_at(c, y).y - self@.margin);
        }
        let x: i64 = self.margin as i64 + col as i64 * across;
        let y: i64 = self.margin as i64 + row as i64 * down;
        Rect { x: x as i32, y: y as i32, w: self.elem_w, h: self.elem_h }
    }

    /// The thumbnail box in it.
    fn tile_box(&self, col: i32, row: i32) -> (r: Rect)
        requires
            self.wf(),
            self@.n > 0,
            0 <= col < self@.cols,
            0 <= row < self@.visible_rows,
        ensures
            r@ == self@.tile_at(col as int, row as int),
    {
        let e = self.elem_box(col, row);
        proof {
            lemma_boxes_span(self@, col as int, row as int);
        }
        let w: i64 = e.w as i64 - 2 * self.pad as i64;
        Rect { x: e.x + self.pad, y: e.y + self.pad, w: w as i32, h: self.tile_h }
    }

    /// The line of text under the thumbnail, where labels are drawn.
    pub(crate) fn label_box(&self, col: i32, row: i32) -> (r: Rect)
        requires
            self.wf(),
            self@.n > 0,
            self@.labels,
            0 <= col < self@.cols,
            0 <= row < self@.visible_rows,
        ensures
            r@ == self@.label_at(col as int, row as int),
    {
        let t = self.tile_box(col, row);
        proof {
            lemma_boxes_span(self@, col as int, row as int);
        }
        let y: i64 = t.y as i64 + t.h as i64 + self.spacing as i64;
        Rect { x: t.x, y: y as i32, w: t.w, h: self.line_h }
    }

    /// The column of tile `i`, and its row of those on screen, unless it is
    /// scrolled out of sight.
    fn place(&self, i: i32, scroll: i32) -> (r: Option<(i32, i32)>)
        requires
            self.wf(),
        ensures
            match r {
                Some((col, row)) => {
                    &&& self@.shows(i as int, scroll as int)
                    &&& col == i as int % self@.cols
                    &&& row == i as int / self@.cols - scroll
                    &&& 0 <= col < self@.cols
                    &&& 0 <= row < self@.visible_rows
                },
                None => !self@.shows(i as int, scroll as int),
            },
    {
        if i < 0 || i >= self.n {
            return None;
        }
        let (col, row) = (i % self.cols, i / self.cols);
        let visible: i64 = row as i64 - scroll as i64;
        if visible < 0 || visible >= self.visible_rows as i64 {
            return None;
        }
        Some((col, visible as i32))
    }

    /// The element box for tile `i` with the viewport at `scroll`, or None when
    /// that tile is scrolled out of sight. This is what the selection fills.
    pub fn elem(&self, i: i32, scroll: i32) -> (r: Option<Rect>)
        requires
            self.wf(),
        ensures
            area_of(r) == if self@.shows(i as int, scroll as int) {
                Some(self@.elem(i as int, scroll as int))
            } else {
                None
            },
    {
        match self.place(i, scroll) {
            Some((col, row)) => Some(self.elem_box(col, row)),
            None => None,
        }
    }

    /// The thumbnail box for tile `i`: the top of the element, above the label.
    pub fn tile(&self, i: i32, scroll: i32) -> (r: Option<Rect>)
        requires
            self.wf(),
        ensures
            area_of(r) == if self@.shows(i as int, scroll as int) {
                Some(self@.tile(i as int, scroll as int))
            } else {
                None
            },
    {
        match self.place(i, scroll) {
            Some((col, row)) => Some(self.tile_box(col, row)),
            None => None,
        }
    }

    /// The single line of text under the thumbnail, if labels are drawn.
    pub fn label(&self, i: i32, scroll: i32) -> (r: Option<Rect>)
        requires
            self.wf(),
        ensures
            area_of(r) == if self@.labels && self@.shows(i as int, scroll as int) {
                Some(self@.label(i as int, scroll as int))
            } else {
                None
            },
    {
        if !self.labels {
            return None;
        }
        match self.place(i, scroll) {
            Some((col, row)) => Some(self.label_box(col, row)),
            None => None,
        }
    }

    /// Whether the cells that a point asks for have a pitch, for a caller that
    /// does not know.
    pub fn pitched(&self, x: i32, y: i32) -> (r: bool)
        requires
            self.wf(),
        ensures
            r == self@.has_pitch(x as int, y as int),
    {
        let across = self.elem_w as i64 + self.gap as i64;
        let down = self.elem_h as i64 + self.gap as i64;
        if x >= self.margin && across == 0 {
            return false;
        }
        y < self.margin || down != 0 || self.axis(x, self.elem_w, self.cols).is_none()
    }

    /// The tile at a point in surface-local coordinates, if any. Points in the
    /// gaps between elements and in the window margin belong to nothing, and so
    /// do the empty cells of a ragged last row.
    pub fn hit(&self, x: i32, y: i32, scroll: i32) -> (r: Option<usize>)
        requires
            self.wf(),
            self@.has_pitch(x as int, y as int),
        ensures
            match r {
                Some(i) => self@.hit(x as int, y as int, scroll as int) == Some(i as int),
                None => self@.hit(x as int, y as int, scroll as int) is None,
            },
    {
        let col = self.axis(x, self.elem_w, self.cols)?;
        let row = self.axis(y, self.elem_h, self.visible_rows)?;
        let row: i128 = row as i128 + scroll as i128;
        let cols: i128 = self.cols as i128;
        assert(-0x2_0000_0000 * 0x7fff_ffff <= row * cols <= 0x2_0000_0000 * 0x7fff_ffff)
            by (nonlinear_arith)
            requires
                -0x2_0000_0000 <= row <= 0x2_0000_0000,
                0 <= cols <= 0x7fff_ffff,
        ;
        let i: i128 = row * cols + col as i128;
        if 0 <= i && i < self.n as i128 {
            Some(i as usize)
        } else {
            None
        }
    }

    /// Which cell along one axis a coordinate falls in, or None if it landed in
    /// the margin or a gap.
    fn axis(&self, v: i32, elem: i32, count: i32) -> (r: Option<i64>)
        requires
            v >= self@.margin ==> elem + self@.gap != 0,
        ensures
            match r {
                Some(c) => self@.cell(v as int, elem as int, count as int) == Some(c as int)
                    && -0x1_0000_0000 <= c <= 0x1_0000_0000,
                None => self@.cell(v as int, elem as int, count as int) is None,
            },
    {
        let pitch: i64 = elem as i64 + self.gap as i64;
        let offset: i64 = v as i64 - self.margin as i64;
        if offset < 0 {
            return None;
        }
        let cell = offset / pitch;
        proof {
            lemma_cell_number(offset as int, pitch as int);
        }
        if cell < count as i64 && offset % pitch < elem as i64 {
            Some(cell)
        } else {
            None
        }
    }

    /// The tile `rows` rows below tile `i`, or above it where that is negative,
    /// in the same column. It stops at the first row and at the last one, and on
    /// the last tile where the last row has none in that column.
    pub fn step_row(&self, i: usize, rows: i32) -> (r: usize)
        requires
            self.wf(),
            i < self@.n,
        ensures
            r == self@.step_row(i as int, rows as int),
            r < self@.n,
    {
        let ghost g = self@;
        proof {
            lemma_rows(g.n, g.cols);
            vstd::arithmetic::div_mod::lemma_fundamental_div_mod(i as int, g.cols);
        }
        let (col, row) = (i as i64 % self.cols as i64, i as i64 / self.cols as i64);
        let mut to: i64 = row + rows as i64;
        if to < 0 {
            to = 0;
        } else if to > self.rows as i64 - 1 {
            to = self.rows as i64 - 1;
        }
        let cols: i64 = self.cols as i64;
        assert(0 <= to * cols < i32::MAX + cols) by (nonlinear_arith)
            requires
                0 <= to <= g.rows - 1,
                g.rows * cols < g.n + cols,
                g.n <= i32::MAX,
                cols >= 1,
        ;
        let j: i64 = to * cols + col;
        if j > self.n as i64 - 1 {
            (self.n - 1) as usize
        } else {
            j as usize
        }
    }

    /// How far right a scrollbar of that width is and how high it is, and, of
    /// its thumb, how far down and how high.
    fn bar_measures(&self, scroll: i32, width: i32) -> (r: (i128, i128, i128, i128))
        requires
            self.wf(),
            self@.max_scroll() > 0,
        ensures
            ({
                let (track, thumb) = (
                    self@.track(width as int),
                    self@.thumb(scroll as int, width as int),
                );
                r.0 == track.x && r.1 == track.h && r.2 == thumb.y && r.3 == thumb.h
            }),
            -0x4_0000_0000 <= r.0 <= 0x4_0000_0000,
            -0x4_0000_0000 <= r.1 <= 0x4_0000_0000,
            -0x10_0000_0000_0000_0000_0000 <= r.2 <= 0x10_0000_0000_0000_0000_0000,
            -0x4_0000_0000 <= r.3 <= 0x4_0000_0000,
    {
        let ghost g = self@;
        proof {
            lemma_grid_rows(g);
        }
        let (margin, width) = (self.margin as i128, width as i128);
        let x: i128 = self.width as i128 - margin + (margin - width) / 2;
        let h: i128 = self.height as i128 - 2 * margin;
        let (visible, rows) = (self.visible_rows as i128, self.rows as i128);
        assert(-0x2_0000_0000 * 0x8000_0000 <= h * visible <= 0x2_0000_0000 * 0x8000_0000)
            by (nonlinear_arith)
            requires
                -0x2_0000_0000 <= h <= 0x2_0000_0000,
                0 <= visible <= 0x8000_0000,
        ;
        let share: i128 = h * visible / rows;
        proof {
            lemma_share(h as int, visible as int, rows as int);
        }
        let span = largest(share, width);
        let travel: i128 = h - span;
        let max: i128 = self.max_scroll() as i128;
        let scroll: i128 = scroll as i128;
        assert(-0x8_0000_0000 * 0x8000_0000 <= travel * scroll <= 0x8_0000_0000 * 0x8000_0000)
            by (nonlinear_arith)
            requires
                -0x8_0000_0000 <= travel <= 0x8_0000_0000,
                -0x8000_0000 <= scroll <= 0x7fff_ffff,
        ;
        let moved: i128 = travel * scroll / max;
        proof {
            lemma_quot_size(travel * scroll, max as int);
        }
        (x, h, margin + moved, span)
    }

    /// Whether a scrollbar can be drawn at that scale, with the viewport at
    /// `scroll`.
    pub(crate) fn bar_scales(&self, scroll: i32, width: i32, scale: i32) -> (r: bool)
        requires
            self.wf(),
            self@.max_scroll() > 0,
        ensures
            r == (self@.track(width as int).times(scale as int).fits() && self@.thumb(
                scroll as int,
                width as int,
            ).times(scale as int).fits()),
    {
        let (x, h, y, span) = self.bar_measures(scroll, width);
        side_scales(x, scale) && side_scales(self.margin as i128, scale) && side_scales(
            width as i128,
            scale,
        ) && side_scales(h, scale) && side_scales(y, scale) && side_scales(span, scale)
    }

    /// Track and thumb for a scrollbar down the right margin, or None when
    /// everything already fits.
    pub fn scrollbar(&self, scroll: i32, width: i32) -> (r: Option<(Rect, Rect)>)
        requires
            self.wf(),
            self@.max_scroll() > 0 ==> self@.track(width as int).fits() && self@.thumb(
                scroll as int,
                width as int,
            ).fits(),
        ensures
            match r {
                Some((track, thumb)) => {
                    &&& self@.max_scroll() > 0
                    &&& track@ == self@.track(width as int)
                    &&& thumb@ == self@.thumb(scroll as int, width as int)
                },
                None => self@.max_scroll() == 0,
            },
    {
        if !self.scrollable() {
            return None;
        }
        let (x, h, y, span) = self.bar_measures(scroll, width);
        let track = Rect { x: x as i32, y: self.margin, w: width, h: h as i32 };
        let thumb = Rect { x: x as i32, y: y as i32, w: width, h: span as i32 };
        Some((track, thumb))
    }
}

/// Whether 32 bits can say a measure at that scale.
fn side_scales(v: i128, scale: i32) -> (r: bool)
    requires
        -0x10_0000_0000_0000_0000_0000 <= v <= 0x10_0000_0000_0000_0000_0000,
    ensures
        r == is_i32(v * scale),
{
    let scale: i128 = scale as i128;
    assert(-0x10_0000_0000_0000_0000_0000 * 0x8000_0000 <= v * scale
        <= 0x10_0000_0000_0000_0000_0000 * 0x8000_0000) by (nonlinear_arith)
        requires
            -0x10_0000_0000_0000_0000_0000 <= v <= 0x10_0000_0000_0000_0000_0000,
            -0x8000_0000 <= scale <= 0x7fff_ffff,
    ;
    is_coordinate(v * scale)
}

/// Whether a rectangle can be drawn at that scale.
pub(crate) fn scales(r: Rect, scale: i32) -> (ok: bool)
    ensures
        ok == r@.times(scale as int).fits(),
{
    side_scales(r.x as i128, scale) && side_scales(r.y as i128, scale) && side_scales(
        r.w as i128,
        scale,
    ) && side_scales(r.h as i128, scale)
}

/// A quotient is no larger than what was divided.
proof fn lemma_quot_size(a: int, b: int)
    requires
        b >= 1,
    ensures
        a >= 0 ==> 0 <= quot(a, b) <= a,
        a <= 0 ==> a <= quot(a, b) <= 0,
{
    let c = if a >= 0 {
        a
    } else {
        -a
    };
    assert(0 <= c / b <= c) by (nonlinear_arith)
        requires
            c >= 0,
            b >= 1,
    ;
    assert(0int / b == 0) by (nonlinear_arith)
        requires
            b >= 1,
    ;
}

/// A share of `h` that is no more than all of it is no larger than `h`.
pub proof fn lemma_share(h: int, part: int, all: int)
    requires
        0 <= part <= all,
        all >= 1,
    ensures
        h >= 0 ==> 0 <= quot(h * part, all) <= h,
        h <= 0 ==> h <= quot(h * part, all) <= 0,
{
    let c = if h >= 0 {
        h
    } else {
        -h
    };
    assert(0 <= c * part && 0 <= c * part / all <= c) by (nonlinear_arith)
        requires
            c >= 0,
            0 <= part <= all,
            all >= 1,
    ;
    assert((-c) * part == -(c * part)) by (nonlinear_arith);
    assert(0int / all == 0) by (nonlinear_arith)
        requires
            all >= 1,
    ;
}

/// The number of a cell is no larger than the distance it was counted over.
proof fn lemma_cell_number(offset: int, pitch: int)
    requires
        0 <= offset <= 0x1_0000_0000,
        pitch != 0,
    ensures
        -0x1_0000_0000 <= offset / pitch <= 0x1_0000_0000,
{
    let q = offset / pitch;
    assert(-0x1_0000_0000 <= q <= 0x1_0000_0000) by (nonlinear_arith)
        requires
            q == offset / pitch,
            0 <= offset <= 0x1_0000_0000,
            pitch != 0,
    ;
}

// --- what holds of every layout --------------------------------------------
/// An element that is on screen lies inside the window, clear of the margin.
/// With a negative margin, or where an element begins before the one that it
/// follows, it need not.
pub proof fn law_elements_stay_inside(g: Grid, i: int, scroll: int)
    requires
        g.wf(),
        g.shows(i, scroll),
        g.margin >= 0,
        g.cols > 1 ==> g.elem_w + g.gap >= 0,
        g.visible_rows > 1 ==> g.elem_h + g.gap >= 0,
    ensures
        g.window().encloses(g.elem(i, scroll)),
        g.elem(i, scroll).x >= g.margin,
        g.elem(i, scroll).y >= g.margin,
        g.elem(i, scroll).x + g.elem_w + g.margin <= g.width,
        g.elem(i, scroll).y + g.elem_h + g.margin <= g.height,
{
    vstd::arithmetic::div_mod::lemma_fundamental_div_mod(i, g.cols);
    lemma_cell_inside(g.cols, g.elem_w, g.gap, i % g.cols);
    lemma_cell_inside(g.visible_rows, g.elem_h, g.gap, i / g.cols - scroll);
}

/// Every cell of a grid lies inside its window.
pub proof fn lemma_cell_inside(count: int, elem: int, gap: int, k: int)
    requires
        0 <= k < count,
        count > 1 ==> elem + gap >= 0,
    ensures
        0 <= k * (elem + gap),
        k * (elem + gap) + elem <= count * elem + (count - 1) * gap,
{
    let pitch = elem + gap;
    assert(count * elem + (count - 1) * gap == (count - 1) * pitch + elem) by (nonlinear_arith)
        requires
            pitch == elem + gap,
    ;
    if count > 1 {
        assert(0 <= k * pitch <= (count - 1) * pitch) by (nonlinear_arith)
            requires
                0 <= k <= count - 1,
                pitch >= 0,
        ;
    } else {
        assert(k == 0 && 0 * pitch == 0);
    }
}

/// A thumbnail's box lies inside its element, unless the padding around it is
/// negative, or the label's row is by more than the padding.
pub proof fn law_a_thumbnail_stays_in_its_element(g: Grid, i: int, scroll: int)
    requires
        g.wf(),
        g.pad >= 0,
        g.label_row() + g.pad >= 0,
    ensures
        g.elem(i, scroll).encloses(g.tile(i, scroll)),
{
}

/// A label lies below its thumbnail by the spacing, as wide as it is; and inside
/// its element, unless the padding is negative or the spacing leads out of it.
pub proof fn law_a_label_stays_in_its_element(g: Grid, i: int, scroll: int)
    requires
        g.wf(),
        g.labels,
    ensures
        g.label(i, scroll).y == g.tile(i, scroll).y + g.tile(i, scroll).h + g.spacing,
        g.label(i, scroll).x == g.tile(i, scroll).x,
        g.label(i, scroll).w == g.tile(i, scroll).w,
        g.label(i, scroll).h == g.line_h,
        g.elem(i, scroll).encloses(g.label(i, scroll)) <==> g.pad >= 0 && g.pad + g.tile_h
            + g.spacing >= 0,
{
}

/// A grid without negative lengths fits wherever its window does.
pub proof fn law_a_grid_fits_where_its_window_does(t: Theme, n: int, display: (i32, i32))
    requires
        t.pad >= 0,
        t.gap >= 0,
        t.margin >= 0,
        t.spacing >= 0,
        t.labels ==> t.line_h >= 0,
        is_i32(grid(t, n, display).width),
        is_i32(grid(t, n, display).height),
    ensures
        grid(t, n, display).fits(),
{
    let g = grid(t, n, display);
    lemma_cell_inside(g.cols, g.elem_w, g.gap, 0);
    lemma_cell_inside(g.cols, g.elem_w, g.gap, g.cols - 1);
    lemma_cell_inside(g.visible_rows, g.elem_h, g.gap, 0);
    lemma_cell_inside(g.visible_rows, g.elem_h, g.gap, g.visible_rows - 1);
}

/// A coordinate inside cell `k` is found to be there.
proof fn lemma_cell_found(g: Grid, v: int, elem: int, count: int, k: int)
    requires
        g.gap >= 0,
        elem >= 1,
        0 <= k < count,
        g.margin + k * (elem + g.gap) <= v < g.margin + k * (elem + g.gap) + elem,
    ensures
        g.cell(v, elem, count) == Some(k),
{
    let pitch = elem + g.gap;
    let offset = v - g.margin;
    let d = offset - k * pitch;
    assert(k * pitch >= 0) by (nonlinear_arith)
        requires
            k >= 0,
            pitch >= 1,
    ;
    vstd::arithmetic::div_mod::lemma_fundamental_div_mod_converse(offset, pitch, k, d);
}

/// A coordinate found to be in a cell is inside it.
proof fn lemma_cell_holds(g: Grid, v: int, elem: int, count: int)
    requires
        elem + g.gap != 0,
        elem >= 1 ==> elem + g.gap >= 1,
        g.cell(v, elem, count) is Some,
    ensures
        ({
            let k = g.cell(v, elem, count)->0;
            0 <= k < count && g.margin + k * (elem + g.gap) <= v < g.margin + k * (elem + g.gap)
                + elem
        }),
{
    let pitch = elem + g.gap;
    let offset = v - g.margin;
    vstd::arithmetic::div_mod::lemma_fundamental_div_mod(offset, pitch);
    let k = offset / pitch;
    assert(pitch * k == k * pitch) by (nonlinear_arith);
    assert(k >= 0) by (nonlinear_arith)
        requires
            pitch * k > offset - pitch,
            offset >= 0,
            pitch >= 1,
    ;
}

/// Every point of an element that is on screen belongs to its tile, where no gap
/// is negative and lets elements overlap.
pub proof fn law_an_element_is_hit_everywhere(g: Grid, i: int, scroll: int, x: int, y: int)
    requires
        g.wf(),
        g.gap >= 0,
        g.shows(i, scroll),
        g.elem(i, scroll).covers(x, y),
    ensures
        g.hit(x, y, scroll) == Some(i),
{
    vstd::arithmetic::div_mod::lemma_fundamental_div_mod(i, g.cols);
    lemma_cell_found(g, x, g.elem_w, g.cols, i % g.cols);
    lemma_cell_found(g, y, g.elem_h, g.visible_rows, i / g.cols - scroll);
    let (c, q) = (g.cols, i / g.cols);
    assert(c * q == q * c) by (nonlinear_arith);
}

/// A point that belongs to a tile lies in the element of that tile, and the
/// element is on screen: the margin, the gaps and the empty cells of the last
/// row belong to none. So it is unless an element begins before the one that it
/// follows.
pub proof fn law_a_hit_is_inside_its_element(g: Grid, scroll: int, x: int, y: int)
    requires
        g.wf(),
        g.has_pitch(x, y),
        g.elem_w >= 1 ==> g.elem_w + g.gap >= 1,
        g.elem_h >= 1 ==> g.elem_h + g.gap >= 1,
        g.hit(x, y, scroll) is Some,
    ensures
        g.shows(g.hit(x, y, scroll)->0, scroll),
        g.elem(g.hit(x, y, scroll)->0, scroll).covers(x, y),
{
    lemma_cell_holds(g, x, g.elem_w, g.cols);
    lemma_cell_holds(g, y, g.elem_h, g.visible_rows);
    let col = g.cell(x, g.elem_w, g.cols)->0;
    let row = g.cell(y, g.elem_h, g.visible_rows)->0 + scroll;
    vstd::arithmetic::div_mod::lemma_fundamental_div_mod_converse(row * g.cols + col, g.cols, row, col);
}

/// Elements that many pixels long, that far from each to the next, are apart.
pub open spec fn apart(elem: int, pitch: int) -> bool {
    pitch >= elem || -pitch >= elem
}

/// Two elements on screen at once share no point, unless a negative gap moves
/// them into each other.
pub proof fn law_elements_do_not_overlap(g: Grid, i: int, j: int, scroll: int, x: int, y: int)
    requires
        g.wf(),
        g.shows(i, scroll),
        g.shows(j, scroll),
        i != j,
        apart(g.elem_w, g.elem_w + g.gap),
        apart(g.elem_h, g.elem_h + g.gap),
    ensures
        !(g.elem(i, scroll).covers(x, y) && g.elem(j, scroll).covers(x, y)),
{
    let c = g.cols;
    vstd::arithmetic::div_mod::lemma_fundamental_div_mod(i, c);
    vstd::arithmetic::div_mod::lemma_fundamental_div_mod(j, c);
    if i % c != j % c {
        lemma_apart(g.elem_w, g.elem_w + g.gap, i % c, j % c);
    } else {
        lemma_apart(g.elem_h, g.elem_h + g.gap, i / c - scroll, j / c - scroll);
    }
}

/// Where two of them begin is at least as far apart as they are long.
proof fn lemma_apart(elem: int, pitch: int, k: int, l: int)
    requires
        apart(elem, pitch),
        k != l,
    ensures
        k * pitch - l * pitch >= elem || l * pitch - k * pitch >= elem || elem < 1,
{
    let d = k - l;
    assert(k * pitch - l * pitch == d * pitch) by (nonlinear_arith)
        requires
            d == k - l,
    ;
    if elem >= 1 {
        assert(d * pitch >= elem || d * pitch <= -elem) by (nonlinear_arith)
            requires
                d >= 1 || d <= -1,
                pitch >= elem || pitch <= -elem,
                elem >= 1,
        ;
    }
}

/// Revealing a tile puts it on screen, with the viewport where it may be; a tile
/// that is on screen already moves nothing; and no other place of the viewport
/// that shows the tile is nearer to where it was.
pub proof fn law_reveal_moves_as_little_as_possible(g: Grid, i: int, scroll: int, other: int)
    requires
        g.wf(),
        0 <= i < g.n,
        0 <= scroll <= g.max_scroll(),
        0 <= other <= g.max_scroll(),
    ensures
        ({
            let r = g.revealed(i / g.cols, scroll);
            &&& 0 <= r <= g.max_scroll()
            &&& g.shows(i, r)
            &&& g.shows(i, scroll) ==> r == scroll
            &&& g.shows(i, other) && other <= scroll ==> scroll - r <= scroll - other && r <= scroll
            &&& g.shows(i, other) && other >= scroll ==> r - scroll <= other - scroll && r >= scroll
        }),
{
    lemma_rows(g.n, g.cols);
}

/// A thumbnail is the same size whatever number of windows is open.
pub proof fn law_thumbnails_do_not_depend_on_the_count(
    t: Theme,
    n: int,
    m: int,
    display: (i32, i32),
    i: int,
    j: int,
    scroll: int,
)
    ensures
        grid(t, n, display).tile(i, scroll).w == grid(t, m, display).tile(j, scroll).w,
        grid(t, n, display).tile(i, scroll).h == grid(t, m, display).tile(j, scroll).h,
        grid(t, n, display).elem(i, scroll).w == grid(t, m, display).elem(j, scroll).w,
        grid(t, n, display).elem(i, scroll).h == grid(t, m, display).elem(j, scroll).h,
{
}

/// The box that the grid may fill along one axis.
pub open spec fn room(max: i32, display: i32) -> int {
    within(max as int, 1, at_least(display as int, 1))
}

/// The furniture leaves a thumbnail at least one pixel along one axis.
pub open spec fn roomy(room: int, margin: int, gap: int, cap: int, furniture: int) -> bool {
    quot(room - 2 * margin + gap, cap) - furniture >= 1
}

/// That `cap` elements fill the room along one axis, to within the pixels that
/// the division leaves over; a margin larger than the room is filled from the
/// other side.
pub open spec fn fills(span: int, room: int, margin: int, gap: int, cap: int) -> bool {
    if room - 2 * margin + gap >= 0 {
        room - cap < span <= room
    } else {
        room <= span < room + cap
    }
}

proof fn lemma_thumbnails_fill(room: int, margin: int, gap: int, cap: int, furniture: int)
    requires
        cap >= 1,
        roomy(room, margin, gap, cap, furniture),
    ensures
        fills(
            cap * (thumbnail(room, margin, gap, cap, furniture) + furniture) - gap + 2 * margin,
            room,
            margin,
            gap,
            cap,
        ),
{
    let left = room - 2 * margin + gap;
    let q = thumbnail(room, margin, gap, cap, furniture) + furniture;
    assert(q == quot(left, cap));
    if left < 0 {
        vstd::arithmetic::div_mod::lemma_fundamental_div_mod(-left, cap);
        let p = (-left) / cap;
        assert(cap * (-p) == -(cap * p)) by (nonlinear_arith);
    } else {
        vstd::arithmetic::div_mod::lemma_fundamental_div_mod(left, cap);
    }
}

/// A thumbnail gets at least a pixel of the box's width.
pub open spec fn roomy_across(t: Theme, display: (i32, i32)) -> bool {
    roomy(
        room(t.max_w, display.0),
        t.margin as int,
        t.gap as int,
        at_least(t.max_cols as int, 1),
        2 * t.pad + t.gap,
    )
}

/// A thumbnail gets at least a pixel of the box's height.
pub open spec fn roomy_down(t: Theme, display: (i32, i32)) -> bool {
    roomy(
        room(t.max_h, display.1),
        t.margin as int,
        t.gap as int,
        at_least(t.max_rows as int, 1),
        2 * t.pad + t.label_row() + t.gap,
    )
}

/// As many columns and rows as the caps allow fill the box, to within the pixels
/// that the division leaves over, wherever that leaves a thumbnail a pixel; and
/// where it does not, a thumbnail is a single pixel.
pub proof fn law_a_thumbnail_is_the_box_divided_by_the_caps(t: Theme, n: int, display: (i32, i32))
    ensures
        ({
            let g = grid(t, n, display);
            let (cols, rows) = (at_least(t.max_cols as int, 1), at_least(t.max_rows as int, 1));
            let w = cols * g.elem_w + (cols - 1) * g.gap + 2 * g.margin;
            let h = rows * g.elem_h + (rows - 1) * g.gap + 2 * g.margin;
            &&& if roomy_across(t, display) {
                fills(w, room(t.max_w, display.0), g.margin, g.gap, cols)
            } else {
                g.elem_w == 1 + 2 * g.pad
            }
            &&& if roomy_down(t, display) {
                fills(h, room(t.max_h, display.1), g.margin, g.gap, rows)
            } else {
                g.elem_h == 1 + g.label_row() + 2 * g.pad
            }
        }),
{
    let g = grid(t, n, display);
    let (cols, rows) = (at_least(t.max_cols as int, 1), at_least(t.max_rows as int, 1));
    let (margin, gap) = (t.margin as int, t.gap as int);
    if roomy_across(t, display) {
        lemma_thumbnails_fill(room(t.max_w, display.0), margin, gap, cols, 2 * t.pad + t.gap);
    }
    if roomy_down(t, display) {
        lemma_thumbnails_fill(
            room(t.max_h, display.1),
            margin,
            gap,
            rows,
            2 * t.pad + t.label_row() + t.gap,
        );
    }
    let (ew, eh) = (g.elem_w, g.elem_h);
    assert(cols * (ew + gap) == cols * ew + (cols - 1) * gap + gap) by (nonlinear_arith);
    assert(rows * (eh + gap) == rows * eh + (rows - 1) * gap + gap) by (nonlinear_arith);
}

/// The overlay never exceeds the display, whatever the config asks for, as long
/// as its furniture fits around thumbnails of a single pixel, and a margin that
/// alone is larger than the box leaves none of more.
pub proof fn law_the_box_never_exceeds_the_display(t: Theme, n: int, display: (i32, i32))
    requires
        display.0 >= 1,
        display.1 >= 1,
        ({
            let g = grid(t, n, display);
            g.cols * (1 + 2 * g.pad) + (g.cols - 1) * g.gap + 2 * g.margin <= display.0
        }),
        ({
            let g = grid(t, n, display);
            g.visible_rows * (1 + g.label_row() + 2 * g.pad) + (g.visible_rows - 1) * g.gap + 2
                * g.margin <= display.1
        }),
        roomy_across(t, display) ==> room(t.max_w, display.0) - 2 * t.margin + t.gap >= 0,
        roomy_down(t, display) ==> room(t.max_h, display.1) - 2 * t.margin + t.gap >= 0,
    ensures
        grid(t, n, display).width <= display.0,
        grid(t, n, display).height <= display.1,
{
    law_a_thumbnail_is_the_box_divided_by_the_caps(t, n, display);
    let g = grid(t, n, display);
    let (cols, rows) = (at_least(t.max_cols as int, 1), at_least(t.max_rows as int, 1));
    if roomy_across(t, display) {
        lemma_quotient_is_positive(room(t.max_w, display.0) - 2 * t.margin + t.gap, cols);
        lemma_fewer_take_less(g.cols, cols, g.elem_w, g.gap);
    }
    if roomy_down(t, display) {
        lemma_quotient_is_positive(room(t.max_h, display.1) - 2 * t.margin + t.gap, rows);
        lemma_fewer_take_less(g.visible_rows, rows, g.elem_h, g.gap);
    }
}

proof fn lemma_quotient_is_positive(a: int, b: int)
    requires
        a >= 0,
        b >= 1,
    ensures
        quot(a, b) >= 0,
{
    assert(a / b >= 0) by (nonlinear_arith)
        requires
            a >= 0,
            b >= 1,
    ;
}

proof fn lemma_fewer_take_less(few: int, many: int, elem: int, gap: int)
    requires
        1 <= few <= many,
        elem + gap >= 0,
    ensures
        few * elem + (few - 1) * gap <= many * elem + (many - 1) * gap,
{
    assert(few * elem + (few - 1) * gap <= many * elem + (many - 1) * gap) by (nonlinear_arith)
        requires
            1 <= few <= many,
            elem + gap >= 0,
    ;
}

/// The grid is balanced and within the caps: as many columns as the square root
/// of the count, rounded up, or as many as are allowed; just enough rows for
/// every tile; and no more of them on screen than there are or than are allowed.
pub proof fn law_grids_stay_balanced_and_within_the_caps(t: Theme, n: int, display: (i32, i32))
    requires
        n >= 0,
    ensures
        ({
            let g = grid(t, n, display);
            let (cols, rows) = (at_least(t.max_cols as int, 1), at_least(t.max_rows as int, 1));
            &&& g.cols <= cols
            &&& g.cols < cols ==> g.cols * g.cols >= n
            &&& n > 0 ==> (g.cols - 1) * (g.cols - 1) < n
            &&& n <= g.rows * g.cols < n + g.cols
            &&& g.visible_rows <= rows
            &&& n > 0 ==> g.visible_rows <= g.rows
            &&& g.visible_rows < rows && n > 0 ==> g.visible_rows == g.rows
        }),
{
    let g = grid(t, n, display);
    lemma_ceil_sqrt(n as nat);
    lemma_rows(n, g.cols);
    let c = ceil_sqrt(n as nat);
    if n > 0 {
        let k = g.cols;
        assert((k - 1) * (k - 1) <= (c - 1) * (c - 1)) by (nonlinear_arith)
            requires
                1 <= k <= c,
        ;
    }
}

/// Labels take their room from the thumbnail: without them a thumbnail is taller
/// by just the row a label took, and the overlay is no shorter, wherever the box
/// leaves a labelled thumbnail a pixel; and it is nowhere shorter than with them.
/// A row of negative height has no room to take.
pub proof fn law_labels_take_their_room_from_the_thumbnail(
    with: Theme,
    without: Theme,
    n: int,
    display: (i32, i32),
)
    requires
        with.labels,
        with.label_row() >= 0,
        without == (Theme { labels: false, ..with }),
    ensures
        grid(without, n, display).width == grid(with, n, display).width,
        grid(without, n, display).tile_h >= grid(with, n, display).tile_h,
        roomy_down(with, display) ==> grid(without, n, display).tile_h == grid(
            with,
            n,
            display,
        ).tile_h + with.label_row() && grid(without, n, display).height == grid(
            with,
            n,
            display,
        ).height,
{
}

/// The thumb of a scrollbar stays on its track, starts at the top of it and ends
/// at the bottom.
pub proof fn law_the_thumb_stays_on_its_track(g: Grid, scroll: int, width: int)
    requires
        g.wf(),
        g.max_scroll() > 0,
        0 <= scroll <= g.max_scroll(),
        0 <= width <= g.height - 2 * g.margin,
    ensures
        g.track(width).encloses(g.thumb(scroll, width)),
        g.thumb(0, width).y == g.track(width).y,
        g.thumb(g.max_scroll(), width).y + g.thumb(g.max_scroll(), width).h == g.track(width).y
            + g.track(width).h,
{
    lemma_grid_rows(g);
    let h = g.track(width).h;
    let (v, rows) = (g.visible_rows, g.rows);
    lemma_share(h, v, rows);
    let travel = h - g.thumb(scroll, width).h;
    let max = g.max_scroll();
    assert(0 <= travel * scroll / max <= travel) by (nonlinear_arith)
        requires
            0 <= travel,
            0 <= scroll <= max,
            max > 0,
    ;
    assert(travel * 0 / max == 0) by (nonlinear_arith)
        requires
            max > 0,
    ;
    assert(travel * max / max == travel) by (nonlinear_arith)
        requires
            max > 0,
    ;
    assert(0 <= travel * scroll && 0 <= travel * max) by (nonlinear_arith)
        requires
            0 <= travel,
            0 <= scroll,
            max > 0,
    ;
}

/// What is fitted into a box lies inside it, fills it along one axis, and keeps
/// its proportions to within a pixel.
pub proof fn law_a_fit_keeps_its_proportions(w: int, h: int, into: Area)
    requires
        w > 0,
        h > 0,
        into.w >= 1,
        into.h >= 1,
    ensures
        into.encloses(fitted(w, h, into)),
        fitted(w, h, into).w == into.w || fitted(w, h, into).h == into.h,
        1 < fitted(w, h, into).h < into.h ==> fitted(w, h, into).h * w
            <= into.w * h < (fitted(w, h, into).h + 1) * w,
        1 < fitted(w, h, into).w < into.w ==> fitted(w, h, into).w * h
            <= into.h * w < (fitted(w, h, into).w + 1) * h,
{
    let (bw, bh) = (into.w, into.h);
    assert(bw * h >= 0 && bh * w >= 0) by (nonlinear_arith)
        requires
            bw >= 1,
            bh >= 1,
            w > 0,
            h > 0,
    ;
    vstd::arithmetic::div_mod::lemma_fundamental_div_mod(bw * h, w);
    vstd::arithmetic::div_mod::lemma_fundamental_div_mod(bh * w, h);
    let tall = bw * h / w;
    let wide = bh * w / h;
    assert(w * tall == tall * w && h * wide == wide * h && (tall + 1) * w == tall * w + w && (wide
        + 1) * h == wide * h + h) by (nonlinear_arith);
    assert(tall >= 0) by (nonlinear_arith)
        requires
            tall * w > bw * h - w,
            bw * h >= 0,
            w > 0,
    ;
    if tall > bh {
        // The box is too low: bh < bw * h / w, so bh * w / h is less than bw.
        assert(wide <= bw) by (nonlinear_arith)
            requires
                tall * w <= bw * h,
                tall > bh,
                wide * h <= bh * w,
                w > 0,
                h > 0,
        ;
    }
}

/// Moving by rows keeps the column, unless the last row has no tile there, and
/// then it is the last tile; it never leaves the grid, and moving back undoes a
/// move that was not cut short.
pub proof fn law_a_row_step_keeps_the_column(g: Grid, i: int, by: int)
    requires
        g.wf(),
        0 <= i < g.n,
    ensures
        ({
            let j = g.step_row(i, by);
            &&& 0 <= j < g.n
            &&& j % g.cols == i % g.cols || j == g.n - 1
            &&& 0 <= i / g.cols + by < g.rows && j % g.cols == i % g.cols ==> j / g.cols == i
                / g.cols + by && g.step_row(j, -by) == i
        }),
{
    lemma_rows(g.n, g.cols);
    vstd::arithmetic::div_mod::lemma_fundamental_div_mod(i, g.cols);
    let c = g.cols;
    let (row, col) = (i / c, i % c);
    let to = within(row + by, 0, g.rows - 1);
    let j = g.step_row(i, by);
    assert(c * row == row * c) by (nonlinear_arith);
    assert(to * c >= 0) by (nonlinear_arith)
        requires
            to >= 0,
            c >= 1,
    ;
    vstd::arithmetic::div_mod::lemma_fundamental_div_mod_converse(to * c + col, c, to, col);
    if j == to * c + col {
        assert(j / c == to);
    } else if j % c == col {
        // The last tile is in this column, but in the row above.
        vstd::arithmetic::div_mod::lemma_fundamental_div_mod(j, c);
        let q = j / c;
        assert(c * q == q * c) by (nonlinear_arith);
        assert(q < to) by (nonlinear_arith)
            requires
                q * c + col < to * c + col,
                c >= 1,
        ;
        assert(q * c <= (g.rows - 2) * c) by (nonlinear_arith)
            requires
                q < to,
                to <= g.rows - 1,
                c >= 1,
        ;
        let rows = g.rows;
        assert((rows - 2) * c == rows * c - 2 * c) by (nonlinear_arith);
        assert(false);
    }
}

/// Division rounds towards zero: what is left over is less than the divisor, and
/// on the side of what was divided.
pub proof fn law_division_rounds_towards_zero(a: int, b: int)
    requires
        b > 0,
    ensures
        a >= 0 ==> quot(a, b) >= 0 && b * quot(a, b) <= a < b * quot(a, b) + b,
        a <= 0 ==> quot(a, b) <= 0 && b * quot(a, b) - b < a <= b * quot(a, b),
{
    let c = if a >= 0 {
        a
    } else {
        -a
    };
    lemma_quot_size(a, b);
    vstd::arithmetic::div_mod::lemma_fundamental_div_mod(c, b);
    let q = c / b;
    assert(b * (-q) == -(b * q)) by (nonlinear_arith);
}

/// An area covers its pixels, from its corner on and as far as it is long.
pub proof fn law_an_area_covers_its_pixels(a: Area, b: Area, x: int, y: int)
    ensures
        a.covers(x, y) <==> 0 <= x - a.x < a.w && 0 <= y - a.y < a.h,
        a.encloses(b) && b.covers(x, y) ==> a.covers(x, y),
        b.w > 0 && b.h > 0 ==> (a.encloses(b) <==> a.covers(b.x, b.y) && a.covers(
            b.x + b.w - 1,
            b.y + b.h - 1,
        )),
{
}

/// To scale, every measure of an area is multiplied.
pub proof fn law_a_scale_multiplies_every_measure(a: Area, scale: int)
    ensures
        a.times(scale).x == scale * a.x,
        a.times(scale).y == scale * a.y,
        a.times(scale).w == scale * a.w,
        a.times(scale).h == scale * a.h,
        a.times(1) == a,
{
    let (x, y, w, h) = (a.x, a.y, a.w, a.h);
    assert(x * scale == scale * x && y * scale == scale * y && w * scale == scale * w && h * scale
        == scale * h && x * 1 == x && y * 1 == y && w * 1 == w && h * 1 == h)
        by (nonlinear_arith);
}

/// A grid has its lengths from the theme, and as many tiles as are asked for.
pub proof fn law_a_grid_has_its_lengths_from_the_theme(t: Theme, n: int, display: (i32, i32))
    ensures
        ({
            let g = grid(t, n, display);
            &&& g.margin == t.margin && g.gap == t.gap && g.pad == t.pad
            &&& g.spacing == t.spacing && g.line_h == t.line_h && g.labels == t.labels
            &&& n >= 0 ==> g.n == n
            &&& n < 0 ==> g.n == 0
            &&& g.tile(0, 0).w == g.elem_w - 2 * t.pad
            &&& g.tile(0, 0).h == g.tile_h
            &&& g.elem_h == g.tile_h + 2 * t.pad + if t.labels {
                t.spacing + t.line_h
            } else {
                0
            }
            &&& g.tile_h >= 1 && g.elem_w >= 1 + 2 * t.pad
        }),
{
}

/// The overlay hugs its elements: the first stands at the margin, each a gap
/// after the one before it, across and down, and the margin follows the last.
pub proof fn law_elements_stand_in_rows_and_columns(g: Grid, col: int, row: int)
    requires
        g.wf(),
    ensures
        g.elem_at(0, 0).x == g.margin && g.elem_at(0, 0).y == g.margin,
        g.elem_at(col + 1, row).x == g.elem_at(col, row).x + g.elem_w + g.gap,
        g.elem_at(col + 1, row).y == g.elem_at(col, row).y,
        g.elem_at(col, row + 1).y == g.elem_at(col, row).y + g.elem_h + g.gap,
        g.elem_at(col, row + 1).x == g.elem_at(col, row).x,
        g.elem_at(col, row).w == g.elem_w && g.elem_at(col, row).h == g.elem_h,
        g.elem_at(g.cols - 1, row).x + g.elem_w + g.margin == g.width,
        g.elem_at(col, g.visible_rows - 1).y + g.elem_h + g.margin == g.height,
{
    let (pw, ph) = (g.elem_w + g.gap, g.elem_h + g.gap);
    let (c, v, ew, eh, gap) = (g.cols, g.visible_rows, g.elem_w, g.elem_h, g.gap);
    assert(0 * pw == 0 && 0 * ph == 0);
    assert((col + 1) * pw == col * pw + pw && (row + 1) * ph == row * ph + ph)
        by (nonlinear_arith);
    assert(c * ew + (c - 1) * gap == (c - 1) * (ew + gap) + ew) by (nonlinear_arith);
    assert(v * eh + (v - 1) * gap == (v - 1) * (eh + gap) + eh) by (nonlinear_arith);
}

/// Tiles fill the grid row by row: tile `i` stands in the column and the row
/// that its number gives, counted from the first row on screen.
pub proof fn law_tiles_fill_the_grid_row_by_row(g: Grid, col: int, row: int, scroll: int)
    requires
        g.wf(),
        0 <= col < g.cols,
    ensures
        g.elem(row * g.cols + col, scroll) == g.elem_at(col, row - scroll),
        g.tile(row * g.cols + col, scroll) == g.tile_at(col, row - scroll),
        g.label(row * g.cols + col, scroll) == g.label_at(col, row - scroll),
        g.shows(row * g.cols + col, scroll) <==> 0 <= row * g.cols + col < g.n && scroll <= row
            < scroll + g.visible_rows,
{
    vstd::arithmetic::div_mod::lemma_fundamental_div_mod_converse(
        row * g.cols + col,
        g.cols,
        row,
        col,
    );
}

/// A thumbnail's box stands in its element inside the padding, and its label a
/// spacing below it.
pub proof fn law_boxes_stand_in_their_element(g: Grid, col: int, row: int)
    ensures
        ({
            let (e, t, l) = (g.elem_at(col, row), g.tile_at(col, row), g.label_at(col, row));
            &&& t.x == e.x + g.pad && t.y == e.y + g.pad
            &&& t.w + 2 * g.pad == e.w && t.h == g.tile_h
            &&& l.x == t.x && l.w == t.w && l.h == g.line_h
            &&& l.y == t.y + t.h + g.spacing
        }),
{
}

/// The viewport scrolls as far as there are rows that are not on screen.
pub proof fn law_the_viewport_scrolls_to_the_last_row(g: Grid)
    requires
        g.wf(),
        g.n > 0,
    ensures
        g.max_scroll() + g.visible_rows == g.rows,
        g.shows(g.n - 1, g.max_scroll()),
        g.shows(0, 0),
{
    lemma_rows(g.n, g.cols);
    assert(0int / g.cols == 0) by (nonlinear_arith)
        requires
            g.cols >= 1,
    ;
    let (rows, c, n) = (g.rows, g.cols, g.n);
    vstd::arithmetic::div_mod::lemma_fundamental_div_mod(n - 1, c);
    let (q, r) = ((n - 1) / c, (n - 1) % c);
    assert(q == rows - 1) by (nonlinear_arith)
        requires
            c * q + r == n - 1,
            0 <= r < c,
            n <= rows * c < n + c,
            c >= 1,
    ;
}

/// The scrollbar stands in the middle of the right margin, as high as the grid
/// between its margins; its thumb is the share of it that the rows on screen are
/// of all, and as far down as the viewport has scrolled.
pub proof fn law_the_scrollbar_shows_where_the_viewport_is(g: Grid, scroll: int, width: int)
    requires
        g.wf(),
        g.max_scroll() > 0,
        0 <= scroll <= g.max_scroll(),
        0 <= width,
        g.height >= 2 * g.margin,
    ensures
        ({
            let (track, thumb) = (g.track(width), g.thumb(scroll, width));
            &&& track.w == width && track.y == g.margin && track.h == g.height - 2 * g.margin
            &&& -1 <= 2 * track.x + width - (2 * g.width - g.margin) <= 1
            &&& thumb.x == track.x && thumb.w == width
            &&& thumb.h >= width
            &&& track.h * g.visible_rows < g.rows * (thumb.h + 1)
            &&& thumb.h > width ==> g.rows * thumb.h <= track.h * g.visible_rows < g.rows * (thumb.h
                + 1)
            &&& thumb.h <= track.h ==> g.max_scroll() * (thumb.y - track.y) <= (track.h - thumb.h)
                * scroll < g.max_scroll() * (thumb.y - track.y + 1)
        }),
{
    lemma_grid_rows(g);
    let (track, thumb) = (g.track(width), g.thumb(scroll, width));
    let all = track.h * g.visible_rows;
    let (h, v, max) = (track.h, g.visible_rows, g.max_scroll());
    assert(all >= 0) by (nonlinear_arith)
        requires
            all == h * v,
            h >= 0,
            v >= 0,
    ;
    law_division_rounds_towards_zero(all, g.rows);
    let (rows, share) = (g.rows, quot(all, g.rows));
    assert(rows * (share + 1) == rows * share + rows) by (nonlinear_arith);
    let span = thumb.h;
    assert(rows * (share + 1) <= rows * (span + 1)) by (nonlinear_arith)
        requires
            share <= span,
            rows >= 0,
    ;
    let travel = track.h - thumb.h;
    let way = travel * scroll;
    if travel >= 0 {
        assert(way >= 0) by (nonlinear_arith)
            requires
                way == travel * scroll,
                travel >= 0,
                scroll >= 0,
        ;
        law_division_rounds_towards_zero(way, max);
        let q = quot(way, max);
        assert(max * (q + 1) == max * q + max) by (nonlinear_arith);
    }
}

/// What fits into a box stands in the middle of it, to within a pixel.
pub proof fn law_a_fit_is_centred(w: int, h: int, into: Area)
    requires
        w > 0,
        h > 0,
    ensures
        -1 <= 2 * fitted(w, h, into).x + fitted(w, h, into).w - (2 * into.x + into.w) <= 1,
        -1 <= 2 * fitted(w, h, into).y + fitted(w, h, into).h - (2 * into.y + into.h) <= 1,
{
    let f = fitted(w, h, into);
    let (a, b) = (into.w - f.w, into.h - f.h);
    assert(f.x - into.x == quot(a, 2) && f.y - into.y == quot(b, 2));
}

/// What has no size fills its box.
pub proof fn law_what_has_no_size_fills_its_box(w: int, h: int, into: Area)
    requires
        w <= 0 || h <= 0,
    ensures
        fitted(w, h, into) == into,
{
}

/// What a theme shows is what it holds.
pub proof fn law_a_theme_shows_what_it_holds(t: Theme)
    ensures
        t@.bg == t.bg && t@.fg == t.fg && t@.sel_bg == t.sel_bg && t@.sel_fg == t.sel_fg
            && t@.border == t.border && t@.border_px == t.border_px,
        t@.max_w == t.max_w && t@.max_h == t.max_h && t@.max_cols == t.max_cols && t@.max_rows
            == t.max_rows,
        t@.pad == t.pad && t@.gap == t.gap && t@.margin == t.margin && t@.spacing == t.spacing
            && t@.line_h == t.line_h && t@.labels == t.labels,
        t@.font == t.font@ && t@.font_px == t.font_px.text@,
{
}

/// What a layout and a rectangle show is what they hold.
pub proof fn law_a_layout_shows_what_it_holds(l: Layout, r: Rect)
    ensures
        l@.cols == l.cols && l@.rows == l.rows && l@.visible_rows == l.visible_rows && l@.n == l.n,
        l@.width == l.width && l@.height == l.height && l@.elem_w == l.elem_w && l@.elem_h
            == l.elem_h && l@.tile_h == l.tile_h,
        l@.margin == l.margin && l@.gap == l.gap && l@.pad == l.pad && l@.spacing == l.spacing
            && l@.line_h == l.line_h && l@.labels == l.labels,
        r@.x == r.x && r@.y == r.y && r@.w == r.w && r@.h == r.h,
        area_of(Some(r)) == Some(r@),
        area_of(None) is None,
{
}

/// What is fitted is as high as its box only where the box is no higher for its
/// width, and as wide only where it is no wider for its height: nothing is
/// stretched, but for a box of a single pixel.
pub proof fn law_a_fit_stretches_nothing(w: int, h: int, into: Area)
    requires
        w > 0,
        h > 0,
        into.w >= 1,
        into.h >= 1,
    ensures
        fitted(w, h, into).h == into.h && into.h > 1 ==> into.h * w <= into.w * h,
        fitted(w, h, into).w == into.w && into.w > 1 ==> into.w * h < (into.h + 1) * w,
{
    let (bw, bh) = (into.w, into.h);
    assert(bw * h >= 0 && bh * w >= 0) by (nonlinear_arith)
        requires
            bw >= 1,
            bh >= 1,
            w > 0,
            h > 0,
    ;
    law_division_rounds_towards_zero(bw * h, w);
    law_division_rounds_towards_zero(bh * w, h);
    let (tall, wide) = (quot(bw * h, w), quot(bh * w, h));
    if tall > bh {
        assert(bh * w <= bw * h) by (nonlinear_arith)
            requires
                w * tall <= bw * h,
                tall > bh,
                w > 0,
        ;
        if wide >= bw {
            assert(false) by (nonlinear_arith)
                requires
                    w * tall <= bw * h,
                    tall > bh,
                    h * wide <= bh * w,
                    wide >= bw,
                    w > 0,
                    h > 0,
            ;
        }
    } else {
        assert(bw * h < (bh + 1) * w) by (nonlinear_arith)
            requires
                bw * h < w * tall + w,
                tall <= bh,
                w > 0,
        ;
        if tall == bh {
            assert(bh * w <= bw * h) by (nonlinear_arith)
                requires
                    w * tall <= bw * h,
                    tall == bh,
            ;
        }
    }
}

/// A look that nothing was changed of is dark, with a yellow selection and
/// border, and shows up to four by four labelled tiles.
pub proof fn law_the_look_starts_out_the_same()
    ensures
        ({
            let l = Look::standard();
            &&& l.bg == 0xff28_2828 && l.fg == 0xffeb_dbb2
            &&& l.sel_bg == 0xffd7_9921 && l.sel_fg == l.bg && l.border == l.sel_bg
            &&& l.max_cols == 4 && l.max_rows == 4
            &&& l.border_px == 2 && l.pad == 12 && l.margin == 12 && l.gap == 15
            &&& l.spacing == 10 && l.line_h == 17
            &&& l.max_w == 1152 && l.max_h == 1296
            &&& l.font == "monospace"@ && l.font_px == "13.3"@
            &&& l.labels
        }),
{
}

} // verus!
