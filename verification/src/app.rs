//! The client: what the picker knows while its overlay is open.
//!
//! `App` is the one state that every event goes into, so it holds the tiles, the
//! grid, and where the selection, the viewport and the pointer are. The work
//! itself lives next door: [`crate::capture`] drives the sessions,
//! [`crate::overlay`] draws and reads the keyboard.

use vstd::prelude::*;
use vstd::string::*;

use crate::capture;
use crate::capture::{Live, Shot, Tile};
use crate::overlay;
use crate::overlay::Hover;
use crate::shm::{Chrome, SLOTS};
use crate::target;
use crate::target::{Format, Record, Target};
use crate::theme;
use crate::theme::{Grid, Layout, Theme, is_coordinate, scales};
use crate::words;
use crate::words::{i64_text, join, quote, u64_text};

verus! {

/// What the caller decided before any of this started: the look, and how much
/// live capture to do. Passed as one value because `theme`, `live`, `fps` and
/// `scale` all arrive together and two of them are bare integers.
pub struct Settings {
    pub theme: Theme,
    pub live: Live,
    pub fps: u32,
    /// Integer scale of the display the overlay renders on.
    pub scale: i32,
    /// That display's name, so the overlay maps there rather than wherever the
    /// compositor would have put it.
    pub output: String,
}

/// Counters worth reporting with --verbose. Live capture is easy to get subtly
/// wrong (a starved buffer pool or a clock that never ticks both look like
/// "nothing updates"), so the numbers that distinguish those stay available.
#[derive(Clone, Copy, Debug)]
pub struct Stats {
    /// Frame callbacks received, i.e. how often the live clock fired.
    pub ticks: u32,
    /// Re-captures skipped because every buffer was still held.
    pub starved: u32,
    /// Bytes of shared memory handed to the compositor for capture buffers.
    pub pool_bytes: usize,
}

impl Default for Stats {
    fn default() -> (s: Self)
        ensures
            s == (Stats { ticks: 0, starved: 0, pool_bytes: 0 }),
    {
        Stats { ticks: 0, starved: 0, pool_bytes: 0 }
    }
}

/// Why the overlay stopped, for --verbose. An exit status of 1 cannot tell a
/// cancel from a surface the compositor took away.
#[derive(Clone, Copy, PartialEq, Eq, Structural, Debug)]
pub enum Ending {
    Running,
    Picked,
    Cancelled,
    Closed,
    Unfocused,
}

impl Ending {
    pub open spec fn words(self) -> Seq<char> {
        match self {
            Ending::Running => "still running"@,
            Ending::Picked => "picked"@,
            Ending::Cancelled => "cancelled"@,
            Ending::Closed => "the compositor closed the overlay"@,
            Ending::Unfocused => "the keyboard went to another surface"@,
        }
    }

    pub fn as_str(self) -> (r: &'static str)
        ensures
            r@ == self.words(),
    {
        match self {
            Ending::Running => "still running",
            Ending::Picked => "picked",
            Ending::Cancelled => "cancelled",
            Ending::Closed => "the compositor closed the overlay",
            Ending::Unfocused => "the keyboard went to another surface",
        }
    }
}

/// That a grid can be drawn at that scale: there is something to draw, the two
/// pictures of it fit in a pool that 32 bits can measure, and those can say where
/// its border, its boxes and its scrollbar are.
pub open spec fn drawable(t: Theme, g: Grid, scale: int) -> bool {
    &&& scale >= 1
    &&& g.width >= 1
    &&& g.height >= 1
    &&& (g.width * scale) * (g.height * scale) * 4 * SLOTS <= i32::MAX
    &&& theme::is_i32(t.border_px * scale)
    &&& theme::is_i32(g.width * scale - t.border_px * scale)
    &&& theme::is_i32(g.height * scale - t.border_px * scale)
    &&& g.n > 0 ==> boxes_scale(g, scale, 0, 0) && boxes_scale(
        g,
        scale,
        g.cols - 1,
        g.visible_rows - 1,
    )
    &&& g.max_scroll() > 0 ==> bar_scales(g, scale, g.max_scroll())
}

/// That the boxes in that column and row can be drawn at that scale.
pub open spec fn boxes_scale(g: Grid, scale: int, col: int, row: int) -> bool {
    &&& g.elem_at(col, row).times(scale).fits()
    &&& g.labels ==> g.label_at(col, row).times(scale).fits()
}

/// That the scrollbar can be, with the viewport at `scroll`.
pub open spec fn bar_scales(g: Grid, scale: int, scroll: int) -> bool {
    let width = overlay::bar_width(g.margin);
    g.track(width).times(scale).fits() && g.thumb(scroll, width).times(scale).fits()
}

/// The boxes on screen can be drawn where the outermost can.
pub proof fn lemma_boxes_scale(t: Theme, g: Grid, scale: int, i: int, scroll: int)
    requires
        g.wf(),
        drawable(t, g, scale),
        g.shows(i, scroll),
    ensures
        boxes_scale(g, scale, i % g.cols, i / g.cols - scroll),
{
    let (col, row) = (i % g.cols, i / g.cols - scroll);
    let (across, down) = (g.elem_w + g.gap, g.elem_h + g.gap);
    vstd::arithmetic::div_mod::lemma_fundamental_div_mod(i, g.cols);
    theme::lemma_between(col, g.cols, across, scale);
    theme::lemma_between(row, g.visible_rows, down, scale);
    let (right, bottom) = ((g.cols - 1) * across, (g.visible_rows - 1) * down);
    let (x, y) = (col * across, row * down);
    lemma_shifted(g.margin, x, right, scale);
    lemma_shifted(g.margin, y, bottom, scale);
    lemma_shifted(g.margin + g.pad, x, right, scale);
    lemma_shifted(g.margin + g.pad + g.tile_h + g.spacing, y, bottom, scale);
}

/// What is between two places stays between them, moved and drawn to scale.
proof fn lemma_shifted(from: int, a: int, last: int, scale: int)
    requires
        0 <= a <= last || last <= a <= 0,
        scale >= 1,
    ensures
        from * scale <= (from + a) * scale <= (from + last) * scale || (from + last) * scale <= (
        from + a) * scale <= from * scale,
{
    assert(from * scale <= (from + a) * scale <= (from + last) * scale || (from + last) * scale <= (
    from + a) * scale <= from * scale) by (nonlinear_arith)
        requires
            0 <= a <= last || last <= a <= 0,
            scale >= 1,
    ;
}

/// The scrollbar can be drawn wherever the viewport is, if it can at the end.
pub proof fn lemma_bar_scales(t: Theme, g: Grid, scale: int, scroll: int)
    requires
        g.wf(),
        drawable(t, g, scale),
        g.max_scroll() > 0,
        0 <= scroll <= g.max_scroll(),
    ensures
        bar_scales(g, scale, scroll),
        g.track(overlay::bar_width(g.margin)).fits(),
        g.thumb(scroll, overlay::bar_width(g.margin)).fits(),
{
    let width = overlay::bar_width(g.margin);
    let (track, thumb) = (g.track(width), g.thumb(scroll, width));
    let (max, travel) = (g.max_scroll(), track.h - thumb.h);
    theme::lemma_share(travel, scroll, max);
    assert(travel * max / max == travel && (-travel) * max / max == -travel) by (nonlinear_arith)
        requires
            max > 0,
    ;
    assert(-(travel * max) == (-travel) * max) by (nonlinear_arith);
    lemma_shifted(g.margin, thumb.y - g.margin, travel, scale);
    assert(thumb.times(scale).fits());
    lemma_unscaled(track, scale);
    lemma_unscaled(thumb, scale);
}

/// What fits at a scale fits without it.
proof fn lemma_unscaled(a: theme::Area, scale: int)
    requires
        scale >= 1,
        a.times(scale).fits(),
    ensures
        a.fits(),
{
    lemma_larger(a.x, scale);
    lemma_larger(a.y, scale);
    lemma_larger(a.w, scale);
    lemma_larger(a.h, scale);
}

proof fn lemma_larger(v: int, scale: int)
    requires
        scale >= 1,
    ensures
        0 <= v <= v * scale || v * scale <= v <= 0,
{
    assert(0 <= v <= v * scale || v * scale <= v <= 0) by (nonlinear_arith)
        requires
            scale >= 1,
    ;
}

impl Settings {
    /// Whether the grid can be drawn with these settings, for a caller that does
    /// not know.
    pub fn can_draw(&self, layout: &Layout) -> (r: bool)
        requires
            layout.wf(),
        ensures
            r == drawable(self.theme, layout@, self.scale as int),
    {
        if self.scale < 1 || layout.width < 1 || layout.height < 1 {
            return false;
        }
        let scale: i128 = self.scale as i128;
        let (w, h) = (layout.width as i128, layout.height as i128);
        let border: i128 = self.theme.border_px as i128;
        proof {
            lemma_products(w as int, h as int, scale as int, border as int);
        }
        let (pw, ph, frame) = (w * scale, h * scale, border * scale);
        if pw > i32::MAX as i128 || ph > i32::MAX as i128 {
            proof {
                lemma_large_pictures(pw as int, ph as int);
            }
            return false;
        }
        assert(0 <= pw * ph <= 0x8000_0000 * 0x8000_0000) by (nonlinear_arith)
            requires
                0 <= pw <= 0x8000_0000,
                0 <= ph <= 0x8000_0000,
        ;
        pw * ph * 4 * (SLOTS as i128) <= i32::MAX as i128 && is_coordinate(frame) && is_coordinate(
            pw - frame,
        ) && is_coordinate(ph - frame) && (layout.n == 0 || corner_scales(
            layout,
            self.scale,
            0,
            0,
        ) && corner_scales(layout, self.scale, layout.cols - 1, layout.visible_rows - 1)) && (
        !layout.scrollable() || layout.bar_scales(
            layout.max_scroll(),
            overlay::scrollbar_width(layout.margin),
            self.scale,
        ))
    }
}

/// Whether the boxes in that column and row can be drawn at that scale.
fn corner_scales(layout: &Layout, scale: i32, col: i32, row: i32) -> (r: bool)
    requires
        layout.wf(),
        layout@.n > 0,
        0 <= col < layout@.cols,
        0 <= row < layout@.visible_rows,
    ensures
        r == boxes_scale(layout@, scale as int, col as int, row as int),
{
    scales(layout.elem_box(col, row), scale) && (!layout.labels || scales(
        layout.label_box(col, row),
        scale,
    ))
}

proof fn lemma_products(w: int, h: int, scale: int, border: int)
    requires
        1 <= w <= 0x7fff_ffff,
        1 <= h <= 0x7fff_ffff,
        1 <= scale <= 0x7fff_ffff,
        -0x8000_0000 <= border <= 0x7fff_ffff,
    ensures
        1 <= w * scale <= 0x7fff_ffff * 0x7fff_ffff,
        1 <= h * scale <= 0x7fff_ffff * 0x7fff_ffff,
        -0x8000_0000 * 0x7fff_ffff <= border * scale <= 0x7fff_ffff * 0x7fff_ffff,
{
    assert(1 <= w * scale <= 0x7fff_ffff * 0x7fff_ffff) by (nonlinear_arith)
        requires
            1 <= w <= 0x7fff_ffff,
            1 <= scale <= 0x7fff_ffff,
    ;
    assert(1 <= h * scale <= 0x7fff_ffff * 0x7fff_ffff) by (nonlinear_arith)
        requires
            1 <= h <= 0x7fff_ffff,
            1 <= scale <= 0x7fff_ffff,
    ;
    assert(-0x8000_0000 * 0x7fff_ffff <= border * scale <= 0x7fff_ffff * 0x7fff_ffff)
        by (nonlinear_arith)
        requires
            -0x8000_0000 <= border <= 0x7fff_ffff,
            1 <= scale <= 0x7fff_ffff,
    ;
}

/// A picture with a side past 32 bits is past them itself.
proof fn lemma_large_pictures(pw: int, ph: int)
    requires
        pw >= 1,
        ph >= 1,
        pw > i32::MAX || ph > i32::MAX,
    ensures
        pw * ph * 4 * SLOTS > i32::MAX,
{
    assert(pw * ph >= pw && pw * ph >= ph) by (nonlinear_arith)
        requires
            pw >= 1,
            ph >= 1,
    ;
}

// --- the state -------------------------------------------------------------
pub struct App {
    /// The identifier of each toplevel, in the order the compositor announces
    /// them, empty until it has told it: what joins them to sway's tree.
    pub toplevels: Vec<String>,
    /// The name of each display, empty until the compositor has told it.
    pub outputs: Vec<String>,
    /// Whether the compositor can capture a display. Without it there are simply
    /// no display thumbnails.
    pub output_sources: bool,
    pub tiles: Vec<Tile>,
    pub theme: Theme,
    pub layout: Layout,
    pub live: Live,
    pub fps: u32,
    pub scale: i32,
    pub sel: usize,
    /// First row of the grid on screen. The rest scroll.
    pub scroll: i32,
    pub shift: bool,
    /// Whether the overlay has the keyboard.
    pub focused: bool,
    /// Where the pointer is, and which tile it pressed. Hovering deliberately
    /// does not move the keyboard selection; a click acts on what is under the
    /// cursor instead.
    pub hover: Option<Hover>,
    pub pressed: Option<usize>,
    /// Whether the device that scrolls is a touchpad, and what its flick has
    /// come to since the last move, in 1/256 px.
    pub scroll_finger: bool,
    pub scroll_acc: i64,
    /// The picture of the overlay, once it is mapped; which of its buffers the
    /// compositor still reads; and whether a repaint waits for one.
    pub chrome: Option<Chrome>,
    pub chrome_busy: Vec<bool>,
    pub repaint_due: bool,
    pub configured: bool,
    /// The display the overlay maps on, by name.
    pub output: String,
    pub ending: Ending,
    pub picked: Option<Target>,
    pub stats: Stats,
}

/// What the state is.
#[verifier::ext_equal]
pub struct Model {
    pub toplevels: Seq<Seq<char>>,
    pub outputs: Seq<Seq<char>>,
    pub output_sources: bool,
    pub tiles: Seq<Shot>,
    pub theme: Theme,
    pub grid: Grid,
    pub live: Live,
    pub fps: u32,
    pub scale: int,
    pub sel: int,
    pub scroll: int,
    pub shift: bool,
    pub focused: bool,
    pub hover: Option<Hover>,
    pub pressed: Option<int>,
    pub scroll_finger: bool,
    pub scroll_acc: int,
    pub chrome: Option<Chrome>,
    pub chrome_busy: Seq<bool>,
    pub repaint_due: bool,
    pub configured: bool,
    pub output: Seq<char>,
    pub ending: Ending,
    pub picked: Option<Record>,
    pub stats: Stats,
}

/// What each of these tiles is.
pub open spec fn shots(s: Seq<Tile>) -> Seq<Shot> {
    s.map_values(|t: Tile| t@)
}

/// What a target that may not be there holds.
pub open spec fn record_of(t: Option<Target>) -> Option<Record> {
    match t {
        Some(t) => Some(t@),
        None => None,
    }
}

impl View for App {
    type V = Model;

    open spec fn view(&self) -> Model {
        Model {
            toplevels: words::texts(self.toplevels@),
            outputs: words::texts(self.outputs@),
            output_sources: self.output_sources,
            tiles: shots(self.tiles@),
            theme: self.theme,
            grid: self.layout@,
            live: self.live,
            fps: self.fps,
            scale: self.scale as int,
            sel: self.sel as int,
            scroll: self.scroll as int,
            shift: self.shift,
            focused: self.focused,
            hover: self.hover,
            pressed: capture::place(self.pressed),
            scroll_finger: self.scroll_finger,
            scroll_acc: self.scroll_acc as int,
            chrome: self.chrome,
            chrome_busy: self.chrome_busy@,
            repaint_due: self.repaint_due,
            configured: self.configured,
            output: self.output@,
            ending: self.ending,
            picked: record_of(self.picked),
            stats: self.stats,
        }
    }
}

impl Model {
    /// What holds in every state. The selection is on a tile, and that tile is
    /// on screen; the viewport stays on the grid; every tile is sound; the
    /// picture, once there is one, is the grid's at its scale; and nothing is
    /// picked while the overlay is open.
    pub open spec fn wf(self) -> bool {
        &&& self.grid.wf()
        &&& self.grid.n == self.tiles.len()
        &&& self.grid.margin == self.theme.margin
        &&& drawable(self.theme, self.grid, self.scale)
        &&& forall|i: int| 0 <= i < self.tiles.len() ==> (#[trigger] self.tiles[i]).wf()
        &&& 0 <= self.scroll <= self.grid.max_scroll()
        &&& if self.tiles.len() == 0 {
            self.sel == 0
        } else {
            self.grid.shows(self.sel, self.scroll)
        }
        &&& self.pressed matches Some(i) ==> 0 <= i < self.tiles.len()
        &&& -overlay::FINGER_STEP < self.scroll_acc < overlay::FINGER_STEP
        &&& self.chrome_busy.len() == SLOTS
        &&& self.chrome matches Some(c) ==> c.wf() && c.w == self.grid.width * self.scale && c.h
            == self.grid.height * self.scale
        &&& self.ending == Ending::Running ==> self.picked is None
    }

    /// The state before the first event.
    pub open spec fn start(
        targets: Seq<Record>,
        settings: Settings,
        grid: Grid,
        output_sources: bool,
    ) -> Model {
        Model {
            toplevels: Seq::empty(),
            outputs: Seq::empty(),
            output_sources,
            tiles: targets.map_values(|t: Record| Shot::fresh(t)),
            theme: settings.theme,
            grid,
            live: settings.live,
            fps: settings.fps,
            scale: settings.scale as int,
            sel: 0,
            scroll: 0,
            shift: false,
            focused: true,
            hover: None,
            pressed: None,
            scroll_finger: false,
            scroll_acc: 0,
            chrome: None,
            chrome_busy: seq![false, false],
            repaint_due: false,
            configured: false,
            output: settings.output@,
            ending: Ending::Running,
            picked: None,
            stats: Stats { ticks: 0, starved: 0, pool_bytes: 0 },
        }
    }

    pub open spec fn finished(self) -> bool {
        self.ending != Ending::Running
    }

    /// The overlay stopped, for that reason.
    pub open spec fn ended(self, ending: Ending) -> Model {
        Model { ending, ..self }
    }

    /// How many tiles have a thumbnail.
    pub open spec fn captured(self) -> int {
        ready_among(self.tiles)
    }
}

pub open spec fn ready_among(tiles: Seq<Shot>) -> int
    decreases tiles.len(),
{
    if tiles.len() == 0 {
        0
    } else {
        ready_among(tiles.drop_last()) + if tiles.last().ready {
            1int
        } else {
            0
        }
    }
}

/// How many frames these tiles have produced, as a 32-bit counter has it.
pub open spec fn frames_among(tiles: Seq<Shot>) -> int
    decreases tiles.len(),
{
    if tiles.len() == 0 {
        0
    } else {
        (frames_among(tiles.drop_last()) + tiles.last().frames) % 0x1_0000_0000
    }
}

/// What is to be said about the tiles that never delivered.
pub open spec fn complaints(tiles: Seq<Shot>) -> Seq<Seq<char>>
    decreases tiles.len(),
{
    if tiles.len() == 0 {
        Seq::empty()
    } else if tiles.last().settled {
        complaints(tiles.drop_last())
    } else {
        complaints(tiles.drop_last()).push(
            "wl-pick: no capture of "@ + words::quoted(tiles.last().target.title) + " in time"@,
        )
    }
}

/// One line of the tile list.
pub open spec fn listed(i: int, t: Shot) -> Seq<char> {
    "  ["@ + words::decimal(i) + "] "@ + t.target.tsv() + (if t.ready {
        Seq::empty()
    } else {
        "  (no thumbnail)"@
    })
}

impl Model {
    /// The geometry of the grid, in words.
    pub open spec fn geometry(self, family: Seq<char>) -> Seq<char> {
        "wl-pick: "@ + words::decimal(self.tiles.len() as int) + " tile(s), "@ + words::decimal(
            self.captured(),
        ) + " captured; grid "@ + words::decimal(self.grid.cols) + "x"@ + words::decimal(
            self.grid.rows,
        ) + ", surface "@ + words::decimal(self.grid.width) + "x"@ + words::decimal(
            self.grid.height,
        ) + " logical at scale "@ + words::decimal(self.scale) + ", "@ + words::decimal(
            self.stats.pool_bytes as int / 1048576,
        ) + " MB of capture buffers, labels in "@ + words::quoted(family)
    }

    /// What the grid is about to show: one line per tile, then the geometry.
    pub open spec fn description(self, family: Seq<char>) -> Seq<Seq<char>> {
        let tiles = Seq::new(self.tiles.len(), |i: int| listed(i, self.tiles[i])).push(
            self.geometry(family),
        );
        if self.grid.max_scroll() > 0 {
            tiles.push(
                "wl-pick: "@ + words::decimal(self.grid.visible_rows) + " of "@ + words::decimal(
                    self.grid.rows,
                ) + " rows fit; the rest scroll"@,
            )
        } else {
            tiles
        }
    }

    /// What live capture did: `secs` and `rate` say how long the overlay was
    /// open and how many frames a second that makes.
    pub open spec fn summary(self, secs: Seq<char>, rate: Seq<char>) -> Seq<char> {
        "wl-pick: "@ + self.ending.words() + ", "@ + words::decimal(frames_among(self.tiles))
            + " frame(s) over "@ + secs + "s = "@ + rate + "/s, "@ + words::decimal(
            self.stats.ticks as int,
        ) + " tick(s), "@ + words::decimal(self.stats.starved as int) + " starved; per tile: "@
            + words::joined(
            Seq::new(self.tiles.len(), |i: int| words::decimal(self.tiles[i].frames as int)),
            ","@,
        )
    }
}

/// What the program comes to.
pub enum Report {
    /// Nothing was picked: nothing is printed.
    Nothing,
    /// The line that reports the pick.
    Line(String),
    /// The pick cannot be named in the format that was asked for; what to say
    /// about it.
    Unnamed(String),
}

impl Report {
    /// The exit status: 0 for a pick and 1 for anything else.
    pub open spec fn code(self) -> u8 {
        if self is Line {
            0
        } else {
            1
        }
    }

    pub fn status(&self) -> (r: u8)
        ensures
            r == self.code(),
    {
        match self {
            Report::Line(_) => 0,
            _ => 1,
        }
    }
}

/// That this is what a state comes to: the pick in that format, and nothing
/// without one.
pub open spec fn reports(r: Report, m: Model, format: Format) -> bool {
    match m.picked {
        None => r is Nothing,
        Some(t) => match t.render(format) {
            Some(line) => r matches Report::Line(s) && s@ == line,
            None => r matches Report::Unnamed(s) && s@ == "wl-pick: "@ + words::quoted(t.title)
                + " has no toplevel identifier"@,
        },
    }
}

/// What follows an event, while the overlay is open.
#[derive(Clone, Copy, PartialEq, Eq, Structural, Debug)]
pub enum Step {
    /// The overlay is done.
    Done,
    /// Wait for the next event.
    Wait,
    /// The keyboard is gone: give it a moment to come back.
    Grace,
}

/// What a bounded wait for events does next.
#[derive(Clone, Copy, PartialEq, Eq, Structural, Debug)]
pub enum Wait {
    /// What was waited for came true.
    Done,
    /// Events arrived in the meantime: dispatch them first.
    Again,
    /// The time is up.
    GaveUp,
    /// Poll for that many nanoseconds at most.
    Poll(u64),
}

/// What a wait until `deadline` does next, once every event that was there has
/// been dispatched: `done` says whether what is waited for came true, and
/// `drained` whether nothing arrived since. Both times are in nanoseconds.
///
/// Every wait on a capture is bounded, because a compositor is entitled to
/// simply never answer, and an unbounded wait on that is a picker with no window
/// that has to be killed from another terminal.
pub fn bounded_wait(done: bool, drained: bool, now: u64, deadline: u64) -> (r: Wait)
    ensures
        r == (if done {
            Wait::Done
        } else if !drained {
            Wait::Again
        } else if now > deadline {
            Wait::GaveUp
        } else {
            Wait::Poll((deadline - now) as u64)
        }),
        r == waits(done, drained, now as int, deadline as int),
{
    if done {
        Wait::Done
    } else if !drained {
        Wait::Again
    } else if now > deadline {
        Wait::GaveUp
    } else {
        Wait::Poll(deadline - now)
    }
}

impl App {
    pub open spec fn wf(&self) -> bool {
        self@.wf()
    }

    pub fn new(
        targets: Vec<Target>,
        settings: Settings,
        layout: Layout,
        output_sources: bool,
    ) -> (app: App)
        requires
            layout.wf(),
            layout@.n == targets@.len(),
            layout@.margin == settings.theme.margin,
            drawable(settings.theme, layout@, settings.scale as int),
        ensures
            app.wf(),
            app@ == Model::start(target::records(targets@), settings, layout@, output_sources),
    {
        let ghost all = target::records(targets@);
        let mut tiles: Vec<Tile> = Vec::new();
        for i in 0..targets.len()
            invariant
                all == target::records(targets@),
                tiles@.len() == i,
                forall|k: int| 0 <= k < i ==> (#[trigger] tiles@[k])@ == Shot::fresh(all[k]),
        {
            tiles.push(Tile::new(targets[i].clone()));
        }
        let mut chrome_busy: Vec<bool> = Vec::new();
        chrome_busy.push(false);
        chrome_busy.push(false);
        let Settings { theme, live, fps, scale, output } = settings;
        let app = App {
            toplevels: Vec::new(),
            outputs: Vec::new(),
            output_sources,
            tiles,
            theme,
            layout,
            live,
            fps,
            scale,
            sel: 0,
            scroll: 0,
            shift: false,
            focused: true,
            hover: None,
            pressed: None,
            scroll_finger: false,
            scroll_acc: 0,
            chrome: None,
            chrome_busy,
            repaint_due: false,
            configured: false,
            output,
            ending: Ending::Running,
            picked: None,
            stats: Stats::default(),
        };
        proof {
            let want = Model::start(all, settings, layout@, output_sources);
            assert(app@.tiles =~= want.tiles);
            assert(app@.chrome_busy =~= want.chrome_busy);
            assert(app@ =~= want);
            if want.tiles.len() > 0 {
                assert(0int / layout@.cols == 0) by (nonlinear_arith)
                    requires
                        layout@.cols >= 1,
                ;
            }
        }
        app
    }

    pub fn finished(&self) -> (r: bool)
        ensures
            r == self@.finished(),
    {
        self.ending != Ending::Running
    }

    /// The pick, if there was one.
    pub fn picked(&self) -> (r: Option<&Target>)
        ensures
            match r {
                Some(t) => self@.picked == Some(t@),
                None => self@.picked is None,
            },
    {
        match &self.picked {
            Some(t) => Some(t),
            None => None,
        }
    }

    /// What to do after an event, while the overlay is open.
    ///
    /// The grab is what makes the overlay usable, so losing it for good ends the
    /// run: that is how a second picker, started from the same keybinding,
    /// replaces the first instead of leaving it stranded on screen. For *good*,
    /// because sway also cycles focus off and straight back on in a single batch
    /// as the pointer crosses the surface, so a leave is believed only once it
    /// has failed to come back.
    pub fn step(&self) -> (r: Step)
        ensures
            r == (if self@.finished() {
                Step::Done
            } else if self@.focused {
                Step::Wait
            } else {
                Step::Grace
            }),
            r == next_step(self@),
    {
        if self.finished() {
            Step::Done
        } else if self.focused {
            Step::Wait
        } else {
            Step::Grace
        }
    }

    /// The keyboard did not come back.
    pub fn keyboard_lost(&mut self)
        requires
            old(self).wf(),
        ensures
            final(self).wf(),
            final(self)@ == old(self)@.ended(Ending::Unfocused),
    {
        self.ending = Ending::Unfocused;
    }

    /// What the program comes to, once the overlay is closed.
    pub fn report_pick(&self, format: Format) -> (r: Report)
        ensures
            reports(r, self@, format),
    {
        let target = match self.picked() {
            Some(t) => t,
            None => return Report::Nothing,
        };
        match target.render(format) {
            Some(line) => Report::Line(line),
            None => {
                let mut message = "wl-pick: ".to_owned();
                message.append(quote(target.title.as_str()).as_str());
                message.append(" has no toplevel identifier");
                Report::Unnamed(message)
            },
        }
    }

    pub fn captures_settled(&self) -> (r: bool)
        ensures
            r == forall|i: int| 0 <= i < self@.tiles.len() ==> (#[trigger] self@.tiles[i]).settled,
    {
        for i in 0..self.tiles.len()
            invariant
                forall|k: int| 0 <= k < i ==> (#[trigger] self@.tiles[k]).settled,
        {
            if !self.tiles[i].settled {
                assert(!self@.tiles[i as int].settled);
                return false;
            }
            assert(self@.tiles[i as int].settled);
        }
        true
    }

    /// What to say about the tiles that never delivered. They are shown as
    /// labels without a thumbnail, exactly as an outright capture failure is.
    pub fn report_unsettled(&self) -> (r: Vec<String>)
        ensures
            words::texts(r@) == complaints(self@.tiles),
    {
        let mut out: Vec<String> = Vec::new();
        let ghost tiles = self@.tiles;
        for i in 0..self.tiles.len()
            invariant
                tiles == self@.tiles,
                words::texts(out@) == complaints(tiles.take(i as int)),
        {
            let ghost before = words::texts(out@);
            assert(tiles.take(i + 1).drop_last() =~= tiles.take(i as int));
            if !self.tiles[i].settled {
                let mut message = "wl-pick: no capture of ".to_owned();
                message.append(quote(self.tiles[i].target.title.as_str()).as_str());
                message.append(" in time");
                out.push(message);
                assert(words::texts(out@) =~= before.push(message@));
            }
        }
        assert(tiles.take(tiles.len() as int) =~= tiles);
        out
    }

    fn captured(&self) -> (r: usize)
        ensures
            r == self@.captured(),
    {
        let mut count: usize = 0;
        let ghost tiles = self@.tiles;
        for i in 0..self.tiles.len()
            invariant
                tiles == self@.tiles,
                count <= i,
                count == ready_among(tiles.take(i as int)),
        {
            assert(tiles.take(i + 1).drop_last() =~= tiles.take(i as int));
            if self.tiles[i].ready {
                count = count + 1;
            }
        }
        assert(tiles.take(tiles.len() as int) =~= tiles);
        count
    }

    fn geometry(&self, family: &str) -> (r: String)
        requires
            self.wf(),
        ensures
            r@ == self@.geometry(family@),
    {
        let mut out = "wl-pick: ".to_owned();
        out.append(u64_text(self.tiles.len() as u64).as_str());
        out.append(" tile(s), ");
        out.append(u64_text(self.captured() as u64).as_str());
        out.append(" captured; grid ");
        out.append(i64_text(self.layout.cols as i64).as_str());
        out.append("x");
        out.append(i64_text(self.layout.rows as i64).as_str());
        out.append(", surface ");
        out.append(i64_text(self.layout.width as i64).as_str());
        out.append("x");
        out.append(i64_text(self.layout.height as i64).as_str());
        out.append(" logical at scale ");
        out.append(i64_text(self.scale as i64).as_str());
        out.append(", ");
        out.append(u64_text(self.stats.pool_bytes as u64 / 1048576).as_str());
        out.append(" MB of capture buffers, labels in ");
        out.append(quote(family).as_str());
        out
    }

    /// What the grid is about to show: one line per tile, then the geometry, and
    /// how much of it scrolls. `family` is what the labels are drawn in.
    pub fn describe(&self, family: &str) -> (r: Vec<String>)
        requires
            self.wf(),
        ensures
            words::texts(r@) == self@.description(family@),
    {
        let mut out: Vec<String> = Vec::new();
        let ghost tiles = self@.tiles;
        let ghost want = Seq::new(tiles.len(), |i: int| listed(i, tiles[i]));
        for i in 0..self.tiles.len()
            invariant
                tiles == self@.tiles,
                want == Seq::new(tiles.len(), |i: int| listed(i, tiles[i])),
                words::texts(out@) == want.take(i as int),
        {
            let ghost before = words::texts(out@);
            let mut line = "  [".to_owned();
            line.append(u64_text(i as u64).as_str());
            line.append("] ");
            line.append(self.tiles[i].target.tsv().as_str());
            if !self.tiles[i].ready {
                line.append("  (no thumbnail)");
            }
            out.push(line);
            assert(line@ =~= listed(i as int, tiles[i as int]));
            assert(words::texts(out@) =~= before.push(line@));
            assert(words::texts(out@) =~= want.take(i + 1));
        }
        assert(want.take(tiles.len() as int) =~= want);
        let ghost before = words::texts(out@);
        let geometry = self.geometry(family);
        out.push(geometry);
        assert(words::texts(out@) =~= before.push(geometry@));
        if self.layout.scrollable() {
            let ghost before = words::texts(out@);
            let mut line = "wl-pick: ".to_owned();
            line.append(i64_text(self.layout.visible_rows as i64).as_str());
            line.append(" of ");
            line.append(i64_text(self.layout.rows as i64).as_str());
            line.append(" rows fit; the rest scroll");
            out.push(line);
            assert(words::texts(out@) =~= before.push(line@));
        }
        out
    }

    /// How many frames all the tiles have produced.
    pub fn frames(&self) -> (r: u32)
        ensures
            r == frames_among(self@.tiles),
    {
        let mut sum: u32 = 0;
        let ghost tiles = self@.tiles;
        for i in 0..self.tiles.len()
            invariant
                tiles == self@.tiles,
                sum == frames_among(tiles.take(i as int)),
        {
            assert(tiles.take(i + 1).drop_last() =~= tiles.take(i as int));
            let next: u64 = (sum as u64 + self.tiles[i].frames as u64) % 0x1_0000_0000;
            sum = next as u32;
        }
        assert(tiles.take(tiles.len() as int) =~= tiles);
        sum
    }

    /// What live capture actually did, once the overlay is closing. `secs` says
    /// how long it was open, and `rate` how many of [`App::frames`] a second
    /// that makes, each to one decimal.
    pub fn report(&self, secs: &str, rate: &str) -> (r: String)
        ensures
            r@ == self@.summary(secs@, rate@),
    {
        let mut each: Vec<String> = Vec::new();
        let ghost tiles = self@.tiles;
        let ghost want = Seq::new(tiles.len(), |i: int| words::decimal(tiles[i].frames as int));
        for i in 0..self.tiles.len()
            invariant
                tiles == self@.tiles,
                want == Seq::new(tiles.len(), |i: int| words::decimal(tiles[i].frames as int)),
                words::texts(each@) == want.take(i as int),
        {
            let ghost before = words::texts(each@);
            let text = u64_text(self.tiles[i].frames as u64);
            each.push(text);
            assert(words::texts(each@) =~= before.push(text@));
            assert(words::texts(each@) =~= want.take(i + 1));
        }
        assert(want.take(tiles.len() as int) =~= want);
        let mut out = "wl-pick: ".to_owned();
        out.append(self.ending.as_str());
        out.append(", ");
        out.append(u64_text(self.frames() as u64).as_str());
        out.append(" frame(s) over ");
        out.append(secs);
        out.append("s = ");
        out.append(rate);
        out.append("/s, ");
        out.append(u64_text(self.stats.ticks as u64).as_str());
        out.append(" tick(s), ");
        out.append(u64_text(self.stats.starved as u64).as_str());
        out.append(" starved; per tile: ");
        out.append(join(each.as_slice(), ",").as_str());
        out
    }
}

// --- enumeration -----------------------------------------------------------
impl App {
    /// The compositor announced a toplevel.
    pub fn toplevel_added(&mut self)
        ensures
            final(self)@ == (Model {
                toplevels: old(self)@.toplevels.push(Seq::empty()),
                ..old(self)@
            }),
    {
        let ghost before = self@;
        self.toplevels.push(String::new());
        assert(self@.toplevels =~= before.toplevels.push(Seq::empty()));
    }

    /// The compositor told the identifier of a toplevel.
    pub fn toplevel_named(&mut self, i: usize, identifier: String)
        ensures
            final(self)@ == (Model {
                toplevels: if i < old(self)@.toplevels.len() {
                    old(self)@.toplevels.update(i as int, identifier@)
                } else {
                    old(self)@.toplevels
                },
                ..old(self)@
            }),
    {
        let ghost before = self@;
        if i < self.toplevels.len() {
            self.toplevels[i] = identifier;
            assert(self@.toplevels =~= before.toplevels.update(i as int, identifier@));
        }
    }

    /// A display is there.
    pub fn output_added(&mut self)
        ensures
            final(self)@ == (Model {
                outputs: old(self)@.outputs.push(Seq::empty()),
                ..old(self)@
            }),
    {
        let ghost before = self@;
        self.outputs.push(String::new());
        assert(self@.outputs =~= before.outputs.push(Seq::empty()));
    }

    /// The compositor told the name of a display, which is how a display tile is
    /// labelled and how `focus output NAME` finds it again.
    pub fn output_named(&mut self, i: usize, name: String)
        ensures
            final(self)@ == (Model {
                outputs: if i < old(self)@.outputs.len() {
                    old(self)@.outputs.update(i as int, name@)
                } else {
                    old(self)@.outputs
                },
                ..old(self)@
            }),
    {
        let ghost before = self@;
        if i < self.outputs.len() {
            self.outputs[i] = name;
            assert(self@.outputs =~= before.outputs.update(i as int, name@));
        }
    }
}

/// What a run comes to is told by the pick: nothing without one, a line where it
/// can be named, and else what to say about it; and the exit status is 0 for a
/// line alone.
pub proof fn law_a_pick_is_reported(r: Report, m: Model, format: Format)
    requires
        reports(r, m, format),
    ensures
        m.picked is None <==> r is Nothing,
        m.picked matches Some(t) ==> (t.render(format) matches Some(line) ==> r is Line
            && r->Line_0@ == line),
        m.picked matches Some(t) ==> (t.render(format) is None ==> r is Unnamed && r->Unnamed_0@
            == "wl-pick: "@ + words::quoted(t.title) + " has no toplevel identifier"@),
        r.code() == 0 <==> r is Line,
        r.code() == 0 || r.code() == 1,
{
}

/// An end is an end for its reason, and changes nothing else; only an overlay
/// that has none goes on.
pub proof fn law_an_end_has_its_reason(m: Model, ending: Ending)
    ensures
        m.ended(ending) == (Model { ending, ..m }),
        m.ended(ending).finished() <==> !(ending is Running),
        ending is Running ==> ending.words() == "still running"@,
        ending is Picked ==> ending.words() == "picked"@,
        ending is Cancelled ==> ending.words() == "cancelled"@,
        ending is Closed ==> ending.words() == "the compositor closed the overlay"@,
        ending is Unfocused ==> ending.words() == "the keyboard went to another surface"@,
{
}

/// The overlay opens on the first tile, with the keyboard, with a tile for each
/// target, and with nothing captured, pressed, picked or painted yet.
pub proof fn law_a_run_starts_on_the_first_tile(
    targets: Seq<Record>,
    settings: Settings,
    grid: Grid,
    output_sources: bool,
    i: int,
)
    ensures
        ({
            let m = Model::start(targets, settings, grid, output_sources);
            &&& m.sel == 0 && m.scroll == 0
            &&& m.focused && !m.shift && !m.configured && !m.repaint_due
            &&& m.hover is None && m.pressed is None && m.picked is None && m.chrome is None
            &&& !m.scroll_finger && m.scroll_acc == 0
            &&& m.ending is Running
            &&& m.chrome_busy == seq![false, false]
            &&& m.toplevels.len() == 0 && m.outputs.len() == 0
            &&& m.output_sources == output_sources
            &&& m.theme == settings.theme && m.live == settings.live && m.fps == settings.fps
            &&& m.scale == settings.scale && m.output == settings.output@
            &&& m.grid == grid
            &&& m.stats == (Stats { ticks: 0, starved: 0, pool_bytes: 0 })
            &&& m.tiles.len() == targets.len()
            &&& 0 <= i < targets.len() ==> m.tiles[i] == Shot::fresh(targets[i])
        }),
{
}

/// The tiles with a thumbnail are counted, each once.
pub proof fn law_thumbnails_are_counted(tiles: Seq<Shot>, t: Shot)
    ensures
        ready_among(Seq::empty()) == 0,
        t.ready ==> ready_among(tiles.push(t)) == ready_among(tiles) + 1,
        !t.ready ==> ready_among(tiles.push(t)) == ready_among(tiles),
{
    assert(tiles.push(t).drop_last() =~= tiles);
}

/// The frames of every tile add up, as far as 32 bits can count.
pub proof fn law_frames_add_up(tiles: Seq<Shot>, t: Shot)
    ensures
        frames_among(Seq::empty()) == 0,
        0 <= frames_among(tiles) <= u32::MAX,
        frames_among(tiles) + t.frames <= u32::MAX ==> frames_among(tiles.push(t)) == frames_among(
            tiles,
        ) + t.frames,
{
    assert(tiles.push(t).drop_last() =~= tiles);
}

/// Just the tiles that are still waited on are complained about, each once, in
/// order, by its title.
pub proof fn law_what_never_came_is_complained_about(tiles: Seq<Shot>, t: Shot)
    ensures
        complaints(Seq::empty()).len() == 0,
        t.settled ==> complaints(tiles.push(t)) == complaints(tiles),
        !t.settled ==> complaints(tiles.push(t)) == complaints(tiles).push(
            "wl-pick: no capture of "@ + words::quoted(t.target.title) + " in time"@,
        ),
{
    assert(tiles.push(t).drop_last() =~= tiles);
}

/// A description has a line for each tile, its number and its row, and says
/// which have no thumbnail; then the geometry; and then how many rows fit, where
/// not all of them do.
pub proof fn law_a_description_lists_every_tile(m: Model, family: Seq<char>, i: int)
    requires
        m.wf(),
    ensures
        ({
            let d = m.description(family);
            &&& d.len() == m.tiles.len() + if m.grid.rows > m.grid.visible_rows {
                2int
            } else {
                1
            }
            &&& 0 <= i < m.tiles.len() && m.tiles[i].ready ==> d[i] == "  ["@ + words::decimal(i)
                + "] "@ + m.tiles[i].target.tsv()
            &&& 0 <= i < m.tiles.len() && !m.tiles[i].ready ==> d[i] == "  ["@ + words::decimal(i)
                + "] "@ + m.tiles[i].target.tsv() + "  (no thumbnail)"@
            &&& d[m.tiles.len() as int] == m.geometry(family)
            &&& m.grid.rows > m.grid.visible_rows ==> d.last() == "wl-pick: "@ + words::decimal(
                m.grid.visible_rows,
            ) + " of "@ + words::decimal(m.grid.rows) + " rows fit; the rest scroll"@
        }),
{
    if 0 <= i < m.tiles.len() && m.tiles[i].ready {
        assert(listed(i, m.tiles[i]) =~= "  ["@ + words::decimal(i) + "] "@
            + m.tiles[i].target.tsv());
    }
}

/// What can be drawn has a picture of at least a pixel whose two buffers 32 bits
/// can measure.
pub proof fn law_a_drawable_picture_fits_its_pool(t: Theme, g: Grid, scale: int)
    requires
        g.wf(),
        drawable(t, g, scale),
    ensures
        scale >= 1 && g.width >= 1 && g.height >= 1,
        8 * ((g.width * scale) * (g.height * scale)) <= 0x7fff_ffff,
{
}

/// A grid without negative lengths can be drawn wherever its two pictures fit
/// into the pool, with a border that is no longer than they are.
pub proof fn law_what_fits_the_pool_can_be_drawn(t: Theme, g: Grid, scale: int)
    requires
        g.wf(),
        scale >= 1,
        g.margin >= 0 && g.gap >= 0 && g.pad >= 0 && g.spacing >= 0,
        g.labels ==> g.line_h >= 0,
        8 * ((g.width * scale) * (g.height * scale)) <= 0x7fff_ffff,
        0 <= t.border_px * scale <= 0x7fff_ffff,
    ensures
        drawable(t, g, scale),
{
    theme::lemma_cell_inside(g.cols, g.elem_w, g.gap, 0);
    theme::lemma_cell_inside(g.cols, g.elem_w, g.gap, g.cols - 1);
    theme::lemma_cell_inside(g.visible_rows, g.elem_h, g.gap, 0);
    theme::lemma_cell_inside(g.visible_rows, g.elem_h, g.gap, g.visible_rows - 1);
    let (w, h) = (g.width, g.height);
    assert(w >= 1 && h >= 1);
    let (pw, ph) = (w * scale, h * scale);
    assert(pw >= w && ph >= h) by (nonlinear_arith)
        requires
            pw == w * scale,
            ph == h * scale,
            w >= 1,
            h >= 1,
            scale >= 1,
    ;
    assert(pw * ph >= pw && pw * ph >= ph) by (nonlinear_arith)
        requires
            pw >= 1,
            ph >= 1,
    ;
    if g.n > 0 {
        lemma_corner_scales(g, scale, 0, 0);
        lemma_corner_scales(g, scale, g.cols - 1, g.visible_rows - 1);
    }
    if g.max_scroll() > 0 {
        lemma_end_of_bar_scales(g, scale);
    }
}

/// A scrollbar reaches no further out than twice the picture.
proof fn lemma_end_of_bar_scales(g: Grid, scale: int)
    requires
        g.wf(),
        scale >= 1,
        g.margin >= 0,
        g.width >= 2 * g.margin + 1,
        g.height >= 2 * g.margin + 1,
        g.width * scale <= 0x0fff_ffff,
        g.height * scale <= 0x0fff_ffff,
        g.max_scroll() > 0,
    ensures
        bar_scales(g, scale, g.max_scroll()),
{
    let width = overlay::bar_width(g.margin);
    let (w, h, max) = (g.width, g.height, g.max_scroll());
    let (track, thumb) = (g.track(width), g.thumb(max, width));
    theme::law_division_rounds_towards_zero(g.margin, 3);
    assert(2 <= width && (width == 2 || width <= g.margin));
    theme::law_division_rounds_towards_zero(g.margin - width, 2);
    let half = theme::quot(g.margin - width, 2);
    assert(-1 <= half <= g.margin);
    assert(track.x == w - g.margin + half);
    theme::lemma_grid_rows(g);
    theme::lemma_share(track.h, g.visible_rows, g.rows);
    assert(1 <= track.h <= h);
    assert(2 <= thumb.h && (thumb.h <= track.h || thumb.h == width));
    let travel = track.h - thumb.h;
    theme::lemma_share(travel, max, max);
    assert(thumb.y == g.margin + theme::quot(travel * max, max));
    assert(-2 * h <= thumb.y <= 2 * h);
    lemma_within(track.x, w, scale);
    lemma_within(track.w, w, scale);
    lemma_within(track.y, h, scale);
    lemma_within(track.h, h, scale);
    lemma_within(thumb.y, h, scale);
    lemma_within(thumb.h, h, scale);
    assert(thumb.x == track.x && thumb.w == track.w);
    assert(track.times(scale).fits());
    assert(thumb.times(scale).fits());
}

/// What is no further out than twice the picture stays so to scale.
proof fn lemma_within(v: int, side: int, scale: int)
    requires
        -2 * side <= v <= 2 * side,
        scale >= 1,
    ensures
        -2 * (side * scale) <= v * scale <= 2 * (side * scale),
{
    assert(-2 * (side * scale) <= v * scale <= 2 * (side * scale)) by (nonlinear_arith)
        requires
            -2 * side <= v <= 2 * side,
            scale >= 1,
    ;
}

proof fn lemma_corner_scales(g: Grid, scale: int, col: int, row: int)
    requires
        g.wf(),
        scale >= 1,
        g.margin >= 0 && g.gap >= 0 && g.pad >= 0 && g.spacing >= 0,
        g.labels ==> g.line_h >= 0,
        0 <= col < g.cols,
        0 <= row < g.visible_rows,
        0 <= g.width * scale <= 0x0fff_ffff,
        0 <= g.height * scale <= 0x0fff_ffff,
    ensures
        boxes_scale(g, scale, col, row),
{
    theme::lemma_cell_inside(g.cols, g.elem_w, g.gap, col);
    theme::lemma_cell_inside(g.visible_rows, g.elem_h, g.gap, row);
    let (e, l) = (g.elem_at(col, row), g.label_at(col, row));
    let (w, h) = (g.width, g.height);
    lemma_within(e.x, w, scale);
    lemma_within(e.y, h, scale);
    lemma_within(e.w, w, scale);
    lemma_within(e.h, h, scale);
    if g.labels {
        lemma_within(l.x, w, scale);
        lemma_within(l.y, h, scale);
        lemma_within(l.w, w, scale);
        lemma_within(l.h, h, scale);
    }
}

/// What a picker shows is what it holds.
pub proof fn law_a_picker_shows_what_it_holds(a: App, i: int)
    ensures
        a@.theme == a.theme && a@.grid == a.layout@ && a@.live == a.live && a@.fps == a.fps
            && a@.scale == a.scale && a@.output == a.output@ && a@.output_sources
            == a.output_sources,
        a@.sel == a.sel && a@.scroll == a.scroll && a@.shift == a.shift && a@.focused == a.focused,
        a@.hover == a.hover && a@.scroll_finger == a.scroll_finger && a@.scroll_acc == a.scroll_acc,
        a@.pressed is Some == a.pressed is Some && (a.pressed matches Some(k) ==> a@.pressed
            == Some(k as int)),
        a@.chrome == a.chrome && a@.chrome_busy == a.chrome_busy@ && a@.repaint_due
            == a.repaint_due && a@.configured == a.configured,
        a@.ending == a.ending && a@.stats == a.stats,
        a@.picked is Some == a.picked is Some && (a.picked matches Some(t) ==> a@.picked == Some(
            t@,
        )),
        a@.tiles.len() == a.tiles@.len() && (0 <= i < a.tiles@.len() ==> a@.tiles[i]
            == a.tiles@[i]@),
        a@.toplevels.len() == a.toplevels@.len() && (0 <= i < a.toplevels@.len()
            ==> a@.toplevels[i] == a.toplevels@[i]@),
        a@.outputs.len() == a.outputs@.len() && (0 <= i < a.outputs@.len() ==> a@.outputs[i]
            == a.outputs@[i]@),
{
}

/// What follows an event: the end, or the next event, or a moment for the
/// keyboard to come back.
pub open spec fn next_step(m: Model) -> Step {
    match (m.ending, m.focused) {
        (Ending::Running, true) => Step::Wait,
        (Ending::Running, false) => Step::Grace,
        _ => Step::Done,
    }
}

/// A picker that has ended is done, whoever has the keyboard; one that is open
/// waits for events while it has it, and else for it.
pub proof fn law_an_open_picker_waits(m: Model, ending: Ending)
    ensures
        next_step(m) is Done <==> m.finished(),
        !m.finished() ==> (next_step(m) is Wait <==> m.focused),
        !(ending is Running) ==> next_step(m.ended(ending)) is Done,
{
}

/// What a wait does next.
pub open spec fn waits(done: bool, drained: bool, now: int, deadline: int) -> Wait {
    if done {
        Wait::Done
    } else if !drained {
        Wait::Again
    } else if deadline < now {
        Wait::GaveUp
    } else {
        Wait::Poll((deadline - now) as u64)
    }
}

/// A wait ends as soon as what it waits for came true; else events that arrived
/// come first; and else it polls for what is left of the time and no longer, and
/// gives up once that has passed.
pub proof fn law_every_wait_is_bounded(done: bool, drained: bool, now: u64, deadline: u64)
    ensures
        waits(done, drained, now as int, deadline as int) is Done <==> done,
        waits(done, drained, now as int, deadline as int) is Again <==> !done && !drained,
        waits(done, drained, now as int, deadline as int) is GaveUp <==> !done && drained && now
            > deadline,
        waits(done, drained, now as int, deadline as int) matches Wait::Poll(left) ==> now + left
            == deadline,
{
}

/// The geometry says how many tiles there are and have a thumbnail, the columns
/// and rows, the size of the surface, the scale, and how much memory it took.
pub proof fn law_the_geometry_is_the_grids(m: Model, family: Seq<char>)
    ensures
        m.geometry(family) == "wl-pick: "@ + words::decimal(m.tiles.len() as int) + " tile(s), "@
            + words::decimal(ready_among(m.tiles)) + " captured; grid "@ + words::decimal(
            m.grid.cols,
        ) + "x"@ + words::decimal(m.grid.rows) + ", surface "@ + words::decimal(m.grid.width)
            + "x"@ + words::decimal(m.grid.height) + " logical at scale "@ + words::decimal(m.scale)
            + ", "@ + words::decimal(m.stats.pool_bytes as int / 1048576)
            + " MB of capture buffers, labels in "@ + words::quoted(family),
        m.captured() == ready_among(m.tiles),
{
}

/// A summary says why the run ended, how many frames there were over what time,
/// how often the clock fired and found every buffer held, and what each tile
/// produced.
pub proof fn law_a_summary_counts_what_happened(m: Model, secs: Seq<char>, rate: Seq<char>)
    ensures
        m.summary(secs, rate) == "wl-pick: "@ + m.ending.words() + ", "@ + words::decimal(
            frames_among(m.tiles),
        ) + " frame(s) over "@ + secs + "s = "@ + rate + "/s, "@ + words::decimal(
            m.stats.ticks as int,
        ) + " tick(s), "@ + words::decimal(m.stats.starved as int) + " starved; per tile: "@
            + words::joined(
            Seq::new(m.tiles.len(), |i: int| words::decimal(m.tiles[i].frames as int)),
            ","@,
        ),
{
}

} // verus!
