//! The overlay itself: a layer surface for the chrome, one subsurface per tile,
//! and the keyboard.
//!
//! Scaling is the compositor's job. A tile attaches its capture buffer directly
//! and wp_viewporter names the rectangle to fit it into, so nothing here touches
//! a pixel of window content: only the background, selection and labels.

use vstd::prelude::*;

use crate::app;
use crate::app::{App, Ending, Model, Report};
use crate::capture;
use crate::capture::Shot;
use crate::shm;
use crate::shm::{Chrome, Painter, SLOTS};
use crate::target::Format;
use crate::theme;
use crate::theme::{Area, Argb, Grid, Rect, Theme, fit_centred};
use crate::words;
use crate::words::find_text;

verus! {

// evdev keycodes: physical positions, so navigation works on any keyboard
// layout without an xkb keymap. Reading typed characters would need one.
pub const KEY_ESC: u32 = 1;

pub const KEY_TAB: u32 = 15;

pub const KEY_Q: u32 = 16;

pub const KEY_ENTER: u32 = 28;

// hjkl, by physical position: the same keys as vim on a qwerty layout.
pub const KEY_H: u32 = 35;

pub const KEY_J: u32 = 36;

pub const KEY_K: u32 = 37;

pub const KEY_L: u32 = 38;

pub const KEY_LEFTSHIFT: u32 = 42;

pub const KEY_RIGHTSHIFT: u32 = 54;

pub const KEY_KPENTER: u32 = 96;

pub const KEY_HOME: u32 = 102;

pub const KEY_UP: u32 = 103;

pub const KEY_PGUP: u32 = 104;

pub const KEY_LEFT: u32 = 105;

pub const KEY_RIGHT: u32 = 106;

pub const KEY_END: u32 = 107;

pub const KEY_DOWN: u32 = 108;

pub const KEY_PGDN: u32 = 109;

/// evdev button code, as wl_pointer reports it.
pub const BTN_LEFT: u32 = 0x110;

/// How much continuous scroll makes one move, in 1/256 px. A wheel notch is one
/// move outright; a touchpad reports a flick as a stream of small values, and
/// one move per value would cross the whole grid in a single gesture.
pub const FINGER_STEP: i64 = 3840;

/// A surface of the picker, or one of somebody else's.
#[derive(Clone, Copy, PartialEq, Eq, Structural, Debug)]
pub enum Surface {
    Overlay,
    Tile(usize),
    Other,
}

/// Where the pointer is: the surface it entered, and the position within it, in
/// 1/256 px. Tiles are subsurfaces, so the surface alone usually names a tile;
/// the position is only needed over the chrome around them.
#[derive(Clone, Copy, PartialEq, Eq, Structural, Debug)]
pub struct Hover {
    pub surface: Surface,
    pub x: i32,
    pub y: i32,
}

// --- the selection ---------------------------------------------------------
/// What a change asks for.
#[derive(Clone, Copy, PartialEq, Eq, Structural, Debug)]
pub enum Redraw {
    Nothing,
    /// Paint the chrome again.
    Paint,
    /// The viewport moved: place the tiles again, then paint.
    Scroll,
}

/// The selection on tile `i`, with the viewport scrolled the least that keeps it
/// on screen.
pub open spec fn selected(m: Model, i: int) -> Model {
    Model { sel: i, scroll: m.grid.revealed(i / m.grid.cols, m.scroll), ..m }
}

/// What selecting tile `i` asks for.
pub open spec fn redraw(m: Model, i: int) -> Redraw {
    if selected(m, i).scroll != m.scroll {
        Redraw::Scroll
    } else {
        Redraw::Paint
    }
}

/// Where a move along the tiles goes, round from the last to the first.
pub open spec fn along(m: Model, delta: int) -> int {
    (m.sel + delta) % (m.tiles.len() as int)
}

/// The state after a move along the tiles.
pub open spec fn moved(m: Model, delta: int) -> Model {
    if m.tiles.len() == 0 {
        m
    } else {
        selected(m, along(m, delta))
    }
}

/// The state after a move by rows.
pub open spec fn stepped(m: Model, rows: int) -> Model {
    if m.tiles.len() == 0 {
        m
    } else {
        selected(m, m.grid.step_row(m.sel, rows))
    }
}

/// Wherever the selection goes, it is on screen.
pub proof fn law_the_selection_is_never_off_view(m: Model, i: int)
    requires
        m.wf(),
        0 <= i < m.tiles.len() || i == 0,
    ensures
        selected(m, i).wf(),
        m.tiles.len() > 0 ==> m.grid.shows(i, selected(m, i).scroll),
{
    if m.tiles.len() > 0 {
        theme::law_reveal_moves_as_little_as_possible(m.grid, i, m.scroll, m.scroll);
    } else {
        assert(0int / m.grid.cols == 0) by (nonlinear_arith)
            requires
                m.grid.cols >= 1,
        ;
    }
}

impl App {
    /// Move the selection, scrolling the least that keeps it on screen. Every
    /// move goes through here, so the selection is never off-view.
    pub fn select(&mut self, i: usize) -> (r: Redraw)
        requires
            old(self).wf(),
            i < old(self)@.tiles.len() || i == 0,
        ensures
            final(self).wf(),
            final(self)@ == selected(old(self)@, i as int),
            r == redraw(old(self)@, i as int),
    {
        proof {
            law_the_selection_is_never_off_view(self@, i as int);
        }
        assert((i as i32) as int == i);
        self.sel = i;
        let scroll = self.layout.reveal_tile(i, self.scroll);
        if scroll != self.scroll {
            self.scroll = scroll;
            Redraw::Scroll
        } else {
            Redraw::Paint
        }
    }

    /// The next tile, or the one before, or further: round from the last to the
    /// first.
    pub fn move_sel(&mut self, delta: i32) -> (r: Redraw)
        requires
            old(self).wf(),
        ensures
            final(self).wf(),
            final(self)@ == moved(old(self)@, delta as int),
            r == (if old(self)@.tiles.len() == 0 {
                Redraw::Nothing
            } else {
                redraw(old(self)@, along(old(self)@, delta as int))
            }),
    {
        if self.tiles.len() == 0 {
            return Redraw::Nothing;
        }
        let n: i64 = self.tiles.len() as i64;
        let sum: i64 = self.sel as i64 + delta as i64;
        let i = remainder(sum, n);
        self.select(i as usize)
    }

    /// The tile below, or above, or further, in the same column.
    pub fn move_row(&mut self, rows: i32) -> (r: Redraw)
        requires
            old(self).wf(),
        ensures
            final(self).wf(),
            final(self)@ == stepped(old(self)@, rows as int),
            r == (if old(self)@.tiles.len() == 0 {
                Redraw::Nothing
            } else {
                redraw(old(self)@, old(self)@.grid.step_row(old(self)@.sel, rows as int))
            }),
    {
        if self.tiles.len() == 0 {
            return Redraw::Nothing;
        }
        let i = self.layout.step_row(self.sel, rows);
        self.select(i)
    }
}

/// What is left of `a` after whole multiples of `n`, never negative.
fn remainder(a: i64, n: i64) -> (r: i64)
    requires
        n > 0,
        a > i64::MIN,
    ensures
        r == a % n,
        0 <= r < n,
{
    if a >= 0 {
        a % n
    } else {
        let below = (-a) % n;
        proof {
            vstd::arithmetic::div_mod::lemma_fundamental_div_mod(-(a as int), n as int);
        }
        let ghost q = (-(a as int)) / (n as int);
        if below == 0 {
            proof {
                assert(a == -q * n + 0) by (nonlinear_arith)
                    requires
                        -(a as int) == n * q + 0,
                ;
                vstd::arithmetic::div_mod::lemma_fundamental_div_mod_converse(
                    a as int,
                    n as int,
                    -q,
                    0,
                );
            }
            0
        } else {
            proof {
                assert(a == (-q - 1) * n + (n - below)) by (nonlinear_arith)
                    requires
                        -(a as int) == n * q + below,
                ;
                vstd::arithmetic::div_mod::lemma_fundamental_div_mod_converse(
                    a as int,
                    n as int,
                    -q - 1,
                    n - below,
                );
            }
            n - below
        }
    }
}

// --- scrolling -------------------------------------------------------------
/// What a turn of the wheel or a flick comes to: `count` moves of `step` each.
#[derive(Clone, Copy, PartialEq, Eq, Structural, Debug)]
pub struct Moves {
    pub step: i32,
    pub count: u32,
}

/// What is left over from the last flick, unless this one turned round: then it
/// starts again, so a flick back does not have to undo what is left over.
pub open spec fn left_over(m: Model, value: int) -> int {
    if m.scroll_acc > 0 && value < 0 || m.scroll_acc < 0 && value > 0 {
        0
    } else {
        m.scroll_acc
    }
}

pub open spec fn magnitude(v: int) -> int {
    if v < 0 {
        -v
    } else {
        v
    }
}

/// The moves that `value` of scroll makes, in 1/256 px. One notch of a wheel is
/// one move; a touchpad's flick is summed, so that a gesture moves by about as
/// much as it looks like it should.
pub open spec fn moves(m: Model, value: int) -> Moves {
    Moves {
        step: (if value > 0 {
            1int
        } else {
            -1
        }) as i32,
        count: if m.scroll_finger {
            (magnitude(left_over(m, value) + value) / (FINGER_STEP as int)) as u32
        } else {
            1
        },
    }
}

/// What is left over after that.
pub open spec fn remaining(m: Model, value: int) -> int {
    let sum = left_over(m, value) + value;
    if sum < 0 {
        -((-sum) % (FINGER_STEP as int))
    } else {
        sum % (FINGER_STEP as int)
    }
}

pub open spec fn scrolled(m: Model, value: int) -> Model {
    if m.scroll_finger {
        Model { scroll_acc: remaining(m, value), ..m }
    } else {
        m
    }
}

impl App {
    /// One notch of a wheel moves the selection; a touchpad's flick is summed so
    /// that a gesture moves by about as much as it looks like it should. Each
    /// move is one [`App::move_sel`] of the step.
    pub fn scroll_by(&mut self, value: i32) -> (r: Moves)
        requires
            old(self).wf(),
        ensures
            final(self).wf(),
            final(self)@ == scrolled(old(self)@, value as int),
            r == moves(old(self)@, value as int),
    {
        let step: i32 = if value > 0 {
            1
        } else {
            -1
        };
        if !self.scroll_finger {
            return Moves { step, count: 1 };
        }
        let kept: i64 = if self.scroll_acc > 0 && value < 0 || self.scroll_acc < 0 && value > 0 {
            0
        } else {
            self.scroll_acc
        };
        let sum: i64 = kept + value as i64;
        if sum < 0 {
            self.scroll_acc = -((-sum) % FINGER_STEP);
            Moves { step, count: ((-sum) / FINGER_STEP) as u32 }
        } else {
            self.scroll_acc = sum % FINGER_STEP;
            Moves { step, count: (sum / FINGER_STEP) as u32 }
        }
    }

    /// Which device is scrolling decides how a value reads. This arrives once
    /// per frame, not once per gesture, so only a change of device starts the
    /// sum again: clearing it every time would mean a touchpad never reached a
    /// whole step at all.
    pub fn axis_source(&mut self, finger: bool)
        requires
            old(self).wf(),
        ensures
            final(self).wf(),
            final(self)@ == (Model {
                scroll_finger: finger,
                scroll_acc: if finger != old(self)@.scroll_finger {
                    0
                } else {
                    old(self)@.scroll_acc
                },
                ..old(self)@
            }),
            final(self)@ == scrolled_with(old(self)@, finger),
    {
        if finger != self.scroll_finger {
            self.scroll_acc = 0;
        }
        self.scroll_finger = finger;
    }

    /// A flick ended.
    pub fn axis_stop(&mut self)
        requires
            old(self).wf(),
        ensures
            final(self).wf(),
            final(self)@ == (Model { scroll_acc: 0, ..old(self)@ }),
            final(self)@ == finger_lifted(old(self)@),
    {
        self.scroll_acc = 0;
    }
}

// --- the pointer -----------------------------------------------------------
/// The tile under the pointer, if it is over one. A tile's own subsurface
/// answers directly; over the parent surface (padding, labels, gaps) the layout
/// is asked instead.
pub open spec fn under_pointer(m: Model) -> Option<int> {
    match m.hover {
        None => None,
        Some(h) => match h.surface {
            Surface::Tile(i) => if i < m.tiles.len() && m.tiles[i as int].surface {
                Some(i as int)
            } else {
                None
            },
            Surface::Overlay => m.grid.hit(
                theme::quot(h.x as int, 256),
                theme::quot(h.y as int, 256),
                m.scroll,
            ),
            Surface::Other => None,
        },
    }
}

/// The cells that the pointer asks for, if it is over the overlay itself, have a
/// pitch.
pub open spec fn points(m: Model) -> bool {
    m.hover matches Some(h) ==> h.surface == Surface::Overlay ==> m.grid.has_pitch(
        theme::quot(h.x as int, 256),
        theme::quot(h.y as int, 256),
    )
}

/// Tile `i` is picked.
pub open spec fn picks(m: Model, i: int) -> Model {
    Model {
        picked: if 0 <= i < m.tiles.len() {
            Some(m.tiles[i].target)
        } else {
            None
        },
        ending: Ending::Picked,
        ..m
    }
}

/// The state after the button went down or up.
pub open spec fn clicked(m: Model, down: bool) -> Model {
    let released = Model { pressed: None, ..m };
    if down {
        Model { pressed: under_pointer(m), ..m }
    } else if m.pressed is Some && m.pressed == under_pointer(m) {
        picks(released, m.pressed->Some_0)
    } else {
        released
    }
}

impl App {
    /// Hovering does not move the selection: that belongs to the keyboard.
    pub fn pointer_entered(&mut self, hover: Hover)
        requires
            old(self).wf(),
        ensures
            final(self).wf(),
            final(self)@ == (Model { hover: Some(hover), ..old(self)@ }),
            final(self)@ == pointer_in(old(self)@, hover),
    {
        self.hover = Some(hover);
    }

    pub fn pointer_moved(&mut self, x: i32, y: i32)
        requires
            old(self).wf(),
        ensures
            final(self).wf(),
            final(self)@ == (Model {
                hover: match old(self)@.hover {
                    Some(h) => Some(Hover { x, y, ..h }),
                    None => None,
                },
                ..old(self)@
            }),
            final(self)@ == pointer_at(old(self)@, x, y),
    {
        if let Some(hover) = self.hover {
            self.hover = Some(Hover { surface: hover.surface, x, y });
        }
    }

    pub fn pointer_left(&mut self)
        requires
            old(self).wf(),
        ensures
            final(self).wf(),
            final(self)@ == (Model { hover: None, pressed: None, ..old(self)@ }),
            final(self)@ == pointer_out(old(self)@),
    {
        self.hover = None;
        self.pressed = None;
    }

    /// Whether a click has cells to look among, for a caller that does not know:
    /// a grid whose elements all begin at one place has none.
    pub fn can_point(&self) -> (r: bool)
        requires
            self.wf(),
        ensures
            r == points(self@),
    {
        match self.hover {
            Some(hover) => match hover.surface {
                Surface::Overlay => self.layout.pitched(hover.x / 256, hover.y / 256),
                _ => true,
            },
            None => true,
        }
    }

    fn tile_at_pointer(&self) -> (r: Option<usize>)
        requires
            self.wf(),
            points(self@),
        ensures
            capture::place(r) == under_pointer(self@),
            r matches Some(i) ==> i < self.tiles@.len(),
    {
        match self.hover {
            None => None,
            Some(hover) => match hover.surface {
                Surface::Tile(i) => if i < self.tiles.len() && self.tiles[i].surface {
                    assert(self@.tiles[i as int].surface);
                    Some(i)
                } else {
                    assert(i < self.tiles@.len() ==> !self@.tiles[i as int].surface);
                    None
                },
                Surface::Overlay => self.layout.hit(hover.x / 256, hover.y / 256, self.scroll),
                Surface::Other => None,
            },
        }
    }

    fn pick(&mut self, i: usize)
        requires
            old(self).wf(),
        ensures
            final(self).wf(),
            final(self)@ == picks(old(self)@, i as int),
    {
        self.picked = if i < self.tiles.len() {
            Some(self.tiles[i].target.clone())
        } else {
            None
        };
        self.ending = Ending::Picked;
    }

    /// Press and release on the same tile picks it. Anywhere else (the margin, a
    /// gap, an empty cell of the last row) does nothing at all.
    pub fn click(&mut self, pressed: bool)
        requires
            old(self).wf(),
            points(old(self)@),
        ensures
            final(self).wf(),
            final(self)@ == clicked(old(self)@, pressed),
    {
        let at = self.tile_at_pointer();
        if pressed {
            self.pressed = at;
            return ;
        }
        let held = self.pressed;
        self.pressed = None;
        if let (Some(i), Some(j)) = (held, at) {
            if i == j {
                self.pick(i);
            }
        }
    }
}

// --- the keyboard ----------------------------------------------------------
pub open spec fn is_shift(code: u32) -> bool {
    code == KEY_LEFTSHIFT || code == KEY_RIGHTSHIFT
}

/// What a key means.
#[derive(Clone, Copy, PartialEq, Eq, Structural, Debug)]
pub enum Meaning {
    Nothing,
    Shift,
    Cancel,
    Pick,
    /// So many tiles along.
    Along(i32),
    /// So many rows down.
    Rows(i32),
    First,
    Last,
}

/// What a key means, with or without Shift held, where a screen shows `page`
/// rows.
pub open spec fn meaning(code: u32, shift: bool, page: i32) -> Meaning {
    if is_shift(code) {
        Meaning::Shift
    } else if code == KEY_ESC || code == KEY_Q {
        Meaning::Cancel
    } else if code == KEY_ENTER || code == KEY_KPENTER {
        Meaning::Pick
    } else if code == KEY_TAB && shift || code == KEY_LEFT || code == KEY_H {
        Meaning::Along((-1) as i32)
    } else if code == KEY_TAB || code == KEY_RIGHT || code == KEY_L {
        Meaning::Along(1)
    } else if code == KEY_DOWN || code == KEY_J {
        Meaning::Rows(1)
    } else if code == KEY_UP || code == KEY_K {
        Meaning::Rows((-1) as i32)
    } else if code == KEY_PGDN {
        Meaning::Rows(page)
    } else if code == KEY_PGUP {
        Meaning::Rows((-page) as i32)
    } else if code == KEY_HOME {
        Meaning::First
    } else if code == KEY_END {
        Meaning::Last
    } else {
        Meaning::Nothing
    }
}

fn read_key(code: u32, shift: bool, page: i32) -> (r: Meaning)
    requires
        page >= 0,
    ensures
        r == meaning(code, shift, page),
{
    if code == KEY_LEFTSHIFT || code == KEY_RIGHTSHIFT {
        Meaning::Shift
    } else if code == KEY_ESC || code == KEY_Q {
        Meaning::Cancel
    } else if code == KEY_ENTER || code == KEY_KPENTER {
        Meaning::Pick
    } else if code == KEY_TAB {
        if shift {
            Meaning::Along(-1)
        } else {
            Meaning::Along(1)
        }
    } else if code == KEY_RIGHT || code == KEY_L {
        Meaning::Along(1)
    } else if code == KEY_LEFT || code == KEY_H {
        Meaning::Along(-1)
    } else if code == KEY_DOWN || code == KEY_J {
        Meaning::Rows(1)
    } else if code == KEY_UP || code == KEY_K {
        Meaning::Rows(-1)
    } else if code == KEY_HOME {
        Meaning::First
    } else if code == KEY_END {
        Meaning::Last
    } else if code == KEY_PGUP {
        Meaning::Rows(-page)
    } else if code == KEY_PGDN {
        Meaning::Rows(page)
    } else {
        Meaning::Nothing
    }
}

/// The last tile.
pub open spec fn last_tile(m: Model) -> int {
    if m.tiles.len() == 0 {
        0
    } else {
        m.tiles.len() - 1
    }
}

/// The state after a key that means that.
pub open spec fn obeyed(m: Model, meaning: Meaning) -> Model {
    match meaning {
        Meaning::Nothing => m,
        Meaning::Shift => Model { shift: true, ..m },
        Meaning::Cancel => m.ended(Ending::Cancelled),
        Meaning::Pick => picks(m, m.sel),
        Meaning::Along(delta) => moved(m, delta as int),
        Meaning::Rows(rows) => stepped(m, rows as int),
        Meaning::First => selected(m, 0),
        Meaning::Last => selected(m, last_tile(m)),
    }
}

/// The state after a key went down.
pub open spec fn keyed(m: Model, code: u32) -> Model {
    obeyed(m, meaning(code, m.shift, m.grid.visible_rows as i32))
}

/// What that asks for: a repaint if it was a move.
pub open spec fn asks(m: Model, meaning: Meaning) -> Redraw {
    let moves = match meaning {
        Meaning::Along(_) | Meaning::Rows(_) => m.tiles.len() > 0,
        Meaning::First | Meaning::Last => true,
        _ => false,
    };
    if !moves {
        Redraw::Nothing
    } else if obeyed(m, meaning).scroll != m.scroll {
        Redraw::Scroll
    } else {
        Redraw::Paint
    }
}

impl App {
    /// A key went down.
    pub fn key(&mut self, code: u32) -> (r: Redraw)
        requires
            old(self).wf(),
        ensures
            final(self).wf(),
            final(self)@ == keyed(old(self)@, code),
            r == asks(
                old(self)@,
                meaning(code, old(self)@.shift, old(self)@.grid.visible_rows as i32),
            ),
    {
        let meaning = read_key(code, self.shift, self.layout.visible_rows);
        match meaning {
            Meaning::Nothing => Redraw::Nothing,
            Meaning::Shift => {
                self.shift = true;
                Redraw::Nothing
            },
            Meaning::Cancel => {
                self.ending = Ending::Cancelled;
                Redraw::Nothing
            },
            Meaning::Pick => {
                let i = self.sel;
                self.pick(i);
                Redraw::Nothing
            },
            Meaning::Along(delta) => self.move_sel(delta),
            Meaning::Rows(rows) => self.move_row(rows),
            Meaning::First => self.select(0),
            Meaning::Last => {
                let n = self.tiles.len();
                self.select(
                    if n == 0 {
                        0
                    } else {
                        n - 1
                    },
                )
            },
        }
    }

    /// A key came up.
    pub fn key_released(&mut self, code: u32)
        requires
            old(self).wf(),
        ensures
            final(self).wf(),
            final(self)@ == (Model {
                shift: old(self)@.shift && !is_shift(code),
                ..old(self)@
            }),
            final(self)@ == let_up(old(self)@, code),
    {
        if code == KEY_LEFTSHIFT || code == KEY_RIGHTSHIFT {
            self.shift = false;
        }
    }

    /// The keyboard came, with these keys already down, which is the only place
    /// they can be read: a keybinding with Shift in it is still held when the
    /// overlay opens, and taking Shift from later events alone would make
    /// Shift+Tab move forwards.
    pub fn keyboard_entered(&mut self, keys: &[u32])
        requires
            old(self).wf(),
        ensures
            final(self).wf(),
            final(self)@ == (Model {
                focused: true,
                shift: exists|i: int| 0 <= i < keys@.len() && is_shift(#[trigger] keys@[i]),
                ..old(self)@
            }),
            final(self)@ == keyboard_in(old(self)@, keys@),
    {
        let mut shift = false;
        for i in 0..keys.len()
            invariant
                shift == exists|k: int| 0 <= k < i && is_shift(#[trigger] keys@[k]),
        {
            if keys[i] == KEY_LEFTSHIFT || keys[i] == KEY_RIGHTSHIFT {
                assert(is_shift(keys@[i as int]));
                shift = true;
            }
        }
        self.focused = true;
        self.shift = shift;
    }

    /// The keyboard went. sway sends this immediately followed by its return
    /// when the pointer crosses the surface, so whether it is really gone is
    /// decided by [`App::step`], once the event batch has been dispatched.
    pub fn keyboard_left(&mut self)
        requires
            old(self).wf(),
        ensures
            final(self).wf(),
            final(self)@ == (Model { focused: false, ..old(self)@ }),
            final(self)@ == keyboard_out(old(self)@),
    {
        self.focused = false;
    }

    /// The compositor agreed to the overlay's size.
    pub fn configure(&mut self)
        requires
            old(self).wf(),
        ensures
            final(self).wf(),
            final(self)@ == (Model { configured: true, ..old(self)@ }),
    {
        self.configured = true;
    }

    /// The compositor took the overlay away.
    pub fn closed(&mut self)
        requires
            old(self).wf(),
        ensures
            final(self).wf(),
            final(self)@ == old(self)@.ended(Ending::Closed),
    {
        self.ending = Ending::Closed;
    }
}

// --- mapping ---------------------------------------------------------------
/// How to map the overlay: a layer surface sized to hug the grid, and the memory
/// the chrome is painted into.
pub struct Showing {
    /// Which of the displays to map on, by where it stands among them: the one
    /// the layout was sized against, not wherever the compositor would otherwise
    /// put it.
    pub output: Option<usize>,
    /// Logical size.
    pub width: u32,
    pub height: u32,
    pub scale: i32,
    /// The picture's size in pixels, and the bytes in one of its rows.
    pub pixel_width: i32,
    pub pixel_height: i32,
    pub stride: i32,
    /// Bytes in one slot, and in all of them.
    pub slot_len: usize,
    pub len: usize,
}

/// The sides of a picture that can be drawn.
pub proof fn lemma_sides(t: Theme, g: Grid, scale: int)
    requires
        g.wf(),
        app::drawable(t, g, scale),
    ensures
        1 <= g.width * scale <= i32::MAX / 8,
        1 <= g.height * scale <= i32::MAX / 8,
{
    let (w, h) = (g.width, g.height);
    assert(w * scale >= 1 && h * scale >= 1) by (nonlinear_arith)
        requires
            w >= 1,
            h >= 1,
            scale >= 1,
    ;
    let (pw, ph) = (w * scale, h * scale);
    assert(pw * ph >= pw && pw * ph >= ph) by (nonlinear_arith)
        requires
            pw >= 1,
            ph >= 1,
    ;
}

/// The picture fits: each side of it, its rows and its bytes.
pub proof fn lemma_picture(m: Model)
    requires
        m.wf(),
    ensures
        1 <= m.grid.width * m.scale <= i32::MAX / 8,
        1 <= m.grid.height * m.scale <= i32::MAX / 8,
        shm::pictured(m.grid.width * m.scale, m.grid.height * m.scale),
{
    lemma_sides(m.theme, m.grid, m.scale);
}

impl App {
    /// Map the overlay.
    pub fn show(&mut self) -> (r: Showing)
        requires
            old(self).wf(),
        ensures
            final(self).wf(),
            ({
                let m = old(self)@;
                let (w, h) = (m.grid.width * m.scale, m.grid.height * m.scale);
                let at = words::position(m.outputs, m.output);
                &&& final(self)@ == (Model {
                    chrome: Some(Chrome { w: w as i32, h: h as i32, slot: 0 }),
                    ..m
                })
                &&& capture::place(r.output) == if at < m.outputs.len() {
                    Some(at)
                } else {
                    None
                }
                &&& r.width == m.grid.width
                &&& r.height == m.grid.height
                &&& r.scale == m.scale
                &&& r.pixel_width == w
                &&& r.pixel_height == h
                &&& r.stride == w * 4
                &&& r.slot_len == w * h * 4
                &&& r.len == w * h * 4 * SLOTS
                &&& r.len <= i32::MAX
            }),
    {
        proof {
            lemma_picture(self@);
        }
        let at = find_text(self.outputs.as_slice(), self.output.as_str());
        let output = if at < self.outputs.len() {
            Some(at)
        } else {
            None
        };
        let (w, h) = (self.layout.width, self.layout.height);
        let (pw, ph) = (w * self.scale, h * self.scale);
        let slot_len = Chrome::slot_len(pw, ph);
        self.chrome = Some(Chrome::new(pw, ph));
        Showing {
            output,
            width: w as u32,
            height: h as u32,
            scale: self.scale,
            pixel_width: pw,
            pixel_height: ph,
            stride: Chrome::stride(pw),
            slot_len,
            len: slot_len * SLOTS,
        }
    }
}

// --- placing the tiles -----------------------------------------------------
/// Where a thumbnail goes.
#[derive(Clone, Copy, Debug)]
pub struct Shown {
    /// The tile has no subsurface yet. Its buffers carry the tile's transform,
    /// and it must not wait on a parent commit: tiles change independently of
    /// the chrome, a live frame arrives whenever its window does.
    pub fresh: bool,
    pub at: Rect,
    /// The slot to attach, and the size of its buffer.
    pub slot: usize,
    pub w: i32,
    pub h: i32,
}

/// What becomes of a tile's subsurface.
#[derive(Clone, Copy, Debug)]
pub enum Placement {
    /// It stays as it is.
    Leave,
    /// It is unmapped, by attaching nothing to it.
    Hide,
    Show(Shown),
}

/// A length as the signed coordinate with the same bits.
pub open spec fn signed(n: u32) -> int {
    if n <= i32::MAX {
        n as int
    } else {
        n - 0x1_0000_0000
    }
}

fn to_signed(n: u32) -> (r: i32)
    ensures
        r == signed(n),
{
    if n <= i32::MAX as u32 {
        n as i32
    } else {
        (n as i64 - 0x1_0000_0000) as i32
    }
}

/// Where the thumbnail of tile `i` goes: fitted into its box, a buffer that lies
/// on its side by the size it has when it is turned back.
pub open spec fn thumbnail(m: Model, i: int) -> Area {
    let t = m.tiles[i];
    let (w, h) = (signed(t.size.0), signed(t.size.1));
    if t.transform.sideways() {
        theme::fitted(h, w, m.grid.tile(i, m.scroll))
    } else {
        theme::fitted(w, h, m.grid.tile(i, m.scroll))
    }
}

/// That this is what becomes of tile `i`: on screen if the viewport shows it and
/// it has a thumbnail, and off it if the viewport does not.
pub open spec fn places(p: Placement, m: Model, i: int) -> bool {
    let t = m.tiles[i];
    if !m.grid.shows(i, m.scroll) {
        if t.surface {
            p is Hide
        } else {
            p is Leave
        }
    } else if !t.ready {
        p is Leave
    } else {
        p matches Placement::Show(s) && s.fresh == !t.surface && s.at@ == thumbnail(m, i)
            && t.showing == Some(s.slot as int) && s.w == signed(t.size.0) && s.h == signed(
            t.size.1,
        )
    }
}

/// A tile once it has been placed.
pub open spec fn placed(m: Model, i: int) -> Shot {
    Shot {
        surface: m.tiles[i].surface || m.grid.shows(i, m.scroll) && m.tiles[i].ready,
        ..m.tiles[i]
    }
}

/// A thumbnail lies in the box of its tile.
pub proof fn law_thumbnails_stay_in_their_boxes(m: Model, i: int)
    requires
        m.wf(),
        m.grid.shows(i, m.scroll),
    ensures
        m.grid.tile(i, m.scroll).encloses(thumbnail(m, i)),
        thumbnail(m, i).w >= 1 && thumbnail(m, i).h >= 1,
        thumbnail(m, i).fits(),
{
    let t = m.tiles[i];
    vstd::arithmetic::div_mod::lemma_fundamental_div_mod(i, m.grid.cols);
    theme::lemma_boxes_span(m.grid, i % m.grid.cols, i / m.grid.cols - m.scroll);
    let (w, h) = if t.transform.sideways() {
        (signed(t.size.1), signed(t.size.0))
    } else {
        (signed(t.size.0), signed(t.size.1))
    };
    if w > 0 && h > 0 {
        theme::law_a_fit_keeps_its_proportions(w, h, m.grid.tile(i, m.scroll));
    }
}

/// It lies in the window, where its box does: with no negative margin or
/// padding, no label's row that is negative by more than the padding, and no
/// element that begins before the one that it follows.
pub proof fn law_thumbnails_stay_in_the_window(m: Model, i: int)
    requires
        m.wf(),
        m.grid.shows(i, m.scroll),
        m.grid.margin >= 0,
        m.grid.cols > 1 ==> m.grid.elem_w + m.grid.gap >= 0,
        m.grid.visible_rows > 1 ==> m.grid.elem_h + m.grid.gap >= 0,
        m.grid.pad >= 0,
        m.grid.label_row() + m.grid.pad >= 0,
    ensures
        m.grid.window().encloses(thumbnail(m, i)),
{
    law_thumbnails_stay_in_their_boxes(m, i);
    theme::law_a_thumbnail_stays_in_its_element(m.grid, i, m.scroll);
    theme::law_elements_stay_inside(m.grid, i, m.scroll);
}

impl App {
    /// What becomes of tile `i`.
    fn place_tile(&self, i: usize) -> (r: Placement)
        requires
            self.wf(),
            i < self@.tiles.len(),
        ensures
            places(r, self@, i as int),
            r is Show == (self@.grid.shows(i as int, self@.scroll) && self@.tiles[i as int].ready),
    {
        let t = &self.tiles[i];
        assert(t@ == self@.tiles[i as int]);
        assert(self@.tiles[i as int].wf());
        let at = match self.layout.tile(i as i32, self.scroll) {
            Some(at) => at,
            None => {
                return if t.surface {
                    Placement::Hide
                } else {
                    Placement::Leave
                };
            },
        };
        if !t.ready {
            return Placement::Leave;
        }
        proof {
            law_thumbnails_stay_in_their_boxes(self@, i as int);
        }
        let slot = match t.showing {
            Some(slot) => slot,
            None => return Placement::Leave,
        };
        let (w, h) = (to_signed(t.size.0), to_signed(t.size.1));
        let at = if t.rotated() {
            fit_centred(h, w, at)
        } else {
            fit_centred(w, h, at)
        };
        Placement::Show(Shown { fresh: !t.surface, at, slot, w, h })
    }

    /// Put every visible tile where the viewport says, and unmap the rest.
    ///
    /// Runs again after each scroll, so a tile scrolled off screen is hidden
    /// rather than being left behind. Scaling stays the compositor's job: the
    /// capture buffer is attached as it is, and wp_viewporter names the
    /// rectangle to fit it into. Placement is *parent* state: it only takes
    /// effect when the overlay commits.
    ///
    /// A capture that lands before the overlay is mapped has nothing to be
    /// placed on yet; the pass after that picks it up.
    pub fn sync_tiles(&mut self) -> (r: Option<Vec<Placement>>)
        requires
            old(self).wf(),
        ensures
            final(self).wf(),
            match r {
                None => old(self)@.chrome is None && final(self)@ == old(self)@,
                Some(all) => {
                    &&& old(self)@.chrome is Some
                    &&& all@.len() == old(self)@.tiles.len()
                    &&& forall|i: int|
                        0 <= i < all@.len() ==> places(#[trigger] all@[i], old(self)@, i)
                    &&& final(self)@ == (Model {
                        tiles: Seq::new(old(self)@.tiles.len(), |i: int| placed(old(self)@, i)),
                        ..old(self)@
                    })
                },
            },
    {
        if self.chrome.is_none() {
            return None;
        }
        let ghost before = self@;
        let ghost after = Seq::new(before.tiles.len(), |i: int| placed(before, i));
        let mut out: Vec<Placement> = Vec::new();
        let n = self.tiles.len();
        assert(capture::partly(before.tiles, after, 0) =~= before.tiles);
        for i in 0..n
            invariant
                n == before.tiles.len(),
                before.wf(),
                self.wf(),
                after == Seq::new(before.tiles.len(), |i: int| placed(before, i)),
                self.tiles@.len() == n,
                self@ == (Model {
                    tiles: capture::partly(before.tiles, after, i as int),
                    ..before
                }),
                out@.len() == i,
                forall|k: int| 0 <= k < i ==> places(#[trigger] out@[k], before, k),
        {
            let ghost tiles = self@.tiles;
            assert(tiles[i as int] == before.tiles[i as int]);
            let placement = self.place_tile(i);
            assert(places(placement, before, i as int));
            if let Placement::Show(_) = placement {
                self.tiles[i].surface = true;
            }
            out.push(placement);
            assert(self.tiles@[i as int]@ =~= placed(before, i as int));
            assert(self@.tiles =~= tiles.update(i as int, placed(before, i as int)));
            assert(self@.tiles =~= capture::partly(before.tiles, after, i + 1));
        }
        assert(capture::partly(before.tiles, after, n as int) =~= after);
        Some(out)
    }
}

// --- painting --------------------------------------------------------------
/// Where a label is drawn, in pixels, and in which colour.
#[derive(Clone, Copy, Debug)]
pub struct Label {
    pub tile: usize,
    pub at: Rect,
    pub colour: Argb,
}

/// One repaint: background, selection highlight, labels, scrollbar and border,
/// all in pixels.
pub struct Painting {
    /// The slot to paint into.
    pub slot: usize,
    pub elem: Option<Rect>,
    pub labels: Vec<Label>,
    /// The scrollbar's track and its thumb.
    pub bar: Option<(Rect, Rect)>,
    pub bg: Argb,
    pub sel_bg: Argb,
    pub border: Argb,
    pub border_px: i32,
}

/// What is painted.
#[verifier::ext_equal]
pub struct Picture {
    pub slot: int,
    pub elem: Option<Area>,
    pub labels: Seq<(int, Area, Argb)>,
    pub bar: Option<(Area, Area)>,
    pub bg: Argb,
    pub sel_bg: Argb,
    pub border: Argb,
    pub border_px: int,
}

impl View for Painting {
    type V = Picture;

    open spec fn view(&self) -> Picture {
        Picture {
            slot: self.slot as int,
            elem: theme::area_of(self.elem),
            labels: drawn(self.labels@),
            bar: match self.bar {
                Some((track, thumb)) => Some((track@, thumb@)),
                None => None,
            },
            bg: self.bg,
            sel_bg: self.sel_bg,
            border: self.border,
            border_px: self.border_px as int,
        }
    }
}

pub open spec fn drawn(s: Seq<Label>) -> Seq<(int, Area, Argb)> {
    s.map_values(|l: Label| (l.tile as int, l.at@, l.colour))
}

/// The labels of the first `n` tiles: of those that are on screen.
pub open spec fn labels_of(m: Model, n: int) -> Seq<(int, Area, Argb)>
    decreases n,
{
    if n <= 0 {
        Seq::empty()
    } else if m.grid.labels && m.grid.shows(n - 1, m.scroll) {
        labels_of(m, n - 1).push(
            (
                n - 1,
                m.grid.label(n - 1, m.scroll).times(m.scale),
                if n - 1 == m.sel {
                    m.theme.sel_fg
                } else {
                    m.theme.fg
                },
            ),
        )
    } else {
        labels_of(m, n - 1)
    }
}

/// How wide the scrollbar is, in logical px.
pub open spec fn bar_width(margin: int) -> int {
    theme::at_least(theme::quot(margin, 3), 2)
}

pub(crate) fn scrollbar_width(margin: i32) -> (r: i32)
    ensures
        r == bar_width(margin as int),
{
    if margin / 3 < 2 {
        2
    } else {
        margin / 3
    }
}

/// The picture of a state, in that slot. The selection fills the whole element
/// box, padding included. A scrollbar only appears when there is something to
/// scroll, which makes it a hint rather than furniture.
pub open spec fn pictured(m: Model, slot: int) -> Picture {
    let width = bar_width(m.theme.margin as int);
    Picture {
        slot,
        elem: if m.grid.shows(m.sel, m.scroll) {
            Some(m.grid.elem(m.sel, m.scroll).times(m.scale))
        } else {
            None
        },
        labels: labels_of(m, m.tiles.len() as int),
        bar: if m.grid.max_scroll() > 0 {
            Some(
                (
                    m.grid.track(width).times(m.scale),
                    m.grid.thumb(m.scroll, width).times(m.scale),
                ),
            )
        } else {
            None
        },
        bg: m.theme.bg,
        sel_bg: m.theme.sel_bg,
        border: m.theme.border,
        border_px: m.theme.border_px * m.scale,
    }
}

/// Whether there is a picture, and a slot to paint it into.
pub open spec fn can_paint(m: Model) -> bool {
    capture::first_free(m.chrome_busy) < SLOTS && m.chrome is Some
}

/// The state after a repaint. One that finds every slot outstanding waits for a
/// release rather than tearing the one on screen.
pub open spec fn painted(m: Model) -> Model {
    let slot = capture::first_free(m.chrome_busy);
    if slot >= SLOTS {
        Model { repaint_due: true, ..m }
    } else if m.chrome is None {
        m
    } else {
        Model { chrome_busy: m.chrome_busy.update(slot, true), repaint_due: false, ..m }
    }
}

impl App {
    /// The first of the chrome's slots that the compositor does not read.
    fn free_chrome(&self) -> (r: Option<usize>)
        requires
            self.wf(),
        ensures
            match r {
                Some(i) => i < SLOTS && i == capture::first_free(self@.chrome_busy),
                None => capture::first_free(self@.chrome_busy) == SLOTS,
            },
    {
        let ghost busy = self@.chrome_busy;
        assert(busy.skip(0) =~= busy);
        for i in 0..self.chrome_busy.len()
            invariant
                busy == self@.chrome_busy,
                busy.len() == SLOTS,
                capture::first_free(busy) == i + capture::first_free(busy.skip(i as int)),
        {
            if !self.chrome_busy[i] {
                return Some(i);
            }
            assert(busy.skip(i as int).drop_first() =~= busy.skip(i + 1));
        }
        None
    }

    fn labels(&self) -> (r: Vec<Label>)
        requires
            self.wf(),
        ensures
            drawn(r@) == labels_of(self@, self@.tiles.len() as int),
    {
        let ghost m = self@;
        let mut out: Vec<Label> = Vec::new();
        for i in 0..self.tiles.len()
            invariant
                m == self@,
                self.wf(),
                drawn(out@) == labels_of(m, i as int),
        {
            let ghost sofar = drawn(out@);
            if let Some(at) = self.layout.label(i as i32, self.scroll) {
                proof {
                    app::lemma_boxes_scale(m.theme, m.grid, m.scale, i as int, m.scroll);
                }
                let label = Label {
                    tile: i,
                    at: at.scaled(self.scale),
                    colour: if i == self.sel {
                        self.theme.sel_fg
                    } else {
                        self.theme.fg
                    },
                };
                out.push(label);
                assert(drawn(out@) =~= sofar.push((i as int, label.at@, label.colour)));
            }
        }
        out
    }

    fn selection(&self) -> (r: Option<Rect>)
        requires
            self.wf(),
        ensures
            theme::area_of(r) == pictured(self@, 0).elem,
    {
        match self.layout.elem(self.sel as i32, self.scroll) {
            Some(elem) => {
                proof {
                    app::lemma_boxes_scale(
                        self@.theme,
                        self@.grid,
                        self@.scale,
                        self@.sel,
                        self@.scroll,
                    );
                }
                Some(elem.scaled(self.scale))
            },
            None => None,
        }
    }

    fn bar(&self) -> (r: Option<(Rect, Rect)>)
        requires
            self.wf(),
        ensures
            match r {
                Some((track, thumb)) => pictured(self@, 0).bar == Some((track@, thumb@)),
                None => pictured(self@, 0).bar is None,
            },
    {
        proof {
            if self@.grid.max_scroll() > 0 {
                app::lemma_bar_scales(self@.theme, self@.grid, self@.scale, self@.scroll);
            }
        }
        match self.layout.scrollbar(self.scroll, scrollbar_width(self.theme.margin)) {
            Some((track, thumb)) => Some((track.scaled(self.scale), thumb.scaled(self.scale))),
            None => None,
        }
    }

    /// Repaint background, selection highlight, labels and border: says what to
    /// paint into which slot, which is the compositor's to read from then on.
    ///
    /// Never paint into a buffer the compositor is still reading. Both slots
    /// outstanding means this repaint waits for a release rather than tearing
    /// the one on screen.
    pub fn paint(&mut self) -> (r: Option<Painting>)
        requires
            old(self).wf(),
        ensures
            final(self).wf(),
            final(self)@ == painted(old(self)@),
            match r {
                Some(p) => can_paint(old(self)@) && p@ == pictured(
                    old(self)@,
                    capture::first_free(old(self)@.chrome_busy),
                ),
                None => !can_paint(old(self)@),
            },
            r matches Some(p) ==> p.slot < SLOTS && theme::is_i32(
                old(self)@.grid.width * old(self)@.scale - p.border_px,
            ) && theme::is_i32(old(self)@.grid.height * old(self)@.scale - p.border_px),
    {
        let ghost before = self@;
        let slot = match self.free_chrome() {
            Some(slot) => slot,
            None => {
                self.repaint_due = true;
                return None;
            },
        };
        if self.chrome.is_none() {
            return None;
        }
        let painting = Painting {
            slot,
            elem: self.selection(),
            labels: self.labels(),
            bar: self.bar(),
            bg: self.theme.bg,
            sel_bg: self.theme.sel_bg,
            border: self.theme.border,
            border_px: self.theme.border_px * self.scale,
        };
        self.chrome_busy[slot] = true;
        self.repaint_due = false;
        Some(painting)
    }
}

/// The colour of a pixel under the labels.
pub open spec fn under(p: Picture, x: int, y: int) -> Argb {
    match p.elem {
        Some(elem) => if elem.covers(x, y) {
            p.sel_bg
        } else {
            p.bg
        },
        None => p.bg,
    }
}

/// The colour of a pixel that is painted over the labels, if it is.
pub open spec fn over(p: Picture, c: shm::Canvas, x: int, y: int) -> Option<Argb> {
    if shm::framed(c, p.border_px, x, y) {
        Some(p.border)
    } else {
        match p.bar {
            Some((track, thumb)) => if thumb.covers(x, y) {
                Some(p.border)
            } else if track.covers(x, y) {
                Some(p.bg)
            } else {
                None
            },
            None => None,
        }
    }
}

impl Painting {
    /// Paint what lies under the labels: the background and the selection.
    pub fn paint_under(&self, p: &mut Painter)
        requires
            old(p)@.wf(),
        ensures
            final(p)@.wf(),
            final(p).w == old(p).w,
            final(p).h == old(p).h,
            forall|x: int, y: int|
                old(p)@.has(x, y) ==> #[trigger] final(p)@.pixel(x, y) == shm::pixel_of(
                    under(self@, x, y),
                ),
            final(final(p).px)@ == final(old(p).px)@,
    {
        let ghost before = p@;
        p.fill(self.bg);
        let ghost filled = p@;
        if let Some(elem) = self.elem {
            p.rect(elem, self.sel_bg);
        }
        proof {
            assert forall|x: int, y: int| before.has(x, y) implies #[trigger] p@.pixel(x, y)
                == shm::pixel_of(under(self@, x, y)) by {
                assert(filled.has(x, y));
                assert(filled.pixel(x, y) == shm::pixel_of(self.bg));
            }
        }
    }

    /// Paint what lies over them: the scrollbar and the border.
    pub fn paint_over(&self, p: &mut Painter)
        requires
            old(p)@.wf(),
            theme::is_i32(old(p).w - self.border_px),
            theme::is_i32(old(p).h - self.border_px),
        ensures
            final(p)@.wf(),
            final(p).w == old(p).w,
            final(p).h == old(p).h,
            forall|x: int, y: int|
                old(p)@.has(x, y) ==> #[trigger] final(p)@.pixel(x, y) == match over(
                    self@,
                    old(p)@,
                    x,
                    y,
                ) {
                    Some(c) => shm::pixel_of(c),
                    None => old(p)@.pixel(x, y),
                },
            final(final(p).px)@ == final(old(p).px)@,
    {
        let ghost before = p@;
        let ghost mut with_track = p@;
        if let Some((track, thumb)) = self.bar {
            p.rect(track, self.bg);
            proof {
                with_track = p@;
            }
            p.rect(thumb, self.border);
        }
        let ghost barred = p@;
        p.frame(self.border_px, self.border);
        proof {
            assert forall|x: int, y: int| before.has(x, y) implies #[trigger] p@.pixel(x, y)
                == match over(self@, before, x, y) {
                Some(c) => shm::pixel_of(c),
                None => before.pixel(x, y),
            } by {
                assert(with_track.has(x, y) && barred.has(x, y));
                assert(with_track.pixel(x, y) == with_track.pixel(x, y));
                assert(barred.pixel(x, y) == barred.pixel(x, y));
            }
        }
    }
}

/// The state after the compositor let go of one of the chrome's slots.
pub open spec fn let_go(m: Model, slot: int) -> Model {
    if 0 <= slot < SLOTS {
        Model { chrome_busy: m.chrome_busy.update(slot, false), ..m }
    } else {
        m
    }
}

impl App {
    /// The compositor let go of one of the chrome's buffers. Two slots are
    /// enough to always have one free, but only if the free one is the one the
    /// compositor has released: a repaint that found both outstanding is taken
    /// now instead. Says whether there is one.
    pub fn chrome_released(&mut self, slot: usize) -> (r: bool)
        requires
            old(self).wf(),
        ensures
            final(self).wf(),
            final(self)@ == let_go(old(self)@, slot as int),
            r == old(self)@.repaint_due,
    {
        if slot < self.chrome_busy.len() {
            self.chrome_busy[slot] = false;
        }
        self.repaint_due
    }
}

// --- what holds of every overlay -------------------------------------------
/// No key takes the selection off screen, or the viewport off the grid.
pub proof fn law_every_key_keeps_the_selection_on_screen(m: Model, code: u32)
    requires
        m.wf(),
    ensures
        keyed(m, code).wf(),
{
    lemma_every_meaning_keeps_the_selection_on_screen(
        m,
        meaning(code, m.shift, m.grid.visible_rows as i32),
    );
}

proof fn lemma_every_meaning_keeps_the_selection_on_screen(m: Model, meaning: Meaning)
    requires
        m.wf(),
    ensures
        obeyed(m, meaning).wf(),
{
    match meaning {
        Meaning::Along(delta) => {
            if m.tiles.len() > 0 {
                law_the_selection_is_never_off_view(m, along(m, delta as int));
            }
        },
        Meaning::Rows(rows) => {
            if m.tiles.len() > 0 {
                theme::law_a_row_step_keeps_the_column(m.grid, m.sel, rows as int);
                law_the_selection_is_never_off_view(m, m.grid.step_row(m.sel, rows as int));
            }
        },
        Meaning::First => law_the_selection_is_never_off_view(m, 0),
        Meaning::Last => law_the_selection_is_never_off_view(m, last_tile(m)),
        _ => {},
    }
}

/// A move along the tiles and one back by as much end on the tile they began
/// on.
pub proof fn law_a_move_back_undoes_a_move(m: Model, delta: int)
    requires
        m.wf(),
        m.tiles.len() > 0,
    ensures
        moved(moved(m, delta), -delta).sel == m.sel,
{
    let n = m.tiles.len() as int;
    vstd::arithmetic::div_mod::lemma_sub_mod_noop(m.sel + delta, delta, n);
    let there = (m.sel + delta) % n;
    vstd::arithmetic::div_mod::lemma_sub_mod_noop(there, delta, n);
    vstd::arithmetic::div_mod::lemma_mod_twice(m.sel + delta, n);
    vstd::arithmetic::div_mod::lemma_small_mod(m.sel as nat, n as nat);
}

/// As many moves as there are tiles go all the way round.
pub proof fn law_moves_go_round(m: Model)
    requires
        m.wf(),
        m.tiles.len() > 0,
    ensures
        moved(m, m.tiles.len() as int).sel == m.sel,
{
    let n = m.tiles.len() as int;
    vstd::arithmetic::div_mod::lemma_mod_add_multiples_vanish(m.sel, n);
    vstd::arithmetic::div_mod::lemma_small_mod(m.sel as nat, n as nat);
}

/// A click picks the tile that the button went down on, if it comes up on that
/// tile too; and nothing otherwise.
pub proof fn law_a_click_picks_what_it_pressed(m: Model)
    requires
        m.wf(),
    ensures
        match m.pressed {
            Some(i) if under_pointer(m) == Some(i) => clicked(m, false).picked == Some(
                m.tiles[i].target,
            ) && clicked(m, false).ending == Ending::Picked,
            _ => clicked(m, false).picked == m.picked && clicked(m, false).ending == m.ending,
        },
        clicked(m, true).picked == m.picked,
        clicked(m, true).ending == m.ending,
        clicked(m, true).sel == m.sel && clicked(m, false).sel == m.sel,
{
}

/// Over the overlay itself, a tile is under the pointer exactly where the
/// pointer is in that tile's element, where no gap is negative.
pub proof fn law_the_pointer_finds_the_element_it_is_in(m: Model, h: Hover, i: int)
    requires
        m.wf(),
        m.grid.gap >= 0,
        points(m),
        m.hover == Some(h),
        h.surface == Surface::Overlay,
        m.grid.shows(i, m.scroll),
    ensures
        under_pointer(m) == Some(i) <==> m.grid.elem(i, m.scroll).covers(
            theme::quot(h.x as int, 256),
            theme::quot(h.y as int, 256),
        ),
{
    let (x, y) = (theme::quot(h.x as int, 256), theme::quot(h.y as int, 256));
    if m.grid.elem(i, m.scroll).covers(x, y) {
        theme::law_an_element_is_hit_everywhere(m.grid, i, m.scroll, x, y);
    }
    if under_pointer(m) == Some(i) {
        theme::law_a_hit_is_inside_its_element(m.grid, m.scroll, x, y);
    }
}

/// A flick that does not turn round loses nothing: what it moved and what is
/// left over come to all of it, and less than a move is left over.
pub proof fn law_a_flick_loses_nothing(m: Model, value: int)
    requires
        m.wf(),
        m.scroll_finger,
        i32::MIN <= value <= i32::MAX,
    ensures
        moves(m, value).step * moves(m, value).count * FINGER_STEP + scrolled(m, value).scroll_acc
            == left_over(m, value) + value,
        -FINGER_STEP < scrolled(m, value).scroll_acc < FINGER_STEP,
{
    let sum = left_over(m, value) + value;
    let count = moves(m, value).count as int;
    assert(count == magnitude(sum) / (FINGER_STEP as int));
    if sum != 0 && value != 0 {
        assert((sum < 0) == (value < 0));
    }
    if value > 0 {
        assert(1 * count == count);
    } else {
        assert(-1 * count == -count);
    }
}

/// A wheel moves once a notch, and a flick by less than a step not at all.
pub proof fn law_small_flicks_wait(m: Model, value: int)
    requires
        m.wf(),
        i32::MIN <= value <= i32::MAX,
    ensures
        !m.scroll_finger ==> moves(m, value).count == 1 && scrolled(m, value) == m,
        m.scroll_finger && magnitude(left_over(m, value) + value) < FINGER_STEP ==> moves(
            m,
            value,
        ).count == 0,
{
}

/// A repaint never goes into a buffer that the compositor reads, and takes the
/// one it goes into.
pub proof fn law_a_repaint_never_tears(m: Model)
    requires
        m.wf(),
        can_paint(m),
    ensures
        ({
            let slot = capture::first_free(m.chrome_busy);
            0 <= slot < SLOTS && !m.chrome_busy[slot] && painted(m).chrome_busy[slot]
        }),
{
    capture::lemma_first_free(m.chrome_busy);
}

/// A repaint that finds every buffer outstanding is not lost: it is due until
/// one is released, and can be painted then.
pub proof fn law_a_late_repaint_is_taken_at_the_release(m: Model, slot: int)
    requires
        m.wf(),
        m.chrome is Some,
        !can_paint(m),
        0 <= slot < SLOTS,
    ensures
        painted(m).repaint_due,
        let_go(painted(m), slot).repaint_due,
        can_paint(let_go(painted(m), slot)),
{
    let after = let_go(painted(m), slot).chrome_busy;
    capture::lemma_first_free(after);
    assert(!after[slot]);
}

/// Enter picks the selection, and no other key picks anything: after a cancel
/// there is nothing to report.
pub proof fn law_only_enter_picks_from_the_keyboard(m: Model, code: u32)
    requires
        m.wf(),
    ensures
        (code == KEY_ENTER || code == KEY_KPENTER) && m.tiles.len() > 0 ==> keyed(m, code).picked
            == Some(m.tiles[m.sel].target) && keyed(m, code).ending == Ending::Picked,
        code != KEY_ENTER && code != KEY_KPENTER ==> keyed(m, code).picked == m.picked,
        code == KEY_ESC || code == KEY_Q ==> keyed(m, code).ending == Ending::Cancelled,
{
}

/// The state after `count` moves of `step` each.
pub open spec fn moved_often(m: Model, step: int, count: nat) -> Model
    decreases count,
{
    if count == 0 {
        m
    } else {
        moved(moved_often(m, step, (count - 1) as nat), step)
    }
}

/// Moves add up: many of them end where one of their sum does, and keep the
/// selection on screen.
pub proof fn law_moves_add_up(m: Model, step: int, count: nat)
    requires
        m.wf(),
    ensures
        moved_often(m, step, count).wf(),
        moved_often(m, step, count).tiles == m.tiles,
        m.tiles.len() > 0 ==> moved_often(m, step, count).sel == (m.sel + step * count) % (
        m.tiles.len() as int),
    decreases count,
{
    if count == 0 {
        assert(step * 0 == 0);
        if m.tiles.len() > 0 {
            vstd::arithmetic::div_mod::lemma_small_mod(m.sel as nat, m.tiles.len() as nat);
        }
    } else {
        let before = moved_often(m, step, (count - 1) as nat);
        law_moves_add_up(m, step, (count - 1) as nat);
        if m.tiles.len() > 0 {
            let n = m.tiles.len() as int;
            let so_far = m.sel + step * (count - 1);
            law_the_selection_is_never_off_view(before, along(before, step));
            vstd::arithmetic::div_mod::lemma_add_mod_noop(so_far, step, n);
            vstd::arithmetic::div_mod::lemma_add_mod_noop(so_far % n, step, n);
            vstd::arithmetic::div_mod::lemma_mod_twice(so_far, n);
            assert(step * (count - 1) + step == step * count) by (nonlinear_arith);
        }
    }
}

/// A scroll moves the selection by all the moves that it comes to, round from
/// the last tile to the first.
pub proof fn law_a_scroll_moves_by_its_count(m: Model, value: int)
    requires
        m.wf(),
        m.tiles.len() > 0,
        i32::MIN <= value <= i32::MAX,
    ensures
        ({
            let all = moves(m, value);
            let after = moved_often(scrolled(m, value), all.step as int, all.count as nat);
            &&& after.wf()
            &&& after.sel == (m.sel + all.step * all.count) % (m.tiles.len() as int)
        }),
{
    law_moves_add_up(scrolled(m, value), moves(m, value).step as int, moves(m, value).count as nat);
}

/// That one event leads from a state to the next: a key, a button, the end of
/// the overlay or of its keyboard, or one that neither picks nor ends anything.
pub open spec fn leads_to(m: Model, after: Model) -> bool {
    ||| exists|code: u32| after == #[trigger] keyed(m, code)
    ||| exists|down: bool| after == #[trigger] clicked(m, down)
    ||| after == m.ended(Ending::Closed)
    ||| after == m.ended(Ending::Unfocused)
    ||| after.ending == m.ending && after.picked == m.picked
}

/// That these states are a run of the overlay: it is open in the first of them,
/// and in each but the last.
pub open spec fn is_run(run: Seq<Model>) -> bool {
    &&& run.len() > 0
    &&& !run[0].finished()
    &&& forall|i: int| 0 <= i < run.len() ==> (#[trigger] run[i]).wf()
    &&& forall|i: int| 0 <= i < run.len() - 1 ==> !(#[trigger] run[i]).finished()
    &&& forall|i: int| 1 <= i < run.len() ==> leads_to(run[i - 1], #[trigger] run[i])
}

/// A run that ends without a pick reports nothing, and its status says so: one
/// that was cancelled, or closed, or lost the keyboard.
pub proof fn law_a_run_without_a_pick_reports_nothing(
    run: Seq<Model>,
    r: Report,
    format: Format,
)
    requires
        is_run(run),
        run.last().ending != Ending::Picked,
        app::reports(r, run.last(), format),
    ensures
        r is Nothing,
        r.code() == 1,
{
    let last = run.last();
    if run.len() > 1 {
        let before = run[run.len() - 2];
        assert(!before.finished() && before.wf());
        assert(leads_to(run[run.len() - 1 - 1], run[run.len() - 1]));
        assert(last.picked is None) by {
            if exists|code: u32| last == #[trigger] keyed(before, code) {
                let code = choose|code: u32| last == #[trigger] keyed(before, code);
                law_only_enter_picks_from_the_keyboard(before, code);
                assert(code != KEY_ENTER && code != KEY_KPENTER);
            }
        }
    } else {
        assert(run[0].wf());
    }
}

/// A run that ends with a pick reports one of its tiles.
pub proof fn law_a_picked_run_reports_a_tile(run: Seq<Model>)
    requires
        is_run(run),
        run.last().tiles.len() > 0,
        run.last().ending == Ending::Picked,
    ensures
        exists|i: int|
            0 <= i < run.last().tiles.len() && run.last().picked == Some(
                (#[trigger] run.last().tiles[i]).target,
            ),
{
    let last = run.last();
    let before = run[run.len() - 2];
    assert(!before.finished() && before.wf());
    assert(leads_to(run[run.len() - 1 - 1], run[run.len() - 1]));
    if exists|code: u32| last == #[trigger] keyed(before, code) {
        let code = choose|code: u32| last == #[trigger] keyed(before, code);
        assert(last.picked == Some(last.tiles[before.sel].target));
    } else if exists|down: bool| last == #[trigger] clicked(before, down) {
        let down = choose|down: bool| last == #[trigger] clicked(before, down);
        assert(before.pressed is Some);
        assert(last.picked == Some(last.tiles[before.pressed->Some_0].target));
    }
}

/// Any other key does nothing.
pub proof fn law_no_other_key_does_anything(m: Model, code: u32)
    requires
        m.wf(),
        code != 1 && code != 15 && code != 16 && code != 28 && !(35 <= code <= 38) && code != 42
            && code != 54 && code != 96 && !(102 <= code <= 109),
    ensures
        keyed(m, code) == m,
        asks(m, meaning(code, m.shift, m.grid.visible_rows as i32)) is Nothing,
{
}

/// Right, `l` and Tab go to the next tile, and from the last to the first; Left,
/// `h` and Shift with Tab go to the one before, and from the first to the last.
pub proof fn law_keys_move_along_the_tiles(m: Model, code: u32)
    requires
        m.wf(),
        m.tiles.len() > 0,
    ensures
        code == 106 || code == 38 || code == 15 && !m.shift ==> keyed(m, code).sel == if m.sel + 1
            < m.tiles.len() {
            m.sel + 1
        } else {
            0
        },
        code == 105 || code == 35 || code == 15 && m.shift ==> keyed(m, code).sel == if m.sel > 0 {
            m.sel - 1
        } else {
            m.tiles.len() - 1
        },
{
    let n = m.tiles.len() as int;
    let (next, last) = (m.sel + 1, m.sel - 1);
    if next < n {
        vstd::arithmetic::div_mod::lemma_small_mod(next as nat, n as nat);
    } else {
        vstd::arithmetic::div_mod::lemma_mod_self_0(n);
    }
    if last >= 0 {
        vstd::arithmetic::div_mod::lemma_small_mod(last as nat, n as nat);
    } else {
        vstd::arithmetic::div_mod::lemma_fundamental_div_mod_converse(-1, n, -1, n - 1);
    }
}

/// A key forwards and one back, in either order, end on the tile they began on.
pub proof fn law_a_key_back_undoes_a_key(m: Model, forth: u32, back: u32)
    requires
        m.wf(),
        m.tiles.len() > 0,
        forth == 106 || forth == 38 || forth == 15 && !m.shift,
        back == 105 || back == 35 || back == 15 && m.shift,
    ensures
        keyed(keyed(m, forth), back).sel == m.sel,
        keyed(keyed(m, back), forth).sel == m.sel,
{
    let (next, last) = (moved(m, 1), moved(m, -1));
    assert(keyed(m, forth) == next);
    assert(keyed(m, back) == last);
    assert(keyed(next, back) == moved(next, -1));
    assert(keyed(last, forth) == moved(last, 1));
    law_a_move_back_undoes_a_move(m, 1);
    law_a_move_back_undoes_a_move(m, -1);
}

/// Down and `j` go one row down, Up and `k` one row up, Page Down and Page Up as
/// many as are on screen, each in its column: to the last tile where the last
/// row has none there, and no further than the first row and the last.
pub proof fn law_keys_move_by_rows(m: Model, code: u32)
    requires
        m.wf(),
        m.tiles.len() > 0,
        code == 108 || code == 36 || code == 103 || code == 37 || code == 109 || code == 104,
    ensures
        ({
            let (c, n) = (m.grid.cols, m.tiles.len() as int);
            let by = if code == 108 || code == 36 {
                1
            } else if code == 103 || code == 37 {
                -1
            } else if code == 109 {
                m.grid.visible_rows
            } else {
                -m.grid.visible_rows
            };
            let to = m.sel / c + by;
            let row = if to < 0 {
                0
            } else if to >= (n + c - 1) / c {
                (n + c - 1) / c - 1
            } else {
                to
            };
            let there = row * c + m.sel % c;
            keyed(m, code).sel == if there < n {
                there
            } else {
                n - 1
            }
        }),
{
    theme::lemma_grid_rows(m.grid);
}

/// A row down and one up, or a page, end on the tile they began on, where there
/// is a tile in the row between.
pub proof fn law_a_row_back_undoes_a_row(m: Model, forth: u32, back: u32)
    requires
        m.wf(),
        m.tiles.len() > 0,
        (forth == 108 || forth == 36) && (back == 103 || back == 37),
    ensures
        m.sel + m.grid.cols < m.tiles.len() ==> keyed(m, forth).sel == m.sel + m.grid.cols
            && keyed(keyed(m, forth), back).sel == m.sel,
        m.sel >= m.grid.cols ==> keyed(m, back).sel == m.sel - m.grid.cols && keyed(
            keyed(m, back),
            forth,
        ).sel == m.sel,
        m.sel < m.grid.cols ==> keyed(m, back).sel == m.sel,
{
    law_every_key_keeps_the_selection_on_screen(m, forth);
    law_every_key_keeps_the_selection_on_screen(m, back);
    let (c, n, s) = (m.grid.cols, m.tiles.len() as int, m.sel);
    lemma_next_row(s, c, n);
    if s >= c {
        lemma_next_row(s - c, c, n);
    }
}

/// The tile one row further on stands in the same column of the next row.
proof fn lemma_next_row(s: int, c: int, n: int)
    requires
        0 <= s < n,
        c >= 1,
    ensures
        0 <= s / c < (n + c - 1) / c,
        (s / c) * c + s % c == s,
        (s + c) / c == s / c + 1,
        (s + c) % c == s % c,
        (s / c + 1) * c + s % c == s + c,
        s + c < n ==> s / c + 1 < (n + c - 1) / c,
        s < c ==> s / c == 0,
{
    vstd::arithmetic::div_mod::lemma_fundamental_div_mod(s, c);
    let (q, r) = (s / c, s % c);
    assert(c * q == q * c && (q + 1) * c == q * c + c) by (nonlinear_arith);
    vstd::arithmetic::div_mod::lemma_fundamental_div_mod_converse(s + c, c, q + 1, r);
    vstd::arithmetic::div_mod::lemma_fundamental_div_mod(n + c - 1, c);
    let (rows, over) = ((n + c - 1) / c, (n + c - 1) % c);
    assert(c * rows == rows * c) by (nonlinear_arith);
    assert(q >= 0 && q < rows) by (nonlinear_arith)
        requires
            q * c + r == s,
            0 <= r < c,
            0 <= s < n,
            rows * c + over == n + c - 1,
            0 <= over < c,
    ;
    if s + c < n {
        assert(q + 1 < rows) by (nonlinear_arith)
            requires
                q * c + r == s,
                0 <= r < c,
                s + c < n,
                rows * c + over == n + c - 1,
                0 <= over < c,
        ;
    }
    if s < c {
        assert(q == 0) by (nonlinear_arith)
            requires
                q * c + r == s,
                0 <= r,
                s < c,
                q >= 0,
                c >= 1,
        ;
    }
}

/// Home goes to the first tile and End to the last.
pub proof fn law_keys_jump_to_the_ends(m: Model)
    requires
        m.wf(),
        m.tiles.len() > 0,
    ensures
        keyed(m, 102).sel == 0,
        keyed(m, 107).sel == m.tiles.len() - 1,
{
}

/// Escape and `q` cancel, Enter and the keypad's pick what is selected, a Shift
/// is held; and none of them moves the selection or the viewport.
pub proof fn law_keys_end_the_run(m: Model, code: u32)
    requires
        m.wf(),
    ensures
        code == 1 || code == 16 ==> keyed(m, code) == (Model { ending: Ending::Cancelled, ..m }),
        code == 28 || code == 96 ==> keyed(m, code) == (Model {
            ending: Ending::Picked,
            picked: keyed(m, code).picked,
            ..m
        }),
        (code == 28 || code == 96) && m.tiles.len() > 0 ==> keyed(m, code).picked == Some(
            m.tiles[m.sel].target,
        ),
        code == 42 || code == 54 ==> keyed(m, code) == (Model { shift: true, ..m }),
        is_shift(code) <==> code == 42 || code == 54,
{
}

/// A key that moves changes the selection and the viewport alone, and asks for
/// the tiles to be placed again just where the viewport moved.
pub proof fn law_a_move_changes_nothing_else(m: Model, code: u32)
    requires
        m.wf(),
        m.tiles.len() > 0,
        code == 15 || code == 35 || code == 36 || code == 37 || code == 38 || 102 <= code <= 109,
    ensures
        keyed(m, code) == (Model { sel: keyed(m, code).sel, scroll: keyed(m, code).scroll, ..m }),
        asks(m, meaning(code, m.shift, m.grid.visible_rows as i32)) == if keyed(m, code).scroll
            != m.scroll {
            Redraw::Scroll
        } else {
            Redraw::Paint
        },
{
}

/// Selecting a tile selects that one and leaves everything but the viewport as
/// it was; the viewport stays where it is if the tile is on screen, and else
/// moves to where the tile is just in its first row or its last.
pub proof fn law_a_selection_scrolls_the_least(m: Model, i: int)
    requires
        m.wf(),
        0 <= i < m.tiles.len(),
    ensures
        ({
            let after = selected(m, i);
            let row = i / m.grid.cols;
            &&& after.sel == i
            &&& after == (Model { sel: i, scroll: after.scroll, ..m })
            &&& m.scroll <= row < m.scroll + m.grid.visible_rows ==> after.scroll == m.scroll
            &&& row < m.scroll ==> after.scroll == row
            &&& row >= m.scroll + m.grid.visible_rows ==> after.scroll == row
                - m.grid.visible_rows + 1
            &&& redraw(m, i) == if after.scroll == m.scroll {
                Redraw::Paint
            } else {
                Redraw::Scroll
            }
        }),
{
    theme::law_reveal_moves_as_little_as_possible(m.grid, i, m.scroll, m.scroll);
    let after = selected(m, i).scroll;
    assert(m.grid.shows(i, after));
}

/// A scroll forwards moves forwards and one backwards backwards: a wheel by one
/// tile a notch, and a touchpad by one for every fifteen pixels that its flicks
/// have come to, the rest being kept; turning round starts the sum again.
pub proof fn law_a_scroll_follows_its_direction(m: Model, value: int)
    requires
        m.wf(),
        i32::MIN <= value <= i32::MAX,
        value != 0,
    ensures
        ({
            let all = moves(m, value);
            let after = scrolled(m, value);
            let turned = m.scroll_acc > 0 && value < 0 || m.scroll_acc < 0 && value > 0;
            let sum = if turned {
                value
            } else {
                m.scroll_acc + value
            };
            &&& all.step == if value > 0 {
                1int
            } else {
                -1
            }
            &&& !m.scroll_finger ==> all.count == 1 && after == m
            &&& m.scroll_finger ==> {
                &&& all.step * all.count * 3840 + after.scroll_acc == sum
                &&& -3840 < after.scroll_acc < 3840
                &&& value > 0 ==> after.scroll_acc >= 0
                &&& value < 0 ==> after.scroll_acc <= 0
                &&& after == (Model { scroll_acc: after.scroll_acc, ..m })
            }
        }),
{
    if m.scroll_finger {
        law_a_flick_loses_nothing(m, value);
    }
}

/// Over a tile's own surface the pointer is over that tile; over a surface of
/// somebody else's, or over none, over no tile.
pub proof fn law_a_tiles_surface_answers_for_it(m: Model, h: Hover, i: usize)
    requires
        m.wf(),
        m.hover == Some(h),
    ensures
        h.surface == Surface::Tile(i) && i < m.tiles.len() && m.tiles[i as int].surface
            ==> under_pointer(m) == Some(i as int),
        h.surface == Surface::Tile(i) && (i >= m.tiles.len() || !m.tiles[i as int].surface)
            ==> under_pointer(m) is None,
        h.surface is Other ==> under_pointer(m) is None,
        under_pointer(Model { hover: None, ..m }) is None,
{
}

/// The pointer's position counts whole pixels of 256 parts each.
pub proof fn law_the_pointer_counts_whole_pixels(m: Model, h: Hover, x: int, y: int)
    requires
        m.wf(),
        m.hover == Some(h),
        h.surface is Overlay,
        0 <= 256 * x <= h.x < 256 * (x + 1),
        0 <= 256 * y <= h.y < 256 * (y + 1),
    ensures
        under_pointer(m) == m.grid.hit(x, y, m.scroll),
{
}

/// A press remembers the tile it is over, and a release forgets it; a press
/// picks nothing, and a release picks the tile just where both were over it.
pub proof fn law_a_press_remembers_its_tile(m: Model)
    requires
        m.wf(),
    ensures
        clicked(m, true) == (Model { pressed: under_pointer(m), ..m }),
        clicked(m, false).pressed is None,
        clicked(m, false).ending == Ending::Picked <==> m.ending == Ending::Picked || m.pressed
            is Some && m.pressed == under_pointer(m),
        clicked(m, false) == (Model {
            pressed: None,
            picked: clicked(m, false).picked,
            ending: clicked(m, false).ending,
            ..m
        }),
{
}

/// A click on a tile, down and up without moving, picks that tile.
pub proof fn law_a_click_picks_the_tile_under_it(m: Model, i: int)
    requires
        m.wf(),
        0 <= i < m.tiles.len(),
        under_pointer(m) == Some(i),
    ensures
        clicked(clicked(m, true), false).picked == Some(m.tiles[i].target),
        clicked(clicked(m, true), false).ending == Ending::Picked,
{
    assert(under_pointer(clicked(m, true)) == under_pointer(m));
}

/// A tile that is on screen and has a thumbnail is shown, with the slot it
/// shows, fitted into its box; one that is scrolled off is hidden if it was
/// shown; any other stays as it is.
pub proof fn law_a_tile_on_screen_is_shown(p: Placement, m: Model, i: int)
    requires
        m.wf(),
        0 <= i < m.tiles.len(),
        places(p, m, i),
    ensures
        ({
            let t = m.tiles[i];
            let row = i / m.grid.cols - m.scroll;
            let on_screen = 0 <= row < m.grid.visible_rows;
            &&& p is Show <==> on_screen && t.ready
            &&& p is Hide <==> !on_screen && t.surface
            &&& p matches Placement::Show(s) ==> {
                &&& Some(s.slot as int) == t.showing
                &&& s.fresh != t.surface
                &&& m.grid.tile(i, m.scroll).encloses(s.at@)
                &&& t.size.0 <= i32::MAX ==> s.w == t.size.0
                &&& t.size.1 <= i32::MAX ==> s.h == t.size.1
            }
            &&& placed(m, i) == (Shot { surface: placed(m, i).surface, ..t })
            &&& placed(m, i).surface <==> t.surface || p is Show
        }),
{
    assert(m.tiles[i].wf());
    if m.grid.shows(i, m.scroll) {
        law_thumbnails_stay_in_their_boxes(m, i);
    }
}

/// A thumbnail keeps the proportions of its window to within a pixel: of its
/// buffer as it is, or turned, where the buffer lies on its side.
pub proof fn law_a_thumbnail_keeps_its_proportions(m: Model, i: int)
    requires
        m.wf(),
        m.grid.shows(i, m.scroll),
        0 < m.tiles[i].size.0 <= i32::MAX,
        0 < m.tiles[i].size.1 <= i32::MAX,
    ensures
        ({
            let (t, at, into) = (m.tiles[i], thumbnail(m, i), m.grid.tile(i, m.scroll));
            let (w, h) = if t.transform.sideways() {
                (t.size.1 as int, t.size.0 as int)
            } else {
                (t.size.0 as int, t.size.1 as int)
            };
            &&& at.w == into.w || at.h == into.h
            &&& 1 < at.h < into.h ==> at.h * w <= into.w * h < (at.h + 1) * w
            &&& 1 < at.w < into.w ==> at.w * h <= into.h * w < (at.w + 1) * h
            &&& -1 <= 2 * at.x + at.w - (2 * into.x + into.w) <= 1
            &&& -1 <= 2 * at.y + at.h - (2 * into.y + into.h) <= 1
        }),
{
    let t = m.tiles[i];
    let into = m.grid.tile(i, m.scroll);
    let (w, h) = if t.transform.sideways() {
        (t.size.1 as int, t.size.0 as int)
    } else {
        (t.size.0 as int, t.size.1 as int)
    };
    theme::law_a_fit_keeps_its_proportions(w, h, into);
}

/// A length keeps its bits as a coordinate.
pub proof fn law_a_length_keeps_its_bits(n: u32)
    ensures
        -0x8000_0000 <= signed(n) <= 0x7fff_ffff,
        signed(n) == n || signed(n) == n - 0x1_0000_0000,
{
}

/// Just the tiles on screen have a label drawn, each once, in order, at its
/// place and to scale, in the colour for the selection where it is selected.
pub proof fn law_every_tile_on_screen_has_its_label(m: Model, n: int)
    requires
        m.wf(),
        m.grid.labels,
        0 <= n <= m.tiles.len(),
    ensures
        ({
            let all = labels_of(m, n);
            &&& forall|k: int|
                0 <= k < all.len() ==> 0 <= (#[trigger] all[k]).0 < n && m.grid.shows(
                    all[k].0,
                    m.scroll,
                ) && all[k].2 == (if all[k].0 == m.sel {
                    m.theme.sel_fg
                } else {
                    m.theme.fg
                }) && ({
                    let at = m.grid.label(all[k].0, m.scroll);
                    all[k].1 == Area {
                        x: at.x * m.scale,
                        y: at.y * m.scale,
                        w: at.w * m.scale,
                        h: at.h * m.scale,
                    }
                })
            &&& forall|k: int, l: int|
                0 <= k < l < all.len() ==> (#[trigger] all[k]).0 < (#[trigger] all[l]).0
            &&& forall|i: int|
                0 <= i < n && #[trigger] m.grid.shows(i, m.scroll) ==> exists|k: int|
                    0 <= k < all.len() && (#[trigger] all[k]).0 == i
        }),
    decreases n,
{
    if n > 0 {
        law_every_tile_on_screen_has_its_label(m, n - 1);
        let (all, before) = (labels_of(m, n), labels_of(m, n - 1));
        if m.grid.shows(n - 1, m.scroll) {
            assert(all[before.len() as int].0 == n - 1);
            assert forall|k: int| 0 <= k < before.len() implies #[trigger] all[k] == before[k] by {}
            assert forall|i: int|
                0 <= i < n && #[trigger] m.grid.shows(i, m.scroll) implies exists|k: int|
                0 <= k < all.len() && (#[trigger] all[k]).0 == i by {
                if i < n - 1 {
                    let k = choose|k: int| 0 <= k < before.len() && (#[trigger] before[k]).0 == i;
                    assert(all[k].0 == i);
                }
            }
        }
    }
}

/// Without labels none is drawn.
pub proof fn law_labels_can_be_left_out(m: Model, n: int)
    requires
        !m.grid.labels,
    ensures
        labels_of(m, n).len() == 0,
    decreases n,
{
    if n > 0 {
        law_labels_can_be_left_out(m, n - 1);
    }
}

/// A picture is of its state: the selected element and the scrollbar to scale,
/// the theme's colours, and its border, as many pixels as a scale makes of it.
pub proof fn law_a_picture_is_of_its_state(m: Model, slot: int)
    requires
        m.wf(),
        m.tiles.len() > 0,
    ensures
        ({
            let p = pictured(m, slot);
            let at = m.grid.elem(m.sel, m.scroll);
            &&& p.slot == slot
            &&& p.elem == Some(
                Area {
                    x: at.x * m.scale,
                    y: at.y * m.scale,
                    w: at.w * m.scale,
                    h: at.h * m.scale,
                },
            )
            &&& p.bg == m.theme.bg
            &&& p.sel_bg == m.theme.sel_bg
            &&& p.border == m.theme.border
            &&& p.border_px == m.theme.border_px * m.scale
            &&& p.labels == labels_of(m, m.tiles.len() as int)
            &&& p.bar is Some <==> m.grid.rows > m.grid.visible_rows
            &&& p.bar matches Some(b) ==> {
                let width = bar_width(m.theme.margin as int);
                let (track, thumb) = (m.grid.track(width), m.grid.thumb(m.scroll, width));
                &&& b.0 == Area {
                    x: track.x * m.scale,
                    y: track.y * m.scale,
                    w: track.w * m.scale,
                    h: track.h * m.scale,
                }
                &&& b.1 == Area {
                    x: thumb.x * m.scale,
                    y: thumb.y * m.scale,
                    w: thumb.w * m.scale,
                    h: thumb.h * m.scale,
                }
            }
        }),
{
}

/// The scrollbar is a third of the margin wide, and at least two pixels.
pub proof fn law_a_scrollbar_is_a_third_of_the_margin(margin: int)
    ensures
        bar_width(margin) >= 2,
        margin >= 6 ==> 3 * bar_width(margin) <= margin < 3 * bar_width(margin) + 3,
        margin < 9 ==> bar_width(margin) == 2,
{
}

/// The selection is painted over the background, all of the element and nothing
/// else; the border over everything; and of the scrollbar the thumb over its
/// track.
pub proof fn law_each_pixel_has_its_colour(p: Picture, c: shm::Canvas, x: int, y: int)
    requires
        c.has(x, y),
    ensures
        p.elem is None ==> under(p, x, y) == p.bg,
        p.elem matches Some(e) ==> under(p, x, y) == if e.x <= x < e.x + e.w && e.y <= y < e.y
            + e.h {
            p.sel_bg
        } else {
            p.bg
        },
        ({
            let edge = x < p.border_px || y < p.border_px || c.w - x <= p.border_px || c.h - y
                <= p.border_px;
            let thumb = p.bar matches Some(b) && b.1.x <= x < b.1.x + b.1.w && b.1.y <= y < b.1.y
                + b.1.h;
            let track = p.bar matches Some(b) && b.0.x <= x < b.0.x + b.0.w && b.0.y <= y < b.0.y
                + b.0.h;
            &&& edge || thumb ==> over(p, c, x, y) == Some(p.border)
            &&& !edge && !thumb && track ==> over(p, c, x, y) == Some(p.bg)
            &&& !edge && !thumb && !track ==> over(p, c, x, y) is None
        }),
{
}

/// A repaint takes the first buffer that the compositor does not read and leaves
/// the other; without one it is due, and before there is a picture it does
/// nothing.
pub proof fn law_a_repaint_takes_a_free_buffer(m: Model)
    requires
        m.wf(),
    ensures
        m.chrome_busy[0] && m.chrome_busy[1] ==> !can_paint(m) && painted(m) == (Model {
            repaint_due: true,
            ..m
        }),
        !(m.chrome_busy[0] && m.chrome_busy[1]) && m.chrome is None ==> !can_paint(m) && painted(m)
            == m,
        m.chrome is Some && !m.chrome_busy[0] ==> can_paint(m) && capture::first_free(
            m.chrome_busy,
        ) == 0 && painted(m).chrome_busy == seq![true, m.chrome_busy[1]] && !painted(m).repaint_due,
        m.chrome is Some && m.chrome_busy[0] && !m.chrome_busy[1] ==> can_paint(m)
            && capture::first_free(m.chrome_busy) == 1 && painted(m).chrome_busy == seq![true, true]
            && !painted(m).repaint_due,
        painted(m) == (Model {
            chrome_busy: painted(m).chrome_busy,
            repaint_due: painted(m).repaint_due,
            ..m
        }),
{
    capture::lemma_first_free(m.chrome_busy);
    let slot = capture::first_free(m.chrome_busy);
    if !m.chrome_busy[0] {
        assert(slot == 0) by {
            if slot > 0 {
                assert(m.chrome_busy[0]);
            }
        }
        assert(painted(m).chrome_busy =~= m.chrome_busy || painted(m).chrome_busy =~= seq![
            true,
            m.chrome_busy[1],
        ]);
    } else if !m.chrome_busy[1] {
        assert(slot == 1) by {
            if slot > 1 {
                assert(m.chrome_busy[1]);
            }
        }
        assert(painted(m).chrome_busy =~= m.chrome_busy || painted(m).chrome_busy =~= seq![
            true,
            true,
        ]);
    } else {
        assert(slot == 2) by {
            if slot < 2 {
                assert(slot == 0 || slot == 1);
            }
        }
    }
    assert(painted(m) =~= (Model {
        chrome_busy: painted(m).chrome_busy,
        repaint_due: painted(m).repaint_due,
        ..m
    }));
}

/// A buffer of the overlay's that the compositor let go of is free, and the
/// other stays as it was.
pub proof fn law_a_released_buffer_is_free(m: Model, slot: int, other: int)
    requires
        m.wf(),
        0 <= slot < 2,
    ensures
        !let_go(m, slot).chrome_busy[slot],
        0 <= other < 2 && other != slot ==> let_go(m, slot).chrome_busy[other]
            == m.chrome_busy[other],
        let_go(m, slot) == (Model { chrome_busy: let_go(m, slot).chrome_busy, ..m }),
{
    assert(let_go(m, slot) =~= (Model { chrome_busy: let_go(m, slot).chrome_busy, ..m }));
}

/// Nothing moves where there are no tiles.
pub proof fn law_nothing_moves_without_tiles(m: Model, code: u32, delta: int)
    requires
        m.wf(),
        m.tiles.len() == 0,
    ensures
        keyed(m, code).sel == 0,
        moved(m, delta) == m,
        stepped(m, delta) == m,
{
    assert(m.grid.rows == 0) by {
        vstd::arithmetic::div_mod::lemma_fundamental_div_mod_converse(
            m.grid.cols - 1,
            m.grid.cols,
            0,
            m.grid.cols - 1,
        );
    }
}

/// A move along the tiles is that many tiles along, round from one end to the
/// other.
pub proof fn law_a_move_counts_tiles(m: Model, delta: int)
    requires
        m.wf(),
        m.tiles.len() > 0,
    ensures
        0 <= moved(m, delta).sel < m.tiles.len(),
        (moved(m, delta).sel - (m.sel + delta)) % (m.tiles.len() as int) == 0,
        moved(m, delta) == selected(m, moved(m, delta).sel),
{
    let n = m.tiles.len() as int;
    vstd::arithmetic::div_mod::lemma_fundamental_div_mod(m.sel + delta, n);
    let q = (m.sel + delta) / n;
    let d = moved(m, delta).sel - (m.sel + delta);
    assert(d == -q * n + 0) by (nonlinear_arith)
        requires
            d == -(n * q),
    ;
    vstd::arithmetic::div_mod::lemma_fundamental_div_mod_converse(d, n, -q, 0);
}

/// What a painting shows is what it holds.
pub proof fn law_a_painting_shows_what_it_holds(p: Painting, i: int)
    ensures
        p@.slot == p.slot && p@.bg == p.bg && p@.sel_bg == p.sel_bg && p@.border == p.border
            && p@.border_px == p.border_px,
        p@.elem is Some == p.elem is Some && (p.elem matches Some(r) ==> p@.elem == Some(r@)),
        p@.bar is Some == p.bar is Some && (p.bar matches Some(b) ==> p@.bar == Some(
            (b.0@, b.1@),
        )),
        p@.labels.len() == p.labels@.len(),
        0 <= i < p.labels@.len() ==> p@.labels[i] == (
            p.labels@[i].tile as int,
            p.labels@[i].at@,
            p.labels@[i].colour,
        ),
{
}

// --- one event after another -----------------------------------------------
/// The pointer came, onto that surface and there.
pub open spec fn pointer_in(m: Model, h: Hover) -> Model {
    Model { hover: Some(h), ..m }
}

/// The pointer moved there, on the surface it is on.
pub open spec fn pointer_at(m: Model, x: i32, y: i32) -> Model {
    match m.hover {
        Some(h) => Model { hover: Some(Hover { surface: h.surface, x, y }), ..m },
        None => m,
    }
}

/// The pointer went, and what it held with it.
pub open spec fn pointer_out(m: Model) -> Model {
    Model { hover: None, pressed: None, ..m }
}

/// A key came up.
pub open spec fn let_up(m: Model, code: u32) -> Model {
    if is_shift(code) {
        Model { shift: false, ..m }
    } else {
        m
    }
}

/// The keyboard came, with those keys down.
pub open spec fn keyboard_in(m: Model, keys: Seq<u32>) -> Model {
    Model {
        focused: true,
        shift: exists|i: int| 0 <= i < keys.len() && is_shift(#[trigger] keys[i]),
        ..m
    }
}

/// The keyboard went.
pub open spec fn keyboard_out(m: Model) -> Model {
    Model { focused: false, ..m }
}

/// What scrolls is a finger on a touchpad, or is not.
pub open spec fn scrolled_with(m: Model, finger: bool) -> Model {
    if finger == m.scroll_finger {
        m
    } else {
        Model { scroll_finger: finger, scroll_acc: 0, ..m }
    }
}

/// A flick ended.
pub open spec fn finger_lifted(m: Model) -> Model {
    Model { scroll_acc: 0, ..m }
}

/// Shift is what is held: from when either goes down until one comes up, and
/// already where one is down as the keyboard comes; so Tab goes back just while
/// it is. No other key that comes up changes anything.
pub proof fn law_shift_is_held_until_it_comes_up(m: Model, code: u32, keys: Seq<u32>, i: int)
    requires
        m.wf(),
    ensures
        code == 42 || code == 54 ==> keyed(m, code).shift && !let_up(keyed(m, code), code).shift,
        code != 42 && code != 54 ==> let_up(m, code) == m,
        0 <= i < keys.len() && (keys[i] == 42 || keys[i] == 54) ==> keyboard_in(m, keys).shift,
        (forall|k: int| 0 <= k < keys.len() ==> #[trigger] keys[k] != 42 && keys[k] != 54)
            ==> !keyboard_in(m, keys).shift,
        let_up(m, code) == (Model { shift: let_up(m, code).shift, ..m }),
{
    if 0 <= i < keys.len() {
        assert(is_shift(keys[i]) <==> keys[i] == 42 || keys[i] == 54);
    }
}

/// While the keyboard is away the overlay gives it a moment, and goes on as soon
/// as it is back; coming and going changes nothing else.
pub proof fn law_a_keyboard_may_come_back(m: Model, keys: Seq<u32>)
    requires
        !m.finished(),
    ensures
        app::next_step(keyboard_out(m)) is Grace,
        app::next_step(keyboard_in(keyboard_out(m), keys)) is Wait,
        keyboard_out(m) == (Model { focused: false, ..m }),
        keyboard_in(m, keys) == (Model {
            focused: true,
            shift: keyboard_in(m, keys).shift,
            ..m
        }),
{
}

/// A flick that ended leaves nothing over, and so does a change of device; the
/// same device saying that it scrolls loses nothing of the flick.
pub proof fn law_a_flick_that_ended_is_forgotten(m: Model, finger: bool, value: int)
    requires
        m.wf(),
        i32::MIN <= value <= i32::MAX,
    ensures
        finger_lifted(m) == (Model { scroll_acc: 0, ..m }),
        m.scroll_finger && -3840 < value < 3840 ==> moves(finger_lifted(m), value).count == 0,
        scrolled_with(m, m.scroll_finger) == m,
        scrolled_with(m, finger).scroll_finger == finger,
        finger != m.scroll_finger ==> scrolled_with(m, finger).scroll_acc == 0,
        scrolled_with(m, finger) == (Model {
            scroll_finger: finger,
            scroll_acc: scrolled_with(m, finger).scroll_acc,
            ..m
        }),
{
}

/// The pointer is where it was last said to be, on the surface it came onto;
/// moving it selects, presses and picks nothing; and once it has left, letting
/// the button go picks nothing.
pub proof fn law_the_pointer_is_where_it_was_last(m: Model, h: Hover, x: i32, y: i32)
    requires
        m.wf(),
    ensures
        pointer_in(m, h) == (Model { hover: Some(h), ..m }),
        pointer_at(pointer_in(m, h), x, y).hover matches Some(k) && k.surface == h.surface && k.x
            == x && k.y == y,
        pointer_at(m, x, y) == (Model { hover: pointer_at(m, x, y).hover, ..m }),
        m.hover is None ==> pointer_at(m, x, y) == m,
        clicked(pointer_out(m), false).picked == m.picked,
        clicked(pointer_out(m), false).ending == m.ending,
        pointer_out(m) == (Model { hover: None, pressed: None, ..m }),
{
}

} // verus!
