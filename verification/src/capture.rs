//! Capturing windows and displays.
//!
//! One session per tile, all opened before a single roundtrip so their buffer
//! constraints arrive together, and every first frame put in flight at once: the
//! compositor is bandwidth-bound reading pixels back, so serialising the
//! captures only adds latency.

use vstd::prelude::*;
use vstd::string::*;

use crate::app::{App, Model, Stats};
use crate::target::{Kind, Record, Target};
use crate::words;
use crate::words::{find_text, quote, same, trim_text};

verus! {

/// Which tiles keep updating after the first frame.
#[derive(Clone, Copy, Debug, PartialEq, Eq, Structural)]
pub enum Live {
    /// Every tile.
    All,
    /// Only the selected tile: much cheaper, and still reads as alive.
    Current,
    /// None of them: one snapshot each, a picker rather than an expose.
    Nothing,
}

impl Live {
    /// The setting that a word names.
    pub open spec fn named(word: Seq<char>) -> Option<Live> {
        if word == "all"@ {
            Some(Live::All)
        } else if word == "current"@ {
            Some(Live::Current)
        } else if word == "none"@ {
            Some(Live::Nothing)
        } else {
            None
        }
    }

    pub fn parse(s: &str) -> (r: Result<Live, String>)
        ensures
            match r {
                Ok(l) => Self::named(words::trimmed(s@)) == Some(l),
                Err(e) => Self::named(words::trimmed(s@)) is None && e@ == words::quoted(
                    words::trimmed(s@),
                ) + " is not all, current or none"@,
            },
    {
        let word = trim_text(s);
        if same(word.as_str(), "all") {
            Ok(Live::All)
        } else if same(word.as_str(), "current") {
            Ok(Live::Current)
        } else if same(word.as_str(), "none") {
            Ok(Live::Nothing)
        } else {
            Err(quote(word.as_str()).concat(" is not all, current or none"))
        }
    }
}

// --- one tile --------------------------------------------------------------
/// How a buffer's contents lie relative to the window.
#[derive(Clone, Copy, Debug, PartialEq, Eq, Structural)]
pub enum Transform {
    Normal,
    Rotated90,
    Rotated180,
    Rotated270,
    Flipped,
    Flipped90,
    Flipped180,
    Flipped270,
}

impl Transform {
    /// Turned on their side.
    pub open spec fn sideways(self) -> bool {
        self == Transform::Rotated90 || self == Transform::Rotated270 || self
            == Transform::Flipped90 || self == Transform::Flipped270
    }
}

/// One capture buffer. `busy` means the compositor still holds it, because it is
/// on screen or because a capture is writing into it, so nothing else may be
/// written into it.
pub struct Slot {
    pub busy: bool,
}

/// A thumbnail on its way to the screen.
pub struct Tile {
    pub target: Target,
    /// Whether a capture session is open.
    pub session: bool,
    /// A capture in flight, and which slot it is filling.
    pub frame: bool,
    pub filling: Option<usize>,
    pub slots: Vec<Slot>,
    /// The slot currently attached to the subsurface.
    pub showing: Option<usize>,
    /// The pixel formats that the session offers, as wl_shm numbers them, and
    /// the one that was taken.
    pub formats: Vec<u32>,
    pub format: Option<u32>,
    /// Buffer size the session requires: the window's full resolution.
    pub size: (u32, u32),
    pub transform: Transform,
    pub session_done: bool,
    pub ready: bool,
    pub settled: bool,
    /// When the last capture was asked for, for rate limiting, in nanoseconds
    /// since some moment before the first; and how many frames this tile has
    /// produced.
    pub asked: Option<u64>,
    pub frames: u32,
    /// Whether the tile has a subsurface.
    pub surface: bool,
}

/// What a tile is, slots by whether they are busy.
#[verifier::ext_equal]
pub struct Shot {
    pub target: Record,
    pub session: bool,
    pub frame: bool,
    pub filling: Option<int>,
    pub slots: Seq<bool>,
    pub showing: Option<int>,
    pub formats: Seq<u32>,
    pub format: Option<u32>,
    pub size: (u32, u32),
    pub transform: Transform,
    pub session_done: bool,
    pub ready: bool,
    pub settled: bool,
    pub asked: Option<u64>,
    pub frames: u32,
    pub surface: bool,
}

/// Where something stands, if anywhere.
pub open spec fn place(i: Option<usize>) -> Option<int> {
    match i {
        Some(i) => Some(i as int),
        None => None,
    }
}

impl View for Tile {
    type V = Shot;

    open spec fn view(&self) -> Shot {
        Shot {
            target: self.target@,
            session: self.session,
            frame: self.frame,
            filling: place(self.filling),
            slots: self.slots@.map_values(|s: Slot| s.busy),
            showing: place(self.showing),
            formats: self.formats@,
            format: self.format,
            size: self.size,
            transform: self.transform,
            session_done: self.session_done,
            ready: self.ready,
            settled: self.settled,
            asked: self.asked,
            frames: self.frames,
            surface: self.surface,
        }
    }
}

/// The next count, after the largest of which comes zero.
pub open spec fn bumped(n: u32) -> u32 {
    if n == u32::MAX {
        0
    } else {
        (n + 1) as u32
    }
}

pub(crate) fn bump(n: u32) -> (r: u32)
    ensures
        r == bumped(n),
{
    if n == u32::MAX {
        0
    } else {
        n + 1
    }
}

/// The two 32-bit formats that every compositor offers, as wl_shm numbers them.
pub const ARGB8888: u32 = 0;

pub const XRGB8888: u32 = 1;

/// The format to capture in: the first of the two common ones, or else the first
/// there is. Any 32-bit format will do: these pixels are never read here, the
/// buffer goes straight back for display, so byte order stays the compositor's
/// business on both ends.
pub open spec fn preferred(formats: Seq<u32>) -> Option<u32> {
    let i = first_common(formats);
    if i < formats.len() {
        Some(formats[i])
    } else if formats.len() > 0 {
        Some(formats[0])
    } else {
        None
    }
}

/// Where the first common format stands, or `formats.len()`.
pub open spec fn first_common(formats: Seq<u32>) -> int
    decreases formats.len(),
{
    if formats.len() == 0 || formats[0] == ARGB8888 || formats[0] == XRGB8888 {
        0
    } else {
        1 + first_common(formats.drop_first())
    }
}

fn preferred_format(formats: &[u32]) -> (r: Option<u32>)
    ensures
        r == preferred(formats@),
{
    assert(formats@.skip(0) =~= formats@);
    for i in 0..formats.len()
        invariant
            first_common(formats@) == i + first_common(formats@.skip(i as int)),
    {
        if formats[i] == ARGB8888 || formats[i] == XRGB8888 {
            return Some(formats[i]);
        }
        assert(formats@.skip(i as int).drop_first() =~= formats@.skip(i + 1));
    }
    if formats.len() > 0 {
        Some(formats[0])
    } else {
        None
    }
}

/// Where the first slot stands that is not busy, or `slots.len()`.
pub open spec fn first_free(slots: Seq<bool>) -> int
    decreases slots.len(),
{
    if slots.len() == 0 || !slots[0] {
        0
    } else {
        1 + first_free(slots.drop_first())
    }
}

pub proof fn lemma_first_free(slots: Seq<bool>)
    ensures
        0 <= first_free(slots) <= slots.len(),
        first_free(slots) < slots.len() ==> !slots[first_free(slots)],
        forall|i: int| 0 <= i < first_free(slots) ==> #[trigger] slots[i],
    decreases slots.len(),
{
    if slots.len() > 0 && slots[0] {
        lemma_first_free(slots.drop_first());
        assert forall|i: int| 0 <= i < first_free(slots) implies #[trigger] slots[i] by {
            if i > 0 {
                assert(slots[i] == slots.drop_first()[i - 1]);
            }
        }
    }
}

impl Shot {
    /// What holds of every tile: a capture in flight fills one of the slots, a
    /// tile with a thumbnail shows one, and only a session has any.
    pub open spec fn wf(self) -> bool {
        &&& self.frame == self.filling is Some
        &&& self.filling matches Some(s) ==> 0 <= s < self.slots.len()
        &&& self.ready == self.showing is Some
        &&& self.showing matches Some(s) ==> 0 <= s < self.slots.len()
        &&& self.slots.len() > 0 ==> self.session
    }

    pub open spec fn fresh(target: Record) -> Shot {
        Shot {
            target,
            session: false,
            frame: false,
            filling: None,
            slots: Seq::empty(),
            showing: None,
            formats: Seq::empty(),
            format: None,
            size: (0, 0),
            transform: Transform::Normal,
            session_done: false,
            ready: false,
            settled: false,
            asked: None,
            frames: 0,
            surface: false,
        }
    }

    pub open spec fn bytes(self) -> int {
        self.size.0 * 4 * self.size.1
    }

    /// Whether a capture can be asked for: nothing is in flight, and a slot is
    /// free.
    pub open spec fn can_capture(self) -> bool {
        !self.frame && self.session && first_free(self.slots) < self.slots.len()
    }

    /// Nothing is in flight, but the compositor holds every buffer.
    pub open spec fn starved(self) -> bool {
        !self.frame && self.session && first_free(self.slots) == self.slots.len()
    }

    /// A capture was asked for, into the first free slot.
    pub open spec fn requested(self, now: u64) -> Shot {
        if self.can_capture() {
            let slot = first_free(self.slots);
            Shot {
                frame: true,
                filling: Some(slot),
                slots: self.slots.update(slot, true),
                asked: Some(now),
                ..self
            }
        } else {
            self
        }
    }

    /// The capture in flight landed: it is what the tile shows now. Until the
    /// tile is on screen, the slot it replaces was never actually read, so that
    /// one is free again.
    pub open spec fn landed(self) -> Shot {
        match self.filling {
            Some(slot) => {
                let held = self.slots.update(slot, true);
                Shot {
                    frame: false,
                    filling: None,
                    frames: bumped(self.frames),
                    ready: true,
                    settled: true,
                    showing: Some(slot),
                    slots: match self.showing {
                        Some(before) => if self.surface {
                            held
                        } else {
                            held.update(before, false)
                        },
                        None => held,
                    },
                    ..self
                }
            },
            None => Shot { frame: false, ..self },
        }
    }

    /// The capture in flight failed: its slot is free again, and the tile is no
    /// longer waited on.
    pub open spec fn failed(self) -> Shot {
        Shot {
            frame: false,
            filling: None,
            settled: true,
            slots: match self.filling {
                Some(slot) => self.slots.update(slot, false),
                None => self.slots,
            },
            ..self
        }
    }

    /// The compositor let go of a slot.
    pub open spec fn released(self, slot: int) -> Shot {
        if 0 <= slot < self.slots.len() {
            Shot { slots: self.slots.update(slot, false), ..self }
        } else {
            self
        }
    }
}

/// What asking for a capture came to.
#[derive(Clone, Copy, PartialEq, Eq, Structural, Debug)]
pub enum Request {
    /// One is in flight already, or there is nothing to capture from.
    Waiting,
    /// The compositor still holds every buffer.
    Starved,
    /// Capture into this slot.
    Into(usize),
}

impl Tile {
    pub open spec fn wf(&self) -> bool {
        self@.wf()
    }

    pub fn new(target: Target) -> (t: Tile)
        ensures
            t@ == Shot::fresh(target@),
            t.wf(),
    {
        let t = Tile {
            target,
            session: false,
            frame: false,
            filling: None,
            slots: Vec::new(),
            showing: None,
            formats: Vec::new(),
            format: None,
            size: (0, 0),
            transform: Transform::Normal,
            session_done: false,
            ready: false,
            settled: false,
            asked: None,
            frames: 0,
            surface: false,
        };
        assert(t@ =~= Shot::fresh(target@));
        t
    }

    /// Bytes in one capture buffer.
    pub fn bytes(&self) -> (r: usize)
        requires
            self@.bytes() <= usize::MAX,
        ensures
            r == self@.bytes(),
    {
        let (w, h) = (self.size.0 as usize, self.size.1 as usize);
        if h == 0 {
            assert(w * 4 * h == 0) by (nonlinear_arith)
                requires
                    h == 0,
            ;
            return 0;
        }
        assert(w * 4 <= w * 4 * h) by (nonlinear_arith)
            requires
                w >= 0,
                h >= 1,
        ;
        w * 4 * h
    }

    /// Whether the buffer's contents are turned on their side relative to the
    /// window, which flips the aspect ratio that has to be fitted.
    pub fn rotated(&self) -> (r: bool)
        ensures
            r == self.transform.sideways(),
    {
        match self.transform {
            Transform::Rotated90
            | Transform::Rotated270
            | Transform::Flipped90
            | Transform::Flipped270 => true,
            _ => false,
        }
    }

    /// The first slot that is not busy.
    fn free_slot(&self) -> (r: Option<usize>)
        ensures
            match r {
                Some(i) => i < self@.slots.len() && i == first_free(self@.slots),
                None => first_free(self@.slots) == self@.slots.len(),
            },
    {
        let ghost slots = self@.slots;
        assert(slots.skip(0) =~= slots);
        for i in 0..self.slots.len()
            invariant
                slots == self@.slots,
                first_free(slots) == i + first_free(slots.skip(i as int)),
        {
            if !self.slots[i].busy {
                return Some(i);
            }
            assert(slots.skip(i as int).drop_first() =~= slots.skip(i + 1));
        }
        None
    }

    /// Ask for one frame, into a free slot.
    ///
    /// After a session's first frame the compositor only answers once the window
    /// content changes, so a request left outstanding on an idle window costs
    /// nothing: this is damage-driven, and the rate limit only bites on windows
    /// that really are animating.
    pub fn request_capture(&mut self, now: u64) -> (r: Request)
        requires
            old(self).wf(),
        ensures
            final(self).wf(),
            final(self)@ == old(self)@.requested(now),
            r == (if old(self)@.can_capture() {
                Request::Into(first_free(old(self)@.slots) as usize)
            } else if old(self)@.starved() {
                Request::Starved
            } else {
                Request::Waiting
            }),
    {
        let ghost before = self@;
        if self.frame || !self.session {
            return Request::Waiting;
        }
        match self.free_slot() {
            None => Request::Starved,
            Some(slot) => {
                self.slots[slot].busy = true;
                self.frame = true;
                self.filling = Some(slot);
                self.asked = Some(now);
                assert(self@.slots =~= before.slots.update(slot as int, true));
                Request::Into(slot)
            },
        }
    }

    /// A capture landed: show it, and let go of the slot it replaced. The slot
    /// is to be attached to the tile's subsurface, where it has one already.
    pub fn frame_ready(&mut self) -> (r: Option<usize>)
        requires
            old(self).wf(),
        ensures
            final(self).wf(),
            final(self)@ == old(self)@.landed(),
            place(r) == if old(self)@.surface {
                old(self)@.filling
            } else {
                None
            },
    {
        let ghost before = self@;
        self.frame = false;
        let slot = match self.filling {
            Some(slot) => slot,
            None => return None,
        };
        self.filling = None;
        self.frames = bump(self.frames);
        self.ready = true;
        self.settled = true;
        // The compositor reads it until it releases it.
        self.slots[slot].busy = true;
        let ghost held = before.slots.update(slot as int, true);
        assert(self@.slots =~= held);
        let previous = self.showing;
        self.showing = Some(slot);
        if self.surface {
            Some(slot)
        } else {
            if let Some(previous) = previous {
                self.slots[previous].busy = false;
                assert(self@.slots =~= held.update(previous as int, false));
            }
            None
        }
    }

    /// A capture failed. Live mode retries on the next tick; only a failure with
    /// no frame yet leaves the tile without a thumbnail, which is worth a
    /// complaint, with the compositor's reason.
    pub fn frame_failed(&mut self, reason: &str) -> (r: Option<String>)
        requires
            old(self).wf(),
        ensures
            final(self).wf(),
            final(self)@ == old(self)@.failed(),
            match r {
                Some(e) => old(self)@.frames == 0 && e@ == "wl-pick: capture failed for "@
                    + words::quoted(old(self)@.target.title) + " ("@ + reason@ + ")"@,
                None => old(self)@.frames != 0,
            },
    {
        let ghost before = self@;
        let complaint = if self.frames == 0 {
            let mut message = "wl-pick: capture failed for ".to_owned();
            message.append(quote(self.target.title.as_str()).as_str());
            message.append(" (");
            message.append(reason);
            message.append(")");
            Some(message)
        } else {
            None
        };
        self.settled = true;
        self.frame = false;
        if let Some(slot) = self.filling {
            self.slots[slot].busy = false;
            assert(self@.slots =~= before.slots.update(slot as int, false));
        }
        self.filling = None;
        complaint
    }

    /// A released capture buffer is a slot that may be captured into again.
    ///
    /// Release is the whole contract: with wl_shm the compositor copies the
    /// pixels out at commit and hands the buffer straight back, so the slot
    /// currently on screen is usually free too. (Waiting for it to stop being
    /// the displayed slot instead would deadlock: that release never comes
    /// twice.)
    pub fn released(&mut self, slot: usize)
        requires
            old(self).wf(),
        ensures
            final(self).wf(),
            final(self)@ == old(self)@.released(slot as int),
    {
        let ghost before = self@;
        if slot < self.slots.len() {
            self.slots[slot].busy = false;
            assert(self@.slots =~= before.slots.update(slot as int, false));
        }
    }
}

// --- all of them -----------------------------------------------------------
/// What a session captures from: one of the toplevels, or one of the displays.
#[derive(Clone, Copy, PartialEq, Eq, Structural, Debug)]
pub enum Source {
    Toplevel(usize),
    Output(usize),
}

/// Where a target is captured from. A window's source is the toplevel with its
/// identifier, a display's the output of its name; everything after that is
/// identical.
pub open spec fn source_of(m: Model, t: Record) -> Option<Source> {
    match t.kind {
        Kind::Window => {
            let i = words::position(m.toplevels, t.ft_id);
            if t.ft_id.len() > 0 && i < m.toplevels.len() {
                Some(Source::Toplevel(i as usize))
            } else {
                None
            }
        },
        Kind::Output => {
            let i = words::position(m.outputs, t.id);
            if m.output_sources && i < m.outputs.len() {
                Some(Source::Output(i as usize))
            } else {
                None
            }
        },
    }
}

/// A session is open where there is something to capture from. A tile without
/// stays label-only, and must not be waited on.
pub open spec fn opened(m: Model, t: Shot) -> Shot {
    if source_of(m, t.target) is Some {
        Shot { session: true, ..t }
    } else {
        Shot { settled: true, ..t }
    }
}

/// The tiles before `i` changed, the rest as they were.
pub open spec fn partly(before: Seq<Shot>, after: Seq<Shot>, i: int) -> Seq<Shot> {
    after.take(i) + before.skip(i)
}

impl App {
    fn source(&self, i: usize) -> (r: Option<Source>)
        requires
            i < self.tiles@.len(),
        ensures
            r == source_of(self@, self@.tiles[i as int].target),
    {
        let target = &self.tiles[i].target;
        match target.kind {
            Kind::Window => {
                let empty = same(target.ft_id.as_str(), "");
                proof {
                    reveal_strlit("");
                    assert(""@.len() == 0);
                    assert(target.ft_id@.len() == 0 ==> target.ft_id@ =~= ""@);
                }
                let at = find_text(self.toplevels.as_slice(), target.ft_id.as_str());
                if !empty && at < self.toplevels.len() {
                    Some(Source::Toplevel(at))
                } else {
                    None
                }
            },
            Kind::Output => {
                let at = find_text(self.outputs.as_slice(), target.id.as_str());
                if self.output_sources && at < self.outputs.len() {
                    Some(Source::Output(at))
                } else {
                    None
                }
            },
        }
    }

    /// Open one capture session per tile that there is something to capture
    /// from, and say from what. They are all opened before a single roundtrip,
    /// so every session's buffer constraints arrive together instead of costing
    /// a round trip each.
    pub fn open_sessions(&mut self) -> (r: Vec<Option<Source>>)
        requires
            old(self).wf(),
        ensures
            final(self).wf(),
            final(self)@ == (Model {
                tiles: old(self)@.tiles.map_values(|t: Shot| opened(old(self)@, t)),
                ..old(self)@
            }),
            r@ == old(self)@.tiles.map_values(|t: Shot| source_of(old(self)@, t.target)),
    {
        let ghost before = self@;
        let ghost after = before.tiles.map_values(|t: Shot| opened(before, t));
        let ghost sources = before.tiles.map_values(|t: Shot| source_of(before, t.target));
        let mut out: Vec<Option<Source>> = Vec::new();
        assert(partly(before.tiles, after, 0) =~= before.tiles);
        let n = self.tiles.len();
        for i in 0..n
            invariant
                n == before.tiles.len(),
                after == before.tiles.map_values(|t: Shot| opened(before, t)),
                sources == before.tiles.map_values(|t: Shot| source_of(before, t.target)),
                self@ == (Model { tiles: partly(before.tiles, after, i as int), ..before }),
                self.tiles@.len() == n,
                out@ == sources.take(i as int),
        {
            let ghost now = self@.tiles;
            assert(now[i as int] == before.tiles[i as int]);
            let source = self.source(i);
            if source.is_some() {
                self.tiles[i].session = true;
            } else {
                self.tiles[i].settled = true;
            }
            out.push(source);
            assert(out@ =~= sources.take(i + 1));
            assert(self.tiles@[i as int]@ =~= opened(before, before.tiles[i as int]));
            assert(self@.tiles =~= now.update(i as int, opened(before, before.tiles[i as int])));
            assert(self@.tiles =~= partly(before.tiles, after, i + 1));
        }
        assert(partly(before.tiles, after, after.len() as int) =~= after);
        assert(sources.take(sources.len() as int) =~= sources);
        out
    }
}

// --- the pool --------------------------------------------------------------
/// Memory is handed out by the page.
pub const PAGE: usize = 4096;

/// A number of bytes, rounded up to whole pages.
pub open spec fn padded(bytes: int) -> int {
    (bytes + PAGE - 1) / (PAGE as int) * PAGE
}

/// Whether a session has said all it takes to capture.
pub open spec fn capturable(t: Shot) -> bool {
    t.session && t.session_done && t.size.0 != 0 && t.size.1 != 0 && t.formats.len() > 0
}

/// How many buffers a tile gets. Only a tile that will be re-captured needs a
/// second one, and a display's is the size of the whole screen.
///
/// A capture may not write into the buffer the compositor is currently
/// displaying, so the two alternate: fill B while A is on screen, swap, and wait
/// for A's release before touching it again.
pub open spec fn slot_count(live: Live, t: Shot) -> int {
    if live == Live::Nothing || t.target.kind == Kind::Output {
        1
    } else {
        2
    }
}

/// The bytes that a tile's buffers take.
pub open spec fn room(live: Live, t: Shot) -> int {
    if capturable(t) {
        slot_count(live, t) * padded(t.bytes())
    } else {
        0
    }
}

/// The bytes that all of them take.
pub open spec fn pool_size(live: Live, tiles: Seq<Shot>) -> int
    decreases tiles.len(),
{
    if tiles.len() == 0 {
        0
    } else {
        pool_size(live, tiles.drop_last()) + room(live, tiles.last())
    }
}

/// Where the buffer of slot `k` of tile `i` starts in the pool.
pub open spec fn offset(live: Live, tiles: Seq<Shot>, i: int, k: int) -> int {
    pool_size(live, tiles.take(i)) + k * padded(tiles[i].bytes())
}

/// A tile once its buffers are there and its first frame is in flight.
pub open spec fn begun(live: Live, t: Shot, now: u64) -> Shot {
    if !t.session {
        t
    } else if !capturable(t) {
        Shot { settled: true, ..t }
    } else {
        let u = Shot { format: preferred(t.formats), ..t };
        if t.settled {
            u
        } else {
            (Shot {
                slots: t.slots + Seq::new(slot_count(live, t) as nat, |k: int| false),
                ..u
            }).requested(now)
        }
    }
}

/// The buffers to make for one tile, and which to capture into first.
pub struct Start {
    pub tile: usize,
    pub w: i32,
    pub h: i32,
    /// Bytes in one row.
    pub stride: i32,
    /// As wl_shm numbers it.
    pub format: u32,
    /// The slot of the first of these buffers.
    pub first: usize,
    /// Where each of them starts in the pool.
    pub offsets: Vec<usize>,
    pub capture: Request,
}

#[verifier::ext_equal]
pub struct Plan {
    pub tile: int,
    pub w: int,
    pub h: int,
    pub stride: int,
    pub format: Option<u32>,
    pub first: int,
    pub offsets: Seq<int>,
    pub capture: Request,
}

impl View for Start {
    type V = Plan;

    open spec fn view(&self) -> Plan {
        Plan {
            tile: self.tile as int,
            w: self.w as int,
            h: self.h as int,
            stride: self.stride as int,
            format: Some(self.format),
            first: self.first as int,
            offsets: self.offsets@.map_values(|o: usize| o as int),
            capture: self.capture,
        }
    }
}

/// What asking for a capture comes to.
pub open spec fn answer(t: Shot) -> Request {
    if t.can_capture() {
        Request::Into(first_free(t.slots) as usize)
    } else if t.starved() {
        Request::Starved
    } else {
        Request::Waiting
    }
}

/// The buffers of a tile when the ones before it take `total` bytes.
pub open spec fn plan_at(live: Live, t: Shot, i: int, total: int) -> Plan {
    let count = slot_count(live, t);
    Plan {
        tile: i,
        w: t.size.0 as int,
        h: t.size.1 as int,
        stride: t.size.0 * 4,
        format: preferred(t.formats),
        first: t.slots.len() as int,
        offsets: Seq::new(count as nat, |k: int| total + k * padded(t.bytes())),
        capture: answer(Shot { slots: t.slots + Seq::new(count as nat, |k: int| false), ..t }),
    }
}

/// The buffers of the first `n` tiles: of those that can be captured and are
/// still waited on.
pub open spec fn plans(live: Live, tiles: Seq<Shot>, n: int) -> Seq<Plan>
    decreases n,
{
    if n <= 0 {
        Seq::empty()
    } else if capturable(tiles[n - 1]) && !tiles[n - 1].settled {
        plans(live, tiles, n - 1).push(
            plan_at(live, tiles[n - 1], n - 1, pool_size(live, tiles.take(n - 1))),
        )
    } else {
        plans(live, tiles, n - 1)
    }
}

pub open spec fn plans_of(s: Seq<Start>) -> Seq<Plan> {
    s.map_values(|p: Start| p@)
}

/// Every first capture: the size of the pool, and the buffers in it.
pub struct Starts {
    pub total: usize,
    pub starts: Vec<Start>,
}

pub proof fn lemma_padded(bytes: int)
    requires
        bytes >= 0,
    ensures
        bytes <= padded(bytes) < bytes + PAGE,
        padded(bytes) % (PAGE as int) == 0,
{
}

pub proof fn lemma_room(live: Live, t: Shot)
    ensures
        t.bytes() >= 0,
        room(live, t) >= 0,
        capturable(t) ==> t.bytes() > 0 && room(live, t) >= padded(t.bytes()) >= t.bytes(),
        capturable(t) ==> t.bytes() >= t.size.0 * 4 && t.bytes() >= t.size.1,
        room(live, t) % (PAGE as int) == 0,
{
    let (w, h) = (t.size.0 as int, t.size.1 as int);
    assert(w * 4 * h >= 0) by (nonlinear_arith)
        requires
            w >= 0,
            h >= 0,
    ;
    if capturable(t) {
        assert(w * 4 * h >= w * 4 && w * 4 * h >= h) by (nonlinear_arith)
            requires
                w >= 1,
                h >= 1,
        ;
    }
    lemma_padded(t.bytes());
}

/// The pool only grows from tile to tile.
pub proof fn lemma_pool_grows(live: Live, tiles: Seq<Shot>, i: int)
    requires
        0 <= i <= tiles.len(),
    ensures
        0 <= pool_size(live, tiles.take(i)) <= pool_size(live, tiles),
        pool_size(live, tiles.take(i)) % (PAGE as int) == 0,
        i < tiles.len() ==> pool_size(live, tiles.take(i + 1)) == pool_size(live, tiles.take(i))
            + room(live, tiles[i]),
        i < tiles.len() ==> pool_size(live, tiles.take(i + 1)) <= pool_size(live, tiles),
    decreases tiles.len(),
{
    if i < tiles.len() {
        assert(tiles.take(i + 1).drop_last() =~= tiles.take(i));
    }
    if tiles.len() == 0 {
        assert(tiles.take(i) =~= tiles);
    } else {
        lemma_room(live, tiles.last());
        let fewer = tiles.drop_last();
        if i < tiles.len() {
            assert(fewer.take(i) =~= tiles.take(i));
            lemma_pool_grows(live, fewer, i);
            if i + 1 < tiles.len() {
                assert(fewer.take(i + 1) =~= tiles.take(i + 1));
            } else {
                assert(tiles.take(i + 1) =~= tiles);
            }
        } else {
            assert(tiles.take(i) =~= tiles);
            assert(fewer.take(i - 1) =~= fewer);
            lemma_pool_grows(live, fewer, i - 1);
        }
    }
}

impl App {
    /// Whether the capture buffers fit in a pool that 32 bits can measure, for a
    /// caller that does not know.
    pub fn captures_fit(&self) -> (r: bool)
        ensures
            r == (pool_size(self@.live, self@.tiles) <= i32::MAX),
    {
        let ghost tiles = self@.tiles;
        let mut total: u128 = 0;
        for i in 0..self.tiles.len()
            invariant
                tiles == self@.tiles,
                total == pool_size(self@.live, tiles.take(i as int)),
                total <= i32::MAX,
        {
            proof {
                lemma_pool_grows(self@.live, tiles, i as int);
                lemma_room(self@.live, tiles[i as int]);
            }
            let t = &self.tiles[i];
            if t.session && t.session_done && t.size.0 != 0 && t.size.1 != 0 && t.formats.len() > 0
            {
                let (w, h) = (t.size.0 as u128, t.size.1 as u128);
                assert(w * 4 * h <= 0xffff_ffff * 4 * 0xffff_ffff) by (nonlinear_arith)
                    requires
                        w <= 0xffff_ffff,
                        h <= 0xffff_ffff,
                ;
                let pages: u128 = (w * 4 * h + (PAGE as u128 - 1)) / (PAGE as u128);
                let single = match (self.live, t.target.kind) {
                    (Live::Nothing, _) => true,
                    (_, Kind::Output) => true,
                    _ => false,
                };
                total = total + pages * (PAGE as u128) * if single {
                    1
                } else {
                    2
                };
                if total > i32::MAX as u128 {
                    return false;
                }
            }
        }
        assert(tiles.take(tiles.len() as int) =~= tiles);
        true
    }
}

impl Tile {
    /// Lay out the buffers of tile `i`, from `total` on, and put its first frame
    /// in flight. Returns the end of its buffers too.
    fn begin(&mut self, i: usize, live: Live, now: u64, total: usize) -> (r: (Option<Start>, usize))
        requires
            old(self).wf(),
            total + room(live, old(self)@) <= i32::MAX,
        ensures
            final(self).wf(),
            final(self)@ == begun(live, old(self)@, now),
            r.1 == total + room(live, old(self)@),
            r.0 is Some == (capturable(old(self)@) && !old(self)@.settled),
            r.0 matches Some(start) ==> start@ == plan_at(
                live,
                old(self)@,
                i as int,
                total as int,
            ),
    {
        let ghost before = self@;
        proof {
            lemma_room(live, before);
        }
        if !self.session {
            return (None, total);
        }
        if !self.session_done || self.size.0 == 0 || self.size.1 == 0 {
            self.settled = true;
            return (None, total);
        }
        let format = match preferred_format(self.formats.as_slice()) {
            Some(format) => format,
            None => {
                proof {
                    assert(before.formats.len() == 0);
                }
                self.settled = true;
                return (None, total);
            },
        };
        assert(capturable(before));
        self.format = Some(format);
        let double = match (live, self.target.kind) {
            (Live::Nothing, _) => false,
            (_, Kind::Output) => false,
            _ => true,
        };
        let bytes = self.bytes();
        proof {
            lemma_padded(bytes as int);
        }
        let each = (bytes + (PAGE - 1)) / PAGE * PAGE;
        let first = self.slots.len();
        let mut offsets: Vec<usize> = Vec::new();
        offsets.push(total);
        let mut end = total + each;
        if double {
            offsets.push(end);
            end = end + each;
        }
        if self.settled {
            return (None, end);
        }
        self.slots.push(Slot { busy: false });
        if double {
            self.slots.push(Slot { busy: false });
        }
        let ghost more = before.slots + Seq::new(
            slot_count(live, before) as nat,
            |k: int| false,
        );
        assert(self@.slots =~= more);
        assert(self@ =~= (Shot { slots: more, format: preferred(before.formats), ..before }));
        let capture = self.request_capture(now);
        let (w, h) = (self.size.0, self.size.1);
        assert(w * 4 <= i32::MAX && h <= i32::MAX);
        let start = Start {
            tile: i,
            w: w as i32,
            h: h as i32,
            stride: (w * 4) as i32,
            format,
            first,
            offsets,
            capture,
        };
        proof {
            let want = plan_at(live, before, i as int, total as int).offsets;
            let p = padded(before.bytes());
            assert(0 * p == 0 && 1 * p == p);
            assert(want[0] == total);
            assert(double ==> want[1] == total + p);
            assert forall|k: int| 0 <= k < want.len() implies #[trigger] want[k]
                == start@.offsets[k] by {
                assert(k == 0 || k == 1);
            }
            assert(start@.offsets =~= want);
        }
        (Some(start), end)
    }
}

impl App {
    /// Lay out the capture buffers in one pool and put every first frame in
    /// flight at once: the compositor is bandwidth-bound reading pixels back, so
    /// serialising the captures only adds latency.
    pub fn start_captures(&mut self, now: u64) -> (r: Starts)
        requires
            old(self).wf(),
            pool_size(old(self)@.live, old(self)@.tiles) <= i32::MAX,
        ensures
            final(self).wf(),
            r.total == pool_size(old(self)@.live, old(self)@.tiles),
            plans_of(r.starts@) == plans(
                old(self)@.live,
                old(self)@.tiles,
                old(self)@.tiles.len() as int,
            ),
            final(self)@ == (Model {
                tiles: old(self)@.tiles.map_values(|t: Shot| begun(old(self)@.live, t, now)),
                stats: Stats {
                    pool_bytes: if r.total > 0 {
                        r.total
                    } else {
                        old(self)@.stats.pool_bytes
                    },
                    ..old(self)@.stats
                },
                ..old(self)@
            }),
    {
        let ghost before = self@;
        let live = self.live;
        let ghost after = before.tiles.map_values(|t: Shot| begun(live, t, now));
        assert(partly(before.tiles, after, 0) =~= before.tiles);
        let n = self.tiles.len();
        let mut total: usize = 0;
        let mut starts: Vec<Start> = Vec::new();
        for i in 0..n
            invariant
                n == before.tiles.len(),
                live == before.live,
                before.wf(),
                pool_size(live, before.tiles) <= i32::MAX,
                after == before.tiles.map_values(|t: Shot| begun(live, t, now)),
                self@ == (Model { tiles: partly(before.tiles, after, i as int), ..before }),
                self.tiles@.len() == n,
                self.wf(),
                total == pool_size(live, before.tiles.take(i as int)),
                plans_of(starts@) == plans(live, before.tiles, i as int),
        {
            let ghost now_tiles = self@.tiles;
            let ghost t = before.tiles[i as int];
            assert(now_tiles[i as int] == t);
            proof {
                lemma_pool_grows(live, before.tiles, i as int);
            }
            let (start, end) = self.tiles[i].begin(i, live, now, total);
            let ghost sofar = plans_of(starts@);
            if let Some(start) = start {
                starts.push(start);
                proof {
                    assert(plans_of(starts@) =~= sofar.push(start@));
                }
            }
            total = end;
            assert(self@.tiles =~= now_tiles.update(i as int, begun(live, t, now)));
            assert(self@.tiles =~= partly(before.tiles, after, i + 1));
        }
        assert(partly(before.tiles, after, after.len() as int) =~= after);
        assert(before.tiles.take(before.tiles.len() as int) =~= before.tiles);
        if total > 0 {
            self.stats.pool_bytes = total;
        }
        Starts { total, starts }
    }
}

// --- the clock -------------------------------------------------------------
/// Nanoseconds from `then` to `now`.
pub open spec fn elapsed(now: u64, then: u64) -> int {
    if now < then {
        0
    } else {
        now - then
    }
}

/// Whether tile `i` is to be captured again. A display tile shows this overlay,
/// which shows the display tile: refreshing it never settles and costs a whole
/// screen per frame.
pub open spec fn due(m: Model, i: int, now: u64, interval: u64) -> bool {
    let t = m.tiles[i];
    &&& m.live == Live::All || m.live == Live::Current && i == m.sel
    &&& t.target.kind == Kind::Window
    &&& t.slots.len() > 0
    &&& !t.frame
    &&& t.asked matches Some(then) ==> elapsed(now, then) >= interval
}

/// The captures that the first `n` tiles are due: tile and slot.
pub open spec fn recaptures(m: Model, n: int, now: u64, interval: u64) -> Seq<(int, int)>
    decreases n,
{
    if n <= 0 {
        Seq::empty()
    } else if due(m, n - 1, now, interval) && m.tiles[n - 1].can_capture() {
        recaptures(m, n - 1, now, interval).push((n - 1, first_free(m.tiles[n - 1].slots)))
    } else {
        recaptures(m, n - 1, now, interval)
    }
}

/// The count of starved re-captures after the first `n` tiles.
pub open spec fn starvation(m: Model, n: int, now: u64, interval: u64) -> u32
    decreases n,
{
    if n <= 0 {
        m.stats.starved
    } else if due(m, n - 1, now, interval) && m.tiles[n - 1].starved() {
        bumped(starvation(m, n - 1, now, interval))
    } else {
        starvation(m, n - 1, now, interval)
    }
}

/// A tile after a tick.
pub open spec fn recaptured(m: Model, i: int, now: u64, interval: u64) -> Shot {
    if due(m, i, now, interval) {
        m.tiles[i].requested(now)
    } else {
        m.tiles[i]
    }
}

/// The state after a tick of the live clock.
pub open spec fn ticked(m: Model, now: u64, interval: u64) -> Model {
    Model {
        tiles: Seq::new(m.tiles.len(), |i: int| recaptured(m, i, now, interval)),
        stats: Stats {
            ticks: bumped(m.stats.ticks),
            starved: starvation(m, m.tiles.len() as int, now, interval),
            ..m.stats
        },
        ..m
    }
}

pub open spec fn pairs(s: Seq<(usize, usize)>) -> Seq<(int, int)> {
    s.map_values(|p: (usize, usize)| (p.0 as int, p.1 as int))
}

impl App {
    /// How often a tile may be captured, per second.
    pub fn rate(&self) -> (r: u32)
        ensures
            r == (if self@.fps < 1 {
                1
            } else {
                self@.fps
            }),
    {
        if self.fps < 1 {
            1
        } else {
            self.fps
        }
    }

    /// Whether to ask for the next frame callback: the clock for live updates.
    /// A commit is needed for the compositor to schedule one, and an empty
    /// commit is enough.
    pub fn arm_frame_callback(&self) -> (r: bool)
        ensures
            r == (self@.live != Live::Nothing && self@.chrome is Some),
    {
        self.live != Live::Nothing && self.chrome.is_some()
    }

    /// Whether tile `i` is due.
    fn is_due(&self, i: usize, now: u64, interval: u64) -> (r: bool)
        requires
            i < self.tiles@.len(),
        ensures
            r == due(self@, i as int, now, interval),
    {
        let t = &self.tiles[i];
        assert(self@.tiles[i as int] == t@);
        let live = match self.live {
            Live::All => true,
            Live::Current => i == self.sel,
            Live::Nothing => false,
        };
        let rested = match t.asked {
            Some(then) => (if now < then {
                0
            } else {
                now - then
            }) >= interval,
            None => true,
        };
        live && t.target.kind == Kind::Window && t.slots.len() > 0 && !t.frame && rested
    }

    /// Re-capture tile `i` if it is due, and say into which slot.
    fn recapture(&mut self, i: usize, now: u64, interval: u64) -> (r: Option<usize>)
        requires
            old(self).wf(),
            i < old(self)@.tiles.len(),
        ensures
            final(self)@ == (Model {
                tiles: old(self)@.tiles.update(
                    i as int,
                    recaptured(old(self)@, i as int, now, interval),
                ),
                stats: Stats {
                    starved: if due(old(self)@, i as int, now, interval)
                        && old(self)@.tiles[i as int].starved() {
                        bumped(old(self)@.stats.starved)
                    } else {
                        old(self)@.stats.starved
                    },
                    ..old(self)@.stats
                },
                ..old(self)@
            }),
            final(self).wf(),
            place(r) == if due(old(self)@, i as int, now, interval)
                && old(self)@.tiles[i as int].can_capture() {
                Some(first_free(old(self)@.tiles[i as int].slots))
            } else {
                None
            },
    {
        let ghost before = self@;
        let ghost t = before.tiles[i as int];
        assert(self.tiles@[i as int]@ == t);
        if !self.is_due(i, now, interval) {
            assert(before.tiles.update(i as int, t) =~= before.tiles);
            return None;
        }
        proof {
            lemma_first_free(t.slots);
        }
        let answer = self.tiles[i].request_capture(now);
        assert(self@.tiles =~= before.tiles.update(i as int, t.requested(now)));
        match answer {
            Request::Into(slot) => Some(slot),
            Request::Starved => {
                self.stats.starved = bump(self.stats.starved);
                None
            },
            Request::Waiting => None,
        }
    }

    /// Re-capture whatever is due, and say what that is: tiles, and the slots to
    /// capture into. Driven by frame callbacks, so it stops when the overlay is
    /// not being presented. `interval` is the time that [`App::rate`] leaves
    /// between two captures of a tile; both times are in nanoseconds.
    pub fn tick(&mut self, now: u64, interval: u64) -> (r: Vec<(usize, usize)>)
        requires
            old(self).wf(),
        ensures
            final(self).wf(),
            final(self)@ == ticked(old(self)@, now, interval),
            pairs(r@) == recaptures(
                old(self)@,
                old(self)@.tiles.len() as int,
                now,
                interval,
            ),
    {
        let ghost before = self@;
        let ghost after = Seq::new(
            before.tiles.len(),
            |i: int| recaptured(before, i, now, interval),
        );
        self.stats.ticks = bump(self.stats.ticks);
        let mut out: Vec<(usize, usize)> = Vec::new();
        let n = self.tiles.len();
        assert(partly(before.tiles, after, 0) =~= before.tiles);
        for i in 0..n
            invariant
                n == before.tiles.len(),
                before.wf(),
                after == Seq::new(
                    before.tiles.len(),
                    |i: int| recaptured(before, i, now, interval),
                ),
                self.tiles@.len() == n,
                self@ == (Model {
                    tiles: partly(before.tiles, after, i as int),
                    stats: Stats {
                        ticks: bumped(before.stats.ticks),
                        starved: starvation(before, i as int, now, interval),
                        ..before.stats
                    },
                    ..before
                }),
                pairs(out@) == recaptures(before, i as int, now, interval),
        {
            let ghost now_model = self@;
            let ghost sofar = pairs(out@);
            assert(now_model.tiles[i as int] == before.tiles[i as int]);
            assert(due(now_model, i as int, now, interval) == due(before, i as int, now, interval));
            if let Some(slot) = self.recapture(i, now, interval) {
                out.push((i, slot));
                assert(pairs(out@) =~= sofar.push((i as int, slot as int)));
            }
            assert(self@.tiles =~= partly(before.tiles, after, i + 1));
        }
        assert(partly(before.tiles, after, n as int) =~= after);
        out
    }
}

// --- what the compositor says ----------------------------------------------
/// What a capture session tells.
#[derive(Clone, Copy, Debug)]
pub enum SessionEvent {
    BufferSize(u32, u32),
    /// A pixel format on offer, as wl_shm numbers it.
    ShmFormat(u32),
    Done,
    Stopped,
}

/// A tile after its session told something.
pub open spec fn told(t: Shot, event: SessionEvent) -> Shot {
    match event {
        SessionEvent::BufferSize(w, h) => Shot { size: (w, h), ..t },
        SessionEvent::ShmFormat(f) => Shot { formats: t.formats.push(f), ..t },
        SessionEvent::Done => Shot { session_done: true, ..t },
        SessionEvent::Stopped => Shot { settled: true, ..t },
    }
}

/// What becomes of a capture in flight.
pub enum FrameEvent {
    Transform(Transform),
    Ready,
    /// It failed, for this reason.
    Failed(String),
}

/// A tile after that.
pub open spec fn arrived(t: Shot, event: FrameEvent) -> Shot {
    match event {
        FrameEvent::Transform(transform) => Shot { transform, ..t },
        FrameEvent::Ready => t.landed(),
        FrameEvent::Failed(_) => t.failed(),
    }
}

/// What to do about it.
pub struct FrameReply {
    /// The frame is to be destroyed; the buffer stays, to be displayed.
    pub destroy: bool,
    /// The slot to attach to the tile's subsurface.
    pub attach: Option<usize>,
    /// What to complain about.
    pub complaint: Option<String>,
}

/// The same tiles, with one of them changed where it is there.
pub open spec fn with_tile(m: Model, i: int, t: Shot) -> Model {
    if 0 <= i < m.tiles.len() {
        Model { tiles: m.tiles.update(i, t), ..m }
    } else {
        m
    }
}

/// That this is what to do about an event of a tile's, if the tile is there.
pub open spec fn replies(r: FrameReply, tile: Option<Shot>, event: FrameEvent) -> bool {
    match (tile, event) {
        (Some(t), FrameEvent::Ready) => {
            &&& r.destroy == t.frame
            &&& place(r.attach) == if t.surface {
                t.filling
            } else {
                None
            }
            &&& r.complaint is None
        },
        (Some(t), FrameEvent::Failed(reason)) => {
            &&& r.destroy == t.frame
            &&& r.attach is None
            &&& match r.complaint {
                Some(e) => t.frames == 0 && e@ == "wl-pick: capture failed for "@ + words::quoted(
                    t.target.title,
                ) + " ("@ + reason@ + ")"@,
                None => t.frames != 0,
            }
        },
        _ => !r.destroy && r.attach is None && r.complaint is None,
    }
}

impl Tile {
    fn hear(&mut self, event: SessionEvent)
        requires
            old(self).wf(),
        ensures
            final(self).wf(),
            final(self)@ == told(old(self)@, event),
    {
        match event {
            SessionEvent::BufferSize(w, h) => {
                self.size = (w, h);
            },
            SessionEvent::ShmFormat(f) => {
                self.formats.push(f);
            },
            SessionEvent::Done => {
                self.session_done = true;
            },
            SessionEvent::Stopped => {
                self.settled = true;
            },
        }
    }

    fn settle(&mut self, event: &FrameEvent) -> (r: FrameReply)
        requires
            old(self).wf(),
        ensures
            final(self).wf(),
            final(self)@ == arrived(old(self)@, *event),
            replies(r, Some(old(self)@), *event),
    {
        let destroy = self.frame;
        match event {
            FrameEvent::Transform(transform) => {
                self.transform = *transform;
                FrameReply { destroy: false, attach: None, complaint: None }
            },
            FrameEvent::Ready => {
                let attach = self.frame_ready();
                FrameReply { destroy, attach, complaint: None }
            },
            FrameEvent::Failed(reason) => {
                let complaint = self.frame_failed(reason.as_str());
                FrameReply { destroy, attach: None, complaint }
            },
        }
    }
}

impl App {
    /// A session of tile `i` told something.
    pub fn session_event(&mut self, i: usize, event: SessionEvent)
        requires
            old(self).wf(),
        ensures
            final(self).wf(),
            final(self)@ == with_tile(
                old(self)@,
                i as int,
                told(old(self)@.tiles[i as int], event),
            ),
    {
        let ghost before = self@;
        if i >= self.tiles.len() {
            return ;
        }
        let ghost t = before.tiles[i as int];
        assert(self.tiles@[i as int]@ == t);
        self.tiles[i].hear(event);
        assert(self@.tiles =~= before.tiles.update(i as int, told(t, event)));
    }

    /// Something became of the capture in flight of tile `i`.
    pub fn frame_event(&mut self, i: usize, event: FrameEvent) -> (r: FrameReply)
        requires
            old(self).wf(),
        ensures
            final(self).wf(),
            final(self)@ == with_tile(
                old(self)@,
                i as int,
                arrived(old(self)@.tiles[i as int], event),
            ),
            replies(
                r,
                if i < old(self)@.tiles.len() {
                    Some(old(self)@.tiles[i as int])
                } else {
                    None
                },
                event,
            ),
    {
        let ghost before = self@;
        if i >= self.tiles.len() {
            return FrameReply { destroy: false, attach: None, complaint: None };
        }
        let ghost t = before.tiles[i as int];
        assert(self.tiles@[i as int]@ == t);
        let reply = self.tiles[i].settle(&event);
        assert(self@.tiles =~= before.tiles.update(i as int, arrived(t, event)));
        reply
    }

    /// The compositor let go of a capture buffer.
    pub fn buffer_released(&mut self, i: usize, slot: usize)
        requires
            old(self).wf(),
        ensures
            final(self).wf(),
            final(self)@ == with_tile(
                old(self)@,
                i as int,
                old(self)@.tiles[i as int].released(slot as int),
            ),
    {
        let ghost before = self@;
        if i < self.tiles.len() {
            let ghost t = before.tiles[i as int];
            assert(self.tiles@[i as int]@ == t);
            self.tiles[i].released(slot);
            assert(self@.tiles =~= before.tiles.update(i as int, t.released(slot as int)));
        }
    }
}

// --- what holds of every capture -------------------------------------------
/// A capture never writes into a buffer that the compositor holds: the slot it
/// fills was free.
pub proof fn law_a_capture_never_fills_a_held_buffer(t: Shot, now: u64)
    requires
        t.wf(),
        !t.frame,
        t.requested(now).frame,
    ensures
        t.requested(now).filling matches Some(slot) && 0 <= slot < t.slots.len() && !t.slots[slot],
{
    lemma_first_free(t.slots);
}

/// Two different capture buffers share no byte, and all of them lie in the pool,
/// each on a page of its own.
pub proof fn law_capture_buffers_do_not_overlap(
    live: Live,
    tiles: Seq<Shot>,
    i: int,
    k: int,
    j: int,
    l: int,
)
    requires
        0 <= i < tiles.len(),
        0 <= j < tiles.len(),
        capturable(tiles[i]),
        capturable(tiles[j]),
        0 <= k < slot_count(live, tiles[i]),
        0 <= l < slot_count(live, tiles[j]),
        i != j || k != l,
    ensures
        0 <= offset(live, tiles, i, k),
        offset(live, tiles, i, k) + tiles[i].bytes() <= pool_size(live, tiles),
        offset(live, tiles, i, k) % (PAGE as int) == 0,
        offset(live, tiles, i, k) + tiles[i].bytes() <= offset(live, tiles, j, l) || offset(
            live,
            tiles,
            j,
            l,
        ) + tiles[j].bytes() <= offset(live, tiles, i, k),
{
    lemma_buffer_in_its_room(live, tiles, i, k);
    lemma_buffer_in_its_room(live, tiles, j, l);
    lemma_pool_grows(live, tiles, i);
    if i == j {
        let p = padded(tiles[i].bytes());
        assert(0 * p == 0 && 1 * p == p);
        assert(k == 0 && l == 1 || k == 1 && l == 0);
    } else if i < j {
        lemma_pool_ordered(live, tiles, i, j);
    } else {
        lemma_pool_ordered(live, tiles, j, i);
    }
}

proof fn lemma_buffer_in_its_room(live: Live, tiles: Seq<Shot>, i: int, k: int)
    requires
        0 <= i < tiles.len(),
        capturable(tiles[i]),
        0 <= k < slot_count(live, tiles[i]),
    ensures
        pool_size(live, tiles.take(i)) <= offset(live, tiles, i, k),
        offset(live, tiles, i, k) + tiles[i].bytes() <= pool_size(live, tiles.take(i + 1)),
        offset(live, tiles, i, k) % (PAGE as int) == 0,
{
    let p = padded(tiles[i].bytes());
    lemma_pool_grows(live, tiles, i);
    lemma_room(live, tiles[i]);
    lemma_padded(tiles[i].bytes());
    assert(0 * p == 0 && 1 * p == p && 2 * p == p + p);
    assert(k == 0 || k == 1);
    assert(slot_count(live, tiles[i]) == 1 || slot_count(live, tiles[i]) == 2);
    assert(room(live, tiles[i]) == slot_count(live, tiles[i]) * p);
}

proof fn lemma_pool_ordered(live: Live, tiles: Seq<Shot>, i: int, j: int)
    requires
        0 <= i < j <= tiles.len(),
    ensures
        pool_size(live, tiles.take(i + 1)) <= pool_size(live, tiles.take(j)),
{
    lemma_pool_grows(live, tiles.take(j), i + 1);
    assert(tiles.take(j).take(i + 1) =~= tiles.take(i + 1));
}

/// The buffers that a start lays out are those.
pub proof fn law_plans_follow_the_pool(live: Live, tiles: Seq<Shot>, i: int, k: int)
    requires
        0 <= i < tiles.len(),
        0 <= k < slot_count(live, tiles[i]),
    ensures
        plan_at(live, tiles[i], i, pool_size(live, tiles.take(i))).offsets[k] == offset(
            live,
            tiles,
            i,
            k,
        ),
{
}

/// A display is always a single snapshot: it gets one buffer, and no tick
/// captures it again.
pub proof fn law_displays_are_a_single_snapshot(m: Model, i: int, now: u64, interval: u64)
    requires
        0 <= i < m.tiles.len(),
        m.tiles[i].target.kind == Kind::Output,
    ensures
        slot_count(m.live, m.tiles[i]) == 1,
        ticked(m, now, interval).tiles[i] == m.tiles[i],
{
}

/// Only the tiles that are to stay live are captured again: none, or only the
/// selected one.
pub proof fn law_only_live_tiles_are_captured_again(m: Model, i: int, now: u64, interval: u64)
    requires
        0 <= i < m.tiles.len(),
        m.live == Live::Nothing || m.live == Live::Current && i != m.sel,
    ensures
        ticked(m, now, interval).tiles[i] == m.tiles[i],
{
}

/// A tile is not captured again before the interval has passed.
pub proof fn law_captures_keep_their_distance(m: Model, i: int, now: u64, interval: u64)
    requires
        0 <= i < m.tiles.len(),
        m.tiles[i].asked is Some,
        elapsed(now, m.tiles[i].asked->Some_0) < interval,
    ensures
        ticked(m, now, interval).tiles[i] == m.tiles[i],
{
}

/// A tile that has a thumbnail keeps one, whatever the compositor says.
pub proof fn law_a_thumbnail_stays(t: Shot, slot: int, now: u64)
    requires
        t.wf(),
        t.ready,
    ensures
        t.requested(now).ready,
        t.landed().ready,
        t.failed().ready && t.failed().showing == t.showing,
        t.released(slot).ready,
{
}

/// Every first frame is put in flight at once: a start leaves no tile behind
/// that can be captured and is still waited on.
pub proof fn law_every_first_frame_is_in_flight(live: Live, t: Shot, now: u64)
    requires
        t.wf(),
        capturable(t),
        !t.settled,
    ensures
        begun(live, t, now).frame,
{
    let more = t.slots + Seq::new(slot_count(live, t) as nat, |k: int| false);
    lemma_first_free(more);
    assert(!more[t.slots.len() as int]);
}

/// A tile that cannot be captured is not waited on once the captures have
/// started, whether there is nothing to capture from or its session said too
/// little.
pub proof fn law_what_cannot_be_captured_is_settled(m: Model, t: Shot, now: u64)
    requires
        t.wf(),
        !t.session,
        !capturable(opened(m, t)),
    ensures
        begun(m.live, opened(m, t), now).settled,
{
}

/// The two buffers of a live tile alternate: while one is on screen the other is
/// filled, and is shown once it has been.
pub proof fn law_two_buffers_alternate(t: Shot, now: u64, shown: int)
    requires
        t.wf(),
        t.session,
        !t.frame,
        t.slots.len() == 2,
        t.showing == Some(shown),
        t.slots[shown],
        !t.slots[1 - shown],
    ensures
        t.requested(now).filling == Some(1 - shown),
        t.requested(now).showing == Some(shown),
        t.requested(now).landed().showing == Some(1 - shown),
{
    lemma_first_free(t.slots);
}

/// Whatever becomes of a capture, the tile is no longer waited on.
pub proof fn law_captures_settle(t: Shot)
    requires
        t.wf(),
        t.frame,
    ensures
        t.landed().settled,
        t.failed().settled,
        told(t, SessionEvent::Stopped).settled,
{
}

/// A slot that the compositor let go of is free, whatever the tile shows and
/// whatever it is filling; the others, and everything else about the tile, stay
/// as they were. So a tile with a session and nothing in flight can be captured
/// into it: a released slot is never lost.
pub proof fn law_a_released_slot_is_free(t: Shot, k: int, now: u64)
    requires
        0 <= k < t.slots.len(),
    ensures
        !t.released(k).slots[k],
        t.released(k).slots.len() == t.slots.len(),
        forall|j: int| 0 <= j < t.slots.len() && j != k ==> #[trigger] t.released(k).slots[j]
            == t.slots[j],
        t.released(k) == (Shot { slots: t.released(k).slots, ..t }),
        t.session && !t.frame ==> t.released(k).can_capture() && !t.released(k).starved(),
        t.session && !t.frame ==> t.released(k).requested(now).frame,
        t.session && !t.frame && (forall|j: int| 0 <= j < k ==> #[trigger] t.slots[j])
            ==> t.released(k).requested(now).filling == Some(k),
{
    let after = t.released(k).slots;
    lemma_first_free(after);
    let free = first_free(after);
    if free > k {
        assert(after[k]);
    }
    if forall|j: int| 0 <= j < k ==> #[trigger] t.slots[j] {
        if free < k {
            assert(after[free] == t.slots[free]);
        }
    }
}

/// A release of a slot that is not there changes nothing.
pub proof fn law_only_a_slot_can_be_released(t: Shot, k: int)
    requires
        k < 0 || k >= t.slots.len(),
    ensures
        t.released(k) == t,
{
}

/// A capture goes into the first slot that the compositor does not hold, which
/// is held from then on; without one, or without a session, or while another is
/// in flight, nothing is asked for.
pub proof fn law_a_capture_takes_the_first_free_slot(t: Shot, now: u64)
    ensures
        ({
            let u = t.requested(now);
            let free = exists|k: int| 0 <= k < t.slots.len() && !#[trigger] t.slots[k];
            if t.session && !t.frame && free {
                &&& u.frame
                &&& u.asked == Some(now)
                &&& u.filling matches Some(k) && 0 <= k < t.slots.len() && !t.slots[k]
                    && u.slots[k] && u.slots.len() == t.slots.len() && (forall|j: int|
                    0 <= j < k ==> #[trigger] t.slots[j]) && (forall|j: int|
                    0 <= j < t.slots.len() && j != k ==> #[trigger] u.slots[j] == t.slots[j])
                &&& u == (Shot {
                    frame: u.frame,
                    asked: u.asked,
                    filling: u.filling,
                    slots: u.slots,
                    ..t
                })
            } else {
                u == t
            }
        }),
{
    lemma_first_free(t.slots);
    if exists|k: int| 0 <= k < t.slots.len() && !#[trigger] t.slots[k] {
        let k = choose|k: int| 0 <= k < t.slots.len() && !#[trigger] t.slots[k];
        assert(k >= first_free(t.slots));
    }
}

/// What asking for a capture is answered with: the slot it goes into, or that
/// the compositor holds every one, or that there is nothing to ask for.
pub proof fn law_a_request_is_answered_with_its_slot(t: Shot, now: u64)
    requires
        t.wf(),
        t.slots.len() <= usize::MAX,
    ensures
        answer(t) matches Request::Into(k) ==> !t.frame && t.requested(now).filling == Some(
            k as int,
        ),
        answer(t) is Starved <==> t.session && !t.frame && forall|k: int|
            0 <= k < t.slots.len() ==> #[trigger] t.slots[k],
        answer(t) is Waiting <==> t.frame || !t.session,
{
    lemma_first_free(t.slots);
    if t.can_capture() {
        assert(!t.slots[first_free(t.slots)]);
    }
}

/// A capture that lands is what the tile shows, in a slot that the compositor
/// holds; the tile has a thumbnail, is waited on no longer, and has produced one
/// more frame. On screen, every other slot stays as it was; before that, the one
/// that was to be shown is free again.
pub proof fn law_a_capture_that_lands_is_shown(t: Shot, k: int)
    requires
        t.wf(),
        t.filling == Some(k),
    ensures
        ({
            let u = t.landed();
            &&& !u.frame && u.filling is None
            &&& u.showing == Some(k)
            &&& u.ready && u.settled
            &&& t.frames < u32::MAX ==> u.frames == t.frames + 1
            &&& u.slots.len() == t.slots.len()
            &&& t.surface || t.showing != Some(k) ==> u.slots[k]
            &&& forall|j: int|
                0 <= j < t.slots.len() && j != k && (t.surface || t.showing != Some(j))
                    ==> #[trigger] u.slots[j] == t.slots[j]
            &&& !t.surface && t.showing is Some ==> !u.slots[t.showing->Some_0]
            &&& u == (Shot {
                frame: false,
                filling: None,
                showing: Some(k),
                ready: true,
                settled: true,
                frames: u.frames,
                slots: u.slots,
                ..t
            })
        }),
{
}

/// A capture that fails leaves its slot free and what the tile shows as it was,
/// and the tile is waited on no longer.
pub proof fn law_a_capture_that_fails_frees_its_slot(t: Shot)
    requires
        t.wf(),
    ensures
        ({
            let u = t.failed();
            &&& t.filling matches Some(k) ==> !u.slots[k]
            &&& u.slots.len() == t.slots.len()
            &&& forall|j: int|
                0 <= j < t.slots.len() && t.filling != Some(j) ==> #[trigger] u.slots[j]
                    == t.slots[j]
            &&& u == (Shot { frame: false, filling: None, settled: true, slots: u.slots, ..t })
        }),
{
}

/// A capture that fails can be asked for again: a live tile is not stuck.
pub proof fn law_a_failed_capture_can_be_tried_again(t: Shot, now: u64)
    requires
        t.wf(),
        t.session,
        t.frame,
    ensures
        t.failed().requested(now).frame,
{
    let u = t.failed();
    lemma_first_free(u.slots);
    let k = t.filling->Some_0;
    assert(!u.slots[k]);
}

/// A session and a capture are heard: each tells one thing about its tile, and
/// nothing else changes.
pub proof fn law_what_is_told_is_heard(
    t: Shot,
    w: u32,
    h: u32,
    f: u32,
    transform: Transform,
    reason: String,
)
    ensures
        told(t, SessionEvent::BufferSize(w, h)) == (Shot { size: (w, h), ..t }),
        told(t, SessionEvent::ShmFormat(f)).formats.len() == t.formats.len() + 1,
        told(t, SessionEvent::ShmFormat(f)).formats.last() == f,
        told(t, SessionEvent::ShmFormat(f)).formats.drop_last() == t.formats,
        told(t, SessionEvent::ShmFormat(f)) == (Shot {
            formats: told(t, SessionEvent::ShmFormat(f)).formats,
            ..t
        }),
        told(t, SessionEvent::Done) == (Shot { session_done: true, ..t }),
        told(t, SessionEvent::Stopped) == (Shot { settled: true, ..t }),
        arrived(t, FrameEvent::Transform(transform)) == (Shot { transform, ..t }),
        arrived(t, FrameEvent::Ready) == t.landed(),
        arrived(t, FrameEvent::Failed(reason)) == t.failed(),
{
    assert(told(t, SessionEvent::ShmFormat(f)).formats.drop_last() =~= t.formats);
}

/// An event of one tile's is no other tile's.
pub proof fn law_an_event_is_one_tiles(m: Model, i: int, t: Shot, j: int)
    ensures
        with_tile(m, i, t).tiles.len() == m.tiles.len(),
        0 <= i < m.tiles.len() ==> with_tile(m, i, t).tiles[i] == t,
        0 <= j < m.tiles.len() && j != i ==> with_tile(m, i, t).tiles[j] == m.tiles[j],
        with_tile(m, i, t) == (Model { tiles: with_tile(m, i, t).tiles, ..m }),
{
    assert(with_tile(m, i, t) =~= (Model { tiles: with_tile(m, i, t).tiles, ..m }));
}

/// What to do about a capture: one that ended is destroyed, one that landed is
/// attached where the tile is on screen, and one that failed before the tile had
/// any is complained about, by the window's title and the reason.
pub proof fn law_a_capture_that_ended_is_destroyed(
    r: FrameReply,
    t: Shot,
    event: FrameEvent,
    reason: String,
)
    requires
        replies(r, Some(t), event),
    ensures
        r.destroy <==> t.frame && !(event is Transform),
        event is Ready && t.surface ==> place(r.attach) == t.filling,
        !(event is Ready && t.surface) ==> r.attach is None,
        r.complaint is Some <==> event is Failed && t.frames == 0,
        event == FrameEvent::Failed(reason) && t.frames == 0 ==> r.complaint->Some_0@
            == "wl-pick: capture failed for "@ + words::quoted(t.target.title) + " ("@ + reason@
            + ")"@,
{
}

/// A window is captured from the first toplevel that has its identifier, and a
/// display from the first output of its name, where those can be captured; a
/// window without an identifier from nothing.
pub proof fn law_a_tile_is_captured_from_its_own_source(m: Model, t: Record, i: int)
    requires
        m.toplevels.len() <= usize::MAX,
        m.outputs.len() <= usize::MAX,
    ensures
        t.kind == Kind::Window && t.ft_id.len() > 0 && 0 <= i < m.toplevels.len() && m.toplevels[i]
            == t.ft_id && (forall|j: int| 0 <= j < i ==> #[trigger] m.toplevels[j] != t.ft_id)
            ==> source_of(m, t) == Some(Source::Toplevel(i as usize)),
        t.kind == Kind::Window && (t.ft_id.len() == 0 || !m.toplevels.contains(t.ft_id))
            ==> source_of(m, t) is None,
        t.kind == Kind::Output && m.output_sources && 0 <= i < m.outputs.len() && m.outputs[i]
            == t.id && (forall|j: int| 0 <= j < i ==> #[trigger] m.outputs[j] != t.id)
            ==> source_of(m, t) == Some(Source::Output(i as usize)),
        t.kind == Kind::Output && (!m.output_sources || !m.outputs.contains(t.id)) ==> source_of(
            m,
            t,
        ) is None,
{
    words::law_the_first_of_its_kind_is_found(m.toplevels, t.ft_id);
    words::law_the_first_of_its_kind_is_found(m.outputs, t.id);
    let (a, b) = (words::position(m.toplevels, t.ft_id), words::position(m.outputs, t.id));
    if 0 <= i < m.toplevels.len() && m.toplevels[i] == t.ft_id {
        if a < i {
            assert(m.toplevels[a] == t.ft_id);
        }
    }
    if 0 <= i < m.outputs.len() && m.outputs[i] == t.id {
        if b < i {
            assert(m.outputs[b] == t.id);
        }
    }
}

/// A session is open where there is something to capture from, and no tile is
/// waited on where there is not.
pub proof fn law_a_session_needs_a_source(m: Model, t: Shot)
    ensures
        source_of(m, t.target) is Some ==> opened(m, t) == (Shot { session: true, ..t }),
        source_of(m, t.target) is None ==> opened(m, t) == (Shot { settled: true, ..t }),
{
}

/// The format to capture in is one of those on offer: the first of the two that
/// every compositor has, where one of them is, and else the first of all.
pub proof fn law_a_common_format_is_preferred(formats: Seq<u32>, i: int)
    requires
        0 <= i < formats.len(),
    ensures
        preferred(formats) is Some,
        formats.contains(preferred(formats)->Some_0),
        formats[i] <= 1 && (forall|j: int| 0 <= j < i ==> #[trigger] formats[j] > 1) ==> preferred(
            formats,
        ) == Some(formats[i]),
        (forall|j: int| 0 <= j < formats.len() ==> #[trigger] formats[j] > 1) ==> preferred(formats)
            == Some(formats[0]),
    decreases formats.len(),
{
    lemma_first_common(formats);
    let c = first_common(formats);
    if c < formats.len() {
        assert(formats.contains(formats[c]));
    }
    assert(formats.contains(formats[0]));
    if formats[i] <= 1 && (forall|j: int| 0 <= j < i ==> #[trigger] formats[j] > 1) {
        if c < i {
            assert(formats[c] > 1);
        } else if c > i {
            assert(formats[i] > 1);
        }
    }
}

proof fn lemma_first_common(formats: Seq<u32>)
    ensures
        0 <= first_common(formats) <= formats.len(),
        first_common(formats) < formats.len() ==> formats[first_common(formats)] <= 1,
        forall|j: int| 0 <= j < first_common(formats) ==> #[trigger] formats[j] > 1,
    decreases formats.len(),
{
    if formats.len() > 0 && formats[0] > 1 {
        lemma_first_common(formats.drop_first());
        assert forall|j: int| 0 <= j < first_common(formats) implies #[trigger] formats[j] > 1 by {
            if j > 0 {
                assert(formats[j] == formats.drop_first()[j - 1]);
            }
        }
    }
}

/// What a tile needs to be captured at all: a session that said everything, a
/// size, and a format.
pub proof fn law_a_capture_needs_a_size_and_a_format(t: Shot)
    ensures
        capturable(t) <==> t.session && t.session_done && t.size.0 >= 1 && t.size.1 >= 1
            && t.formats.len() >= 1,
{
}

/// A window that stays live gets two buffers, and anything else one; they are
/// free but for the one that the first frame goes into, which is on its way. A
/// tile that is waited on no longer gets none.
pub proof fn law_a_live_window_gets_two_buffers(live: Live, t: Shot, now: u64)
    requires
        t.wf(),
        t.slots.len() == 0,
        !t.frame,
        capturable(t),
    ensures
        ({
            let u = begun(live, t, now);
            &&& u.format == preferred(t.formats)
            &&& t.settled ==> u == (Shot { format: u.format, ..t })
            &&& !t.settled ==> {
                &&& u.slots.len() == if t.target.kind == Kind::Window && live != Live::Nothing {
                    2int
                } else {
                    1
                }
                &&& u.frame && u.filling == Some(0int) && u.asked == Some(now)
                &&& u.slots[0]
                &&& u.slots.len() == 2 ==> !u.slots[1]
                &&& u == (Shot {
                    format: u.format,
                    slots: u.slots,
                    frame: true,
                    filling: Some(0),
                    asked: Some(now),
                    ..t
                })
            }
        }),
{
    let more = t.slots + Seq::new(slot_count(live, t) as nat, |k: int| false);
    assert(!more[0]);
    lemma_first_free(more);
}

/// A tile without a session is left alone, and one whose session said too little
/// is waited on no longer.
pub proof fn law_a_start_leaves_the_rest_alone(live: Live, t: Shot, now: u64)
    ensures
        !t.session ==> begun(live, t, now) == t,
        t.session && !capturable(t) ==> begun(live, t, now) == (Shot { settled: true, ..t }),
{
}

/// The buffers of a tile are as large as its session asked for, four bytes to a
/// pixel, each on pages of its own that are no more than it needs, one after the
/// other from where the tile's begin.
pub proof fn law_a_plan_measures_its_buffers(live: Live, t: Shot, i: int, total: int)
    requires
        t.wf(),
        capturable(t),
    ensures
        ({
            let p = plan_at(live, t, i, total);
            let bytes = t.size.0 * t.size.1 * 4;
            &&& p.tile == i
            &&& p.w == t.size.0 && p.h == t.size.1
            &&& p.stride == 4 * p.w
            &&& p.format == preferred(t.formats)
            &&& p.first == t.slots.len()
            &&& p.offsets.len() == if t.target.kind == Kind::Window && live != Live::Nothing {
                2int
            } else {
                1
            }
            &&& p.offsets[0] == total
            &&& p.offsets.len() == 2 ==> bytes <= p.offsets[1] - p.offsets[0] < bytes + 4096
            &&& p.offsets.len() == 2 ==> (p.offsets[1] - p.offsets[0]) % 4096 == 0
            &&& bytes <= room(live, t) - (p.offsets.last() - total) < bytes + 4096
            &&& room(live, t) % 4096 == 0
        }),
{
    let (w, h) = (t.size.0 as int, t.size.1 as int);
    assert(w * 4 * h == w * h * 4) by (nonlinear_arith);
    lemma_room(live, t);
    lemma_padded(t.bytes());
    let p = padded(t.bytes());
    assert(0 * p == 0 && 1 * p == p && 2 * p == p + p);
}

/// A tile that cannot be captured takes no room.
pub proof fn law_what_cannot_be_captured_takes_no_room(live: Live, t: Shot)
    requires
        !capturable(t),
    ensures
        room(live, t) == 0,
{
}

/// Just the tiles that can be captured and are still waited on have buffers laid
/// out, each once, in order, from where the ones before it end.
pub proof fn law_every_waiting_tile_is_planned_once(live: Live, tiles: Seq<Shot>, n: int)
    requires
        0 <= n <= tiles.len(),
    ensures
        ({
            let all = plans(live, tiles, n);
            &&& forall|k: int|
                0 <= k < all.len() ==> 0 <= (#[trigger] all[k]).tile < n && capturable(
                    tiles[all[k].tile],
                ) && !tiles[all[k].tile].settled && all[k] == plan_at(
                    live,
                    tiles[all[k].tile],
                    all[k].tile,
                    pool_size(live, tiles.take(all[k].tile)),
                )
            &&& forall|k: int, l: int|
                0 <= k < l < all.len() ==> (#[trigger] all[k]).tile < (#[trigger] all[l]).tile
            &&& forall|i: int|
                0 <= i < n && capturable(#[trigger] tiles[i]) && !tiles[i].settled ==> exists|k: int|
                    0 <= k < all.len() && (#[trigger] all[k]).tile == i
        }),
    decreases n,
{
    if n > 0 {
        law_every_waiting_tile_is_planned_once(live, tiles, n - 1);
        let (all, before) = (plans(live, tiles, n), plans(live, tiles, n - 1));
        if capturable(tiles[n - 1]) && !tiles[n - 1].settled {
            assert(all[before.len() as int].tile == n - 1);
            assert forall|k: int| 0 <= k < before.len() implies #[trigger] all[k] == before[k] by {}
            assert forall|i: int| 0 <= i < n && capturable(#[trigger] tiles[i])
                && !tiles[i].settled implies exists|k: int|
                0 <= k < all.len() && (#[trigger] all[k]).tile == i by {
                if i < n - 1 {
                    let k = choose|k: int|
                        0 <= k < before.len() && (#[trigger] before[k]).tile == i;
                    assert(all[k].tile == i);
                }
            }
        }
    }
}

/// A tick captures every window again that is to stay live, has a buffer free,
/// has nothing in flight, and was not asked for less than the interval ago: it
/// is one of the captures, into the slot that the tile is filling from then on.
pub proof fn law_a_tick_captures_what_is_due(m: Model, i: int, now: u64, interval: u64)
    requires
        m.wf(),
        0 <= i < m.tiles.len(),
        m.live == Live::All || m.live == Live::Current && i == m.sel,
        m.tiles[i].target.kind == Kind::Window,
        !m.tiles[i].frame,
        exists|k: int| 0 <= k < m.tiles[i].slots.len() && !#[trigger] m.tiles[i].slots[k],
        m.tiles[i].asked matches Some(then) ==> now - then >= interval,
    ensures
        ({
            let u = ticked(m, now, interval).tiles[i];
            &&& u.frame && u.asked == Some(now)
            &&& u.filling matches Some(k) && 0 <= k < m.tiles[i].slots.len()
                && !m.tiles[i].slots[k] && recaptures(
                m,
                m.tiles.len() as int,
                now,
                interval,
            ).contains((i, k))
        }),
{
    let t = m.tiles[i];
    assert(t.wf());
    law_a_capture_takes_the_first_free_slot(t, now);
    let k = choose|k: int| 0 <= k < t.slots.len() && !#[trigger] t.slots[k];
    lemma_first_free(t.slots);
    assert(due(m, i, now, interval));
    assert(t.can_capture());
    lemma_recaptures(m, m.tiles.len() as int, now, interval, i);
}

proof fn lemma_recaptures(m: Model, n: int, now: u64, interval: u64, i: int)
    requires
        0 <= i < n <= m.tiles.len(),
        due(m, i, now, interval),
        m.tiles[i].can_capture(),
    ensures
        recaptures(m, n, now, interval).contains((i, first_free(m.tiles[i].slots))),
    decreases n,
{
    let all = recaptures(m, n, now, interval);
    let before = recaptures(m, n - 1, now, interval);
    if i == n - 1 {
        assert(all.last() == (i, first_free(m.tiles[i].slots)));
        assert(all[all.len() - 1] == (i, first_free(m.tiles[i].slots)));
    } else {
        lemma_recaptures(m, n - 1, now, interval, i);
        let k = choose|k: int|
            0 <= k < before.len() && before[k] == (i, first_free(m.tiles[i].slots));
        assert(all[k] == before[k]);
    }
}

/// Each capture of a tick is of a tile that had nothing in flight, into the slot
/// that it fills from then on; no tile is captured twice, and they come in
/// order. A tile that is not among them stays as it was.
pub proof fn law_a_tick_captures_nothing_else(m: Model, now: u64, interval: u64)
    requires
        m.wf(),
    ensures
        ({
            let all = recaptures(m, m.tiles.len() as int, now, interval);
            let after = ticked(m, now, interval);
            &&& forall|k: int|
                0 <= k < all.len() ==> 0 <= (#[trigger] all[k]).0 < m.tiles.len()
                    && !m.tiles[all[k].0].frame && after.tiles[all[k].0].frame
                    && after.tiles[all[k].0].filling == Some(all[k].1)
            &&& forall|k: int, l: int|
                0 <= k < l < all.len() ==> (#[trigger] all[k]).0 < (#[trigger] all[l]).0
            &&& forall|i: int|
                0 <= i < m.tiles.len() && (forall|k: int|
                    0 <= k < all.len() ==> (#[trigger] all[k]).0 != i)
                    ==> #[trigger] after.tiles[i] == m.tiles[i]
            &&& after.tiles.len() == m.tiles.len()
            &&& m.stats.ticks < u32::MAX ==> after.stats.ticks == m.stats.ticks + 1
            &&& after == (Model { tiles: after.tiles, stats: after.stats, ..m })
            &&& after.stats.pool_bytes == m.stats.pool_bytes
        }),
{
    let all = recaptures(m, m.tiles.len() as int, now, interval);
    let after = ticked(m, now, interval);
    lemma_recaptures_are_due(m, m.tiles.len() as int, now, interval);
    assert forall|i: int|
        0 <= i < m.tiles.len() && (forall|k: int|
            0 <= k < all.len() ==> (#[trigger] all[k]).0 != i) implies #[trigger] after.tiles[i]
        == m.tiles[i] by {
        if due(m, i, now, interval) && m.tiles[i].can_capture() {
            lemma_recaptures(m, m.tiles.len() as int, now, interval, i);
            let k = choose|k: int|
                0 <= k < all.len() && all[k] == (i, first_free(m.tiles[i].slots));
            assert(all[k].0 == i);
        }
    }
    assert(after =~= (Model { tiles: after.tiles, stats: after.stats, ..m }));
}

proof fn lemma_recaptures_are_due(m: Model, n: int, now: u64, interval: u64)
    requires
        0 <= n <= m.tiles.len(),
    ensures
        ({
            let all = recaptures(m, n, now, interval);
            &&& forall|k: int|
                0 <= k < all.len() ==> 0 <= (#[trigger] all[k]).0 < n && due(
                    m,
                    all[k].0,
                    now,
                    interval,
                ) && m.tiles[all[k].0].can_capture() && all[k].1 == first_free(
                    m.tiles[all[k].0].slots,
                )
            &&& forall|k: int, l: int|
                0 <= k < l < all.len() ==> (#[trigger] all[k]).0 < (#[trigger] all[l]).0
        }),
    decreases n,
{
    if n > 0 {
        lemma_recaptures_are_due(m, n - 1, now, interval);
        let (all, before) = (
            recaptures(m, n, now, interval),
            recaptures(m, n - 1, now, interval),
        );
        assert forall|k: int| 0 <= k < before.len() implies #[trigger] all[k] == before[k] by {}
    }
}

/// A tick counts the live windows that were due while the compositor held every
/// buffer of theirs, one for each: none adds nothing, and one that is alone in
/// it adds one.
pub proof fn law_a_tick_counts_the_starved(m: Model, i: int, now: u64, interval: u64)
    requires
        m.wf(),
        0 <= i < m.tiles.len(),
        m.stats.starved < u32::MAX,
        forall|j: int|
            0 <= j < m.tiles.len() && j != i ==> exists|k: int|
                0 <= k < (#[trigger] m.tiles[j]).slots.len() && !#[trigger] m.tiles[j].slots[k],
    ensures
        ticked(m, now, interval).stats.starved == m.stats.starved + if (m.live == Live::All
            || m.live == Live::Current && i == m.sel) && m.tiles[i].target.kind == Kind::Window
            && m.tiles[i].slots.len() > 0 && !m.tiles[i].frame && (forall|k: int|
            0 <= k < m.tiles[i].slots.len() ==> #[trigger] m.tiles[i].slots[k]) && (
        m.tiles[i].asked matches Some(then) ==> elapsed(now, then) >= interval) {
            1int
        } else {
            0
        },
{
    assert(m.tiles[i].wf());
    lemma_starvation(m, m.tiles.len() as int, i, now, interval);
}

proof fn lemma_starvation(m: Model, n: int, i: int, now: u64, interval: u64)
    requires
        0 <= n <= m.tiles.len(),
        0 <= i < m.tiles.len(),
        m.tiles[i].slots.len() > 0 ==> m.tiles[i].session,
        m.stats.starved < u32::MAX,
        forall|j: int|
            0 <= j < m.tiles.len() && j != i ==> exists|k: int|
                0 <= k < (#[trigger] m.tiles[j]).slots.len() && !#[trigger] m.tiles[j].slots[k],
    ensures
        starvation(m, n, now, interval) == m.stats.starved + if i < n && due(m, i, now, interval) && (
        forall|k: int| 0 <= k < m.tiles[i].slots.len() ==> #[trigger] m.tiles[i].slots[k]) {
            1int
        } else {
            0
        },
    decreases n,
{
    if n > 0 {
        lemma_starvation(m, n - 1, i, now, interval);
        let slots = m.tiles[n - 1].slots;
        lemma_first_free(slots);
        if n - 1 != i {
            let k = choose|k: int| 0 <= k < slots.len() && !#[trigger] slots[k];
            assert(!slots[k]);
            assert(first_free(slots) <= k);
        } else if first_free(slots) < slots.len() {
            assert(!slots[first_free(slots)]);
        }
    }
}

/// A preview goes on: once the compositor hands back the buffer that is on
/// screen, the next tick that is due captures into the tile again.
pub proof fn law_a_released_preview_goes_on(m: Model, i: int, k: int, now: u64, interval: u64)
    requires
        m.wf(),
        m.live == Live::All || m.live == Live::Current && i == m.sel,
        0 <= i < m.tiles.len(),
        m.tiles[i].target.kind == Kind::Window,
        !m.tiles[i].frame,
        0 <= k < m.tiles[i].slots.len(),
        m.tiles[i].asked matches Some(then) ==> now - then >= interval,
    ensures
        ticked(with_tile(m, i, m.tiles[i].released(k)), now, interval).tiles[i].frame,
{
    let t = m.tiles[i];
    let after = with_tile(m, i, t.released(k));
    assert(t.wf());
    assert(after.tiles[i] == t.released(k));
    assert(!after.tiles[i].slots[k]);
    lemma_first_free(after.tiles[i].slots);
}

/// Nanoseconds go forwards: none have passed before the moment itself.
pub proof fn law_time_goes_forwards(now: u64, then: u64)
    ensures
        now >= then ==> elapsed(now, then) == now - then,
        now <= then ==> elapsed(now, then) == 0,
{
}

/// Each setting of what stays live has one word, and no other word has any.
pub proof fn law_live_settings_have_one_word_each(word: Seq<char>)
    ensures
        word == "all"@ ==> Live::named(word) == Some(Live::All),
        Live::named(word) == Some(Live::All) ==> word == "all"@,
        word == "current"@ ==> Live::named(word) == Some(Live::Current),
        Live::named(word) == Some(Live::Current) ==> word == "current"@,
        word == "none"@ ==> Live::named(word) == Some(Live::Nothing),
        Live::named(word) == Some(Live::Nothing) ==> word == "none"@,
{
    reveal_strlit("all");
    reveal_strlit("current");
    reveal_strlit("none");
    assert("all"@.len() == 3 && "current"@.len() == 7 && "none"@.len() == 4);
}

/// A quarter turn lays a buffer on its side, with or without a flip; no other
/// transform does.
pub proof fn law_a_quarter_turn_lies_sideways(t: Transform)
    ensures
        t.sideways() <==> !(t is Normal || t is Rotated180 || t is Flipped || t is Flipped180),
{
}

/// A tile starts with nothing: no session, no capture, no thumbnail.
pub proof fn law_a_tile_starts_with_nothing(target: Record)
    ensures
        ({
            let t = Shot::fresh(target);
            &&& t.target == target
            &&& !t.session && !t.session_done && !t.frame && !t.ready && !t.settled && !t.surface
            &&& t.filling is None && t.showing is None && t.format is None && t.asked is None
            &&& t.slots.len() == 0 && t.formats.len() == 0 && t.frames == 0
            &&& t.size == (0u32, 0u32) && t.transform is Normal
        }),
{
}

/// The pool holds every tile's buffers and nothing more.
pub proof fn law_the_pool_holds_every_tile(live: Live, tiles: Seq<Shot>, t: Shot)
    ensures
        pool_size(live, Seq::empty()) == 0,
        pool_size(live, tiles.push(t)) == pool_size(live, tiles) + room(live, t),
{
    assert(tiles.push(t).drop_last() =~= tiles);
}

/// What a tile shows is what it holds.
pub proof fn law_a_tile_shows_what_it_holds(t: Tile, i: int)
    ensures
        t@.target == t.target@ && t@.session == t.session && t@.frame == t.frame && t@.formats
            == t.formats@ && t@.format == t.format && t@.size == t.size && t@.transform
            == t.transform,
        t@.session_done == t.session_done && t@.ready == t.ready && t@.settled == t.settled
            && t@.asked == t.asked && t@.frames == t.frames && t@.surface == t.surface,
        t@.filling is Some == t.filling is Some && (t.filling matches Some(k) ==> t@.filling
            == Some(k as int)),
        t@.showing is Some == t.showing is Some && (t.showing matches Some(k) ==> t@.showing
            == Some(k as int)),
        t@.slots.len() == t.slots@.len() && (0 <= i < t.slots@.len() ==> t@.slots[i]
            == t.slots@[i].busy),
{
}

/// What a start shows is what it holds.
pub proof fn law_a_start_shows_what_it_holds(s: Start, i: int)
    ensures
        s@.tile == s.tile && s@.w == s.w && s@.h == s.h && s@.stride == s.stride && s@.format
            == Some(s.format) && s@.first == s.first && s@.capture == s.capture,
        s@.offsets.len() == s.offsets@.len() && (0 <= i < s.offsets@.len() ==> s@.offsets[i]
            == s.offsets@[i]),
{
}

} // verus!
