//! Command line: flags, defaults, and the help text that documents them.

use vstd::prelude::*;
use vstd::string::*;

use crate::app::Settings;
use crate::capture::Live;
use crate::config;
use crate::config::{Choices, Config, Length, Size};
use crate::sway::Display;
use crate::target::Format;
use crate::theme::{Look, Theme};
use crate::words;
use crate::words::{Literal, chars_of, read_u32, same};

verus! {

pub const HELP: &'static str = "\
wl-pick — a live grid of window and display previews, for picking one

usage: wl-pick [options]

  --config PATH             config file [~/.config/wl-pick/config]
  --format tsv|json|portal  how to report the pick [tsv]
  --live all|current|none   which tiles keep updating live [all]
                            (displays are always a single snapshot)
  --fps N                   cap on live updates per tile per second [12]
  --outputs, --no-outputs   include whole displays as tiles [yes]
  --labels, --no-labels     a label under each thumbnail [yes]
  --font NAME               label font: a family, optionally followed by a
                            style, as in 'Iosevka Medium Condensed'
                            [the system monospace font]
  --font-size PX            label size in logical px [13.3]
  --timeout SECS            exit anyway after SECS, in case the keyboard
                            grab ever traps you [off]
  -v, --verbose             phase timings, tile list and capture stats
  -h, --help                this

keys:  arrows, hjkl or Tab/Shift+Tab move; PgUp/PgDn and Home/End jump;
       Enter picks; Escape or q cancels
mouse: click a tile to pick it, scroll to move. Hovering does not move the
       selection, and a click outside a tile does nothing.

The pick goes to stdout and nothing does if you cancel, so exit status is
0 for a pick and 1 for a cancel. Acting on it is the caller's job.

config:

  Flat `key = value` lines, `#` comments, everything optional; a flag beats
  the file. Sizes take sway's units — `600px` is absolute, `70ppt` is a
  percentage of the display the grid appears on, so one file suits monitors
  of different sizes.

    background     = #282828      # the grid's backdrop
    foreground     = #ebdbb2      # label text
    selection      = #d79921      # the highlighted tile
    selection-text = #282828      # its label
    border         = #d79921
    border-width   = 2px

    max-width      = 90ppt        # the box the grid may fill
    max-height     = 90ppt
    max-columns    = 4            # thumbnails are the box divided by these,
    max-rows       = 4            # so their size never depends on how many
                                  # windows are open; further rows scroll

    font           = monospace    # a family, optionally with a style
    font-size      = 13.3
    labels         = yes
    outputs        = yes          # include whole displays as tiles
    live           = all
    fps            = 12
    format         = tsv
    timeout        = 0            # seconds; 0 means none

formats:

  tsv     TYPE<TAB>ID<TAB>TOPLEVEL_ID<TAB>APP<TAB>TITLE, e.g.

            window	1234	f0e1d2c3b4a59687	firefox	Wikipedia
            output	HDMI-A-1		display	HDMI-A-1

          ID is the thing to act on: a sway con_id, or the display name.
          TOPLEVEL_ID is the ext-foreign-toplevel-list-v1 identifier that
          capture tools address a window by (grim -T, the desktop portal),
          empty for a display.

  json    the same fields as one object, every key always present, for jq

  portal  \"Window: TOPLEVEL_ID\" or \"Monitor: NAME\", what
          xdg-desktop-portal-wlr's simple chooser reads:

            [screencast]
            chooser_type=simple
            chooser_cmd=wl-pick --format portal

focusing on sway:

  IFS=$'\\t' read -r type id toplevel app title < <(wl-pick) &&
    case $type in
      window) swaymsg \"[con_id=$id] focus\" ;;
      output) swaymsg \"focus output $id\" ;;
    esac
";

// --- flags -----------------------------------------------------------------
/// What the command line asked for. Every setting is optional so the config file
/// can fill the gaps: a flag beats the file, the file beats the default.
#[derive(Debug)]
pub struct Args {
    pub config: Option<String>,
    pub verbose: bool,
    pub format: Option<Format>,
    pub outputs: Option<bool>,
    pub labels: Option<bool>,
    pub font: Option<String>,
    pub font_size: Option<Literal>,
    pub live: Option<Live>,
    pub fps: Option<u32>,
    /// Seconds until the picker gives up; none where they are not positive.
    pub timeout: Option<Literal>,
}

pub struct Wants {
    pub config: Option<Seq<char>>,
    pub verbose: bool,
    pub format: Option<Format>,
    pub outputs: Option<bool>,
    pub labels: Option<bool>,
    pub font: Option<Seq<char>>,
    pub font_size: Option<Seq<char>>,
    pub live: Option<Live>,
    pub fps: Option<u32>,
    pub timeout: Option<Seq<char>>,
}

impl Wants {
    pub open spec fn none() -> Wants {
        Wants {
            config: None,
            verbose: false,
            format: None,
            outputs: None,
            labels: None,
            font: None,
            font_size: None,
            live: None,
            fps: None,
            timeout: None,
        }
    }
}

impl View for Args {
    type V = Wants;

    open spec fn view(&self) -> Wants {
        Wants {
            config: config::viewed(self.config),
            verbose: self.verbose,
            format: self.format,
            outputs: self.outputs,
            labels: self.labels,
            font: config::viewed(self.font),
            font_size: config::viewed(self.font_size),
            live: self.live,
            fps: self.fps,
            timeout: config::viewed(self.timeout),
        }
    }
}

impl Default for Args {
    fn default() -> (a: Self)
        ensures
            a@ == Wants::none(),
            a.wf(),
    {
        Args {
            config: None,
            verbose: false,
            format: None,
            outputs: None,
            labels: None,
            font: None,
            font_size: None,
            live: None,
            fps: None,
            timeout: None,
        }
    }
}

/// What a command line comes to: a run, or the help text.
pub enum Parsed {
    Run(Args),
    Help,
}

pub enum Asked {
    Run(Wants),
    Help,
}

/// What is missing when a flag that takes a value is the last word; `None` for
/// one that takes none.
pub open spec fn needs(flag: Seq<char>) -> Option<Seq<char>> {
    if flag == "--format"@ {
        Some("--format needs tsv|json|portal"@)
    } else if flag == "--config"@ {
        Some("--config needs a path"@)
    } else if flag == "--live"@ {
        Some("--live needs all|current|none"@)
    } else if flag == "--fps"@ {
        Some("--fps needs a number"@)
    } else if flag == "--font"@ {
        Some("--font needs a font name"@)
    } else if flag == "--font-size"@ {
        Some("--font-size needs px"@)
    } else if flag == "--timeout"@ {
        Some("--timeout needs seconds"@)
    } else {
        None
    }
}

/// What a flag with its value makes of the wants, or why it cannot be.
pub open spec fn with_value(a: Wants, flag: Seq<char>, v: Seq<char>) -> Result<Wants, Seq<char>> {
    if flag == "--format"@ {
        match Format::named(words::trimmed(v)) {
            Some(f) => Ok(Wants { format: Some(f), ..a }),
            None => Err(words::quoted(words::trimmed(v)) + " is not tsv, json or portal"@),
        }
    } else if flag == "--config"@ {
        Ok(Wants { config: Some(v), ..a })
    } else if flag == "--live"@ {
        match Live::named(words::trimmed(v)) {
            Some(l) => Ok(Wants { live: Some(l), ..a }),
            None => Err(words::quoted(words::trimmed(v)) + " is not all, current or none"@),
        }
    } else if flag == "--fps"@ {
        match words::u32_value(v, 10) {
            Some(n) => Ok(Wants { fps: Some(n), ..a }),
            None => Err("bad --fps: "@ + v),
        }
    } else if flag == "--font"@ {
        Ok(Wants { font: Some(v), ..a })
    } else if flag == "--font-size"@ {
        if words::is_literal(v) {
            Ok(Wants { font_size: Some(v), ..a })
        } else {
            Err("bad --font-size: "@ + v)
        }
    } else if words::is_literal(v) {
        Ok(Wants { timeout: Some(v), ..a })
    } else {
        Err("bad --timeout: "@ + v)
    }
}

/// What a flag without a value makes of the wants, if it is one.
pub open spec fn switched(a: Wants, flag: Seq<char>) -> Option<Wants> {
    if flag == "--outputs"@ {
        Some(Wants { outputs: Some(true), ..a })
    } else if flag == "--no-outputs"@ {
        Some(Wants { outputs: Some(false), ..a })
    } else if flag == "-v"@ || flag == "--verbose"@ {
        Some(Wants { verbose: true, ..a })
    } else if flag == "--labels"@ {
        Some(Wants { labels: Some(true), ..a })
    } else if flag == "--no-labels"@ || flag == "--hide-labels"@ {
        Some(Wants { labels: Some(false), ..a })
    } else {
        None
    }
}

/// What a command line asks for, on top of these wants, or the first thing that
/// is wrong with it.
pub open spec fn asked(a: Wants, args: Seq<Seq<char>>) -> Result<Asked, Seq<char>>
    decreases args.len(),
{
    if args.len() == 0 {
        Ok(Asked::Run(a))
    } else {
        let flag = args[0];
        let rest = args.drop_first();
        if needs(flag) is Some {
            if rest.len() == 0 {
                Err(needs(flag)->Some_0)
            } else {
                match with_value(a, flag, rest[0]) {
                    Ok(b) => asked(b, rest.drop_first()),
                    Err(e) => Err(e),
                }
            }
        } else if flag == "-h"@ || flag == "--help"@ {
            Ok(Asked::Help)
        } else {
            match switched(a, flag) {
                Some(b) => asked(b, rest),
                None => Err("unknown argument: "@ + flag),
            }
        }
    }
}

/// That a command line was read as specified.
pub open spec fn reads(r: Result<Parsed, String>, want: Result<Asked, Seq<char>>) -> bool {
    match (r, want) {
        (Ok(Parsed::Run(a)), Ok(Asked::Run(b))) => a@ == b && a.wf(),
        (Ok(Parsed::Help), Ok(Asked::Help)) => true,
        (Err(a), Err(b)) => a@ == b,
        _ => false,
    }
}

fn missing(flag: &str) -> (r: Option<&'static str>)
    ensures
        match (r, needs(flag@)) {
            (Some(a), Some(b)) => a@ == b,
            (None, None) => true,
            _ => false,
        },
{
    if same(flag, "--format") {
        Some("--format needs tsv|json|portal")
    } else if same(flag, "--config") {
        Some("--config needs a path")
    } else if same(flag, "--live") {
        Some("--live needs all|current|none")
    } else if same(flag, "--fps") {
        Some("--fps needs a number")
    } else if same(flag, "--font") {
        Some("--font needs a font name")
    } else if same(flag, "--font-size") {
        Some("--font-size needs px")
    } else if same(flag, "--timeout") {
        Some("--timeout needs seconds")
    } else {
        None
    }
}

fn bad(what: &str, value: &str) -> (r: String)
    ensures
        r@ == what@ + value@,
{
    let mut message = what.to_owned();
    message.append(value);
    message
}

impl Args {
    /// Every number in it reads as one.
    pub open spec fn wf(&self) -> bool {
        &&& self.font_size matches Some(v) ==> v.wf()
        &&& self.timeout matches Some(v) ==> v.wf()
    }

    fn take(&mut self, flag: &str, v: &str) -> (r: Result<(), String>)
        requires
            old(self).wf(),
        ensures
            final(self).wf(),
            match (r, with_value(old(self)@, flag@, v@)) {
                (Ok(_), Ok(b)) => final(self)@ == b,
                (Err(a), Err(b)) => a@ == b,
                _ => false,
            },
    {
        if same(flag, "--format") {
            match Format::parse(v) {
                Ok(f) => self.format = Some(f),
                Err(e) => return Err(e),
            }
        } else if same(flag, "--config") {
            self.config = Some(v.to_owned());
        } else if same(flag, "--live") {
            match Live::parse(v) {
                Ok(l) => self.live = Some(l),
                Err(e) => return Err(e),
            }
        } else if same(flag, "--fps") {
            match read_u32(chars_of(v).as_slice(), 10) {
                Some(n) => self.fps = Some(n),
                None => return Err(bad("bad --fps: ", v)),
            }
        } else if same(flag, "--font") {
            self.font = Some(v.to_owned());
        } else if same(flag, "--font-size") {
            match Literal::read(chars_of(v).as_slice()) {
                Some(n) => self.font_size = Some(n),
                None => return Err(bad("bad --font-size: ", v)),
            }
        } else {
            match Literal::read(chars_of(v).as_slice()) {
                Some(n) => self.timeout = Some(n),
                None => return Err(bad("bad --timeout: ", v)),
            }
        }
        Ok(())
    }

    fn switch(&mut self, flag: &str) -> (r: bool)
        requires
            old(self).wf(),
        ensures
            final(self).wf(),
            match switched(old(self)@, flag@) {
                Some(b) => r && final(self)@ == b,
                None => !r,
            },
    {
        if same(flag, "--outputs") {
            self.outputs = Some(true);
        } else if same(flag, "--no-outputs") {
            self.outputs = Some(false);
        } else if same(flag, "-v") || same(flag, "--verbose") {
            self.verbose = true;
        } else if same(flag, "--labels") {
            self.labels = Some(true);
        } else if same(flag, "--no-labels") || same(flag, "--hide-labels") {
            // --hide-labels was the only spelling before --labels existed, and
            // is still accepted for whatever it is wired into.
            self.labels = Some(false);
        } else {
            return false;
        }
        true
    }
}

/// Read the command line, without the program's name.
pub fn parse(args: &[String]) -> (r: Result<Parsed, String>)
    ensures
        reads(r, asked(Wants::none(), words::texts(args@))),
{
    let ghost all = words::texts(args@);
    let mut out = Args::default();
    let mut i: usize = 0;
    assert(all.skip(0) =~= all);
    while i < args.len()
        invariant
            i <= args@.len(),
            all == words::texts(args@),
            out.wf(),
            asked(Wants::none(), all) == asked(out@, all.skip(i as int)),
        decreases args@.len() - i,
    {
        let ghost rest = all.skip(i as int);
        let flag = args[i].as_str();
        assert(rest[0] == flag@);
        assert(rest.drop_first() =~= all.skip(i + 1));
        if let Some(message) = missing(flag) {
            if args.len() - i < 2 {
                return Err(message.to_owned());
            }
            assert(rest.drop_first()[0] == args@[i + 1]@);
            assert(rest.drop_first().drop_first() =~= all.skip(i + 2));
            if let Err(e) = out.take(flag, args[i + 1].as_str()) {
                return Err(e);
            }
            i = i + 2;
        } else if same(flag, "-h") || same(flag, "--help") {
            return Ok(Parsed::Help);
        } else {
            if !out.switch(flag) {
                return Err(bad("unknown argument: ", flag));
            }
            i = i + 1;
        }
    }
    Ok(Parsed::Run(out))
}

// --- settling everything ---------------------------------------------------
/// The lengths that were asked for, on the way to pixels.
pub struct Lengths {
    /// The box the grid may fill. Left alone it is most of the display, and
    /// being a percentage it travels between monitors.
    pub max_width: Length,
    pub max_height: Length,
    /// Where the file sets it.
    pub border_width: Option<Length>,
    /// Where a flag or the file sets it.
    pub font_size: Option<Literal>,
}

/// What those lengths come to on the display, in logical px, and which timeouts
/// are positive: what takes fractions to tell.
pub struct Sizes {
    /// `max_width` and `max_height`, of the display's width and height.
    pub max_w: i32,
    pub max_h: i32,
    /// `border_width`, of the display's width, where it is set.
    pub border_px: i32,
    /// 1.3 times `font_size`, rounded up, where it is set.
    pub line_h: i32,
    /// Whether the flag's timeout is more than no time at all; and the file's.
    pub flag_timeout: bool,
    pub file_timeout: bool,
}

/// Every setting resolved, with sizes turned into pixels for the display the
/// overlay is about to appear on.
pub struct Options {
    pub verbose: bool,
    pub format: Format,
    pub outputs: bool,
    /// Seconds.
    pub timeout: Option<Literal>,
    /// The logical size of the display the grid will be laid out for.
    pub display: (i32, i32),
    pub settings: Settings,
}

pub struct Resolved {
    pub verbose: bool,
    pub format: Format,
    pub outputs: bool,
    pub timeout: Option<Seq<char>>,
    pub display: (i32, i32),
    pub look: Look,
    pub live: Live,
    pub fps: u32,
    pub scale: i32,
    pub output: Seq<char>,
}

impl View for Options {
    type V = Resolved;

    open spec fn view(&self) -> Resolved {
        Resolved {
            verbose: self.verbose,
            format: self.format,
            outputs: self.outputs,
            timeout: config::viewed(self.timeout),
            display: self.display,
            look: self.settings.theme@,
            live: self.settings.live,
            fps: self.settings.fps,
            scale: self.settings.scale,
            output: self.settings.output@,
        }
    }
}

/// The first that is there.
pub open spec fn either<T>(a: Option<T>, b: Option<T>) -> Option<T> {
    if a is Some {
        a
    } else {
        b
    }
}

/// The value, or the default.
pub open spec fn or<T>(a: Option<T>, default: T) -> T {
    match a {
        Some(v) => v,
        None => default,
    }
}

pub open spec fn positive(v: i32) -> i32 {
    if v < 1 {
        1
    } else {
        v
    }
}

/// What the flags, the file and the display come to.
pub open spec fn resolved(
    flags: Wants,
    file: Choices,
    width: i32,
    height: i32,
    scale: i32,
    name: Seq<char>,
    sizes: Sizes,
) -> Resolved {
    let base = Look::standard();
    let font_size = either(flags.font_size, file.font_size);
    Resolved {
        verbose: flags.verbose,
        format: or(either(flags.format, file.format), Format::Tsv),
        outputs: or(either(flags.outputs, file.outputs), true),
        timeout: if flags.timeout is Some {
            if sizes.flag_timeout {
                flags.timeout
            } else {
                None
            }
        } else if sizes.file_timeout {
            file.timeout
        } else {
            None
        },
        display: (width, height),
        look: Look {
            bg: or(file.background, base.bg),
            fg: or(file.foreground, base.fg),
            sel_bg: or(file.selection, base.sel_bg),
            sel_fg: or(file.selection_text, base.sel_fg),
            border: or(file.border, base.border),
            border_px: if file.border_width is Some {
                sizes.border_px
            } else {
                base.border_px
            },
            max_w: positive(sizes.max_w),
            max_h: positive(sizes.max_h),
            max_cols: positive(or(file.max_columns, base.max_cols)),
            max_rows: positive(or(file.max_rows, base.max_rows)),
            labels: or(either(flags.labels, file.labels), base.labels),
            font: or(either(flags.font, file.font), base.font),
            font_px: or(font_size, base.font_px),
            // Line height follows an explicit size; the default is already
            // tuned.
            line_h: if font_size is Some {
                sizes.line_h
            } else {
                base.line_h
            },
            ..base
        },
        live: or(either(flags.live, file.live), Live::All),
        fps: or(either(flags.fps, file.fps), 12),
        scale,
        output: name,
    }
}

fn at_least_one(v: i32) -> (r: i32)
    ensures
        r == positive(v),
{
    if v < 1 {
        1
    } else {
        v
    }
}

fn settle<T: Copy>(a: Option<T>, b: Option<T>, default: T) -> (r: T)
    ensures
        r == or(either(a, b), default),
{
    match a {
        Some(v) => v,
        None => match b {
            Some(v) => v,
            None => default,
        },
    }
}

fn settle_text(a: &Option<String>, b: &Option<String>, default: String) -> (r: String)
    ensures
        r@ == or(either(config::viewed(*a), config::viewed(*b)), default@),
{
    match a {
        Some(v) => v.clone(),
        None => match b {
            Some(v) => v.clone(),
            None => default,
        },
    }
}

fn either_number(a: &Option<Literal>, b: &Option<Literal>) -> (r: Option<Literal>)
    requires
        a matches Some(v) ==> v.wf(),
        b matches Some(v) ==> v.wf(),
    ensures
        config::viewed(r) == either(config::viewed(*a), config::viewed(*b)),
        r matches Some(v) ==> v.wf(),
{
    match a {
        Some(v) => Some(v.copy()),
        None => match b {
            Some(v) => Some(v.copy()),
            None => None,
        },
    }
}

/// Nine tenths of the display.
fn most() -> (r: Length)
    ensures
        r@ == Size::Ppt("90"@),
        r.wf(),
{
    proof {
        reveal_strlit("90");
        let s = "90"@;
        reveal_with_fuel(words::digit_run, 3);
        assert(s.drop_first()[0] == '0');
        assert(words::digit_run(s) == 2);
        assert(words::unsigned(s) =~= s);
        assert(words::is_literal(s));
    }
    Length::Ppt(Literal { text: "90".to_owned() })
}

fn length_or(a: &Option<Length>, default: Length) -> (r: Length)
    requires
        a matches Some(v) ==> v.wf(),
        default.wf(),
    ensures
        r@ == or(config::viewed(*a), default@),
        r.wf(),
{
    match a {
        Some(v) => v.copy(),
        None => default,
    }
}

impl Args {
    /// The lengths that were asked for. Percentages become pixels against the
    /// display the grid will appear on, which is what lets one config suit
    /// monitors of different sizes.
    pub fn lengths(&self, cfg: &Config) -> (r: Lengths)
        requires
            self.wf(),
            cfg.wf(),
        ensures
            r.max_width@ == or(cfg@.max_width, Size::Ppt("90"@)),
            r.max_height@ == or(cfg@.max_height, Size::Ppt("90"@)),
            config::viewed(r.border_width) == cfg@.border_width,
            config::viewed(r.font_size) == either(self@.font_size, cfg@.font_size),
            r.max_width.wf() && r.max_height.wf(),
            r.border_width matches Some(v) ==> v.wf(),
            r.font_size matches Some(v) ==> v.wf(),
    {
        Lengths {
            max_width: length_or(&cfg.max_width, most()),
            max_height: length_or(&cfg.max_height, most()),
            border_width: match &cfg.border_width {
                Some(v) => Some(v.copy()),
                None => None,
            },
            font_size: either_number(&self.font_size, &cfg.font_size),
        }
    }

    /// Resolve against the file and the display; `sizes` is what
    /// [`Args::lengths`] came to on it.
    pub fn resolve(&self, cfg: &Config, display: &Display, sizes: &Sizes) -> (r: Options)
        requires
            self.wf(),
            cfg.wf(),
        ensures
            r@ == resolved(
                self@,
                cfg@,
                display.width,
                display.height,
                display.scale,
                display.name@,
                *sizes,
            ),
            r.settings.theme.font_px.wf(),
            r.timeout matches Some(v) ==> v.wf(),
    {
        let base = Theme::default();
        let timeout = if self.timeout.is_some() {
            if sizes.flag_timeout {
                either_number(&self.timeout, &None)
            } else {
                None
            }
        } else if sizes.file_timeout {
            either_number(&cfg.timeout, &None)
        } else {
            None
        };
        let (font_px, line_h) = match either_number(&self.font_size, &cfg.font_size) {
            Some(v) => (v, sizes.line_h),
            None => (base.font_px, base.line_h),
        };
        let theme = Theme {
            bg: settle(cfg.background, None, base.bg),
            fg: settle(cfg.foreground, None, base.fg),
            sel_bg: settle(cfg.selection, None, base.sel_bg),
            sel_fg: settle(cfg.selection_text, None, base.sel_fg),
            border: settle(cfg.border, None, base.border),
            border_px: if cfg.border_width.is_some() {
                sizes.border_px
            } else {
                base.border_px
            },
            max_w: at_least_one(sizes.max_w),
            max_h: at_least_one(sizes.max_h),
            pad: base.pad,
            gap: base.gap,
            margin: base.margin,
            max_cols: at_least_one(settle(cfg.max_columns, None, base.max_cols)),
            max_rows: at_least_one(settle(cfg.max_rows, None, base.max_rows)),
            spacing: base.spacing,
            font: settle_text(&self.font, &cfg.font, base.font),
            font_px,
            line_h,
            labels: settle(self.labels, cfg.labels, base.labels),
        };
        Options {
            verbose: self.verbose,
            format: settle(self.format, cfg.format, Format::Tsv),
            outputs: settle(self.outputs, cfg.outputs, true),
            timeout,
            display: (display.width, display.height),
            settings: Settings {
                theme,
                live: settle(self.live, cfg.live, Live::All),
                fps: settle(self.fps, cfg.fps, 12),
                scale: display.scale,
                output: display.name.clone(),
            },
        }
    }
}

// --- what holds of every command line --------------------------------------
/// A flag beats the file, whatever the file says, and the file beats the
/// default: for each setting that both can make. A timeout that is no time at all
/// means none, wherever it comes from.
pub proof fn law_a_flag_beats_the_file(
    flags: Wants,
    file: Choices,
    width: i32,
    height: i32,
    scale: i32,
    name: Seq<char>,
    sizes: Sizes,
)
    ensures
        ({
            let r = resolved(flags, file, width, height, scale, name, sizes);
            &&& flags.format matches Some(v) ==> r.format == v
            &&& flags.format is None && file.format is Some ==> r.format == file.format->Some_0
            &&& flags.format is None && file.format is None ==> r.format == Format::Tsv
            &&& flags.outputs matches Some(v) ==> r.outputs == v
            &&& flags.outputs is None && file.outputs is Some ==> r.outputs == file.outputs->Some_0
            &&& flags.outputs is None && file.outputs is None ==> r.outputs == true
            &&& flags.labels matches Some(v) ==> r.look.labels == v
            &&& flags.labels is None && file.labels is Some ==> r.look.labels == file.labels->Some_0
            &&& flags.labels is None && file.labels is None ==> r.look.labels == true
            &&& flags.font matches Some(v) ==> r.look.font == v
            &&& flags.font is None && file.font is Some ==> r.look.font == file.font->Some_0
            &&& flags.font is None && file.font is None ==> r.look.font == "monospace"@
            &&& flags.font_size matches Some(v) ==> r.look.font_px == v
            &&& flags.font_size is None && file.font_size is Some ==> r.look.font_px == file.font_size->Some_0
            &&& flags.font_size is None && file.font_size is None ==> r.look.font_px == "13.3"@
            &&& flags.live matches Some(v) ==> r.live == v
            &&& flags.live is None && file.live is Some ==> r.live == file.live->Some_0
            &&& flags.live is None && file.live is None ==> r.live == Live::All
            &&& flags.fps matches Some(v) ==> r.fps == v
            &&& flags.fps is None && file.fps is Some ==> r.fps == file.fps->Some_0
            &&& flags.fps is None && file.fps is None ==> r.fps == 12
            &&& flags.timeout is Some && sizes.flag_timeout ==> r.timeout == flags.timeout
            &&& flags.timeout is Some && !sizes.flag_timeout ==> r.timeout is None
            &&& flags.timeout is None && sizes.file_timeout ==> r.timeout == file.timeout
            &&& flags.timeout is None && !sizes.file_timeout ==> r.timeout is None
        }),
{
}

/// A flag with a value sets the one setting it names and leaves every other as
/// it was.
pub proof fn law_a_flag_changes_nothing_else(a: Wants, b: Wants, flag: Seq<char>, v: Seq<char>)
    requires
        needs(flag) is Some,
        with_value(a, flag, v) == Ok::<Wants, Seq<char>>(b),
    ensures
        b.verbose == a.verbose,
        b.outputs == a.outputs,
        b.labels == a.labels,
        flag != "--format"@ ==> b.format == a.format,
        flag != "--config"@ ==> b.config == a.config,
        flag != "--live"@ ==> b.live == a.live,
        flag != "--fps"@ ==> b.fps == a.fps,
        flag != "--font"@ ==> b.font == a.font,
        flag != "--font-size"@ ==> b.font_size == a.font_size,
        flag != "--timeout"@ ==> b.timeout == a.timeout,
{
}

/// A later flag wins: what it asks for does not depend on what an earlier one of
/// the same name asked for.
pub proof fn law_a_later_flag_wins(
    a: Wants,
    b: Wants,
    flag: Seq<char>,
    earlier: Seq<char>,
    later: Seq<char>,
)
    requires
        needs(flag) is Some,
        with_value(a, flag, earlier) == Ok::<Wants, Seq<char>>(b),
    ensures
        with_value(b, flag, later) == with_value(a, flag, later),
{
}

/// Each setting that only the file can make has its own place in the look: the
/// file's value where it sets one, and else the documented default. A count of
/// columns or rows is at least one.
pub proof fn law_the_file_settles_the_look(
    flags: Wants,
    file: Choices,
    width: i32,
    height: i32,
    scale: i32,
    name: Seq<char>,
    sizes: Sizes,
)
    ensures
        ({
            let look = resolved(flags, file, width, height, scale, name, sizes).look;
            &&& file.background matches Some(v) ==> look.bg == v
            &&& file.background is None ==> look.bg == 0xff28_2828
            &&& file.foreground matches Some(v) ==> look.fg == v
            &&& file.foreground is None ==> look.fg == 0xffeb_dbb2
            &&& file.selection matches Some(v) ==> look.sel_bg == v
            &&& file.selection is None ==> look.sel_bg == 0xffd7_9921
            &&& file.selection_text matches Some(v) ==> look.sel_fg == v
            &&& file.selection_text is None ==> look.sel_fg == 0xff28_2828
            &&& file.border matches Some(v) ==> look.border == v
            &&& file.border is None ==> look.border == 0xffd7_9921
            &&& file.border_width is Some ==> look.border_px == sizes.border_px
            &&& file.border_width is None ==> look.border_px == 2
            &&& file.max_columns matches Some(v) ==> (v >= 1 ==> look.max_cols == v) && (v < 1
                ==> look.max_cols == 1)
            &&& file.max_columns is None ==> look.max_cols == 4
            &&& file.max_rows matches Some(v) ==> (v >= 1 ==> look.max_rows == v) && (v < 1
                ==> look.max_rows == 1)
            &&& file.max_rows is None ==> look.max_rows == 4
        }),
{
}

/// What is measured on the display is taken as it was measured, at least a pixel
/// each way; a label's height follows the font's size where that is set; and the
/// rest of the look is always the same.
pub proof fn law_measures_settle_the_look(
    flags: Wants,
    file: Choices,
    width: i32,
    height: i32,
    scale: i32,
    name: Seq<char>,
    sizes: Sizes,
)
    ensures
        ({
            let r = resolved(flags, file, width, height, scale, name, sizes);
            &&& sizes.max_w >= 1 ==> r.look.max_w == sizes.max_w
            &&& sizes.max_w < 1 ==> r.look.max_w == 1
            &&& sizes.max_h >= 1 ==> r.look.max_h == sizes.max_h
            &&& sizes.max_h < 1 ==> r.look.max_h == 1
            &&& flags.font_size is Some || file.font_size is Some ==> r.look.line_h == sizes.line_h
            &&& flags.font_size is None && file.font_size is None ==> r.look.line_h == 17
            &&& r.look.pad == 12 && r.look.gap == 15 && r.look.margin == 12 && r.look.spacing == 10
            &&& r.display == (width, height)
            &&& r.scale == scale
            &&& r.output == name
            &&& r.verbose == flags.verbose
        }),
{
}

/// A flag with a value sets the setting it names to what the value says, and
/// refuses a value that says nothing.
pub proof fn law_a_flag_sets_what_it_names(a: Wants, v: Seq<char>)
    ensures
        with_value(a, "--config"@, v) == Ok::<Wants, Seq<char>>(Wants { config: Some(v), ..a }),
        with_value(a, "--font"@, v) == Ok::<Wants, Seq<char>>(Wants { font: Some(v), ..a }),
        Format::named(words::trimmed(v)) matches Some(f) ==> with_value(a, "--format"@, v)
            == Ok::<Wants, Seq<char>>(Wants { format: Some(f), ..a }),
        Format::named(words::trimmed(v)) is None ==> with_value(a, "--format"@, v) is Err,
        Live::named(words::trimmed(v)) matches Some(l) ==> with_value(a, "--live"@, v)
            == Ok::<Wants, Seq<char>>(Wants { live: Some(l), ..a }),
        Live::named(words::trimmed(v)) is None ==> with_value(a, "--live"@, v) is Err,
        words::u32_value(v, 10) matches Some(n) ==> with_value(a, "--fps"@, v) == Ok::<
            Wants,
            Seq<char>,
        >(Wants { fps: Some(n), ..a }),
        words::u32_value(v, 10) is None ==> with_value(a, "--fps"@, v) == Err::<Wants, Seq<char>>(
            "bad --fps: "@ + v,
        ),
        words::is_literal(v) ==> with_value(a, "--font-size"@, v) == Ok::<Wants, Seq<char>>(
            Wants { font_size: Some(v), ..a },
        ),
        !words::is_literal(v) ==> with_value(a, "--font-size"@, v) == Err::<Wants, Seq<char>>(
            "bad --font-size: "@ + v,
        ),
        words::is_literal(v) ==> with_value(a, "--timeout"@, v) == Ok::<Wants, Seq<char>>(
            Wants { timeout: Some(v), ..a },
        ),
        !words::is_literal(v) ==> with_value(a, "--timeout"@, v) == Err::<Wants, Seq<char>>(
            "bad --timeout: "@ + v,
        ),
{
    lemma_flags_differ();
}

proof fn lemma_flags_differ()
    ensures
        "--config"@ != "--format"@ && "--live"@ != "--format"@ && "--fps"@ != "--format"@
            && "--font"@ != "--format"@ && "--font-size"@ != "--format"@ && "--timeout"@
            != "--format"@,
        "--live"@ != "--config"@ && "--fps"@ != "--config"@ && "--font"@ != "--config"@
            && "--font-size"@ != "--config"@ && "--timeout"@ != "--config"@,
        "--fps"@ != "--live"@ && "--font"@ != "--live"@ && "--font-size"@ != "--live"@
            && "--timeout"@ != "--live"@,
        "--font"@ != "--fps"@ && "--font-size"@ != "--fps"@ && "--timeout"@ != "--fps"@,
        "--font-size"@ != "--font"@ && "--timeout"@ != "--font"@,
        "--timeout"@ != "--font-size"@,
{
    reveal_strlit("--format");
    reveal_strlit("--config");
    reveal_strlit("--live");
    reveal_strlit("--fps");
    reveal_strlit("--font");
    reveal_strlit("--font-size");
    reveal_strlit("--timeout");
    assert("--format"@[2] == 'f' && "--config"@[2] == 'c' && "--live"@[2] == 'l' && "--fps"@[2]
        == 'f' && "--font"@[2] == 'f' && "--font-size"@[2] == 'f' && "--timeout"@[2] == 't');
    assert("--format"@.len() == 8 && "--fps"@.len() == 5 && "--font"@.len() == 6
        && "--font-size"@.len() == 11);
}

/// Both directions of each switch exist, and each sets its own.
pub proof fn law_a_switch_goes_both_ways(a: Wants)
    ensures
        switched(a, "--outputs"@) == Some(Wants { outputs: Some(true), ..a }),
        switched(a, "--no-outputs"@) == Some(Wants { outputs: Some(false), ..a }),
        switched(a, "--labels"@) == Some(Wants { labels: Some(true), ..a }),
        switched(a, "--no-labels"@) == Some(Wants { labels: Some(false), ..a }),
        switched(a, "--hide-labels"@) == Some(Wants { labels: Some(false), ..a }),
        switched(a, "--verbose"@) == Some(Wants { verbose: true, ..a }),
        switched(a, "-v"@) == Some(Wants { verbose: true, ..a }),
{
    lemma_switches_differ();
}

proof fn lemma_switches_differ()
    ensures
        "--no-outputs"@ != "--outputs"@,
        "--labels"@ != "--outputs"@ && "--labels"@ != "--no-outputs"@ && "--labels"@ != "-v"@
            && "--labels"@ != "--verbose"@,
        "--no-labels"@ != "--outputs"@ && "--no-labels"@ != "--no-outputs"@ && "--no-labels"@
            != "-v"@ && "--no-labels"@ != "--verbose"@ && "--no-labels"@ != "--labels"@,
        "--hide-labels"@ != "--outputs"@ && "--hide-labels"@ != "--no-outputs"@
            && "--hide-labels"@ != "-v"@ && "--hide-labels"@ != "--verbose"@ && "--hide-labels"@
            != "--labels"@,
        "--verbose"@ != "--outputs"@ && "--verbose"@ != "--no-outputs"@,
        "-v"@ != "--outputs"@ && "-v"@ != "--no-outputs"@,
{
    reveal_strlit("--outputs");
    reveal_strlit("--no-outputs");
    reveal_strlit("--labels");
    reveal_strlit("--no-labels");
    reveal_strlit("--hide-labels");
    reveal_strlit("--verbose");
    reveal_strlit("-v");
    assert("--outputs"@[2] == 'o' && "--no-outputs"@[2] == 'n' && "--labels"@[2] == 'l'
        && "--no-labels"@[2] == 'n' && "--hide-labels"@[2] == 'h' && "--verbose"@[2] == 'v');
    assert("--no-outputs"@.len() == 12 && "--no-labels"@.len() == 11 && "-v"@.len() == 2);
}

/// A command line is read from left to right: a flag and its value, then the
/// rest; a switch, then the rest; nothing at all asks for a run.
pub proof fn law_a_command_line_is_read_in_order(
    a: Wants,
    b: Wants,
    flag: Seq<char>,
    v: Seq<char>,
    rest: Seq<Seq<char>>,
)
    ensures
        asked(a, Seq::empty()) == Ok::<Asked, Seq<char>>(Asked::Run(a)),
        takes_value(flag) && with_value(a, flag, v) == Ok::<Wants, Seq<char>>(b) ==> asked(
            a,
            seq![flag, v] + rest,
        ) == asked(b, rest),
        takes_value(flag) && with_value(a, flag, v) is Err ==> asked(a, seq![flag, v] + rest)
            == Err::<Asked, Seq<char>>(with_value(a, flag, v)->Err_0),
        takes_value(flag) ==> asked(a, seq![flag]) is Err,
        !takes_value(flag) && flag != "-h"@ && flag != "--help"@ && switched(a, flag) == Some(b)
            ==> asked(a, seq![flag] + rest) == asked(b, rest),
        !takes_value(flag) && flag != "-h"@ && flag != "--help"@ && switched(a, flag) is None
            ==> asked(a, seq![flag] + rest) == Err::<Asked, Seq<char>>(
            "unknown argument: "@ + flag,
        ),
{
    let with = seq![flag, v] + rest;
    assert(with[0] == flag);
    assert(with.drop_first()[0] == v);
    assert(with.drop_first().drop_first() =~= rest);
    let without = seq![flag] + rest;
    assert(without[0] == flag);
    assert(without.drop_first() =~= rest);
    assert(seq![flag].drop_first() =~= Seq::empty());
    if needs(flag) is Some {
    }
}

/// The flags that take a value.
pub open spec fn takes_value(flag: Seq<char>) -> bool {
    flag == "--format"@ || flag == "--config"@ || flag == "--live"@ || flag == "--fps"@ || flag
        == "--font"@ || flag == "--font-size"@ || flag == "--timeout"@
}

/// Asking for help gets it, whatever follows.
pub proof fn law_help_is_given(a: Wants, rest: Seq<Seq<char>>)
    ensures
        asked(a, seq!["-h"@] + rest) == Ok::<Asked, Seq<char>>(Asked::Help),
        asked(a, seq!["--help"@] + rest) == Ok::<Asked, Seq<char>>(Asked::Help),
{
    reveal_strlit("-h");
    reveal_strlit("--help");
    reveal_strlit("--format");
    reveal_strlit("--config");
    reveal_strlit("--live");
    reveal_strlit("--fps");
    reveal_strlit("--font");
    reveal_strlit("--font-size");
    reveal_strlit("--timeout");
    assert("-h"@.len() == 2 && "--help"@.len() == 6);
    assert("--help"@[2] == 'h');
    assert("--format"@[2] == 'f' && "--config"@[2] == 'c' && "--live"@[2] == 'l' && "--fps"@[2]
        == 'f' && "--font"@[2] == 'f' && "--font-size"@[2] == 'f' && "--timeout"@[2] == 't');
    assert("--format"@.len() > 2 && "--config"@.len() > 2 && "--live"@.len() > 2 && "--fps"@.len()
        > 2 && "--font"@.len() > 2 && "--font-size"@.len() > 2 && "--timeout"@.len() > 2);
    assert((seq!["-h"@] + rest)[0] == "-h"@);
    assert((seq!["--help"@] + rest)[0] == "--help"@);
}

/// Nothing is wanted until it is asked for.
pub proof fn law_nothing_is_wanted_unasked()
    ensures
        ({
            let a = Wants::none();
            &&& !a.verbose
            &&& a.config is None && a.format is None && a.outputs is None && a.labels is None
            &&& a.font is None && a.font_size is None && a.live is None && a.fps is None
            &&& a.timeout is None
        }),
{
}

/// What the flags show is what they hold.
pub proof fn law_flags_show_what_they_hold(a: Args)
    ensures
        a@.verbose == a.verbose && a@.format == a.format && a@.outputs == a.outputs && a@.labels
            == a.labels && a@.live == a.live && a@.fps == a.fps,
        a@.config is Some == a.config is Some && (a.config matches Some(v) ==> a@.config == Some(
            v@,
        )),
        a@.font is Some == a.font is Some && (a.font matches Some(v) ==> a@.font == Some(v@)),
        a@.font_size is Some == a.font_size is Some && (a.font_size matches Some(v) ==> a@.font_size
            == Some(v.text@)),
        a@.timeout is Some == a.timeout is Some && (a.timeout matches Some(v) ==> a@.timeout
            == Some(v.text@)),
{
}

/// What the options show is what they hold.
pub proof fn law_options_show_what_they_hold(o: Options)
    ensures
        o@.verbose == o.verbose && o@.format == o.format && o@.outputs == o.outputs && o@.display
            == o.display,
        o@.look == o.settings.theme@ && o@.live == o.settings.live && o@.fps == o.settings.fps
            && o@.scale == o.settings.scale && o@.output == o.settings.output@,
        o@.timeout is Some == o.timeout is Some && (o.timeout matches Some(v) ==> o@.timeout
            == Some(v.text@)),
{
}

} // verus!
