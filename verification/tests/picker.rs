use wl_pick::app::{App, Ending, Report, Settings, Step, Wait, bounded_wait};
use wl_pick::cli::Options;
use wl_pick::capture::{
    FrameEvent, Live, Request, SessionEvent, Source, Tile, Transform, XRGB8888,
};
use wl_pick::overlay::{
    BTN_LEFT, Hover, KEY_DOWN, KEY_END, KEY_ENTER, KEY_ESC, KEY_HOME, KEY_KPENTER, KEY_L,
    KEY_LEFTSHIFT, KEY_PGDN, KEY_PGUP, KEY_Q, KEY_RIGHT, KEY_RIGHTSHIFT, KEY_TAB, KEY_UP,
    Placement, Redraw, Surface,
};
use wl_pick::shm::Painter;
use wl_pick::start::{Beginning, begin};
use wl_pick::sway::Display;
use wl_pick::target::{Format, Target};
use wl_pick::theme::{Layout, Rect, Theme};
use wl_pick::words::Literal;

const DISPLAY: (i32, i32) = (2000, 1000);

fn theme() -> Theme {
    Theme { max_w: 1000, max_h: 900, max_cols: 4, max_rows: 3, ..Theme::default() }
}

/// A picker over that many windows, and one display where asked for.
fn picker_with(windows: usize, display: bool, live: Live) -> App {
    let mut targets: Vec<Target> = (0..windows)
        .map(|i| Target::window(i as i64, format!("ft{i}"), "app".into(), format!("title {i}")))
        .collect();
    if display {
        targets.push(Target::output("DP-1".into()));
    }
    let theme = theme();
    assert!(Layout::fits(&theme, targets.len() as i32, DISPLAY));
    let layout = Layout::new(&theme, targets.len() as i32, DISPLAY);
    let settings = Settings { theme, live, fps: 12, scale: 2, output: "DP-1".into() };
    assert!(settings.can_draw(&layout));
    App::new(targets, settings, layout, true)
}

fn picker(windows: usize) -> App {
    picker_with(windows, false, Live::All)
}

/// A picker whose sessions are open and have said all they have to say.
fn ready_to_capture(windows: usize, display: bool, live: Live) -> App {
    let mut app = picker_with(windows, display, live);
    app.output_added();
    app.output_named(0, "DP-1".into());
    for i in 0..windows {
        app.toplevel_added();
        app.toplevel_named(i, format!("ft{i}"));
    }
    app.open_sessions();
    for i in 0..app.tiles.len() {
        app.session_event(i, SessionEvent::BufferSize(100, 50));
        app.session_event(i, SessionEvent::ShmFormat(7));
        app.session_event(i, SessionEvent::ShmFormat(XRGB8888));
        app.session_event(i, SessionEvent::Done);
    }
    app
}

// --- settings and endings --------------------------------------------------

#[test]
fn a_picker_starts_on_the_first_tile() {
    let app = picker(5);
    assert_eq!((app.sel, app.scroll), (0, 0));
    assert!(!app.finished() && app.picked().is_none());
    assert_eq!(app.step(), Step::Wait);
    assert_eq!((app.stats.ticks, app.stats.starved, app.stats.pool_bytes), (0, 0, 0));
}

#[test]
fn what_cannot_be_drawn_is_refused() {
    let theme = theme();
    let layout = Layout::new(&theme, 4, DISPLAY);
    let mut settings = Settings { theme, live: Live::All, fps: 12, scale: 0, output: "x".into() };
    assert!(!settings.can_draw(&layout), "no scale");
    settings.scale = 1;
    assert!(settings.can_draw(&layout));
    settings.theme.border_px = i32::MIN;
    assert!(!settings.can_draw(&layout), "no such border");
    settings.theme.border_px = 2;
    settings.scale = i32::MAX;
    assert!(!settings.can_draw(&layout), "no such picture");
}

#[test]
fn endings_say_why() {
    assert_eq!(Ending::Running.as_str(), "still running");
    assert_eq!(Ending::Picked.as_str(), "picked");
    assert_eq!(Ending::Cancelled.as_str(), "cancelled");
    assert_eq!(Ending::Closed.as_str(), "the compositor closed the overlay");
    assert_eq!(Ending::Unfocused.as_str(), "the keyboard went to another surface");
}

#[test]
fn losing_the_keyboard_for_good_ends_the_run() {
    let mut app = picker(2);
    app.keyboard_left();
    assert_eq!(app.step(), Step::Grace);
    app.keyboard_entered(&[]);
    assert_eq!(app.step(), Step::Wait, "sway gave it straight back");
    app.keyboard_left();
    app.keyboard_lost();
    assert_eq!(app.step(), Step::Done);
    assert_eq!(app.ending, Ending::Unfocused);
    assert!(matches!(app.report_pick(Format::Tsv), Report::Nothing));
    let mut app = picker(2);
    app.closed();
    assert_eq!((app.ending, app.configured), (Ending::Closed, false));
    app.configure();
    assert!(app.configured);
}

#[test]
fn every_wait_is_bounded() {
    assert_eq!(bounded_wait(true, false, 9, 5), Wait::Done);
    assert_eq!(bounded_wait(false, false, 9, 5), Wait::Again);
    assert_eq!(bounded_wait(false, true, 6, 5), Wait::GaveUp);
    assert_eq!(bounded_wait(false, true, 5, 5), Wait::Poll(0));
    assert_eq!(bounded_wait(false, true, 2, 5), Wait::Poll(3));
}

#[test]
fn a_pick_is_reported_and_nothing_else_is() {
    let mut app = picker(3);
    assert_eq!(app.report_pick(Format::Tsv).status(), 1);
    app.key(KEY_TAB);
    app.key(KEY_ENTER);
    assert_eq!(app.ending, Ending::Picked);
    match app.report_pick(Format::Tsv) {
        Report::Line(line) => assert_eq!(line, "window\t1\tft1\tapp\ttitle 1"),
        _ => panic!("should be a line"),
    }
    assert_eq!(app.report_pick(Format::Tsv).status(), 0);
    app.picked = Some(Target::window(7, String::new(), "x".into(), "y".into()));
    let report = app.report_pick(Format::Portal);
    assert_eq!(report.status(), 1);
    match report {
        Report::Unnamed(e) => assert_eq!(e, "wl-pick: \"y\" has no toplevel identifier"),
        _ => panic!("should not be nameable"),
    }
}

#[test]
fn a_description_lists_the_tiles_and_the_geometry() {
    let mut app = ready_to_capture(2, false, Live::All);
    app.start_captures(0);
    app.frame_event(0, FrameEvent::Ready);
    let lines = app.describe("Hack");
    assert_eq!(lines.len(), 3);
    assert_eq!(lines[0], "  [0] window\t0\tft0\tapp\ttitle 0");
    assert_eq!(lines[1], "  [1] window\t1\tft1\tapp\ttitle 1  (no thumbnail)");
    assert_eq!(
        lines[2],
        format!(
            "wl-pick: 2 tile(s), 1 captured; grid 2x1, surface {}x{} logical at scale 2, \
             0 MB of capture buffers, labels in \"Hack\"",
            app.layout.width, app.layout.height
        )
    );
    let lines = picker(30).describe("none");
    assert_eq!(lines.len(), 32);
    assert_eq!(lines[31], "wl-pick: 3 of 8 rows fit; the rest scroll");
}

#[test]
fn a_summary_counts_the_frames() {
    let mut app = ready_to_capture(2, false, Live::All);
    app.start_captures(0);
    app.frame_event(0, FrameEvent::Ready);
    app.tick(0, 0);
    app.key(KEY_ESC);
    assert_eq!(app.frames(), 1);
    assert_eq!(
        app.report("2.0", "0.5"),
        "wl-pick: cancelled, 1 frame(s) over 2.0s = 0.5/s, 1 tick(s), 0 starved; per tile: 1,0"
    );
    app.tiles[1].frames = u32::MAX;
    assert_eq!(app.frames(), 0, "a counter goes round");
}

#[test]
fn what_never_came_is_reported() {
    let mut app = ready_to_capture(2, false, Live::All);
    app.start_captures(0);
    assert!(!app.captures_settled());
    app.frame_event(0, FrameEvent::Ready);
    assert_eq!(app.report_unsettled(), vec!["wl-pick: no capture of \"title 1\" in time"]);
    app.session_event(1, SessionEvent::Stopped);
    assert!(app.captures_settled() && app.report_unsettled().is_empty());
}

// --- starting --------------------------------------------------------------

fn options(theme: Theme, outputs: bool) -> Options {
    Options {
        verbose: true,
        format: Format::Json,
        outputs,
        timeout: None,
        display: DISPLAY,
        settings: Settings { theme, live: Live::All, fps: 12, scale: 2, output: "DP-1".into() },
    }
}

fn display() -> Display {
    Display { name: "DP-1".into(), width: 2000, height: 1000, scale: 2, focused: true }
}

fn window(i: i64) -> Target {
    Target::window(i, format!("ft{i}"), "app".into(), format!("title {i}"))
}

#[test]
fn a_run_measures_its_grid_once() {
    match begin(options(theme(), true), vec![window(1), window(2)], &[display()]) {
        Beginning::Open(start) => {
            assert_eq!(start.targets.len(), 3);
            assert_eq!((start.layout.cols, start.layout.n), (2, 3));
            assert!(start.verbose && start.format == Format::Json);
            let job = start.labels.expect("labels are drawn");
            assert_eq!(job.texts, vec!["title 1 · app", "title 2 · app", "DP-1 · display"]);
            assert_eq!((job.font.as_str(), job.font_px.text.as_str()), ("monospace", "13.3"));
            let label = start.layout.label(0, 0).expect("visible");
            assert_eq!((job.scale, job.line_h, job.box_w), (2, 34, 2 * label.w));
        }
        _ => panic!("should open"),
    }
    let bare = Theme { labels: false, ..theme() };
    match begin(options(bare, false), vec![window(1)], &[display()]) {
        Beginning::Open(start) => assert!(start.labels.is_none() && start.targets.len() == 1),
        _ => panic!("should open"),
    }
}

#[test]
fn a_run_without_anything_to_pick_ends_like_a_cancel() {
    assert!(matches!(begin(options(theme(), false), vec![], &[display()]), Beginning::Nothing));
    assert!(matches!(begin(options(theme(), true), vec![], &[]), Beginning::Nothing));
}

#[test]
fn a_grid_that_cannot_be_shown_is_refused() {
    let refused = |theme: Theme| match begin(options(theme, true), vec![window(1)], &[display()]) {
        Beginning::Refused(e) => e,
        _ => panic!("should be refused"),
    };
    let wide = Theme { gap: i32::MAX, ..theme() };
    assert_eq!(refused(wide), "the grid is larger than any display");
    let thick = Theme { border_px: i32::MAX, ..theme() };
    assert_eq!(refused(thick), "the overlay cannot be drawn");
    // Margins that leave less than nothing of a row.
    let empty = Theme { margin: -300, ..theme() };
    assert_eq!(Layout::new(&empty, 2, DISPLAY).height, -110);
    assert_eq!(refused(empty), "the overlay cannot be drawn");
}

#[test]
fn negative_lengths_are_laid_out() {
    let open = |theme: Theme| match begin(options(theme, true), vec![window(1)], &[display()]) {
        Beginning::Open(start) => start,
        _ => panic!("should open"),
    };
    let font_px = Literal { text: "-5".to_string() };
    let start = open(Theme { line_h: -6, font_px, ..theme() });
    assert_eq!((start.layout.width, start.layout.height), (503, 306));
    assert_eq!((start.layout.tile_h, start.layout.line_h), (254, -6));
    let job = start.labels.expect("labels are drawn");
    assert_eq!((job.font_px.text.as_str(), job.line_h, job.box_w), ("-5", -12, 416));
    let start = open(Theme { gap: -1, ..theme() });
    assert_eq!((start.layout.width, start.layout.height), (511, 316));
    // Without labels their height does not matter.
    let start = open(Theme { line_h: -6, labels: false, ..theme() });
    assert!(start.labels.is_none());
}

#[test]
fn a_negative_label_is_painted_where_it_is() {
    let theme = Theme { line_h: -6, ..theme() };
    let targets: Vec<Target> = (0..2).map(window).collect();
    let layout = Layout::new(&theme, 2, DISPLAY);
    let settings =
        Settings { theme, live: Live::All, fps: 12, scale: 2, output: "DP-1".into() };
    assert!(settings.can_draw(&layout));
    let mut app = App::new(targets, settings, layout, true);
    app.show();
    let painting = app.paint().expect("a slot is free");
    assert_eq!(painting.elem, Some(Rect { x: 24, y: 24, w: 464, h: 564 }));
    assert_eq!(painting.labels[0].at, Rect { x: 48, y: 576, w: 416, h: -12 });
    assert_eq!(painting.labels[1].at, Rect { x: 542, y: 576, w: 416, h: -12 });
}

#[test]
fn a_click_needs_cells_to_look_among() {
    // Every row begins where the first does.
    let theme = Theme { line_h: -50, max_rows: 2000, ..theme() };
    let targets: Vec<Target> = (0..30).map(window).collect();
    let layout = Layout::new(&theme, 30, DISPLAY);
    assert_eq!((layout.height, layout.elem_h, layout.gap), (9, -15, 15));
    let settings =
        Settings { theme, live: Live::All, fps: 12, scale: 2, output: "DP-1".into() };
    assert!(settings.can_draw(&layout));
    let mut app = App::new(targets, settings, layout, true);
    assert!(app.can_point());
    app.pointer_entered(Hover { surface: Surface::Overlay, x: 20 * 256, y: 20 * 256 });
    assert!(!app.can_point());
    app.pointer_moved(20 * 256, 0);
    assert!(app.can_point(), "the margin has no cells");
    app.pointer_entered(Hover { surface: Surface::Tile(3), x: 20 * 256, y: 20 * 256 });
    assert!(app.can_point());
}

// --- capturing -------------------------------------------------------------

#[test]
fn live_settings_are_known_by_name() {
    assert_eq!(Live::parse(" all"), Ok(Live::All));
    assert_eq!(Live::parse("current"), Ok(Live::Current));
    assert_eq!(Live::parse("none"), Ok(Live::Nothing));
    assert_eq!(Live::parse("x"), Err("\"x\" is not all, current or none".to_string()));
}

#[test]
fn sessions_are_opened_from_what_is_known() {
    let mut app = picker_with(2, true, Live::All);
    app.toplevel_added();
    app.toplevel_added();
    app.toplevel_named(1, "ft1".into());
    app.toplevel_named(9, "nobody".into());
    app.output_added();
    app.output_named(0, "DP-1".into());
    let sources = app.open_sessions();
    assert_eq!(sources, vec![None, Some(Source::Toplevel(1)), Some(Source::Output(0))]);
    // What cannot be captured is not waited on.
    let settled: Vec<bool> = app.tiles.iter().map(|t| t.settled).collect();
    assert_eq!(settled, vec![true, false, false]);
    // A window without an identifier matches no toplevel that has not told its
    // own yet, and no display is captured where that is not on offer.
    let mut app = picker_with(1, true, Live::All);
    app.tiles[0].target.ft_id = String::new();
    app.output_sources = false;
    app.toplevel_added();
    app.output_added();
    app.output_named(0, "DP-1".into());
    assert_eq!(app.open_sessions(), vec![None, None]);
}

#[test]
fn capture_buffers_are_laid_out_page_by_page() {
    // 100 by 50 pixels are 20000 bytes: five pages.
    let mut app = ready_to_capture(2, true, Live::All);
    assert!(app.captures_fit());
    let all = app.start_captures(77);
    assert_eq!(all.total, 5 * 20480);
    assert_eq!(app.stats.pool_bytes, all.total);
    let offsets: Vec<Vec<usize>> = all.starts.iter().map(|s| s.offsets.clone()).collect();
    assert_eq!(offsets, vec![vec![0, 20480], vec![40960, 61440], vec![81920]]);
    for (i, s) in all.starts.iter().enumerate() {
        assert_eq!((s.tile, s.w, s.h, s.stride, s.format), (i, 100, 50, 400, XRGB8888));
        assert_eq!((s.first, s.capture), (0, Request::Into(0)));
        assert_eq!(app.tiles[i].asked, Some(77));
    }
    let once = ready_to_capture(2, true, Live::Nothing).start_captures(0);
    assert_eq!(once.total, 3 * 20480);
}

#[test]
fn a_session_that_says_too_little_is_not_waited_on() {
    let mut app = ready_to_capture(4, false, Live::All);
    app.tiles[0].session_done = false;
    app.tiles[1].size = (0, 50);
    app.tiles[2].formats.clear();
    app.session_event(3, SessionEvent::Stopped);
    let all = app.start_captures(0);
    assert!(all.starts.is_empty());
    assert_eq!(all.total, 2 * 20480, "room is kept for the one that stopped");
    assert!(app.captures_settled());
    // Any format will do if none of the common ones is there.
    let mut app = ready_to_capture(1, false, Live::All);
    app.tiles[0].formats = vec![42, 43];
    assert_eq!(app.start_captures(0).starts[0].format, 42);
    // A pool past 32 bits cannot be asked for.
    app.tiles[0].size = (40_000, 40_000);
    assert!(!app.captures_fit());
}

#[test]
fn two_buffers_alternate() {
    let mut app = ready_to_capture(1, false, Live::All);
    app.start_captures(0);
    app.show();
    let reply = app.frame_event(0, FrameEvent::Ready);
    assert!(reply.destroy && reply.attach.is_none() && reply.complaint.is_none());
    assert_eq!(app.tiles[0].showing, Some(0));
    app.sync_tiles();
    // The first is on screen, so the second is filled.
    assert_eq!(app.tick(100, 10), vec![(0, 1)]);
    assert_eq!(app.frame_event(0, FrameEvent::Ready).attach, Some(1));
    // Neither has been released: nothing to capture into.
    assert_eq!(app.tick(200, 10), vec![]);
    assert_eq!(app.stats.starved, 1);
    app.buffer_released(0, 0);
    assert_eq!(app.tick(300, 10), vec![(0, 0)]);
    // A release of nothing is no harm.
    app.buffer_released(0, 9);
    app.buffer_released(9, 0);
}

#[test]
fn a_frame_that_was_never_shown_lets_go_of_its_slot() {
    let mut app = ready_to_capture(1, false, Live::All);
    app.start_captures(0);
    app.frame_event(0, FrameEvent::Ready);
    assert_eq!(app.tick(100, 10), vec![(0, 1)]);
    app.frame_event(0, FrameEvent::Ready);
    let busy: Vec<bool> = app.tiles[0].slots.iter().map(|s| s.busy).collect();
    assert_eq!(busy, vec![false, true]);
}

#[test]
fn ticks_keep_their_distance() {
    let mut app = ready_to_capture(2, true, Live::All);
    app.start_captures(1000);
    for i in 0..3 {
        app.frame_event(i, FrameEvent::Ready);
    }
    assert_eq!(app.tick(1009, 10), vec![], "too soon");
    assert_eq!(app.tick(1010, 10), vec![(0, 1), (1, 1)], "displays are a single snapshot");
    assert_eq!(app.tick(2000, 10), vec![], "both are in flight");
    assert_eq!((app.stats.ticks, app.stats.starved), (3, 0));
    let mut app = ready_to_capture(2, false, Live::Current);
    app.start_captures(0);
    for i in 0..2 {
        app.frame_event(i, FrameEvent::Ready);
    }
    app.key(KEY_TAB);
    assert_eq!(app.tick(100, 10), vec![(1, 1)], "only the selection");
    let mut app = ready_to_capture(2, false, Live::Nothing);
    app.start_captures(0);
    app.frame_event(0, FrameEvent::Ready);
    app.buffer_released(0, 0);
    assert_eq!(app.tick(100, 10), vec![]);
    app.fps = 0;
    assert_eq!(app.rate(), 1);
    app.fps = 12;
    assert_eq!(app.rate(), 12);
}

#[test]
fn a_failed_capture_is_complained_about_once() {
    let mut app = ready_to_capture(1, false, Live::All);
    app.start_captures(0);
    let reply = app.frame_event(0, FrameEvent::Failed("Unknown".into()));
    assert!(reply.destroy && reply.attach.is_none());
    assert_eq!(
        reply.complaint,
        Some("wl-pick: capture failed for \"title 0\" (Unknown)".to_string())
    );
    assert!(app.tiles[0].settled && !app.tiles[0].ready && !app.tiles[0].slots[0].busy);
    // The next tick tries again; a tile that has a thumbnail keeps it.
    assert_eq!(app.tick(100, 10), vec![(0, 0)]);
    app.frame_event(0, FrameEvent::Ready);
    app.tick(200, 10);
    let reply = app.frame_event(0, FrameEvent::Failed("Unknown".into()));
    assert!(reply.complaint.is_none() && app.tiles[0].ready);
    let nobody = app.frame_event(9, FrameEvent::Ready);
    assert!(!nobody.destroy && nobody.attach.is_none() && nobody.complaint.is_none());
}

#[test]
fn turned_buffers_are_known() {
    let mut tile = Tile::new(Target::output("x".into()));
    assert!(!tile.rotated());
    assert_eq!(tile.bytes(), 0);
    tile.size = (3, 5);
    assert_eq!(tile.bytes(), 60);
    for (transform, sideways) in [
        (Transform::Normal, false),
        (Transform::Rotated90, true),
        (Transform::Rotated180, false),
        (Transform::Rotated270, true),
        (Transform::Flipped, false),
        (Transform::Flipped90, true),
        (Transform::Flipped180, false),
        (Transform::Flipped270, true),
    ] {
        tile.transform = transform;
        assert_eq!(tile.rotated(), sideways, "{transform:?}");
    }
}

// --- moving ----------------------------------------------------------------

#[test]
fn keys_move_the_selection() {
    let mut app = picker(7);
    assert_eq!(app.key(KEY_RIGHT), Redraw::Paint);
    assert_eq!(app.sel, 1);
    app.key(KEY_L);
    app.key(KEY_TAB);
    assert_eq!(app.sel, 3);
    app.key(KEY_LEFTSHIFT);
    app.key(KEY_TAB);
    assert_eq!(app.sel, 2, "Shift+Tab goes back");
    app.key_released(KEY_LEFTSHIFT);
    app.key(KEY_DOWN);
    assert_eq!(app.sel, 5, "three columns");
    app.key(KEY_UP);
    assert_eq!(app.sel, 2);
    app.key(KEY_END);
    assert_eq!(app.sel, 6);
    app.key(KEY_RIGHT);
    assert_eq!(app.sel, 0, "round from the last to the first");
    app.move_sel(-1);
    assert_eq!(app.sel, 6, "and back");
    app.key(KEY_HOME);
    assert_eq!(app.sel, 0);
    assert_eq!(app.key(999), Redraw::Nothing);
    assert_eq!(app.key(KEY_Q), Redraw::Nothing);
    assert_eq!(app.ending, Ending::Cancelled);
}

#[test]
fn the_selection_is_never_off_view() {
    let mut app = picker(30);
    assert_eq!(app.key(KEY_PGDN), Redraw::Scroll);
    assert_eq!((app.sel, app.scroll), (12, 1));
    assert_eq!(app.key(KEY_END), Redraw::Scroll);
    assert_eq!((app.sel, app.scroll), (29, 5));
    assert_eq!(app.key(KEY_PGUP), Redraw::Scroll);
    assert_eq!((app.sel, app.scroll), (17, 4));
    for code in 0..200 {
        app.key(code);
        assert!(app.layout.elem(app.sel as i32, app.scroll).is_some(), "after {code}");
    }
}

#[test]
fn shift_may_be_held_when_the_overlay_opens() {
    let mut app = picker(3);
    app.keyboard_entered(&[30, KEY_RIGHTSHIFT]);
    app.key(KEY_TAB);
    assert_eq!(app.sel, 2);
    app.keyboard_entered(&[30]);
    app.key(KEY_TAB);
    assert_eq!(app.sel, 0);
}

#[test]
fn nothing_to_pick_is_no_harm() {
    let mut app = picker(0);
    for code in [KEY_TAB, KEY_DOWN, KEY_PGDN] {
        assert_eq!(app.key(code), Redraw::Nothing);
    }
    assert_eq!(app.key(KEY_END), Redraw::Paint);
    app.key(KEY_KPENTER);
    assert_eq!(app.ending, Ending::Picked);
    assert!(app.picked().is_none());
}

#[test]
fn a_wheel_moves_once_a_notch() {
    let mut app = picker(30);
    let moves = app.scroll_by(10 * 256);
    assert_eq!((moves.step, moves.count), (1, 1));
    let moves = app.scroll_by(-1);
    assert_eq!((moves.step, moves.count), (-1, 1));
}

#[test]
fn a_flick_is_summed() {
    let mut app = picker(30);
    app.axis_source(true);
    assert_eq!(app.scroll_by(14 * 256).count, 0);
    app.axis_source(true);
    assert_eq!(app.scroll_by(2 * 256).count, 1, "the same device goes on");
    assert_eq!(app.scroll_acc, 256);
    let back = app.scroll_by(-31 * 256);
    assert_eq!((back.step, back.count), (-1, 2), "turning round starts again");
    assert_eq!(app.scroll_acc, -256);
    app.axis_stop();
    assert_eq!(app.scroll_by(-14 * 256).count, 0);
    app.axis_source(false);
    app.axis_source(true);
    assert_eq!(app.scroll_by(-14 * 256).count, 0, "another device starts again");
    assert_eq!(app.scroll_by(i32::MIN).count, 559_241);
}

#[test]
fn a_scroll_moves_by_its_count() {
    let mut app = picker(7);
    app.axis_source(true);
    app.key(KEY_END);
    let moves = app.scroll_by(-10 * 15 * 256);
    assert_eq!((moves.step, moves.count), (-1, 10));
    for _ in 0..moves.count {
        app.move_sel(moves.step);
    }
    assert_eq!(app.sel, 3, "ten back from the last of seven, round the first");
    assert!(app.layout.elem(app.sel as i32, app.scroll).is_some());
}

#[test]
fn a_run_without_a_pick_reports_nothing() {
    let endings: [fn(&mut App); 4] = [
        |app| drop(app.key(KEY_ESC)),
        |app| drop(app.key(KEY_Q)),
        |app| app.closed(),
        |app| app.keyboard_lost(),
    ];
    for end in endings {
        let mut app = picker(7);
        app.key(KEY_DOWN);
        app.pointer_entered(over(&app, 4));
        app.click(true);
        end(&mut app);
        assert!(app.finished() && app.picked().is_none());
        let report = app.report_pick(Format::Tsv);
        assert!(matches!(report, Report::Nothing));
        assert_eq!(report.status(), 1);
    }
}

// --- the pointer -----------------------------------------------------------

fn over(app: &App, i: i32) -> Hover {
    let e = app.layout.elem(i, app.scroll).expect("visible");
    Hover { surface: Surface::Overlay, x: (e.x + 1) * 256 + 200, y: (e.y + 1) * 256 }
}

#[test]
fn a_click_picks_the_tile_under_it() {
    assert_eq!(BTN_LEFT, 272);
    let mut app = picker(7);
    app.pointer_entered(over(&app, 4));
    app.click(true);
    assert!(!app.finished());
    app.click(false);
    assert_eq!(app.ending, Ending::Picked);
    assert_eq!(app.picked().map(|t| t.id.as_str()), Some("4"));
    assert_eq!(app.sel, 0, "hovering does not move the selection");
}

#[test]
fn a_click_anywhere_else_does_nothing() {
    let mut app = picker(7);
    let (here, there) = (over(&app, 4), over(&app, 5));
    app.pointer_entered(here);
    app.click(true);
    app.pointer_moved(there.x, there.y);
    app.click(false);
    assert!(!app.finished(), "released elsewhere");
    app.pointer_moved(0, 0);
    app.click(true);
    app.pointer_moved(here.x, here.y);
    app.click(false);
    assert!(!app.finished(), "pressed in the margin");
    app.click(true);
    app.pointer_left();
    app.click(false);
    assert!(!app.finished(), "left in between");
    app.pointer_moved(here.x, here.y);
    app.click(true);
    app.click(false);
    assert!(!app.finished(), "not over the overlay");
    app.pointer_entered(Hover { surface: Surface::Other, ..here });
    app.click(true);
    app.click(false);
    assert!(!app.finished(), "over something else");
    app.pointer_entered(Hover { surface: Surface::Tile(2), x: 0, y: 0 });
    app.click(true);
    app.click(false);
    assert!(!app.finished(), "that tile has no surface");
    app.tiles[2].surface = true;
    app.click(true);
    app.click(false);
    assert_eq!(app.picked().map(|t| t.id.as_str()), Some("2"));
}

// --- showing ---------------------------------------------------------------

#[test]
fn the_overlay_maps_on_its_display() {
    let mut app = picker(4);
    app.output_added();
    app.output_added();
    app.output_named(1, "DP-1".into());
    assert!(!app.arm_frame_callback(), "nothing to present yet");
    let s = app.show();
    assert_eq!(s.output, Some(1));
    assert_eq!((s.width as i32, s.height as i32), (app.layout.width, app.layout.height));
    assert_eq!((s.pixel_width, s.pixel_height), (2 * app.layout.width, 2 * app.layout.height));
    assert_eq!((s.scale, s.stride), (2, 8 * app.layout.width));
    assert_eq!(s.slot_len, (s.stride * s.pixel_height) as usize);
    assert_eq!(s.len, 2 * s.slot_len);
    assert!(app.arm_frame_callback());
    app.live = Live::Nothing;
    assert!(!app.arm_frame_callback());
    let mut app = picker(4);
    assert_eq!(app.show().output, None);
}

#[test]
fn tiles_go_where_the_viewport_says() {
    let mut app = ready_to_capture(30, false, Live::All);
    app.start_captures(0);
    for i in 0..29 {
        app.frame_event(i, FrameEvent::Ready);
    }
    app.frame_event(1, FrameEvent::Transform(Transform::Rotated90));
    assert!(app.sync_tiles().is_none(), "nothing is mapped yet");
    app.show();
    let all = app.sync_tiles().expect("mapped");
    assert_eq!(all.len(), 30);
    let boxed = app.layout.tile(0, 0).expect("visible");
    match all[0] {
        Placement::Show(s) => {
            assert!(s.fresh);
            assert_eq!((s.slot, s.w, s.h), (0, 100, 50));
            assert_eq!((s.at.w, s.at.h), (boxed.w, boxed.w / 2));
            assert_eq!(s.at.y, boxed.y + (boxed.h - s.at.h) / 2);
        }
        _ => panic!("should be shown"),
    }
    match all[1] {
        Placement::Show(s) => {
            assert_eq!((s.w, s.h), (100, 50));
            assert_eq!((s.at.w, s.at.h), (boxed.h / 2, boxed.h), "turned on its side");
        }
        _ => panic!("should be shown"),
    }
    assert!(matches!(all[12], Placement::Leave), "below the fold, and never shown");
    // One row down: the first row is hidden, the next comes up, the rest stay.
    app.select(12);
    let all = app.sync_tiles().expect("mapped");
    assert!(matches!(all[0], Placement::Hide));
    assert!(matches!(all[12], Placement::Show(s) if s.fresh));
    assert!(matches!(all[4], Placement::Show(s) if !s.fresh));
    app.select(29);
    let all = app.sync_tiles().expect("mapped");
    assert!(matches!(all[29], Placement::Leave), "never captured");
}

#[test]
fn a_repaint_waits_for_a_free_buffer() {
    let mut app = picker(4);
    assert!(app.paint().is_none(), "nothing is mapped yet");
    app.show();
    assert_eq!(app.paint().expect("free").slot, 0);
    assert_eq!(app.paint().expect("free").slot, 1);
    assert!(app.paint().is_none() && app.repaint_due);
    assert!(app.chrome_released(1), "the late repaint is due");
    assert_eq!(app.paint().expect("free").slot, 1);
    assert!(!app.chrome_released(0) && !app.chrome_released(7));
}

#[test]
fn a_painting_holds_the_whole_chrome() {
    let mut app = picker(30);
    app.show();
    app.key(KEY_RIGHT);
    let p = app.paint().expect("free");
    let elem = app.layout.elem(1, 0).expect("visible").scaled(2);
    assert_eq!(p.elem, Some(elem));
    assert_eq!(p.labels.len(), 12, "three rows of four are on screen");
    assert_eq!(p.labels[5].tile, 5);
    assert_eq!(p.labels[5].at, app.layout.label(5, 0).expect("visible").scaled(2));
    assert_eq!(p.labels[1].colour, app.theme.sel_fg);
    assert_eq!(p.labels[2].colour, app.theme.fg);
    assert_eq!(p.border_px, 4);
    let (track, thumb) = p.bar.expect("scrollable");
    assert_eq!((track.w, thumb.y), (8, track.y));
    assert!(picker(4).paint().is_none());
}

#[test]
fn paintings_cover_every_pixel() {
    let mut app = picker(30);
    let s = app.show();
    let painting = app.paint().expect("free");
    let (w, h) = (s.pixel_width, s.pixel_height);
    let mut px = vec![0u8; s.slot_len];
    let mut p = Painter::new(&mut px, w, h);
    painting.paint_under(&mut p);
    painting.paint_over(&mut p);
    let at = |x: i32, y: i32| {
        let o = ((y * w + x) * 4) as usize;
        u32::from_le_bytes([px[o], px[o + 1], px[o + 2], px[o + 3]])
    };
    let elem = painting.elem.expect("selected");
    let (track, thumb) = painting.bar.expect("scrollable");
    assert_eq!(at(0, 0), painting.border);
    assert_eq!(at(w - 1, h - 4), painting.border);
    assert_eq!(at(4, 4), painting.bg, "inside the border");
    assert_eq!(at(elem.x, elem.y), painting.sel_bg);
    assert_eq!(at(elem.x - 1, elem.y), painting.bg);
    assert_eq!(at(thumb.x, thumb.y + thumb.h - 1), painting.border);
    assert_eq!(at(track.x, track.y + track.h - 1), painting.bg);
}
