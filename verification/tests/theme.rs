use wl_pick::theme::{Layout, Rect, Theme, fit_centred};

/// A display large enough that the caps, not the screen, decide everything.
const ROOMY: (i32, i32) = (10_000, 10_000);

/// The caps and the box are what the config sets; a test theme states them
/// outright rather than relying on placeholders.
fn theme(max_w: i32, max_h: i32, cols: i32, rows: i32) -> Theme {
    Theme {
        max_w,
        max_h,
        max_cols: cols,
        max_rows: rows,
        ..Theme::default()
    }
}

#[test]
fn a_thumbnail_is_the_box_divided_by_the_caps() {
    let t = theme(1000, 900, 4, 3);
    let l = Layout::new(&t, 12, ROOMY);
    let tile = l.tile(0, 0).expect("visible");
    // Four columns of (tile + padding) plus three gaps plus two margins fill
    // the box, give or take integer division.
    let used = 4 * (tile.w + 2 * t.pad) + 3 * t.gap + 2 * t.margin;
    assert!((1000 - used).abs() <= 4, "width {used} should fill 1000");
    let label_row = t.spacing + t.line_h;
    let used = 3 * (tile.h + label_row + 2 * t.pad) + 2 * t.gap + 2 * t.margin;
    assert!((900 - used).abs() <= 4, "height {used} should fill 900");
}

#[test]
fn one_window_gets_the_same_thumbnail_as_thirty() {
    let t = theme(1000, 900, 4, 3);
    let one = Layout::new(&t, 1, ROOMY);
    let many = Layout::new(&t, 30, ROOMY);
    assert_eq!(
        one.tile(0, 0).expect("visible").w,
        many.tile(0, 0).expect("visible").w,
        "thumbnail size must not depend on how many windows are open"
    );
    // The overlay hugs what is there: one tile is a small window.
    assert_eq!((one.cols, one.rows), (1, 1));
    assert!(
        one.width < many.width && one.height < many.height,
        "{one:?}"
    );
    assert!(!one.scrollable() && many.scrollable());
}

#[test]
fn grids_stay_balanced_and_within_the_caps() {
    let t = theme(1000, 900, 4, 3);
    // (n, cols, rows): ceil(sqrt(n)) columns, capped at four.
    for (n, cols, rows) in [
        (1, 1, 1),
        (2, 2, 1),
        (4, 2, 2),
        (6, 3, 2),
        (12, 4, 3),
        (30, 4, 8),
    ] {
        let l = Layout::new(&t, n, ROOMY);
        assert_eq!((l.cols, l.rows), (cols, rows), "n = {n}");
        assert!(l.visible_rows <= t.max_rows, "n = {n}");
    }
}

#[test]
fn elements_stay_inside_the_window() {
    let t = theme(1000, 900, 4, 3);
    for n in 1..=12 {
        let l = Layout::new(&t, n, ROOMY);
        for i in 0..n {
            let e = l.elem(i, 0).expect("visible");
            assert!(e.x >= 0 && e.x + e.w <= l.width, "n = {n}, i = {i}");
            assert!(e.y >= 0 && e.y + e.h <= l.height, "n = {n}, i = {i}");
        }
    }
}

#[test]
fn labels_take_their_room_from_the_thumbnail() {
    let mut t = theme(1000, 900, 4, 3);
    let with = Layout::new(&t, 12, ROOMY);
    t.labels = false;
    let without = Layout::new(&t, 12, ROOMY);
    // The box is fixed, so dropping labels makes thumbnails taller rather
    // than the window shorter.
    assert!(
        without.tile(0, 0).expect("visible").h > with.tile(0, 0).expect("visible").h,
        "thumbnails should grow into the freed row"
    );
    assert!(with.label(0, 0).is_some() && without.label(0, 0).is_none());

    let t = theme(1000, 900, 4, 3);
    let l = Layout::new(&t, 4, ROOMY);
    for i in 0..4 {
        let (tile, label, elem) = (
            l.tile(i, 0).expect("visible"),
            l.label(i, 0).unwrap(),
            l.elem(i, 0).expect("visible"),
        );
        assert_eq!(label.y, tile.y + tile.h + t.spacing);
        assert_eq!(label.w, tile.w);
        assert!(label.y + label.h + t.pad <= elem.y + elem.h);
    }
}

#[test]
fn the_box_never_exceeds_the_display() {
    // A config asking for more than the screen has, on a small screen.
    let t = theme(4000, 3000, 4, 3);
    let l = Layout::new(&t, 30, (640, 480));
    assert!(l.width <= 640 && l.height <= 480, "{l:?}");
    assert!(l.tile(0, 0).expect("visible").w >= 1);
    assert!(l.scrollable());
}

#[test]
fn hit_testing_is_the_inverse_of_the_layout() {
    let t = Theme::default();
    // 7 tiles over 3 columns: the last row holds one, so two cells are empty.
    let l = Layout::new(&t, 7, ROOMY);
    for i in 0..7 {
        let e = l.elem(i, 0).expect("visible");
        for (x, y, what) in [
            (e.x, e.y, "top left"),
            (e.x + e.w / 2, e.y + e.h / 2, "centre"),
            (e.x + e.w - 1, e.y + e.h - 1, "bottom right"),
        ] {
            assert_eq!(l.hit(x, y, 0), Some(i as usize), "{what} of element {i}");
        }
    }
    // The window margin, the gap between elements, and the empty cells of
    // the last row all belong to no tile.
    assert_eq!(l.hit(0, 0, 0), None, "margin");
    let first = l.elem(0, 0).expect("visible");
    assert_eq!(
        l.hit(first.x + first.w + 1, first.y, 0),
        None,
        "gap between columns"
    );
    assert_eq!(
        l.hit(first.x, first.y + first.h + 1, 0),
        None,
        "gap between rows"
    );
    // Row 2, column 2 is past the seventh tile: take its column from the top
    // row and its row from the first column.
    let col2 = l.elem(2, 0).expect("visible");
    let row2 = l.elem(6, 0).expect("visible");
    assert_eq!(l.hit(col2.x + 4, row2.y + 4, 0), None, "empty cell");
    assert_eq!(l.hit(-5, -5, 0), None, "outside");
}

#[test]
fn rows_beyond_the_display_scroll_instead_of_shrinking() {
    let t = theme(1000, 900, 4, 3);
    // Thirty tiles need more rows than the cap allows, so they scroll.
    let l = Layout::new(&t, 30, ROOMY);
    assert!(l.scrollable(), "{l:?} should scroll");
    assert!(l.visible_rows < l.rows);
    // The viewport shows a window of rows, and nothing outside it.
    let per_screen = (l.visible_rows * l.cols) as usize;
    assert!(l.elem(0, 0).is_some());
    assert!(
        l.elem(per_screen as i32, 0).is_none(),
        "first row below the fold"
    );
    assert!(
        l.elem(per_screen as i32, 1).is_some(),
        "and visible once scrolled"
    );
}

#[test]
fn max_rows_keeps_the_grid_compact() {
    let mut t = theme(1000, 900, 4, 3);
    let full = Layout::new(&t, 30, ROOMY);
    t.max_rows = 2;
    let capped = Layout::new(&t, 30, ROOMY);
    assert!(
        capped.visible_rows == 2 && full.visible_rows > 2,
        "{capped:?}"
    );
    assert!(capped.height < full.height, "a shorter overlay");
    assert!(capped.scrollable());
    // The cap cannot invent rows: four tiles make a 2x2 grid, and a cap of
    // five leaves it alone.
    t.max_rows = 5;
    let few = Layout::new(&t, 4, ROOMY);
    assert_eq!((few.cols, few.rows, few.visible_rows), (2, 2, 2), "{few:?}");
    assert!(!few.scrollable());
}

#[test]
fn revealing_moves_the_viewport_as_little_as_possible() {
    let t = theme(1000, 900, 4, 3);
    let l = Layout::new(&t, 30, ROOMY);
    let last_visible = (l.visible_rows * l.cols - 1) as usize;
    assert_eq!(l.reveal_tile(0, 0), 0, "already on screen");
    assert_eq!(l.reveal_tile(last_visible, 0), 0, "still on screen");
    // One row further down scrolls by exactly one row.
    assert_eq!(l.reveal_tile(last_visible + 1, 0), 1);
    // Jumping to the end goes as far as it can, and no further.
    assert_eq!(l.reveal_tile(29, 0), l.max_scroll());
    // Coming back up scrolls the other way.
    assert_eq!(l.reveal_tile(0, l.max_scroll()), 0);
}

#[test]
fn hit_testing_follows_the_scroll() {
    let t = theme(1000, 900, 4, 3);
    let l = Layout::new(&t, 30, ROOMY);
    let first = l.elem(0, 0).expect("visible");
    let probe = (first.x + first.w / 2, first.y + first.h / 2);
    assert_eq!(l.hit(probe.0, probe.1, 0), Some(0));
    // The same pixel is a different tile once the grid has scrolled.
    assert_eq!(l.hit(probe.0, probe.1, 1), Some(l.cols as usize));
}

#[test]
fn a_scrollbar_appears_only_when_there_is_more_to_see() {
    let t = theme(1000, 900, 4, 3);
    assert!(Layout::new(&t, 4, ROOMY).scrollbar(0, 4).is_none());
    let l = Layout::new(&t, 30, ROOMY);
    let (track, top) = l.scrollbar(0, 4).expect("scrollable");
    assert_eq!(top.y, track.y, "thumb starts at the top");
    assert!(top.h < track.h, "thumb is shorter than its track");
    let (_, bottom) = l.scrollbar(l.max_scroll(), 4).expect("scrollable");
    assert_eq!(
        bottom.y + bottom.h,
        track.y + track.h,
        "and ends at the bottom"
    );
}

#[test]
fn fit_preserves_aspect_and_centres() {
    let box_ = Rect {
        x: 10,
        y: 20,
        w: 220,
        h: 123,
    };
    // A portrait window letterboxes: height-bound, centred horizontally.
    let r = fit_centred(1000, 2000, box_);
    assert_eq!((r.w, r.h), (61, 123));
    assert_eq!(r.x, 10 + (220 - 61) / 2);
    assert_eq!(r.y, 20);
    // A wide window is width-bound.
    let r = fit_centred(4000, 1000, box_);
    assert_eq!((r.w, r.h), (220, 55));
    assert_eq!(r.y, 20 + (123 - 55) / 2);
}

#[test]
fn a_rectangle_scales_to_pixels() {
    let r = Rect { x: 3, y: 4, w: 10, h: 20 }.scaled(2);
    assert_eq!((r.x, r.y, r.w, r.h), (6, 8, 20, 40));
}

#[test]
fn nothing_to_fit_takes_the_whole_box() {
    let box_ = Rect { x: 1, y: 2, w: 30, h: 40 };
    assert_eq!(fit_centred(0, 100, box_), box_);
    assert_eq!(fit_centred(100, -1, box_), box_);
    // A sliver is at least a pixel wide.
    let r = fit_centred(1, 10_000, box_);
    assert_eq!((r.w, r.h), (1, 40));
}

#[test]
fn the_default_grid_has_exact_measures() {
    // Four columns of a 1152 by 1296 box: (1152 - 24 + 15) / 4 - 39 = 246 wide,
    // and (1296 - 24 + 15) / 4 - 24 - 27 - 15 = 255 high.
    let l = Layout::new(&Theme::default(), 6, ROOMY);
    assert_eq!((l.cols, l.rows, l.visible_rows), (3, 2, 2));
    let tile = l.tile(0, 0).expect("visible");
    assert_eq!((tile.x, tile.y, tile.w, tile.h), (24, 24, 246, 255));
    assert_eq!((l.elem_w, l.elem_h), (270, 306));
    assert_eq!((l.width, l.height), (864, 651));
    let label = l.label(4, 0).expect("visible");
    assert_eq!((label.x, label.y, label.w, label.h), (309, 610, 246, 17));
}

#[test]
fn a_row_step_keeps_its_column_and_stops_at_the_edges() {
    // Seven tiles over three columns.
    let l = Layout::new(&Theme::default(), 7, ROOMY);
    assert_eq!(l.step_row(1, 1), 4);
    assert_eq!(l.step_row(4, -1), 1);
    assert_eq!(l.step_row(1, -1), 1, "already in the first row");
    assert_eq!(l.step_row(4, 1), 6, "the last row has only one tile");
    assert_eq!(l.step_row(0, 100), 6);
    assert_eq!(l.step_row(6, -100), 0);
}

#[test]
fn a_grid_that_no_coordinate_can_measure_does_not_fit() {
    let mut t = theme(1000, 900, 4, 3);
    assert!(Layout::fits(&t, 30, ROOMY));
    t.gap = i32::MAX;
    assert!(!Layout::fits(&t, 30, ROOMY));
    assert!(Layout::fits(&t, 1, ROOMY), "no gap beside a single element");
    let tall = Theme { line_h: i32::MIN, ..theme(1000, 900, 4, 3) };
    assert!(!Layout::fits(&tall, 1, ROOMY), "no such thumbnail");
    let short = Theme { line_h: i32::MIN, labels: false, ..theme(1000, 900, 4, 3) };
    assert!(Layout::fits(&short, 1, ROOMY), "a label that is not drawn has no height");
}

#[test]
fn a_negative_label_gives_its_thumbnail_room() {
    let t = Theme { line_h: -6, ..theme(1000, 900, 4, 3) };
    assert!(Layout::fits(&t, 12, ROOMY));
    let l = Layout::new(&t, 12, ROOMY);
    assert_eq!((l.width, l.height), (997, 900));
    assert_eq!((l.elem_w, l.elem_h, l.tile_h, l.line_h), (232, 282, 254, -6));
    assert_eq!(l.tile(0, 0), Some(Rect { x: 24, y: 24, w: 208, h: 254 }));
    assert_eq!(l.label(0, 0), Some(Rect { x: 24, y: 288, w: 208, h: -6 }));
    assert_eq!(l.hit(12, 700, 0), Some(8));
    // Far below zero, and the elements turn over: the thumb goes up.
    let t = Theme { line_h: -60, ..theme(1000, 1, 4, 3) };
    assert!(Layout::fits(&t, 30, ROOMY));
    let l = Layout::new(&t, 30, ROOMY);
    assert_eq!((l.width, l.height, l.elem_h, l.tile_h), (997, 3, -17, 9));
    let (track, thumb) = l.scrollbar(l.max_scroll(), 4).expect("scrollable");
    assert_eq!(track, Rect { x: 989, y: 12, w: 4, h: -21 });
    assert_eq!(thumb, Rect { x: 989, y: -13, w: 4, h: 4 });
}

#[test]
fn a_negative_gap_lets_elements_overlap() {
    let t = Theme { gap: -300, ..theme(1000, 900, 4, 3) };
    assert!(Layout::fits(&t, 30, ROOMY));
    let l = Layout::new(&t, 30, ROOMY);
    assert_eq!((l.width, l.height, l.elem_w, l.elem_h), (1000, 900, 469, 492));
    assert_eq!(l.elem(1, 0), Some(Rect { x: 181, y: 12, w: 469, h: 492 }));
    // Of the elements that a point is in, the last to begin before it.
    assert_eq!(l.hit(500, 200, 0), Some(2));
    let (track, thumb) = l.scrollbar(l.max_scroll(), 4).expect("scrollable");
    assert_eq!(track, Rect { x: 992, y: 12, w: 4, h: 876 });
    assert_eq!(thumb, Rect { x: 992, y: 560, w: 4, h: 328 });
    // A gap larger than an element counts the columns backwards.
    let t = Theme { gap: -1000, ..theme(1000, 900, 4, 3) };
    let l = Layout::new(&t, 12, ROOMY);
    assert_eq!((l.elem_w, l.elem_h), (994, 959));
    assert!(l.pitched(18, 12));
    assert_eq!(l.hit(12, 12, 0), Some(0));
    assert_eq!(l.hit(18, 12, 0), None);
    assert_eq!(l.hit(18, 12, 1), Some(3));
}

#[test]
fn a_negative_margin_leads_out_of_the_window() {
    let t = Theme { margin: -40, ..theme(1000, 900, 4, 3) };
    let l = Layout::new(&t, 12, ROOMY);
    assert_eq!((l.width, l.height), (997, 898));
    assert_eq!(l.elem(0, 0), Some(Rect { x: -40, y: -40, w: 258, h: 316 }));
}

#[test]
fn no_tiles_make_an_empty_grid() {
    let l = Layout::new(&Theme::default(), 0, ROOMY);
    assert_eq!((l.cols, l.rows, l.visible_rows), (1, 0, 1));
    assert!(l.elem(0, 0).is_none() && l.hit(30, 30, 0).is_none());
    assert_eq!(l.max_scroll(), 0);
    assert_eq!(l.row_of(0), 0);
}
