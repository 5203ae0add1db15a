//! What a run comes to before anything is on screen: the tiles, the grid, and
//! the labels to shape.

use vstd::prelude::*;
use vstd::string::*;

use crate::app;
use crate::app::Settings;
use crate::cli::Options;
use crate::sway;
use crate::sway::{Display, targets};
use crate::target;
use crate::target::{Format, Record, Target};
use crate::theme;
use crate::theme::{Grid, Layout};
use crate::words;
use crate::words::Literal;

verus! {

/// The labels to shape, in pixels.
pub struct LabelJob {
    pub texts: Vec<String>,
    pub font: String,
    /// Size of the font in logical px, to be multiplied by the scale.
    pub font_px: Literal,
    pub scale: i32,
    pub line_h: i32,
    /// How wide a label may be.
    pub box_w: i32,
}

/// A run that has something to show.
pub struct Start {
    pub targets: Vec<Target>,
    pub settings: Settings,
    /// The grid is measured once: the label shaping and the overlay itself must
    /// agree about how wide a label may be.
    pub layout: Layout,
    /// None where no labels are drawn.
    pub labels: Option<LabelJob>,
    pub verbose: bool,
    pub format: Format,
}

/// What a run comes to.
pub enum Beginning {
    /// There is nothing to pick from, so it ends the way a cancel does.
    Nothing,
    /// The grid cannot be shown; what to say about it.
    Refused(String),
    Open(Start),
}

/// The labels of these tiles.
pub open spec fn labels_of(records: Seq<Record>) -> Seq<Seq<char>> {
    records.map_values(|t: Record| t.label())
}

/// That this is the job of shaping the labels of that grid.
pub open spec fn shapes(
    job: Option<LabelJob>,
    records: Seq<Record>,
    settings: Settings,
    g: Grid,
) -> bool {
    match job {
        Some(job) => {
            &&& g.labels
            &&& words::texts(job.texts@) == labels_of(records)
            &&& job.font@ == settings.theme.font@
            &&& job.font_px@ == settings.theme.font_px@
            &&& job.font_px.wf()
            &&& job.scale == settings.scale
            &&& job.line_h == settings.theme.line_h * settings.scale
            &&& job.box_w == g.label(0, 0).w * settings.scale
        },
        None => !g.labels,
    }
}

/// That this is what a run comes to, with those tiles and options.
pub open spec fn begins(r: Beginning, records: Seq<Record>, o: Options) -> bool {
    let g = theme::grid(o.settings.theme, records.len() as int, o.display);
    if records.len() == 0 {
        r is Nothing
    } else if records.len() > i32::MAX || !g.fits() {
        r matches Beginning::Refused(e) && e@ == "the grid is larger than any display"@
    } else if !app::drawable(o.settings.theme, g, o.settings.scale as int) {
        r matches Beginning::Refused(e) && e@ == "the overlay cannot be drawn"@
    } else {
        r matches Beginning::Open(s) && target::records(s.targets@) == records && s.settings
            == o.settings && s.layout@ == g && shapes(s.labels, records, o.settings, g) && s.verbose
            == o.verbose && s.format == o.format
    }
}

fn label_texts(targets: &Vec<Target>) -> (r: Vec<String>)
    ensures
        words::texts(r@) == labels_of(target::records(targets@)),
{
    let ghost want = labels_of(target::records(targets@));
    let mut out: Vec<String> = Vec::new();
    for i in 0..targets.len()
        invariant
            want == labels_of(target::records(targets@)),
            words::texts(out@) == want.take(i as int),
    {
        let ghost before = words::texts(out@);
        let text = targets[i].label();
        out.push(text);
        assert(words::texts(out@) =~= before.push(text@));
        assert(words::texts(out@) =~= want.take(i + 1));
    }
    assert(want.take(want.len() as int) =~= want);
    out
}

/// The labels to shape for a grid.
fn label_job(targets: &Vec<Target>, settings: &Settings, layout: &Layout) -> (r: Option<LabelJob>)
    requires
        targets@.len() > 0,
        settings.theme.font_px.wf(),
        layout.wf(),
        layout@.n == targets@.len(),
        layout@.labels == settings.theme.labels,
        layout@.line_h == settings.theme.line_h,
        app::drawable(settings.theme, layout@, settings.scale as int),
    ensures
        shapes(r, target::records(targets@), *settings, layout@),
{
    let ghost g = layout@;
    let label = match layout.label(0, 0) {
        Some(label) => label,
        None => {
            assert(0int / g.cols == 0) by (nonlinear_arith)
                requires
                    g.cols >= 1,
            ;
            return None;
        },
    };
    proof {
        app::lemma_boxes_scale(settings.theme, g, settings.scale as int, 0, 0);
    }
    Some(
        LabelJob {
            texts: label_texts(targets),
            font: settings.theme.font.clone(),
            font_px: settings.theme.font_px.copy(),
            scale: settings.scale,
            line_h: settings.theme.line_h * settings.scale,
            box_w: label.w * settings.scale,
        },
    )
}

/// What a run comes to, with the windows and the displays there are.
pub fn begin(options: Options, windows: Vec<Target>, displays: &[Display]) -> (r: Beginning)
    requires
        options.settings.theme.font_px.wf(),
    ensures
        begins(
            r,
            sway::listing(target::records(windows@), displays@, options.outputs),
            options,
        ),
{
    let targets = targets(windows, displays, options.outputs);
    if targets.len() == 0 {
        return Beginning::Nothing;
    }
    let (settings, display) = (options.settings, options.display);
    if targets.len() > i32::MAX as usize || !Layout::fits(
        &settings.theme,
        targets.len() as i32,
        display,
    ) {
        return Beginning::Refused("the grid is larger than any display".to_owned());
    }
    let layout = Layout::new(&settings.theme, targets.len() as i32, display);
    if !settings.can_draw(&layout) {
        return Beginning::Refused("the overlay cannot be drawn".to_owned());
    }
    let labels = label_job(&targets, &settings, &layout);
    Beginning::Open(
        Start {
            targets,
            settings,
            layout,
            labels,
            verbose: options.verbose,
            format: options.format,
        },
    )
}

/// A run that opens can make its overlay: what it needs is there.
pub proof fn law_a_run_that_opens_can_be_shown(records: Seq<Record>, o: Options, s: Start)
    requires
        begins(Beginning::Open(s), records, o),
    ensures
        s.layout@.n == s.targets@.len(),
        s.layout@.margin == s.settings.theme.margin,
        app::drawable(s.settings.theme, s.layout@, s.settings.scale as int),
{
    assert(target::records(s.targets@).len() == s.targets@.len());
}

/// A run opens wherever there is something to pick from, the grid fits and can
/// be drawn; ends like a cancel where there is nothing; and is refused only
/// where it cannot be shown.
pub proof fn law_a_run_opens_where_it_can(r: Beginning, records: Seq<Record>, o: Options)
    requires
        begins(r, records, o),
    ensures
        ({
            let g = theme::grid(o.settings.theme, records.len() as int, o.display);
            let shown = records.len() <= i32::MAX && g.fits() && app::drawable(
                o.settings.theme,
                g,
                o.settings.scale as int,
            );
            &&& r is Nothing <==> records.len() == 0
            &&& r is Open <==> records.len() > 0 && shown
            &&& r is Refused <==> records.len() > 0 && !shown
            &&& r matches Beginning::Open(s) ==> {
                &&& s.settings == o.settings && s.verbose == o.verbose && s.format == o.format
                &&& s.layout@ == g
                &&& target::records(s.targets@) == records
                &&& s.labels is Some <==> o.settings.theme.labels
            }
        }),
{
}

/// The labels are shaped as they will be drawn: each tile's own text, in the
/// theme's font, at the display's scale, no wider than a thumbnail's box.
pub proof fn law_labels_are_shaped_as_they_are_drawn(
    job: LabelJob,
    records: Seq<Record>,
    settings: Settings,
    g: Grid,
    i: int,
)
    requires
        shapes(Some(job), records, settings, g),
    ensures
        job.texts@.len() == records.len(),
        0 <= i < records.len() ==> job.texts@[i]@ == records[i].label(),
        job.font@ == settings.theme.font@,
        job.font_px.text@ == settings.theme.font_px.text@,
        job.scale == settings.scale,
        job.line_h == settings.theme.line_h * settings.scale,
        job.box_w == (g.elem_w - 2 * g.pad) * settings.scale,
{
    assert(words::texts(job.texts@).len() == labels_of(records).len());
    if 0 <= i < records.len() {
        assert(words::texts(job.texts@)[i] == labels_of(records)[i]);
    }
}

} // verus!
