use wl_pick::capture::Live;
use wl_pick::cli::{Args, HELP, Parsed, Sizes, parse};
use wl_pick::config::{Config, Length};
use wl_pick::sway::Display;
use wl_pick::target::Format;
use wl_pick::words::Literal;

fn words(flags: &[&str]) -> Vec<String> {
    flags.iter().map(|s| s.to_string()).collect()
}

fn args(flags: &[&str]) -> Args {
    match parse(&words(flags)) {
        Ok(Parsed::Run(args)) => args,
        _ => panic!("should parse"),
    }
}

fn error(flags: &[&str]) -> String {
    match parse(&words(flags)) {
        Err(e) => e,
        Ok(_) => panic!("should not parse"),
    }
}

/// A config file that sets both booleans the same way.
fn file(on: bool) -> Config {
    Config {
        outputs: Some(on),
        labels: Some(on),
        ..Config::default()
    }
}

fn display() -> Display {
    Display {
        name: "DP-1".into(),
        width: 2560,
        height: 1440,
        scale: 2,
        focused: true,
    }
}

/// Nine tenths of that display.
fn sizes() -> Sizes {
    Sizes {
        max_w: 2304,
        max_h: 1296,
        border_px: 5,
        line_h: 26,
        flag_timeout: true,
        file_timeout: true,
    }
}

fn number(text: &str) -> Literal {
    Literal { text: text.to_string() }
}

#[test]
fn every_boolean_can_be_set_both_ways() {
    assert_eq!(args(&["--outputs"]).outputs, Some(true));
    assert_eq!(args(&["--no-outputs"]).outputs, Some(false));
    assert_eq!(args(&["--labels"]).labels, Some(true));
    assert_eq!(args(&["--no-labels"]).labels, Some(false));
    assert_eq!(args(&["--hide-labels"]).labels, Some(false), "old spelling");
    // Unset is what lets the file have its say.
    assert_eq!(args(&[]).outputs, None);
    assert_eq!(args(&[]).labels, None);
}

#[test]
fn a_flag_beats_the_file_in_both_directions() {
    // Turning something back on is the case that used to be unsayable:
    // there was a --no-outputs but no --outputs, so a config saying no
    // could not be overridden from the command line at all.
    let on = args(&["--outputs", "--labels"]).resolve(&file(false), &display(), &sizes());
    assert!(on.outputs);
    assert!(on.settings.theme.labels);

    let off = args(&["--no-outputs", "--no-labels"]).resolve(&file(true), &display(), &sizes());
    assert!(!off.outputs);
    assert!(!off.settings.theme.labels);

    // With no flag the file decides, and with no file either, the default.
    assert!(!args(&[]).resolve(&file(false), &display(), &sizes()).outputs);
    assert!(args(&[]).resolve(&Config::default(), &display(), &sizes()).outputs);
}

#[test]
fn every_flag_is_read() {
    let a = args(&[
        "--config", "/etc/c", "--format", "json", "--live", "current", "--fps", "30", "--font",
        "Iosevka Bold", "--font-size", "20.5", "--timeout", "3", "-v",
    ]);
    assert_eq!(a.config, Some("/etc/c".to_string()));
    assert_eq!(a.format, Some(Format::Json));
    assert_eq!(a.live, Some(Live::Current));
    assert_eq!(a.fps, Some(30));
    assert_eq!(a.font, Some("Iosevka Bold".to_string()));
    assert_eq!(a.font_size, Some(number("20.5")));
    assert_eq!(a.timeout, Some(number("3")));
    assert!(a.verbose);
    assert!(args(&["--verbose"]).verbose && !args(&[]).verbose);
    assert_eq!(args(&["--fps", "1", "--fps", "2"]).fps, Some(2));
}

#[test]
fn help_stops_the_reading() {
    assert!(matches!(parse(&words(&["-h", "--nonsense"])), Ok(Parsed::Help)));
    assert!(matches!(parse(&words(&["--labels", "--help"])), Ok(Parsed::Help)));
    assert!(HELP.starts_with("wl-pick") && HELP.contains("--hide-labels") == false);
}

#[test]
fn each_mistake_is_named() {
    assert_eq!(error(&["--format"]), "--format needs tsv|json|portal");
    assert_eq!(error(&["--config"]), "--config needs a path");
    assert_eq!(error(&["--live"]), "--live needs all|current|none");
    assert_eq!(error(&["--fps"]), "--fps needs a number");
    assert_eq!(error(&["--font"]), "--font needs a font name");
    assert_eq!(error(&["--font-size"]), "--font-size needs px");
    assert_eq!(error(&["-v", "--timeout"]), "--timeout needs seconds");
    assert_eq!(error(&["--format", "xml"]), "\"xml\" is not tsv, json or portal");
    assert_eq!(error(&["--live", "x"]), "\"x\" is not all, current or none");
    assert_eq!(error(&["--fps", " 3"]), "bad --fps:  3");
    assert_eq!(error(&["--font-size", "1,5"]), "bad --font-size: 1,5");
    assert_eq!(error(&["--timeout", "soon"]), "bad --timeout: soon");
    assert_eq!(error(&["--outputs", "x"]), "unknown argument: x");
}

#[test]
fn the_defaults_are_the_documented_ones() {
    let o = args(&[]).resolve(&Config::default(), &display(), &sizes());
    assert_eq!(o.format, Format::Tsv);
    assert_eq!(o.display, (2560, 1440));
    assert_eq!(o.timeout, None);
    assert!(o.outputs && !o.verbose);
    let s = &o.settings;
    assert_eq!((s.live, s.fps, s.scale), (Live::All, 12, 2));
    assert_eq!(s.output, "DP-1");
    let t = &s.theme;
    assert_eq!((t.max_w, t.max_h, t.max_cols, t.max_rows), (2304, 1296, 4, 4));
    assert_eq!((t.border_px, t.line_h), (2, 17), "set by nobody");
    assert_eq!((t.bg, t.fg, t.border), (0xff282828, 0xffebdbb2, 0xffd79921));
    assert_eq!((t.font.as_str(), t.font_px.text.as_str()), ("monospace", "13.3"));
}

#[test]
fn the_file_fills_the_gaps() {
    let cfg = Config::parse(
        "border-width = 5px\nmax-columns = 0\nmax-rows = 2\nfont = Hack\nfont-size = 20\n\
         live = none\nfps = 7\nformat = portal\ntimeout = 9\nbackground = #000000\n",
    )
    .unwrap();
    let o = args(&[]).resolve(&cfg, &display(), &sizes());
    let t = &o.settings.theme;
    assert_eq!((t.border_px, t.max_cols, t.max_rows, t.line_h), (5, 1, 2, 26));
    assert_eq!((t.font.as_str(), t.font_px.text.as_str(), t.bg), ("Hack", "20", 0xff000000));
    assert_eq!((o.settings.live, o.settings.fps, o.format), (Live::Nothing, 7, Format::Portal));
    assert_eq!(o.timeout, Some(number("9")));
    // And a flag beats it.
    let o = args(&["--font", "X", "--live", "all", "--timeout", "1"]).resolve(&cfg, &display(), &sizes());
    assert_eq!(o.settings.theme.font, "X");
    assert_eq!(o.settings.live, Live::All);
    assert_eq!(o.timeout, Some(number("1")));
}

#[test]
fn a_timeout_of_nothing_is_none() {
    let cfg = Config::parse("timeout = 0").unwrap();
    let none = Sizes { flag_timeout: false, file_timeout: false, ..sizes() };
    assert_eq!(args(&["--timeout", "0"]).resolve(&cfg, &display(), &none).timeout, None);
    let file = Sizes { flag_timeout: false, ..sizes() };
    let cfg = Config::parse("timeout = 4").unwrap();
    // A flag beats the file, one that asks for none too.
    assert_eq!(args(&["--timeout", "0"]).resolve(&cfg, &display(), &file).timeout, None);
    assert_eq!(args(&[]).resolve(&cfg, &display(), &file).timeout, Some(number("4")));
}

#[test]
fn lengths_default_to_most_of_the_display() {
    let l = args(&[]).lengths(&Config::default());
    assert_eq!(l.max_width, Length::Ppt(number("90")));
    assert_eq!(l.max_height, Length::Ppt(number("90")));
    assert!(l.border_width.is_none() && l.font_size.is_none());
    let cfg = Config::parse("max-width = 600px\nborder-width = 3\nfont-size = 9").unwrap();
    let l = args(&["--font-size", "11"]).lengths(&cfg);
    assert_eq!(l.max_width, Length::Px(number("600")));
    assert_eq!(l.border_width, Some(Length::Px(number("3"))));
    assert_eq!(l.font_size, Some(number("11")));
    // A box of nothing is still a box.
    let tiny = Sizes { max_w: 0, max_h: -3, ..sizes() };
    let o = args(&[]).resolve(&cfg, &display(), &tiny);
    assert_eq!((o.settings.theme.max_w, o.settings.theme.max_h), (1, 1));
}
