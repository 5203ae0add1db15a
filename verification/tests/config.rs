use wl_pick::capture::Live;
use wl_pick::config::{Config, Length, boolean, colour, strip_comment};
use wl_pick::target::Format;
use wl_pick::words::Literal;

fn number(text: &str) -> Literal {
    Literal { text: text.to_string() }
}

#[test]
fn lengths_take_sways_units() {
    assert_eq!(Length::parse("600px"), Ok(Length::Px(number("600"))));
    assert_eq!(Length::parse("600"), Ok(Length::Px(number("600"))));
    assert_eq!(Length::parse(" 70 ppt "), Ok(Length::Ppt(number("70"))));
    assert_eq!(Length::parse("70ppt"), Ok(Length::Ppt(number("70"))));
    assert_eq!(Length::parse("12.5%"), Ok(Length::Ppt(number("12.5"))));
    assert!(Length::parse("wide").is_err());
    assert!(Length::parse("70em").is_err());
}

#[test]
fn a_length_says_what_is_wrong_with_it() {
    assert_eq!(
        Length::parse(" wide "),
        Err("\"wide\" is not a number followed by px or ppt".to_string())
    );
    assert_eq!(
        Length::parse("70em"),
        Err("unknown unit \"em\", expected px or ppt".to_string())
    );
    assert!(Length::parse("").is_err());
    // A letter outside ASCII ends the number too.
    assert_eq!(
        Length::parse("5\u{e9}"),
        Err("unknown unit \"\u{e9}\", expected px or ppt".to_string())
    );
    let copy = Length::parse("5%").unwrap().copy();
    assert_eq!(copy, Length::Ppt(number("5")));
}

#[test]
fn colours_take_both_lengths() {
    assert_eq!(colour("#282828"), Ok(0xff282828));
    assert_eq!(colour("#80ffffff"), Ok(0x80ffffff));
    assert_eq!(colour("282828"), Ok(0xff282828));
    assert!(colour("#zzz").is_err());
    assert!(colour("#fff").is_err());
}

#[test]
fn a_whole_file_parses() {
    let cfg = Config::parse(
        "\
# looks
background = #282828
selection  = #d79921   # trailing comment
border-width = 2px

tile-width = 18ppt
max-columns = 4

live = current
fps = 30
labels = no
",
    )
    .expect("should parse");
    assert_eq!(cfg.background, Some(0xff282828));
    assert_eq!(cfg.selection, Some(0xffd79921));
    assert_eq!(cfg.border_width, Some(Length::Px(number("2"))));
    assert_eq!(cfg.tile_width, Some(Length::Ppt(number("18"))));
    assert_eq!(cfg.max_columns, Some(4));
    assert_eq!(cfg.fps, Some(30));
    assert_eq!(cfg.labels, Some(false));
    assert!(cfg.live.is_some());
    // Untouched settings stay unset, so defaults survive.
    assert_eq!(cfg.foreground, None);
    assert_eq!(cfg.tile_height, None);
}

#[test]
fn comments_do_not_eat_colours() {
    assert_eq!(
        strip_comment("selection = #d79921   # note"),
        "selection = #d79921   "
    );
    assert_eq!(strip_comment("# whole line"), "");
    assert_eq!(strip_comment("border = #fff000"), "border = #fff000");
    assert_eq!(strip_comment("fps = 30 #"), "fps = 30 ");
    let cfg = Config::parse("selection = #d79921 # trailing\n").expect("parses");
    assert_eq!(cfg.selection, Some(0xffd79921));
}

#[test]
fn mistakes_say_which_line() {
    let err = Config::parse("background = #282828\nselection = nope\n").unwrap_err();
    assert!(err.starts_with("line 2:"), "{err}");
    let err = Config::parse("border-width\n").unwrap_err();
    assert!(err.starts_with("line 1:"), "{err}");
    let err = Config::parse("colour = #fff000\n").unwrap_err();
    assert!(err.contains("unknown setting"), "{err}");
}

#[test]
fn a_missing_file_is_not_an_error() {
    let missing = "/nonexistent/wl-pick/config";
    let gone = || Err("No such file or directory (os error 2)".to_string());
    assert_eq!(
        Config::load(missing, true, gone()).err(),
        Some("/nonexistent/wl-pick/config: No such file or directory (os error 2)".to_string()),
        "named file must exist"
    );
    // The default location is allowed to be absent.
    assert!(Config::load(missing, false, gone()).is_ok());
    // A malformed file is refused wherever it is.
    assert_eq!(
        Config::load("c", false, Ok("fps = many".to_string())).err(),
        Some("c: line 1: \"many\" is not a number".to_string())
    );
    let cfg = Config::load("c", false, Ok("fps = 30".to_string())).unwrap();
    assert_eq!(cfg.fps, Some(30));
}

#[test]
fn every_setting_can_be_set() {
    let cfg = Config::parse(
        "background=#010203\nforeground=#010204\nselection=#010205\nselection-text=#010206\n\
         border=#80010207\nborder-width=3\nmax-width=90ppt\nmax-height=800px\n\
         tile-width=1\ntile-height=2%\nmax-columns=5\nmax-rows=-6\nfont=Iosevka Bold\n\
         font-size=13.3\nlabels=off\noutputs=yes\nlive=none\nfps=0\nformat=json\n\
         timeout=2.5e1\n",
    )
    .unwrap();
    assert_eq!(cfg.background, Some(0xff010203));
    assert_eq!(cfg.foreground, Some(0xff010204));
    assert_eq!(cfg.selection, Some(0xff010205));
    assert_eq!(cfg.selection_text, Some(0xff010206));
    assert_eq!(cfg.border, Some(0x80010207));
    assert_eq!(cfg.border_width, Some(Length::Px(number("3"))));
    assert_eq!(cfg.max_width, Some(Length::Ppt(number("90"))));
    assert_eq!(cfg.max_height, Some(Length::Px(number("800"))));
    assert_eq!(cfg.tile_width, Some(Length::Px(number("1"))));
    assert_eq!(cfg.tile_height, Some(Length::Ppt(number("2"))));
    assert_eq!(cfg.max_columns, Some(5));
    assert_eq!(cfg.max_rows, Some(-6));
    assert_eq!(cfg.font, Some("Iosevka Bold".to_string()));
    assert_eq!(cfg.font_size, Some(number("13.3")));
    assert_eq!(cfg.labels, Some(false));
    assert_eq!(cfg.outputs, Some(true));
    assert_eq!(cfg.live, Some(Live::Nothing));
    assert_eq!(cfg.fps, Some(0));
    assert_eq!(cfg.format, Some(Format::Json));
    assert_eq!(cfg.timeout, Some(number("2.5e1")));
}

#[test]
fn a_later_line_wins_and_windows_line_ends_do_no_harm() {
    let cfg = Config::parse("fps = 30\r\nfps = 60 #\r\n\r\n").unwrap();
    assert_eq!(cfg.fps, Some(60));
}

#[test]
fn each_kind_of_mistake_is_named() {
    let err = |text: &str| Config::parse(text).unwrap_err();
    assert_eq!(err("\n\nnothing"), "line 3: expected key = value");
    assert_eq!(err("labels = maybe"), "line 1: \"maybe\" is not true or false");
    assert_eq!(err("live = sometimes"), "line 1: \"sometimes\" is not all, current or none");
    assert_eq!(err("format = xml"), "line 1: \"xml\" is not tsv, json or portal");
    assert_eq!(err("fps = -1"), "line 1: \"-1\" is not a number");
    assert_eq!(err("max-rows = 1.5"), "line 1: \"1.5\" is not a number");
    assert_eq!(err("font-size = big"), "line 1: \"big\" is not a number");
    assert_eq!(err("border = #12345"), "line 1: \"#12345\" should be #rrggbb or #aarrggbb");
    assert_eq!(err("border = nope"), "line 1: \"nope\" is not a colour");
    assert_eq!(err("border = #+28282"), "line 1: \"#+28282\" is not a colour");
    assert_eq!(err("border = #1ffffffff"), "line 1: \"#1ffffffff\" is not a colour");
    assert_eq!(err("colour = #fff000"), "line 1: unknown setting \"colour\"");
}

#[test]
fn a_colour_is_hex_digits_and_nothing_else() {
    assert_eq!(colour(" #aBcDeF "), Ok(0xffabcdef));
    assert_eq!(colour("00FFffff"), Ok(0x00ffffff));
    assert_eq!(colour("#"), Err("\"#\" is not a colour".to_string()));
    for wrong in ["#+28282", "+28282", "#+2828282", "#-28282", "##282828", "#28282g", "#2828 28"] {
        assert!(colour(wrong).is_err(), "{wrong}");
    }
}

#[test]
fn booleans_are_spelled_many_ways() {
    for yes in ["true", "yes", "on", "1", " on "] {
        assert_eq!(boolean(yes), Ok(true), "{yes}");
    }
    for no in ["false", "no", "off", "0"] {
        assert_eq!(boolean(no), Ok(false), "{no}");
    }
    assert!(boolean("True").is_err());
}

#[test]
fn a_failed_setting_changes_nothing() {
    let mut cfg = Config::default();
    cfg.set("fps", "30").unwrap();
    assert!(cfg.set("fps", "x").is_err());
    assert_eq!(cfg.fps, Some(30));
}
