use wl_pick::target::{Format, Kind, Target, clean, esc};

fn win() -> Target {
    Target::window(42, "abc123".into(), "kitty".into(), "zsh\tin\na tab".into())
}

#[test]
fn tsv_is_one_line_with_both_identifiers() {
    let row = win().tsv();
    assert_eq!(row, "window\t42\tabc123\tkitty\tzsh in a tab");
    assert_eq!(row.split('\t').count(), 5);
    assert!(!row.contains('\n'));
}

#[test]
fn json_keeps_every_key_and_escapes() {
    let j = win().json();
    assert!(j.contains("\"type\":\"window\""), "{j}");
    assert!(j.contains("\"con_id\":42"), "{j}");
    assert!(j.contains("\"toplevel_id\":\"abc123\""), "{j}");
    assert!(j.contains("\"output\":null"), "{j}");
    // Control characters survive as escapes, not raw bytes.
    assert!(j.contains("zsh\\tin\\na tab"), "{j}");

    let o = Target::output("DP-1".into()).json();
    assert!(o.contains("\"con_id\":null"), "{o}");
    assert!(o.contains("\"output\":\"DP-1\""), "{o}");
}

#[test]
fn portal_speaks_xdpw() {
    assert_eq!(win().portal().as_deref(), Some("Window: abc123"));
    assert_eq!(
        Target::output("DP-1".into()).portal().as_deref(),
        Some("Monitor: DP-1")
    );
    // No identifier means the portal cannot be told about this window.
    let anon = Target::window(7, String::new(), "x".into(), "y".into());
    assert_eq!(anon.portal(), None);
}

#[test]
fn displays_say_what_they_are() {
    let t = Target::output("DP-1".into());
    assert_eq!(t.label(), "DP-1 · display");
    assert_eq!(t.con_id, None);
}

#[test]
fn windows_are_labelled_by_title_and_app() {
    assert_eq!(win().label(), "zsh\tin\na tab · kitty");
    let bare = Target::window(1, String::new(), String::new(), "title".into());
    assert_eq!(bare.label(), "title");
    assert_eq!(win().kind, Kind::Window);
    assert_eq!(win().con_id, Some(42));
}

#[test]
fn json_is_one_object_with_every_key() {
    assert_eq!(
        win().json(),
        "{\"type\":\"window\",\"con_id\":42,\"toplevel_id\":\"abc123\",\"output\":null,\"app\":\"kitty\",\"title\":\"zsh\\tin\\na tab\"}"
    );
}

#[test]
fn json_escapes_what_would_break_it() {
    assert_eq!(esc("a\"b\\c\u{1}"), "a\\\"b\\\\c\\u0001");
    assert_eq!(esc("plain · text"), "plain · text");
}

#[test]
fn control_characters_are_spaces_in_a_row() {
    assert_eq!(clean("a\tb\nc"), "a b c");
}

#[test]
fn formats_are_known_by_name() {
    assert_eq!(Format::parse(" json "), Ok(Format::Json));
    assert_eq!(Format::parse("tsv"), Ok(Format::Tsv));
    assert_eq!(Format::parse("portal"), Ok(Format::Portal));
    assert_eq!(
        Format::parse("xml"),
        Err("\"xml\" is not tsv, json or portal".to_string())
    );
    assert_eq!(Kind::Window.name(), "window");
    assert_eq!(Kind::Output.name(), "output");
}

#[test]
fn a_pick_renders_in_each_format() {
    let t = win();
    assert_eq!(t.render(Format::Tsv), Some(t.tsv()));
    assert_eq!(t.render(Format::Json), Some(t.json()));
    assert_eq!(t.render(Format::Portal), Some("Window: abc123".to_string()));
    let anon = Target::window(-7, String::new(), "x".into(), "y".into());
    assert_eq!(anon.render(Format::Portal), None);
    assert_eq!(anon.render(Format::Tsv), Some("window\t-7\t\tx\ty".to_string()));
    assert_eq!(anon.clone().tsv(), anon.tsv());
}
