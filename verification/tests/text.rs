use cosmic_text::fontdb::{Database, FaceInfo, ID, Language, Source, Style};
use wl_pick::text::{
    Choice, SYSTEM_MONO, Stretch, Weight, choose_font, ellipsize, families, family_named,
    first_family, interpret, is_generic, needs_system_fonts, normalise, split_request,
    stretch_from, stretch_name, system_mono, weight_from, weight_name,
};

/// A database that knows exactly these families.
fn db(families: &[&str]) -> Vec<String> {
    families.iter().map(|name| name.to_string()).collect()
}

/// The same, as fontdb holds it: one face for each list of names.
fn fonts(faces: &[&[&str]]) -> Database {
    let mut db = Database::new();
    for names in faces {
        db.push_face_info(FaceInfo {
            id: ID::dummy(),
            source: Source::File("none.ttf".into()),
            index: 0,
            families: names
                .iter()
                .map(|name| (name.to_string(), Language::English_UnitedStates))
                .collect(),
            post_script_name: String::new(),
            style: Style::Normal,
            weight: cosmic_text::Weight::NORMAL,
            stretch: cosmic_text::Stretch::Normal,
            monospaced: true,
        });
    }
    db
}

#[test]
fn a_full_font_name_splits_into_family_and_style() {
    // What fc-match prints and what a font menu shows: only the first part
    // of it is the family, which is why asking fontdb for the whole string
    // matched nothing.
    let choice = split_request("Berkeley Mono Medium SemiCondensed", &db(&["Berkeley Mono"]))
        .expect("should resolve");
    assert_eq!(choice.family, "Berkeley Mono");
    assert_eq!(choice.weight, Weight::Medium);
    assert_eq!(choice.stretch, Stretch::SemiCondensed);
    assert_eq!(choice.describe(), "Berkeley Mono Medium SemiCondensed");
}

#[test]
fn a_plain_family_keeps_its_defaults() {
    let choice = split_request("Berkeley Mono", &db(&["Berkeley Mono"])).expect("resolves");
    assert_eq!(choice, Choice::plain("Berkeley Mono"));
    assert_eq!(choice.describe(), "Berkeley Mono");
}

#[test]
fn a_family_may_end_in_a_style_word() {
    // "Fira Code Light" is a family in its own right, so it must win over
    // reading "Light" as the weight of "Fira Code".
    let choice = split_request("Fira Code Light", &db(&["Fira Code", "Fira Code Light"]))
        .expect("resolves");
    assert_eq!(choice.family, "Fira Code Light");
    assert_eq!(choice.weight, Weight::Normal);
}

#[test]
fn style_words_are_spelled_many_ways() {
    let cases = [
        ("Iosevka demibold", Weight::SemiBold, Stretch::Normal),
        ("Iosevka Extra Light", Weight::ExtraLight, Stretch::Normal),
        ("Iosevka ULTRACONDENSED", Weight::Normal, Stretch::UltraCondensed),
        ("Iosevka Bold Condensed", Weight::Bold, Stretch::Condensed),
    ];
    for (request, weight, stretch) in cases {
        let choice = match split_request(request, &db(&["Iosevka"])) {
            Some(choice) => choice,
            None => panic!("{request:?} should resolve"),
        };
        assert_eq!(choice.family, "Iosevka", "{request:?}");
        assert_eq!(choice.weight, weight, "{request:?}");
        assert_eq!(choice.stretch, stretch, "{request:?}");
    }
}

#[test]
fn a_name_that_means_nothing_resolves_to_nothing() {
    // The caller warns and falls back. Quietly dropping the word it cannot
    // read would shape in the wrong face and say nothing about it.
    let known = db(&["Berkeley Mono"]);
    assert_eq!(split_request("Berkeley Monospace Bold", &known), None);
    assert_eq!(split_request("Berkeley Mono Nonsense", &known), None);
    assert_eq!(split_request("Comic Sans", &known), None);
    assert_eq!(split_request("", &known), None);
}

#[test]
fn case_does_not_matter_but_the_font_keeps_its_own_spelling() {
    let choice = split_request("berkeley mono bold", &db(&["Berkeley Mono"])).expect("resolves");
    assert_eq!(choice.family, "Berkeley Mono", "the database's spelling");
    assert_eq!(choice.weight, Weight::Bold);
}

#[test]
fn the_generic_default_resolves_to_a_real_monospace_family() {
    let db = fonts(&[&["Noto Serif"], &["Liberation Mono", "Liberation Mono Alias"], &["Hack"]]);
    let (choice, complaint) = choose_font(&db, SYSTEM_MONO, || None);
    assert_ne!(choice.family, SYSTEM_MONO, "should have named a real family");
    assert_eq!(choice.family, "Liberation Mono");
    assert_eq!(complaint, None);
    assert!(
        family_named(&db, &choice.family).is_some(),
        "{:?} is not in the database",
        choice.family
    );
    // What fontconfig says comes first, if it is there.
    let (choice, _) = choose_font(&db, "Monospace", || Some("hack".to_string()));
    assert_eq!(choice.family, "hack");
    let (choice, _) = choose_font(&db, "Monospace", || Some("Courier".to_string()));
    assert_eq!(choice.family, "Liberation Mono");
}

#[test]
fn a_family_that_is_not_installed_falls_back_to_the_default() {
    // This used to pass the name straight through, which was shaped in
    // whatever font there was while --verbose reported the name that had been
    // asked for -- so a font setting that did nothing looked exactly like one
    // that worked.
    let db = fonts(&[&["DejaVu Sans Mono"]]);
    let (asked, complaint) = choose_font(&db, "No Such Family At All", || None);
    assert_eq!(asked, choose_font(&db, SYSTEM_MONO, || None).0, "should be the default");
    assert_ne!(asked.family, "No Such Family At All");
    assert_eq!(
        complaint,
        Some(
            "wl-pick: no font matching \"No Such Family At All\", using \"DejaVu Sans Mono\"; \
             `fc-match -f '%{family}\\n' \"No Such Family At All\"` names the family"
                .to_string()
        )
    );
}

#[test]
fn a_database_gives_up_its_families() {
    let db = fonts(&[&["A", "B"], &[], &["c"]]);
    assert_eq!(families(&db), vec!["A", "B", "c"]);
    assert_eq!(family_named(&db, "C"), Some("c".to_string()));
    assert_eq!(family_named(&db, "D"), None);
    let choice = interpret(&db, "b Bold").expect("resolves");
    assert_eq!((choice.family.as_str(), choice.weight), ("B", Weight::Bold));
    // Only what is not there already takes the system's fonts.
    assert!(!needs_system_fonts(&db, "b Bold") && needs_system_fonts(&db, "b Wide"));
    assert!(needs_system_fonts(&db, SYSTEM_MONO));
    // A request that names a family is taken as it is, and fontconfig is not
    // asked.
    let (choice, complaint) = choose_font(&db, "a thin", || panic!("not asked"));
    assert_eq!((choice.describe().as_str(), complaint), ("A Thin", None));
}

#[test]
fn nothing_installed_leaves_the_generic_name() {
    let db = Database::new();
    assert_eq!(system_mono(&db, Some("Hack".to_string())), Choice::plain(SYSTEM_MONO));
    assert!(is_generic("MonoSpace") && !is_generic("mono"));
}

#[test]
fn fontconfig_may_answer_with_aliases() {
    assert_eq!(first_family(" DejaVu Sans Mono,DejaVu Mono "), Some("DejaVu Sans Mono".to_string()));
    assert_eq!(first_family("Hack\n"), Some("Hack".to_string()));
    assert_eq!(first_family(" ,Hack"), None);
    assert_eq!(first_family(""), None);
}

#[test]
fn weights_and_widths_have_names() {
    let weights = [
        ("thin", Weight::Thin, "Thin"),
        ("Hairline", Weight::Thin, "Thin"),
        ("ultra-light", Weight::ExtraLight, "ExtraLight"),
        ("light", Weight::Light, "Light"),
        ("book", Weight::Normal, "Regular"),
        ("medium", Weight::Medium, "Medium"),
        ("SemiBold", Weight::SemiBold, "SemiBold"),
        ("bold", Weight::Bold, "Bold"),
        ("UltraBold", Weight::ExtraBold, "ExtraBold"),
        ("heavy", Weight::Black, "Black"),
    ];
    for (word, weight, name) in weights {
        assert_eq!(weight_from(word), Some(weight), "{word}");
        assert_eq!(weight_name(weight), name);
        assert_eq!(stretch_from(word), None, "{word}");
    }
    let widths = [
        ("ultracondensed", Stretch::UltraCondensed, "UltraCondensed"),
        ("extracondensed", Stretch::ExtraCondensed, "ExtraCondensed"),
        ("condensed", Stretch::Condensed, "Condensed"),
        ("semicondensed", Stretch::SemiCondensed, "SemiCondensed"),
        ("semiexpanded", Stretch::SemiExpanded, "SemiExpanded"),
        ("expanded", Stretch::Expanded, "Expanded"),
        ("extraexpanded", Stretch::ExtraExpanded, "ExtraExpanded"),
        ("ultraexpanded", Stretch::UltraExpanded, "UltraExpanded"),
    ];
    for (word, width, name) in widths {
        assert_eq!(stretch_from(word), Some(width), "{word}");
        assert_eq!(stretch_name(width), name);
        assert_eq!(weight_from(word), None, "{word}");
    }
    assert_eq!(stretch_name(Stretch::Normal), "Normal");
    assert_eq!(normalise("Extra-Light 3\u{e9}"), "extralight3");
}

/// Every character is ten wide.
fn fits(s: &str) -> bool {
    s.chars().count() as f32 * 10.0 <= 200.0
}

fn shorten(text: &str) -> String {
    let full = text.chars().count() as f32 * 10.0;
    let guess = (text.chars().count() as f32 * 200.0 / full).floor() as usize;
    ellipsize(text, full <= 200.0, guess, fits)
}

#[test]
fn ellipsizes_long_titles() {
    let long = "a very long window title that certainly does not fit in one narrow cell";
    let out = shorten(long);
    assert!(out.ends_with('…'), "got {out:?}");
    assert!(out.chars().count() < long.chars().count());
    // Short text is left alone.
    assert_eq!(shorten("zsh"), "zsh");
}

#[test]
fn shortening_is_bounded() {
    let long = "a".repeat(1000);
    // The first guess that fits is taken: twenty characters and the ellipsis
    // are one too many, eighteen and it are not.
    assert_eq!(shorten(&long), format!("{}…", "a".repeat(18)));
    // Nothing ever fits: after the last try the ellipsis stands alone.
    let tries = std::cell::Cell::new(0);
    let out = ellipsize(&long, false, 5000, |_| {
        tries.set(tries.get() + 1);
        false
    });
    assert_eq!(out.chars().count(), 1);
    assert_eq!(out, "…");
    assert_eq!(tries.get(), 12);
    assert_eq!(ellipsize("ab", false, 9, |_| false), "…");
    assert_eq!(ellipsize("", false, 0, |_| false), "…");
    assert_eq!(ellipsize("ab", true, 0, |_| false), "ab");
}
