use kerbin::keybind::{KeyBind, KeyCode, KeyModifiers};
use kerbin::theme::{
    color_from_str, resolve_palette, try_color_from_str, try_resolve_palette, Attributes, Color,
    ContentStyle, ThemeError, UnresolvedStyle,
};

fn invalid(r: Result<Color, ThemeError>) -> String {
    match r {
        Err(ThemeError::InvalidColor(s)) => s,
        other => panic!("expected an invalid color, got {:?}", other),
    }
}

#[test]
fn color_names_and_hex() {
    assert_eq!(color_from_str("Red").unwrap(), Color::Red);
    assert_eq!(color_from_str("darkgrey").unwrap(), Color::DarkGrey);
    assert_eq!(color_from_str("#FF8000").unwrap(), Color::Rgb { r: 255, g: 128, b: 0 });
    assert_eq!(color_from_str("#+f+f+f").unwrap(), Color::Rgb { r: 15, g: 15, b: 15 });
    assert_eq!(invalid(color_from_str("#12345")), "#12345");
    assert_eq!(invalid(color_from_str("Nope")), "nope");
    assert_eq!(invalid(color_from_str("#gg0000")), "#gg0000");
}

#[test]
fn color_across_a_char() {
    assert!(try_color_from_str("#aé123").is_none());
    match try_color_from_str("#é1234") {
        Some(Err(ThemeError::InvalidColor(s))) => assert_eq!(s, "#é1234"),
        other => panic!("unexpected {:?}", other),
    }
    assert_eq!(try_color_from_str("BLUE").unwrap().unwrap(), Color::Blue);
}

#[test]
fn theme_error_messages() {
    assert_eq!(ThemeError::InvalidColor("x".to_string()).message(), "invalid color value: 'x'");
    assert_eq!(ThemeError::UnknownAttribute("b".to_string()).message(), "unknown attribute: 'b'");
    assert_eq!(
        ThemeError::UnresolvedPaletteReference("r".to_string()).message(),
        "unresolved palette reference: 'r'"
    );
    assert_eq!(
        ThemeError::CyclicPaletteReference("c".to_string()).message(),
        "cyclic palette reference involving: 'c'"
    );
}

#[test]
fn style_resolves_against_palette() {
    let pal = vec![("accent".to_string(), Color::Rgb { r: 1, g: 2, b: 3 })];
    let st = UnresolvedStyle {
        fg: Some("accent".to_string()),
        bg: Some("Blue".to_string()),
        underline: None,
        attrs: vec!["Bold".to_string(), "italic".to_string(), "bold".to_string()],
    };
    let mut attrs = Attributes::none();
    attrs.bold = true;
    attrs.italic = true;
    assert_eq!(
        st.resolve(&pal).unwrap(),
        ContentStyle {
            foreground_color: Some(Color::Rgb { r: 1, g: 2, b: 3 }),
            background_color: Some(Color::Blue),
            underline_color: None,
            attributes: attrs,
        }
    );
}

#[test]
fn style_errors_in_order() {
    let pal: Vec<(String, Color)> = vec![];
    let st = UnresolvedStyle {
        fg: Some("red".to_string()),
        bg: Some("Mauve".to_string()),
        underline: None,
        attrs: vec!["blinky".to_string()],
    };
    match st.resolve(&pal) {
        Err(ThemeError::InvalidColor(s)) => assert_eq!(s, "mauve"),
        other => panic!("unexpected {:?}", other),
    }
    let st = UnresolvedStyle { fg: None, bg: None, underline: None, attrs: vec!["Blinky".to_string()] };
    match st.try_resolve(&pal) {
        Some(Err(ThemeError::UnknownAttribute(s))) => assert_eq!(s, "Blinky"),
        other => panic!("unexpected {:?}", other),
    }
}

fn pal(entries: &[(&str, &str)]) -> Vec<(String, String)> {
    entries.iter().map(|(k, v)| (k.to_string(), v.to_string())).collect()
}

#[test]
fn palette_follows_references() {
    let p = pal(&[("a", "b"), ("b", "#010203"), ("c", "red")]);
    let r = resolve_palette(&p).unwrap();
    assert_eq!(
        r,
        vec![
            ("a".to_string(), Color::Rgb { r: 1, g: 2, b: 3 }),
            ("b".to_string(), Color::Rgb { r: 1, g: 2, b: 3 }),
            ("c".to_string(), Color::Red),
        ]
    );
}

#[test]
fn palette_cycle_and_dangling_reference() {
    match resolve_palette(&pal(&[("x", "y"), ("y", "x")])) {
        Err(ThemeError::CyclicPaletteReference(k)) => assert!(k == "x" || k == "y"),
        other => panic!("unexpected {:?}", other),
    }
    match resolve_palette(&pal(&[("a", "red"), ("x", "nothing")])) {
        Err(ThemeError::UnresolvedPaletteReference(v)) => assert_eq!(v, "nothing"),
        other => panic!("unexpected {:?}", other),
    }
    assert!(try_resolve_palette(&pal(&[("a", "#aé123")])).is_none());
}

fn mods(control: bool, alt: bool, shift: bool) -> KeyModifiers {
    KeyModifiers { shift, control, alt, super_key: false, hyper: false, meta: false }
}

#[test]
fn keybinds_parse() {
    assert_eq!(KeyBind::parse("ctrl-s"), Ok(KeyBind { code: KeyCode::Char('s'), modifiers: mods(true, false, false) }));
    assert_eq!(
        KeyBind::parse("Alt-Shift-F5"),
        Ok(KeyBind { code: KeyCode::F(5), modifiers: mods(false, true, true) })
    );
    assert_eq!(KeyBind::parse("up"), Ok(KeyBind { code: KeyCode::Up, modifiers: mods(false, false, false) }));
    assert_eq!(KeyBind::parse("space").unwrap().code, KeyCode::Char(' '));
    assert_eq!(KeyBind::parse("CONTROL-Q"), Ok(KeyBind { code: KeyCode::Char('q'), modifiers: mods(true, false, false) }));
    assert_eq!(KeyBind::parse("f").unwrap().code, KeyCode::Char('f'));
    assert_eq!(KeyBind::parse("f+7").unwrap().code, KeyCode::F(7));
    let m = KeyBind::parse("super-hyper-meta-esc").unwrap().modifiers;
    assert!(m.super_key && m.hyper && m.meta && !m.control);
}

#[test]
fn keybind_errors() {
    assert_eq!(KeyBind::parse("ctrl-"), Err("Unknown key: ".to_string()));
    assert_eq!(KeyBind::parse("foo-x"), Err("Unknown modifier: foo".to_string()));
    assert_eq!(KeyBind::parse("fx"), Err("Invalid F-key: fx".to_string()));
    assert_eq!(KeyBind::parse("F256"), Err("Invalid F-key: f256".to_string()));
    assert_eq!(KeyBind::parse("ab"), Err("Unknown key: ab".to_string()));
    assert_eq!(KeyBind::parse("-x"), Err("Unknown modifier: ".to_string()));
}
