use dalgi::{Key, KeyDesc, Keytype, Mods};

#[test]
fn parse_keycode_names() {
    assert_eq!(KeyDesc::parse("up"), Some(KeyDesc::new(Key::Up)));
    assert_eq!(KeyDesc::parse("down"), Some(KeyDesc::new(Key::Down)));
    assert_eq!(KeyDesc::parse("left"), Some(KeyDesc::new(Key::Left)));
    assert_eq!(KeyDesc::parse("right"), Some(KeyDesc::new(Key::Right)));
    assert_eq!(KeyDesc::parse("space"), Some(KeyDesc::new(Key::Space)));
    assert_eq!(KeyDesc::parse("return"), Some(KeyDesc::new(Key::Return)));
    assert_eq!(KeyDesc::parse("1"), Some(KeyDesc::new(Key::One)));
    assert_eq!(KeyDesc::parse("2"), Some(KeyDesc::new(Key::Two)));
    assert_eq!(KeyDesc::parse("3"), Some(KeyDesc::new(Key::Three)));
    assert_eq!(KeyDesc::parse("4"), Some(KeyDesc::new(Key::Four)));
}

#[test]
fn parse_scancode_brackets() {
    assert_eq!(
        KeyDesc::parse("[up]"),
        Some(KeyDesc::new(Key::Up).scancode())
    );
    assert_eq!(
        KeyDesc::parse("[ space ]"),
        Some(KeyDesc::new(Key::Space).scancode())
    );
}

#[test]
fn parse_trims_surrounding_blanks() {
    assert_eq!(KeyDesc::parse("  return\t"), Some(KeyDesc::new(Key::Return)));
    assert_eq!(
        KeyDesc::parse(" [1] "),
        Some(KeyDesc::new(Key::One).scancode())
    );
}

#[test]
fn parse_rejects_unknown_names() {
    assert_eq!(KeyDesc::parse("jump"), None);
    assert_eq!(KeyDesc::parse(""), None);
    assert_eq!(KeyDesc::parse("  "), None);
    assert_eq!(KeyDesc::parse("["), None);
    assert_eq!(KeyDesc::parse("[]"), None);
    assert_eq!(KeyDesc::parse("[nosuch]"), None);
    assert_eq!(KeyDesc::parse("Up"), None);
}

#[test]
fn from_name_is_lowercase_only() {
    assert_eq!(Key::from_name("up"), Some(Key::Up));
    assert_eq!(Key::from_name("UP"), None);
    assert_eq!(Key::from_name("4"), Some(Key::Four));
    assert_eq!(Key::from_name("five"), None);
}

#[test]
fn builders_set_representation_and_modifiers() {
    let d = KeyDesc::new(Key::Space);
    assert_eq!(d.keytype, Keytype::Keycode);
    assert_eq!(d.mods, Mods(0));

    let s = d.scancode();
    assert_eq!(s.keytype, Keytype::Scancode);
    assert_eq!(s.key, Key::Space);

    let m = d.mods(Mods(3));
    assert_eq!(m.mods, Mods(3));
    assert_eq!(m.keytype, Keytype::Keycode);
}

#[test]
fn descriptors_compare_structurally() {
    assert_eq!(KeyDesc::new(Key::Up), KeyDesc::new(Key::Up));
    assert_ne!(KeyDesc::new(Key::Up), KeyDesc::new(Key::Up).scancode());
    assert_ne!(KeyDesc::new(Key::Up), KeyDesc::new(Key::Up).mods(Mods(1)));
    assert_ne!(KeyDesc::new(Key::Other(5)), KeyDesc::new(Key::Other(6)));
    assert_eq!(KeyDesc::new(Key::Other(5)), KeyDesc::new(Key::Other(5)));
}
