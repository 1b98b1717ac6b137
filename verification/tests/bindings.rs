use otty_surface::mode::SurfaceMode;
use otty_surface::ui::bindings::{
    function_key_bytes, BindingAction, Keystroke, Modifiers, TerminalBinding, TerminalBindings,
};

fn key(value: &str, modifiers: Modifiers) -> Keystroke {
    Keystroke { key: value.to_string(), key_char: None, modifiers }
}

fn app_cursor() -> SurfaceMode {
    SurfaceMode::new(SurfaceMode::APP_CURSOR)
}

#[test]
fn resolves_default_navigation_for_normal_and_application_cursor_modes() {
    let bindings = TerminalBindings::default();

    assert_eq!(
        bindings.resolve(&key("up", Modifiers::default()), SurfaceMode::empty()),
        Some(&BindingAction::Bytes(b"\x1b[A".to_vec()))
    );
    assert_eq!(
        bindings.resolve(&key("up", Modifiers::default()), app_cursor()),
        Some(&BindingAction::Bytes(b"\x1bOA".to_vec()))
    );
}

#[test]
fn replacing_an_exact_binding_preserves_lookup_order() {
    let mut bindings = TerminalBindings::default();
    let before = bindings.entries().len();
    let custom = TerminalBinding::new(
        key("up", Modifiers::default()),
        SurfaceMode::empty(),
        app_cursor(),
        BindingAction::Bytes(b"custom".to_vec()),
    );

    bindings.add(custom);

    assert_eq!(
        bindings.resolve(&key("up", Modifiers::default()), SurfaceMode::empty()),
        Some(&BindingAction::Bytes(b"custom".to_vec()))
    );
    assert_eq!(bindings.entries().len(), before);
}

#[test]
fn encodes_control_character_and_printable_text_once() {
    let bindings = TerminalBindings::default();
    let ctrl = Modifiers { control: true, ..Modifiers::default() };

    assert_eq!(
        bindings.resolve(&key("c", ctrl), SurfaceMode::empty()),
        Some(&BindingAction::Bytes(vec![0x03]))
    );
    assert_eq!(
        bindings.bytes_for_printable(&key("é", Modifiers::default())),
        Some("é".as_bytes())
    );
}

#[test]
fn printable_bytes_prefer_typed_text_and_reject_command_modifiers() {
    let bindings = TerminalBindings::new();
    let typed = Keystroke {
        key: "a".to_string(),
        key_char: Some("A".to_string()),
        modifiers: Modifiers { shift: true, ..Modifiers::default() },
    };

    assert_eq!(bindings.bytes_for_printable(&typed), Some("A".as_bytes()));
    assert_eq!(
        bindings.bytes_for_printable(&key("a", Modifiers { alt: true, ..Modifiers::default() })),
        None
    );
    assert_eq!(bindings.bytes_for_printable(&key("", Modifiers::default())), None);
}

#[test]
fn default_table_covers_function_and_control_keys() {
    let bindings = TerminalBindings::default();
    let ctrl = Modifiers { control: true, ..Modifiers::default() };

    assert_eq!(bindings.entries().len(), 66);
    assert_eq!(
        bindings.resolve(&key("f5", Modifiers::default()), app_cursor()),
        Some(&BindingAction::Bytes(b"\x1b[15~".to_vec()))
    );
    assert_eq!(
        bindings.resolve(&key("f20", Modifiers::default()), SurfaceMode::empty()),
        Some(&BindingAction::Bytes(b"\x1b[34~".to_vec()))
    );
    assert_eq!(
        bindings.resolve(&key("z", ctrl), SurfaceMode::empty()),
        Some(&BindingAction::Bytes(vec![26]))
    );
    assert_eq!(
        bindings.resolve(&key("enter", Modifiers::default()), app_cursor()),
        None
    );
    assert_eq!(function_key_bytes(1), b"\x1bOP".to_vec());
    assert_eq!(function_key_bytes(99), b"\x1b[34~".to_vec());
}

#[test]
fn add_many_applies_bindings_in_order() {
    let mut bindings = TerminalBindings::new();
    let first = TerminalBinding::new(
        key("x", Modifiers::default()),
        SurfaceMode::empty(),
        SurfaceMode::empty(),
        BindingAction::Copy,
    );
    let second = TerminalBinding::new(
        key("x", Modifiers::default()),
        SurfaceMode::empty(),
        SurfaceMode::empty(),
        BindingAction::Paste,
    );
    let other = TerminalBinding::new(
        key("y", Modifiers::default()),
        SurfaceMode::empty(),
        SurfaceMode::empty(),
        BindingAction::Ignore,
    );

    bindings.add_many(vec![first, other, second]);

    assert_eq!(bindings.entries().len(), 2);
    assert_eq!(
        bindings.resolve(&key("x", Modifiers::default()), SurfaceMode::empty()),
        Some(&BindingAction::Paste)
    );
    assert_eq!(bindings.entries()[1].action(), &BindingAction::Ignore);
}
