use helium::colors::Color;
use helium::events::Key;
use helium::events::NamedKey;
use helium::widgets::text_field::TextField;

#[test]
fn does_not_update_when_not_focused() {
    let mut text_field = TextField::new();

    let keys = [
        Key::Character(String::from("H")),
        Key::Character(String::from("!")),
        Key::Character(String::from("!")),
    ];

    for key in keys {
        text_field.process_key(&key);
    }

    assert_eq!(text_field.text, "");
}

#[test]
fn text_updates_on_key_input() {
    let mut text_field = TextField::new();
    text_field.focused = true;

    let keys = [
        Key::Character(String::from("H")),
        Key::Character(String::from("i")),
        Key::Character(String::from(" ")),
        Key::Character(String::from("m")),
        Key::Character(String::from("o")),
        Key::Character(String::from("m")),
        Key::Character(String::from("!")),
    ];

    for key in keys {
        text_field.process_key(&key);
    }

    assert_eq!(text_field.text, "Hi mom!");
}

#[test]
fn backspace_deletes_text() {
    let mut text_field = TextField::new();
    text_field.text = String::from("Hello");
    text_field.focused = true;

    let keys = [Key::Named(NamedKey::Backspace), Key::Named(NamedKey::Backspace)];

    for key in keys {
        text_field.process_key(&key);
    }

    assert_eq!(text_field.text, "Hel");
}

#[test]
fn space_key_adds_space() {
    let mut text_field = TextField::new();
    text_field.text = String::from("Hello");
    text_field.focused = true;

    let keys = [Key::Named(NamedKey::Backspace), Key::Named(NamedKey::Space)];

    for key in keys {
        text_field.process_key(&key);
    }

    assert_eq!(text_field.text, "Hell ");
}

#[test]
fn backspace_on_empty_text_is_harmless() {
    let mut text_field = TextField::new();
    text_field.focused = true;
    text_field.process_key(&Key::Named(NamedKey::Backspace));
    assert_eq!(text_field.text, "");
}

#[test]
fn other_named_keys_leave_text_alone() {
    let mut text_field = TextField::new();
    text_field.text = String::from("Hi");
    text_field.focused = true;
    text_field.process_key(&Key::Named(NamedKey::Enter));
    assert_eq!(text_field.text, "Hi");
}

#[test]
fn new_field_has_fresh_id_and_defaults() {
    let field = TextField::new();
    // The generated identity is always 21 characters from nanoid's
    // URL-safe alphabet.
    assert_eq!(field.id.len(), 21);
    assert!(field.id.chars().all(|c| c.is_ascii_alphanumeric() || c == '_' || c == '-'));
    assert!(!field.focused);
    assert_eq!(field.text, "");
    assert_eq!(field.background_color, Color::Rgb(245, 245, 245));
    assert_eq!(field.focus_background_color, Color::Rgb(229, 229, 229));
    assert_eq!(field.corner_radius, 0);
}

#[test]
fn click_focuses_and_unfocus_clears() {
    let mut field = TextField::new();
    field.click();
    assert!(field.focused);
    field.unfocus();
    assert!(!field.focused);
}

#[test]
fn builders_set_fields() {
    let field = TextField::new()
        .corner_radius(8)
        .background_color(Color::Rgb(1, 2, 3))
        .focus_background_color(Color::Rgb(4, 5, 6));
    assert_eq!(field.corner_radius, 8);
    assert_eq!(field.background_color, Color::Rgb(1, 2, 3));
    assert_eq!(field.focus_background_color, Color::Rgb(4, 5, 6));
}

#[test]
fn layout_node_carries_field_id() {
    let field = TextField::new();
    let node = field.layout();
    assert_eq!(node.id, field.id);
    assert_eq!(node.size.width, 0);
    assert_eq!(node.size.height, 0);
}
