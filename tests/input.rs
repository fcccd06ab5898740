use vessels::input::{map_button, printable, Button, DomButton};

#[test]
fn browser_buttons_map_to_application_buttons() {
    assert_eq!(map_button(DomButton::Left), Button::Left);
    assert_eq!(map_button(DomButton::Right), Button::Right);
    assert_eq!(map_button(DomButton::Wheel), Button::Middle);
    assert_eq!(map_button(DomButton::Button4), Button::Auxiliary(0));
    assert_eq!(map_button(DomButton::Button5), Button::Auxiliary(1));
}

#[test]
fn single_byte_keys_are_printable() {
    assert_eq!(printable("a"), Some('a'));
    assert_eq!(printable(" "), Some(' '));
    assert_eq!(printable("Enter"), None);
    assert_eq!(printable(""), None);
    assert_eq!(printable("é"), None);
}
