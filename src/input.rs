use vstd::prelude::*;
use vstd::string::StrSliceExecFns;

verus! {

/// A mouse button as the browser reports it.
#[derive(Debug, Clone, Copy, PartialEq, Eq, Structural)]
pub enum DomButton {
    Left,
    Right,
    Wheel,
    Button4,
    Button5,
}

/// A mouse button as the application sees it.
#[derive(Debug, Clone, Copy, PartialEq, Eq, Structural)]
pub enum Button {
    Left,
    Right,
    Middle,
    /// An extra button, numbered from zero.
    Auxiliary(u8),
}

/// The application's name for a button the browser reports.
pub fn map_button(b: DomButton) -> (r: Button)
    ensures
        r == match b {
            DomButton::Left => Button::Left,
            DomButton::Right => Button::Right,
            DomButton::Wheel => Button::Middle,
            DomButton::Button4 => Button::Auxiliary(0),
            DomButton::Button5 => Button::Auxiliary(1),
        },
{
    match b {
        DomButton::Left => Button::Left,
        DomButton::Right => Button::Right,
        DomButton::Wheel => Button::Middle,
        DomButton::Button4 => Button::Auxiliary(0),
        DomButton::Button5 => Button::Auxiliary(1),
    }
}

/// The character a key press types: a key value of a single byte stands for itself; any
/// longer value names a key that types nothing.
pub fn printable(key: &str) -> (r: Option<char>)
    ensures
        r == if key.len() == 1 {
            Some(key@[0])
        } else {
            None::<char>
        },
{
    if key.len() == 1 {
        assert(key@.len() > 0);
        Some(key.get_char(0))
    } else {
        None
    }
}

} // verus!
