//! The events that the embedded UI toolkit consumes.

use vstd::prelude::*;
use crate::pointer::Interaction;

verus! {

/// A button of the pointing device.
#[derive(Clone, Copy, Debug, PartialEq, Eq)]
pub enum PointerButton {
    Primary,
    Secondary,
    Middle,
}

/// The modifier keys held while a pointer button changes state.
#[derive(Clone, Copy, Debug, PartialEq, Eq)]
pub struct Modifiers {
    pub alt: bool,
    pub ctrl: bool,
    pub shift: bool,
    pub mac_cmd: bool,
    pub command: bool,
}

impl Modifiers {
    /// No modifier key is held.
    pub open spec fn none_spec() -> Modifiers {
        Modifiers { alt: false, ctrl: false, shift: false, mac_cmd: false, command: false }
    }

    /// No modifier key is held.
    pub fn none() -> (m: Modifiers)
        ensures
            m == Modifiers::none_spec(),
    {
        Modifiers { alt: false, ctrl: false, shift: false, mac_cmd: false, command: false }
    }
}

/// One event on a surface's input queue, at a pixel position `P` measured
/// from the top-left corner of the surface's pixel buffer.
#[derive(Clone, Copy, Debug, PartialEq)]
pub enum SyntheticEvent<P> {
    /// The pointer moved to `pos`.
    PointerMoved { pos: P },
    /// A pointer button was pressed or released at `pos`.
    PointerButton { pos: P, button: PointerButton, pressed: bool, modifiers: Modifiers },
}

impl<P> SyntheticEvent<P> {
    /// The primary button going down (`pressed`) or up at `pos`, with no
    /// modifier key held.
    pub open spec fn primary_spec(pos: P, pressed: bool) -> SyntheticEvent<P> {
        SyntheticEvent::PointerButton {
            pos,
            button: PointerButton::Primary,
            pressed,
            modifiers: Modifiers::none_spec(),
        }
    }

    /// The position that the event carries.
    pub open spec fn pos_spec(self) -> P {
        match self {
            SyntheticEvent::PointerMoved { pos } => pos,
            SyntheticEvent::PointerButton { pos, .. } => pos,
        }
    }

    /// A pointer-moved event at `pos`.
    pub fn moved(pos: P) -> (e: SyntheticEvent<P>)
        ensures
            e == (SyntheticEvent::PointerMoved { pos }),
    {
        SyntheticEvent::PointerMoved { pos }
    }

    /// The primary button going down (`pressed`) or up at `pos`, with no
    /// modifier key held.
    pub fn primary(pos: P, pressed: bool) -> (e: SyntheticEvent<P>)
        ensures
            e == SyntheticEvent::primary_spec(pos, pressed),
    {
        SyntheticEvent::PointerButton {
            pos,
            button: PointerButton::Primary,
            pressed,
            modifiers: Modifiers::none(),
        }
    }
}

/// The events that stand for one interaction of `kind` at pixel position
/// `pos`: a move is one pointer-moved event; a click is the primary button
/// going down and then up, both at `pos` and with no modifier key held.
pub open spec fn synthesized<P>(kind: Interaction, pos: P) -> Seq<SyntheticEvent<P>> {
    match kind {
        Interaction::Move => seq![SyntheticEvent::PointerMoved { pos }],
        Interaction::Click => seq![
            SyntheticEvent::primary_spec(pos, true),
            SyntheticEvent::primary_spec(pos, false),
        ],
    }
}

} // verus!
