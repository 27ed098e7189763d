//! Submarine headlights state: on/off toggle and its HUD label.

use vstd::prelude::*;

verus! {

/// Global toggle state for the headlights; on at startup so the world reads
/// as lit on the very first frame.
#[derive(Clone, Copy, Debug)]
pub struct Headlights {
    pub on: bool,
}

impl Default for Headlights {
    fn default() -> (h: Self)
        ensures
            h.on,
    {
        Headlights { on: true }
    }
}

/// Flip the headlights when the toggle key was just pressed.
pub fn toggle_headlights(headlights: &mut Headlights, pressed: bool)
    ensures
        final(headlights).on == (old(headlights).on != pressed),
{
    if pressed {
        headlights.on = !headlights.on;
    }
}

/// The HUD label for the headlights state.
pub fn headlights_label_text(on: bool) -> (s: String)
    ensures
        s@ == if on {
            "L: Headlights ON"@
        } else {
            "L: Headlights OFF"@
        },
{
    if on {
        "L: Headlights ON".to_owned()
    } else {
        "L: Headlights OFF".to_owned()
    }
}

} // verus!
