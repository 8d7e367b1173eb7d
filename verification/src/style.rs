//! The background colours of track rows and cards, as premultiplied RGBA.
use vstd::prelude::*;
use crate::library::App;

verus! {

/// The background of a track row: highlighted for the track being played,
/// lighter under the pointer, transparent otherwise.
pub open spec fn row_fill(is_current: bool, is_hovered: bool) -> (u8, u8, u8, u8) {
    if is_current {
        (30, 30, 38, 255)
    } else if is_hovered {
        (26, 26, 31, 255)
    } else {
        (0, 0, 0, 0)
    }
}

/// The background of an artist or album card: highlighted when its tracks
/// are unfolded, lighter under the pointer, the surface colour otherwise.
pub open spec fn card_background(selected: bool, hovered: bool) -> (u8, u8, u8, u8) {
    if selected {
        (46, 46, 58, 255)
    } else if hovered {
        (38, 38, 44, 255)
    } else {
        (32, 32, 32, 255)
    }
}

impl App {
    /// The background of a track row.
    pub fn track_row_fill(is_current: bool, is_hovered: bool) -> (c: (u8, u8, u8, u8))
        ensures
            c == row_fill(is_current, is_hovered),
    {
        if is_current {
            (30, 30, 38, 255)
        } else if is_hovered {
            (26, 26, 31, 255)
        } else {
            (0, 0, 0, 0)
        }
    }

    /// The background of an artist or album card.
    pub fn card_fill(selected: bool, hovered: bool) -> (c: (u8, u8, u8, u8))
        ensures
            c == card_background(selected, hovered),
    {
        if selected {
            (46, 46, 58, 255)
        } else if hovered {
            (38, 38, 44, 255)
        } else {
            (32, 32, 32, 255)
        }
    }
}

} // verus!
