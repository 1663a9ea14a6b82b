use vstd::prelude::*;
use crate::element::Color;

verus! {

/// A color of sixteen bits per channel in eight bits per channel: each channel
/// divided by 256. A point without color is black.
pub open spec fn flattened_color(color: Option<(u16, u16, u16)>) -> Color {
    match color {
        Some(deep) => ((deep.0 / 256) as u8, (deep.1 / 256) as u8, (deep.2 / 256) as u8),
        None => (0u8, 0u8, 0u8),
    }
}

/// The color of a point of a laser scan, in eight bits per channel.
pub fn flatten_color(color: Option<(u16, u16, u16)>) -> (flat: Color)
    ensures
        flat == flattened_color(color),
{
    match color {
        Some(deep) => ((deep.0 / 256) as u8, (deep.1 / 256) as u8, (deep.2 / 256) as u8),
        None => (0, 0, 0),
    }
}

} // verus!
