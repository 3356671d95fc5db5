//! Maps a rotation angle to the external encoder's filter expression.

use vstd::prelude::*;

verus! {

/// The filter expression requested for each rotation angle: a single
/// clockwise transpose for 90 degrees, two composed transposes for 180
/// degrees, a single counter-clockwise transpose for 270 degrees, and no
/// transform at all for 0 or for any unrecognized angle.
pub open spec fn rotation_filter_spec(rotation: u32) -> Option<Seq<char>> {
    if rotation == 90 {
        Some("transpose=1"@)
    } else if rotation == 180 {
        Some("transpose=1,transpose=1"@)
    } else if rotation == 270 {
        Some("transpose=2"@)
    } else {
        None
    }
}

/// Resolves a rotation angle to an optional encoder filter expression.
/// Unrecognized angles resolve to no transform rather than an error, so the
/// resolver is total.
pub fn get_rotation_filter(rotation: u32) -> (r: Option<String>)
    ensures
        r.deep_view() == rotation_filter_spec(rotation),
{
    match rotation {
        90 => Some("transpose=1".to_owned()),
        180 => Some("transpose=1,transpose=1".to_owned()),
        270 => Some("transpose=2".to_owned()),
        _ => None,
    }
}

} // verus!
