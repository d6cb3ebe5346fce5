//! Detection of a Flatpak sandbox.
use vstd::prelude::*;

verus! {

/// The environment variable that a Flatpak sandbox sets.
pub const FLATPAK_ID_VAR: &'static str = "FLATPAK_ID";

/// The marker file present at the root of a Flatpak sandbox.
pub const FLATPAK_INFO_PATH: &'static str = "/.flatpak-info";

/// Whether the process runs inside a Flatpak sandbox, given whether the
/// environment variable is set (to any value, the empty one included) and
/// whether the marker file exists.
pub fn is_flatpak(flatpak_id_set: bool, marker_exists: bool) -> (r: bool)
    ensures
        r == (flatpak_id_set || marker_exists),
{
    flatpak_id_set || marker_exists
}

} // verus!
