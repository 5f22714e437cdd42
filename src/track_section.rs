//! Plain parts of the track section schema.

use vstd::prelude::*;

verus! {

/// Operator-specific extensions of a track section.
#[derive(Debug, Clone, PartialEq, Eq)]
pub struct TrackSectionExtensions {
    pub sncf: Option<TrackSectionSncfExtension>,
}

impl Default for TrackSectionExtensions {
    fn default() -> (r: TrackSectionExtensions)
        ensures
            r.sncf is None,
    {
        TrackSectionExtensions { sncf: None }
    }
}

/// The SNCF line and track a section belongs to.
#[derive(Debug, Clone, PartialEq, Eq)]
pub struct TrackSectionSncfExtension {
    pub line_code: i32,
    pub line_name: String,
    pub track_number: i32,
    pub track_name: String,
}

impl Default for TrackSectionSncfExtension {
    fn default() -> (r: TrackSectionSncfExtension)
        ensures
            r.line_code == 0 && r.track_number == 0,
            r.line_name@ == "line_test"@,
            r.track_name@ == "track_test"@,
    {
        TrackSectionSncfExtension {
            line_code: 0,
            line_name: String::from_str("line_test"),
            track_number: 0,
            track_name: String::from_str("track_test"),
        }
    }
}

/// Loading gauge categories.
#[derive(Debug, Clone, Copy, PartialEq, Eq, Structural)]
pub enum LoadingGaugeType {
    G1,
    G2,
    GA,
    GB,
    GB1,
    GC,
    Fr3_3,
    Fr3_3GbG2,
    Glott,
}

} // verus!
