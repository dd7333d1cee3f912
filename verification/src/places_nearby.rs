use vstd::prelude::*;
use vstd::string::StringExecFns;

verus! {

/// Why a places nearby request cannot be answered
#[derive(Debug, Clone)]
pub enum BadPlacesNearby {
    InvalidEntryPoint(String),
    InvalidPtObject(String),
    InvalidFormatCoord(String),
    InvalidRangeCoord(String),
}

/// The message of an error on a places nearby request
pub open spec fn bad_places_nearby_text(error: BadPlacesNearby) -> Seq<char> {
    match error {
        BadPlacesNearby::InvalidEntryPoint(uri) => "Unable to parse entrypoint : "@ + uri@,
        BadPlacesNearby::InvalidPtObject(uri) => "Invalid/Unknown pt_object : "@ + uri@,
        BadPlacesNearby::InvalidFormatCoord(uri) => "Unable to parse "@ + uri@
            + " as a coord. Expected format is (double:double)"@,
        BadPlacesNearby::InvalidRangeCoord(uri) => "Invalid coord : "@ + uri@
            + ". Coordinates must be between [-90;90] for latitude and [-180;180] for longitude"@,
    }
}

impl BadPlacesNearby {
    /// The message of the error
    pub fn to_string(&self) -> (r: String)
        ensures
            r@ == bad_places_nearby_text(*self),
    {
        match self {
            BadPlacesNearby::InvalidEntryPoint(uri) => "Unable to parse entrypoint : ".to_owned().concat(
                uri.as_str(),
            ),
            BadPlacesNearby::InvalidPtObject(uri) => "Invalid/Unknown pt_object : ".to_owned().concat(
                uri.as_str(),
            ),
            BadPlacesNearby::InvalidFormatCoord(uri) => "Unable to parse ".to_owned().concat(
                uri.as_str(),
            ).concat(" as a coord. Expected format is (double:double)"),
            BadPlacesNearby::InvalidRangeCoord(uri) => "Invalid coord : ".to_owned().concat(
                uri.as_str(),
            ).concat(". Coordinates must be between [-90;90] for latitude and [-180;180] for longitude"),
        }
    }
}

} // verus!
