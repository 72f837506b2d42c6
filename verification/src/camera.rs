//! Camera model types.

use vstd::prelude::*;
use crate::text::str_eq;

verus! {

/// Camera projection model.
#[derive(Debug, Clone, Copy, PartialEq, Eq, Structural)]
pub enum CameraModel {
    /// Automatically select based on image metadata (default).
    Auto,
    /// Standard rectilinear (pinhole) model.
    Pinhole,
    /// Fisheye / equidistant projection model.
    Fisheye,
}

/// The argument spelling of each camera model.
pub open spec fn camera_model_name(m: CameraModel) -> Seq<char> {
    match m {
        CameraModel::Auto => "auto"@,
        CameraModel::Pinhole => "pinhole"@,
        CameraModel::Fisheye => "fisheye"@,
    }
}

impl CameraModel {
    /// Parse from a string arg value ("auto", "pinhole", "fisheye").
    pub fn from_str(s: &str) -> (r: Option<CameraModel>)
        ensures
            r == (if s@ == "auto"@ {
                Some(CameraModel::Auto)
            } else if s@ == "pinhole"@ {
                Some(CameraModel::Pinhole)
            } else if s@ == "fisheye"@ {
                Some(CameraModel::Fisheye)
            } else {
                None::<CameraModel>
            }),
    {
        if str_eq(s, "auto") {
            Some(CameraModel::Auto)
        } else if str_eq(s, "pinhole") {
            Some(CameraModel::Pinhole)
        } else if str_eq(s, "fisheye") {
            Some(CameraModel::Fisheye)
        } else {
            None
        }
    }

    /// The argument spelling of this model.
    pub fn as_str(self) -> (r: &'static str)
        ensures
            r@ == camera_model_name(self),
    {
        match self {
            CameraModel::Auto => "auto",
            CameraModel::Pinhole => "pinhole",
            CameraModel::Fisheye => "fisheye",
        }
    }
}

impl Default for CameraModel {
    fn default() -> (r: CameraModel)
        ensures
            r == CameraModel::Auto,
    {
        CameraModel::Auto
    }
}

/// Printing a model's name and parsing it back gives the same model.
pub proof fn lemma_camera_model_name_round_trip(m: CameraModel)
    ensures
        (if camera_model_name(m) == "auto"@ {
            Some(CameraModel::Auto)
        } else if camera_model_name(m) == "pinhole"@ {
            Some(CameraModel::Pinhole)
        } else if camera_model_name(m) == "fisheye"@ {
            Some(CameraModel::Fisheye)
        } else {
            None::<CameraModel>
        }) == Some(m),
{
    reveal_strlit("auto");
    reveal_strlit("pinhole");
    reveal_strlit("fisheye");
    assert("auto"@.len() != "pinhole"@.len());
    assert("auto"@.len() != "fisheye"@.len());
    assert("pinhole"@[0] != "fisheye"@[0]);
}

} // verus!
