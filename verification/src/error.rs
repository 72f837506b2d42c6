//! Error type for photogrammetry operations.

use vstd::prelude::*;
use crate::text::push_str_chars;

verus! {

/// Errors that can occur during photogrammetry processing.
///
/// The raster and I/O variants carry the rendered message of the underlying
/// raster or operating-system error.
#[derive(Debug, Clone)]
pub enum PhotogrammetryError {
    /// The image set directory does not exist or cannot be read.
    ImageSet(String),
    /// Feature detection or matching failed.
    FeatureMatching(String),
    /// Camera alignment (bundle adjustment) failed.
    Alignment(String),
    /// Dense surface reconstruction failed.
    DenseReconstruction(String),
    /// Orthomosaic generation failed.
    Orthomosaic(String),
    /// Raster I/O error.
    Raster(String),
    /// Sensor-bundle discovery or parsing failed.
    Bundle(String),
    /// Generic I/O error.
    Io(String),
    /// A processing stage is not yet implemented.
    NotImplemented(String),
}

/// The words that open the rendered message of each kind of error.
pub open spec fn error_prefix(e: PhotogrammetryError) -> Seq<char> {
    match e {
        PhotogrammetryError::ImageSet(_) => "image set error: "@,
        PhotogrammetryError::FeatureMatching(_) => "feature matching error: "@,
        PhotogrammetryError::Alignment(_) => "camera alignment error: "@,
        PhotogrammetryError::DenseReconstruction(_) => "dense reconstruction error: "@,
        PhotogrammetryError::Orthomosaic(_) => "orthomosaic error: "@,
        PhotogrammetryError::Raster(_) => "raster I/O error: "@,
        PhotogrammetryError::Bundle(_) => "bundle error: "@,
        PhotogrammetryError::Io(_) => "I/O error: "@,
        PhotogrammetryError::NotImplemented(_) => "not implemented: "@,
    }
}

/// The detail text that an error carries.
pub open spec fn error_detail(e: PhotogrammetryError) -> Seq<char> {
    match e {
        PhotogrammetryError::ImageSet(m) => m@,
        PhotogrammetryError::FeatureMatching(m) => m@,
        PhotogrammetryError::Alignment(m) => m@,
        PhotogrammetryError::DenseReconstruction(m) => m@,
        PhotogrammetryError::Orthomosaic(m) => m@,
        PhotogrammetryError::Raster(m) => m@,
        PhotogrammetryError::Bundle(m) => m@,
        PhotogrammetryError::Io(m) => m@,
        PhotogrammetryError::NotImplemented(m) => m@,
    }
}

impl PhotogrammetryError {
    /// The detail text of this error.
    pub fn detail(&self) -> (r: &String)
        ensures
            r@ == error_detail(*self),
    {
        match self {
            PhotogrammetryError::ImageSet(m) => m,
            PhotogrammetryError::FeatureMatching(m) => m,
            PhotogrammetryError::Alignment(m) => m,
            PhotogrammetryError::DenseReconstruction(m) => m,
            PhotogrammetryError::Orthomosaic(m) => m,
            PhotogrammetryError::Raster(m) => m,
            PhotogrammetryError::Bundle(m) => m,
            PhotogrammetryError::Io(m) => m,
            PhotogrammetryError::NotImplemented(m) => m,
        }
    }

    /// The rendered message: the kind's opening words, then the detail.
    pub fn message(&self) -> (r: String)
        ensures
            r@ == error_prefix(*self) + error_detail(*self),
    {
        let prefix: &str = match self {
            PhotogrammetryError::ImageSet(_) => "image set error: ",
            PhotogrammetryError::FeatureMatching(_) => "feature matching error: ",
            PhotogrammetryError::Alignment(_) => "camera alignment error: ",
            PhotogrammetryError::DenseReconstruction(_) => "dense reconstruction error: ",
            PhotogrammetryError::Orthomosaic(_) => "orthomosaic error: ",
            PhotogrammetryError::Raster(_) => "raster I/O error: ",
            PhotogrammetryError::Bundle(_) => "bundle error: ",
            PhotogrammetryError::Io(_) => "I/O error: ",
            PhotogrammetryError::NotImplemented(_) => "not implemented: ",
        };
        let mut r = String::new();
        push_str_chars(&mut r, prefix);
        push_str_chars(&mut r, self.detail().as_str());
        r
    }
}

} // verus!
