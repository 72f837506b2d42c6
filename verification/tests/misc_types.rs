use wbphotogrammetry::camera::CameraModel;
use wbphotogrammetry::error::PhotogrammetryError;

#[test]
fn camera_model_names_parse_exactly() {
    assert_eq!(CameraModel::from_str("auto"), Some(CameraModel::Auto));
    assert_eq!(CameraModel::from_str("pinhole"), Some(CameraModel::Pinhole));
    assert_eq!(CameraModel::from_str("fisheye"), Some(CameraModel::Fisheye));
    assert_eq!(CameraModel::from_str("Pinhole"), None);
    assert_eq!(CameraModel::from_str(""), None);
    for m in [CameraModel::Auto, CameraModel::Pinhole, CameraModel::Fisheye] {
        assert_eq!(CameraModel::from_str(m.as_str()), Some(m));
    }
    assert_eq!(CameraModel::default(), CameraModel::Auto);
}

#[test]
fn error_messages_name_their_stage() {
    let e = PhotogrammetryError::Bundle("missing bands".to_string());
    assert_eq!(e.message(), "bundle error: missing bands");
    assert_eq!(e.detail(), "missing bands");
    assert_eq!(
        PhotogrammetryError::NotImplemented("x".to_string()).message(),
        "not implemented: x"
    );
    assert_eq!(
        PhotogrammetryError::Alignment("too few".to_string()).message(),
        "camera alignment error: too few"
    );
}
