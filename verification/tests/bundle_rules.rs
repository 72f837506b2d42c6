use wbphotogrammetry::bundle::{
    combine_landsat_datetime, find_layer_path, mission_band_mapping, DimapBundleProvider,
    DimapScene, LandsatBundleProvider, LandsatMission, LandsatScene, LayerEntry,
    Sentinel2SafeBundleProvider, Sentinel2Scene, SensorBundleFamily,
};
use wbphotogrammetry::error::PhotogrammetryError;

fn layer(key: &str, path: &str) -> LayerEntry {
    LayerEntry { key: key.to_string(), path: path.to_string() }
}

fn landsat_scene(mission: LandsatMission, bands: &[&str]) -> LandsatScene {
    LandsatScene {
        mission,
        bands: bands
            .iter()
            .map(|b| layer(b, &format!("/scene/SCENE_SR_{b}.TIF")))
            .collect(),
        qa_layers: vec![layer("QA_PIXEL", "/scene/SCENE_QA_PIXEL.TIF")],
        acquisition_date_utc: Some("2024-02-02".to_string()),
        scene_center_time_utc: Some("16:42:31.1234560Z".to_string()),
    }
}

#[test]
fn landsat9_scene_resolves_oli_band_set() {
    let scene = landsat_scene(LandsatMission::Landsat9, &["B2", "B3", "B4", "B5"]);
    let resolved = LandsatBundleProvider.resolve_scene("/scene", &scene).expect("resolve");
    assert_eq!(resolved.sensor_name, "landsat");
    assert!(resolved.red_path.as_deref().unwrap_or_default().contains("_B4.TIF"));
    assert!(resolved.nir_path.as_deref().unwrap_or_default().contains("_B5.TIF"));
    assert!(resolved.green_path.as_deref().unwrap_or_default().contains("_B3.TIF"));
    assert!(resolved.blue_path.as_deref().unwrap_or_default().contains("_B2.TIF"));
    assert!(resolved.qa_qa60_path.as_deref().unwrap_or_default().contains("QA_PIXEL"));
    assert_eq!(resolved.qa_scl_path, None);
    assert_eq!(
        resolved.acquisition_datetime_utc.as_deref(),
        Some("2024-02-02T16:42:31.1234560Z")
    );
}

#[test]
fn landsat7_scene_resolves_tm_band_set() {
    let scene = landsat_scene(LandsatMission::Landsat7, &["B1", "B2", "B3", "B4"]);
    let resolved = LandsatBundleProvider.resolve_scene("/scene", &scene).expect("resolve");
    assert!(resolved.red_path.as_deref().unwrap_or_default().contains("_B3.TIF"));
    assert!(resolved.nir_path.as_deref().unwrap_or_default().contains("_B4.TIF"));
    assert!(resolved.green_path.as_deref().unwrap_or_default().contains("_B2.TIF"));
    assert!(resolved.blue_path.as_deref().unwrap_or_default().contains("_B1.TIF"));
}

#[test]
fn unknown_landsat_mission_is_inferred_from_bands() {
    let oli = landsat_scene(LandsatMission::Unknown, &["B2", "B3", "B4", "B5"]);
    assert_eq!(mission_band_mapping(&oli), ("B4", "B5", "B3", "B2"));
    let tm = landsat_scene(LandsatMission::Unknown, &["B1", "B2", "B3", "B4"]);
    assert_eq!(mission_band_mapping(&tm), ("B3", "B4", "B2", "B1"));
    let l8 = landsat_scene(LandsatMission::Landsat8, &[]);
    assert_eq!(mission_band_mapping(&l8), ("B4", "B5", "B3", "B2"));
}

#[test]
fn landsat_without_required_bands_is_refused() {
    let scene = landsat_scene(LandsatMission::Landsat8, &["B2", "B3", "B4"]);
    match LandsatBundleProvider.resolve_scene("/scene", &scene) {
        Err(PhotogrammetryError::Bundle(m)) => assert_eq!(
            m,
            "Landsat bundle '/scene' does not contain required optical bands (expected red='B4', nir='B5')"
        ),
        other => panic!("unexpected: {:?}", other),
    }
}

#[test]
fn landsat_qa_falls_back_to_bqa() {
    let mut scene = landsat_scene(LandsatMission::Landsat5, &["B3", "B4"]);
    scene.qa_layers = vec![layer("BQA", "/scene/BQA.TIF")];
    let resolved = LandsatBundleProvider.resolve_scene("/scene", &scene).expect("resolve");
    assert_eq!(resolved.qa_qa60_path.as_deref(), Some("/scene/BQA.TIF"));
    assert_eq!(resolved.green_path, None);
}

#[test]
fn providers_check_the_detected_family() {
    assert!(LandsatBundleProvider.accept_family("/x", SensorBundleFamily::Landsat).is_ok());
    match LandsatBundleProvider.accept_family("/x", SensorBundleFamily::Dimap) {
        Err(PhotogrammetryError::Bundle(m)) => assert_eq!(
            m,
            "bundle '/x' is not a Landsat optical package (detected: Dimap)"
        ),
        other => panic!("unexpected: {:?}", other),
    }
    match DimapBundleProvider.accept_family("/y", SensorBundleFamily::Unknown) {
        Err(PhotogrammetryError::Bundle(m)) => assert_eq!(
            m,
            "bundle '/y' is not a DIMAP optical package (detected: Unknown)"
        ),
        other => panic!("unexpected: {:?}", other),
    }
    match Sentinel2SafeBundleProvider.accept_family("/z", SensorBundleFamily::Sentinel1Safe) {
        Err(PhotogrammetryError::Bundle(m)) => assert_eq!(
            m,
            "bundle '/z' is not a Sentinel-2 optical SAFE package (detected: Sentinel1Safe)"
        ),
        other => panic!("unexpected: {:?}", other),
    }
    assert!(Sentinel2SafeBundleProvider
        .accept_family("/z", SensorBundleFamily::Sentinel2Safe)
        .is_ok());
}

#[test]
fn providers_recognise_their_directories() {
    let names = |v: &[&str]| v.iter().map(|s| s.to_string()).collect::<Vec<_>>();
    assert!(LandsatBundleProvider.can_handle_file_names(&names(&["readme", "scene_mtl.txt"])));
    assert!(!LandsatBundleProvider.can_handle_file_names(&names(&["scene_mtl.txt.bak", "b4.tif"])));
    assert!(DimapBundleProvider.can_handle_file_names(&names(&["DIM_SPOT7_MS_001.XML"])));
    assert!(DimapBundleProvider.can_handle_file_names(&names(&["dim_x.xml"])));
    assert!(!DimapBundleProvider.can_handle_file_names(&names(&["IMG_DIM_X.XML", "DIM_X.JP2"])));
    assert!(!DimapBundleProvider.can_handle_file_names(&Vec::new()));
    assert!(Sentinel2SafeBundleProvider.can_handle_root_name("S2A_MSIL2A_2024.SAFE"));
    assert!(Sentinel2SafeBundleProvider.can_handle_root_name("s2b.safe"));
    assert!(!Sentinel2SafeBundleProvider.can_handle_root_name("S2A_MSIL2A"));
    assert_eq!(LandsatBundleProvider.sensor_name(), "landsat");
    assert_eq!(DimapBundleProvider.sensor_name(), "dimap");
    assert_eq!(Sentinel2SafeBundleProvider.sensor_name(), "sentinel2_safe");
}

#[test]
fn dimap_scene_resolves_multispectral_core_bands() {
    let scene = DimapScene {
        bands: vec![
            layer("B1", "/d/IMG_XS1.JP2"),
            layer("B2", "/d/IMG_XS2.JP2"),
            layer("B3", "/d/IMG_XS3.JP2"),
            layer("B4", "/d/IMG_XS4.JP2"),
        ],
        acquisition_datetime_utc: Some("2026-04-01T10:11:12.000".to_string()),
    };
    let resolved = DimapBundleProvider.resolve_scene("/d", &scene).expect("resolve");
    assert_eq!(resolved.sensor_name, "dimap");
    assert!(resolved.red_path.as_deref().unwrap_or_default().contains("XS3"));
    assert!(resolved.nir_path.as_deref().unwrap_or_default().contains("XS4"));
    assert!(resolved.green_path.as_deref().unwrap_or_default().contains("XS2"));
    assert!(resolved.blue_path.as_deref().unwrap_or_default().contains("XS1"));
    assert_eq!(resolved.qa_qa60_path, None);
    assert_eq!(
        resolved.acquisition_datetime_utc.as_deref(),
        Some("2026-04-01T10:11:12.000")
    );
}

#[test]
fn dimap_blue_falls_back_to_b0_and_red_nir_are_required() {
    let scene = DimapScene {
        bands: vec![layer("B0", "/d/b0"), layer("B3", "/d/b3"), layer("B4", "/d/b4")],
        acquisition_datetime_utc: None,
    };
    let resolved = DimapBundleProvider.resolve_scene("/d", &scene).expect("resolve");
    assert_eq!(resolved.blue_path.as_deref(), Some("/d/b0"));
    let missing = DimapScene { bands: vec![layer("B3", "/d/b3")], acquisition_datetime_utc: None };
    match DimapBundleProvider.resolve_scene("/d", &missing) {
        Err(PhotogrammetryError::Bundle(m)) => assert_eq!(
            m,
            "DIMAP bundle '/d' does not contain required multispectral bands (expected red='B3', nir='B4')"
        ),
        other => panic!("unexpected: {:?}", other),
    }
}

#[test]
fn sentinel2_scene_maps_bands_and_masks() {
    let scene = Sentinel2Scene {
        bands: vec![
            layer("B02", "/s/B02.jp2"),
            layer("B03", "/s/B03.jp2"),
            layer("B04", "/s/B04.jp2"),
            layer("B08", "/s/B08.jp2"),
        ],
        qa_layers: vec![layer("SCL", "/s/SCL.jp2")],
        acquisition_datetime_utc: Some("2024-05-01T10:00:00Z".to_string()),
    };
    let resolved = Sentinel2SafeBundleProvider.resolve_scene(&scene);
    assert_eq!(resolved.sensor_name, "sentinel2_safe");
    assert_eq!(resolved.red_path.as_deref(), Some("/s/B04.jp2"));
    assert_eq!(resolved.nir_path.as_deref(), Some("/s/B08.jp2"));
    assert_eq!(resolved.green_path.as_deref(), Some("/s/B03.jp2"));
    assert_eq!(resolved.blue_path.as_deref(), Some("/s/B02.jp2"));
    assert_eq!(resolved.qa_scl_path.as_deref(), Some("/s/SCL.jp2"));
    assert_eq!(resolved.qa_qa60_path, None);
    assert_eq!(resolved.acquisition_datetime_utc.as_deref(), Some("2024-05-01T10:00:00Z"));
}

#[test]
fn layer_lookup_upper_cases_the_key() {
    let layers = vec![layer("B4", "/a"), layer("B4", "/b"), layer("QA60", "/q")];
    assert_eq!(find_layer_path(&layers, "b4").as_deref(), Some("/a"));
    assert_eq!(find_layer_path(&layers, "qa60").as_deref(), Some("/q"));
    assert_eq!(find_layer_path(&layers, "B5"), None);
}

#[test]
fn landsat_datetime_combines_date_and_time() {
    assert_eq!(
        combine_landsat_datetime(Some("2024-02-02"), Some(" 16:42:31Z ")).as_deref(),
        Some("2024-02-02T16:42:31Z")
    );
    assert_eq!(
        combine_landsat_datetime(Some("2024-02-02"), Some("2024-02-02T01:02:03Z")).as_deref(),
        Some("2024-02-02T01:02:03Z")
    );
    assert_eq!(
        combine_landsat_datetime(Some("2024-02-02"), None).as_deref(),
        Some("2024-02-02T00:00:00Z")
    );
    assert_eq!(combine_landsat_datetime(None, Some("\t12:00:00Z")).as_deref(), Some("12:00:00Z"));
    assert_eq!(combine_landsat_datetime(None, None), None);
}
