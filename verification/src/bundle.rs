//! Sensor-bundle resolution rules for optical remote-sensing scenes: which
//! directories each provider recognises, which band keys hold the red, NIR,
//! green and blue bands, and how the acquisition time is assembled.
//!
//! The providers work on the contents of an opened scene: its layer tables
//! (canonical key to file path) and its metadata strings.

use vstd::prelude::*;
use crate::error::PhotogrammetryError;
use crate::text::{
    ascii_upper_seq, chars_ascii_upper, chars_contain, chars_eq, chars_has_prefix,
    chars_has_suffix, has_prefix, has_suffix, opt_chars, opt_str_chars, push_str_chars, str_chars,
    string_from_chars, string_of, trim_chars, trimmed,
};

verus! {

/// Sensor bundle family, as detected from the files of a bundle.
#[derive(Debug, Clone, Copy, PartialEq, Eq, Structural)]
pub enum SensorBundleFamily {
    Sentinel1Safe,
    Sentinel2Safe,
    Landsat,
    Iceye,
    PlanetScope,
    Dimap,
    MaxarWorldView,
    Radarsat2,
    Rcm,
    Unknown,
}

/// The debug spelling of a family, as shown in error messages.
pub open spec fn family_name(f: SensorBundleFamily) -> Seq<char> {
    match f {
        SensorBundleFamily::Sentinel1Safe => "Sentinel1Safe"@,
        SensorBundleFamily::Sentinel2Safe => "Sentinel2Safe"@,
        SensorBundleFamily::Landsat => "Landsat"@,
        SensorBundleFamily::Iceye => "Iceye"@,
        SensorBundleFamily::PlanetScope => "PlanetScope"@,
        SensorBundleFamily::Dimap => "Dimap"@,
        SensorBundleFamily::MaxarWorldView => "MaxarWorldView"@,
        SensorBundleFamily::Radarsat2 => "Radarsat2"@,
        SensorBundleFamily::Rcm => "Rcm"@,
        SensorBundleFamily::Unknown => "Unknown"@,
    }
}

/// The debug spelling of a family.
pub fn family_debug_name(f: SensorBundleFamily) -> (r: &'static str)
    ensures
        r@ == family_name(f),
{
    match f {
        SensorBundleFamily::Sentinel1Safe => "Sentinel1Safe",
        SensorBundleFamily::Sentinel2Safe => "Sentinel2Safe",
        SensorBundleFamily::Landsat => "Landsat",
        SensorBundleFamily::Iceye => "Iceye",
        SensorBundleFamily::PlanetScope => "PlanetScope",
        SensorBundleFamily::Dimap => "Dimap",
        SensorBundleFamily::MaxarWorldView => "MaxarWorldView",
        SensorBundleFamily::Radarsat2 => "Radarsat2",
        SensorBundleFamily::Rcm => "Rcm",
        SensorBundleFamily::Unknown => "Unknown",
    }
}

/// One layer of an opened scene: its canonical key and its file path.
#[derive(Debug, Clone)]
pub struct LayerEntry {
    pub key: String,
    pub path: String,
}

/// The path of the first layer whose key equals `key` upper-cased as ASCII;
/// layer keys are stored upper-case.
pub open spec fn layer_path(layers: Seq<LayerEntry>, key: Seq<char>) -> Option<Seq<char>>
    decreases layers.len(),
{
    if layers.len() == 0 {
        None
    } else if layers[0].key@ == ascii_upper_seq(key) {
        Some(layers[0].path@)
    } else {
        layer_path(layers.subrange(1, layers.len() as int), key)
    }
}

/// Looks up the path of the layer `key`.
pub fn find_layer_path(layers: &Vec<LayerEntry>, key: &str) -> (r: Option<String>)
    ensures
        opt_chars(r) == layer_path(layers@, key@),
{
    let k = chars_ascii_upper(&str_chars(key));
    assert(layers@.subrange(0, layers@.len() as int) == layers@);
    let mut i: usize = 0;
    while i < layers.len()
        invariant
            i <= layers@.len(),
            k@ == ascii_upper_seq(key@),
            layer_path(layers@.subrange(i as int, layers@.len() as int), key@) == layer_path(
                layers@,
                key@,
            ),
        decreases layers.len() - i,
    {
        let ghost rest = layers@.subrange(i as int, layers@.len() as int);
        assert(rest[0] == layers@[i as int]);
        assert(rest.subrange(1, rest.len() as int) == layers@.subrange(
            i + 1,
            layers@.len() as int,
        ));
        if chars_eq(&str_chars(layers[i].key.as_str()), &k) {
            return Some(string_of(layers[i].path.as_str()));
        }
        i = i + 1;
    }
    None
}

/// The canonical paths of an optical scene, as the providers resolve them.
#[derive(Debug, Clone)]
pub struct ResolvedOpticalPaths {
    /// Short sensor family identifier (`dimap`, `landsat`, `sentinel2_safe`).
    pub sensor_name: String,
    pub red_path: Option<String>,
    pub nir_path: Option<String>,
    pub green_path: Option<String>,
    pub blue_path: Option<String>,
    /// Scene Classification Layer QA band.
    pub qa_scl_path: Option<String>,
    /// QA60 / QA_PIXEL mask band.
    pub qa_qa60_path: Option<String>,
    /// Scene acquisition timestamp in UTC, ISO-8601 where available.
    pub acquisition_datetime_utc: Option<String>,
}

/// The message refusing a bundle of the wrong family.
pub open spec fn wrong_family_message(
    bundle_root: Seq<char>,
    label: Seq<char>,
    detected: SensorBundleFamily,
) -> Seq<char> {
    "bundle '"@ + bundle_root + "' is not a "@ + label + " (detected: "@ + family_name(detected)
        + ")"@
}

/// Accepts `detected` if it is `expected`; otherwise a bundle error naming
/// the root, the package kind `label` and the family found.
fn check_family(
    bundle_root: &str,
    detected: SensorBundleFamily,
    expected: SensorBundleFamily,
    label: &str,
) -> (r: Result<(), PhotogrammetryError>)
    ensures
        detected == expected ==> r is Ok,
        detected != expected ==> (r matches Err(PhotogrammetryError::Bundle(m)) && m@
            == wrong_family_message(bundle_root@, label@, detected)),
{
    if detected == expected {
        Ok(())
    } else {
        let mut m = String::new();
        push_str_chars(&mut m, "bundle '");
        push_str_chars(&mut m, bundle_root);
        push_str_chars(&mut m, "' is not a ");
        push_str_chars(&mut m, label);
        push_str_chars(&mut m, " (detected: ");
        push_str_chars(&mut m, family_debug_name(detected));
        push_str_chars(&mut m, ")");
        Err(PhotogrammetryError::Bundle(m))
    }
}

/// Landsat spacecraft mission identifier.
#[derive(Debug, Clone, Copy, PartialEq, Eq, Structural)]
pub enum LandsatMission {
    Landsat4,
    Landsat5,
    Landsat7,
    Landsat8,
    Landsat9,
    Unknown,
}

/// The contents of an opened Landsat Collection scene that the provider reads.
#[derive(Debug, Clone)]
pub struct LandsatScene {
    pub mission: LandsatMission,
    /// Canonical spectral band key to path.
    pub bands: Vec<LayerEntry>,
    /// Canonical QA layer key to path.
    pub qa_layers: Vec<LayerEntry>,
    /// Scene acquisition date in UTC.
    pub acquisition_date_utc: Option<String>,
    /// Scene center time in UTC.
    pub scene_center_time_utc: Option<String>,
}

/// Band keys (red, NIR, green, blue) of the OLI/TIRS missions.
pub open spec fn oli_band_keys() -> (Seq<char>, Seq<char>, Seq<char>, Seq<char>) {
    ("B4"@, "B5"@, "B3"@, "B2"@)
}

/// Band keys (red, NIR, green, blue) of the TM/ETM+ missions.
pub open spec fn tm_band_keys() -> (Seq<char>, Seq<char>, Seq<char>, Seq<char>) {
    ("B3"@, "B4"@, "B2"@, "B1"@)
}

/// The band keys holding red, NIR, green and blue: Landsat 8 and 9 use the
/// OLI layout, Landsat 4, 5 and 7 the TM layout, and a scene of unknown
/// mission the OLI layout when it has both B5 and B4.
pub open spec fn landsat_band_keys(mission: LandsatMission, bands: Seq<LayerEntry>) -> (
    Seq<char>,
    Seq<char>,
    Seq<char>,
    Seq<char>,
) {
    match mission {
        LandsatMission::Landsat8 | LandsatMission::Landsat9 => oli_band_keys(),
        LandsatMission::Unknown => if layer_path(bands, "B5"@) is Some && layer_path(
            bands,
            "B4"@,
        ) is Some {
            oli_band_keys()
        } else {
            tm_band_keys()
        },
        _ => tm_band_keys(),
    }
}

/// Law of the Landsat band layout: the TM/ETM+ missions (Landsat 4, 5 and
/// 7) take red from B3, NIR from B4, green from B2 and blue from B1 whatever
/// bands the scene holds; the OLI missions (Landsat 8 and 9) take B4, B5, B3
/// and B2; a scene of unknown mission takes the OLI layout exactly when it
/// holds both B4 and B5, and the TM layout otherwise.
pub proof fn lemma_landsat_band_layout(mission: LandsatMission, bands: Seq<LayerEntry>)
    ensures
        mission is Landsat4 || mission is Landsat5 || mission is Landsat7 ==> landsat_band_keys(mission, bands)
            == ("B3"@, "B4"@, "B2"@, "B1"@),
        mission is Landsat8 || mission is Landsat9 ==> landsat_band_keys(mission, bands) == ("B4"@, "B5"@,
            "B3"@, "B2"@),
        mission is Unknown ==> landsat_band_keys(mission, bands) == if layer_path(bands, "B4"@) is Some
            && layer_path(bands, "B5"@) is Some {
            ("B4"@, "B5"@, "B3"@, "B2"@)
        } else {
            ("B3"@, "B4"@, "B2"@, "B1"@)
        },
{
}

/// The band keys (red, NIR, green, blue) of a Landsat scene.
pub fn mission_band_mapping(scene: &LandsatScene) -> (r: (
    &'static str,
    &'static str,
    &'static str,
    &'static str,
))
    ensures
        (r.0@, r.1@, r.2@, r.3@) == landsat_band_keys(scene.mission, scene.bands@),
{
    match scene.mission {
        LandsatMission::Landsat8 | LandsatMission::Landsat9 => ("B4", "B5", "B3", "B2"),
        LandsatMission::Landsat4 | LandsatMission::Landsat5 | LandsatMission::Landsat7 => (
            "B3",
            "B4",
            "B2",
            "B1",
        ),
        LandsatMission::Unknown => {
            if find_layer_path(&scene.bands, "B5").is_some() && find_layer_path(
                &scene.bands,
                "B4",
            ).is_some() {
                ("B4", "B5", "B3", "B2")
            } else {
                ("B3", "B4", "B2", "B1")
            }
        },
    }
}

/// The acquisition time of a Landsat scene: the trimmed scene time when it
/// already holds a `T`, otherwise the date, `T` and the trimmed time; the date
/// at midnight UTC when there is no time; the trimmed time when there is no
/// date.
pub open spec fn landsat_datetime(date: Option<Seq<char>>, time: Option<Seq<char>>) -> Option<
    Seq<char>,
> {
    match (date, time) {
        (Some(d), Some(t)) => if trimmed(t).contains('T') {
            Some(trimmed(t))
        } else {
            Some(d + "T"@ + trimmed(t))
        },
        (Some(d), None) => Some(d + "T00:00:00Z"@),
        (None, Some(t)) => Some(trimmed(t)),
        (None, None) => None,
    }
}

/// Combines the acquisition date and scene centre time of a Landsat scene
/// into one ISO-8601 timestamp.
pub fn combine_landsat_datetime(date_utc: Option<&str>, scene_time_utc: Option<&str>) -> (r:
    Option<String>)
    ensures
        opt_chars(r) == landsat_datetime(opt_str_chars(date_utc), opt_str_chars(scene_time_utc)),
{
    match (date_utc, scene_time_utc) {
        (Some(date), Some(time)) => {
            let t = trim_chars(&str_chars(time));
            let ts = string_from_chars(&t, 0, t.len());
            assert(t@.subrange(0, t@.len() as int) == t@);
            if chars_contain(&t, 'T') {
                Some(ts)
            } else {
                let mut r = String::new();
                push_str_chars(&mut r, date);
                push_str_chars(&mut r, "T");
                push_str_chars(&mut r, ts.as_str());
                Some(r)
            }
        },
        (Some(date), None) => {
            let mut r = String::new();
            push_str_chars(&mut r, date);
            push_str_chars(&mut r, "T00:00:00Z");
            Some(r)
        },
        (None, Some(time)) => {
            let t = trim_chars(&str_chars(time));
            assert(t@.subrange(0, t@.len() as int) == t@);
            Some(string_from_chars(&t, 0, t.len()))
        },
        (None, None) => None,
    }
}

/// Whether some name in `names`, upper-cased as ASCII, satisfies `pred`.
pub open spec fn any_name(names: Seq<String>, pred: spec_fn(Seq<char>) -> bool) -> bool {
    exists|i: int| 0 <= i < names.len() && pred(ascii_upper_seq(#[trigger] names[i]@))
}

/// Whether an upper-cased file name is a Landsat MTL metadata file.
pub open spec fn is_landsat_mtl_name(upper: Seq<char>) -> bool {
    has_suffix(upper, "_MTL.TXT"@)
}

/// Whether an upper-cased file name is a DIMAP metadata document.
pub open spec fn is_dimap_metadata_name(upper: Seq<char>) -> bool {
    has_prefix(upper, "DIM_"@) && has_suffix(upper, ".XML"@)
}

/// Landsat Collection scene provider.
#[derive(Debug, Clone, Copy)]
pub struct LandsatBundleProvider;

impl LandsatBundleProvider {
    /// Short identifier of this sensor family.
    pub fn sensor_name(&self) -> (r: &'static str)
        ensures
            r@ == "landsat"@,
    {
        "landsat"
    }

    /// Whether a directory whose files are called `file_names` looks like a
    /// Landsat scene: one of them, upper-cased, ends with `_MTL.TXT`.
    pub fn can_handle_file_names(&self, file_names: &Vec<String>) -> (r: bool)
        ensures
            r == any_name(file_names@, |u: Seq<char>| is_landsat_mtl_name(u)),
    {
        let suffix = str_chars("_MTL.TXT");
        let mut i: usize = 0;
        while i < file_names.len()
            invariant
                i <= file_names@.len(),
                suffix@ == "_MTL.TXT"@,
                forall|k: int|
                    0 <= k < i ==> !is_landsat_mtl_name(ascii_upper_seq(#[trigger] file_names@[k]@)),
            decreases file_names.len() - i,
        {
            let u = chars_ascii_upper(&str_chars(file_names[i].as_str()));
            if chars_has_suffix(&u, &suffix) {
                assert(is_landsat_mtl_name(ascii_upper_seq(file_names@[i as int]@)));
                return true;
            }
            i = i + 1;
        }
        false
    }

    /// Accepts a bundle detected as Landsat; refuses any other family.
    pub fn accept_family(&self, bundle_root: &str, detected: SensorBundleFamily) -> (r: Result<
        (),
        PhotogrammetryError,
    >)
        ensures
            detected == SensorBundleFamily::Landsat ==> r is Ok,
            detected != SensorBundleFamily::Landsat ==> (r matches Err(
                PhotogrammetryError::Bundle(m),
            ) && m@ == wrong_family_message(bundle_root@, "Landsat optical package"@, detected)),
    {
        check_family(bundle_root, detected, SensorBundleFamily::Landsat, "Landsat optical package")
    }

    /// Resolves the bands of an opened Landsat scene. The red and NIR bands
    /// of the mission's layout must be present; the QA mask is `QA_PIXEL`, or
    /// `BQA` for older products.
    pub fn resolve_scene(&self, bundle_root: &str, scene: &LandsatScene) -> (r: Result<
        ResolvedOpticalPaths,
        PhotogrammetryError,
    >)
        ensures
            ({
                let keys = landsat_band_keys(scene.mission, scene.bands@);
                let red = layer_path(scene.bands@, keys.0);
                let nir = layer_path(scene.bands@, keys.1);
                if red is None || nir is None {
                    r matches Err(PhotogrammetryError::Bundle(m)) && m@ == "Landsat bundle '"@
                        + bundle_root@
                        + "' does not contain required optical bands (expected red='"@ + keys.0
                        + "', nir='"@ + keys.1 + "')"@
                } else {
                    r matches Ok(b) && b.sensor_name@ == "landsat"@ && opt_chars(b.red_path) == red
                        && opt_chars(b.nir_path) == nir && opt_chars(b.green_path) == layer_path(
                        scene.bands@,
                        keys.2,
                    ) && opt_chars(b.blue_path) == layer_path(scene.bands@, keys.3)
                        && b.qa_scl_path is None && opt_chars(b.qa_qa60_path) == (match layer_path(
                        scene.qa_layers@,
                        "QA_PIXEL"@,
                    ) {
                        Some(p) => Some(p),
                        None => layer_path(scene.qa_layers@, "BQA"@),
                    }) && opt_chars(b.acquisition_datetime_utc) == landsat_datetime(
                        opt_chars(scene.acquisition_date_utc),
                        opt_chars(scene.scene_center_time_utc),
                    )
                }
            }),
    {
        let (red_key, nir_key, green_key, blue_key) = mission_band_mapping(scene);
        let red_path = find_layer_path(&scene.bands, red_key);
        let nir_path = find_layer_path(&scene.bands, nir_key);
        if red_path.is_none() || nir_path.is_none() {
            let mut m = String::new();
            push_str_chars(&mut m, "Landsat bundle '");
            push_str_chars(&mut m, bundle_root);
            push_str_chars(&mut m, "' does not contain required optical bands (expected red='");
            push_str_chars(&mut m, red_key);
            push_str_chars(&mut m, "', nir='");
            push_str_chars(&mut m, nir_key);
            push_str_chars(&mut m, "')");
            return Err(PhotogrammetryError::Bundle(m));
        }
        let qa = match find_layer_path(&scene.qa_layers, "QA_PIXEL") {
            Some(p) => Some(p),
            None => find_layer_path(&scene.qa_layers, "BQA"),
        };
        let date = match &scene.acquisition_date_utc {
            Some(d) => Some(d.as_str()),
            None => None,
        };
        let time = match &scene.scene_center_time_utc {
            Some(t) => Some(t.as_str()),
            None => None,
        };
        Ok(
            ResolvedOpticalPaths {
                sensor_name: string_of(self.sensor_name()),
                red_path,
                nir_path,
                green_path: find_layer_path(&scene.bands, green_key),
                blue_path: find_layer_path(&scene.bands, blue_key),
                qa_scl_path: None,
                qa_qa60_path: qa,
                acquisition_datetime_utc: combine_landsat_datetime(date, time),
            },
        )
    }
}

/// The contents of an opened DIMAP (SPOT / Pleiades) scene that the provider
/// reads.
#[derive(Debug, Clone)]
pub struct DimapScene {
    /// Canonical band key to path.
    pub bands: Vec<LayerEntry>,
    /// Acquisition datetime UTC.
    pub acquisition_datetime_utc: Option<String>,
}

/// DIMAP (SPOT / Pleiades) scene provider.
#[derive(Debug, Clone, Copy)]
pub struct DimapBundleProvider;

impl DimapBundleProvider {
    /// Short identifier of this sensor family.
    pub fn sensor_name(&self) -> (r: &'static str)
        ensures
            r@ == "dimap"@,
    {
        "dimap"
    }

    /// Whether a directory whose files are called `file_names` looks like a
    /// DIMAP scene: one of them, upper-cased, starts with `DIM_` and ends with
    /// `.XML`.
    pub fn can_handle_file_names(&self, file_names: &Vec<String>) -> (r: bool)
        ensures
            r == any_name(file_names@, |u: Seq<char>| is_dimap_metadata_name(u)),
    {
        let prefix = str_chars("DIM_");
        let suffix = str_chars(".XML");
        let mut i: usize = 0;
        while i < file_names.len()
            invariant
                i <= file_names@.len(),
                prefix@ == "DIM_"@,
                suffix@ == ".XML"@,
                forall|k: int|
                    0 <= k < i ==> !is_dimap_metadata_name(
                        ascii_upper_seq(#[trigger] file_names@[k]@),
                    ),
            decreases file_names.len() - i,
        {
            let u = chars_ascii_upper(&str_chars(file_names[i].as_str()));
            if chars_has_prefix(&u, &prefix) && chars_has_suffix(&u, &suffix) {
                assert(is_dimap_metadata_name(ascii_upper_seq(file_names@[i as int]@)));
                return true;
            }
            i = i + 1;
        }
        false
    }

    /// Accepts a bundle detected as DIMAP; refuses any other family.
    pub fn accept_family(&self, bundle_root: &str, detected: SensorBundleFamily) -> (r: Result<
        (),
        PhotogrammetryError,
    >)
        ensures
            detected == SensorBundleFamily::Dimap ==> r is Ok,
            detected != SensorBundleFamily::Dimap ==> (r matches Err(
                PhotogrammetryError::Bundle(m),
            ) && m@ == wrong_family_message(bundle_root@, "DIMAP optical package"@, detected)),
    {
        check_family(bundle_root, detected, SensorBundleFamily::Dimap, "DIMAP optical package")
    }

    /// Resolves the bands of an opened DIMAP scene, whose multispectral
    /// layout is B1 blue, B2 green, B3 red, B4 NIR. Red and NIR must be
    /// present; blue falls back to B0.
    pub fn resolve_scene(&self, bundle_root: &str, scene: &DimapScene) -> (r: Result<
        ResolvedOpticalPaths,
        PhotogrammetryError,
    >)
        ensures
            ({
                let red = layer_path(scene.bands@, "B3"@);
                let nir = layer_path(scene.bands@, "B4"@);
                if red is None || nir is None {
                    r matches Err(PhotogrammetryError::Bundle(m)) && m@ == "DIMAP bundle '"@
                        + bundle_root@
                        + "' does not contain required multispectral bands (expected red='B3', nir='B4')"@
                } else {
                    r matches Ok(b) && b.sensor_name@ == "dimap"@ && opt_chars(b.red_path) == red
                        && opt_chars(b.nir_path) == nir && opt_chars(b.green_path) == layer_path(
                        scene.bands@,
                        "B2"@,
                    ) && opt_chars(b.blue_path) == (match layer_path(scene.bands@, "B1"@) {
                        Some(p) => Some(p),
                        None => layer_path(scene.bands@, "B0"@),
                    }) && b.qa_scl_path is None && b.qa_qa60_path is None && opt_chars(
                        b.acquisition_datetime_utc,
                    ) == opt_chars(scene.acquisition_datetime_utc)
                }
            }),
    {
        let red_path = find_layer_path(&scene.bands, "B3");
        let nir_path = find_layer_path(&scene.bands, "B4");
        if red_path.is_none() || nir_path.is_none() {
            let mut m = String::new();
            push_str_chars(&mut m, "DIMAP bundle '");
            push_str_chars(&mut m, bundle_root);
            push_str_chars(
                &mut m,
                "' does not contain required multispectral bands (expected red='B3', nir='B4')",
            );
            return Err(PhotogrammetryError::Bundle(m));
        }
        let blue = match find_layer_path(&scene.bands, "B1") {
            Some(p) => Some(p),
            None => find_layer_path(&scene.bands, "B0"),
        };
        let acquired = match &scene.acquisition_datetime_utc {
            Some(t) => Some(string_of(t.as_str())),
            None => None,
        };
        Ok(
            ResolvedOpticalPaths {
                sensor_name: string_of(self.sensor_name()),
                red_path,
                nir_path,
                green_path: find_layer_path(&scene.bands, "B2"),
                blue_path: blue,
                qa_scl_path: None,
                qa_qa60_path: None,
                acquisition_datetime_utc: acquired,
            },
        )
    }
}

/// The contents of an opened Sentinel-2 SAFE package that the provider reads.
#[derive(Debug, Clone)]
pub struct Sentinel2Scene {
    /// Canonical spectral band key to path.
    pub bands: Vec<LayerEntry>,
    /// Canonical QA layer key to path (SCL, QA60).
    pub qa_layers: Vec<LayerEntry>,
    /// Acquisition datetime UTC.
    pub acquisition_datetime_utc: Option<String>,
}

/// Sentinel-2 SAFE package provider.
#[derive(Debug, Clone, Copy)]
pub struct Sentinel2SafeBundleProvider;

impl Sentinel2SafeBundleProvider {
    /// Short identifier of this sensor family.
    pub fn sensor_name(&self) -> (r: &'static str)
        ensures
            r@ == "sentinel2_safe"@,
    {
        "sentinel2_safe"
    }

    /// Whether a directory called `root_name` looks like a SAFE package: its
    /// name, upper-cased, ends with `.SAFE`.
    pub fn can_handle_root_name(&self, root_name: &str) -> (r: bool)
        ensures
            r == has_suffix(ascii_upper_seq(root_name@), ".SAFE"@),
    {
        let u = chars_ascii_upper(&str_chars(root_name));
        chars_has_suffix(&u, &str_chars(".SAFE"))
    }

    /// Accepts a bundle detected as Sentinel-2 SAFE; refuses any other family.
    pub fn accept_family(&self, bundle_root: &str, detected: SensorBundleFamily) -> (r: Result<
        (),
        PhotogrammetryError,
    >)
        ensures
            detected == SensorBundleFamily::Sentinel2Safe ==> r is Ok,
            detected != SensorBundleFamily::Sentinel2Safe ==> (r matches Err(
                PhotogrammetryError::Bundle(m),
            ) && m@ == wrong_family_message(
                bundle_root@,
                "Sentinel-2 optical SAFE package"@,
                detected,
            )),
    {
        check_family(
            bundle_root,
            detected,
            SensorBundleFamily::Sentinel2Safe,
            "Sentinel-2 optical SAFE package",
        )
    }

    /// Resolves the bands of an opened SAFE package: B04 red, B08 NIR, B03
    /// green, B02 blue, and the SCL and QA60 masks; none is required.
    pub fn resolve_scene(&self, scene: &Sentinel2Scene) -> (r: ResolvedOpticalPaths)
        ensures
            r.sensor_name@ == "sentinel2_safe"@,
            opt_chars(r.red_path) == layer_path(scene.bands@, "B04"@),
            opt_chars(r.nir_path) == layer_path(scene.bands@, "B08"@),
            opt_chars(r.green_path) == layer_path(scene.bands@, "B03"@),
            opt_chars(r.blue_path) == layer_path(scene.bands@, "B02"@),
            opt_chars(r.qa_scl_path) == layer_path(scene.qa_layers@, "SCL"@),
            opt_chars(r.qa_qa60_path) == layer_path(scene.qa_layers@, "QA60"@),
            opt_chars(r.acquisition_datetime_utc) == opt_chars(scene.acquisition_datetime_utc),
    {
        let acquired = match &scene.acquisition_datetime_utc {
            Some(t) => Some(string_of(t.as_str())),
            None => None,
        };
        ResolvedOpticalPaths {
            sensor_name: string_of(self.sensor_name()),
            red_path: find_layer_path(&scene.bands, "B04"),
            nir_path: find_layer_path(&scene.bands, "B08"),
            green_path: find_layer_path(&scene.bands, "B03"),
            blue_path: find_layer_path(&scene.bands, "B02"),
            qa_scl_path: find_layer_path(&scene.qa_layers, "SCL"),
            qa_qa60_path: find_layer_path(&scene.qa_layers, "QA60"),
            acquisition_datetime_utc: acquired,
        }
    }
}

} // verus!
