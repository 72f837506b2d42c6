//! Feature method selection, matching options and the integer settings of
//! the matching profiles.

use vstd::prelude::*;
use crate::error::PhotogrammetryError;
use crate::paths::{file_name_of, path_file_name};
use crate::text::{
    ascii_lower_seq, chars_ascii_lower, chars_eq, opt_str_chars, push_str_chars, str_chars,
    trim_chars, trimmed,
};

verus! {

/// Feature detection and description method used by the matching stage.
#[derive(Debug, Clone, Copy, PartialEq, Eq, Structural)]
pub enum FeatureMethod {
    /// FAST + BRIEF binary descriptors.
    Brief,
    /// ORB-style rotated BRIEF binary descriptors.
    Orb,
    /// Scale-space detector with floating-point SIFT descriptors.
    Sift,
    /// SIFT descriptors with L1-sqrt RootSIFT post-normalization.
    RootSift,
    /// Learned SuperPoint keypoints and floating-point descriptors.
    SuperPoint,
}

/// Distance metric required by a feature descriptor family.
#[derive(Debug, Clone, Copy, PartialEq, Eq, Structural)]
pub enum FeatureDistanceMetric {
    Hamming,
    EuclideanL2,
    Cosine,
}

/// The public name of each method.
pub open spec fn method_name(m: FeatureMethod) -> Seq<char> {
    match m {
        FeatureMethod::Brief => "brief"@,
        FeatureMethod::Orb => "orb"@,
        FeatureMethod::Sift => "sift"@,
        FeatureMethod::RootSift => "rootsift"@,
        FeatureMethod::SuperPoint => "superpoint"@,
    }
}

/// The method that a normalized (trimmed, lower-cased) name selects.
pub open spec fn method_from_normalized(n: Seq<char>) -> Option<FeatureMethod> {
    if n == "brief"@ {
        Some(FeatureMethod::Brief)
    } else if n == "orb"@ {
        Some(FeatureMethod::Orb)
    } else if n == "sift"@ {
        Some(FeatureMethod::Sift)
    } else if n == "rootsift"@ || n == "root_sift"@ {
        Some(FeatureMethod::RootSift)
    } else if n == "superpoint"@ || n == "super_point"@ {
        Some(FeatureMethod::SuperPoint)
    } else {
        None
    }
}

/// A method name as the parser compares it: without surrounding white space,
/// lower-cased as ASCII.
pub open spec fn normalized_method_name(value: Seq<char>) -> Seq<char> {
    ascii_lower_seq(trimmed(value))
}

/// The message of the error for an unknown method name.
pub open spec fn unsupported_method_message(value: Seq<char>) -> Seq<char> {
    "unsupported feature method '"@ + value
        + "'; expected one of: brief, orb, sift, rootsift, superpoint"@
}

impl FeatureMethod {
    /// The public name of this method.
    pub fn as_str(self) -> (r: &'static str)
        ensures
            r@ == method_name(self),
    {
        match self {
            FeatureMethod::Brief => "brief",
            FeatureMethod::Orb => "orb",
            FeatureMethod::Sift => "sift",
            FeatureMethod::RootSift => "rootsift",
            FeatureMethod::SuperPoint => "superpoint",
        }
    }

    /// The distance metric that this method's descriptors are compared with.
    pub fn descriptor_metric(self) -> (r: FeatureDistanceMetric)
        ensures
            r == (match self {
                FeatureMethod::Brief | FeatureMethod::Orb => FeatureDistanceMetric::Hamming,
                FeatureMethod::Sift | FeatureMethod::RootSift => FeatureDistanceMetric::EuclideanL2,
                FeatureMethod::SuperPoint => FeatureDistanceMetric::Cosine,
            }),
    {
        match self {
            FeatureMethod::Brief | FeatureMethod::Orb => FeatureDistanceMetric::Hamming,
            FeatureMethod::Sift | FeatureMethod::RootSift => FeatureDistanceMetric::EuclideanL2,
            FeatureMethod::SuperPoint => FeatureDistanceMetric::Cosine,
        }
    }

    /// Whether this method's descriptors are floating-point vectors.
    pub fn uses_floating_point_descriptors(self) -> (r: bool)
        ensures
            r == (self is Sift || self is RootSift || self is SuperPoint),
    {
        match self {
            FeatureMethod::Sift | FeatureMethod::RootSift | FeatureMethod::SuperPoint => true,
            _ => false,
        }
    }

    /// Whether this method has a working implementation.
    pub fn is_implemented(self) -> (r: bool)
        ensures
            r == !(self is SuperPoint),
    {
        match self {
            FeatureMethod::SuperPoint => false,
            _ => true,
        }
    }

    /// Parses a method name. Surrounding white space and ASCII case are
    /// ignored; `root_sift` and `super_point` are accepted as alternatives.
    pub fn from_str(value: &str) -> (r: Result<FeatureMethod, PhotogrammetryError>)
        ensures
            match method_from_normalized(normalized_method_name(value@)) {
                Some(m) => r == Ok::<FeatureMethod, PhotogrammetryError>(m),
                None => r matches Err(PhotogrammetryError::FeatureMatching(msg))
                    && msg@ == unsupported_method_message(value@),
            },
    {
        let raw = str_chars(value);
        let t = trim_chars(&raw);
        let n = chars_ascii_lower(&t);
        if chars_eq(&n, &str_chars("brief")) {
            Ok(FeatureMethod::Brief)
        } else if chars_eq(&n, &str_chars("orb")) {
            Ok(FeatureMethod::Orb)
        } else if chars_eq(&n, &str_chars("sift")) {
            Ok(FeatureMethod::Sift)
        } else if chars_eq(&n, &str_chars("rootsift")) || chars_eq(&n, &str_chars("root_sift")) {
            Ok(FeatureMethod::RootSift)
        } else if chars_eq(&n, &str_chars("superpoint")) || chars_eq(
            &n,
            &str_chars("super_point"),
        ) {
            Ok(FeatureMethod::SuperPoint)
        } else {
            let mut msg = String::new();
            push_str_chars(&mut msg, "unsupported feature method '");
            push_str_chars(&mut msg, value);
            push_str_chars(&mut msg, "'; expected one of: brief, orb, sift, rootsift, superpoint");
            Err(PhotogrammetryError::FeatureMatching(msg))
        }
    }
}

impl std::str::FromStr for FeatureMethod {
    type Err = PhotogrammetryError;

    fn from_str(value: &str) -> (r: Result<FeatureMethod, PhotogrammetryError>)
        ensures
            match method_from_normalized(normalized_method_name(value@)) {
                Some(m) => r == Ok::<FeatureMethod, PhotogrammetryError>(m),
                None => r matches Err(PhotogrammetryError::FeatureMatching(msg))
                    && msg@ == unsupported_method_message(value@),
            },
    {
        FeatureMethod::from_str(value)
    }
}

/// Parsing the public name of a method gives that method back.
pub proof fn lemma_method_name_round_trip(m: FeatureMethod)
    ensures
        method_from_normalized(normalized_method_name(method_name(m))) == Some(m),
{
    reveal_strlit("brief");
    reveal_strlit("orb");
    reveal_strlit("sift");
    reveal_strlit("rootsift");
    reveal_strlit("root_sift");
    reveal_strlit("superpoint");
    reveal_strlit("super_point");
    let s = method_name(m);
    assert(trimmed(s) == s) by {
        assert(!crate::text::is_white_space(s[0]));
        assert(!crate::text::is_white_space(s[s.len() - 1]));
        assert(s.subrange(0, s.len() as int) == s);
    }
    assert(ascii_lower_seq(s) == s);
}

/// Public options for the feature matching stage.
#[derive(Debug, Clone)]
pub struct FeatureMatchingOptions {
    /// Built-in tuning profile (`fast`, `balanced`, `survey`).
    pub profile: String,
    /// Keypoint and descriptor method to use.
    pub method: FeatureMethod,
}

impl FeatureMatchingOptions {
    /// Options for the given profile and method.
    pub fn new(profile: &str, method: FeatureMethod) -> (r: FeatureMatchingOptions)
        ensures
            r.profile@ == profile@,
            r.method == method,
    {
        let mut p = String::new();
        push_str_chars(&mut p, profile);
        FeatureMatchingOptions { profile: p, method }
    }
}

impl Default for FeatureMatchingOptions {
    fn default() -> (r: FeatureMatchingOptions)
        ensures
            r.profile@ == "balanced"@,
            r.method == FeatureMethod::RootSift,
    {
        FeatureMatchingOptions::new("balanced", FeatureMethod::RootSift)
    }
}

/// The detector and descriptor pipeline that a method runs.
#[derive(Debug, Clone, Copy, PartialEq, Eq, Structural)]
pub enum FeatureAlgorithm {
    Brief,
    Orb,
    Sift,
    RootSift,
}

/// The message of the error for a method without an implementation.
pub open spec fn superpoint_unavailable_message() -> Seq<char> {
    "feature method 'superpoint' has been scaffolded in the public API, but learned inference, weight loading, and floating-point descriptor matching are not implemented yet"@
}

/// The pipeline that runs `method`; SuperPoint has none and is refused with
/// a not-implemented error.
pub fn feature_algorithm_from_method(method: FeatureMethod) -> (r: Result<
    FeatureAlgorithm,
    PhotogrammetryError,
>)
    ensures
        match method {
            FeatureMethod::Brief => r == Ok::<FeatureAlgorithm, PhotogrammetryError>(
                FeatureAlgorithm::Brief,
            ),
            FeatureMethod::Orb => r == Ok::<FeatureAlgorithm, PhotogrammetryError>(
                FeatureAlgorithm::Orb,
            ),
            FeatureMethod::Sift => r == Ok::<FeatureAlgorithm, PhotogrammetryError>(
                FeatureAlgorithm::Sift,
            ),
            FeatureMethod::RootSift => r == Ok::<FeatureAlgorithm, PhotogrammetryError>(
                FeatureAlgorithm::RootSift,
            ),
            FeatureMethod::SuperPoint => r matches Err(PhotogrammetryError::NotImplemented(msg))
                && msg@ == superpoint_unavailable_message(),
        },
{
    match method {
        FeatureMethod::Brief => Ok(FeatureAlgorithm::Brief),
        FeatureMethod::Orb => Ok(FeatureAlgorithm::Orb),
        FeatureMethod::Sift => Ok(FeatureAlgorithm::Sift),
        FeatureMethod::RootSift => Ok(FeatureAlgorithm::RootSift),
        FeatureMethod::SuperPoint => {
            let mut msg = String::new();
            push_str_chars(
                &mut msg,
                "feature method 'superpoint' has been scaffolded in the public API, but learned inference, weight loading, and floating-point descriptor matching are not implemented yet",
            );
            Err(PhotogrammetryError::NotImplemented(msg))
        },
    }
}

impl FeatureAlgorithm {
    /// The octave that matched descriptors must share, if any: ORB matches
    /// within two pyramid levels, SIFT within one, BRIEF has no pyramid.
    pub fn octave_constraint(self) -> (r: Option<u8>)
        ensures
            r == (match self {
                FeatureAlgorithm::Brief => None,
                FeatureAlgorithm::Orb => Some(2u8),
                FeatureAlgorithm::Sift | FeatureAlgorithm::RootSift => Some(1u8),
            }),
    {
        match self {
            FeatureAlgorithm::Brief => None,
            FeatureAlgorithm::Orb => Some(2),
            FeatureAlgorithm::Sift | FeatureAlgorithm::RootSift => Some(1),
        }
    }
}

/// The integer settings of a matching profile: the keypoint budget per image,
/// the FAST threshold, the Hamming acceptance distance, the nearest-neighbour
/// ratio limit in thousandths, and the working image size.
#[derive(Debug, Clone, Copy, PartialEq, Eq, Structural)]
pub struct FeatureProfile {
    pub max_features_per_image: usize,
    pub fast_threshold: u8,
    pub match_distance_threshold: u32,
    pub ratio_test_permille: u32,
    pub max_image_dimension_px: u32,
}

/// The settings of each named profile; any other name gets the balanced ones.
pub open spec fn profile_for_name(name: Seq<char>) -> FeatureProfile {
    if name == "fast"@ {
        FeatureProfile {
            max_features_per_image: 450,
            fast_threshold: 28,
            match_distance_threshold: 96,
            ratio_test_permille: 980,
            max_image_dimension_px: 1200,
        }
    } else if name == "survey"@ {
        FeatureProfile {
            max_features_per_image: 1400,
            fast_threshold: 13,
            match_distance_threshold: 60,
            ratio_test_permille: 920,
            max_image_dimension_px: 1800,
        }
    } else {
        FeatureProfile {
            max_features_per_image: 1100,
            fast_threshold: 16,
            match_distance_threshold: 78,
            ratio_test_permille: 960,
            max_image_dimension_px: 1600,
        }
    }
}

/// `x` raised by 35%, rounded to the nearest integer, halves up.
pub open spec fn boosted_by_35_percent(x: int) -> int {
    (x * 135 + 50) / 100
}

/// The ORB settings derived from `p`.
pub open spec fn orb_profile(p: FeatureProfile) -> FeatureProfile {
    let x = p.max_features_per_image as int;
    FeatureProfile {
        max_features_per_image: if boosted_by_35_percent(x) >= x + 200 {
            boosted_by_35_percent(x) as usize
        } else {
            (x + 200) as usize
        },
        fast_threshold: if p.fast_threshold >= 12 {
            (p.fast_threshold - 4) as u8
        } else {
            8u8
        },
        match_distance_threshold: if p.match_distance_threshold + 36 <= 160 {
            (p.match_distance_threshold + 36) as u32
        } else {
            160u32
        },
        ratio_test_permille: if p.ratio_test_permille + 20 <= 995 {
            (p.ratio_test_permille + 20) as u32
        } else {
            995u32
        },
        max_image_dimension_px: if p.max_image_dimension_px + 300 <= 2200 {
            (p.max_image_dimension_px + 300) as u32
        } else {
            2200u32
        },
    }
}

/// The SIFT settings derived from `p`.
pub open spec fn sift_profile(p: FeatureProfile) -> FeatureProfile {
    FeatureProfile {
        max_features_per_image: if p.max_features_per_image + 250 <= usize::MAX {
            (p.max_features_per_image + 250) as usize
        } else {
            usize::MAX
        },
        ratio_test_permille: if p.ratio_test_permille <= 860 {
            p.ratio_test_permille
        } else {
            860u32
        },
        ..p
    }
}

impl FeatureProfile {
    /// The settings of the profile called `profile`.
    pub fn from_profile(profile: &str) -> (r: FeatureProfile)
        ensures
            r == profile_for_name(profile@),
    {
        let p = str_chars(profile);
        if chars_eq(&p, &str_chars("fast")) {
            FeatureProfile {
                max_features_per_image: 450,
                fast_threshold: 28,
                match_distance_threshold: 96,
                ratio_test_permille: 980,
                max_image_dimension_px: 1200,
            }
        } else if chars_eq(&p, &str_chars("survey")) {
            FeatureProfile {
                max_features_per_image: 1400,
                fast_threshold: 13,
                match_distance_threshold: 60,
                ratio_test_permille: 920,
                max_image_dimension_px: 1800,
            }
        } else {
            FeatureProfile {
                max_features_per_image: 1100,
                fast_threshold: 16,
                match_distance_threshold: 78,
                ratio_test_permille: 960,
                max_image_dimension_px: 1600,
            }
        }
    }

    /// The settings for ORB: a larger keypoint budget (35% more, and at
    /// least 200 more), a FAST threshold 4 lower but not under 8, a wider
    /// Hamming distance (36 more, at most 160), a looser ratio test (0.02
    /// more, at most 0.995) and larger images (300 px more, at most 2200).
    pub fn tuned_for_orb(self) -> (r: FeatureProfile)
        requires
            self.max_features_per_image * 135 + 50 <= usize::MAX,
        ensures
            r == orb_profile(self),
    {
        let x = self.max_features_per_image;
        let boosted = (x * 135 + 50) / 100;
        let floor = x + 200;
        let fast = if self.fast_threshold >= 12 {
            self.fast_threshold - 4
        } else {
            8
        };
        let dist = if self.match_distance_threshold <= 124 {
            self.match_distance_threshold + 36
        } else {
            160
        };
        let ratio = if self.ratio_test_permille <= 975 {
            self.ratio_test_permille + 20
        } else {
            995
        };
        let dim = if self.max_image_dimension_px <= 1900 {
            self.max_image_dimension_px + 300
        } else {
            2200
        };
        FeatureProfile {
            max_features_per_image: if boosted >= floor {
                boosted
            } else {
                floor
            },
            fast_threshold: fast,
            match_distance_threshold: dist,
            ratio_test_permille: ratio,
            max_image_dimension_px: dim,
        }
    }

    /// The settings for SIFT: 250 more keypoints (saturating) and a ratio
    /// test of at most 0.86, the rest unchanged.
    pub fn tuned_for_sift(self) -> (r: FeatureProfile)
        ensures
            r == sift_profile(self),
    {
        FeatureProfile {
            max_features_per_image: self.max_features_per_image.saturating_add(250),
            fast_threshold: self.fast_threshold,
            match_distance_threshold: self.match_distance_threshold,
            ratio_test_permille: if self.ratio_test_permille <= 860 {
                self.ratio_test_permille
            } else {
                860
            },
            max_image_dimension_px: self.max_image_dimension_px,
        }
    }

    /// The settings that `algorithm` runs with on this profile.
    pub fn tuned_for(self, algorithm: FeatureAlgorithm) -> (r: FeatureProfile)
        requires
            self.max_features_per_image * 135 + 50 <= usize::MAX,
        ensures
            r == (match algorithm {
                FeatureAlgorithm::Brief => self,
                FeatureAlgorithm::Orb => orb_profile(self),
                FeatureAlgorithm::Sift | FeatureAlgorithm::RootSift => sift_profile(self),
            }),
    {
        match algorithm {
            FeatureAlgorithm::Brief => self,
            FeatureAlgorithm::Orb => self.tuned_for_orb(),
            FeatureAlgorithm::Sift | FeatureAlgorithm::RootSift => self.tuned_for_sift(),
        }
    }
}

/// The failure reasons and codes of a feature-matching run, in order: too
/// few frames; no keypoints, or fewer than 80 per frame; no verified match,
/// or a weakly connected pair graph.
pub open spec fn failure_diagnostics(
    frame_count: int,
    total_keypoints: int,
    total_matches: int,
    weak_connectivity: bool,
) -> Seq<(Seq<char>, Seq<char>)> {
    let a: Seq<(Seq<char>, Seq<char>)> = if frame_count < 2 {
        seq![
            ("At least two frames are required for pairwise feature matching."@,
            "insufficient_frames"@),
        ]
    } else {
        Seq::empty()
    };
    let b: Seq<(Seq<char>, Seq<char>)> = if total_keypoints == 0 {
        seq![
            ("No keypoints were detected; imagery may be low texture, overexposed, or too blurry."@,
            "no_keypoints"@),
        ]
    } else if total_keypoints < frame_count * 80 {
        seq![("Low keypoint density detected across frames."@, "low_keypoint_density"@)]
    } else {
        Seq::empty()
    };
    let c: Seq<(Seq<char>, Seq<char>)> = if total_matches == 0 {
        seq![("No cross-image feature matches were verified."@, "no_verified_matches"@)]
    } else if weak_connectivity {
        seq![
            ("Feature graph connectivity is weak; overlap may be insufficient."@,
            "weak_connectivity"@),
        ]
    } else {
        Seq::empty()
    };
    a + b + c
}

fn push_diagnostic(
    reasons: &mut Vec<String>,
    codes: &mut Vec<String>,
    reason: &str,
    code: &str,
    Ghost(expected): Ghost<Seq<(Seq<char>, Seq<char>)>>,
)
    requires
        old(reasons)@.len() == old(codes)@.len() == expected.len(),
        forall|i: int|
            0 <= i < expected.len() ==> old(reasons)@[i]@ == (#[trigger] expected[i]).0
                && old(codes)@[i]@ == expected[i].1,
    ensures
        final(reasons)@.len() == final(codes)@.len() == expected.len() + 1,
        forall|i: int|
            0 <= i < expected.len() + 1 ==> final(reasons)@[i]@ == (
            #[trigger] expected.push((reason@, code@))[i]).0 && final(codes)@[i]@
                == expected.push((reason@, code@))[i].1,
{
    reasons.push(crate::text::string_of(reason));
    codes.push(crate::text::string_of(code));
}

/// Explains a poor feature-matching result: parallel lists of human-readable
/// reasons and machine-readable codes. `weak_connectivity` tells whether
/// fewer than a fifth of the image pairs were connected.
pub fn infer_failure_diagnostics(
    frame_count: usize,
    total_keypoints: u64,
    total_matches: u64,
    weak_connectivity: bool,
) -> (r: (Vec<String>, Vec<String>))
    requires
        frame_count * 80 <= u64::MAX,
    ensures
        r.0@.len() == r.1@.len() == failure_diagnostics(
            frame_count as int,
            total_keypoints as int,
            total_matches as int,
            weak_connectivity,
        ).len(),
        forall|i: int|
            0 <= i < r.0@.len() ==> r.0@[i]@ == (#[trigger] failure_diagnostics(
                frame_count as int,
                total_keypoints as int,
                total_matches as int,
                weak_connectivity,
            )[i]).0 && r.1@[i]@ == failure_diagnostics(
                frame_count as int,
                total_keypoints as int,
                total_matches as int,
                weak_connectivity,
            )[i].1,
{
    let mut reasons: Vec<String> = Vec::new();
    let mut codes: Vec<String> = Vec::new();
    let ghost mut expected: Seq<(Seq<char>, Seq<char>)> = Seq::empty();
    if frame_count < 2 {
        push_diagnostic(
            &mut reasons,
            &mut codes,
            "At least two frames are required for pairwise feature matching.",
            "insufficient_frames",
            Ghost(expected),
        );
        proof {
            expected = expected.push(
                (
                    "At least two frames are required for pairwise feature matching."@,
                    "insufficient_frames"@,
                ),
            );
        }
    }
    if total_keypoints == 0 {
        push_diagnostic(
            &mut reasons,
            &mut codes,
            "No keypoints were detected; imagery may be low texture, overexposed, or too blurry.",
            "no_keypoints",
            Ghost(expected),
        );
        proof {
            expected = expected.push(
                (
                    "No keypoints were detected; imagery may be low texture, overexposed, or too blurry."@,
                    "no_keypoints"@,
                ),
            );
        }
    } else if total_keypoints < frame_count as u64 * 80 {
        push_diagnostic(
            &mut reasons,
            &mut codes,
            "Low keypoint density detected across frames.",
            "low_keypoint_density",
            Ghost(expected),
        );
        proof {
            expected = expected.push(
                ("Low keypoint density detected across frames."@, "low_keypoint_density"@),
            );
        }
    }
    if total_matches == 0 {
        push_diagnostic(
            &mut reasons,
            &mut codes,
            "No cross-image feature matches were verified.",
            "no_verified_matches",
            Ghost(expected),
        );
        proof {
            expected = expected.push(
                ("No cross-image feature matches were verified."@, "no_verified_matches"@),
            );
        }
    } else if weak_connectivity {
        push_diagnostic(
            &mut reasons,
            &mut codes,
            "Feature graph connectivity is weak; overlap may be insufficient.",
            "weak_connectivity",
            Ghost(expected),
        );
        proof {
            expected = expected.push(
                (
                    "Feature graph connectivity is weak; overlap may be insufficient."@,
                    "weak_connectivity"@,
                ),
            );
        }
    }
    assert(expected == failure_diagnostics(
        frame_count as int,
        total_keypoints as int,
        total_matches as int,
        weak_connectivity,
    ));
    (reasons, codes)
}

/// Sum of the first `n` entries of `q`.
pub open spec fn sum_prefix(q: Seq<usize>, n: int) -> int
    decreases n,
{
    if n <= 0 {
        0
    } else {
        sum_prefix(q, n - 1) + q[n - 1]
    }
}

/// Sum of all entries of `q`.
pub open spec fn sum_all(q: Seq<usize>) -> int {
    sum_prefix(q, q.len() as int)
}

/// `base` after `k` more keypoints are handed out one at a time, level by
/// level from the finest, wrapping around.
pub open spec fn round_robin(base: Seq<usize>, k: int) -> Seq<usize>
    decreases k,
{
    if k <= 0 || base.len() == 0 {
        base
    } else {
        let prev = round_robin(base, k - 1);
        let i = (k - 1) % (base.len() as int);
        prev.update(i, (prev[i] + 1) as usize)
    }
}

/// The per-level keypoint budget: with no levels or no keypoints every level
/// gets 0; otherwise each level keeps its weighted share and the keypoints
/// still missing to reach the total go one at a time to the levels from the
/// finest, wrapping around.
pub open spec fn orb_budget(total: int, levels: int, shares: Seq<usize>) -> Seq<usize> {
    if levels == 0 || total == 0 {
        Seq::new(levels as nat, |i: int| 0usize)
    } else if sum_all(shares) >= total {
        shares
    } else {
        round_robin(shares, total - sum_all(shares))
    }
}

proof fn lemma_sum_prefix_update(q: Seq<usize>, n: int, i: int, v: usize)
    requires
        0 <= i < q.len(),
        0 <= n <= q.len(),
    ensures
        sum_prefix(q.update(i, v), n) == sum_prefix(q, n) + if i < n {
            v - q[i]
        } else {
            0
        },
    decreases n,
{
    if n > 0 {
        lemma_sum_prefix_update(q, n - 1, i, v);
    }
}

proof fn lemma_entry_le_sum(q: Seq<usize>, n: int, i: int)
    requires
        0 <= i < n <= q.len(),
    ensures
        q[i] <= sum_prefix(q, n),
        0 <= sum_prefix(q, n),
    decreases n,
{
    if i < n - 1 {
        lemma_entry_le_sum(q, n - 1, i);
    } else {
        lemma_sum_nonneg(q, n - 1);
    }
}

proof fn lemma_sum_nonneg(q: Seq<usize>, n: int)
    requires
        0 <= n <= q.len(),
    ensures
        0 <= sum_prefix(q, n),
    decreases n,
{
    if n > 0 {
        lemma_sum_nonneg(q, n - 1);
    }
}

/// Splits a keypoint budget over the ORB pyramid levels: `shares[i]` is the
/// weighted share of level `i` rounded down, and the keypoints that the
/// rounding lost are added one per level from the finest, wrapping around.
pub fn distribute_orb_feature_budget(total_features: usize, levels: usize, shares: &Vec<usize>) -> (r:
    Vec<usize>)
    requires
        shares@.len() == levels,
    ensures
        r@ == orb_budget(total_features as int, levels as int, shares@),
{
    if levels == 0 || total_features == 0 {
        let mut z: Vec<usize> = Vec::new();
        let mut i: usize = 0;
        while i < levels
            invariant
                i <= levels,
                z@.len() == i,
                forall|k: int| 0 <= k < i ==> z@[k] == 0usize,
            decreases levels - i,
        {
            z.push(0);
            i = i + 1;
        }
        assert(z@ == Seq::new(levels as nat, |i: int| 0usize));
        return z;
    }
    let mut assigned: usize = 0;
    let mut n: usize = 0;
    while n < levels
        invariant
            n <= levels,
            levels > 0,
            total_features > 0,
            shares@.len() == levels,
            assigned == sum_prefix(shares@, n as int),
            assigned < total_features,
        decreases levels - n,
    {
        if shares[n] >= total_features - assigned {
            proof {
                assert(sum_prefix(shares@, n + 1) >= total_features);
                lemma_prefix_mono(shares@, n + 1, levels as int);
            }
            let mut copy: Vec<usize> = Vec::new();
            let mut i: usize = 0;
            while i < levels
                invariant
                    i <= levels,
                    levels > 0,
                    total_features > 0,
                    sum_all(shares@) >= total_features,
                    shares@.len() == levels,
                    copy@ == shares@.subrange(0, i as int),
                decreases levels - i,
            {
                copy.push(shares[i]);
                assert(shares@.subrange(0, i + 1) == shares@.subrange(0, i as int).push(shares@[i as int]));
                i = i + 1;
            }
            assert(shares@.subrange(0, levels as int) == shares@);
            return copy;
        }
        assigned = assigned + shares[n];
        n = n + 1;
    }
    let missing = total_features - assigned;
    let mut quotas: Vec<usize> = Vec::new();
    let mut i: usize = 0;
    while i < levels
        invariant
            i <= levels,
            shares@.len() == levels,
            quotas@ == shares@.subrange(0, i as int),
        decreases levels - i,
    {
        quotas.push(shares[i]);
        assert(shares@.subrange(0, i + 1) == shares@.subrange(0, i as int).push(shares@[i as int]));
        i = i + 1;
    }
    assert(shares@.subrange(0, levels as int) == shares@);
    let mut k: usize = 0;
    let mut level: usize = 0;
    while k < missing
        invariant
            levels > 0,
            shares@.len() == levels,
            assigned == sum_all(shares@),
            missing == total_features - assigned,
            k <= missing,
            level < levels,
            level == k % levels,
            quotas@ == round_robin(shares@, k as int),
            quotas@.len() == levels,
            sum_all(quotas@) == assigned + k,
        decreases missing - k,
    {
        let ghost prev = quotas@;
        proof {
            lemma_entry_le_sum(prev, levels as int, level as int);
        }
        let q = quotas[level];
        quotas.set(level, q + 1);
        proof {
            lemma_sum_prefix_update(prev, levels as int, level as int, (q + 1) as usize);
        }
        k = k + 1;
        level = if level + 1 == levels {
            0
        } else {
            level + 1
        };
        proof {
            lemma_mod_step((k - 1) as int, levels as int);
        }
    }
    quotas
}

proof fn lemma_mod_step(j: int, d: int)
    requires
        0 <= j,
        0 < d,
    ensures
        (j + 1) % d == if j % d + 1 == d {
            0
        } else {
            j % d + 1
        },
{
    vstd::arithmetic::div_mod::lemma_fundamental_div_mod(j, d);
    let q = j / d;
    let m = j % d;
    assert(0 <= m < d) by {
        vstd::arithmetic::div_mod::lemma_mod_bound(j, d);
    }
    assert(d * q == q * d) by (nonlinear_arith);
    if m + 1 == d {
        assert(j + 1 == (q + 1) * d + 0) by (nonlinear_arith)
            requires
                j == d * q + m,
                m + 1 == d,
        ;
        vstd::arithmetic::div_mod::lemma_fundamental_div_mod_converse(j + 1, d, q + 1, 0);
    } else {
        vstd::arithmetic::div_mod::lemma_fundamental_div_mod_converse(j + 1, d, q, m + 1);
    }
}

proof fn lemma_prefix_mono(q: Seq<usize>, a: int, b: int)
    requires
        0 <= a <= b <= q.len(),
    ensures
        sum_prefix(q, a) <= sum_prefix(q, b),
    decreases b - a,
{
    if a < b {
        lemma_prefix_mono(q, a, b - 1);
    }
}

/// Law of the level budget: with at least one level and a positive total,
/// the levels get exactly the total when the shares do not already exceed
/// it, and never less than their shares.
pub proof fn lemma_orb_budget_total(total: nat, levels: nat, shares: Seq<usize>)
    requires
        shares.len() == levels,
        levels > 0,
        0 < total <= usize::MAX,
    ensures
        orb_budget(total as int, levels as int, shares).len() == levels,
        sum_all(shares) <= total ==> sum_all(orb_budget(total as int, levels as int, shares)) == total,
        forall|i: int| 0 <= i < levels ==> #[trigger] orb_budget(total as int, levels as int, shares)[i] >= shares[i],
{
    if sum_all(shares) < total {
        lemma_round_robin(shares, total - sum_all(shares));
    }
}

proof fn lemma_round_robin(base: Seq<usize>, k: int)
    requires
        base.len() > 0,
        0 <= k,
        sum_all(base) + k <= usize::MAX,
    ensures
        round_robin(base, k).len() == base.len(),
        sum_all(round_robin(base, k)) == sum_all(base) + k,
        forall|i: int| 0 <= i < base.len() ==> #[trigger] round_robin(base, k)[i] >= base[i],
    decreases k,
{
    if k > 0 {
        lemma_round_robin(base, k - 1);
        let prev = round_robin(base, k - 1);
        let i = (k - 1) % (base.len() as int);
        lemma_entry_le_sum(prev, prev.len() as int, i);
        lemma_sum_prefix_update(prev, prev.len() as int, i, (prev[i] + 1) as usize);
    }
}

/// The label of an image pair: the file names of both paths, joined by `|`;
/// a path without a file name stands for itself.
pub open spec fn pair_label(left_name: Option<Seq<char>>, left: Seq<char>, right_name: Option<Seq<char>>, right: Seq<char>) -> Seq<char> {
    let l = match left_name {
        Some(n) => n,
        None => left,
    };
    let r = match right_name {
        Some(n) => n,
        None => right,
    };
    l + "|"@ + r
}

/// Joins the labels of two images: each file name, or its whole path when
/// it has none, separated by `|`.
pub fn join_pair_label(left_name: Option<&str>, left_path: &str, right_name: Option<&str>, right_path: &str) -> (r:
    String)
    ensures
        r@ == pair_label(opt_str_chars(left_name), left_path@, opt_str_chars(right_name), right_path@),
{
    let mut r = String::new();
    match left_name {
        Some(n) => push_str_chars(&mut r, n),
        None => push_str_chars(&mut r, left_path),
    }
    push_str_chars(&mut r, "|");
    match right_name {
        Some(n) => push_str_chars(&mut r, n),
        None => push_str_chars(&mut r, right_path),
    }
    r
}

/// Labels an image pair by the file names of its two paths.
pub fn pair_label_from_paths(left_path: &str, right_path: &str) -> (r: String)
    ensures
        r@ == pair_label(path_file_name(left_path@), left_path@, path_file_name(right_path@), right_path@),
{
    let left_name = file_name_of(left_path);
    let right_name = file_name_of(right_path);
    let l: Option<&str> = match &left_name {
        Some(n) => Some(n.as_str()),
        None => None,
    };
    let r: Option<&str> = match &right_name {
        Some(n) => Some(n.as_str()),
        None => None,
    };
    join_pair_label(l, left_path, r, right_path)
}

} // verus!
