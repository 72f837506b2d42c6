//! Camera-alignment bookkeeping: options, intrinsics refinement masks,
//! reduced-system parameter layout, deterministic sampling, observation
//! grouping and the support graph of matched image pairs.

use vstd::prelude::*;
use crate::camera::CameraModel;

verus! {

/// Controls how bundle adjustment refines camera intrinsics.
#[derive(Debug, Clone, Copy, PartialEq, Eq, Structural)]
pub enum IntrinsicsRefinementPolicy {
    /// Use heuristic gating based on observation count and geometry support.
    Auto,
    /// Keep all intrinsics fixed during bundle adjustment.
    Fixed,
    /// Refine core intrinsics only (`fx`, `fy`, `cx`, `cy`).
    CoreOnly,
    /// Refine core intrinsics and radial distortion (`k1`, `k2`).
    CoreAndRadial,
    /// Refine all supported intrinsics (`fx`, `fy`, `cx`, `cy`, `k1`, `k2`, `p1`, `p2`).
    All,
}

impl Default for IntrinsicsRefinementPolicy {
    fn default() -> (r: IntrinsicsRefinementPolicy)
        ensures
            r == IntrinsicsRefinementPolicy::Auto,
    {
        IntrinsicsRefinementPolicy::Auto
    }
}

/// Selects the reduced camera solve backend used in Schur-style BA updates.
#[derive(Debug, Clone, Copy, PartialEq, Eq, Structural)]
pub enum ReducedCameraSolveMode {
    /// Prefer sparse PCG with robust dense fallback on numerical issues.
    SparsePcg,
    /// Force dense damped LU solve for reduced camera systems.
    DenseLu,
}

impl Default for ReducedCameraSolveMode {
    fn default() -> (r: ReducedCameraSolveMode)
        ensures
            r == ReducedCameraSolveMode::SparsePcg,
    {
        ReducedCameraSolveMode::SparsePcg
    }
}

/// Optional controls for camera alignment and bundle adjustment behavior.
#[derive(Debug, Clone, Copy, PartialEq, Eq, Structural)]
pub struct AlignmentOptions {
    /// Intrinsics refinement policy used by bundle adjustment.
    pub intrinsics_refinement: IntrinsicsRefinementPolicy,
    /// Reduced camera solver backend for Schur-style BA updates.
    pub reduced_camera_solve_mode: ReducedCameraSolveMode,
}

impl Default for AlignmentOptions {
    fn default() -> (r: AlignmentOptions)
        ensures
            r.intrinsics_refinement == IntrinsicsRefinementPolicy::Auto,
            r.reduced_camera_solve_mode == ReducedCameraSolveMode::SparsePcg,
    {
        AlignmentOptions {
            intrinsics_refinement: IntrinsicsRefinementPolicy::Auto,
            reduced_camera_solve_mode: ReducedCameraSolveMode::SparsePcg,
        }
    }
}

/// Which intrinsics bundle adjustment may refine, in the order
/// `[fx, fy, cx, cy, k1, k2, p1, p2]`.
#[derive(Debug, Clone, Copy)]
pub struct IntrinsicsRefineMask {
    pub params: [bool; 8],
}

impl IntrinsicsRefineMask {
    /// A mask that keeps every intrinsic fixed.
    pub fn none() -> (r: IntrinsicsRefineMask)
        ensures
            forall|i: int| 0 <= i < 8 ==> !#[trigger] r.params@[i],
    {
        IntrinsicsRefineMask { params: [false; 8] }
    }
}

/// The fraction `part / whole` is at least `percent` percent; an empty whole
/// has fraction 0.
pub open spec fn fraction_at_least(part: int, whole: int, percent: int) -> bool {
    whole > 0 && part * 100 >= whole * percent
}

/// The mask chosen by [`build_intrinsics_refine_mask`].
pub open spec fn refine_mask_spec(
    policy: IntrinsicsRefinementPolicy,
    allow: bool,
    observations: int,
    cameras: int,
    supported: int,
    weak: bool,
    model: CameraModel,
) -> Seq<bool> {
    let tangential_ok = model != CameraModel::Fisheye;
    match policy {
        IntrinsicsRefinementPolicy::Fixed => seq![false, false, false, false, false, false, false, false],
        IntrinsicsRefinementPolicy::CoreOnly => seq![true, true, true, true, false, false, false, false],
        IntrinsicsRefinementPolicy::CoreAndRadial => seq![true, true, true, true, true, true, false, false],
        IntrinsicsRefinementPolicy::All => seq![true, true, true, true, true, true, tangential_ok, tangential_ok],
        IntrinsicsRefinementPolicy::Auto => {
            if !allow {
                seq![false, false, false, false, false, false, false, false]
            } else {
                let scale = if cameras >= 2 { cameras } else { 2 };
                let pp = observations >= scale * 28 && fraction_at_least(supported, cameras, 92) && !weak;
                let k1 = observations >= scale * 32 && fraction_at_least(supported, cameras, 88);
                let k2 = observations >= scale * 44 && fraction_at_least(supported, cameras, 90) && !weak;
                let tan = observations >= scale * 52 && fraction_at_least(supported, cameras, 93) && !weak;
                seq![true, true, pp, pp, k1, k2, tangential_ok && tan, tangential_ok && tan]
            }
        },
    }
}

/// Decides which intrinsics bundle adjustment refines.
///
/// `supported_cameras` of the `camera_count` cameras have at least one
/// observation; the automatic policy compares that fraction (0 when there are
/// no cameras) with its percentage thresholds.
pub fn build_intrinsics_refine_mask(
    intrinsics_refinement_policy: IntrinsicsRefinementPolicy,
    allow_intrinsics_refinement: bool,
    observations_initial: usize,
    camera_count: usize,
    supported_cameras: usize,
    weak_geometry_support: bool,
    camera_model: CameraModel,
) -> (r: IntrinsicsRefineMask)
    requires
        supported_cameras <= camera_count,
    ensures
        r.params@ == refine_mask_spec(intrinsics_refinement_policy, allow_intrinsics_refinement,
            observations_initial as int, camera_count as int, supported_cameras as int,
            weak_geometry_support, camera_model),
{
    let tangential_ok = !matches!(camera_model, CameraModel::Fisheye);
    let r = match intrinsics_refinement_policy {
        IntrinsicsRefinementPolicy::Fixed => IntrinsicsRefineMask::none(),
        IntrinsicsRefinementPolicy::CoreOnly => IntrinsicsRefineMask {
            params: [true, true, true, true, false, false, false, false],
        },
        IntrinsicsRefinementPolicy::CoreAndRadial => IntrinsicsRefineMask {
            params: [true, true, true, true, true, true, false, false],
        },
        IntrinsicsRefinementPolicy::All => IntrinsicsRefineMask {
            params: [true, true, true, true, true, true, tangential_ok, tangential_ok],
        },
        IntrinsicsRefinementPolicy::Auto => {
            if !allow_intrinsics_refinement {
                IntrinsicsRefineMask::none()
            } else {
                let cam_scale: u64 = if camera_count >= 2 { camera_count as u64 } else { 2 };
                let obs = observations_initial as u128;
                let sup = supported_cameras as u128 * 100;
                let cams = camera_count as u128;
                let scale = cam_scale as u128;
                let any = camera_count > 0;
                let enough_for_pp = obs >= scale * 28 && any && sup >= cams * 92 && !weak_geometry_support;
                let enough_for_k1 = obs >= scale * 32 && any && sup >= cams * 88;
                let enough_for_k2 = obs >= scale * 44 && any && sup >= cams * 90 && !weak_geometry_support;
                let enough_for_tangential = obs >= scale * 52 && any && sup >= cams * 93 && !weak_geometry_support;
                IntrinsicsRefineMask {
                    params: [
                        true,
                        true,
                        enough_for_pp,
                        enough_for_pp,
                        enough_for_k1,
                        enough_for_k2,
                        tangential_ok && enough_for_tangential,
                        tangential_ok && enough_for_tangential,
                    ],
                }
            }
        },
    };
    assert(r.params@ =~= refine_mask_spec(intrinsics_refinement_policy, allow_intrinsics_refinement,
        observations_initial as int, camera_count as int, supported_cameras as int,
        weak_geometry_support, camera_model));
    r
}

/// Laws of the refinement mask: focal lengths are refined under every
/// policy but `Fixed` and a disabled `Auto`, which refine nothing; a fisheye
/// camera never refines the tangential terms; `CoreOnly` never refines
/// distortion; `All` on a pinhole camera refines everything.
pub proof fn lemma_refine_mask_laws(
    policy: IntrinsicsRefinementPolicy,
    allow: bool,
    observations: int,
    cameras: int,
    supported: int,
    weak: bool,
    model: CameraModel,
)
    ensures
        ({
            let m = refine_mask_spec(policy, allow, observations, cameras, supported, weak, model);
            &&& m.len() == 8
            &&& (policy == IntrinsicsRefinementPolicy::Fixed || (policy
                == IntrinsicsRefinementPolicy::Auto && !allow)) ==> forall|i: int|
                0 <= i < 8 ==> !#[trigger] m[i]
            &&& !(policy == IntrinsicsRefinementPolicy::Fixed || (policy
                == IntrinsicsRefinementPolicy::Auto && !allow)) ==> m[0] && m[1]
            &&& model == CameraModel::Fisheye ==> !m[6] && !m[7]
            &&& policy == IntrinsicsRefinementPolicy::CoreOnly ==> forall|i: int|
                4 <= i < 8 ==> !#[trigger] m[i]
            &&& (policy == IntrinsicsRefinementPolicy::All && model != CameraModel::Fisheye)
                ==> forall|i: int| 0 <= i < 8 ==> #[trigger] m[i]
        }),
{
}

/// Offset of camera `cam_idx`'s centre block in the reduced system; the
/// anchor camera 0 has none.
pub fn reduced_camera_param_offset(cam_idx: usize) -> (r: Option<usize>)
    requires
        cam_idx <= usize::MAX / 2,
    ensures
        r == (if cam_idx == 0 { None } else { Some(((cam_idx - 1) * 2) as usize) }),
{
    if cam_idx == 0 {
        None
    } else {
        Some((cam_idx - 1) * 2)
    }
}

/// Offset of camera `cam_idx`'s pose block in the reduced system; the
/// anchor camera 0 has none.
pub fn reduced_camera_pose_param_offset(cam_idx: usize) -> (r: Option<usize>)
    requires
        cam_idx <= usize::MAX / 4,
    ensures
        r == (if cam_idx == 0 { None } else { Some(((cam_idx - 1) * 4) as usize) }),
{
    if cam_idx == 0 {
        None
    } else {
        Some((cam_idx - 1) * 4)
    }
}


/// Indices of the observations of point `p`, in increasing order.
pub open spec fn observations_of(ids: Seq<usize>, p: usize) -> Seq<usize> {
    observations_of_prefix(ids, ids.len() as int, p)
}

/// Indices below `n` of the observations of point `p`, in increasing order.
pub open spec fn observations_of_prefix(ids: Seq<usize>, n: int, p: usize) -> Seq<usize> {
    index_seq(n).filter(observes(ids, p))
}

/// `0, 1, ..., n - 1`.
pub open spec fn index_seq(n: int) -> Seq<usize> {
    Seq::new(n as nat, |i: int| i as usize)
}

/// Observation `i` is of point `p`.
pub open spec fn observes(ids: Seq<usize>, p: usize) -> spec_fn(usize) -> bool {
    |i: usize| ids[i as int] == p
}

/// Largest point id, or 0 for no observations.
pub open spec fn max_point_id(ids: Seq<usize>) -> usize
    decreases ids.len(),
{
    if ids.len() == 0 {
        0
    } else {
        let m = max_point_id(ids.drop_last());
        if ids.last() > m { ids.last() } else { m }
    }
}

/// Observation indices grouped by point id, in increasing id order, with
/// empty groups left out.
pub open spec fn observation_groups(ids: Seq<usize>) -> Seq<Seq<usize>> {
    if ids.len() == 0 {
        Seq::empty()
    } else {
        Seq::new((max_point_id(ids) + 1) as nat, |p: int| observations_of(ids, p as usize))
            .filter(|g: Seq<usize>| g.len() > 0)
    }
}

/// Groups observation indices by the point they observe; `point_ids[i]` is the
/// point of observation `i`.
pub fn group_observation_indices_by_point_id(point_ids: &Vec<usize>) -> (r: Vec<Vec<usize>>)
    requires
        forall|i: int| 0 <= i < point_ids@.len() ==> #[trigger] point_ids@[i] < usize::MAX,
    ensures
        r@.map_values(|g: Vec<usize>| g@) == observation_groups(point_ids@),
{
    let ghost ids = point_ids@;
    if point_ids.len() == 0 {
        let r: Vec<Vec<usize>> = Vec::new();
        assert(r@.map_values(|g: Vec<usize>| g@) =~= observation_groups(ids));
        return r;
    }
    let mut max_id: usize = 0;
    let mut i: usize = 0;
    while i < point_ids.len()
        invariant
            ids == point_ids@,
            i <= ids.len(),
            max_id == max_point_id(ids.take(i as int)),
        decreases ids.len() - i,
    {
        assert(ids.take(i + 1).drop_last() =~= ids.take(i as int));
        if point_ids[i] > max_id {
            max_id = point_ids[i];
        }
        i = i + 1;
    }
    assert(ids.take(ids.len() as int) =~= ids);
    proof { lemma_max_point_id_bound(ids); }
    let mut grouped: Vec<Vec<usize>> = Vec::new();
    let mut p: usize = 0;
    while p <= max_id
        invariant
            max_id < usize::MAX,
            p <= max_id + 1,
            grouped@.len() == p,
            forall|q: int| 0 <= q < p ==> (#[trigger] grouped@[q])@ == Seq::<usize>::empty(),
        decreases max_id + 1 - p,
    {
        grouped.push(Vec::new());
        p = p + 1;
    }
    let mut i: usize = 0;
    while i < point_ids.len()
        invariant
            ids == point_ids@,
            max_id == max_point_id(ids),
            max_id < usize::MAX,
            forall|q: int| 0 <= q < ids.len() ==> #[trigger] ids[q] <= max_id,
            i <= ids.len(),
            grouped@.len() == max_id + 1,
            forall|q: int| 0 <= q <= max_id ==> (#[trigger] grouped@[q])@
                == observations_of_prefix(ids, i as int, q as usize),
        decreases ids.len() - i,
    {
        let pid = point_ids[i];
        let ghost before = grouped@;
        grouped[pid].push(i);
        proof {
            assert forall|q: int| 0 <= q <= max_id implies (#[trigger] grouped@[q])@
                == observations_of_prefix(ids, i + 1, q as usize) by {
                lemma_observations_prefix_push(ids, i as int, q as usize);
            }
        }
        i = i + 1;
    }
    let ghost all = Seq::new((max_id + 1) as nat, |q: int| observations_of(ids, q as usize));
    let ghost nonempty = |g: Seq<usize>| g.len() > 0;
    assert(grouped@.map_values(|g: Vec<usize>| g@) =~= all);
    let mut out: Vec<Vec<usize>> = Vec::new();
    let mut p: usize = 0;
    while p <= max_id
        invariant
            max_id < usize::MAX,
            p <= max_id + 1,
            grouped@.len() == max_id + 1,
            all.len() == max_id + 1,
            forall|q: int| p <= q <= max_id ==> (#[trigger] grouped@[q])@ == all[q],
            nonempty == (|g: Seq<usize>| g.len() > 0),
            out@.map_values(|g: Vec<usize>| g@) == all.take(p as int).filter(nonempty),
        decreases max_id + 1 - p,
    {
        let ghost before = grouped@;
        let mut g: Vec<usize> = Vec::new();
        std::mem::swap(&mut g, &mut grouped[p]);
        proof {
            assert(g@ == all[p as int]);
            assert(all.take(p + 1) =~= all.take(p as int).push(all[p as int]));
            all.take(p as int).lemma_filter_push(all[p as int], nonempty);
        }
        if g.len() > 0 {
            let ghost prev = out@;
            out.push(g);
            assert(out@.map_values(|g: Vec<usize>| g@) =~= prev.map_values(|g: Vec<usize>| g@).push(all[p as int]));
        }
        p = p + 1;
    }
    assert(all.take(all.len() as int) =~= all);
    out
}

proof fn lemma_observations_prefix_push(ids: Seq<usize>, n: int, p: usize)
    requires
        0 <= n < ids.len(),
        ids.len() <= usize::MAX,
    ensures
        observations_of_prefix(ids, n + 1, p) == if ids[n] == p {
            observations_of_prefix(ids, n, p).push(n as usize)
        } else {
            observations_of_prefix(ids, n, p)
        },
{
    assert(index_seq(n + 1) =~= index_seq(n).push(n as usize));
    index_seq(n).lemma_filter_push(n as usize, observes(ids, p));
}

proof fn lemma_max_point_id_bound(ids: Seq<usize>)
    ensures
        forall|q: int| 0 <= q < ids.len() ==> #[trigger] ids[q] <= max_point_id(ids),
        ids.len() > 0 ==> exists|q: int| 0 <= q < ids.len() && ids[q] == max_point_id(ids),
    decreases ids.len(),
{
    if ids.len() > 0 {
        lemma_max_point_id_bound(ids.drop_last());
        assert forall|q: int| 0 <= q < ids.len() implies #[trigger] ids[q] <= max_point_id(ids) by {
            if q < ids.len() - 1 {
                assert(ids[q] == ids.drop_last()[q]);
            }
        }
        if ids.len() > 1 && ids.last() <= max_point_id(ids.drop_last()) {
            let q = choose|q: int| 0 <= q < ids.len() - 1 && ids.drop_last()[q] == max_point_id(ids.drop_last());
            assert(ids[q] == ids.drop_last()[q]);
        } else {
            assert(ids[ids.len() - 1] == max_point_id(ids));
        }
    }
}


/// Generator state and indices drawn after `tries` draws of
/// [`deterministic_sample_indices`], stopping once `k` distinct indices are drawn.
pub open spec fn sample_after(n: usize, k: usize, seed: u64, tries: nat) -> (u64, Seq<usize>)
    decreases tries,
{
    if tries == 0 {
        (seed ^ ((n as u64) << 16u64) ^ ((k as u64) << 32u64), Seq::empty())
    } else {
        let prev = sample_after(n, k, seed, (tries - 1) as nat);
        if prev.1.len() >= k {
            prev
        } else {
            let state = prev.0.wrapping_mul(6364136223846793005).wrapping_add(1);
            let idx = (state % (n as u64)) as usize;
            if prev.1.contains(idx) {
                (state, prev.1)
            } else {
                (state, prev.1.push(idx))
            }
        }
    }
}

/// The sample: `k` distinct indices below `n` drawn from a seeded linear
/// congruential sequence within `64 k` draws, or `None`.
pub open spec fn sample_spec(n: usize, k: usize, seed: u64) -> Option<Seq<usize>> {
    if n < k || k == 0 {
        None
    } else {
        let drawn = sample_after(n, k, seed, (k * 64) as nat).1;
        if drawn.len() == k { Some(drawn) } else { None }
    }
}

proof fn lemma_sample_full_stays(n: usize, k: usize, seed: u64, t1: nat, t2: nat)
    requires
        t1 <= t2,
        sample_after(n, k, seed, t1).1.len() >= k,
    ensures
        sample_after(n, k, seed, t2) == sample_after(n, k, seed, t1),
    decreases t2 - t1,
{
    if t2 > t1 {
        lemma_sample_full_stays(n, k, seed, t1, (t2 - 1) as nat);
    }
}

/// Draws `k` distinct indices below `n` from a deterministic sequence seeded
/// by `seed`, `n` and `k`; `None` when `k` is 0, exceeds `n`, or `64 k` draws
/// do not yield `k` distinct indices.
pub fn deterministic_sample_indices(n: usize, k: usize, seed: u64) -> (r: Option<Vec<usize>>)
    requires
        k <= usize::MAX / 64,
    ensures
        match r {
            Some(v) => sample_spec(n, k, seed) == Some(v@),
            None => sample_spec(n, k, seed) is None,
        },
{
    if n < k || k == 0 {
        return None;
    }
    let mut indices: Vec<usize> = Vec::new();
    let mut state: u64 = seed ^ ((n as u64) << 16) ^ ((k as u64) << 32);
    let mut tries: usize = 0;
    let budget = k * 64;
    while indices.len() < k && tries < budget
        invariant
            n >= k,
            k > 0,
            budget == k * 64,
            tries <= budget,
            (state, indices@) == sample_after(n, k, seed, tries as nat),
        decreases budget - tries,
    {
        state = state.wrapping_mul(6364136223846793005).wrapping_add(1);
        let idx = (state % (n as u64)) as usize;
        let mut found = false;
        let mut j: usize = 0;
        while j < indices.len()
            invariant
                j <= indices@.len(),
                found == exists|q: int| 0 <= q < j && indices@[q] == idx,
            decreases indices.len() - j,
        {
            if indices[j] == idx {
                found = true;
            }
            j = j + 1;
        }
        if !found {
            indices.push(idx);
        }
        tries = tries + 1;
    }
    if indices.len() >= k {
        proof { lemma_sample_full_stays(n, k, seed, tries as nat, (k * 64) as nat); }
    }
    if indices.len() == k {
        Some(indices)
    } else {
        None
    }
}

proof fn lemma_sample_after_valid(n: usize, k: usize, seed: u64, tries: nat)
    requires
        n > 0,
    ensures
        sample_after(n, k, seed, tries).1.len() <= k,
        sample_after(n, k, seed, tries).1.no_duplicates(),
        forall|i: int| 0 <= i < sample_after(n, k, seed, tries).1.len() ==>
            #[trigger] sample_after(n, k, seed, tries).1[i] < n,
    decreases tries,
{
    if tries > 0 {
        lemma_sample_after_valid(n, k, seed, (tries - 1) as nat);
    }
}

/// Law of the sampler: a returned sample holds exactly `k` distinct indices,
/// all below `n`.
pub proof fn lemma_sample_indices_distinct(n: usize, k: usize, seed: u64)
    ensures
        sample_spec(n, k, seed) matches Some(v) ==> v.len() == k && v.no_duplicates()
            && forall|i: int| 0 <= i < v.len() ==> #[trigger] v[i] < n,
{
    if !(n < k || k == 0) {
        lemma_sample_after_valid(n, k, seed, (k * 64) as nat);
    }
}

/// Some observation refers to camera `c`.
pub open spec fn camera_observed(cam_indices: Seq<usize>, c: int) -> bool {
    exists|i: int| 0 <= i < cam_indices.len() && cam_indices[i] == c
}

/// Number of cameras below `m` that some observation refers to.
pub open spec fn observed_camera_count(cam_indices: Seq<usize>, m: int) -> int
    decreases m,
{
    if m <= 0 {
        0
    } else {
        observed_camera_count(cam_indices, m - 1) + if camera_observed(cam_indices, m - 1) { 1int } else { 0 }
    }
}

/// Number of the `camera_count` cameras that have at least one observation;
/// `cam_indices[i]` is the camera of observation `i`. Divided by
/// `camera_count`, this is the supported-camera fraction used to gate
/// intrinsics refinement.
pub fn count_supported_cameras(cam_indices: &Vec<usize>, camera_count: usize) -> (r: usize)
    ensures
        r == observed_camera_count(cam_indices@, camera_count as int),
        r <= camera_count,
{
    let flags = supported_cameras(cam_indices, camera_count);
    let mut count: usize = 0;
    let mut c: usize = 0;
    while c < camera_count
        invariant
            c <= camera_count,
            flags@.len() == camera_count,
            forall|q: int| 0 <= q < camera_count ==> #[trigger] flags@[q] == camera_observed(cam_indices@, q),
            count == observed_camera_count(cam_indices@, c as int),
            count <= c,
        decreases camera_count - c,
    {
        if flags[c] {
            count = count + 1;
        }
        c = c + 1;
    }
    count
}

/// Marks the cameras that have at least one observation.
pub fn supported_cameras(cam_indices: &Vec<usize>, camera_count: usize) -> (r: Vec<bool>)
    ensures
        r@.len() == camera_count,
        forall|c: int| 0 <= c < camera_count ==> #[trigger] r@[c] == camera_observed(cam_indices@, c),
{
    let mut supported: Vec<bool> = Vec::new();
    let mut c: usize = 0;
    while c < camera_count
        invariant
            c <= camera_count,
            supported@.len() == c,
            forall|q: int| 0 <= q < c ==> !#[trigger] supported@[q],
        decreases camera_count - c,
    {
        supported.push(false);
        c = c + 1;
    }
    let mut i: usize = 0;
    while i < cam_indices.len()
        invariant
            i <= cam_indices@.len(),
            supported@.len() == camera_count,
            forall|q: int| 0 <= q < camera_count ==> #[trigger] supported@[q]
                == exists|j: int| 0 <= j < i && cam_indices@[j] == q,
        decreases cam_indices.len() - i,
    {
        let cam = cam_indices[i];
        if cam < supported.len() {
            supported.set(cam, true);
        }
        assert forall|q: int| 0 <= q < camera_count implies #[trigger] supported@[q]
            == exists|j: int| 0 <= j < i + 1 && cam_indices@[j] == q by {
            if cam_indices@[i as int] == q {
                assert(cam_indices@[i as int] == q);
            }
        }
        i = i + 1;
    }
    supported
}

} // verus!
