//! BRIEF binary descriptors: the deterministic test pattern, descriptor bits,
//! Hamming distances and mutual nearest-neighbour matching.

use vstd::prelude::*;
use vstd::arithmetic::power2::pow2;
use crate::fast::{GrayImage, Keypoint, patch_average, patch_mean, BRIEF_AVERAGE_RADIUS_PX};

verus! {

/// Number of 64-bit words in a descriptor.
pub const BRIEF_WORDS: usize = 4;
/// Number of comparison bits in a descriptor.
pub const BRIEF_BITS: usize = 256;
/// Seed of the test-pattern generator.
pub const BRIEF_PATTERN_SEED: u64 = 0x9E37_79B9_7F4A_7C15;
/// Draws after which pattern generation gives up: one full period of the
/// generator, after which its states repeat and no new pair can appear.
pub const BRIEF_MAX_DRAWS: u64 = 0xffff_ffff_ffff_ffff;

/// One BRIEF intensity comparison: box mean at `p0` against box mean at `p1`,
/// both offsets from the keypoint.
#[derive(Debug, Clone, Copy)]
pub struct TestPair {
    pub p0: (i32, i32),
    pub p1: (i32, i32),
}

/// Next state of the pattern generator's linear congruential sequence.
pub open spec fn lcg_next(s: u64) -> u64 {
    s.wrapping_mul(6364136223846793005).wrapping_add(1442695040888963407)
}

/// Offset in `-15..=15` read from the low bits of a generator state.
pub open spec fn pattern_x(s: u64) -> int {
    (s % 31) as int - 15
}

/// Offset in `-15..=15` read from bits above the fifth of a generator state.
pub open spec fn pattern_y(s: u64) -> int {
    ((s >> 5u64) % 31) as int - 15
}

/// The candidate pair drawn from state `s`, and the state after the draw.
pub open spec fn pattern_draw(s: u64) -> (u64, TestPair) {
    let s1 = lcg_next(s);
    let s2 = lcg_next(s1);
    (s2, TestPair {
        p0: (pattern_x(s1) as i32, pattern_y(s1) as i32),
        p1: (pattern_x(s2) as i32, pattern_y(s2) as i32),
    })
}

pub open spec fn reversed(p: TestPair) -> TestPair {
    TestPair { p0: p.p1, p1: p.p0 }
}

/// A drawn pair is kept when its points differ, lie at least 3 px apart, and
/// neither it nor its reverse was kept before.
pub open spec fn pattern_accepts(kept: Seq<TestPair>, p: TestPair) -> bool {
    let dx = p.p1.0 - p.p0.0;
    let dy = p.p1.1 - p.p0.1;
    &&& !(p.p0 == p.p1)
    &&& dx * dx + dy * dy >= 9
    &&& !kept.contains(p)
    &&& !kept.contains(reversed(p))
}

/// Generator state and kept pairs after `draws` draws, stopping once
/// `length` pairs are kept.
pub open spec fn pattern_after(length: int, draws: nat) -> (u64, Seq<TestPair>)
    decreases draws,
{
    if draws == 0 {
        (BRIEF_PATTERN_SEED, Seq::empty())
    } else {
        let prev = pattern_after(length, (draws - 1) as nat);
        if prev.1.len() >= length {
            prev
        } else {
            let d = pattern_draw(prev.0);
            if pattern_accepts(prev.1, d.1) {
                (d.0, prev.1.push(d.1))
            } else {
                (d.0, prev.1)
            }
        }
    }
}

/// The test pattern: the pairs kept within the draw budget.
pub open spec fn brief_test_pattern(length: int) -> Seq<TestPair> {
    pattern_after(length, BRIEF_MAX_DRAWS as nat).1
}

proof fn lemma_pattern_full_stays(length: int, d1: nat, d2: nat)
    requires
        d1 <= d2,
        pattern_after(length, d1).1.len() >= length,
    ensures
        pattern_after(length, d2) == pattern_after(length, d1),
    decreases d2 - d1,
{
    if d2 > d1 {
        lemma_pattern_full_stays(length, d1, (d2 - 1) as nat);
    }
}

fn draw_pattern_pair(state: u64) -> (r: (u64, TestPair))
    ensures
        r == pattern_draw(state),
{
    let s1 = state.wrapping_mul(6364136223846793005).wrapping_add(1442695040888963407);
    let x0 = (s1 % 31) as i32 - 15;
    let y0 = ((s1 >> 5) % 31) as i32 - 15;
    let s2 = s1.wrapping_mul(6364136223846793005).wrapping_add(1442695040888963407);
    let x1 = (s2 % 31) as i32 - 15;
    let y1 = ((s2 >> 5) % 31) as i32 - 15;
    (s2, TestPair { p0: (x0, y0), p1: (x1, y1) })
}

fn pattern_seen(pairs: &Vec<TestPair>, cand: TestPair) -> (r: bool)
    ensures
        r == (pairs@.contains(cand) || pairs@.contains(reversed(cand))),
{
    let mut j: usize = 0;
    while j < pairs.len()
        invariant
            j <= pairs@.len(),
            forall|q: int| 0 <= q < j ==> pairs@[q] != cand && pairs@[q] != reversed(cand),
        decreases pairs.len() - j,
    {
        let o = pairs[j];
        if o.p0.0 == cand.p0.0 && o.p0.1 == cand.p0.1 && o.p1.0 == cand.p1.0 && o.p1.1 == cand.p1.1 {
            assert(pairs@[j as int] == cand);
            return true;
        }
        if o.p0.0 == cand.p1.0 && o.p0.1 == cand.p1.1 && o.p1.0 == cand.p0.0 && o.p1.1 == cand.p0.1 {
            assert(pairs@[j as int] == reversed(cand));
            return true;
        }
        j = j + 1;
    }
    false
}

fn pattern_accepts_exec(pairs: &Vec<TestPair>, cand: TestPair) -> (r: bool)
    requires
        -15 <= cand.p0.0 <= 15,
        -15 <= cand.p0.1 <= 15,
        -15 <= cand.p1.0 <= 15,
        -15 <= cand.p1.1 <= 15,
    ensures
        r == pattern_accepts(pairs@, cand),
{
    if cand.p0.0 == cand.p1.0 && cand.p0.1 == cand.p1.1 {
        return false;
    }
    let dx = cand.p1.0 - cand.p0.0;
    let dy = cand.p1.1 - cand.p0.1;
    assert(0 <= dx * dx <= 900) by (nonlinear_arith) requires -30 <= dx <= 30;
    assert(0 <= dy * dy <= 900) by (nonlinear_arith) requires -30 <= dy <= 30;
    if dx * dx + dy * dy < 9 {
        return false;
    }
    !pattern_seen(pairs, cand)
}

/// Builds the deterministic BRIEF test pattern: `length` distinct pairs of
/// offsets in `-15..=15`, drawn from a fixed linear congruential sequence; a
/// pair whose reverse is already in the pattern is skipped. Should the
/// generator's full period pass without `length` pairs, the pattern is
/// returned short.
pub fn build_deterministic_test_pairs(length: usize) -> (r: Vec<TestPair>)
    ensures
        r@ == brief_test_pattern(length as int),
{
    let mut pairs: Vec<TestPair> = Vec::new();
    let mut state: u64 = BRIEF_PATTERN_SEED;
    let mut draws: u64 = 0;
    while pairs.len() < length && draws < BRIEF_MAX_DRAWS
        invariant
            draws <= BRIEF_MAX_DRAWS,
            (state, pairs@) == pattern_after(length as int, draws as nat),
        decreases BRIEF_MAX_DRAWS - draws,
    {
        let (next, cand) = draw_pattern_pair(state);
        proof { lemma_draw_in_range(state); }
        let ok = pattern_accepts_exec(&pairs, cand);
        state = next;
        if ok {
            pairs.push(cand);
        }
        draws = draws + 1;
    }
    if pairs.len() >= length {
        proof { lemma_pattern_full_stays(length as int, draws as nat, BRIEF_MAX_DRAWS as nat); }
    }
    pairs
}

proof fn lemma_draw_in_range(s: u64)
    ensures
        -15 <= pattern_draw(s).1.p0.0 <= 15,
        -15 <= pattern_draw(s).1.p0.1 <= 15,
        -15 <= pattern_draw(s).1.p1.0 <= 15,
        -15 <= pattern_draw(s).1.p1.1 <= 15,
{
}


/// What every pattern kept so far satisfies.
pub open spec fn pattern_valid(ps: Seq<TestPair>) -> bool {
    &&& forall|i: int| 0 <= i < ps.len() ==> {
        let p = #[trigger] ps[i];
        let dx = p.p1.0 - p.p0.0;
        let dy = p.p1.1 - p.p0.1;
        &&& -15 <= p.p0.0 <= 15 && -15 <= p.p0.1 <= 15
        &&& -15 <= p.p1.0 <= 15 && -15 <= p.p1.1 <= 15
        &&& !(p.p0 == p.p1)
        &&& dx * dx + dy * dy >= 9
    }
    &&& forall|i: int, j: int| 0 <= i < ps.len() && 0 <= j < ps.len() && i != j ==>
        #[trigger] ps[i] != #[trigger] ps[j] && ps[i] != reversed(ps[j])
}

proof fn lemma_pattern_after_valid(length: int, draws: nat)
    ensures
        pattern_valid(pattern_after(length, draws).1),
        length >= 0 ==> pattern_after(length, draws).1.len() <= length,
    decreases draws,
{
    if draws > 0 {
        lemma_pattern_after_valid(length, (draws - 1) as nat);
        let prev = pattern_after(length, (draws - 1) as nat);
        if prev.1.len() < length {
            let d = pattern_draw(prev.0);
            lemma_draw_in_range(prev.0);
            if pattern_accepts(prev.1, d.1) {
                let ps = prev.1.push(d.1);
                assert forall|i: int, j: int| 0 <= i < ps.len() && 0 <= j < ps.len() && i != j implies
                    #[trigger] ps[i] != #[trigger] ps[j] && ps[i] != reversed(ps[j]) by {
                    if i == prev.1.len() {
                        assert(ps[j] == prev.1[j]);
                        assert(prev.1.contains(ps[j]));
                        if ps[i] == reversed(ps[j]) {
                            assert(reversed(d.1) == ps[j]);
                        }
                    } else if j == prev.1.len() {
                        assert(ps[i] == prev.1[i]);
                        assert(prev.1.contains(ps[i]));
                        if ps[i] == reversed(ps[j]) {
                            assert(prev.1.contains(reversed(d.1)));
                        }
                    } else {
                        assert(ps[i] == prev.1[i] && ps[j] == prev.1[j]);
                    }
                }
            }
        }
    }
}

/// Law of the test pattern: at most `length` pairs, every offset in
/// `-15..=15`, every pair non-degenerate and at least 3 px long, and no pair
/// repeated, either as is or reversed.
pub proof fn lemma_test_pattern_valid(length: nat)
    ensures
        pattern_valid(brief_test_pattern(length as int)),
        brief_test_pattern(length as int).len() <= length,
{
    lemma_pattern_after_valid(length as int, BRIEF_MAX_DRAWS as nat);
}


/// The pairs kept from the first `n` candidates of a stream, by the rule of
/// `pattern_accepts`, stopping once `length` pairs are kept.
pub open spec fn selected_after(cands: Seq<TestPair>, length: int, n: int) -> Seq<TestPair>
    decreases n,
{
    if n <= 0 {
        Seq::empty()
    } else {
        let prev = selected_after(cands, length, n - 1);
        if prev.len() >= length {
            prev
        } else if pattern_accepts(prev, cands[n - 1]) {
            prev.push(cands[n - 1])
        } else {
            prev
        }
    }
}

/// Candidate offsets small enough that squared distances fit `i64`.
pub open spec fn offsets_within(cands: Seq<TestPair>, bound: int) -> bool {
    forall|i: int|
        0 <= i < cands.len() ==> {
            let p = #[trigger] cands[i];
            &&& -bound <= p.p0.0 <= bound && -bound <= p.p0.1 <= bound
            &&& -bound <= p.p1.0 <= bound && -bound <= p.p1.1 <= bound
        }
}

fn accepts_candidate(pairs: &Vec<TestPair>, cand: TestPair) -> (r: bool)
    requires
        -1_000_000 <= cand.p0.0 <= 1_000_000,
        -1_000_000 <= cand.p0.1 <= 1_000_000,
        -1_000_000 <= cand.p1.0 <= 1_000_000,
        -1_000_000 <= cand.p1.1 <= 1_000_000,
    ensures
        r == pattern_accepts(pairs@, cand),
{
    if cand.p0.0 == cand.p1.0 && cand.p0.1 == cand.p1.1 {
        return false;
    }
    let dx: i64 = cand.p1.0 as i64 - cand.p0.0 as i64;
    let dy: i64 = cand.p1.1 as i64 - cand.p0.1 as i64;
    assert(0 <= dx * dx <= 4_000_000_000_000) by (nonlinear_arith)
        requires
            -2_000_000 <= dx <= 2_000_000,
    ;
    assert(0 <= dy * dy <= 4_000_000_000_000) by (nonlinear_arith)
        requires
            -2_000_000 <= dy <= 2_000_000,
    ;
    if dx * dx + dy * dy < 9 {
        return false;
    }
    !pattern_seen(pairs, cand)
}

/// Keeps, in order, the candidate pairs that are non-degenerate, at least
/// 3 px long and neither repeat nor reverse a pair kept before, until
/// `length` pairs are kept; this is how the Gaussian rBRIEF pattern of ORB
/// is filtered.
pub fn select_test_pairs(candidates: &Vec<TestPair>, length: usize) -> (r: Vec<TestPair>)
    requires
        offsets_within(candidates@, 1_000_000),
    ensures
        r@ == selected_after(candidates@, length as int, candidates@.len() as int),
{
    let mut pairs: Vec<TestPair> = Vec::new();
    let mut n: usize = 0;
    while n < candidates.len()
        invariant
            n <= candidates@.len(),
            offsets_within(candidates@, 1_000_000),
            pairs@ == selected_after(candidates@, length as int, n as int),
        decreases candidates.len() - n,
    {
        if pairs.len() < length {
            let cand = candidates[n];
            assert(offsets_within(candidates@, 1_000_000));
            assert(candidates@[n as int] == cand);
            if accepts_candidate(&pairs, cand) {
                pairs.push(cand);
            }
        }
        n = n + 1;
    }
    pairs
}

/// What a kept selection satisfies: no pair is degenerate or shorter than
/// 3 px, and no pair repeats or reverses another.
pub open spec fn selection_valid(ps: Seq<TestPair>) -> bool {
    &&& forall|i: int|
        0 <= i < ps.len() ==> {
            let p = #[trigger] ps[i];
            let dx = p.p1.0 - p.p0.0;
            let dy = p.p1.1 - p.p0.1;
            &&& !(p.p0 == p.p1)
            &&& dx * dx + dy * dy >= 9
        }
    &&& forall|i: int, j: int|
        0 <= i < ps.len() && 0 <= j < ps.len() && i != j ==> #[trigger] ps[i] != #[trigger] ps[j]
            && ps[i] != reversed(ps[j])
}

/// Law of the selection: it keeps at most `length` pairs, none degenerate
/// or shorter than 3 px, none repeating or reversing another, all taken from
/// the candidates; and once `length` pairs are kept, further candidates
/// change nothing.
pub proof fn lemma_selected_pairs_valid(cands: Seq<TestPair>, length: nat, n: int, m: int)
    requires
        0 <= n <= m,
    ensures
        selection_valid(selected_after(cands, length as int, n)),
        selected_after(cands, length as int, n).len() <= length,
        forall|k: int|
            0 <= k < selected_after(cands, length as int, n).len() ==> exists|i: int|
                0 <= i < n && cands[i] == #[trigger] selected_after(cands, length as int, n)[k],
        selected_after(cands, length as int, n).len() == length ==> selected_after(
            cands,
            length as int,
            m,
        ) == selected_after(cands, length as int, n),
    decreases m,
{
    if m > n {
        lemma_selected_pairs_valid(cands, length, n, m - 1);
    } else if n > 0 {
        lemma_selected_pairs_valid(cands, length, n - 1, n - 1);
        let prev = selected_after(cands, length as int, n - 1);
        if prev.len() < length && pattern_accepts(prev, cands[n - 1]) {
            let d = cands[n - 1];
            let ps = prev.push(d);
            assert forall|i: int, j: int|
                0 <= i < ps.len() && 0 <= j < ps.len() && i != j implies #[trigger] ps[i]
                != #[trigger] ps[j] && ps[i] != reversed(ps[j]) by {
                if i == prev.len() {
                    assert(ps[j] == prev[j]);
                    assert(prev.contains(ps[j]));
                    if ps[i] == reversed(ps[j]) {
                        assert(reversed(d) == ps[j]);
                    }
                } else if j == prev.len() {
                    assert(ps[i] == prev[i]);
                    assert(prev.contains(ps[i]));
                    if ps[i] == reversed(ps[j]) {
                        assert(prev.contains(reversed(d)));
                    }
                } else {
                    assert(ps[i] == prev[i] && ps[j] == prev[j]);
                }
            }
            assert forall|k: int| 0 <= k < ps.len() implies exists|i: int|
                0 <= i < n && cands[i] == #[trigger] ps[k] by {
                if k < prev.len() {
                    assert(ps[k] == prev[k]);
                } else {
                    assert(cands[n - 1] == ps[k]);
                }
            }
        }
    }
}

/// A binary descriptor: 256 comparison bits packed into four words.
#[derive(Debug, Clone, Copy)]
pub struct BriefDescriptor {
    pub corner: Keypoint,
    pub words: [u64; 4],
    pub octave: u8,
}

/// Bit `b` of a packed descriptor.
pub open spec fn desc_bit(words: [u64; 4], b: int) -> bool {
    (words@[b / 64] >> ((b % 64) as u64)) & 1u64 == 1u64
}

/// Outcome of one comparison at keypoint (`x`, `y`): the box mean at `p0` is darker than at `p1`.
pub open spec fn brief_bit(img: GrayImage, x: int, y: int, p: TestPair) -> bool {
    patch_mean(img, x + p.p0.0, y + p.p0.1) < patch_mean(img, x + p.p1.0, y + p.p1.1)
}

/// Whether every box centre that the pattern compares around (`x`, `y`) has
/// coordinates whose averaging box is addressable with `i32`.
pub open spec fn pattern_fits(x: int, y: int, pairs: Seq<TestPair>) -> bool {
    &&& x <= i32::MAX
    &&& y <= i32::MAX
    &&& forall|i: int| 0 <= i < pairs.len() ==> {
        let p = #[trigger] pairs[i];
        let r = BRIEF_AVERAGE_RADIUS_PX as int;
        &&& i32::MIN + r <= x + p.p0.0 < i32::MAX - r
        &&& i32::MIN + r <= y + p.p0.1 < i32::MAX - r
        &&& i32::MIN + r <= x + p.p1.0 < i32::MAX - r
        &&& i32::MIN + r <= y + p.p1.1 < i32::MAX - r
    }
}

proof fn lemma_set_bit(w: u64, k: u64, j: u64)
    requires
        k < 64,
        j < 64,
    ensures
        ((w | (1u64 << k)) >> j) & 1u64 == (if j == k { 1u64 } else { (w >> j) & 1u64 }),
{
    assert(((w | (1u64 << k)) >> j) & 1u64 == (if j == k { 1u64 } else { (w >> j) & 1u64 })) by (bit_vector)
        requires k < 64, j < 64;
}

proof fn lemma_zero_bits(j: u64)
    requires
        j < 64,
    ensures
        (0u64 >> j) & 1u64 == 0u64,
{
    assert((0u64 >> j) & 1u64 == 0u64) by (bit_vector);
}

/// Packs the comparison bits of `pairs` at keypoint (`x`, `y`): bit `b` is set
/// exactly when pair `b` exists and its first box is darker than its second.
pub fn brief_descriptor_words(image: &GrayImage, x: u32, y: u32, pairs: &Vec<TestPair>) -> (r: [u64; 4])
    requires
        image.wf(),
        pairs@.len() <= BRIEF_BITS,
        pattern_fits(x as int, y as int, pairs@),
    ensures
        forall|b: int| 0 <= b < BRIEF_BITS ==> #[trigger] desc_bit(r, b)
            == (b < pairs@.len() && brief_bit(*image, x as int, y as int, pairs@[b])),
{
    let mut words: [u64; 4] = [0u64; 4];
    proof {
        assert forall|b: int| 0 <= b < BRIEF_BITS implies !#[trigger] desc_bit(words, b) by {
            lemma_zero_bits((b % 64) as u64);
        }
    }
    let cx = x as i32;
    let cy = y as i32;
    let mut bit_idx: usize = 0;
    while bit_idx < pairs.len()
        invariant
            image.wf(),
            cx == x,
            cy == y,
            pairs@.len() <= BRIEF_BITS,
            pattern_fits(x as int, y as int, pairs@),
            bit_idx <= pairs@.len(),
            forall|b: int| 0 <= b < BRIEF_BITS ==> #[trigger] desc_bit(words, b)
                == (b < bit_idx && brief_bit(*image, x as int, y as int, pairs@[b])),
        decreases pairs.len() - bit_idx,
    {
        let pair = pairs[bit_idx];
        let p0 = patch_average(image, cx + pair.p0.0, cy + pair.p0.1);
        let p1 = patch_average(image, cx + pair.p1.0, cy + pair.p1.1);
        if p0 < p1 {
            let wi = bit_idx / 64;
            let k = (bit_idx % 64) as u64;
            let ghost old_words = words;
            let nw = words[wi] | (1u64 << k);
            words[wi] = nw;
            proof {
                assert(words@ == old_words@.update(wi as int, nw));
                assert(brief_bit(*image, x as int, y as int, pairs@[bit_idx as int]));
                assert forall|b: int| 0 <= b < BRIEF_BITS implies #[trigger] desc_bit(words, b)
                    == (b < bit_idx + 1 && brief_bit(*image, x as int, y as int, pairs@[b])) by {
                    vstd::arithmetic::div_mod::lemma_fundamental_div_mod(b, 64);
                    vstd::arithmetic::div_mod::lemma_fundamental_div_mod(bit_idx as int, 64);
                    assert(0 <= b % 64 < 64);
                    assert(0 <= b / 64 < 4);
                    lemma_set_bit(old_words@[wi as int], k, (b % 64) as u64);
                    if b / 64 == wi as int {
                        assert(words@[b / 64] == nw);
                        if b != bit_idx {
                            assert((b % 64) as u64 != k);
                            assert(desc_bit(words, b) == desc_bit(old_words, b));
                        } else {
                            assert(desc_bit(words, b));
                        }
                    } else {
                        assert(words@[b / 64] == old_words@[b / 64]);
                        assert(desc_bit(words, b) == desc_bit(old_words, b));
                    }
                }
            }
        }
        bit_idx = bit_idx + 1;
    }
    words
}

/// `d` is the descriptor of keypoint `k` at `octave` for the comparison pattern `pairs`.
pub open spec fn describes(img: GrayImage, pairs: Seq<TestPair>, d: BriefDescriptor, k: Keypoint, octave: u8) -> bool {
    &&& d.corner == k
    &&& d.octave == octave
    &&& forall|b: int| 0 <= b < BRIEF_BITS ==> #[trigger] desc_bit(d.words, b)
        == (b < pairs.len() && brief_bit(img, k.x as int, k.y as int, pairs[b]))
}

/// Indices below `n` whose flag is set, in increasing order.
pub open spec fn flagged_indices(flags: Seq<bool>, n: int) -> Seq<int> {
    Seq::new(n as nat, |q: int| q).filter(|q: int| flags[q])
}

/// Descriptors of the keypoints flagged in `keep`, in keypoint order.
///
/// `keep[i]` says whether keypoint `i` has enough local texture to be
/// described; the texture measure is computed by the caller.
pub fn compute_brief_descriptors(
    image: &GrayImage,
    keypoints: &Vec<Keypoint>,
    keep: &Vec<bool>,
    pairs: &Vec<TestPair>,
    octave: u8,
) -> (r: Vec<BriefDescriptor>)
    requires
        image.wf(),
        keep@.len() == keypoints@.len(),
        forall|i: int| 0 <= i < keypoints@.len() ==> pattern_fits(
            (#[trigger] keypoints@[i]).x as int,
            keypoints@[i].y as int,
            pairs@,
        ),
        pairs@.len() <= BRIEF_BITS,
    ensures
        r@.len() == flagged_indices(keep@, keep@.len() as int).len(),
        forall|j: int| 0 <= j < r@.len() ==> describes(*image, pairs@, #[trigger] r@[j],
            keypoints@[flagged_indices(keep@, keep@.len() as int)[j]], octave),
{
    let ghost pred = |q: int| keep@[q];
    let mut out: Vec<BriefDescriptor> = Vec::new();
    let mut i: usize = 0;
    while i < keypoints.len()
        invariant
            image.wf(),
            keep@.len() == keypoints@.len(),
            forall|q: int| 0 <= q < keypoints@.len() ==> pattern_fits(
                (#[trigger] keypoints@[q]).x as int,
                keypoints@[q].y as int,
                pairs@,
            ),
            pairs@.len() <= BRIEF_BITS,
            i <= keypoints@.len(),
            pred == (|q: int| keep@[q]),
            out@.len() == flagged_indices(keep@, i as int).len(),
            forall|j: int| 0 <= j < out@.len() ==> describes(*image, pairs@, #[trigger] out@[j],
                keypoints@[flagged_indices(keep@, i as int)[j]], octave),
            forall|j: int| 0 <= j < flagged_indices(keep@, i as int).len() ==>
                0 <= #[trigger] flagged_indices(keep@, i as int)[j] < i,
        decreases keypoints.len() - i,
    {
        let ghost before = flagged_indices(keep@, i as int);
        proof {
            assert(Seq::new((i + 1) as nat, |q: int| q) =~= Seq::new(i as nat, |q: int| q).push(i as int));
            Seq::new(i as nat, |q: int| q).lemma_filter_push(i as int, pred);
            assert forall|j: int| 0 <= j < before.len() implies 0 <= #[trigger] before[j] < i by {
                Seq::new(i as nat, |q: int| q).lemma_filter_pred(pred, j);
            }
        }
        let ghost old_out = out@;
        if keep[i] {
            let k = keypoints[i];
            let words = brief_descriptor_words(image, k.x, k.y, pairs);
            out.push(BriefDescriptor { corner: k, words, octave });
            assert(flagged_indices(keep@, i + 1) == before.push(i as int));
            assert forall|j: int| 0 <= j < out@.len() implies describes(*image, pairs@, #[trigger] out@[j],
                keypoints@[flagged_indices(keep@, i + 1)[j]], octave) by {
                if j < old_out.len() {
                    assert(out@[j] == old_out[j]);
                }
            }
        } else {
            assert(flagged_indices(keep@, i + 1) == before);
        }
        i = i + 1;
    }
    out
}


/// Number of set bits of `x`.
pub open spec fn popcount(x: u64) -> nat
    decreases x,
{
    if x == 0 { 0 } else { (x % 2) as nat + popcount(x / 2) }
}

/// Number of set bits of a word.
pub fn count_ones_u64(x: u64) -> (r: u32)
    ensures
        r == popcount(x),
        r <= 64,
{
    let mut v = x;
    let mut c: u32 = 0;
    let mut steps: u32 = 0;
    proof {
        vstd::arithmetic::power2::lemma2_to64_rest();
    }
    while v != 0
        invariant
            popcount(x) == c + popcount(v),
            c <= steps,
            steps <= 64,
            v < pow2((64 - steps) as nat),
        decreases v,
    {
        proof { lemma_halve_bound(v, steps); }
        c = c + (v % 2) as u32;
        v = v / 2;
        steps = steps + 1;
    }
    c
}

proof fn lemma_halve_bound(v: u64, steps: u32)
    requires
        v != 0,
        steps <= 64,
        v < pow2((64 - steps) as nat),
    ensures
        steps < 64,
        v / 2 < pow2((64 - (steps + 1)) as nat),
{
    if steps == 64 {
        vstd::arithmetic::power2::lemma2_to64();
    }
    vstd::arithmetic::power2::lemma_pow2_unfold((64 - steps) as nat);
}

/// Hamming distance between two packed descriptors.
pub open spec fn hamming(a: [u64; 4], b: [u64; 4]) -> nat {
    popcount(a@[0] ^ b@[0]) + popcount(a@[1] ^ b@[1]) + popcount(a@[2] ^ b@[2]) + popcount(a@[3] ^ b@[3])
}

/// Number of differing bits between two descriptors.
pub fn hamming_distance(left: &BriefDescriptor, right: &BriefDescriptor) -> (r: u32)
    ensures
        r == hamming(left.words, right.words),
        r <= BRIEF_BITS,
{
    let a = count_ones_u64(left.words[0] ^ right.words[0]);
    let b = count_ones_u64(left.words[1] ^ right.words[1]);
    let c = count_ones_u64(left.words[2] ^ right.words[2]);
    let d = count_ones_u64(left.words[3] ^ right.words[3]);
    a + b + c + d
}

/// Law of the Hamming distance: it is symmetric, and a descriptor is at
/// distance 0 from itself.
pub proof fn lemma_hamming_symmetric(a: [u64; 4], b: [u64; 4])
    ensures
        hamming(a, b) == hamming(b, a),
        hamming(a, a) == 0,
{
    assert forall|x: u64, y: u64| #[trigger] (x ^ y) == y ^ x by {
        assert(x ^ y == y ^ x) by (bit_vector);
    }
    assert forall|x: u64| #[trigger] (x ^ x) == 0u64 by {
        assert(x ^ x == 0u64) by (bit_vector);
    }
}

/// `c` may be compared with `q` under the octave constraint.
pub open spec fn octave_ok(q: BriefDescriptor, c: BriefDescriptor, max_octave_diff: Option<u8>) -> bool {
    match max_octave_diff {
        Some(m) => (if q.octave >= c.octave { q.octave - c.octave } else { c.octave - q.octave }) <= m,
        None => true,
    }
}

/// Result of [`best_two_binary_matches`]: index and distance of the nearest
/// eligible candidate (the first one on ties), and the distance of the nearest
/// other eligible candidate, if any.
pub open spec fn best_two_spec(q: BriefDescriptor, cs: Seq<BriefDescriptor>, max_octave_diff: Option<u8>,
    r: Option<(usize, u32, Option<u32>)>) -> bool {
    match r {
        None => forall|j: int| 0 <= j < cs.len() ==> !octave_ok(q, #[trigger] cs[j], max_octave_diff),
        Some((bi, bd, sd)) => {
            &&& 0 <= bi < cs.len()
            &&& octave_ok(q, cs[bi as int], max_octave_diff)
            &&& bd == hamming(q.words, cs[bi as int].words)
            &&& forall|j: int| 0 <= j < cs.len() && octave_ok(q, #[trigger] cs[j], max_octave_diff) ==>
                hamming(q.words, cs[j].words) >= bd
            &&& forall|j: int| 0 <= j < bi && octave_ok(q, #[trigger] cs[j], max_octave_diff) ==>
                hamming(q.words, cs[j].words) > bd
            &&& match sd {
                None => forall|j: int| 0 <= j < cs.len() && j != bi ==> !octave_ok(q, #[trigger] cs[j], max_octave_diff),
                Some(s) => {
                    &&& exists|j: int| 0 <= j < cs.len() && j != bi && octave_ok(q, #[trigger] cs[j], max_octave_diff)
                        && hamming(q.words, cs[j].words) == s
                    &&& forall|j: int| 0 <= j < cs.len() && j != bi && octave_ok(q, #[trigger] cs[j], max_octave_diff) ==>
                        hamming(q.words, cs[j].words) >= s
                },
            }
        },
    }
}

/// Nearest and second-nearest eligible candidates of `query` by Hamming distance.
pub fn best_two_binary_matches(
    query: &BriefDescriptor,
    candidates: &Vec<BriefDescriptor>,
    max_octave_diff: Option<u8>,
) -> (r: Option<(usize, u32, Option<u32>)>)
    ensures
        best_two_spec(*query, candidates@, max_octave_diff, r),
{
    let ghost cs = candidates@;
    let ghost q = *query;
    let mut best: Option<(usize, u32)> = None;
    let mut second: Option<u32> = None;
    let mut idx: usize = 0;
    while idx < candidates.len()
        invariant
            cs == candidates@,
            q == *query,
            idx <= cs.len(),
            match best {
                None => forall|j: int| 0 <= j < idx ==> !octave_ok(q, #[trigger] cs[j], max_octave_diff),
                Some((bi, bd)) => {
                    &&& 0 <= bi < idx
                    &&& octave_ok(q, cs[bi as int], max_octave_diff)
                    &&& bd == hamming(q.words, cs[bi as int].words)
                    &&& forall|j: int| 0 <= j < idx && octave_ok(q, #[trigger] cs[j], max_octave_diff) ==>
                        hamming(q.words, cs[j].words) >= bd
                    &&& forall|j: int| 0 <= j < bi && octave_ok(q, #[trigger] cs[j], max_octave_diff) ==>
                        hamming(q.words, cs[j].words) > bd
                    &&& match second {
                        None => forall|j: int| 0 <= j < idx && j != bi ==> !octave_ok(q, #[trigger] cs[j], max_octave_diff),
                        Some(s) => {
                            &&& exists|j: int| 0 <= j < idx && j != bi && octave_ok(q, #[trigger] cs[j], max_octave_diff)
                                && hamming(q.words, cs[j].words) == s
                            &&& forall|j: int| 0 <= j < idx && j != bi && octave_ok(q, #[trigger] cs[j], max_octave_diff) ==>
                                hamming(q.words, cs[j].words) >= s
                        },
                    }
                },
            },
            best is None ==> second is None,
        decreases candidates.len() - idx,
    {
        let c = &candidates[idx];
        let eligible = match max_octave_diff {
            Some(m) => {
                let diff = if query.octave >= c.octave { query.octave - c.octave } else { c.octave - query.octave };
                diff <= m
            },
            None => true,
        };
        if eligible {
            let dist = hamming_distance(query, c);
            match best {
                None => {
                    best = Some((idx, dist));
                    second = None;
                },
                Some((bi, bd)) => {
                    if dist < bd {
                        best = Some((idx, dist));
                        second = Some(bd);
                        assert(0 <= bi < idx + 1 && bi != idx && octave_ok(q, cs[bi as int], max_octave_diff));
                    } else {
                        match second {
                            None => {
                                second = Some(dist);
                            },
                            Some(s) => {
                                if dist < s {
                                    second = Some(dist);
                                }
                            },
                        }
                    }
                },
            }
        }
        idx = idx + 1;
    }
    match best {
        None => None,
        Some((bi, bd)) => Some((bi, bd, second)),
    }
}


/// Left index `i` and the right index it prefers point at each other.
pub open spec fn is_mutual(b: Seq<Option<usize>>, c: Seq<Option<usize>>, i: int) -> bool {
    0 <= i < b.len() && b[i] is Some && (b[i]->0 as int) < c.len() && c[b[i]->0 as int] == Some(i as usize)
}

/// Cross-checked matches: `(i, j)` for each left index `i`, in increasing
/// order, whose preferred right index `j` prefers `i` back.
pub open spec fn mutual_pairs(b: Seq<Option<usize>>, c: Seq<Option<usize>>) -> Seq<(usize, usize)> {
    Seq::new(b.len(), |i: int| i).filter(|i: int| is_mutual(b, c, i)).map_values(|i: int| (i as usize, b[i]->0))
}

/// Keeps the left-to-right preferences that are confirmed by the
/// right-to-left preferences.
pub fn mutual_best_matches(best_right_for_left: &Vec<Option<usize>>, best_left_for_right: &Vec<Option<usize>>)
    -> (r: Vec<(usize, usize)>)
    requires
        forall|i: int| 0 <= i < best_right_for_left@.len() && #[trigger] best_right_for_left@[i] is Some
            ==> (best_right_for_left@[i]->0 as int) < best_left_for_right@.len(),
    ensures
        r@ == mutual_pairs(best_right_for_left@, best_left_for_right@),
{
    let ghost b = best_right_for_left@;
    let ghost c = best_left_for_right@;
    let ghost pred = |i: int| is_mutual(b, c, i);
    let ghost f = |i: int| (i as usize, b[i]->0);
    let mut out: Vec<(usize, usize)> = Vec::new();
    let mut i: usize = 0;
    while i < best_right_for_left.len()
        invariant
            b == best_right_for_left@,
            c == best_left_for_right@,
            forall|q: int| 0 <= q < b.len() && #[trigger] b[q] is Some ==> (b[q]->0 as int) < c.len(),
            pred == (|q: int| is_mutual(b, c, q)),
            f == (|q: int| (q as usize, b[q]->0)),
            i <= b.len(),
            out@ == Seq::new(i as nat, |q: int| q).filter(pred).map_values(f),
        decreases b.len() - i,
    {
        let ghost prev = Seq::new(i as nat, |q: int| q);
        proof {
            assert(Seq::new((i + 1) as nat, |q: int| q) =~= prev.push(i as int));
            prev.lemma_filter_push(i as int, pred);
        }
        match best_right_for_left[i] {
            Some(right_idx) => {
                match best_left_for_right[right_idx] {
                    Some(back) => {
                        if back == i {
                            out.push((i, right_idx));
                            assert(prev.filter(pred).push(i as int).map_values(f)
                                =~= prev.filter(pred).map_values(f).push((i, right_idx)));
                        }
                    },
                    None => {},
                }
            },
            None => {},
        }
        i = i + 1;
    }
    assert(Seq::new(b.len(), |q: int| q) =~= Seq::new(i as nat, |q: int| q));
    out
}

/// Membership in the cross-checked matches.
pub proof fn lemma_mutual_pairs_contains(b: Seq<Option<usize>>, c: Seq<Option<usize>>, i: usize, j: usize)
    requires
        b.len() <= usize::MAX,
    ensures
        mutual_pairs(b, c).contains((i, j)) <==> ((i as int) < b.len() && b[i as int] == Some(j)
            && (j as int) < c.len() && c[j as int] == Some(i)),
{
    let idx = Seq::new(b.len(), |q: int| q);
    let pred = |q: int| is_mutual(b, c, q);
    let f = |q: int| (q as usize, b[q]->0);
    let filtered = idx.filter(pred);
    let m = mutual_pairs(b, c);
    assert(m == filtered.map_values(f));
    if m.contains((i, j)) {
        let k = choose|k: int| 0 <= k < m.len() && m[k] == (i, j);
        idx.lemma_filter_pred(pred, k);
        assert(filtered.contains(filtered[k]));
        idx.lemma_filter_contains_rev(pred, filtered[k]);
        let q = filtered[k];
        assert(m[k] == f(q));
        assert(is_mutual(b, c, q));
    }
    if (i as int) < b.len() && b[i as int] == Some(j) && (j as int) < c.len() && c[j as int] == Some(i) {
        assert(idx[i as int] == i as int);
        idx.lemma_filter_contains(pred, i as int);
        let k = choose|k: int| 0 <= k < filtered.len() && filtered[k] == i as int;
        assert(m[k] == (i, j));
        assert(m.contains((i, j)));
    }
}

/// Ratio test of a nearest-neighbour match, the ratio given in thousandths:
/// the best distance must be at most `ratio_permille / 1000` of the
/// runner-up's. Without a runner-up only an exact match that is the sole
/// candidate passes; a runner-up at distance 0 leaves only exact matches.
pub open spec fn ratio_ok(best: u32, second: Option<u32>, ratio_permille: u32, candidate_count: int) -> bool {
    match second {
        None => candidate_count == 1 && best == 0,
        Some(s) => if s == 0 {
            best == 0
        } else {
            best * 1000 <= ratio_permille * s
        },
    }
}

/// Applies the ratio test to a nearest-neighbour match.
pub fn passes_ratio_test(best: u32, second: Option<u32>, ratio_permille: u32, candidate_count: usize) -> (r:
    bool)
    ensures
        r == ratio_ok(best, second, ratio_permille, candidate_count as int),
{
    match second {
        None => candidate_count == 1 && best == 0,
        Some(s) => {
            if s == 0 {
                best == 0
            } else {
                assert((ratio_permille as u64) * (s as u64) <= 0xffff_ffff * 0xffff_ffff)
                    by (nonlinear_arith)
                    requires
                        ratio_permille <= 0xffff_ffff,
                        s <= 0xffff_ffff,
                ;
                (best as u64) * 1000 <= (ratio_permille as u64) * (s as u64)
            }
        },
    }
}

/// The nearest and second-nearest candidates, as `best_two_spec` determines
/// them.
pub open spec fn best_two_of(q: BriefDescriptor, cs: Seq<BriefDescriptor>, max_octave_diff: Option<u8>) -> Option<
    (usize, u32, Option<u32>),
> {
    choose|r: Option<(usize, u32, Option<u32>)>| best_two_spec(q, cs, max_octave_diff, r)
}

/// `best_two_spec` admits one result only.
pub proof fn lemma_best_two_unique(
    q: BriefDescriptor,
    cs: Seq<BriefDescriptor>,
    m: Option<u8>,
    r1: Option<(usize, u32, Option<u32>)>,
    r2: Option<(usize, u32, Option<u32>)>,
)
    requires
        best_two_spec(q, cs, m, r1),
        best_two_spec(q, cs, m, r2),
    ensures
        r1 == r2,
{
    match (r1, r2) {
        (Some((b1, d1, s1)), Some((b2, d2, s2))) => {
            assert(hamming(q.words, cs[b2 as int].words) >= d1);
            assert(hamming(q.words, cs[b1 as int].words) >= d2);
            if b1 < b2 {
                assert(hamming(q.words, cs[b1 as int].words) > d2);
            }
            if b2 < b1 {
                assert(hamming(q.words, cs[b2 as int].words) > d1);
            }
            assert(b1 == b2);
            match (s1, s2) {
                (Some(x), Some(y)) => {
                    let j1 = choose|j: int|
                        0 <= j < cs.len() && j != b1 && octave_ok(q, #[trigger] cs[j], m) && hamming(
                            q.words,
                            cs[j].words,
                        ) == x;
                    let j2 = choose|j: int|
                        0 <= j < cs.len() && j != b2 && octave_ok(q, #[trigger] cs[j], m) && hamming(
                            q.words,
                            cs[j].words,
                        ) == y;
                    assert(hamming(q.words, cs[j1].words) >= y);
                    assert(hamming(q.words, cs[j2].words) >= x);
                },
                (Some(x), None) => {
                    let j1 = choose|j: int|
                        0 <= j < cs.len() && j != b1 && octave_ok(q, #[trigger] cs[j], m) && hamming(
                            q.words,
                            cs[j].words,
                        ) == x;
                    assert(!octave_ok(q, cs[j1], m));
                },
                (None, Some(y)) => {
                    let j2 = choose|j: int|
                        0 <= j < cs.len() && j != b2 && octave_ok(q, #[trigger] cs[j], m) && hamming(
                            q.words,
                            cs[j].words,
                        ) == y;
                    assert(!octave_ok(q, cs[j2], m));
                },
                (None, None) => {},
            }
        },
        (Some((b1, _, _)), None) => {
            assert(!octave_ok(q, cs[b1 as int], m));
        },
        (None, Some((b2, _, _))) => {
            assert(!octave_ok(q, cs[b2 as int], m));
        },
        (None, None) => {},
    }
}

/// The nearest match of `q` among `cs` when it passes the distance threshold
/// and the ratio test.
pub open spec fn gated_best(
    q: BriefDescriptor,
    cs: Seq<BriefDescriptor>,
    max_octave_diff: Option<u8>,
    distance_threshold: u32,
    ratio_permille: u32,
) -> Option<(usize, u32, Option<u32>)> {
    match best_two_of(q, cs, max_octave_diff) {
        Some((b, d, s)) => if d <= distance_threshold && ratio_ok(d, s, ratio_permille, cs.len() as int) {
            Some((b, d, s))
        } else {
            None
        },
        None => None,
    }
}

/// The gated nearest match of every query.
pub open spec fn gated_prefs(
    qs: Seq<BriefDescriptor>,
    cs: Seq<BriefDescriptor>,
    max_octave_diff: Option<u8>,
    distance_threshold: u32,
    ratio_permille: u32,
) -> Seq<Option<(usize, u32, Option<u32>)>> {
    Seq::new(
        qs.len(),
        |i: int| gated_best(qs[i], cs, max_octave_diff, distance_threshold, ratio_permille),
    )
}

/// The candidate indices of gated matches.
pub open spec fn pref_indices(p: Seq<Option<(usize, u32, Option<u32>)>>) -> Seq<Option<usize>> {
    p.map_values(
        |o: Option<(usize, u32, Option<u32>)>|
            match o {
                Some(t) => Some(t.0),
                None => None,
            },
    )
}

/// A cross-checked binary descriptor match.
#[derive(Debug, Clone, Copy, PartialEq, Eq, Structural)]
pub struct DescriptorMatch {
    pub left_idx: usize,
    pub right_idx: usize,
    /// Hamming distance of the pair.
    pub best_dist: u32,
    /// Hamming distance from the left descriptor to its second-nearest right one.
    pub second_dist: Option<u32>,
}

/// The matches between `left` and `right`: each left descriptor whose gated
/// nearest right descriptor has it as its own gated nearest left descriptor,
/// in left order.
pub open spec fn binary_matches(
    left: Seq<BriefDescriptor>,
    right: Seq<BriefDescriptor>,
    distance_threshold: u32,
    ratio_permille: u32,
    max_octave_diff: Option<u8>,
) -> Seq<DescriptorMatch> {
    let fl = gated_prefs(left, right, max_octave_diff, distance_threshold, ratio_permille);
    let fr = gated_prefs(right, left, max_octave_diff, distance_threshold, ratio_permille);
    mutual_pairs(pref_indices(fl), pref_indices(fr)).map_values(
        |p: (usize, usize)|
            {
                let t = fl[p.0 as int]->0;
                DescriptorMatch {
                    left_idx: p.0,
                    right_idx: p.1,
                    best_dist: t.1,
                    second_dist: t.2,
                }
            },
    )
}

fn gated_best_match(
    q: &BriefDescriptor,
    cs: &Vec<BriefDescriptor>,
    max_octave_diff: Option<u8>,
    distance_threshold: u32,
    ratio_permille: u32,
) -> (r: Option<(usize, u32, Option<u32>)>)
    ensures
        r == gated_best(*q, cs@, max_octave_diff, distance_threshold, ratio_permille),
        r matches Some(t) ==> t.0 < cs@.len(),
{
    let b = best_two_binary_matches(q, cs, max_octave_diff);
    proof {
        lemma_best_two_unique(*q, cs@, max_octave_diff, b, best_two_of(*q, cs@, max_octave_diff));
    }
    match b {
        Some((bi, bd, sd)) => {
            if bd <= distance_threshold && passes_ratio_test(bd, sd, ratio_permille, cs.len()) {
                Some((bi, bd, sd))
            } else {
                None
            }
        },
        None => None,
    }
}

fn gated_preferences(
    qs: &Vec<BriefDescriptor>,
    cs: &Vec<BriefDescriptor>,
    max_octave_diff: Option<u8>,
    distance_threshold: u32,
    ratio_permille: u32,
) -> (r: (Vec<Option<(usize, u32, Option<u32>)>>, Vec<Option<usize>>))
    ensures
        r.0@ == gated_prefs(qs@, cs@, max_octave_diff, distance_threshold, ratio_permille),
        r.1@ == pref_indices(r.0@),
        forall|i: int| 0 <= i < r.1@.len() && #[trigger] r.1@[i] is Some ==> (r.1@[i]->0 as int) < cs@.len(),
{
    let ghost full = gated_prefs(qs@, cs@, max_octave_diff, distance_threshold, ratio_permille);
    let mut prefs: Vec<Option<(usize, u32, Option<u32>)>> = Vec::new();
    let mut idx: Vec<Option<usize>> = Vec::new();
    let mut i: usize = 0;
    while i < qs.len()
        invariant
            i <= qs@.len(),
            full == gated_prefs(qs@, cs@, max_octave_diff, distance_threshold, ratio_permille),
            prefs@ == full.subrange(0, i as int),
            idx@ == pref_indices(prefs@),
            forall|k: int| 0 <= k < idx@.len() && #[trigger] idx@[k] is Some ==> (idx@[k]->0 as int) < cs@.len(),
        decreases qs.len() - i,
    {
        let g = gated_best_match(&qs[i], cs, max_octave_diff, distance_threshold, ratio_permille);
        let gi = match g {
            Some(t) => Some(t.0),
            None => None,
        };
        prefs.push(g);
        idx.push(gi);
        assert(prefs@ == full.subrange(0, i + 1));
        assert(idx@ == pref_indices(prefs@));
        i = i + 1;
    }
    assert(full.subrange(0, qs@.len() as int) == full);
    (prefs, idx)
}

/// Cross-checked nearest-neighbour matching of binary descriptors: a left
/// descriptor matches the right one nearest to it when that distance is at
/// most `distance_threshold`, the pair passes the ratio test (in
/// thousandths), and the left descriptor is in turn the nearest, by the same
/// gates, to that right one. Only candidates within `max_octave_diff`
/// pyramid levels are compared.
pub fn match_binary_descriptors(
    left: &Vec<BriefDescriptor>,
    right: &Vec<BriefDescriptor>,
    distance_threshold: u32,
    ratio_permille: u32,
    max_octave_diff: Option<u8>,
) -> (r: Vec<DescriptorMatch>)
    ensures
        r@ == binary_matches(left@, right@, distance_threshold, ratio_permille, max_octave_diff),
{
    let (fwd, fwd_idx) = gated_preferences(left, right, max_octave_diff, distance_threshold, ratio_permille);
    let (_back, back_idx) = gated_preferences(
        right,
        left,
        max_octave_diff,
        distance_threshold,
        ratio_permille,
    );
    let pairs = mutual_best_matches(&fwd_idx, &back_idx);
    let ghost target = binary_matches(left@, right@, distance_threshold, ratio_permille, max_octave_diff);
    let ghost fl = fwd@;
    let mut out: Vec<DescriptorMatch> = Vec::new();
    let mut k: usize = 0;
    while k < pairs.len()
        invariant
            k <= pairs@.len(),
            fl == fwd@,
            fl == gated_prefs(left@, right@, max_octave_diff, distance_threshold, ratio_permille),
            fwd_idx@ == pref_indices(fl),
            pairs@ == mutual_pairs(fwd_idx@, back_idx@),
            back_idx@ == pref_indices(
                gated_prefs(right@, left@, max_octave_diff, distance_threshold, ratio_permille),
            ),
            target == binary_matches(left@, right@, distance_threshold, ratio_permille, max_octave_diff),
            fwd_idx@.len() == left@.len(),
            out@ == target.subrange(0, k as int),
        decreases pairs.len() - k,
    {
        let (i, j) = pairs[k];
        proof {
            assert(pairs@.contains((i, j)));
            lemma_mutual_pairs_contains(fwd_idx@, back_idx@, i, j);
        }
        match fwd[i] {
            Some((_, d, s)) => {
                out.push(DescriptorMatch { left_idx: i, right_idx: j, best_dist: d, second_dist: s });
                assert(out@ == target.subrange(0, k + 1));
            },
            None => {
                assert(fwd_idx@[i as int] is None);
            },
        }
        k = k + 1;
    }
    assert(target.subrange(0, pairs@.len() as int) == target);
    out
}

/// Whether `ms` reports the pair (`i`, `j`).
pub open spec fn reports_pair(ms: Seq<DescriptorMatch>, i: usize, j: usize) -> bool {
    exists|k: int| 0 <= k < ms.len() && (#[trigger] ms[k]).left_idx == i && ms[k].right_idx == j
}

proof fn lemma_reports_iff_pair(
    left: Seq<BriefDescriptor>,
    right: Seq<BriefDescriptor>,
    thr: u32,
    ratio: u32,
    m: Option<u8>,
    i: usize,
    j: usize,
)
    ensures
        reports_pair(binary_matches(left, right, thr, ratio, m), i, j) <==> mutual_pairs(
            pref_indices(gated_prefs(left, right, m, thr, ratio)),
            pref_indices(gated_prefs(right, left, m, thr, ratio)),
        ).contains((i, j)),
{
    let fl = gated_prefs(left, right, m, thr, ratio);
    let fr = gated_prefs(right, left, m, thr, ratio);
    let pairs = mutual_pairs(pref_indices(fl), pref_indices(fr));
    let ms = binary_matches(left, right, thr, ratio, m);
    assert(ms.len() == pairs.len());
    if reports_pair(ms, i, j) {
        let k = choose|k: int| 0 <= k < ms.len() && (#[trigger] ms[k]).left_idx == i && ms[k].right_idx == j;
        assert(pairs[k] == (i, j));
    }
    if pairs.contains((i, j)) {
        let k = choose|k: int| 0 <= k < pairs.len() && pairs[k] == (i, j);
        assert(ms[k].left_idx == i && ms[k].right_idx == j);
    }
}

/// Law of cross-checked matching: the pair (`i`, `j`) is reported exactly
/// when the gated nearest right descriptor of left `i` is `j` and the gated
/// nearest left descriptor of right `j` is `i`; matching the two sides the
/// other way round reports the same pairs reversed.
pub proof fn lemma_binary_matches_mutual(
    left: Seq<BriefDescriptor>,
    right: Seq<BriefDescriptor>,
    distance_threshold: u32,
    ratio_permille: u32,
    max_octave_diff: Option<u8>,
    i: usize,
    j: usize,
)
    requires
        left.len() <= usize::MAX,
        right.len() <= usize::MAX,
    ensures
        reports_pair(binary_matches(left, right, distance_threshold, ratio_permille, max_octave_diff), i, j)
            <==> ((i as int) < left.len() && (j as int) < right.len() && (gated_best(
            left[i as int],
            right,
            max_octave_diff,
            distance_threshold,
            ratio_permille,
        ) matches Some(t) && t.0 == j) && (gated_best(
            right[j as int],
            left,
            max_octave_diff,
            distance_threshold,
            ratio_permille,
        ) matches Some(u) && u.0 == i)),
        reports_pair(binary_matches(left, right, distance_threshold, ratio_permille, max_octave_diff), i, j)
            <==> reports_pair(
            binary_matches(right, left, distance_threshold, ratio_permille, max_octave_diff),
            j,
            i,
        ),
{
    let fl = gated_prefs(left, right, max_octave_diff, distance_threshold, ratio_permille);
    let fr = gated_prefs(right, left, max_octave_diff, distance_threshold, ratio_permille);
    lemma_reports_iff_pair(left, right, distance_threshold, ratio_permille, max_octave_diff, i, j);
    lemma_reports_iff_pair(right, left, distance_threshold, ratio_permille, max_octave_diff, j, i);
    lemma_mutual_pairs_contains(pref_indices(fl), pref_indices(fr), i, j);
    lemma_mutual_pairs_contains(pref_indices(fr), pref_indices(fl), j, i);
}

} // verus!
