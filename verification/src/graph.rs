//! The support graph of matched image pairs and the size of its largest
//! connected component.

use vstd::prelude::*;
use vstd::set_lib::{set_int_range, lemma_int_range, lemma_len_subset};

verus! {

/// Correspondences kept for an image pair; only the count matters here.
#[derive(Debug, Clone, Copy, PartialEq, Eq, Structural)]
pub struct PairSupport {
    pub left_frame_idx: usize,
    pub right_frame_idx: usize,
    pub point_count: usize,
}

/// Pairs with fewer correspondences than this do not join frames.
pub const MIN_SUPPORT_POINTS: usize = 8;

/// A pair that joins two of the `n` frames.
pub open spec fn edge_ok(e: PairSupport, n: int) -> bool {
    e.left_frame_idx < n && e.right_frame_idx < n && e.point_count >= MIN_SUPPORT_POINTS
}

/// Some supporting pair joins frames `u` and `v`, in either order.
pub open spec fn adjacent(es: Seq<PairSupport>, n: int, u: int, v: int) -> bool {
    exists|i: int| 0 <= i < es.len() && #[trigger] edge_ok(es[i], n)
        && ((es[i].left_frame_idx == u && es[i].right_frame_idx == v)
            || (es[i].right_frame_idx == u && es[i].left_frame_idx == v))
}

/// A walk through the support graph.
pub open spec fn is_path(es: Seq<PairSupport>, n: int, p: Seq<int>) -> bool {
    &&& p.len() >= 1
    &&& forall|i: int| 0 <= i < p.len() ==> 0 <= #[trigger] p[i] < n
    &&& forall|i: int| 0 <= i < p.len() - 1 ==> adjacent(es, n, #[trigger] p[i], p[i + 1])
}

/// A walk leads from `s` to `t`.
pub open spec fn connected(es: Seq<PairSupport>, n: int, s: int, t: int) -> bool {
    exists|p: Seq<int>| #[trigger] is_path(es, n, p) && p[0] == s && p[p.len() - 1] == t
}

/// The frames reachable from `s`.
pub open spec fn component(es: Seq<PairSupport>, n: int, s: int) -> Set<int> {
    Set::new(|t: int| 0 <= t < n && connected(es, n, s, t))
}

/// Largest component among those of frames `0..m`.
pub open spec fn max_component_size(es: Seq<PairSupport>, n: int, m: int) -> nat
    decreases m,
{
    if m <= 0 {
        0
    } else {
        let prev = max_component_size(es, n, m - 1);
        let c = component(es, n, m - 1).len();
        if c > prev { c } else { prev }
    }
}

/// Number of frames the support graph can align: the largest connected
/// component, at least 2 when any match exists, and the frame count itself
/// for 0 or 1 frames.
pub open spec fn support_component_size(n: int, es: Seq<PairSupport>, total_matches: int) -> int {
    if n == 0 {
        0
    } else if n == 1 {
        1
    } else {
        let best = max_component_size(es, n, n);
        if best >= 2 { best as int } else if total_matches > 0 { 2 } else { 1 }
    }
}

pub proof fn lemma_connected_refl(es: Seq<PairSupport>, n: int, s: int)
    requires
        0 <= s < n,
    ensures
        connected(es, n, s, s),
{
    let p = seq![s];
    assert(is_path(es, n, p));
}

proof fn lemma_adjacent_symm(es: Seq<PairSupport>, n: int, u: int, v: int)
    requires
        adjacent(es, n, u, v),
    ensures
        adjacent(es, n, v, u),
{
    let i = choose|i: int| 0 <= i < es.len() && #[trigger] edge_ok(es[i], n)
        && ((es[i].left_frame_idx == u && es[i].right_frame_idx == v)
            || (es[i].right_frame_idx == u && es[i].left_frame_idx == v));
    assert(edge_ok(es[i], n));
}

pub proof fn lemma_connected_symm(es: Seq<PairSupport>, n: int, s: int, t: int)
    requires
        connected(es, n, s, t),
    ensures
        connected(es, n, t, s),
{
    let p = choose|p: Seq<int>| #[trigger] is_path(es, n, p) && p[0] == s && p[p.len() - 1] == t;
    let r = p.reverse();
    assert forall|i: int| 0 <= i < r.len() - 1 implies adjacent(es, n, #[trigger] r[i], r[i + 1]) by {
        let j = p.len() - 2 - i;
        assert(adjacent(es, n, p[j], p[j + 1]));
        assert(r[i] == p[j + 1] && r[i + 1] == p[j]);
        lemma_adjacent_symm(es, n, p[j], p[j + 1]);
    }
    assert forall|i: int| 0 <= i < r.len() implies 0 <= #[trigger] r[i] < n by {
        assert(r[i] == p[p.len() - 1 - i]);
    }
    assert(is_path(es, n, r));
}

pub proof fn lemma_connected_trans(es: Seq<PairSupport>, n: int, s: int, u: int, t: int)
    requires
        connected(es, n, s, u),
        connected(es, n, u, t),
    ensures
        connected(es, n, s, t),
{
    let p1 = choose|p: Seq<int>| #[trigger] is_path(es, n, p) && p[0] == s && p[p.len() - 1] == u;
    let p2 = choose|p: Seq<int>| #[trigger] is_path(es, n, p) && p[0] == u && p[p.len() - 1] == t;
    let p = p1 + p2.subrange(1, p2.len() as int);
    assert forall|i: int| 0 <= i < p.len() implies 0 <= #[trigger] p[i] < n by {
        if i >= p1.len() {
            assert(p[i] == p2[i - p1.len() + 1]);
        }
    }
    assert forall|i: int| 0 <= i < p.len() - 1 implies adjacent(es, n, #[trigger] p[i], p[i + 1]) by {
        if i < p1.len() - 1 {
            assert(p[i] == p1[i] && p[i + 1] == p1[i + 1]);
        } else if i == p1.len() - 1 {
            assert(p[i] == p2[0] && p[i + 1] == p2[1]);
            assert(adjacent(es, n, p2[0], p2[1]));
        } else {
            let j = i - p1.len() + 1;
            assert(p[i] == p2[j] && p[i + 1] == p2[j + 1]);
            assert(adjacent(es, n, p2[j], p2[j + 1]));
        }
    }
    assert(is_path(es, n, p));
    if p2.len() == 1 {
        assert(p[p.len() - 1] == p1[p1.len() - 1]);
    } else {
        assert(p[p.len() - 1] == p2[p2.len() - 1]);
    }
}

pub proof fn lemma_connected_step(es: Seq<PairSupport>, n: int, s: int, u: int, v: int)
    requires
        connected(es, n, s, u),
        adjacent(es, n, u, v),
        0 <= v < n,
    ensures
        connected(es, n, s, v),
{
    let p = choose|p: Seq<int>| #[trigger] is_path(es, n, p) && p[0] == s && p[p.len() - 1] == u;
    let q = p.push(v);
    assert forall|i: int| 0 <= i < q.len() - 1 implies adjacent(es, n, #[trigger] q[i], q[i + 1]) by {
        if i < p.len() - 1 {
            assert(q[i] == p[i] && q[i + 1] == p[i + 1]);
        }
    }
    assert(is_path(es, n, q));
}

proof fn lemma_component_bounded(es: Seq<PairSupport>, n: int, s: int)
    requires
        n >= 0,
    ensures
        component(es, n, s).finite(),
        component(es, n, s).len() <= n,
{
    lemma_int_range(0, n);
    lemma_len_subset(component(es, n, s), set_int_range(0, n));
}

/// Frames connected to each other have the same component.
proof fn lemma_same_component(es: Seq<PairSupport>, n: int, s: int, t: int)
    requires
        connected(es, n, s, t),
    ensures
        component(es, n, s) == component(es, n, t),
{
    lemma_connected_symm(es, n, s, t);
    assert forall|x: int| component(es, n, s).contains(x) <==> component(es, n, t).contains(x) by {
        if component(es, n, s).contains(x) {
            lemma_connected_trans(es, n, t, s, x);
        }
        if component(es, n, t).contains(x) {
            lemma_connected_trans(es, n, s, t, x);
        }
    }
    assert(component(es, n, s) =~= component(es, n, t));
}

proof fn lemma_max_component_bounds(es: Seq<PairSupport>, n: int, m: int, s: int)
    requires
        0 <= s < m,
    ensures
        component(es, n, s).len() <= max_component_size(es, n, m),
    decreases m,
{
    if s < m - 1 {
        lemma_max_component_bounds(es, n, m - 1, s);
    }
}


/// `vis` marks a set of frames closed under the support graph.
pub open spec fn closed_under_support(es: Seq<PairSupport>, n: int, vis: Seq<bool>) -> bool {
    forall|v: int, w: int| 0 <= v < n && 0 <= w < n && vis[v] && #[trigger] adjacent(es, n, v, w) ==> vis[w]
}

proof fn lemma_distinct_bounded(q: Seq<int>, n: int)
    requires
        q.no_duplicates(),
        forall|i: int| 0 <= i < q.len() ==> 0 <= #[trigger] q[i] < n,
        n >= 0,
    ensures
        q.len() <= n,
{
    q.unique_seq_to_set();
    lemma_int_range(0, n);
    lemma_len_subset(q.to_set(), set_int_range(0, n));
}

/// Every frame on a walk from the seed is in the queue, given that every
/// queued frame's neighbours are marked and marked frames outside the queue
/// form a closed set that does not hold the seed.
proof fn lemma_walk_in_queue(es: Seq<PairSupport>, n: int, q: Seq<int>, vis: Seq<bool>, old_vis: Seq<bool>, p: Seq<int>, k: int)
    requires
        is_path(es, n, p),
        0 <= k < p.len(),
        q.contains(p[0]),
        vis.len() == n,
        old_vis.len() == n,
        closed_under_support(es, n, old_vis),
        forall|v: int| 0 <= v < n ==> vis[v] == (old_vis[v] || q.contains(v)),
        forall|i: int| 0 <= i < q.len() ==> !old_vis[#[trigger] q[i]] && 0 <= q[i] < n,
        forall|i: int, w: int| 0 <= i < q.len() && 0 <= w < n && #[trigger] adjacent(es, n, q[i], w) ==> vis[w],
    ensures
        q.contains(p[k]),
    decreases k,
{
    if k > 0 {
        lemma_walk_in_queue(es, n, q, vis, old_vis, p, k - 1);
        let u = p[k - 1];
        let w = p[k];
        assert(adjacent(es, n, p[k - 1], p[k]));
        let j = choose|j: int| 0 <= j < q.len() && q[j] == u;
        assert(adjacent(es, n, q[j], w));
        assert(vis[w]);
        if old_vis[w] {
            lemma_adjacent_symm(es, n, u, w);
            assert(old_vis[u]);
        }
    }
}

proof fn lemma_push_contains(q: Seq<int>, x: int)
    ensures
        forall|v: int| q.push(x).contains(v) <==> (q.contains(v) || v == x),
{
    assert forall|v: int| q.push(x).contains(v) <==> (q.contains(v) || v == x) by {
        if q.contains(v) {
            let i = choose|i: int| 0 <= i < q.len() && q[i] == v;
            assert(q.push(x)[i] == v);
        }
        if v == x {
            assert(q.push(x)[q.len() as int] == v);
        }
        if q.push(x).contains(v) {
            let i = choose|i: int| 0 <= i < q.len() + 1 && q.push(x)[i] == v;
            if i < q.len() {
                assert(q[i] == v);
            }
        }
    }
}

/// Marks the component of `seed` and returns its size.
fn mark_component(es: &Vec<PairSupport>, n: usize, seed: usize, visited: &mut Vec<bool>) -> (r: usize)
    requires
        old(visited)@.len() == n,
        seed < n,
        !old(visited)@[seed as int],
        closed_under_support(es@, n as int, old(visited)@),
    ensures
        final(visited)@.len() == n,
        r == component(es@, n as int, seed as int).len(),
        forall|v: int| 0 <= v < n ==> final(visited)@[v]
            == (old(visited)@[v] || component(es@, n as int, seed as int).contains(v)),
{
    let ghost es_s = es@;
    let ghost nn = n as int;
    let ghost old_vis = visited@;
    let mut q: Vec<usize> = Vec::new();
    let ghost mut gq: Seq<int> = Seq::empty();
    q.push(seed);
    proof {
        gq = gq.push(seed as int);
        lemma_connected_refl(es_s, nn, seed as int);
    }
    visited.set(seed, true);
    proof {
        assert forall|v: int| 0 <= v < n implies visited@[v] == (old_vis[v] || gq.contains(v)) by {
            if v == seed as int {
                assert(gq[0] == v);
            } else {
                assert(!gq.contains(v)) by {
                    if gq.contains(v) {
                        let i = choose|i: int| 0 <= i < gq.len() && gq[i] == v;
                    }
                }
            }
        }
    }
    let mut head: usize = 0;
    while head < q.len()
        invariant
            es_s == es@,
            nn == n,
            old_vis.len() == n,
            seed < n,
            !old_vis[seed as int],
            closed_under_support(es_s, nn, old_vis),
            visited@.len() == n,
            q@.len() == gq.len(),
            forall|i: int| 0 <= i < q@.len() ==> q@[i] as int == #[trigger] gq[i],
            gq.len() >= 1,
            gq[0] == seed,
            head <= q@.len(),
            q@.len() <= n,
            gq.no_duplicates(),
            forall|i: int| 0 <= i < gq.len() ==> 0 <= #[trigger] gq[i] < nn && !old_vis[gq[i]]
                && connected(es_s, nn, seed as int, gq[i]),
            forall|v: int| 0 <= v < n ==> visited@[v] == (old_vis[v] || gq.contains(v)),
            forall|i: int, w: int| 0 <= i < head && 0 <= w < n && #[trigger] adjacent(es_s, nn, gq[i], w) ==> visited@[w],
        decreases n - head,
    {
        let u = q[head];
        let ghost gu = gq[head as int];
        let ghost head0 = head;
        head = head + 1;
        let mut e: usize = 0;
        while e < es.len()
            invariant
                es_s == es@,
                nn == n,
                old_vis.len() == n,
                seed < n,
                !old_vis[seed as int],
                closed_under_support(es_s, nn, old_vis),
                visited@.len() == n,
                q@.len() == gq.len(),
                forall|i: int| 0 <= i < q@.len() ==> q@[i] as int == #[trigger] gq[i],
                gq.len() >= 1,
                gq[0] == seed,
                head == head0 + 1,
                head <= q@.len(),
                q@.len() <= n,
                u as int == gu,
                gu == gq[head0 as int],
                gq.no_duplicates(),
                forall|i: int| 0 <= i < gq.len() ==> 0 <= #[trigger] gq[i] < nn && !old_vis[gq[i]]
                    && connected(es_s, nn, seed as int, gq[i]),
                forall|v: int| 0 <= v < n ==> visited@[v] == (old_vis[v] || gq.contains(v)),
                forall|i: int, w: int| 0 <= i < head0 && 0 <= w < n && #[trigger] adjacent(es_s, nn, gq[i], w) ==> visited@[w],
                forall|i: int| 0 <= i < e && #[trigger] edge_ok(es_s[i], nn) ==>
                    (es_s[i].left_frame_idx == u ==> visited@[es_s[i].right_frame_idx as int])
                    && (es_s[i].right_frame_idx == u ==> visited@[es_s[i].left_frame_idx as int]),
            decreases es.len() - e,
        {
            let pe = es[e];
            if pe.left_frame_idx < n && pe.right_frame_idx < n && pe.point_count >= MIN_SUPPORT_POINTS {
                assert(edge_ok(es_s[e as int], nn));
                if pe.left_frame_idx == u {
                    let v = pe.right_frame_idx;
                    if !visited[v] {
                        proof {
                            assert(adjacent(es_s, nn, gu, v as int));
                            lemma_connected_step(es_s, nn, seed as int, gu, v as int);
                            assert(!gq.contains(v as int));
                            lemma_push_contains(gq, v as int);
                            gq = gq.push(v as int);
                            lemma_distinct_bounded(gq, nn);
                        }
                        visited.set(v, true);
                        q.push(v);
                    }
                }
                if pe.right_frame_idx == u {
                    let v = pe.left_frame_idx;
                    if !visited[v] {
                        proof {
                            assert(adjacent(es_s, nn, gu, v as int));
                            lemma_connected_step(es_s, nn, seed as int, gu, v as int);
                            assert(!gq.contains(v as int));
                            lemma_push_contains(gq, v as int);
                            gq = gq.push(v as int);
                            lemma_distinct_bounded(gq, nn);
                        }
                        visited.set(v, true);
                        q.push(v);
                    }
                }
            }
            e = e + 1;
        }
        proof {
            assert forall|i: int, w: int| 0 <= i < head && 0 <= w < n && #[trigger] adjacent(es_s, nn, gq[i], w)
                implies visited@[w] by {
                if i == head0 {
                    let j = choose|j: int| 0 <= j < es_s.len() && #[trigger] edge_ok(es_s[j], nn)
                        && ((es_s[j].left_frame_idx == gq[i] && es_s[j].right_frame_idx == w)
                            || (es_s[j].right_frame_idx == gq[i] && es_s[j].left_frame_idx == w));
                    assert(edge_ok(es_s[j], nn));
                }
            }
        }
    }
    proof {
        let comp = component(es_s, nn, seed as int);
        assert forall|t: int| comp.contains(t) <==> gq.to_set().contains(t) by {
            if comp.contains(t) {
                let p = choose|p: Seq<int>| #[trigger] is_path(es_s, nn, p) && p[0] == seed as int && p[p.len() - 1] == t;
                assert(gq.contains(p[0]));
                lemma_walk_in_queue(es_s, nn, gq, visited@, old_vis, p, p.len() - 1);
            }
            if gq.to_set().contains(t) {
                let i = choose|i: int| 0 <= i < gq.len() && gq[i] == t;
            }
        }
        assert(comp =~= gq.to_set());
        gq.unique_seq_to_set();
        assert forall|v: int| 0 <= v < n implies visited@[v] == (old_vis[v] || comp.contains(v)) by {
            assert(gq.to_set().contains(v) == gq.contains(v));
        }
    }
    q.len()
}


/// Size of the largest group of frames joined by well-supported pairs
/// (at least [`MIN_SUPPORT_POINTS`] correspondences); when no two frames are
/// joined it is 2 if any match exists and 1 otherwise.
pub fn largest_support_component_size(frame_count: usize, pairs: &Vec<PairSupport>, total_matches: u64) -> (r: usize)
    ensures
        r == support_component_size(frame_count as int, pairs@, total_matches as int),
        r <= frame_count,
        frame_count >= 1 ==> r >= 1,
{
    let n = frame_count;
    if n == 0 {
        return 0;
    }
    if n == 1 {
        return 1;
    }
    let ghost es = pairs@;
    let ghost nn = n as int;
    let mut visited: Vec<bool> = Vec::new();
    let mut k: usize = 0;
    while k < n
        invariant
            k <= n,
            visited@.len() == k,
            forall|v: int| 0 <= v < k ==> !visited@[v],
        decreases n - k,
    {
        visited.push(false);
        k = k + 1;
    }
    let mut best: usize = 0;
    let mut seed: usize = 0;
    while seed < n
        invariant
            es == pairs@,
            nn == n,
            n >= 2,
            seed <= n,
            visited@.len() == n,
            forall|v: int| 0 <= v < n ==> visited@[v]
                == exists|s: int| 0 <= s < seed && #[trigger] connected(es, nn, s, v),
            best == max_component_size(es, nn, seed as int),
            best <= n,
        decreases n - seed,
    {
        proof {
            lemma_component_bounded(es, nn, seed as int);
            assert forall|v: int, w: int| 0 <= v < n && 0 <= w < n && visited@[v] && #[trigger] adjacent(es, nn, v, w)
                implies visited@[w] by {
                let s = choose|s: int| 0 <= s < seed && #[trigger] connected(es, nn, s, v);
                lemma_connected_step(es, nn, s, v, w);
            }
        }
        if visited[seed] {
            proof {
                let s = choose|s: int| 0 <= s < seed && #[trigger] connected(es, nn, s, seed as int);
                lemma_same_component(es, nn, s, seed as int);
                lemma_max_component_bounds(es, nn, seed as int, s);
                assert forall|v: int| 0 <= v < n implies visited@[v]
                    == exists|s2: int| 0 <= s2 < seed + 1 && #[trigger] connected(es, nn, s2, v) by {
                    if connected(es, nn, seed as int, v) {
                        lemma_connected_trans(es, nn, s, seed as int, v);
                    }
                }
            }
        } else {
            let ghost before = visited@;
            let size = mark_component(pairs, n, seed, &mut visited);
            if size > best {
                best = size;
            }
            proof {
                assert forall|v: int| 0 <= v < n implies visited@[v]
                    == exists|s2: int| 0 <= s2 < seed + 1 && #[trigger] connected(es, nn, s2, v) by {
                    if component(es, nn, seed as int).contains(v) {
                        assert(connected(es, nn, seed as int, v));
                    }
                    if exists|s2: int| 0 <= s2 < seed + 1 && #[trigger] connected(es, nn, s2, v) {
                        let s2 = choose|s2: int| 0 <= s2 < seed + 1 && #[trigger] connected(es, nn, s2, v);
                        if s2 == seed {
                            assert(component(es, nn, seed as int).contains(v));
                        } else {
                            assert(before[v]);
                        }
                    }
                }
            }
        }
        seed = seed + 1;
    }
    if best >= 2 {
        best
    } else if total_matches > 0 {
        2
    } else {
        1
    }
}


/// `v` held to `lo..=hi`.
pub open spec fn clamp_int(v: int, lo: int, hi: int) -> int {
    if v < lo {
        lo
    } else if v > hi {
        hi
    } else {
        v
    }
}

/// The number of frames that alignment expects to place: the size of the
/// largest supported group of frames, held to `2..=frame_count`; when that
/// group has at most two frames although matches exist and no pair kept its
/// correspondences, the estimate `proxy_count` made from the match
/// statistics stands instead.
pub open spec fn aligned_count_spec(
    frame_count: int,
    pairs: Seq<PairSupport>,
    total_matches: int,
    proxy_count: int,
) -> int {
    if frame_count == 0 {
        0
    } else if frame_count == 1 {
        1
    } else {
        let supported = support_component_size(frame_count, pairs, total_matches);
        if supported <= 2 && total_matches > 0 && pairs.len() == 0 {
            proxy_count
        } else {
            clamp_int(supported, 2, frame_count)
        }
    }
}

/// Estimates how many of `frame_count` frames alignment can place, from the
/// pairs that kept correspondences and the total match count;
/// `proxy_count` is the estimate from match statistics used when the pair
/// graph carries no correspondences.
pub fn estimate_aligned_count(
    frame_count: usize,
    pairs: &Vec<PairSupport>,
    total_matches: u64,
    proxy_count: usize,
) -> (r: usize)
    ensures
        r == aligned_count_spec(frame_count as int, pairs@, total_matches as int, proxy_count as int),
        proxy_count <= frame_count ==> r <= frame_count,
{
    if frame_count == 0 {
        return 0;
    }
    if frame_count == 1 {
        return 1;
    }
    let supported = largest_support_component_size(frame_count, pairs, total_matches);
    if supported <= 2 && total_matches > 0 && pairs.len() == 0 {
        return proxy_count;
    }
    if supported < 2 {
        2
    } else if supported > frame_count {
        frame_count
    } else {
        supported
    }
}

} // verus!
