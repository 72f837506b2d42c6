//! Choice of the loop-closure constraints that the global pose optimisation
//! uses: ranked candidate links between non-adjacent camera poses are taken
//! in order, each pose joins at most two links, and no two chosen links join
//! neighbouring poses at both ends.

use vstd::prelude::*;

verus! {

/// Links per pose that the selection allows.
pub const MAX_LOOP_LINKS_PER_POSE: usize = 2;

/// A candidate loop-closure link between poses `left_idx` and `right_idx`.
#[derive(Debug, Clone, Copy, PartialEq, Eq, Structural)]
pub struct LoopLink {
    pub left_idx: usize,
    pub right_idx: usize,
}

/// Whether two indices differ by at most one.
pub open spec fn near(a: int, b: int) -> bool {
    -1 <= a - b <= 1
}

/// Whether links `a` and `b` join neighbouring poses at both ends.
pub open spec fn overlaps_heavily(a: LoopLink, b: LoopLink) -> bool {
    near(a.left_idx as int, b.left_idx as int) && near(a.right_idx as int, b.right_idx as int)
}

/// How many of the links at positions `picked` of `ranked` touch pose `node`.
pub open spec fn link_usage(ranked: Seq<LoopLink>, picked: Seq<int>, node: int) -> int
    decreases picked.len(),
{
    if picked.len() == 0 {
        0
    } else {
        let l = ranked[picked.last()];
        link_usage(ranked, picked.drop_last(), node) + (if l.left_idx == node {
            1int
        } else {
            0int
        }) + (if l.right_idx == node {
            1int
        } else {
            0int
        })
    }
}

/// Whether a link at positions `picked` of `ranked` overlaps `c` heavily.
pub open spec fn overlaps_any(ranked: Seq<LoopLink>, picked: Seq<int>, c: LoopLink) -> bool {
    exists|k: int| 0 <= k < picked.len() && overlaps_heavily(ranked[#[trigger] picked[k]], c)
}

/// Whether candidate `c` joins the selection `picked`: both poses exist, they
/// are not neighbours, neither is already in two chosen links, and no chosen
/// link overlaps it heavily.
pub open spec fn link_accepted(ranked: Seq<LoopLink>, picked: Seq<int>, c: LoopLink, pose_count: int) -> bool {
    &&& c.left_idx < pose_count
    &&& c.right_idx < pose_count
    &&& c.right_idx > c.left_idx + 1
    &&& link_usage(ranked, picked, c.left_idx as int) < MAX_LOOP_LINKS_PER_POSE
    &&& link_usage(ranked, picked, c.right_idx as int) < MAX_LOOP_LINKS_PER_POSE
    &&& !overlaps_any(ranked, picked, c)
}

/// The positions chosen among the first `n` ranked candidates, taking at most
/// `max_links`.
pub open spec fn links_after(ranked: Seq<LoopLink>, pose_count: int, max_links: int, n: int) -> Seq<
    int,
>
    decreases n,
{
    if n <= 0 {
        Seq::empty()
    } else {
        let prev = links_after(ranked, pose_count, max_links, n - 1);
        if prev.len() >= max_links {
            prev
        } else if link_accepted(ranked, prev, ranked[n - 1], pose_count) {
            prev.push(n - 1)
        } else {
            prev
        }
    }
}

/// The positions of the chosen links. With no candidates, fewer than three
/// poses or no room, nothing is chosen; when the rules choose nothing, the
/// first `max_links` candidates are taken as they are.
pub open spec fn loop_link_selection(ranked: Seq<LoopLink>, pose_count: int, max_links: int) -> Seq<
    int,
> {
    if ranked.len() == 0 || pose_count < 3 || max_links <= 0 {
        Seq::empty()
    } else {
        let s = links_after(ranked, pose_count, max_links, ranked.len() as int);
        if s.len() == 0 {
            Seq::new(
                if max_links < ranked.len() {
                    max_links as nat
                } else {
                    ranked.len()
                },
                |i: int| i,
            )
        } else {
            s
        }
    }
}

/// Choose loop-closure links from `ranked`, best first, for a trajectory of
/// `pose_count` poses; returns the positions in `ranked` of the chosen links.
pub fn select_loop_closure_links(ranked: &Vec<LoopLink>, pose_count: usize, max_links: usize) -> (r:
    Vec<usize>)
    ensures
        r@.map_values(|i: usize| i as int) == loop_link_selection(
            ranked@,
            pose_count as int,
            max_links as int,
        ),
{
    if ranked.len() == 0 || pose_count < 3 || max_links == 0 {
        let r: Vec<usize> = Vec::new();
        assert(r@.map_values(|i: usize| i as int) =~= Seq::<int>::empty());
        return r;
    }
    let mut selected: Vec<usize> = Vec::new();
    let mut node_usage: Vec<usize> = Vec::new();
    let mut z: usize = 0;
    while z < pose_count
        invariant
            z <= pose_count,
            node_usage@.len() == z,
            forall|k: int| 0 <= k < z ==> node_usage@[k] == 0,
        decreases pose_count - z,
    {
        node_usage.push(0);
        z = z + 1;
    }
    let mut n: usize = 0;
    while n < ranked.len()
        invariant
            n <= ranked@.len(),
            node_usage@.len() == pose_count,
            selected@.len() <= max_links,
            selected@.map_values(|i: usize| i as int) == links_after(
                ranked@,
                pose_count as int,
                max_links as int,
                n as int,
            ),
            forall|k: int|
                0 <= k < pose_count ==> #[trigger] node_usage@[k] == link_usage(
                    ranked@,
                    selected@.map_values(|i: usize| i as int),
                    k,
                ),
            forall|k: int| 0 <= k < selected@.len() ==> selected@[k] < n,
        decreases ranked.len() - n,
    {
        let ghost picked = selected@.map_values(|i: usize| i as int);
        if selected.len() >= max_links {
            n = n + 1;
            continue;
        }
        let c = ranked[n];
        let mut ok = c.left_idx < pose_count && c.right_idx < pose_count && c.right_idx
            > c.left_idx + 1;
        if ok {
            ok = node_usage[c.left_idx] < MAX_LOOP_LINKS_PER_POSE && node_usage[c.right_idx]
                < MAX_LOOP_LINKS_PER_POSE;
        }
        if ok {
            let mut found = false;
            let mut k: usize = 0;
            while k < selected.len() && !found
                invariant
                    k <= selected@.len(),
                    picked == selected@.map_values(|i: usize| i as int),
                    forall|q: int| 0 <= q < selected@.len() ==> selected@[q] < ranked@.len(),
                    !found ==> forall|q: int|
                        0 <= q < k ==> !overlaps_heavily(ranked@[#[trigger] picked[q]], c),
                    found ==> overlaps_any(ranked@, picked, c),
                decreases selected.len() - k,
            {
                let s = ranked[selected[k]];
                let left_close = if s.left_idx >= c.left_idx {
                    s.left_idx - c.left_idx <= 1
                } else {
                    c.left_idx - s.left_idx <= 1
                };
                let right_close = if s.right_idx >= c.right_idx {
                    s.right_idx - c.right_idx <= 1
                } else {
                    c.right_idx - s.right_idx <= 1
                };
                if left_close && right_close {
                    assert(overlaps_heavily(ranked@[picked[k as int]], c));
                    found = true;
                }
                k = k + 1;
            }
            ok = !found;
        }
        assert(ok == link_accepted(ranked@, picked, c, pose_count as int));
        if ok {
            selected.push(n);
            let lu = node_usage[c.left_idx];
            node_usage.set(c.left_idx, lu + 1);
            let ru = node_usage[c.right_idx];
            node_usage.set(c.right_idx, ru + 1);
            assert(selected@.map_values(|i: usize| i as int) == picked.push(n as int));
            proof {
                let np = picked.push(n as int);
                assert(np.drop_last() == picked);
                assert forall|k: int| 0 <= k < pose_count implies #[trigger] node_usage@[k]
                    == link_usage(ranked@, np, k) by {
                    assert(link_usage(ranked@, np, k) == link_usage(ranked@, picked, k) + (if c.left_idx
                        == k {
                        1int
                    } else {
                        0int
                    }) + (if c.right_idx == k {
                        1int
                    } else {
                        0int
                    }));
                }
            }
        }
        n = n + 1;
    }
    if selected.len() == 0 {
        let take = if max_links < ranked.len() {
            max_links
        } else {
            ranked.len()
        };
        let mut r: Vec<usize> = Vec::new();
        let mut i: usize = 0;
        while i < take
            invariant
                i <= take,
                r@.len() == i,
                forall|q: int| 0 <= q < i ==> r@[q] == q,
            decreases take - i,
        {
            r.push(i);
            i = i + 1;
        }
        assert(r@.map_values(|i: usize| i as int) =~= Seq::new(take as nat, |i: int| i));
        r
    } else {
        selected
    }
}

/// What a selection of link positions satisfies: positions increase and
/// point into `ranked`, every chosen link joins two existing poses that are
/// not neighbours, every pose is in at most two chosen links, and no two
/// chosen links overlap heavily.
pub open spec fn links_valid(ranked: Seq<LoopLink>, picked: Seq<int>, pose_count: int) -> bool {
    &&& forall|k: int|
        0 <= k < picked.len() ==> {
            let l = ranked[#[trigger] picked[k]];
            &&& 0 <= picked[k] < ranked.len()
            &&& l.left_idx < pose_count
            &&& l.right_idx < pose_count
            &&& l.right_idx > l.left_idx + 1
        }
    &&& forall|i: int, j: int| 0 <= i < j < picked.len() ==> picked[i] < picked[j]
    &&& forall|node: int| #[trigger] link_usage(ranked, picked, node) <= MAX_LOOP_LINKS_PER_POSE
    &&& forall|i: int, j: int|
        0 <= i < picked.len() && 0 <= j < picked.len() && i != j ==> !overlaps_heavily(
            ranked[#[trigger] picked[i]],
            ranked[#[trigger] picked[j]],
        )
}

proof fn lemma_links_after_valid(ranked: Seq<LoopLink>, pose_count: int, max_links: int, n: int)
    requires
        n <= ranked.len(),
    ensures
        links_valid(ranked, links_after(ranked, pose_count, max_links, n), pose_count),
        max_links >= 0 ==> links_after(ranked, pose_count, max_links, n).len() <= max_links,
        forall|k: int|
            0 <= k < links_after(ranked, pose_count, max_links, n).len() ==> #[trigger] links_after(
                ranked,
                pose_count,
                max_links,
                n,
            )[k] < n,
    decreases n,
{
    if n > 0 {
        lemma_links_after_valid(ranked, pose_count, max_links, n - 1);
        let prev = links_after(ranked, pose_count, max_links, n - 1);
        let c = ranked[n - 1];
        if prev.len() < max_links && link_accepted(ranked, prev, c, pose_count) {
            let np = prev.push(n - 1);
            assert(np.drop_last() == prev);
            assert forall|node: int| #[trigger] link_usage(ranked, np, node)
                <= MAX_LOOP_LINKS_PER_POSE by {
                assert(link_usage(ranked, np, node) == link_usage(ranked, prev, node) + (if c.left_idx
                    == node {
                    1int
                } else {
                    0int
                }) + (if c.right_idx == node {
                    1int
                } else {
                    0int
                }));
            }
            assert forall|i: int, j: int|
                0 <= i < np.len() && 0 <= j < np.len() && i != j implies !overlaps_heavily(
                ranked[#[trigger] np[i]],
                ranked[#[trigger] np[j]],
            ) by {
                if j == prev.len() {
                    assert(np[i] == prev[i]);
                    if overlaps_heavily(ranked[np[i]], c) {
                        assert(overlaps_any(ranked, prev, c));
                    }
                } else if i == prev.len() {
                    assert(np[j] == prev[j]);
                    if overlaps_heavily(c, ranked[np[j]]) {
                        assert(overlaps_heavily(ranked[prev[j]], c));
                        assert(overlaps_any(ranked, prev, c));
                    }
                } else {
                    assert(np[i] == prev[i] && np[j] == prev[j]);
                }
            }
            assert forall|k: int| 0 <= k < np.len() implies {
                let l = ranked[#[trigger] np[k]];
                &&& 0 <= np[k] < ranked.len()
                &&& l.left_idx < pose_count
                &&& l.right_idx < pose_count
                &&& l.right_idx > l.left_idx + 1
            } by {
                if k < prev.len() {
                    assert(np[k] == prev[k]);
                }
            }
        }
    }
}

/// Law of the loop-closure selection: at most `max_links` links are chosen,
/// each at most once; when the rules choose any, every chosen link joins two
/// existing poses that are not neighbours, no pose is in more than two chosen
/// links, and no two chosen links join neighbouring poses at both ends.
pub proof fn lemma_loop_link_selection(ranked: Seq<LoopLink>, pose_count: int, max_links: int)
    ensures
        ({
            let sel = loop_link_selection(ranked, pose_count, max_links);
            &&& sel.len() <= if max_links >= 0 {
                max_links
            } else {
                0
            }
            &&& forall|i: int, j: int| 0 <= i < j < sel.len() ==> sel[i] < sel[j]
            &&& forall|k: int| 0 <= k < sel.len() ==> 0 <= #[trigger] sel[k] < ranked.len()
        }),
        links_after(ranked, pose_count, max_links, ranked.len() as int).len() > 0 ==> links_valid(
            ranked,
            loop_link_selection(ranked, pose_count, max_links),
            pose_count,
        ),
{
    lemma_links_after_valid(ranked, pose_count, max_links, ranked.len() as int);
    let s = links_after(ranked, pose_count, max_links, ranked.len() as int);
    if !(ranked.len() == 0 || pose_count < 3 || max_links <= 0) && s.len() > 0 {
        assert(loop_link_selection(ranked, pose_count, max_links) == s);
    }
}


/// Whether candidate `c` joins two existing poses that are not neighbours.
pub open spec fn link_joins_distant_poses(c: LoopLink, pose_count: int) -> bool {
    c.left_idx < pose_count && c.right_idx < pose_count && c.right_idx > c.left_idx + 1
}

proof fn lemma_usage_by_ends(ranked: Seq<LoopLink>, picked: Seq<int>, node: int)
    ensures
        link_usage(ranked, picked, node) == picked.filter(|p: int| ranked[p].left_idx == node).len()
            + picked.filter(|p: int| ranked[p].right_idx == node).len(),
    decreases picked.len(),
{
    reveal(Seq::filter);
    if picked.len() > 0 {
        lemma_usage_by_ends(ranked, picked.drop_last(), node);
    }
}

proof fn lemma_links_after_grows(ranked: Seq<LoopLink>, pose_count: int, max_links: int, n: int, k: int)
    requires
        0 <= k < n <= ranked.len(),
        max_links > 0,
        link_joins_distant_poses(ranked[k], pose_count),
    ensures
        links_after(ranked, pose_count, max_links, n).len() > 0,
    decreases n,
{
    let prev = links_after(ranked, pose_count, max_links, n - 1);
    if n - 1 > k {
        lemma_links_after_grows(ranked, pose_count, max_links, n - 1, k);
    } else if prev.len() == 0 {
        let c = ranked[n - 1];
        assert(link_usage(ranked, prev, c.left_idx as int) == 0);
        assert(link_usage(ranked, prev, c.right_idx as int) == 0);
        assert(!overlaps_any(ranked, prev, c));
        assert(link_accepted(ranked, prev, c, pose_count));
    }
}

/// Law of the loop-closure selection: whenever some candidate joins two
/// existing poses that are not neighbours and a link may be taken, every
/// pose is an end (left or right) of at most two chosen links.
pub proof fn lemma_loop_links_per_pose(ranked: Seq<LoopLink>, pose_count: int, max_links: int, node: int)
    requires
        max_links > 0,
        exists|k: int| 0 <= k < ranked.len() && #[trigger] link_joins_distant_poses(ranked[k], pose_count),
    ensures
        ({
            let sel = loop_link_selection(ranked, pose_count, max_links);
            sel.filter(|p: int| ranked[p].left_idx == node).len() + sel.filter(
                |p: int| ranked[p].right_idx == node,
            ).len() <= 2
        }),
{
    let k = choose|k: int| 0 <= k < ranked.len() && #[trigger] link_joins_distant_poses(ranked[k], pose_count);
    lemma_links_after_grows(ranked, pose_count, max_links, ranked.len() as int, k);
    lemma_loop_link_selection(ranked, pose_count, max_links);
    let sel = loop_link_selection(ranked, pose_count, max_links);
    assert(link_usage(ranked, sel, node) <= MAX_LOOP_LINKS_PER_POSE);
    lemma_usage_by_ends(ranked, sel, node);
}

} // verus!
