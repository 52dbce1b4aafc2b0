use vstd::prelude::*;
use crate::aabb::{contains_box, lemma_contains_trans, lemma_merged_contains, aabb_bounded, merged_spec, Aabb};
use crate::hittable::{
    hit_range, lemma_box_miss_scan, lemma_scan_props, scan_hit, scan_result_matches, shift_hit,
    spheres_wf,
};
use crate::ray::{ray_bounded, Ray};
use crate::sphere::{a_coef, record_matches, sphere_aabb_spec, sphere_wf, HitRecord, Sphere};
use crate::COORD_MAX;

verus! {

/// One node of the flat tree: a leaf covering a contiguous range of the
/// reordered sphere array, or an interior node joining two earlier nodes.
/// Nodes are appended in post-order, so children sit at smaller indices.
#[derive(Clone, Copy, PartialEq, Eq, Structural, Debug)]
pub enum BvhNode {
    Leaf { bbox: Aabb, start: usize, end: usize },
    Interior { bbox: Aabb, left: usize, right: usize, start: usize, end: usize },
}

/// The bounding-volume hierarchy: the reordered sphere array and the flat
/// node array whose last entry is the root.
pub struct Bvh {
    pub nodes: Vec<BvhNode>,
    pub spheres: Vec<Sphere>,
}

/// The node's bounding box.
pub open spec fn node_bbox(n: BvhNode) -> Aabb {
    match n {
        BvhNode::Leaf { bbox, .. } => bbox,
        BvhNode::Interior { bbox, .. } => bbox,
    }
}

/// The first sphere index the node covers.
pub open spec fn node_start(n: BvhNode) -> int {
    match n {
        BvhNode::Leaf { start, .. } => start as int,
        BvhNode::Interior { start, .. } => start as int,
    }
}

/// One past the last sphere index the node covers.
pub open spec fn node_end(n: BvhNode) -> int {
    match n {
        BvhNode::Leaf { end, .. } => end as int,
        BvhNode::Interior { end, .. } => end as int,
    }
}

/// The box contains the boxes of all spheres in the index range.
pub open spec fn range_in_box(b: Aabb, spheres: Seq<Sphere>, start: int, end: int) -> bool {
    forall|k: int| start <= k < end ==> contains_box(b, sphere_aabb_spec(#[trigger] spheres[k]))
}

/// Local well-formedness of one node: a non-empty range inside the array, a
/// bounded box containing every covered sphere's box, and, for an interior
/// node, children at smaller indices whose ranges tile this node's range
/// and whose boxes this node's box contains.
pub open spec fn node_wf(nodes: Seq<BvhNode>, spheres: Seq<Sphere>, i: int) -> bool {
    match nodes[i] {
        BvhNode::Leaf { bbox, start, end } => {
            &&& start < end <= spheres.len()
            &&& aabb_bounded(bbox)
            &&& range_in_box(bbox, spheres, start as int, end as int)
        },
        BvhNode::Interior { bbox, left, right, start, end } => {
            &&& start < end <= spheres.len()
            &&& 0 <= left < i
            &&& 0 <= right < i
            &&& node_start(nodes[left as int]) == start as int
            &&& node_end(nodes[left as int]) == node_start(nodes[right as int])
            &&& node_end(nodes[right as int]) == end as int
            &&& contains_box(bbox, node_bbox(nodes[left as int]))
            &&& contains_box(bbox, node_bbox(nodes[right as int]))
            &&& aabb_bounded(bbox)
            &&& range_in_box(bbox, spheres, start as int, end as int)
        },
    }
}

/// A well-formed hierarchy: well-formed spheres, every node locally
/// well-formed, and the last node covering the whole array (no nodes only
/// for an empty scene). With children's boxes contained at every interior
/// node, every node's box contains all its descendants' boxes.
pub open spec fn bvh_wf(b: Bvh) -> bool {
    &&& spheres_wf(b.spheres@)
    &&& forall|i: int| 0 <= i < b.nodes@.len() ==> #[trigger] node_wf(b.nodes@, b.spheres@, i)
    &&& if b.nodes@.len() == 0 {
        b.spheres@.len() == 0
    } else {
        node_start(b.nodes@[b.nodes@.len() - 1]) == 0 && node_end(
            b.nodes@[b.nodes@.len() - 1],
        ) == b.spheres@.len()
    }
}

/// Splitting a scan at a sequence boundary: the combined scan is the left
/// scan, then the right scan under the bound the left hit tightened, the
/// right result taking precedence only when it exists.
pub proof fn lemma_scan_concat(a: Seq<Sphere>, b: Seq<Sphere>, r: Ray, t0: int, t1: int)
    ensures
        scan_hit(a + b, r, t0, t1) == (match scan_hit(a, r, t0, t1) {
            Option::None => shift_hit(scan_hit(b, r, t0, t1), a.len() as int),
            Option::Some(p) => match scan_hit(b, r, t0, p.1) {
                Option::Some(q) => Option::Some((q.0 + a.len(), q.1)),
                Option::None => Option::Some(p),
            },
        }),
    decreases a.len(),
{
    if a.len() == 0 {
        assert(a + b =~= b);
        match scan_hit(b, r, t0, t1) {
            Option::Some(q) => {
                assert(shift_hit(scan_hit(b, r, t0, t1), 0) == Option::Some((q.0 + 0, q.1)));
            },
            Option::None => {},
        }
    } else {
        let at = a.drop_first();
        assert((a + b).len() > 0);
        assert((a + b)[0] == a[0]);
        assert((a + b).drop_first() =~= at + b);
        match crate::sphere::sphere_hit_spec(a[0], r, t0, t1) {
            Option::None => {
                lemma_scan_concat(at, b, r, t0, t1);
            },
            Option::Some(t) => {
                lemma_scan_concat(at, b, r, t0, t);
            },
        }
    }
}

/// The nearest-hit contract pins the executable result down: any two results
/// that both match the scan's verdict for the same primitives, ray and
/// interval are equal. In particular the hierarchy's traversal and the
/// linear scan, which carry the same contract, must agree.
pub proof fn lemma_nearest_hit_unique(
    prims: Seq<Sphere>,
    r: Ray,
    t0: int,
    t1: int,
    res1: Option<HitRecord>,
    res2: Option<HitRecord>,
)
    requires
        scan_result_matches(prims, r, t0, t1, res1),
        scan_result_matches(prims, r, t0, t1, res2),
    ensures
        res1 == res2,
{
    match scan_hit(prims, r, t0, t1) {
        Option::None => {},
        Option::Some(p) => {
            let h1 = res1->Some_0;
            let h2 = res2->Some_0;
            assert(h1.p == h2.p);
            assert(h1.normal == h2.normal);
            assert(h1 == h2);
        },
    }
}

impl Bvh {
    /// Nearest hit of the ray against everything the node at `i` covers:
    /// identical, by contract, to the linear scan over that range.
    fn hit_node(&self, i: usize, ray: &Ray, t_min: i64, t_max: i64) -> (r: Option<HitRecord>)
        requires
            bvh_wf(*self),
            i < self.nodes@.len(),
            ray_bounded(*ray),
            a_coef(*ray) > 0,
            0 <= t_min <= COORD_MAX,
            -COORD_MAX <= t_max <= COORD_MAX,
        ensures
            scan_result_matches(
                self.spheres@.subrange(node_start(self.nodes@[i as int]), node_end(self.nodes@[i as int])),
                *ray,
                t_min as int,
                t_max as int,
                r,
            ),
        decreases i,
    {
        proof {
            assert(node_wf(self.nodes@, self.spheres@, i as int));
        }
        let node = self.nodes[i];
        match node {
            BvhNode::Leaf { bbox, start, end } => {
                if !bbox.intersects(ray, t_min, t_max) {
                    proof {
                        let prims = self.spheres@.subrange(start as int, end as int);
                        assert forall|k: int| 0 <= k < prims.len() implies contains_box(
                            bbox,
                            sphere_aabb_spec(#[trigger] prims[k]),
                        ) by {
                            assert(prims[k] == self.spheres@[start + k]);
                        }
                        lemma_box_miss_scan(prims, bbox, *ray, t_min as int, t_max as int);
                    }
                    Option::None
                } else {
                    hit_range(&self.spheres, start, end, ray, t_min, t_max)
                }
            },
            BvhNode::Interior { bbox, left, right, start, end } => {
                if !bbox.intersects(ray, t_min, t_max) {
                    proof {
                        let prims = self.spheres@.subrange(start as int, end as int);
                        assert forall|k: int| 0 <= k < prims.len() implies contains_box(
                            bbox,
                            sphere_aabb_spec(#[trigger] prims[k]),
                        ) by {
                            assert(prims[k] == self.spheres@[start + k]);
                        }
                        lemma_box_miss_scan(prims, bbox, *ray, t_min as int, t_max as int);
                    }
                    return Option::None;
                }
                proof {
                    assert(node_wf(self.nodes@, self.spheres@, left as int));
                    assert(node_wf(self.nodes@, self.spheres@, right as int));
                }
                let ghost m = node_end(self.nodes@[left as int]);
                let ghost aseq = self.spheres@.subrange(start as int, m);
                let ghost bseq = self.spheres@.subrange(m, end as int);
                proof {
                    assert(self.spheres@.subrange(start as int, end as int) =~= aseq + bseq);
                    assert(forall|j: int|
                        0 <= j < m - start ==> #[trigger] self.spheres@.subrange(
                            start as int,
                            end as int,
                        )[j] == aseq[j]);
                    assert(forall|j: int|
                        m - start <= j < end - start ==> #[trigger] self.spheres@.subrange(
                            start as int,
                            end as int,
                        )[j] == bseq[j - (m - start)]);
                }
                let lh = self.hit_node(left, ray, t_min, t_max);
                match lh {
                    Option::Some(h) => {
                        proof {
                            lemma_scan_props(aseq, *ray, t_min as int, t_max as int);
                            lemma_scan_concat(aseq, bseq, *ray, t_min as int, t_max as int);
                        }
                        let rh = self.hit_node(right, ray, t_min, h.t);
                        proof {
                            lemma_scan_props(bseq, *ray, t_min as int, h.t as int);
                        }
                        match rh {
                            Option::Some(h2) => Option::Some(h2),
                            Option::None => Option::Some(h),
                        }
                    },
                    Option::None => {
                        proof {
                            lemma_scan_concat(aseq, bseq, *ray, t_min as int, t_max as int);
                        }
                        let rh = self.hit_node(right, ray, t_min, t_max);
                        proof {
                            lemma_scan_props(bseq, *ray, t_min as int, t_max as int);
                        }
                        rh
                    },
                }
            },
        }
    }

    /// Nearest hit of the ray against the whole scene, strictly within
    /// `[t_min, t_max)`. The contract is the linear scan's: the hierarchy
    /// prunes work but never changes the verdict.
    pub fn hit(&self, ray: &Ray, t_min: i64, t_max: i64) -> (r: Option<HitRecord>)
        requires
            bvh_wf(*self),
            ray_bounded(*ray),
            a_coef(*ray) > 0,
            0 <= t_min <= COORD_MAX,
            -COORD_MAX <= t_max <= COORD_MAX,
        ensures
            scan_result_matches(self.spheres@, *ray, t_min as int, t_max as int, r),
    {
        if self.nodes.len() == 0 {
            proof {
                assert(self.spheres@.len() == 0);
            }
            Option::None
        } else {
            let root = self.nodes.len() - 1;
            let r = self.hit_node(root, ray, t_min, t_max);
            proof {
                assert(self.spheres@.subrange(0, self.spheres@.len() as int) =~= self.spheres@);
            }
            r
        }
    }
}

/// Containment runs up the tree: in a well-formed hierarchy an interior
/// node's box contains both children's boxes, so by transitivity every
/// node's box contains all its descendants' boxes.
pub proof fn lemma_child_box_contained(b: Bvh, i: int)
    requires
        bvh_wf(b),
        0 <= i < b.nodes@.len(),
        b.nodes@[i] is Interior,
    ensures
        contains_box(node_bbox(b.nodes@[i]), node_bbox(b.nodes@[b.nodes@[i]->Interior_left as int])),
        contains_box(
            node_bbox(b.nodes@[i]),
            node_bbox(b.nodes@[b.nodes@[i]->Interior_right as int]),
        ),
{
    assert(node_wf(b.nodes@, b.spheres@, i));
}

/// Every node's box contains the box of every sphere the node covers.
pub proof fn lemma_node_box_covers_spheres(b: Bvh, i: int)
    requires
        bvh_wf(b),
        0 <= i < b.nodes@.len(),
    ensures
        forall|k: int|
            node_start(b.nodes@[i]) <= k < node_end(b.nodes@[i]) ==> contains_box(
                node_bbox(b.nodes@[i]),
                sphere_aabb_spec(#[trigger] b.spheres@[k]),
            ),
{
    assert(node_wf(b.nodes@, b.spheres@, i));
}

/// Well-formedness of a node is untouched by changes elsewhere: later nodes,
/// and spheres outside the node's own range.
pub proof fn lemma_node_wf_frame(
    nodes1: Seq<BvhNode>,
    nodes2: Seq<BvhNode>,
    sph1: Seq<Sphere>,
    sph2: Seq<Sphere>,
    i: int,
)
    requires
        0 <= i < nodes1.len(),
        nodes1.len() <= nodes2.len(),
        node_wf(nodes1, sph1, i),
        forall|j: int| 0 <= j <= i ==> nodes2[j] == nodes1[j],
        sph1.len() == sph2.len(),
        forall|k: int|
            node_start(nodes1[i]) <= k < node_end(nodes1[i]) ==> sph2[k] == #[trigger] sph1[k],
    ensures
        node_wf(nodes2, sph2, i),
{
    let b = node_bbox(nodes1[i]);
    let s = node_start(nodes1[i]);
    let e = node_end(nodes1[i]);
    assert forall|k: int| s <= k < e implies contains_box(
        b,
        sphere_aabb_spec(#[trigger] sph2[k]),
    ) by {
        assert(sph2[k] == sph1[k]);
        assert(contains_box(b, sphere_aabb_spec(sph1[k])));
    }
}

/// Exchanging two positions leaves a sequence's multiset unchanged.
pub proof fn lemma_swap_multiset(s: Seq<Sphere>, i: int, j: int)
    requires
        0 <= i < s.len(),
        0 <= j < s.len(),
    ensures
        s.update(i, s[j]).update(j, s[i]).to_multiset() == s.to_multiset(),
{
    broadcast use vstd::seq_lib::to_multiset_update;
    broadcast use vstd::seq_lib::to_multiset_contains;
    broadcast use vstd::multiset::group_multiset_axioms;

    if i == j {
        assert(s.update(i, s[j]).update(j, s[i]) =~= s);
    } else {
        let s1 = s.update(i, s[j]);
        let s2 = s1.update(j, s[i]);
        assert(s.contains(s[i]));
        assert(s.contains(s[j]));
        assert(s1[j] == s[j]);
        assert(s1.to_multiset() == s.to_multiset().insert(s[j]).remove(s[i]));
        assert(s2.to_multiset() == s1.to_multiset().insert(s[i]).remove(s1[j]));
        assert(s2.to_multiset() =~= s.to_multiset());
    }
}

/// The sphere's center coordinate on the given axis, the key the split sorts
/// by (the box center and the sphere center coincide).
pub open spec fn center_key(s: Sphere, axis: usize) -> i64 {
    if axis == 0 {
        s.center.x
    } else if axis == 1 {
        s.center.y
    } else {
        s.center.z
    }
}

/// See `center_key`.
fn center_axis(s: &Sphere, axis: usize) -> (r: i64)
    ensures
        r == center_key(*s, axis),
{
    if axis == 0 {
        s.center.x
    } else if axis == 1 {
        s.center.y
    } else {
        s.center.z
    }
}

/// The node's bounding box.
fn bbox_of_node(n: &BvhNode) -> (r: Aabb)
    ensures
        r == node_bbox(*n),
{
    match n {
        BvhNode::Leaf { bbox, .. } => *bbox,
        BvhNode::Interior { bbox, .. } => *bbox,
    }
}

/// Sorts the index range `[start, end)` in place by center coordinate on
/// the given axis (selection sort): the range ends up in non-decreasing key
/// order and keeps its multiset of spheres, everything outside it stays
/// put.
fn sort_range(spheres: &mut Vec<Sphere>, start: usize, end: usize, axis: usize)
    requires
        start <= end <= old(spheres)@.len(),
        spheres_wf(old(spheres)@),
    ensures
        final(spheres)@.len() == old(spheres)@.len(),
        forall|k: int|
            0 <= k < old(spheres)@.len() && !(start <= k < end) ==> final(spheres)@[k] == old(
                spheres,
            )@[k],
        final(spheres)@.subrange(start as int, end as int).to_multiset() == old(
            spheres,
        )@.subrange(start as int, end as int).to_multiset(),
        spheres_wf(final(spheres)@),
        forall|p: int, q: int|
            start <= p <= q < end ==> center_key(#[trigger] final(spheres)@[p], axis) <= center_key(
                #[trigger] final(spheres)@[q],
                axis,
            ),
{
    let mut i: usize = start;
    while i < end
        invariant
            start <= i <= end <= spheres@.len(),
            spheres@.len() == old(spheres)@.len(),
            forall|k: int|
                0 <= k < old(spheres)@.len() && !(start <= k < end) ==> spheres@[k] == old(
                    spheres,
                )@[k],
            spheres@.subrange(start as int, end as int).to_multiset() == old(spheres)@.subrange(
                start as int,
                end as int,
            ).to_multiset(),
            spheres_wf(spheres@),
            forall|p: int, q: int|
                start <= p <= q < i ==> center_key(#[trigger] spheres@[p], axis) <= center_key(
                    #[trigger] spheres@[q],
                    axis,
                ),
            forall|p: int, q: int|
                start <= p < i <= q < end ==> center_key(#[trigger] spheres@[p], axis)
                    <= center_key(#[trigger] spheres@[q], axis),
        decreases end - i,
    {
        let mut m: usize = i;
        let mut j: usize = i + 1;
        while j < end
            invariant
                start <= i <= m < end <= spheres@.len(),
                i < j <= end,
                i <= m < j,
                forall|q: int|
                    i <= q < j ==> center_key(spheres@[m as int], axis) <= center_key(
                        #[trigger] spheres@[q],
                        axis,
                    ),
            decreases end - j,
        {
            if center_axis(&spheres[j], axis) < center_axis(&spheres[m], axis) {
                m = j;
            }
            j = j + 1;
        }
        let ghost pre = spheres@;
        let a = spheres[i];
        let b = spheres[m];
        spheres[i] = b;
        spheres[m] = a;
        proof {
            let s0 = pre.subrange(start as int, end as int);
            assert(spheres@ == pre.update(i as int, pre[m as int]).update(m as int, pre[i as int]));
            assert(spheres@.subrange(start as int, end as int) =~= s0.update(
                i - start,
                s0[m - start],
            ).update(m - start, s0[i - start]));
            lemma_swap_multiset(s0, i - start, m - start);
            assert forall|k: int| 0 <= k < spheres@.len() implies sphere_wf(
                #[trigger] spheres@[k],
            ) by {
                assert(spheres@[k] == pre[k] || spheres@[k] == pre[i as int] || spheres@[k]
                    == pre[m as int]);
            }
            // the chosen minimum moves to position i, keeping the prefix
            // sorted and at most the rest of the range
            assert forall|q: int| i < q < end implies center_key(
                spheres@[i as int],
                axis,
            ) <= center_key(#[trigger] spheres@[q], axis) by {
                assert(spheres@[q] == pre[q] || spheres@[q] == pre[i as int]);
            }
            assert forall|p: int| start <= p < i implies center_key(
                #[trigger] spheres@[p],
                axis,
            ) <= center_key(spheres@[i as int], axis) by {
                assert(spheres@[p] == pre[p]);
                assert(spheres@[i as int] == pre[m as int]);
            }
        }
        i = i + 1;
    }
}

/// The union of the boxes of all spheres in the non-empty index range.
fn box_of_range(spheres: &Vec<Sphere>, start: usize, end: usize) -> (r: Aabb)
    requires
        start < end <= spheres@.len(),
        spheres_wf(spheres@),
    ensures
        aabb_bounded(r),
        range_in_box(r, spheres@, start as int, end as int),
{
    let mut bbox = spheres[start].aabb();
    let mut k: usize = start + 1;
    while k < end
        invariant
            start < k <= end <= spheres@.len(),
            spheres_wf(spheres@),
            aabb_bounded(bbox),
            range_in_box(bbox, spheres@, start as int, k as int),
        decreases end - k,
    {
        let nb = spheres[k].aabb();
        let grown = bbox.merged(&nb);
        proof {
            lemma_merged_contains(bbox, nb);
            assert forall|q: int| start <= q < k + 1 implies contains_box(
                grown,
                sphere_aabb_spec(#[trigger] spheres@[q]),
            ) by {
                if q < k {
                    lemma_contains_trans(grown, bbox, sphere_aabb_spec(spheres@[q]));
                }
            }
        }
        bbox = grown;
        k = k + 1;
    }
    bbox
}

/// The split heuristic: the overlap volume of the two halves' boxes after
/// the current ordering, the quantity the axis choice minimizes.
fn split_cost(spheres: &Vec<Sphere>, start: usize, end: usize) -> i64
    requires
        start + 2 <= end <= spheres@.len(),
        spheres_wf(spheres@),
{
    let half = (end - start) / 2;
    let mid = start + half;
    let lb = box_of_range(spheres, start, mid);
    let rb = box_of_range(spheres, mid, end);
    let ov = lb.intersect(&rb);
    ov.volume()
}

/// Builds the subtree for the non-empty index range `[start, end)`,
/// reordering the range in place and appending its nodes in post-order; the
/// returned index (the last node appended) is the subtree's root. Ranges of
/// at most eight spheres become leaves; larger ranges are split at the
/// midpoint along the axis that minimizes the halves' overlap volume, ties
/// falling to the earliest axis.
fn build_range(
    spheres: &mut Vec<Sphere>,
    nodes: &mut Vec<BvhNode>,
    start: usize,
    end: usize,
) -> (root: usize)
    requires
        start < end <= old(spheres)@.len(),
        spheres_wf(old(spheres)@),
        forall|i: int|
            0 <= i < old(nodes)@.len() ==> #[trigger] node_wf(old(nodes)@, old(spheres)@, i),
        forall|i: int|
            0 <= i < old(nodes)@.len() ==> node_end(#[trigger] old(nodes)@[i]) <= start as int
                || end as int <= node_start(old(nodes)@[i]),
    ensures
        final(spheres)@.len() == old(spheres)@.len(),
        forall|k: int|
            0 <= k < old(spheres)@.len() && !(start <= k < end) ==> final(spheres)@[k] == old(
                spheres,
            )@[k],
        final(spheres)@.subrange(start as int, end as int).to_multiset() == old(
            spheres,
        )@.subrange(start as int, end as int).to_multiset(),
        spheres_wf(final(spheres)@),
        old(nodes)@.len() < final(nodes)@.len(),
        forall|i: int| 0 <= i < old(nodes)@.len() ==> final(nodes)@[i] == old(nodes)@[i],
        forall|i: int|
            old(nodes)@.len() <= i < final(nodes)@.len() ==> #[trigger] node_wf(
                final(nodes)@,
                final(spheres)@,
                i,
            ) && start as int <= node_start(final(nodes)@[i]) && node_end(final(nodes)@[i])
                <= end as int,
        root == final(nodes)@.len() - 1,
        node_start(final(nodes)@[root as int]) == start as int,
        node_end(final(nodes)@[root as int]) == end as int,
    decreases end - start,
{
    if end - start <= 8 {
        let bbox = box_of_range(spheres, start, end);
        let idx = nodes.len();
        nodes.push(BvhNode::Leaf { bbox, start, end });
        proof {
            assert(nodes@[idx as int] == (BvhNode::Leaf { bbox, start, end }));
            assert(node_wf(nodes@, spheres@, idx as int));
            assert forall|i: int| old(nodes)@.len() <= i < nodes@.len() implies #[trigger] node_wf(
                nodes@,
                spheres@,
                i,
            ) && start as int <= node_start(nodes@[i]) && node_end(nodes@[i]) <= end as int by {
                assert(i == idx as int);
            }
        }
        idx
    } else {
        let ghost s_orig = spheres@;
        sort_range(spheres, start, end, 0);
        let ghost s_a = spheres@;
        let c0 = split_cost(spheres, start, end);
        sort_range(spheres, start, end, 1);
        let ghost s_b = spheres@;
        let c1 = split_cost(spheres, start, end);
        sort_range(spheres, start, end, 2);
        let ghost s_c = spheres@;
        let c2 = split_cost(spheres, start, end);
        let mut best_axis: usize = 0;
        let mut best_cost: i64 = c0;
        if c1 < best_cost {
            best_axis = 1;
            best_cost = c1;
        }
        if c2 < best_cost {
            best_axis = 2;
            best_cost = c2;
        }
        if best_axis != 2 {
            sort_range(spheres, start, end, best_axis);
        }
        let ghost s0 = spheres@;
        let ghost nodes0 = nodes@;
        proof {
            assert(nodes0 == old(nodes)@);
            assert forall|k: int|
                0 <= k < s_orig.len() && !(start as int <= k < end as int) implies s0[k]
                == s_orig[k] by {
                assert(s_a[k] == s_orig[k]);
                assert(s_b[k] == s_a[k]);
                assert(s_c[k] == s_b[k]);
                assert(s0[k] == s_c[k]);
            }
            assert forall|i: int| 0 <= i < nodes0.len() implies #[trigger] node_wf(
                nodes0,
                s0,
                i,
            ) by {
                assert(node_wf(nodes0, s_orig, i));
                assert(node_end(nodes0[i]) <= start as int || end as int <= node_start(
                    nodes0[i],
                ));
                assert(s0.len() == s_orig.len());
                assert forall|k: int|
                    node_start(nodes0[i]) <= k < node_end(nodes0[i]) implies s0[k] == #[trigger]
                s_orig[k] by {
                    assert(0 <= k < s_orig.len());
                    assert(!(start as int <= k < end as int));
                    assert(s_a[k] == s_orig[k]);
                    assert(s_b[k] == s_a[k]);
                    assert(s_c[k] == s_b[k]);
                    assert(s0[k] == s_c[k]);
                }
                lemma_node_wf_frame(nodes0, nodes0, s_orig, s0, i);
            }
        }
        let half = (end - start) / 2;
        let mid = start + half;
        let li = build_range(spheres, nodes, start, mid);
        let ghost s1 = spheres@;
        let ghost nodes1 = nodes@;
        proof {
            assert forall|i: int| 0 <= i < nodes1.len() implies #[trigger] node_wf(
                nodes1,
                s1,
                i,
            ) by {
                if i < nodes0.len() {
                    assert(node_wf(nodes0, s0, i));
                    assert(node_end(nodes0[i]) <= start as int || end as int <= node_start(
                        nodes0[i],
                    ));
                    assert(s1.len() == s0.len());
                    assert forall|k: int|
                        node_start(nodes0[i]) <= k < node_end(nodes0[i]) implies s1[k]
                        == #[trigger] s0[k] by {
                        assert(0 <= k < s0.len());
                        assert(!(start as int <= k < mid as int));
                    }
                    lemma_node_wf_frame(nodes0, nodes1, s0, s1, i);
                }
            }
            assert forall|i: int| 0 <= i < nodes1.len() implies node_end(#[trigger] nodes1[i])
                <= mid as int || end as int <= node_start(nodes1[i]) by {
                if i < nodes0.len() {
                    assert(node_end(nodes0[i]) <= start as int || end as int <= node_start(
                        nodes0[i],
                    ));
                } else {
                    assert(node_wf(nodes1, s1, i));
                }
            }
        }
        let ri = build_range(spheres, nodes, mid, end);
        let ghost s2 = spheres@;
        let ghost nodes2 = nodes@;
        proof {
            assert forall|i: int| 0 <= i < nodes2.len() implies #[trigger] node_wf(
                nodes2,
                s2,
                i,
            ) by {
                if i < nodes1.len() {
                    assert(node_wf(nodes1, s1, i));
                    assert(node_end(nodes1[i]) <= mid as int || end as int <= node_start(
                        nodes1[i],
                    ));
                    assert(s2.len() == s1.len());
                    assert forall|k: int|
                        node_start(nodes1[i]) <= k < node_end(nodes1[i]) implies s2[k]
                        == #[trigger] s1[k] by {
                        assert(0 <= k < s1.len());
                        assert(!(mid as int <= k < end as int));
                    }
                    lemma_node_wf_frame(nodes1, nodes2, s1, s2, i);
                }
            }
        }
        let lb = bbox_of_node(&nodes[li]);
        let rb = bbox_of_node(&nodes[ri]);
        let bbox = lb.merged(&rb);
        let idx = nodes.len();
        nodes.push(BvhNode::Interior { bbox, left: li, right: ri, start, end });
        proof {
            lemma_merged_contains(lb, rb);
            // the parent's box contains every covered sphere's box
            assert forall|k: int| start <= k < end implies contains_box(
                bbox,
                sphere_aabb_spec(#[trigger] spheres@[k]),
            ) by {
                if k < mid as int {
                    assert(node_wf(nodes2, s2, li as int));
                    assert(contains_box(node_bbox(nodes2[li as int]), sphere_aabb_spec(s2[k])));
                    lemma_contains_trans(bbox, lb, sphere_aabb_spec(s2[k]));
                } else {
                    assert(node_wf(nodes2, s2, ri as int));
                    assert(contains_box(node_bbox(nodes2[ri as int]), sphere_aabb_spec(s2[k])));
                    lemma_contains_trans(bbox, rb, sphere_aabb_spec(s2[k]));
                }
            }
            assert(nodes@[li as int] == nodes1[li as int]);
            assert(nodes@[ri as int] == nodes2[ri as int]);
            assert(node_wf(nodes2, s2, li as int));
            assert(node_wf(nodes2, s2, ri as int));
            assert(aabb_bounded(bbox));
            assert(node_wf(nodes@, spheres@, idx as int));
            // every node appended within this call is well-formed in the final state
            assert forall|i: int| old(nodes)@.len() <= i < nodes@.len() implies #[trigger] node_wf(
                nodes@,
                spheres@,
                i,
            ) && start as int <= node_start(nodes@[i]) && node_end(nodes@[i]) <= end as int by {
                if i < nodes1.len() {
                    assert(nodes@[i] == nodes2[i]);
                    assert(nodes2[i] == nodes1[i]);
                    assert(node_wf(nodes1, s1, i));
                    lemma_node_wf_frame(nodes2, nodes@, s2, spheres@, i);
                } else if i < nodes2.len() {
                    assert(nodes@[i] == nodes2[i]);
                    assert(node_wf(nodes2, s2, i));
                    lemma_node_wf_frame(nodes2, nodes@, s2, spheres@, i);
                }
            }
            // the range's multiset is preserved through the sorts and both halves
            let a_pre = s0.subrange(start as int, mid as int);
            let b_pre = s0.subrange(mid as int, end as int);
            let a_fin = s2.subrange(start as int, mid as int);
            let b_fin = s2.subrange(mid as int, end as int);
            assert(s0.subrange(start as int, end as int) =~= a_pre + b_pre);
            assert(s2.subrange(start as int, end as int) =~= a_fin + b_fin);
            vstd::seq_lib::lemma_multiset_commutative(a_pre, b_pre);
            vstd::seq_lib::lemma_multiset_commutative(a_fin, b_fin);
            assert(s1.subrange(mid as int, end as int) =~= b_pre);
            assert(a_fin =~= s1.subrange(start as int, mid as int));
            assert(a_fin.to_multiset() == a_pre.to_multiset());
            assert(b_fin.to_multiset() == b_pre.to_multiset());
        }
        idx
    }
}

impl Bvh {
    /// Builds the hierarchy over the given spheres, consuming and reordering
    /// them: the result holds the same spheres (as a multiset) and a
    /// well-formed tree over them.
    pub fn new(spheres: Vec<Sphere>) -> (r: Bvh)
        requires
            spheres_wf(spheres@),
        ensures
            bvh_wf(r),
            r.spheres@.len() == spheres@.len(),
            r.spheres@.to_multiset() == spheres@.to_multiset(),
    {
        let mut spheres = spheres;
        let mut nodes: Vec<BvhNode> = Vec::new();
        if spheres.len() == 0 {
            return Bvh { nodes, spheres };
        }
        let n = spheres.len();
        let ghost s_in = spheres@;
        let _root = build_range(&mut spheres, &mut nodes, 0, n);
        proof {
            assert(spheres@.subrange(0, n as int) =~= spheres@);
            assert(s_in.subrange(0, n as int) =~= s_in);
        }
        Bvh { nodes, spheres }
    }
}

} // verus!
