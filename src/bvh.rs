//! The bounding-volume hierarchy: slab test, construction, traversal, and its agreement with a linear scan.

use vstd::prelude::*;
use crate::bbox::{BBox, ball_box, box_contains, box_covers, merge_spec};
use crate::hittable::{Accuracy, HitRecord};
use crate::ray::Ray;
use crate::scene::{Scene, SceneObject, closer, hit_t, object_box, object_hit, scan_hit};
use crate::bbox::center_spec;
use crate::utils::{random_on_unit_sphere, unit_draw};
use crate::sphere::{Sphere, quadratic, sphere_hit, sphere_t};
use crate::vec3::{
    Vec3, bounded_by, dot_spec, in_range, is_direction, is_isqrt, isqrt_spec, sub_spec, LIMIT,
    SCALE,
};

verus! {

/// The stretch of ray parameters along one axis for which the ray lies between
/// the box's two planes.
#[derive(Clone, Copy, Debug, PartialEq, Eq, Structural)]
pub enum Span {
    /// No parameter: the ray runs parallel to the planes, outside them.
    Empty,
    /// Every parameter: the ray runs parallel to the planes, between them.
    Whole,
    /// The parameters from `near / den` to `far / den`, with `den > 0`.
    Between { near: i128, far: i128, den: i128 },
}

/// The span on one axis, for origin coordinate `o`, direction coordinate `d`
/// and planes `lo <= hi`; a negative direction swaps the planes.
pub open spec fn span_spec(o: int, d: int, lo: int, hi: int) -> Span {
    if d == 0 {
        if lo <= o <= hi {
            Span::Whole
        } else {
            Span::Empty
        }
    } else if d > 0 {
        Span::Between { near: (lo - o) as i128, far: (hi - o) as i128, den: d as i128 }
    } else {
        Span::Between { near: (o - hi) as i128, far: (o - lo) as i128, den: (-d) as i128 }
    }
}

/// Everything on span `p` comes no later than the end of span `q`.
pub open spec fn starts_before_end(p: Span, q: Span) -> bool {
    match (p, q) {
        (Span::Between { near, den: dp, .. }, Span::Between { far, den: dq, .. }) => near * dq
            <= far * dp,
        _ => true,
    }
}

pub open spec fn starts_ahead(p: Span) -> bool {
    match p {
        Span::Between { near, .. } => near >= 0,
        _ => false,
    }
}

/// The three spans share a parameter, and the largest near end is not behind
/// the origin.
pub open spec fn spans_meet(a: Span, b: Span, c: Span) -> bool {
    a != Span::Empty && b != Span::Empty && c != Span::Empty && (starts_ahead(a) || starts_ahead(b)
        || starts_ahead(c)) && starts_before_end(a, a) && starts_before_end(a, b)
        && starts_before_end(a, c) && starts_before_end(b, a) && starts_before_end(b, b)
        && starts_before_end(b, c) && starts_before_end(c, a) && starts_before_end(c, b)
        && starts_before_end(c, c)
}

/// The slab test: the ray starts inside the box, or its spans on the three axes
/// overlap at a parameter no smaller than the largest near end, which is ahead
/// of the origin.
pub open spec fn slab_spec(ray: Ray, b: BBox) -> bool {
    box_contains(b, ray.orig) || spans_meet(
        span_spec(ray.orig.x as int, ray.dir.x as int, b.min.x as int, b.max.x as int),
        span_spec(ray.orig.y as int, ray.dir.y as int, b.min.y as int, b.max.y as int),
        span_spec(ray.orig.z as int, ray.dir.z as int, b.min.z as int, b.max.z as int),
    )
}

fn span(o: i64, d: i64, lo: i64, hi: i64) -> (r: Span)
    requires
        -LIMIT <= o <= LIMIT,
        -2 * LIMIT <= lo <= 2 * LIMIT,
        -2 * LIMIT <= hi <= 2 * LIMIT,
        -SCALE <= d <= SCALE,
    ensures
        r == span_spec(o as int, d as int, lo as int, hi as int),
        r matches Span::Between { near, far, den } ==> -3 * LIMIT <= near <= 3 * LIMIT && -3
            * LIMIT <= far <= 3 * LIMIT && 0 < den <= SCALE,
{
    if d == 0 {
        if lo <= o && o <= hi {
            Span::Whole
        } else {
            Span::Empty
        }
    } else if d > 0 {
        Span::Between { near: (lo - o) as i128, far: (hi - o) as i128, den: d as i128 }
    } else {
        Span::Between { near: (o - hi) as i128, far: (o - lo) as i128, den: (-d) as i128 }
    }
}

fn before(p: Span, q: Span) -> (r: bool)
    requires
        p matches Span::Between { near, den, .. } ==> -3 * LIMIT <= near <= 3 * LIMIT && 0 < den
            <= SCALE,
        q matches Span::Between { far, den, .. } ==> -3 * LIMIT <= far <= 3 * LIMIT && 0 < den
            <= SCALE,
    ensures
        r == starts_before_end(p, q),
{
    match (p, q) {
        (Span::Between { near, den: dp, .. }, Span::Between { far, den: dq, .. }) => {
            proof {
                crate::vec3::lemma_mul_bound(near as int, dq as int, 3 * LIMIT);
                crate::vec3::lemma_mul_bound(far as int, dp as int, 3 * LIMIT);
            }
            near * dq <= far * dp
        },
        _ => true,
    }
}

fn ahead(p: Span) -> (r: bool)
    ensures
        r == starts_ahead(p),
{
    match p {
        Span::Between { near, .. } => near >= 0,
        _ => false,
    }
}

/// Whether the ray can meet the box (see `slab_spec`).
pub fn has_intersection(ray: &Ray, bbox: &BBox) -> (r: bool)
    requires
        ray.wf(),
        bbox.wf(),
    ensures
        r == slab_spec(*ray, *bbox),
{
    let o = ray.orig;
    if bbox.contains(&o) {
        return true;
    }
    let d = ray.dir;
    let a = span(o.x, d.x, bbox.min.x, bbox.max.x);
    let b = span(o.y, d.y, bbox.min.y, bbox.max.y);
    let c = span(o.z, d.z, bbox.min.z, bbox.max.z);
    if a == Span::Empty || b == Span::Empty || c == Span::Empty {
        return false;
    }
    (ahead(a) || ahead(b) || ahead(c)) && before(a, a) && before(a, b) && before(a, c) && before(
        b,
        a,
    ) && before(b, b) && before(b, c) && before(c, a) && before(c, b) && before(c, c)
}

/// A bounding-volume hierarchy over the primitives of a scene, which leaves
/// name by index.
#[derive(Debug)]
pub enum Bvh {
    Node { child_a: Box<Bvh>, child_b: Box<Bvh>, bbox: BBox },
    Leaf { index: usize, bbox: BBox },
}

pub open spec fn node_box(n: Bvh) -> BBox {
    match n {
        Bvh::Node { bbox, .. } => bbox,
        Bvh::Leaf { bbox, .. } => bbox,
    }
}

/// The indices that the leaves under `n` hold.
pub open spec fn leaves(n: Bvh) -> Set<usize>
    decreases n,
{
    match n {
        Bvh::Node { child_a, child_b, .. } => leaves(*child_a).union(leaves(*child_b)),
        Bvh::Leaf { index, .. } => set![index],
    }
}

/// Each leaf holds a primitive's index and box; each node's box is the union of
/// its children's boxes, hence of the boxes of every primitive below it, and
/// holds each of them.
pub open spec fn bvh_wf(n: Bvh, objs: Seq<SceneObject>) -> bool
    decreases n,
{
    node_box(n).wf() && match n {
        Bvh::Node { child_a, child_b, bbox } => bvh_wf(*child_a, objs) && bvh_wf(*child_b, objs)
            && bbox == merge_spec(node_box(*child_a), node_box(*child_b)) && forall|i: usize|
            #[trigger]
            leaves(n).contains(i) ==> box_covers(bbox, object_box(objs[i as int])),
        Bvh::Leaf { index, bbox } => index < objs.len() && bbox == object_box(objs[index as int]),
    }
}

/// The indices that the leaves under `n` hold, left to right, with repetitions.
pub open spec fn leaf_seq(n: Bvh) -> Seq<usize>
    decreases n,
{
    match n {
        Bvh::Node { child_a, child_b, .. } => leaf_seq(*child_a) + leaf_seq(*child_b),
        Bvh::Leaf { index, .. } => seq![index],
    }
}

/// The number of inner nodes under `n`, `n` included.
pub open spec fn node_count(n: Bvh) -> nat
    decreases n,
{
    match n {
        Bvh::Node { child_a, child_b, .. } => 1 + node_count(*child_a) + node_count(*child_b),
        Bvh::Leaf { .. } => 0,
    }
}

/// The number of edges on the longest path from `n` down to a leaf.
pub open spec fn height(n: Bvh) -> nat
    decreases n,
{
    match n {
        Bvh::Node { child_a, child_b, .. } => {
            let ha = height(*child_a);
            let hb = height(*child_b);
            1 + if ha >= hb {
                ha
            } else {
                hb
            }
        },
        Bvh::Leaf { .. } => 0,
    }
}

/// The smallest `k` with `n <= 2^k`, for `n >= 1`: halving rounded up reaches 1
/// after `k` steps.
pub open spec fn ceil_log2(n: nat) -> nat
    decreases n,
{
    if n <= 1 {
        0
    } else {
        1 + ceil_log2((n - n / 2) as nat)
    }
}

/// Each of `0..n` occurs once in the sequence `0, 1, ..., n - 1`.
proof fn lemma_range_count(n: int, x: usize)
    requires
        0 <= x < n <= usize::MAX + 1,
    ensures
        Seq::new(n as nat, |k: int| k as usize).to_multiset().count(x) == 1,
    decreases n,
{
    broadcast use vstd::seq_lib::to_multiset_build, vstd::multiset::group_multiset_axioms;

    let s = Seq::new(n as nat, |k: int| k as usize);
    let t = Seq::new((n - 1) as nat, |k: int| k as usize);
    assert(s =~= t.push((n - 1) as usize));
    if x < n - 1 {
        lemma_range_count(n - 1, x);
    } else {
        assert(!t.contains(x));
        vstd::seq_lib::to_multiset_contains(t, x);
    }
}

proof fn lemma_ceil_log2_monotone(a: nat, b: nat)
    requires
        a <= b,
    ensures
        ceil_log2(a) <= ceil_log2(b),
    decreases b,
{
    if a > 1 {
        lemma_ceil_log2_monotone((a - a / 2) as nat, (b - b / 2) as nat);
    }
}

/// The traversal: a node whose box the ray misses yields nothing; otherwise the
/// nearer of the children's hits, or the leaf primitive's own hit.
pub open spec fn tree_hit(n: Bvh, objs: Seq<SceneObject>, ray: Ray, acc: Accuracy) -> Option<
    HitRecord,
>
    decreases n,
{
    if !slab_spec(ray, node_box(n)) {
        None
    } else {
        match n {
            Bvh::Node { child_a, child_b, .. } => closer(
                tree_hit(*child_a, objs, ray, acc),
                tree_hit(*child_b, objs, ray, acc),
            ),
            Bvh::Leaf { index, .. } => object_hit(objs[index as int], ray, acc),
        }
    }
}

/// The children `a` and `b` are split along `axis`, a drawn unit direction: no
/// key of a primitive under `a` exceeds a key of one under `b`.
pub open spec fn splits_along(objs: Seq<SceneObject>, a: Bvh, b: Bvh, axis: Vec3) -> bool {
    is_direction(axis) && unit_draw(axis) && forall|x: usize, y: usize|
        #![trigger leaf_seq(a).contains(x), leaf_seq(b).contains(y)]
        leaf_seq(a).contains(x) && leaf_seq(b).contains(y) ==> key_of(objs, axis, x) <= key_of(
            objs,
            axis,
            y,
        )
}

/// The sort key of a primitive: its box's middle projected on the axis.
pub open spec fn key_of(objs: Seq<SceneObject>, axis: Vec3, i: usize) -> int {
    dot_spec(center_spec(object_box(objs[i as int])), axis)
}

proof fn lemma_swap_contains(s: Seq<usize>, i: int, m: int)
    requires
        0 <= i < s.len(),
        0 <= m < s.len(),
    ensures
        forall|x: usize|
            #[trigger] s.update(i, s[m]).update(m, s[i]).contains(x) <==> s.contains(x),
{
    let t = s.update(i, s[m]).update(m, s[i]);
    assert forall|x: usize| #[trigger] t.contains(x) <==> s.contains(x) by {
        if t.contains(x) {
            let k = choose|k: int| 0 <= k < t.len() && t[k] == x;
            if k == m {
                assert(s[i] == x);
            } else if k == i {
                assert(s[m] == x);
            } else {
                assert(s[k] == x);
            }
        }
        if s.contains(x) {
            let k = choose|k: int| 0 <= k < s.len() && s[k] == x;
            if k == m {
                assert(t[i] == x);
            } else if k == i {
                assert(t[m] == x);
            } else {
                assert(t[k] == x);
            }
        }
    }
}

proof fn lemma_swap_multiset(s: Seq<usize>, i: int, m: int)
    requires
        0 <= i < s.len(),
        0 <= m < s.len(),
    ensures
        s.update(i, s[m]).update(m, s[i]).to_multiset() == s.to_multiset(),
{
    broadcast use vstd::seq_lib::to_multiset_update, vstd::multiset::group_multiset_axioms;

    let s1 = s.update(i, s[m]);
    assert(s1.to_multiset() == s.to_multiset().insert(s[m]).remove(s[i]));
    assert(s1.update(m, s[i]).to_multiset() == s1.to_multiset().insert(s[i]).remove(s1[m]));
    assert(s1[m] == s[m]);
    let ms = s.to_multiset();
    assert(s.contains(s[i]));
    assert(ms.count(s[i]) > 0) by {
        vstd::seq_lib::to_multiset_contains(s, s[i]);
    }
    let m1 = ms.insert(s[m]);
    let m2 = m1.remove(s[i]);
    let m3 = m2.insert(s[i]);
    let m4 = m3.remove(s[m]);
    assert forall|x: usize| #[trigger] m4.count(x) == ms.count(x) by {
        if x == s[i] && x == s[m] {
        } else if x == s[i] {
            assert(m1.count(x) == ms.count(x));
            assert(m2.count(x) == ms.count(x) - 1);
        } else if x == s[m] {
            assert(m3.count(x) == ms.count(x) + 1);
        }
    }
    assert(m4 =~= ms);
}

proof fn lemma_split_contains(s: Seq<usize>, mid: int)
    requires
        0 <= mid <= s.len(),
    ensures
        forall|x: usize|
            s.contains(x) <==> (#[trigger] s.subrange(0, mid).contains(x) || s.subrange(
                mid,
                s.len() as int,
            ).contains(x)),
{
    let a = s.subrange(0, mid);
    let b = s.subrange(mid, s.len() as int);
    assert forall|x: usize| s.contains(x) <==> (#[trigger] a.contains(x) || b.contains(x)) by {
        if s.contains(x) {
            let k = choose|k: int| 0 <= k < s.len() && s[k] == x;
            if k < mid {
                assert(a[k] == x);
            } else {
                assert(b[k - mid] == x);
            }
        }
        if a.contains(x) {
            let k = choose|k: int| 0 <= k < a.len() && a[k] == x;
            assert(s[k] == x);
        }
        if b.contains(x) {
            let k = choose|k: int| 0 <= k < b.len() && b[k] == x;
            assert(s[k + mid] == x);
        }
    }
}

/// Sorts the indices by the projection of their primitives' box middles on
/// `axis` and cuts them at the middle: the first half gets `len / 2` of them,
/// none of whose keys exceeds a key of the second half.
pub fn split(objects: &Vec<SceneObject>, indexes: Vec<usize>, axis: Vec3) -> (r: (
    Vec<usize>,
    Vec<usize>,
))
    requires
        indexes.len() >= 2,
        forall|k: int| 0 <= k < indexes.len() ==> #[trigger] indexes@[k] < objects.len(),
        forall|i: int| 0 <= i < objects.len() ==> #[trigger] objects@[i].wf(),
        is_direction(axis),
    ensures
        r.0.len() == indexes.len() / 2,
        r.1.len() == indexes.len() - indexes.len() / 2,
        forall|x: usize|
            #[trigger] indexes@.contains(x) <==> (r.0@.contains(x) || r.1@.contains(x)),
        (r.0@ + r.1@).to_multiset() == indexes@.to_multiset(),
        forall|p: int, q: int|
            0 <= p < r.0.len() && 0 <= q < r.1.len() ==> key_of(objects@, axis, #[trigger] r.0@[p])
                <= key_of(objects@, axis, #[trigger] r.1@[q]),
{
    let n = indexes.len();
    let mut v = indexes;
    let mut keys: Vec<i128> = Vec::new();
    let mut k: usize = 0;
    while k < n
        invariant
            v@ == indexes@,
            n == v.len(),
            keys.len() == k,
            k <= n,
            forall|j: int| 0 <= j < k ==> keys@[j] == key_of(objects@, axis, #[trigger] v@[j]),
            forall|j: int| 0 <= j < v.len() ==> #[trigger] v@[j] < objects.len(),
            forall|i: int| 0 <= i < objects.len() ==> #[trigger] objects@[i].wf(),
            is_direction(axis),
        decreases n - k,
    {
        let c = objects[v[k]].bbox().center();
        keys.push(c.dot(&axis));
        k = k + 1;
    }
    let mut i: usize = 0;
    while i < n
        invariant
            n == v.len(),
            keys.len() == n,
            i <= n,
            forall|x: usize| #[trigger] v@.contains(x) <==> indexes@.contains(x),
            v@.to_multiset() == indexes@.to_multiset(),
            forall|j: int| 0 <= j < n ==> keys@[j] == key_of(objects@, axis, #[trigger] v@[j]),
            forall|a: int, b: int| 0 <= a < b < n && a < i ==> #[trigger] keys@[a] <= #[trigger] keys@[b],
        decreases n - i,
    {
        let mut m: usize = i;
        let mut j: usize = i + 1;
        while j < n
            invariant
                keys.len() == n,
                i <= m < n,
                i < j <= n,
                forall|q: int| i <= q < j ==> keys@[m as int] <= #[trigger] keys@[q],
            decreases n - j,
        {
            if keys[j] < keys[m] {
                m = j;
            }
            j = j + 1;
        }
        proof {
            lemma_swap_contains(v@, i as int, m as int);
            lemma_swap_multiset(v@, i as int, m as int);
        }
        let vi = v[i];
        let vm = v[m];
        v.set(i, vm);
        v.set(m, vi);
        let ki = keys[i];
        let km = keys[m];
        keys.set(i, km);
        keys.set(m, ki);
        i = i + 1;
    }
    let mid = n / 2;
    let ghost sorted = v@;
    let b = v.split_off(mid);
    proof {
        lemma_split_contains(sorted, mid as int);
        assert(sorted =~= v@ + b@);
        assert forall|p: int, q: int| 0 <= p < v.len() && 0 <= q < b.len() implies key_of(
            objects@,
            axis,
            #[trigger] v@[p],
        ) <= key_of(objects@, axis, #[trigger] b@[q]) by {
            assert(sorted[p] == v@[p]);
            assert(sorted[q + mid] == b@[q]);
            assert(keys@[p] <= keys@[q + mid]);
        }
    }
    (v, b)
}

impl Bvh {
    /// The hierarchy over the primitives that `indexes` names: a leaf for one
    /// index; otherwise a node over two children built on the halves that `split`
    /// makes along a random axis, whose box is the union of theirs.  Each index
    /// sits in exactly one leaf, and halving keeps the tree's height within
    /// `ceil(log2(len))`.
    pub fn new_impl(objects: &Vec<SceneObject>, indexes: Vec<usize>) -> (r: Bvh)
        requires
            indexes.len() >= 1,
            forall|k: int| 0 <= k < indexes.len() ==> #[trigger] indexes@[k] < objects.len(),
            forall|i: int| 0 <= i < objects.len() ==> #[trigger] objects@[i].wf(),
        ensures
            bvh_wf(r, objects@),
            indexes.len() == 1 ==> r == (Bvh::Leaf {
                index: indexes@[0],
                bbox: object_box(objects@[indexes@[0] as int]),
            }),
            forall|x: usize| #[trigger] leaves(r).contains(x) <==> indexes@.contains(x),
            leaf_seq(r).to_multiset() == indexes@.to_multiset(),
            leaf_seq(r).len() == indexes.len(),
            node_count(r) == indexes.len() - 1,
            height(r) <= ceil_log2(indexes.len() as nat),
            r matches Bvh::Node { child_a, child_b, .. } ==> exists|axis: Vec3|
                #[trigger] splits_along(objects@, *child_a, *child_b, axis),
        decreases indexes.len(),
    {
        if indexes.len() == 1 {
            let index = indexes[0];
            let bbox = objects[index].bbox();
            let r = Bvh::Leaf { index, bbox };
            proof {
                assert forall|x: usize| #[trigger] leaves(r).contains(x) <==> indexes@.contains(
                    x,
                ) by {
                    if indexes@.contains(x) {
                        let k = choose|k: int| 0 <= k < indexes.len() && indexes@[k] == x;
                        assert(k == 0);
                    }
                    if x == index {
                        assert(indexes@[0] == x);
                    }
                }
                assert(indexes@ =~= seq![index]);
            }
            r
        } else {
            let ghost all = indexes@;
            let n = indexes.len();
            let axis = random_on_unit_sphere();
            let (a, b) = split(objects, indexes, axis);
            proof {
                assert forall|k: int| 0 <= k < a.len() implies #[trigger] a@[k] < objects.len() by {
                    assert(all.contains(a@[k]));
                }
                assert forall|k: int| 0 <= k < b.len() implies #[trigger] b@[k] < objects.len() by {
                    assert(all.contains(b@[k]));
                }
            }
            let ghost sa = a@;
            let ghost sb = b@;
            let child_a = Bvh::new_impl(objects, a);
            let child_b = Bvh::new_impl(objects, b);
            let bbox = BBox::merge(child_a.bbox(), child_b.bbox());
            let r = Bvh::Node { child_a: Box::new(child_a), child_b: Box::new(child_b), bbox };
            proof {
                assert forall|x: usize| #[trigger] leaves(r).contains(x) <==> all.contains(x) by {
                    assert(leaves(r).contains(x) <==> (leaves(child_a).contains(x) || leaves(
                        child_b,
                    ).contains(x)));
                }
                assert forall|x: usize| #[trigger] leaves(r).contains(x) implies box_covers(
                    bbox,
                    object_box(objects@[x as int]),
                ) by {
                    if leaves(child_a).contains(x) {
                        lemma_leaf_index(child_a, objects@, x);
                    } else {
                        lemma_leaf_index(child_b, objects@, x);
                    }
                }
                vstd::seq_lib::lemma_multiset_commutative(leaf_seq(child_a), leaf_seq(child_b));
                vstd::seq_lib::lemma_multiset_commutative(sa, sb);
                lemma_ceil_log2_monotone((n / 2) as nat, (n - n / 2) as nat);
                assert forall|x: usize, y: usize|
                    #![trigger leaf_seq(child_a).contains(x), leaf_seq(child_b).contains(y)]
                    leaf_seq(child_a).contains(x) && leaf_seq(child_b).contains(y) implies key_of(
                    objects@,
                    axis,
                    x,
                ) <= key_of(objects@, axis, y) by {
                    vstd::seq_lib::to_multiset_contains(leaf_seq(child_a), x);
                    vstd::seq_lib::to_multiset_contains(sa, x);
                    vstd::seq_lib::to_multiset_contains(leaf_seq(child_b), y);
                    vstd::seq_lib::to_multiset_contains(sb, y);
                    let p = choose|p: int| 0 <= p < sa.len() && sa[p] == x;
                    let q = choose|q: int| 0 <= q < sb.len() && sb[q] == y;
                    assert(key_of(objects@, axis, sa[p]) <= key_of(objects@, axis, sb[q]));
                }
                assert(splits_along(objects@, child_a, child_b, axis));
            }
            r
        }
    }

    /// The hierarchy over every primitive of a non-empty scene.
    pub fn new(scene: &Scene) -> (r: Bvh)
        requires
            scene.0.len() >= 1,
            scene.wf(),
        ensures
            bvh_wf(r, scene.0@),
            forall|x: usize| #[trigger] leaves(r).contains(x) <==> x < scene.0@.len(),
            leaf_seq(r).len() == scene.0.len(),
            forall|x: usize| x < scene.0@.len() ==> #[trigger] leaf_seq(r).to_multiset().count(x)
                == 1,
            node_count(r) == scene.0.len() - 1,
            height(r) <= ceil_log2(scene.0.len() as nat),
    {
        let n = scene.0.len();
        let mut indexes: Vec<usize> = Vec::new();
        let mut i: usize = 0;
        while i < n
            invariant
                n == scene.0.len(),
                i <= n,
                indexes@.len() == i,
                forall|k: int| 0 <= k < i ==> #[trigger] indexes@[k] == k,
            decreases n - i,
        {
            indexes.push(i);
            i = i + 1;
        }
        let ghost all = indexes@;
        let bvh = Bvh::new_impl(&scene.0, indexes);
        proof {
            assert forall|x: usize| #[trigger] leaves(bvh).contains(x) <==> x < n by {
                if x < n {
                    assert(all[x as int] == x);
                }
            }
            assert(all =~= Seq::new(n as nat, |k: int| k as usize));
            assert forall|x: usize| x < n implies #[trigger] leaf_seq(bvh).to_multiset().count(x)
                == 1 by {
                lemma_range_count(n as int, x);
            }
        }
        bvh
    }

    /// The box of this node.
    pub fn bbox(&self) -> (r: &BBox)
        ensures
            *r == node_box(*self),
    {
        match self {
            Bvh::Node { bbox, .. } => bbox,
            Bvh::Leaf { bbox, .. } => bbox,
        }
    }
}

/// The nearest hit under `node` (see `tree_hit`).
pub fn find_hit(node: &Bvh, scene: &Scene, ray: &Ray, range: &Accuracy) -> (r: Option<HitRecord>)
    requires
        bvh_wf(*node, scene.0@),
        scene.wf(),
        ray.wf(),
        range.wf(),
    ensures
        r == tree_hit(*node, scene.0@, *ray, *range),
        r matches Some(h) ==> h.material.wf() && is_direction(h.normal) && range.min <= h.t
            <= range.max && in_range(h.point),
    decreases node,
{
    if !has_intersection(ray, node.bbox()) {
        return None;
    }
    match node {
        Bvh::Node { child_a, child_b, .. } => {
            let hit_a = find_hit(child_a, scene, ray, range);
            let hit_b = find_hit(child_b, scene, ray, range);
            match (hit_a, hit_b) {
                (Some(ha), Some(hb)) => if ha.t < hb.t {
                    hit_a
                } else {
                    hit_b
                },
                (Some(_), None) => hit_a,
                (None, _) => hit_b,
            }
        },
        Bvh::Leaf { index, .. } => scene.0[*index].hit(ray, range),
    }
}

/// A hierarchy built once over a scene, which it borrows.
pub struct BVHScene<'a> {
    pub bvh: Bvh,
    pub scene: &'a Scene,
}

impl<'a> BVHScene<'a> {
    /// The hierarchy is well formed over the scene and its leaves name every
    /// primitive.
    pub open spec fn wf(&self) -> bool {
        self.scene.wf() && bvh_wf(self.bvh, self.scene.0@) && forall|x: usize| #[trigger]
            leaves(self.bvh).contains(x) <==> x < self.scene.0@.len()
    }

    /// Builds the hierarchy over every primitive of a non-empty scene.
    pub fn new(scene: &'a Scene) -> (r: BVHScene<'a>)
        requires
            scene.0.len() >= 1,
            scene.wf(),
        ensures
            r.wf(),
            r.scene == scene,
    {
        BVHScene { bvh: Bvh::new(scene), scene }
    }

    /// The nearest hit within the window, found through the hierarchy.
    pub fn hit(&self, ray: &Ray, range: &Accuracy) -> (r: Option<HitRecord>)
        requires
            self.wf(),
            ray.wf(),
            range.wf(),
        ensures
            r == tree_hit(self.bvh, self.scene.0@, *ray, *range),
            r matches Some(h) ==> h.material.wf() && is_direction(h.normal) && range.min <= h.t
                <= range.max && in_range(h.point),
    {
        find_hit(&self.bvh, self.scene, ray, range)
    }
}

/// The parameter of primitive `i`'s hit, if any.
pub open spec fn obj_t(objs: Seq<SceneObject>, i: usize, ray: Ray, acc: Accuracy) -> Option<int> {
    hit_t(object_hit(objs[i as int], ray, acc))
}

pub open spec fn not_after(t: int, o: Option<int>) -> bool {
    match o {
        Some(u) => t <= u,
        None => true,
    }
}

/// `r` is the nearest hit parameter among the primitives that `s` names.
pub open spec fn is_nearest(
    objs: Seq<SceneObject>,
    s: Set<usize>,
    ray: Ray,
    acc: Accuracy,
    r: Option<int>,
) -> bool {
    match r {
        None => forall|i: usize| s.contains(i) ==> (#[trigger] obj_t(objs, i, ray, acc)) is None,
        Some(t) => (exists|i: usize| s.contains(i) && #[trigger] obj_t(objs, i, ray, acc) == Some(t))
            && forall|i: usize| s.contains(i) ==> not_after(t, #[trigger] obj_t(objs, i, ray, acc)),
    }
}

/// Whenever a primitive reports a hit, the slab test accepts every box that holds
/// the primitive's box.
pub open spec fn boxes_sound(objs: Seq<SceneObject>, ray: Ray, acc: Accuracy) -> bool {
    forall|i: int, b: BBox|
        0 <= i < objs.len() && #[trigger] box_covers(b, object_box(objs[i])) && object_hit(
            objs[i],
            ray,
            acc,
        ) is Some ==> slab_spec(ray, b)
}

proof fn lemma_nearest_unique(
    objs: Seq<SceneObject>,
    s: Set<usize>,
    ray: Ray,
    acc: Accuracy,
    r1: Option<int>,
    r2: Option<int>,
)
    requires
        is_nearest(objs, s, ray, acc, r1),
        is_nearest(objs, s, ray, acc, r2),
    ensures
        r1 == r2,
{
    match (r1, r2) {
        (Some(t1), Some(t2)) => {
            let i1 = choose|i: usize| s.contains(i) && #[trigger] obj_t(objs, i, ray, acc) == Some(t1);
            let i2 = choose|i: usize| s.contains(i) && #[trigger] obj_t(objs, i, ray, acc) == Some(t2);
            assert(not_after(t1, obj_t(objs, i2, ray, acc)));
            assert(not_after(t2, obj_t(objs, i1, ray, acc)));
        },
        (Some(t1), None) => {
            let i1 = choose|i: usize| s.contains(i) && #[trigger] obj_t(objs, i, ray, acc) == Some(t1);
            assert(obj_t(objs, i1, ray, acc) is None);
        },
        (None, Some(t2)) => {
            let i2 = choose|i: usize| s.contains(i) && #[trigger] obj_t(objs, i, ray, acc) == Some(t2);
            assert(obj_t(objs, i2, ray, acc) is None);
        },
        (None, None) => {},
    }
}

proof fn lemma_closer_nearest(
    objs: Seq<SceneObject>,
    s1: Set<usize>,
    s2: Set<usize>,
    ray: Ray,
    acc: Accuracy,
    x: Option<HitRecord>,
    y: Option<HitRecord>,
)
    requires
        is_nearest(objs, s1, ray, acc, hit_t(x)),
        is_nearest(objs, s2, ray, acc, hit_t(y)),
    ensures
        is_nearest(objs, s1.union(s2), ray, acc, hit_t(closer(x, y))),
{
    let s = s1.union(s2);
    match (x, y) {
        (Some(hx), Some(hy)) => {
            let ix = choose|i: usize| s1.contains(i) && #[trigger] obj_t(objs, i, ray, acc) == Some(
                hx.t as int,
            );
            let iy = choose|i: usize| s2.contains(i) && #[trigger] obj_t(objs, i, ray, acc) == Some(
                hy.t as int,
            );
            if hx.t < hy.t {
                assert(s.contains(ix));
                assert forall|i: usize| s.contains(i) implies not_after(
                    hx.t as int,
                    #[trigger] obj_t(objs, i, ray, acc),
                ) by {
                    if s2.contains(i) {
                        assert(not_after(hy.t as int, obj_t(objs, i, ray, acc)));
                    }
                }
            } else {
                assert(s.contains(iy));
                assert forall|i: usize| s.contains(i) implies not_after(
                    hy.t as int,
                    #[trigger] obj_t(objs, i, ray, acc),
                ) by {
                    if s1.contains(i) {
                        assert(not_after(hx.t as int, obj_t(objs, i, ray, acc)));
                    }
                }
            }
        },
        (Some(hx), None) => {
            let ix = choose|i: usize| s1.contains(i) && #[trigger] obj_t(objs, i, ray, acc) == Some(
                hx.t as int,
            );
            assert(s.contains(ix));
        },
        (None, Some(hy)) => {
            let iy = choose|i: usize| s2.contains(i) && #[trigger] obj_t(objs, i, ray, acc) == Some(
                hy.t as int,
            );
            assert(s.contains(iy));
        },
        (None, None) => {},
    }
}

proof fn lemma_tree_nearest(n: Bvh, objs: Seq<SceneObject>, ray: Ray, acc: Accuracy)
    requires
        bvh_wf(n, objs),
        boxes_sound(objs, ray, acc),
    ensures
        is_nearest(objs, leaves(n), ray, acc, hit_t(tree_hit(n, objs, ray, acc))),
    decreases n,
{
    if !slab_spec(ray, node_box(n)) {
        assert forall|i: usize| leaves(n).contains(i) implies (#[trigger] obj_t(
            objs,
            i,
            ray,
            acc,
        )) is None by {
            lemma_leaf_index(n, objs, i);
            assert(box_covers(node_box(n), object_box(objs[i as int])));
        }
    } else {
        match n {
            Bvh::Node { child_a, child_b, .. } => {
                lemma_tree_nearest(*child_a, objs, ray, acc);
                lemma_tree_nearest(*child_b, objs, ray, acc);
                lemma_closer_nearest(
                    objs,
                    leaves(*child_a),
                    leaves(*child_b),
                    ray,
                    acc,
                    tree_hit(*child_a, objs, ray, acc),
                    tree_hit(*child_b, objs, ray, acc),
                );
            },
            Bvh::Leaf { index, .. } => {
                let r = obj_t(objs, index, ray, acc);
                if r is Some {
                    assert(leaves(n).contains(index));
                }
            },
        }
    }
}

/// Every leaf index under a well-formed node names a primitive, whose box the
/// node's box holds.
proof fn lemma_leaf_index(n: Bvh, objs: Seq<SceneObject>, i: usize)
    requires
        bvh_wf(n, objs),
        leaves(n).contains(i),
    ensures
        i < objs.len(),
        box_covers(node_box(n), object_box(objs[i as int])),
    decreases n,
{
    match n {
        Bvh::Node { child_a, child_b, .. } => {
            if leaves(*child_a).contains(i) {
                lemma_leaf_index(*child_a, objs, i);
            } else {
                lemma_leaf_index(*child_b, objs, i);
            }
        },
        Bvh::Leaf { .. } => {},
    }
}

proof fn lemma_scan_nearest(objs: Seq<SceneObject>, n: int, ray: Ray, acc: Accuracy)
    requires
        0 <= n <= objs.len(),
        objs.len() <= usize::MAX,
    ensures
        is_nearest(
            objs,
            Set::new(|i: usize| i < n),
            ray,
            acc,
            hit_t(scan_hit(objs, n, ray, acc)),
        ),
    decreases n,
{
    if n > 0 {
        lemma_scan_nearest(objs, n - 1, ray, acc);
        let last = (n - 1) as usize;
        assert(is_nearest(objs, set![last], ray, acc, hit_t(object_hit(objs[n - 1], ray, acc))))
            by {
            assert(last as int == n - 1);
            assert(obj_t(objs, last, ray, acc) == hit_t(object_hit(objs[n - 1], ray, acc)));
            if obj_t(objs, last, ray, acc) is Some {
                assert(set![last].contains(last));
            }
            assert forall|i: usize| set![last].contains(i) implies i == last by {}
        }
        lemma_closer_nearest(
            objs,
            Set::new(|i: usize| i < n - 1),
            set![last],
            ray,
            acc,
            scan_hit(objs, n - 1, ray, acc),
            object_hit(objs[n - 1], ray, acc),
        );
        assert(Set::new(|i: usize| i < n - 1).union(set![last]) =~= Set::new(|i: usize| i < n));
    }
}

/// Traversing the hierarchy finds a hit exactly when testing every primitive in
/// turn does, and at the same parameter, for every ray and every window that
/// starts at zero or later.  (A window reaching behind the origin can take a hit
/// on a sphere behind the ray, whose box the slab test rightly rejects.)
pub proof fn lemma_bvh_agrees_with_scan(bs: BVHScene, ray: Ray, acc: Accuracy)
    requires
        bs.wf(),
        ray.wf(),
        acc.min >= 0,
    ensures
        hit_t(tree_hit(bs.bvh, bs.scene.0@, ray, acc)) == hit_t(
            scan_hit(bs.scene.0@, bs.scene.0@.len() as int, ray, acc),
        ),
{
    let objs = bs.scene.0@;
    assert(objs.len() == bs.scene.0.len());
    lemma_scene_boxes_sound(objs, ray, acc);
    lemma_tree_nearest(bs.bvh, objs, ray, acc);
    lemma_scan_nearest(objs, objs.len() as int, ray, acc);
    assert(leaves(bs.bvh) =~= Set::new(|i: usize| i < objs.len()));
    lemma_nearest_unique(
        objs,
        leaves(bs.bvh),
        ray,
        acc,
        hit_t(tree_hit(bs.bvh, objs, ray, acc)),
        hit_t(scan_hit(objs, objs.len() as int, ray, acc)),
    );
}

/// Every non-negative number has an integer square root.
proof fn lemma_isqrt_exists(n: int)
    requires
        n >= 0,
    ensures
        is_isqrt(n, isqrt_spec(n)),
    decreases n,
{
    if n == 0 {
        assert(is_isqrt(0, 0));
    } else {
        lemma_isqrt_exists(n - 1);
        let r = isqrt_spec(n - 1);
        if (r + 1) * (r + 1) <= n {
            assert((r + 2) * (r + 2) > n) by (nonlinear_arith)
                requires
                    n - 1 < (r + 1) * (r + 1),
                    r >= 0,
            ;
            assert(is_isqrt(n, r + 1));
        } else {
            assert(is_isqrt(n, r));
        }
    }
}

/// On one axis: where the point at ray parameter `tau / a` lies between the
/// planes `lo` and `hi`, the axis' span is not empty, holds `tau / a`, and starts
/// ahead of the origin when the origin is outside the planes and `tau >= 0`.
proof fn lemma_axis_span(o: int, d: int, lo: int, hi: int, a: int, tau: int)
    requires
        a > 0,
        lo * a <= o * a + tau * d <= hi * a,
        i64::MIN <= o <= i64::MAX,
        i64::MIN <= d <= i64::MAX,
        i64::MIN <= lo <= i64::MAX,
        i64::MIN <= hi <= i64::MAX,
    ensures
        span_spec(o, d, lo, hi) != Span::Empty,
        span_spec(o, d, lo, hi) matches Span::Between { near, far, den } ==> near * a <= tau * den
            <= far * a,
        tau >= 0 && !(lo <= o <= hi) ==> starts_ahead(span_spec(o, d, lo, hi)),
{
    if d == 0 {
        assert(lo <= o <= hi) by (nonlinear_arith)
            requires
                a > 0,
                lo * a <= o * a <= hi * a,
        ;
    } else if d > 0 {
        assert((lo - o) * a <= tau * d <= (hi - o) * a) by (nonlinear_arith)
            requires
                lo * a <= o * a + tau * d <= hi * a,
        ;
        if tau >= 0 && !(lo <= o <= hi) {
            assert(o < lo) by (nonlinear_arith)
                requires
                    tau >= 0,
                    d > 0,
                    a > 0,
                    o * a + tau * d <= hi * a,
                    !(lo <= o <= hi),
            ;
        }
    } else {
        assert((o - hi) * a <= tau * (-d) <= (o - lo) * a) by (nonlinear_arith)
            requires
                lo * a <= o * a + tau * d <= hi * a,
        ;
        if tau >= 0 && !(lo <= o <= hi) {
            assert(o > hi) by (nonlinear_arith)
                requires
                    tau >= 0,
                    d < 0,
                    a > 0,
                    lo * a <= o * a + tau * d,
                    !(lo <= o <= hi),
            ;
        }
    }
}

proof fn lemma_square_expand(o: int, d: int, a: int, tau: int)
    ensures
        (o * a + tau * d) * (o * a + tau * d) == (o * o) * (a * a) + 2 * ((o * d) * (a * tau)) + (d
            * d) * (tau * tau),
{
    let p = o * a;
    let q = tau * d;
    assert((p + q) * (p + q) == p * p + 2 * (p * q) + q * q) by (nonlinear_arith);
    assert(p * p == (o * o) * (a * a)) by (nonlinear_arith)
        requires
            p == o * a,
    ;
    assert(p * q == (o * d) * (a * tau)) by (nonlinear_arith)
        requires
            p == o * a,
            q == tau * d,
    ;
    assert(q * q == (d * d) * (tau * tau)) by (nonlinear_arith)
        requires
            q == tau * d,
    ;
}

/// The point at parameter `tau / a` of a ray through a ball, relative to the
/// center and scaled by `a`, lies within `a * r` of it when `tau` is a root of
/// the quadratic taken with the integer square root of its discriminant.
proof fn lemma_root_point_in_ball(
    ox: int,
    oy: int,
    oz: int,
    dx: int,
    dy: int,
    dz: int,
    r: int,
    tau: int,
    sq: int,
)
    requires
        ({
            let a = dx * dx + dy * dy + dz * dz;
            let hb = ox * dx + oy * dy + oz * dz;
            let c = ox * ox + oy * oy + oz * oz - r * r;
            &&& a > 0
            &&& sq * sq <= hb * hb - a * c
            &&& (tau == -hb - sq || tau == -hb + sq)
        }),
    ensures
        ({
            let a = dx * dx + dy * dy + dz * dz;
            let xx = ox * a + tau * dx;
            let xy = oy * a + tau * dy;
            let xz = oz * a + tau * dz;
            xx * xx + xy * xy + xz * xz <= (a * r) * (a * r)
        }),
{
    let a = dx * dx + dy * dy + dz * dz;
    let hb = ox * dx + oy * dy + oz * dz;
    let oo = ox * ox + oy * oy + oz * oz;
    let c = oo - r * r;
    let disc = hb * hb - a * c;
    let xx = ox * a + tau * dx;
    let xy = oy * a + tau * dy;
    let xz = oz * a + tau * dz;
    lemma_square_expand(ox, dx, a, tau);
    lemma_square_expand(oy, dy, a, tau);
    lemma_square_expand(oz, dz, a, tau);
    let aa = a * a;
    let t = a * tau;
    let u = tau * tau;
    assert(aa * (ox * ox) + aa * (oy * oy) + aa * (oz * oz) == aa * oo) by (nonlinear_arith)
        requires
            oo == ox * ox + oy * oy + oz * oz,
    ;
    assert((ox * dx) * t + (oy * dy) * t + (oz * dz) * t == hb * t) by (nonlinear_arith)
        requires
            hb == ox * dx + oy * dy + oz * dz,
    ;
    assert((dx * dx) * u + (dy * dy) * u + (dz * dz) * u == a * u) by (nonlinear_arith)
        requires
            a == dx * dx + dy * dy + dz * dz,
    ;
    assert((ox * ox) * aa == aa * (ox * ox) && (oy * oy) * aa == aa * (oy * oy) && (oz * oz) * aa
        == aa * (oz * oz)) by (nonlinear_arith);
    let sum = xx * xx + xy * xy + xz * xz;
    assert(sum == aa * oo + 2 * (hb * t) + a * u);
    assert(u + 2 * tau * hb == sq * sq - hb * hb) by (nonlinear_arith)
        requires
            u == tau * tau,
            tau == -hb - sq || tau == -hb + sq,
    ;
    assert(2 * (hb * t) + a * u == a * (u + 2 * tau * hb)) by (nonlinear_arith)
        requires
            t == a * tau,
    ;
    assert(aa * oo + a * (sq * sq - hb * hb) == a * (a * oo + sq * sq - hb * hb))
        by (nonlinear_arith)
        requires
            aa == a * a,
    ;
    assert(a * oo == a * c + a * (r * r)) by (nonlinear_arith)
        requires
            c == oo - r * r,
    ;
    assert(a * oo + sq * sq - hb * hb <= a * (r * r));
    assert(a * (a * oo + sq * sq - hb * hb) <= a * (a * (r * r))) by (nonlinear_arith)
        requires
            a > 0,
            a * oo + sq * sq - hb * hb <= a * (r * r),
    ;
    assert(a * (a * (r * r)) == (a * r) * (a * r)) by (nonlinear_arith);
}

/// Two spans that both hold `tau / a` overlap as the slab test asks.
proof fn lemma_spans_pair(p: Span, q: Span, a: int, tau: int)
    requires
        a > 0,
        p matches Span::Between { near, far, den } ==> den > 0 && near * a <= tau * den <= far
            * a,
        q matches Span::Between { near, far, den } ==> den > 0 && near * a <= tau * den <= far
            * a,
    ensures
        starts_before_end(p, q),
{
    if let (Span::Between { near, den: dp, .. }, Span::Between { far, den: dq, .. }) = (p, q) {
        let n = near as int;
        let f = far as int;
        let x = dp as int;
        let y = dq as int;
        assert(n * y <= f * x) by (nonlinear_arith)
            requires
                a > 0,
                x > 0,
                y > 0,
                n * a <= tau * x,
                tau * y <= f * a,
        ;
    }
}

/// For a window that starts at zero or later, the slab test accepts every box
/// holding a sphere's box whenever the ray hits the sphere: the hit's root,
/// taken exactly, gives a point of the ball that lies on the ray.
pub proof fn lemma_sphere_box_sound(s: Sphere, ray: Ray, acc: Accuracy, b: BBox)
    requires
        s.wf(),
        ray.wf(),
        acc.min >= 0,
        box_covers(b, ball_box(s.center, s.radius as int)),
        sphere_hit(s, ray, acc) is Some,
    ensures
        slab_spec(ray, b),
{
    let (a, hb, c) = quadratic(s.center, s.radius as int, ray);
    let disc = hb * hb - a * c;
    let r = s.radius as int;
    let oc = sub_spec(ray.orig, s.center);
    let d = ray.dir;
    assert(sphere_t(s.center, r, ray, acc) is Some);
    assert(a != 0 && disc >= 0);
    assert(a >= 0) by (nonlinear_arith)
        requires
            a == d.x * d.x + d.y * d.y + d.z * d.z,
    ;
    lemma_isqrt_exists(disc);
    let sq = isqrt_spec(disc);
    let near = (-hb - sq) * SCALE / a;
    let tau = if acc.min <= near <= acc.max {
        -hb - sq
    } else {
        -hb + sq
    };
    assert(tau * SCALE / a >= 0);
    assert(tau >= 0) by {
        if tau < 0 {
            vstd::arithmetic::div_mod::lemma_fundamental_div_mod(tau * SCALE, a);
            assert(a * ((tau * SCALE) / a) <= tau * SCALE);
            assert(a * ((tau * SCALE) / a) >= 0) by (nonlinear_arith)
                requires
                    a > 0,
                    (tau * SCALE) / a >= 0,
            ;
        }
    }
    // The point at parameter tau / a, relative to the center and scaled by a.
    let ox = oc.x as int;
    let oy = oc.y as int;
    let oz = oc.z as int;
    let xx = ox * a + tau * d.x;
    let xy = oy * a + tau * d.y;
    let xz = oz * a + tau * d.z;
    lemma_root_point_in_ball(ox, oy, oz, d.x as int, d.y as int, d.z as int, r, tau, sq);
    assert(-(a * r) <= xx <= a * r && -(a * r) <= xy <= a * r && -(a * r) <= xz <= a * r)
        by (nonlinear_arith)
        requires
            xx * xx + xy * xy + xz * xz <= (a * r) * (a * r),
            a * r >= 0,
    ;
    let o = ray.orig;
    let cc = s.center;
    assert(b.min.x * a <= o.x * a + tau * d.x <= b.max.x * a) by (nonlinear_arith)
        requires
            xx == (o.x - cc.x) * a + tau * d.x,
            -(a * r) <= xx <= a * r,
            b.min.x <= cc.x - r,
            cc.x + r <= b.max.x,
            a > 0,
    ;
    assert(b.min.y * a <= o.y * a + tau * d.y <= b.max.y * a) by (nonlinear_arith)
        requires
            xy == (o.y - cc.y) * a + tau * d.y,
            -(a * r) <= xy <= a * r,
            b.min.y <= cc.y - r,
            cc.y + r <= b.max.y,
            a > 0,
    ;
    assert(b.min.z * a <= o.z * a + tau * d.z <= b.max.z * a) by (nonlinear_arith)
        requires
            xz == (o.z - cc.z) * a + tau * d.z,
            -(a * r) <= xz <= a * r,
            b.min.z <= cc.z - r,
            cc.z + r <= b.max.z,
            a > 0,
    ;
    lemma_axis_span(o.x as int, d.x as int, b.min.x as int, b.max.x as int, a, tau);
    lemma_axis_span(o.y as int, d.y as int, b.min.y as int, b.max.y as int, a, tau);
    lemma_axis_span(o.z as int, d.z as int, b.min.z as int, b.max.z as int, a, tau);
    let sx = span_spec(o.x as int, d.x as int, b.min.x as int, b.max.x as int);
    let sy = span_spec(o.y as int, d.y as int, b.min.y as int, b.max.y as int);
    let sz = span_spec(o.z as int, d.z as int, b.min.z as int, b.max.z as int);
    lemma_spans_pair(sx, sx, a, tau);
    lemma_spans_pair(sx, sy, a, tau);
    lemma_spans_pair(sx, sz, a, tau);
    lemma_spans_pair(sy, sx, a, tau);
    lemma_spans_pair(sy, sy, a, tau);
    lemma_spans_pair(sy, sz, a, tau);
    lemma_spans_pair(sz, sx, a, tau);
    lemma_spans_pair(sz, sy, a, tau);
    lemma_spans_pair(sz, sz, a, tau);
}

/// Within a scene, the slab test accepts every box around a hit primitive, for
/// windows starting at zero or later.
proof fn lemma_scene_boxes_sound(objs: Seq<SceneObject>, ray: Ray, acc: Accuracy)
    requires
        forall|i: int| 0 <= i < objs.len() ==> #[trigger] objs[i].wf(),
        ray.wf(),
        acc.min >= 0,
    ensures
        boxes_sound(objs, ray, acc),
{
    assert forall|i: int, b: BBox|
        0 <= i < objs.len() && #[trigger] box_covers(b, object_box(objs[i])) && object_hit(
            objs[i],
            ray,
            acc,
        ) is Some implies slab_spec(ray, b) by {
        match objs[i] {
            SceneObject::Sphere(s) => {
                assert(objs[i].wf());
                lemma_sphere_box_sound(s, ray, acc, b);
            },
        }
    }
}

/// On one axis, the computed hit coordinate lies within one tick more than the
/// radius of the center: `oc` is the origin's offset from the center, `d` the
/// direction's coordinate, `t` the hit parameter rounded down from `tau / a`,
/// `q` the step `d * t` rounded down, and `oc * a + tau * d` is known to lie
/// within `a * r`.
proof fn lemma_axis_near(oc: int, d: int, a: int, tau: int, t: int, q: int, r: int)
    requires
        a > 0,
        r >= 0,
        -SCALE <= d <= SCALE,
        t == tau * SCALE / a,
        q == d * t / SCALE as int,
        -(a * r) <= oc * a + tau * d <= a * r,
    ensures
        -r - 1 <= oc + q <= r,
{
    let s = SCALE as int;
    vstd::arithmetic::div_mod::lemma_fundamental_div_mod(tau * s, a);
    vstd::arithmetic::div_mod::lemma_fundamental_div_mod(d * t, s);
    let e1 = tau * s - a * t;
    let e2 = d * t - s * q;
    assert(0 <= e1 < a);
    assert(0 <= e2 < s);
    assert((s * q) * a == (d * t) * a - e2 * a) by (nonlinear_arith)
        requires
            s * q == d * t - e2,
    ;
    assert(d * (a * t) == d * (tau * s) - d * e1) by (nonlinear_arith)
        requires
            a * t == tau * s - e1,
    ;
    assert((d * t) * a == d * (a * t)) by (nonlinear_arith);
    assert(q * a * s == (s * q) * a) by (nonlinear_arith);
    assert(d * (tau * s) == d * tau * s) by (nonlinear_arith);
    assert(q * a * s == d * tau * s - d * e1 - e2 * a);
    let w = d * e1 + e2 * a;
    assert(-(s * a) < w < 2 * (s * a)) by (nonlinear_arith)
        requires
            w == d * e1 + e2 * a,
            -s <= d <= s,
            0 <= e1 < a,
            0 <= e2 < s,
            a > 0,
            s > 0,
    ;
    let g = q * a - d * tau;
    assert(g * s == -w) by (nonlinear_arith)
        requires
            q * a * s == d * tau * s - d * e1 - e2 * a,
            g == q * a - d * tau,
            w == d * e1 + e2 * a,
    ;
    assert(-2 * a < g < a) by (nonlinear_arith)
        requires
            g * s == -w,
            -(s * a) < w < 2 * (s * a),
            s > 0,
    ;
    assert((oc + q) * a == (oc * a + tau * d) + g) by (nonlinear_arith)
        requires
            g == q * a - d * tau,
    ;
    assert(-r - 1 <= oc + q <= r) by (nonlinear_arith)
        requires
            -(a * r) - 2 * a < (oc + q) * a < a * r + a,
            a > 0,
    ;
}

/// A hit on a sphere lies within one tick more than the radius of the center on
/// every axis: the root, taken exactly, is a point of the ball, and rounding the
/// parameter and the step moves it by at most a tick.
pub proof fn lemma_hit_point_near(s: Sphere, ray: Ray, acc: Accuracy)
    requires
        in_range(s.center),
        0 < s.radius <= LIMIT,
        ray.wf(),
    ensures
        sphere_hit(s, ray, acc) matches Some(h) ==> bounded_by(
            sub_spec(h.point, s.center),
            s.radius + 1,
        ),
{
    if sphere_hit(s, ray, acc) is Some {
        let (a, hb, c) = quadratic(s.center, s.radius as int, ray);
        let disc = hb * hb - a * c;
        let r = s.radius as int;
        let oc = sub_spec(ray.orig, s.center);
        let d = ray.dir;
        assert(sphere_t(s.center, r, ray, acc) is Some);
        assert(a != 0 && disc >= 0);
        assert(a >= 0) by (nonlinear_arith)
            requires
                a == d.x * d.x + d.y * d.y + d.z * d.z,
        ;
        lemma_isqrt_exists(disc);
        let sq = isqrt_spec(disc);
        let near = (-hb - sq) * SCALE / a;
        let tau = if acc.min <= near <= acc.max {
            -hb - sq
        } else {
            -hb + sq
        };
        let t = tau * SCALE / a;
        assert(sphere_t(s.center, r, ray, acc) == Some(t));
        let ox = oc.x as int;
        let oy = oc.y as int;
        let oz = oc.z as int;
        let xx = ox * a + tau * d.x;
        let xy = oy * a + tau * d.y;
        let xz = oz * a + tau * d.z;
        lemma_root_point_in_ball(ox, oy, oz, d.x as int, d.y as int, d.z as int, r, tau, sq);
        assert(-(a * r) <= xx <= a * r && -(a * r) <= xy <= a * r && -(a * r) <= xz <= a * r)
            by (nonlinear_arith)
            requires
                xx * xx + xy * xy + xz * xz <= (a * r) * (a * r),
                a * r >= 0,
        ;
        lemma_axis_near(ox, d.x as int, a, tau, t, d.x * t / SCALE as int, r);
        lemma_axis_near(oy, d.y as int, a, tau, t, d.y * t / SCALE as int, r);
        lemma_axis_near(oz, d.z as int, a, tau, t, d.z * t / SCALE as int, r);
    }
}

/// The point at ray parameter `p / q` (with `q > 0`) lies farther than the radius
/// from the center: with `oc` the origin's offset from the center, the offset
/// of that point, scaled by `q`, is `oc * q + p * dir`.
pub open spec fn farther_than_radius(s: Sphere, ray: Ray, p: int, q: int) -> bool {
    let oc = sub_spec(ray.orig, s.center);
    let x = oc.x * q + p * ray.dir.x;
    let y = oc.y * q + p * ray.dir.y;
    let z = oc.z * q + p * ray.dir.z;
    x * x + y * y + z * z > (s.radius * q) * (s.radius * q)
}

/// A ray whose every point at a parameter of zero or more lies farther from the
/// center than the radius meets nothing, for a window starting at zero or later.
pub proof fn lemma_far_half_line_misses(s: Sphere, ray: Ray, acc: Accuracy)
    requires
        in_range(s.center),
        0 < s.radius <= LIMIT,
        ray.wf(),
        acc.min >= 0,
        forall|p: int, q: int| p >= 0 && q > 0 ==> #[trigger] farther_than_radius(s, ray, p, q),
    ensures
        sphere_hit(s, ray, acc) is None,
{
    if sphere_hit(s, ray, acc) is Some {
        let (a, hb, c) = quadratic(s.center, s.radius as int, ray);
        let disc = hb * hb - a * c;
        let r = s.radius as int;
        let oc = sub_spec(ray.orig, s.center);
        let d = ray.dir;
        assert(sphere_t(s.center, r, ray, acc) is Some);
        assert(a != 0 && disc >= 0);
        assert(a >= 0) by (nonlinear_arith)
            requires
                a == d.x * d.x + d.y * d.y + d.z * d.z,
        ;
        lemma_isqrt_exists(disc);
        let sq = isqrt_spec(disc);
        let near = (-hb - sq) * SCALE / a;
        let tau = if acc.min <= near <= acc.max {
            -hb - sq
        } else {
            -hb + sq
        };
        assert(tau * SCALE / a >= 0);
        assert(tau >= 0) by {
            if tau < 0 {
                vstd::arithmetic::div_mod::lemma_fundamental_div_mod(tau * SCALE, a);
                assert(a * ((tau * SCALE) / a) <= tau * SCALE);
                assert(a * ((tau * SCALE) / a) >= 0) by (nonlinear_arith)
                    requires
                        a > 0,
                        (tau * SCALE) / a >= 0,
                ;
            }
        }
        lemma_root_point_in_ball(
            oc.x as int,
            oc.y as int,
            oc.z as int,
            d.x as int,
            d.y as int,
            d.z as int,
            r,
            tau,
            sq,
        );
        assert(farther_than_radius(s, ray, tau, a));
        assert((r * a) * (r * a) == (a * r) * (a * r)) by (nonlinear_arith);
    }
}

} // verus!
