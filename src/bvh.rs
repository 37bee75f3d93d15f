use crate::object::{HittableObjectIndex, HittableObjectType};
use crate::rng::random_below;
use vstd::prelude::*;

verus! {

/// An object to place in the hierarchy, with the order keys of the minimum
/// corner of its bounding box on the x, y and z axes: a smaller key stands
/// for a smaller coordinate.
#[derive(Copy, Clone, Debug)]
pub struct BvhEntry {
    pub object: HittableObjectIndex,
    pub key_x: u64,
    pub key_y: u64,
    pub key_z: u64,
}

impl BvhEntry {
    pub open spec fn key_on(&self, axis: int) -> u64 {
        if axis == 0 {
            self.key_x
        } else if axis == 1 {
            self.key_y
        } else {
            self.key_z
        }
    }

    pub fn new(object: HittableObjectIndex, key_x: u64, key_y: u64, key_z: u64) -> (r: Self)
        ensures
            r == (BvhEntry { object, key_x, key_y, key_z }),
    {
        BvhEntry { object, key_x, key_y, key_z }
    }

    /// The order key on axis 0 (x), 1 (y) or 2 (z).
    pub fn key(&self, axis: usize) -> (r: u64)
        ensures
            r == self.key_on(axis as int),
    {
        if axis == 0 {
            self.key_x
        } else if axis == 1 {
            self.key_y
        } else {
            self.key_z
        }
    }
}

/// An inner node of the hierarchy: two children, each a primitive or a node.
#[derive(Copy, Clone, Debug)]
pub struct BvhNode {
    pub left: HittableObjectIndex,
    pub right: HittableObjectIndex,
}

impl BvhNode {
    pub fn new(left: HittableObjectIndex, right: HittableObjectIndex) -> (r: Self)
        ensures
            r.left == left,
            r.right == right,
    {
        BvhNode { left, right }
    }

    pub fn left(&self) -> (r: HittableObjectIndex)
        ensures
            r == self.left,
    {
        self.left
    }

    pub fn right(&self) -> (r: HittableObjectIndex)
        ensures
            r == self.right,
    {
        self.right
    }
}

pub open spec fn is_node_ref(r: HittableObjectIndex) -> bool {
    r.kind == HittableObjectType::BvhNode
}

/// A child of node `k` is a primitive, or a node stored before `k`.
pub open spec fn child_ok(c: HittableObjectIndex, k: int) -> bool {
    !is_node_ref(c) || c.index < k
}

/// Node arrays in which every node's children come earlier: the references
/// form no cycle, and one pass in index order meets children before parents.
pub open spec fn nodes_wf(nodes: Seq<BvhNode>) -> bool {
    forall|k: int|
        0 <= k < nodes.len() ==> child_ok(#[trigger] nodes[k].left, k) && child_ok(nodes[k].right, k)
}

/// The primitives reached from `r`, left subtree before right subtree.
pub open spec fn leaves(nodes: Seq<BvhNode>, r: HittableObjectIndex) -> Seq<HittableObjectIndex>
    decreases r.index,
{
    if !is_node_ref(r) {
        seq![r]
    } else if r.index >= nodes.len() {
        Seq::empty()
    } else {
        let n = nodes[r.index as int];
        let l = if !is_node_ref(n.left) {
            seq![n.left]
        } else if n.left.index < r.index {
            leaves(nodes, n.left)
        } else {
            Seq::empty()
        };
        let rr = if !is_node_ref(n.right) {
            seq![n.right]
        } else if n.right.index < r.index {
            leaves(nodes, n.right)
        } else {
            Seq::empty()
        };
        l + rr
    }
}

/// The objects of a list of entries, in order.
pub open spec fn objects(s: Seq<BvhEntry>) -> Seq<HittableObjectIndex> {
    s.map_values(|e: BvhEntry| e.object)
}

/// Every entry names a primitive, not a node.
pub open spec fn primitives_only(s: Seq<BvhEntry>) -> bool {
    forall|k: int| 0 <= k < s.len() ==> !is_node_ref(#[trigger] s[k].object)
}

/// Entries in ascending order of their key on `axis`.
pub open spec fn sorted_on(s: Seq<BvhEntry>, axis: int) -> bool {
    forall|a: int, b: int| 0 <= a < b < s.len() ==> #[trigger] s[a].key_on(axis) <= #[trigger] s[b].key_on(axis)
}

/// Growing a node array at its end leaves what each old reference reaches.
proof fn lemma_leaves_prefix(a: Seq<BvhNode>, b: Seq<BvhNode>, r: HittableObjectIndex)
    requires
        a.len() <= b.len(),
        b.subrange(0, a.len() as int) == a,
        child_ok(r, a.len() as int),
    ensures
        leaves(b, r) == leaves(a, r),
    decreases r.index,
{
    if is_node_ref(r) {
        assert(b[r.index as int] == a[r.index as int]);
        let n = a[r.index as int];
        if is_node_ref(n.left) && n.left.index < r.index {
            lemma_leaves_prefix(a, b, n.left);
        }
        if is_node_ref(n.right) && n.right.index < r.index {
            lemma_leaves_prefix(a, b, n.right);
        }
    }
}

/// Sorts entries by their key on `axis`, by insertion: each entry goes after
/// those already placed whose key is not larger.
pub fn sort_on_axis(items: Vec<BvhEntry>, axis: usize) -> (r: Vec<BvhEntry>)
    requires
        axis < 3,
    ensures
        r@.len() == items@.len(),
        r@.to_multiset() == items@.to_multiset(),
        sorted_on(r@, axis as int),
{
    let mut out: Vec<BvhEntry> = Vec::new();
    let mut i: usize = 0;
    assert(out@ =~= items@.subrange(0, 0));
    while i < items.len()
        invariant
            i <= items@.len(),
            out@.to_multiset() == items@.subrange(0, i as int).to_multiset(),
            sorted_on(out@, axis as int),
        decreases items@.len() - i,
    {
        let e = items[i];
        let k = e.key(axis);
        let mut pos: usize = 0;
        while pos < out.len() && out[pos].key(axis) <= k
            invariant
                pos <= out@.len(),
                forall|a: int| 0 <= a < pos ==> #[trigger] out@[a].key_on(axis as int) <= k,
            decreases out@.len() - pos,
        {
            pos = pos + 1;
        }
        let ghost before = out@;
        out.insert(pos, e);
        assert(sorted_on(out@, axis as int)) by {
            assert forall|a: int, b: int| 0 <= a < b < out@.len() implies
                #[trigger] out@[a].key_on(axis as int) <= #[trigger] out@[b].key_on(axis as int) by {
                if b < pos {
                } else if b == pos {
                } else if a < pos {
                    assert(before[a].key_on(axis as int) <= before[b - 1].key_on(axis as int));
                } else if a == pos {
                    assert(before[pos as int].key_on(axis as int) > k);
                    assert(before[pos as int].key_on(axis as int) <= before[b - 1].key_on(axis as int));
                } else {
                    assert(before[a - 1].key_on(axis as int) <= before[b - 1].key_on(axis as int));
                }
            }
        }
        assert(items@.subrange(0, i + 1) == items@.subrange(0, i as int).push(e));
        proof {
            vstd::seq_lib::to_multiset_insert(before, pos as int, e);
            vstd::seq_lib::to_multiset_build(items@.subrange(0, i as int), e);
        }
        i = i + 1;
    }
    assert(items@.subrange(0, items@.len() as int) == items@);
    proof {
        vstd::seq_lib::to_multiset_len(out@);
        vstd::seq_lib::to_multiset_len(items@);
    }
    out
}

/// In a well-formed node array, every reference that points into it reaches
/// at least one primitive, and nothing but primitives.
pub proof fn lemma_leaves_are_primitives(nodes: Seq<BvhNode>, r: HittableObjectIndex)
    requires
        nodes_wf(nodes),
        child_ok(r, nodes.len() as int),
    ensures
        leaves(nodes, r).len() >= 1,
        forall|k: int| 0 <= k < leaves(nodes, r).len() ==> !is_node_ref(#[trigger] leaves(nodes, r)[k]),
    decreases r.index,
{
    if is_node_ref(r) {
        let n = nodes[r.index as int];
        assert(child_ok(n.left, r.index as int) && child_ok(n.right, r.index as int));
        if is_node_ref(n.left) {
            lemma_leaves_are_primitives(nodes, n.left);
        }
        if is_node_ref(n.right) {
            lemma_leaves_are_primitives(nodes, n.right);
        }
        let l = leaves(nodes, n.left);
        let rr = leaves(nodes, n.right);
        assert(leaves(nodes, r) == l + rr);
        assert forall|k: int| 0 <= k < (l + rr).len() implies !is_node_ref(#[trigger] (l + rr)[k]) by {
            if k < l.len() {
                assert((l + rr)[k] == l[k]);
            } else {
                assert((l + rr)[k] == rr[k - l.len()]);
            }
        }
    }
}

/// How many of node `n`'s two child slots refer to node `k`.
pub open spec fn slot_refs(n: BvhNode, k: int) -> int {
    (if is_node_ref(n.left) && n.left.index == k { 1int } else { 0int }) + (if is_node_ref(n.right)
        && n.right.index == k {
        1int
    } else {
        0int
    })
}

/// How many child slots of the nodes `lo..hi` refer to node `k`.
pub open spec fn parent_count(nodes: Seq<BvhNode>, lo: int, hi: int, k: int) -> int
    decreases hi - lo,
{
    if hi <= lo {
        0
    } else {
        parent_count(nodes, lo, hi - 1, k) + slot_refs(nodes[hi - 1], k)
    }
}

/// Counting over `lo..hi` is counting over `lo..m` and then `m..hi`.
proof fn lemma_parent_count_split(nodes: Seq<BvhNode>, lo: int, m: int, hi: int, k: int)
    requires
        lo <= m <= hi,
    ensures
        parent_count(nodes, lo, hi, k) == parent_count(nodes, lo, m, k) + parent_count(nodes, m, hi, k),
    decreases hi - m,
{
    if hi > m {
        lemma_parent_count_split(nodes, lo, m, hi - 1, k);
    }
}

/// The count over `lo..hi` depends on those nodes alone.
proof fn lemma_parent_count_same(a: Seq<BvhNode>, b: Seq<BvhNode>, lo: int, hi: int, k: int)
    requires
        0 <= lo,
        hi <= a.len(),
        hi <= b.len(),
        forall|i: int| lo <= i < hi ==> a[i] == b[i],
    ensures
        parent_count(a, lo, hi, k) == parent_count(b, lo, hi, k),
    decreases hi - lo,
{
    if hi > lo {
        lemma_parent_count_same(a, b, lo, hi - 1, k);
    }
}

/// Each object of `a` is an object of `b` when `b` holds the entries of `a`.
proof fn lemma_objects_included(a: Seq<BvhEntry>, b: Seq<BvhEntry>)
    requires
        a.to_multiset() == b.to_multiset(),
    ensures
        forall|x: HittableObjectIndex| objects(a).contains(x) ==> objects(b).contains(x),
{
    broadcast use vstd::seq_lib::to_multiset_contains;

    assert forall|x: HittableObjectIndex| objects(a).contains(x) implies objects(b).contains(x) by {
        let k = choose|k: int| 0 <= k < objects(a).len() && objects(a)[k] == x;
        let e = a[k];
        assert(a.contains(e));
        assert(a.to_multiset().count(e) > 0);
        assert(b.contains(e));
        let j = choose|j: int| 0 <= j < b.len() && b[j] == e;
        assert(objects(b)[j] == x);
    }
}

/// Rearranging entries keeps the set of their objects.
proof fn lemma_objects_same_set(a: Seq<BvhEntry>, b: Seq<BvhEntry>)
    requires
        a.to_multiset() == b.to_multiset(),
    ensures
        objects(a).to_set() == objects(b).to_set(),
{
    lemma_objects_included(a, b);
    lemma_objects_included(b, a);
    assert(objects(a).to_set() =~= objects(b).to_set());
}

/// Node `r`'s two subtrees reach the objects of the lower and of the upper
/// half of `items` ordered on some axis.
pub open spec fn splits_at_middle(nodes: Seq<BvhNode>, r: HittableObjectIndex, items: Seq<BvhEntry>) -> bool {
    exists|axis: int, lo: Seq<BvhEntry>, hi: Seq<BvhEntry>|
        #![trigger sorted_on(lo + hi, axis)]
        0 <= axis < 3 && sorted_on(lo + hi, axis) && (lo + hi).to_multiset() == items.to_multiset() && lo.len()
            == items.len() / 2 && leaves(nodes, nodes[r.index as int].left).to_set() == objects(lo).to_set()
            && leaves(nodes, nodes[r.index as int].right).to_set() == objects(hi).to_set()
}

/// Builds the subtree over `items` (at least one), appending its nodes to
/// `nodes`, and returns its root, the last node appended. One entry becomes
/// a node with that entry on both sides; two become the two children; more
/// are sorted on a randomly drawn axis and split at the middle.
fn build_node(
    items: Vec<BvhEntry>,
    nodes: &mut Vec<BvhNode>,
    rng: &mut rand_xoshiro::Xoshiro256Plus,
) -> (r: HittableObjectIndex)
    requires
        items@.len() >= 1,
        primitives_only(items@),
        nodes_wf(old(nodes)@),
    ensures
        nodes_wf(final(nodes)@),
        final(nodes)@.len() > old(nodes)@.len(),
        final(nodes)@.len() - old(nodes)@.len() <= 2 * items@.len() - 1,
        final(nodes)@.subrange(0, old(nodes)@.len() as int) == old(nodes)@,
        is_node_ref(r),
        r.index == final(nodes)@.len() - 1,
        leaves(final(nodes)@, r).to_set() == objects(items@).to_set(),
        items@.len() == 1 ==> leaves(final(nodes)@, r) == seq![items@[0].object, items@[0].object],
        items@.len() == 2 ==> leaves(final(nodes)@, r) == seq![items@[0].object, items@[1].object],
        items@.len() >= 3 ==> splits_at_middle(final(nodes)@, r, items@),
        forall|k: int|
            #![trigger parent_count(final(nodes)@, old(nodes)@.len() as int, final(nodes)@.len() as int, k)]
            parent_count(final(nodes)@, old(nodes)@.len() as int, final(nodes)@.len() as int, k) == if old(
                nodes,
            )@.len() <= k < final(nodes)@.len() - 1 {
                1int
            } else {
                0int
            },
    decreases items@.len(),
{
    let n = items.len();
    let ghost n0 = nodes@;
    let left: HittableObjectIndex;
    let right: HittableObjectIndex;
    let ghost mut axis_drawn: int = 0;
    let ghost mut lower_half: Seq<BvhEntry> = Seq::empty();
    let ghost mut upper_half: Seq<BvhEntry> = Seq::empty();
    if n == 1 {
        left = items[0].object;
        right = items[0].object;
    } else if n == 2 {
        left = items[0].object;
        right = items[1].object;
    } else {
        let axis = random_below(rng, 3);
        let mut lower = sort_on_axis(items, axis);
        let ghost sorted = lower@;
        let upper = lower.split_off(n / 2);
        assert(sorted =~= lower@ + upper@);
        assert(primitives_only(sorted)) by {
            broadcast use vstd::seq_lib::to_multiset_contains;
            assert forall|k: int| 0 <= k < sorted.len() implies !is_node_ref(#[trigger] sorted[k].object) by {
                let e = sorted[k];
                assert(sorted.contains(e));
                assert(sorted.to_multiset().count(e) > 0);
                assert(items@.to_multiset().count(e) > 0);
                assert(items@.contains(e));
                let j = choose|j: int| 0 <= j < items@.len() && items@[j] == e;
                assert(!is_node_ref(items@[j].object));
            }
        }
        left = build_node(lower, nodes, rng);
        let ghost n1 = nodes@;
        right = build_node(upper, nodes, rng);
        let ghost n2 = nodes@;
        proof {
            assert forall|k: int| #![auto]
                parent_count(n2, n0.len() as int, n2.len() as int, k) == if n0.len() <= k < n2.len() - 1 && k != n1.len() - 1 {
                    1int
                } else {
                    0int
                } by {
                lemma_parent_count_split(n2, n0.len() as int, n1.len() as int, n2.len() as int, k);
                assert forall|i: int| n0.len() <= i < n1.len() implies n2[i] == n1[i] by {
                    assert(n2.subrange(0, n1.len() as int)[i] == n1[i]);
                }
                lemma_parent_count_same(n1, n2, n0.len() as int, n1.len() as int, k);
            }
            lemma_leaves_prefix(n1, n2, left);
            assert(n2.subrange(0, n0.len() as int) =~= n0);
            lemma_objects_same_set(sorted, items@);
            assert(objects(sorted) =~= objects(lower@) + objects(upper@));
            vstd::seq_lib::seq_to_set_distributes_over_add(objects(lower@), objects(upper@));
            vstd::seq_lib::seq_to_set_distributes_over_add(leaves(n2, left), leaves(n2, right));
            assert(leaves(n2, left).to_set() == objects(lower@).to_set());
            assert(leaves(n2, right).to_set() == objects(upper@).to_set());
            axis_drawn = axis as int;
            lower_half = lower@;
            upper_half = upper@;
        }
    }
    let ghost n2 = nodes@;
    nodes.push(BvhNode { left, right });
    let r = HittableObjectIndex { kind: HittableObjectType::BvhNode, index: nodes.len() - 1 };
    proof {
        assert(nodes@.subrange(0, n2.len() as int) =~= n2);
        assert forall|k: int| #![auto]
            parent_count(nodes@, n0.len() as int, nodes@.len() as int, k) == if n0.len() <= k < nodes@.len() - 1 {
                1int
            } else {
                0int
            } by {
            assert forall|i: int| n0.len() <= i < n2.len() implies nodes@[i] == n2[i] by {
                assert(nodes@.subrange(0, n2.len() as int)[i] == n2[i]);
            }
            lemma_parent_count_same(n2, nodes@, n0.len() as int, n2.len() as int, k);
            if n <= 2 {
                assert(n2.len() == n0.len());
            }
        }
        assert(nodes@.subrange(0, n0.len() as int) =~= n0);
        lemma_leaves_prefix(n2, nodes@, left);
        lemma_leaves_prefix(n2, nodes@, right);
        assert(leaves(nodes@, r) == leaves(n2, left) + leaves(n2, right));
        if n >= 3 {
            assert(nodes@[r.index as int] == BvhNode { left, right });
            assert(sorted_on(lower_half + upper_half, axis_drawn));
            assert((lower_half + upper_half).to_multiset() == items@.to_multiset());
            assert(lower_half.len() == items@.len() / 2);
            assert(leaves(nodes@, left).to_set() == objects(lower_half).to_set());
            assert(leaves(nodes@, right).to_set() == objects(upper_half).to_set());
        }
        if n == 1 {
            assert(leaves(nodes@, r) =~= seq![items@[0].object, items@[0].object]);
            assert(objects(items@) =~= seq![items@[0].object]);
            assert(leaves(nodes@, r).to_set() =~= objects(items@).to_set());
        } else if n == 2 {
            assert(leaves(nodes@, r) =~= seq![items@[0].object, items@[1].object]);
            assert(objects(items@) =~= seq![items@[0].object, items@[1].object]);
        }
    }
    r
}

/// A bounding volume hierarchy over primitives: a flat array of nodes, whose
/// children come before their parents, and the root, the last node. Every
/// node but the root is the child of exactly one node; the root of none.
pub struct Bvh {
    pub nodes: Vec<BvhNode>,
    pub root: HittableObjectIndex,
}

impl Bvh {
    pub open spec fn wf(&self) -> bool {
        &&& nodes_wf(self.nodes@)
        &&& is_node_ref(self.root)
        &&& self.root.index == self.nodes@.len() - 1
        &&& forall|k: int|
            0 <= k < self.nodes@.len() ==> #[trigger] parent_count(self.nodes@, 0, self.nodes@.len() as int, k)
                == if k < self.nodes@.len() - 1 {
                1int
            } else {
                0int
            }
    }

    /// The primitives that the hierarchy reaches from its root.
    pub open spec fn leaf_objects(&self) -> Seq<HittableObjectIndex> {
        leaves(self.nodes@, self.root)
    }

    /// Builds the hierarchy over `items`; `None` when there is none. Every
    /// primitive given is reached from the root, and nothing else is. Over
    /// three or more entries, the root's subtrees take the lower and the upper
    /// half of the entries ordered on a randomly drawn axis.
    pub fn build(items: Vec<BvhEntry>, rng: &mut rand_xoshiro::Xoshiro256Plus) -> (r: Option<Bvh>)
        requires
            primitives_only(items@),
        ensures
            r is None <==> items@.len() == 0,
            r matches Some(b) ==> b.wf() && b.leaf_objects().to_set() == objects(items@).to_set(),
            r matches Some(b) ==> (items@.len() >= 3 ==> splits_at_middle(b.nodes@, b.root, items@)),
            r matches Some(b) ==> b.nodes@.len() <= 2 * items@.len() - 1,
    {
        if items.len() == 0 {
            return None;
        }
        let mut nodes: Vec<BvhNode> = Vec::new();
        let root = build_node(items, &mut nodes, rng);
        Some(Bvh { nodes, root })
    }

    pub fn root(&self) -> (r: HittableObjectIndex)
        ensures
            r == self.root,
    {
        self.root
    }

    pub fn len(&self) -> (r: usize)
        ensures
            r == self.nodes@.len(),
    {
        self.nodes.len()
    }

    pub fn node(&self, index: usize) -> (r: BvhNode)
        requires
            index < self.nodes@.len(),
        ensures
            r == self.nodes@[index as int],
    {
        self.nodes[index]
    }
}

} // verus!
