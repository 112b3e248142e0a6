//! The scene hierarchy: an arena of nodes per tree, one forest per scene.
//!
//! Each tree stores its nodes in depth-first pre-order together with a
//! parent link per node; node 0 is the root. Trees are built by recursive
//! descent over a plain description of the imported asset, and the builder's
//! contract pins down exactly where every described node lands.

use vstd::prelude::*;

verus! {

use crate::fixed::ENTRY_LIMIT;
use crate::mat4::{mat_identity, mat_mul, mat_wf, Mat4};
use crate::transform::{override_matrix, transform_wf, Transform};

/// One draw range of a mesh.
#[derive(Clone, Copy, Debug, PartialEq, Eq)]
pub struct Primitive {
    pub number_of_indices: u32,
    pub first_index: u32,
    pub material_index: Option<usize>,
}

/// Renderable geometry attached to a node. `mesh_id` is the dense key the
/// renderer uses to address this mesh's slice of the per-instance uniform
/// store; it is assigned after all trees are built.
#[derive(Clone, Debug, PartialEq, Eq)]
pub struct Mesh {
    pub primitives: Vec<Primitive>,
    pub mesh_id: usize,
    pub weights: Vec<i64>,
}

/// One placement in the scene hierarchy.
pub struct Node {
    pub animation_transform: Transform,
    pub local_transform: Mat4,
    pub mesh: Option<Mesh>,
    pub index: usize,
}

/// A rooted tree of nodes in depth-first pre-order; `parent[i]` is the
/// arena position of node `i`'s parent, `None` exactly for the root at 0.
pub struct NodeGraph {
    pub nodes: Vec<Node>,
    pub parent: Vec<Option<usize>>,
}

/// One scene of the asset: a forest with one tree per top-level node.
pub struct Scene {
    pub node_graphs: Vec<NodeGraph>,
}

/// Plain description of one node of the imported asset.
pub struct NodeDesc {
    pub index: usize,
    pub local_transform: Vec<i64>,
    pub mesh: Option<Mesh>,
    pub children: Vec<NodeDesc>,
}

/// A node's matrices and override are within bounds.
pub open spec fn node_wf(n: Node) -> bool {
    &&& n.local_transform.wf()
    &&& transform_wf(n.animation_transform)
}

/// Structural well-formedness of a tree arena: matching lengths, well-formed
/// nodes, and parent links that always point strictly backwards, with the
/// root (and only the root) at position 0.
pub open spec fn graph_core_wf(g: NodeGraph) -> bool {
    &&& g.parent@.len() == g.nodes@.len()
    &&& forall|i: int| 0 <= i < g.nodes@.len() ==> node_wf(#[trigger] g.nodes@[i])
    &&& forall|i: int|
        0 <= i < g.parent@.len() ==> match #[trigger] g.parent@[i] {
            Some(p) => 0 <= p < i,
            None => i == 0,
        }
}

/// A well-formed tree: structurally sound and non-empty.
pub open spec fn graph_wf(g: NodeGraph) -> bool {
    &&& graph_core_wf(g)
    &&& g.nodes@.len() >= 1
}

/// Well-formedness of a node description: sixteen bounded matrix entries,
/// recursively for all children.
pub open spec fn desc_wf(d: NodeDesc) -> bool
    decreases d,
{
    &&& d.local_transform@.len() == 16
    &&& (forall|i: int|
        0 <= i < 16 ==> -ENTRY_LIMIT <= #[trigger] d.local_transform@[i] <= ENTRY_LIMIT)
    &&& (forall|i: int| 0 <= i < d.children@.len() ==> desc_wf(#[trigger] d.children@[i]))
}

/// Number of nodes described by `d`, itself included.
pub open spec fn size_of(d: NodeDesc) -> nat
    decreases d,
{
    1 + size_seq(d.children@)
}

/// Total number of nodes described by a sequence of descriptions.
pub open spec fn size_seq(s: Seq<NodeDesc>) -> nat
    decreases s,
{
    if s.len() == 0 {
        0
    } else {
        size_of(s[0]) + size_seq(s.drop_first())
    }
}

/// Two optional meshes carry the same geometry, the dense id aside.
pub open spec fn mesh_matches(a: Option<Mesh>, b: Option<Mesh>) -> bool {
    match (a, b) {
        (Option::None, Option::None) => true,
        (Option::Some(x), Option::Some(y)) => x.primitives == y.primitives && x.weights
            == y.weights,
        _ => false,
    }
}

/// The description `d` was laid out in the arena starting at position `at`,
/// with parent link `par`, its children following in pre-order.
pub open spec fn placed(
    nodes: Seq<Node>,
    parent: Seq<Option<usize>>,
    d: NodeDesc,
    at: int,
    par: Option<usize>,
) -> bool
    decreases d,
{
    &&& 0 <= at < nodes.len()
    &&& nodes[at].index == d.index
    &&& nodes[at].local_transform@ == d.local_transform@.map_values(|v: i64| v as int)
    &&& nodes[at].animation_transform.translation is None
    &&& nodes[at].animation_transform.rotation is None
    &&& nodes[at].animation_transform.scale is None
    &&& mesh_matches(nodes[at].mesh, d.mesh)
    &&& parent[at] == par
    &&& placed_seq(nodes, parent, d.children@, at + 1, at as usize)
}

/// The descriptions `s` were laid out consecutively starting at `at`, all
/// with parent `par`.
pub open spec fn placed_seq(
    nodes: Seq<Node>,
    parent: Seq<Option<usize>>,
    s: Seq<NodeDesc>,
    at: int,
    par: usize,
) -> bool
    decreases s,
{
    if s.len() == 0 {
        true
    } else {
        &&& placed(nodes, parent, s[0], at, Some(par))
        &&& placed_seq(nodes, parent, s.drop_first(), at + size_of(s[0]), par)
    }
}

/// Splitting a description sequence splits its size.
pub(crate) proof fn lemma_size_seq_split(s: Seq<NodeDesc>, k: int)
    requires
        0 <= k <= s.len(),
    ensures
        size_seq(s) == size_seq(s.take(k)) + size_seq(s.skip(k)),
    decreases k,
{
    if k == 0 {
        assert(s.take(0) =~= Seq::<NodeDesc>::empty());
        assert(s.skip(0) =~= s);
    } else {
        assert(s.take(k)[0] == s[0]);
        assert(s.take(k).drop_first() =~= s.drop_first().take(k - 1));
        assert(s.skip(k) =~= s.drop_first().skip(k - 1));
        lemma_size_seq_split(s.drop_first(), k - 1);
    }
}

/// Taking one more description adds exactly its size.
pub(crate) proof fn lemma_size_seq_take_snoc(s: Seq<NodeDesc>, k: int)
    requires
        0 <= k < s.len(),
    ensures
        size_seq(s.take(k + 1)) == size_seq(s.take(k)) + size_of(s[k]),
{
    lemma_size_seq_split(s, k);
    lemma_size_seq_split(s, k + 1);
    assert(size_seq(s.skip(k)) == size_of(s[k]) + size_seq(s.skip(k + 1))) by {
        assert(s.skip(k)[0] == s[k]);
        assert(s.skip(k).drop_first() =~= s.skip(k + 1));
    }
}

/// A sequence's size covers any one of its elements, together with the
/// sizes of the elements taken before it.
pub(crate) proof fn lemma_size_seq_take_bound(s: Seq<NodeDesc>, k: int)
    requires
        0 <= k < s.len(),
    ensures
        size_seq(s) >= size_seq(s.take(k)) + size_of(s[k]),
{
    lemma_size_seq_take_snoc(s, k);
    lemma_size_seq_split(s, k + 1);
}

/// A placement is unaffected by growing the arena past its extent.
proof fn lemma_placed_extend(
    n1: Seq<Node>,
    p1: Seq<Option<usize>>,
    n2: Seq<Node>,
    p2: Seq<Option<usize>>,
    d: NodeDesc,
    at: int,
    par: Option<usize>,
)
    requires
        placed(n1, p1, d, at, par),
        p1.len() == n1.len(),
        p2.len() == n2.len(),
        n1.len() <= n2.len(),
        n2.take(n1.len() as int) == n1,
        p2.take(p1.len() as int) == p1,
    ensures
        placed(n2, p2, d, at, par),
    decreases d,
{
    assert(n2.take(n1.len() as int)[at] == n2[at]);
    assert(p2.take(p1.len() as int)[at] == p2[at]);
    lemma_placed_seq_extend(n1, p1, n2, p2, d.children@, at + 1, at as usize);
}

/// A consecutive placement is unaffected by growing the arena.
proof fn lemma_placed_seq_extend(
    n1: Seq<Node>,
    p1: Seq<Option<usize>>,
    n2: Seq<Node>,
    p2: Seq<Option<usize>>,
    s: Seq<NodeDesc>,
    at: int,
    par: usize,
)
    requires
        placed_seq(n1, p1, s, at, par),
        p1.len() == n1.len(),
        p2.len() == n2.len(),
        n1.len() <= n2.len(),
        n2.take(n1.len() as int) == n1,
        p2.take(p1.len() as int) == p1,
    ensures
        placed_seq(n2, p2, s, at, par),
    decreases s,
{
    if s.len() > 0 {
        lemma_placed_extend(n1, p1, n2, p2, s[0], at, Some(par));
        lemma_placed_seq_extend(n1, p1, n2, p2, s.drop_first(), at + size_of(s[0]), par);
    }
}

/// Appending one more placed description extends a consecutive placement.
proof fn lemma_placed_seq_snoc(
    nodes: Seq<Node>,
    parent: Seq<Option<usize>>,
    s: Seq<NodeDesc>,
    c: NodeDesc,
    at: int,
    par: usize,
)
    requires
        placed_seq(nodes, parent, s, at, par),
        placed(nodes, parent, c, at + size_seq(s), Some(par)),
    ensures
        placed_seq(nodes, parent, s.push(c), at, par),
    decreases s,
{
    if s.len() == 0 {
        assert(size_seq(s) == 0);
        assert(s.push(c)[0] == c);
        assert(s.push(c).drop_first() =~= Seq::<NodeDesc>::empty());
        assert(placed_seq(nodes, parent, s.push(c).drop_first(), at + size_of(c), par));
    } else {
        assert(s.push(c)[0] == s[0]);
        assert(s.push(c).drop_first() =~= s.drop_first().push(c));
        lemma_placed_seq_snoc(nodes, parent, s.drop_first(), c, at + size_of(s[0]), par);
    }
}

/// Append the subtree described by `desc` to the arena, linked to `par`.
#[verifier::loop_isolation(false)]
fn visit_children(desc: NodeDesc, g: &mut NodeGraph, par: Option<usize>)
    requires
        desc_wf(desc),
        graph_core_wf(*old(g)),
        par matches Some(p) ==> p < old(g).nodes@.len(),
        par is None ==> old(g).nodes@.len() == 0,
        old(g).nodes@.len() + size_of(desc) <= usize::MAX,
    ensures
        graph_core_wf(*final(g)),
        final(g).nodes@.len() == old(g).nodes@.len() + size_of(desc),
        final(g).nodes@.take(old(g).nodes@.len() as int) == old(g).nodes@,
        final(g).parent@.take(old(g).nodes@.len() as int) == old(g).parent@,
        placed(final(g).nodes@, final(g).parent@, desc, old(g).nodes@.len() as int, par),
    decreases size_of(desc),
{
    let ghost d = desc;
    let ghost base = old(g).nodes@.len() as int;
    let ghost prefix_nodes = old(g).nodes@;
    let ghost prefix_parent = old(g).parent@;
    let node_index = g.nodes.len();
    let NodeDesc { index, local_transform, mesh, children } = desc;
    let node = Node {
        animation_transform: Transform::unset(),
        local_transform: Mat4::from_entries(local_transform),
        mesh,
        index,
    };
    g.nodes.push(node);
    g.parent.push(par);
    proof {
        assert(g.nodes@.take(base) =~= prefix_nodes);
        assert(g.parent@.take(base) =~= prefix_parent);
    }
    let ghost total = d.children@;
    let mut ch = children;
    proof {
        assert(ch@ =~= total.skip(0));
    }
    while ch.len() > 0
        invariant
            graph_core_wf(*g),
            ch@.len() <= total.len(),
            ch@ == total.skip(total.len() - ch@.len()),
            base + 1 <= g.nodes@.len(),
            g.nodes@.len() + size_seq(ch@) <= usize::MAX,
            g.nodes@.len() == base + 1 + size_seq(total) - size_seq(ch@),
            g.nodes@.take(base) == prefix_nodes,
            g.parent@.take(base) == prefix_parent,
            node_index == base,
            total == d.children@,
            g.nodes@[base].index == d.index,
            g.nodes@[base].local_transform@ == d.local_transform@.map_values(|v: i64| v as int),
            g.nodes@[base].animation_transform.translation is None,
            g.nodes@[base].animation_transform.rotation is None,
            g.nodes@[base].animation_transform.scale is None,
            mesh_matches(g.nodes@[base].mesh, d.mesh),
            g.parent@[base] == par,
            desc_wf(d),
            placed_seq(
                g.nodes@,
                g.parent@,
                total.take(total.len() - ch@.len()),
                base + 1,
                node_index,
            ),
        decreases ch@.len(),
    {
        let ghost pre_nodes = g.nodes@;
        let ghost pre_parent = g.parent@;
        let ghost consumed = total.len() - ch@.len();
        let c = ch.remove(0);
        proof {
            assert(c == total[consumed]);
            assert(ch@ =~= total.skip(total.len() - ch@.len()));
            assert(d.children@[consumed] == c);
            assert(desc_wf(c));
            // size of the remaining suffix splits off the head
            assert(size_seq(total.skip(consumed)) == size_of(c) + size_seq(
                total.skip(consumed + 1),
            )) by {
                assert(total.skip(consumed)[0] == total[consumed]);
                assert(total.skip(consumed).drop_first() =~= total.skip(consumed + 1));
            }
            lemma_size_seq_split(total, consumed);
            assert(size_of(c) <= size_seq(total.skip(consumed)));
            assert(size_of(d) == 1 + size_seq(total));
            assert(size_of(c) < size_of(d));
        }
        visit_children(c, g, Some(node_index));
        proof {
            assert(g.nodes@.take(base) =~= prefix_nodes) by {
                assert forall|j: int| 0 <= j < base implies g.nodes@.take(base)[j]
                    == prefix_nodes[j] by {
                    assert(g.nodes@.take(pre_nodes.len() as int)[j] == pre_nodes[j]);
                    assert(pre_nodes.take(base)[j] == pre_nodes[j]);
                }
            }
            assert(g.parent@.take(base) =~= prefix_parent) by {
                assert forall|j: int| 0 <= j < base implies g.parent@.take(base)[j]
                    == prefix_parent[j] by {
                    assert(g.parent@.take(pre_parent.len() as int)[j] == pre_parent[j]);
                    assert(prefix_parent.len() == base);
                    assert(pre_parent.take(base)[j] == pre_parent[j]);
                }
            }
            assert(g.nodes@.take(pre_nodes.len() as int)[base] == pre_nodes[base]);
            assert(g.parent@.take(pre_parent.len() as int)[base] == pre_parent[base]);
            lemma_size_seq_split(total, consumed);
            lemma_placed_seq_extend(
                pre_nodes,
                pre_parent,
                g.nodes@,
                g.parent@,
                total.take(consumed),
                base + 1,
                node_index,
            );
            lemma_placed_seq_snoc(
                g.nodes@,
                g.parent@,
                total.take(consumed),
                c,
                base + 1,
                node_index,
            );
            assert(total.take(consumed).push(c) =~= total.take(consumed + 1));
            lemma_size_seq_split(total, consumed + 1);
            assert(size_seq(total.skip(consumed)) == size_of(c) + size_seq(
                total.skip(consumed + 1),
            )) by {
                assert(total.skip(consumed)[0] == total[consumed]);
                assert(total.skip(consumed).drop_first() =~= total.skip(consumed + 1));
            }
        }
    }
    proof {
        assert(total.take(total.len() - ch@.len()) =~= total);
        assert(size_seq(ch@) == 0);
    }
}

/// Integer view of a vector of arena positions.
pub open spec fn idx_view(s: Seq<usize>) -> Seq<int> {
    Seq::new(s.len(), |k: int| s[k] as int)
}

/// Arena position of `n`'s parent (meaningful when the link is present).
pub open spec fn parent_of(g: NodeGraph, n: int) -> int {
    g.parent@[n]->0 as int
}

/// `a` lies on the chain of parent links from `n` up to the root
/// (`n` itself included).
pub open spec fn on_path(g: NodeGraph, a: int, n: int) -> bool
    decreases n,
    when graph_wf(g) && 0 <= n < g.nodes@.len()
{
    if n == a {
        true
    } else if g.parent@[n] is Some {
        on_path(g, a, parent_of(g, n))
    } else {
        false
    }
}

/// The unique path of arena positions from `a` down to `n`, inclusive.
pub open spec fn path_from(g: NodeGraph, a: int, n: int) -> Seq<int>
    decreases n,
    when graph_wf(g) && 0 <= n < g.nodes@.len() && on_path(g, a, n)
{
    if n == a {
        seq![n]
    } else {
        path_from(g, a, parent_of(g, n)).push(n)
    }
}

/// One step of transform accumulation: multiply the running product by the
/// node's authored local transform, then by its animation override.
pub open spec fn apply_node(acc: Seq<int>, g: NodeGraph, n: int) -> Seq<int> {
    mat_mul(
        mat_mul(acc, g.nodes@[n].local_transform@),
        override_matrix(g.nodes@[n].animation_transform),
    )
}

/// Left fold of transform accumulation over a path of arena positions.
pub open spec fn fold_path(g: NodeGraph, path: Seq<int>, acc: Seq<int>) -> Seq<int>
    decreases path.len(),
{
    if path.len() == 0 {
        acc
    } else {
        fold_path(g, path.drop_first(), apply_node(acc, g, path[0]))
    }
}

/// The accumulated world transform of node `n`: the composition of
/// `local * override` for every node from the root down to `n`.
pub open spec fn global_transform(g: NodeGraph, n: int) -> Seq<int>
    decreases n,
    when graph_wf(g) && 0 <= n < g.nodes@.len()
{
    if g.parent@[n] is Some {
        apply_node(global_transform(g, parent_of(g, n)), g, n)
    } else {
        apply_node(mat_identity(), g, n)
    }
}

/// The root at position 0 lies on every node's parent chain.
pub proof fn lemma_root_on_path(g: NodeGraph, n: int)
    requires
        graph_wf(g),
        0 <= n < g.nodes@.len(),
    ensures
        on_path(g, 0, n),
    decreases n,
{
    if n != 0 {
        lemma_root_on_path(g, parent_of(g, n));
    }
}

/// Folding over a path extended by one node applies that node last.
proof fn lemma_fold_path_push(g: NodeGraph, path: Seq<int>, x: int, acc: Seq<int>)
    ensures
        fold_path(g, path.push(x), acc) == apply_node(fold_path(g, path, acc), g, x),
    decreases path.len(),
{
    if path.len() == 0 {
        assert(path.push(x)[0] == x);
        assert(path.push(x).drop_first() =~= Seq::<int>::empty());
        assert(fold_path(g, path, acc) == acc);
        assert(fold_path(g, path.push(x), acc) == fold_path(
            g,
            path.push(x).drop_first(),
            apply_node(acc, g, x),
        ));
        assert(fold_path(g, path.push(x).drop_first(), apply_node(acc, g, x)) == apply_node(
            acc,
            g,
            x,
        ));
    } else {
        assert(path.push(x)[0] == path[0]);
        assert(path.push(x).drop_first() =~= path.drop_first().push(x));
        assert(fold_path(g, path.push(x), acc) == fold_path(
            g,
            path.drop_first().push(x),
            apply_node(acc, g, path[0]),
        ));
        lemma_fold_path_push(g, path.drop_first(), x, apply_node(acc, g, path[0]));
    }
}

/// Law: the global transform of a node equals the left fold, from the root
/// down to the node, of `acc * local_transform * override_matrix` over the
/// root-to-node path, starting from the identity.
pub proof fn lemma_global_transform_is_path_product(g: NodeGraph, n: int)
    requires
        graph_wf(g),
        0 <= n < g.nodes@.len(),
    ensures
        on_path(g, 0, n),
        global_transform(g, n) == fold_path(g, path_from(g, 0, n), mat_identity()),
    decreases n,
{
    lemma_root_on_path(g, n);
    if n == 0 {
        assert(g.parent@[0] is None);
        assert(path_from(g, 0, 0) == seq![0int]);
        assert(seq![0int].drop_first() =~= Seq::<int>::empty());
        assert(seq![0int][0] == 0int);
        assert(fold_path(g, seq![0int], mat_identity()) == fold_path(
            g,
            seq![0int].drop_first(),
            apply_node(mat_identity(), g, 0),
        ));
    } else {
        assert(g.parent@[n] is Some);
        let p = parent_of(g, n);
        lemma_global_transform_is_path_product(g, p);
        lemma_fold_path_push(g, path_from(g, 0, p), n, mat_identity());
    }
}

/// With no override component set, one accumulation step multiplies by
/// the node's authored local transform alone: the override contributes
/// exactly the identity.
pub proof fn lemma_apply_node_unanimated(acc: Seq<int>, g: NodeGraph, n: int)
    requires
        mat_wf(acc),
        0 <= n < g.nodes@.len(),
        mat_wf(g.nodes@[n].local_transform@),
        g.nodes@[n].animation_transform.translation is None,
        g.nodes@[n].animation_transform.rotation is None,
        g.nodes@[n].animation_transform.scale is None,
    ensures
        apply_node(acc, g, n) == mat_mul(acc, g.nodes@[n].local_transform@),
{
    crate::mat4::lemma_mat_mul_wf(acc, g.nodes@[n].local_transform@);
    crate::mat4::lemma_mat_mul_identity_right(mat_mul(acc, g.nodes@[n].local_transform@));
}

/// Every position on a path is a valid arena position, the path runs from
/// `a` to `n`, and consecutive entries are parent-linked.
pub proof fn lemma_path_from_props(g: NodeGraph, a: int, n: int)
    requires
        graph_wf(g),
        0 <= n < g.nodes@.len(),
        on_path(g, a, n),
    ensures
        path_from(g, a, n).len() >= 1,
        path_from(g, a, n)[0] == a,
        path_from(g, a, n).last() == n,
        forall|i: int|
            0 <= i < path_from(g, a, n).len() ==> 0 <= #[trigger] path_from(g, a, n)[i]
                < g.nodes@.len(),
        forall|i: int|
            0 < i < path_from(g, a, n).len() ==> g.parent@[#[trigger] path_from(g, a, n)[i]]
                == Some(path_from(g, a, n)[i - 1] as usize),
    decreases n,
{
    if n != a {
        lemma_path_from_props(g, a, parent_of(g, n));
        let pp = path_from(g, a, parent_of(g, n));
        assert forall|i: int|
            0 < i < path_from(g, a, n).len() implies g.parent@[#[trigger] path_from(g, a, n)[i]]
            == Some(path_from(g, a, n)[i - 1] as usize) by {
            if i < pp.len() {
                assert(path_from(g, a, n)[i] == pp[i]);
                assert(path_from(g, a, n)[i - 1] == pp[i - 1]);
            } else {
                assert(path_from(g, a, n)[i] == n);
                assert(path_from(g, a, n)[i - 1] == pp.last());
            }
        }
    }
}

/// The index-packing step of mesh loading: append one primitive's index
/// list to the shared index buffer, rebasing every index by the number of
/// vertices already packed, and record the primitive's draw range.
#[verifier::loop_isolation(false)]
pub fn pack_primitive_indices(
    vertex_count: u32,
    primitive_indices: &Vec<u32>,
    indices: &mut Vec<u32>,
    material_index: Option<usize>,
) -> (p: Primitive)
    requires
        forall|i: int|
            0 <= i < primitive_indices@.len() ==> #[trigger] primitive_indices@[i] + vertex_count
                <= u32::MAX,
        old(indices)@.len() + primitive_indices@.len() <= u32::MAX,
    ensures
        p.first_index == old(indices)@.len(),
        p.number_of_indices == primitive_indices@.len(),
        p.material_index == material_index,
        final(indices)@.len() == old(indices)@.len() + primitive_indices@.len(),
        final(indices)@.take(old(indices)@.len() as int) == old(indices)@,
        forall|k: int|
            0 <= k < primitive_indices@.len() ==> final(indices)@[old(indices)@.len() + k]
                == primitive_indices@[k] + vertex_count,
{
    let first_index = indices.len() as u32;
    let n = primitive_indices.len();
    for k in 0..n
        invariant
            n == primitive_indices@.len(),
            indices@.len() == old(indices)@.len() + k,
            indices@.take(old(indices)@.len() as int) == old(indices)@,
            forall|j: int|
                0 <= j < k ==> indices@[old(indices)@.len() + j] == primitive_indices@[j]
                    + vertex_count,
    {
        let x = primitive_indices[k] + vertex_count;
        indices.push(x);
        proof {
            assert(indices@.take(old(indices)@.len() as int) =~= old(indices)@);
        }
    }
    Primitive {
        number_of_indices: n as u32,
        first_index,
        material_index,
    }
}

/// Build one tree from the description of a top-level node.
pub fn build_graph(desc: NodeDesc) -> (g: NodeGraph)
    requires
        desc_wf(desc),
        size_of(desc) <= usize::MAX,
    ensures
        graph_wf(g),
        g.nodes@.len() == size_of(desc),
        placed(g.nodes@, g.parent@, desc, 0, None),
{
    let mut g = NodeGraph { nodes: Vec::new(), parent: Vec::new() };
    visit_children(desc, &mut g, None);
    g
}

} // verus!
