//! The imported asset: a forest of node trees per scene plus its
//! animations, with the dense mesh-id enumeration and the per-frame
//! traversal order.
//!
//! Meshes are discovered while walking the hierarchy, but a primitive's
//! uniform-buffer offset must be known before any per-frame update can be
//! issued; a second pass therefore enumerates every meshed node in one
//! fixed order (scene, then tree, then node in pre-order) and hands each
//! mesh a unique dense id starting at 0.

use vstd::prelude::*;

verus! {

use crate::animation::{
    animation_wf, channel_output, channel_time, clip_time_after, output_wf, outputs_match,
    strictly_increasing, Animation, Channel, ChannelOutput, ChannelSample, TransformationSet,
};
use crate::transform::{transform_wf, Transform};
use crate::fixed::VAL_LIMIT;
use crate::mat4::Mat4;
use crate::scene::{
    desc_wf, graph_wf, mesh_matches, placed, placed_seq, size_of, size_seq, Node, NodeDesc,
    NodeGraph, Scene,
};
use crate::transform::{Quat, Vec3};

/// The runtime scene description: scenes, animations, and the number of
/// meshed nodes across all scenes.
pub struct GltfAsset {
    pub scenes: Vec<Scene>,
    pub animations: Vec<Animation>,
    pub number_of_meshes: usize,
}

/// Every tree of every scene is well-formed, and so is every animation.
pub open spec fn scenes_wf(ss: Seq<Scene>) -> bool {
    forall|s: int, g: int|
        0 <= s < ss.len() && 0 <= g < ss[s].node_graphs@.len() ==> graph_wf(
            #[trigger] ss[s].node_graphs@[g],
        )
}

/// The walk entries of one tree: `count` nodes in arena (pre-)order.
pub open spec fn graph_walk(s: int, g: int, count: int) -> Seq<(int, int, int)> {
    Seq::new(count as nat, |k: int| (s, g, k))
}

/// The walk entries of the first `upto` trees of scene `s`.
pub open spec fn scene_walk(sc: Scene, s: int, upto: int) -> Seq<(int, int, int)>
    decreases upto,
{
    if upto <= 0 {
        Seq::empty()
    } else {
        scene_walk(sc, s, upto - 1) + graph_walk(
            s,
            upto - 1,
            sc.node_graphs@[upto - 1].nodes@.len() as int,
        )
    }
}

/// The walk entries of the first `upto` scenes.
pub open spec fn scenes_walk(ss: Seq<Scene>, upto: int) -> Seq<(int, int, int)>
    decreases upto,
{
    if upto <= 0 {
        Seq::empty()
    } else {
        scenes_walk(ss, upto - 1) + scene_walk(
            ss[upto - 1],
            upto - 1,
            ss[upto - 1].node_graphs@.len() as int,
        )
    }
}

/// The depth-first, root-first traversal order over every node of every
/// tree of every scene: scene by scene, tree by tree, node by node.
pub open spec fn walk_order(ss: Seq<Scene>) -> Seq<(int, int, int)> {
    scenes_walk(ss, ss.len() as int)
}

/// Number of meshed nodes among the first `upto` nodes of a tree.
pub open spec fn graph_meshed_count(g: NodeGraph, upto: int) -> int
    decreases upto,
{
    if upto <= 0 {
        0
    } else {
        graph_meshed_count(g, upto - 1) + if g.nodes@[upto - 1].mesh is Some {
            1int
        } else {
            0int
        }
    }
}

/// Number of meshed nodes in the first `upto` trees of a scene.
pub open spec fn scene_meshed_count(sc: Scene, upto: int) -> int
    decreases upto,
{
    if upto <= 0 {
        0
    } else {
        scene_meshed_count(sc, upto - 1) + graph_meshed_count(
            sc.node_graphs@[upto - 1],
            sc.node_graphs@[upto - 1].nodes@.len() as int,
        )
    }
}

/// Number of meshed nodes in the first `upto` scenes.
pub open spec fn scenes_meshed_count(ss: Seq<Scene>, upto: int) -> int
    decreases upto,
{
    if upto <= 0 {
        0
    } else {
        scenes_meshed_count(ss, upto - 1) + scene_meshed_count(
            ss[upto - 1],
            ss[upto - 1].node_graphs@.len() as int,
        )
    }
}

/// Total number of meshed nodes across all scenes.
pub open spec fn meshed_total(ss: Seq<Scene>) -> int {
    scenes_meshed_count(ss, ss.len() as int)
}

/// Number of meshed nodes strictly before position `(s, g, n)` in the
/// traversal order.
pub open spec fn meshed_before(ss: Seq<Scene>, s: int, g: int, n: int) -> int {
    scenes_meshed_count(ss, s) + scene_meshed_count(ss[s], g) + graph_meshed_count(
        ss[s].node_graphs@[g],
        n,
    )
}

/// Every meshed node's id equals the number of meshed nodes before it in
/// the traversal order: ids are dense, unique, and start at 0.
pub open spec fn ids_assigned(ss: Seq<Scene>) -> bool {
    forall|s: int, g: int, n: int|
        0 <= s < ss.len() && 0 <= g < ss[s].node_graphs@.len() && 0 <= n
            < ss[s].node_graphs@[g].nodes@.len() && (#[trigger] ss[s].node_graphs@[g].nodes@[n].mesh)
            is Some ==> ss[s].node_graphs@[g].nodes@[n].mesh->0.mesh_id == meshed_before(
            ss,
            s,
            g,
            n,
        )
}

/// The two scene forests have the same shape and mesh placement; only the
/// mesh ids may differ.
pub open spec fn same_shape(ss1: Seq<Scene>, ss2: Seq<Scene>) -> bool {
    &&& ss1.len() == ss2.len()
    &&& forall|s: int|
        0 <= s < ss1.len() ==> (#[trigger] ss1[s]).node_graphs@.len()
            == ss2[s].node_graphs@.len()
    &&& forall|s: int, g: int|
        0 <= s < ss1.len() && 0 <= g < ss1[s].node_graphs@.len() ==> (
        #[trigger] ss1[s].node_graphs@[g]).nodes@.len() == ss2[s].node_graphs@[g].nodes@.len()
    &&& forall|s: int, g: int, n: int|
        0 <= s < ss1.len() && 0 <= g < ss1[s].node_graphs@.len() && 0 <= n
            < ss1[s].node_graphs@[g].nodes@.len() ==> ((
        #[trigger] ss1[s].node_graphs@[g].nodes@[n].mesh) is Some <==> ss2[s].node_graphs@[g].nodes@[n].mesh is Some)
}

/// Integer view of a traversal entry vector.
pub open spec fn walk_view(r: Seq<(usize, usize, usize)>) -> Seq<(int, int, int)> {
    Seq::new(r.len(), |k: int| (r[k].0 as int, r[k].1 as int, r[k].2 as int))
}

/// Appending one entry appends its integer view.
proof fn lemma_walk_view_push(r: Seq<(usize, usize, usize)>, t: (usize, usize, usize))
    ensures
        walk_view(r.push(t)) == walk_view(r).push((t.0 as int, t.1 as int, t.2 as int)),
{
    assert(walk_view(r.push(t)) =~= walk_view(r).push((t.0 as int, t.1 as int, t.2 as int)));
}

/// Meshed-node counts within a tree never decrease along the arena.
pub proof fn lemma_graph_count_mono(g: NodeGraph, a: int, b: int)
    requires
        0 <= a <= b,
    ensures
        graph_meshed_count(g, a) <= graph_meshed_count(g, b),
    decreases b,
{
    if a < b {
        lemma_graph_count_mono(g, a, b - 1);
    }
}

/// Meshed-node counts within a scene never decrease over its trees.
pub proof fn lemma_scene_count_mono(sc: Scene, a: int, b: int)
    requires
        0 <= a <= b,
    ensures
        scene_meshed_count(sc, a) <= scene_meshed_count(sc, b),
    decreases b,
{
    if a < b {
        lemma_scene_count_mono(sc, a, b - 1);
        lemma_graph_count_mono(
            sc.node_graphs@[b - 1],
            0,
            sc.node_graphs@[b - 1].nodes@.len() as int,
        );
    }
}

/// Meshed-node counts never decrease over the scenes.
pub proof fn lemma_scenes_count_mono(ss: Seq<Scene>, a: int, b: int)
    requires
        0 <= a <= b,
    ensures
        scenes_meshed_count(ss, a) <= scenes_meshed_count(ss, b),
    decreases b,
{
    if a < b {
        lemma_scenes_count_mono(ss, a, b - 1);
        lemma_scene_count_mono(ss[b - 1], 0, ss[b - 1].node_graphs@.len() as int);
        lemma_graph_count_mono(
            ss[b - 1].node_graphs@[0],
            0,
            0,
        );
    }
}

/// A meshed node at `(s, g, n)` is counted: the meshed nodes before it,
/// plus itself, never exceed the total.
pub proof fn lemma_meshed_before_lt_total(ss: Seq<Scene>, s: int, g: int, n: int)
    requires
        0 <= s < ss.len(),
        0 <= g < ss[s].node_graphs@.len(),
        0 <= n < ss[s].node_graphs@[g].nodes@.len(),
        ss[s].node_graphs@[g].nodes@[n].mesh is Some,
    ensures
        0 <= meshed_before(ss, s, g, n),
        meshed_before(ss, s, g, n) + 1 <= meshed_total(ss),
{
    let sc = ss[s];
    let gr = sc.node_graphs@[g];
    lemma_scenes_count_mono(ss, 0, s);
    lemma_scene_count_mono(sc, 0, g);
    lemma_graph_count_mono(gr, 0, n);
    lemma_graph_count_mono(gr, n + 1, gr.nodes@.len() as int);
    lemma_scene_count_mono(sc, g + 1, sc.node_graphs@.len() as int);
    lemma_scenes_count_mono(ss, s + 1, ss.len() as int);
}

impl GltfAsset {
    /// The depth-first, root-first traversal order over every node in
    /// every tree of every scene, as `(scene, tree, node)` positions.
    #[verifier::loop_isolation(false)]
    pub fn walk(&self) -> (r: Vec<(usize, usize, usize)>)
        ensures
            walk_view(r@) == walk_order(self.scenes@),
    {
        let ghost ss = self.scenes@;
        let mut r: Vec<(usize, usize, usize)> = Vec::new();
        proof {
            assert(walk_view(r@) =~= scenes_walk(ss, 0));
        }
        let ns = self.scenes.len();
        for s in 0..ns
            invariant
                walk_view(r@) == scenes_walk(ss, s as int),
        {
            let ng = self.scenes[s].node_graphs.len();
            proof {
                assert(walk_view(r@) =~= scenes_walk(ss, s as int) + scene_walk(
                    ss[s as int],
                    s as int,
                    0,
                ));
            }
            for g in 0..ng
                invariant
                    walk_view(r@) == scenes_walk(ss, s as int) + scene_walk(
                        ss[s as int],
                        s as int,
                        g as int,
                    ),
            {
                let nn = self.scenes[s].node_graphs[g].nodes.len();
                proof {
                    assert(walk_view(r@) =~= scenes_walk(ss, s as int) + scene_walk(
                        ss[s as int],
                        s as int,
                        g as int,
                    ) + graph_walk(s as int, g as int, 0));
                }
                for n in 0..nn
                    invariant
                        walk_view(r@) == scenes_walk(ss, s as int) + scene_walk(
                            ss[s as int],
                            s as int,
                            g as int,
                        ) + graph_walk(s as int, g as int, n as int),
                {
                    let ghost pre = r@;
                    r.push((s, g, n));
                    proof {
                        lemma_walk_view_push(pre, (s, g, n));
                        assert((scenes_walk(ss, s as int) + scene_walk(
                            ss[s as int],
                            s as int,
                            g as int,
                        ) + graph_walk(s as int, g as int, n as int)).push(
                            (s as int, g as int, n as int),
                        ) =~= scenes_walk(ss, s as int) + scene_walk(
                            ss[s as int],
                            s as int,
                            g as int,
                        ) + graph_walk(s as int, g as int, n + 1));
                    }
                }
                proof {
                    assert(walk_view(r@) =~= scenes_walk(ss, s as int) + scene_walk(
                        ss[s as int],
                        s as int,
                        g + 1,
                    ));
                }
            }
            proof {
                assert(walk_view(r@) =~= scenes_walk(ss, s + 1));
            }
        }
        r
    }
}

/// A node is unchanged, its mesh id aside.
pub open spec fn node_same_but_mesh_id(a: crate::scene::Node, b: crate::scene::Node) -> bool {
    &&& b.index == a.index
    &&& b.local_transform@ == a.local_transform@
    &&& b.animation_transform == a.animation_transform
    &&& crate::scene::mesh_matches(a.mesh, b.mesh)
}

/// Equal mesh placement gives equal per-tree counts.
proof fn lemma_graph_count_shape(ss1: Seq<Scene>, ss2: Seq<Scene>, s: int, g: int, upto: int)
    requires
        same_shape(ss1, ss2),
        0 <= s < ss1.len(),
        0 <= g < ss1[s].node_graphs@.len(),
        0 <= upto <= ss1[s].node_graphs@[g].nodes@.len(),
    ensures
        graph_meshed_count(ss1[s].node_graphs@[g], upto) == graph_meshed_count(
            ss2[s].node_graphs@[g],
            upto,
        ),
    decreases upto,
{
    if upto > 0 {
        lemma_graph_count_shape(ss1, ss2, s, g, upto - 1);
        assert(ss1[s].node_graphs@[g].nodes@[upto - 1].mesh is Some
            <==> ss2[s].node_graphs@[g].nodes@[upto - 1].mesh is Some);
    }
}

/// Equal mesh placement gives equal per-scene counts.
proof fn lemma_scene_count_shape(ss1: Seq<Scene>, ss2: Seq<Scene>, s: int, upto: int)
    requires
        same_shape(ss1, ss2),
        0 <= s < ss1.len(),
        0 <= upto <= ss1[s].node_graphs@.len(),
    ensures
        scene_meshed_count(ss1[s], upto) == scene_meshed_count(ss2[s], upto),
    decreases upto,
{
    if upto > 0 {
        lemma_scene_count_shape(ss1, ss2, s, upto - 1);
        lemma_graph_count_shape(
            ss1,
            ss2,
            s,
            upto - 1,
            ss1[s].node_graphs@[upto - 1].nodes@.len() as int,
        );
    }
}

/// Equal mesh placement gives equal counts across scenes.
proof fn lemma_scenes_count_shape(ss1: Seq<Scene>, ss2: Seq<Scene>, upto: int)
    requires
        same_shape(ss1, ss2),
        0 <= upto <= ss1.len(),
    ensures
        scenes_meshed_count(ss1, upto) == scenes_meshed_count(ss2, upto),
    decreases upto,
{
    if upto > 0 {
        lemma_scenes_count_shape(ss1, ss2, upto - 1);
        lemma_scene_count_shape(ss1, ss2, upto - 1, ss1[upto - 1].node_graphs@.len() as int);
    }
}

/// Equal mesh placement gives equal before-position counts.
pub proof fn lemma_meshed_before_shape(ss1: Seq<Scene>, ss2: Seq<Scene>, s: int, g: int, n: int)
    requires
        same_shape(ss1, ss2),
        0 <= s < ss1.len(),
        0 <= g < ss1[s].node_graphs@.len(),
        0 <= n <= ss1[s].node_graphs@[g].nodes@.len(),
    ensures
        meshed_before(ss1, s, g, n) == meshed_before(ss2, s, g, n),
{
    lemma_scenes_count_shape(ss1, ss2, s);
    lemma_scene_count_shape(ss1, ss2, s, g);
    lemma_graph_count_shape(ss1, ss2, s, g, n);
}

impl GltfAsset {
    /// Hand every meshed node, in traversal order, its dense mesh id.
    #[verifier::loop_isolation(false)]
    fn update_ubo_indices(scenes: &mut Vec<Scene>)
        requires
            meshed_total(old(scenes)@) <= usize::MAX,
        ensures
            same_shape(old(scenes)@, final(scenes)@),
            ids_assigned(final(scenes)@),
            final(scenes)@.len() == old(scenes)@.len(),
            forall|s: int|
                0 <= s < old(scenes)@.len() ==> (#[trigger] final(scenes)@[s]).node_graphs@.len()
                    == old(scenes)@[s].node_graphs@.len(),
            forall|s: int, g: int|
                0 <= s < old(scenes)@.len() && 0 <= g < old(scenes)@[s].node_graphs@.len() ==> {
                    &&& (#[trigger] final(scenes)@[s].node_graphs@[g]).nodes@.len() == old(
                        scenes,
                    )@[s].node_graphs@[g].nodes@.len()
                    &&& final(scenes)@[s].node_graphs@[g].parent@ == old(
                        scenes,
                    )@[s].node_graphs@[g].parent@
                },
            forall|s: int, g: int, n: int|
                0 <= s < old(scenes)@.len() && 0 <= g < old(scenes)@[s].node_graphs@.len() && 0 <= n
                    < old(scenes)@[s].node_graphs@[g].nodes@.len() ==> node_same_but_mesh_id(
                    #[trigger] old(scenes)@[s].node_graphs@[g].nodes@[n],
                    final(scenes)@[s].node_graphs@[g].nodes@[n],
                ),
    {
        let ghost ss0 = old(scenes)@;
        let mut id: usize = 0;
        let ns = scenes.len();
        for s in 0..ns
            invariant
                ns == ss0.len(),
                scenes@.len() == ss0.len(),
                id as int == scenes_meshed_count(ss0, s as int),
                forall|s2: int|
                    0 <= s2 < ss0.len() ==> (#[trigger] scenes@[s2]).node_graphs@.len()
                        == ss0[s2].node_graphs@.len(),
                forall|s2: int, g2: int|
                    0 <= s2 < ss0.len() && 0 <= g2 < ss0[s2].node_graphs@.len() ==> {
                        &&& (#[trigger] scenes@[s2].node_graphs@[g2]).nodes@.len()
                            == ss0[s2].node_graphs@[g2].nodes@.len()
                        &&& scenes@[s2].node_graphs@[g2].parent@
                            == ss0[s2].node_graphs@[g2].parent@
                    },
                forall|s2: int, g2: int, n2: int|
                    0 <= s2 < ss0.len() && 0 <= g2 < ss0[s2].node_graphs@.len() && 0 <= n2
                        < ss0[s2].node_graphs@[g2].nodes@.len() ==> node_same_but_mesh_id(
                        #[trigger] ss0[s2].node_graphs@[g2].nodes@[n2],
                        scenes@[s2].node_graphs@[g2].nodes@[n2],
                    ),
                forall|s2: int, g2: int, n2: int|
                    0 <= s2 < s && 0 <= g2 < ss0[s2].node_graphs@.len() && 0 <= n2
                        < ss0[s2].node_graphs@[g2].nodes@.len() && (
                    #[trigger] scenes@[s2].node_graphs@[g2].nodes@[n2].mesh) is Some
                        ==> scenes@[s2].node_graphs@[g2].nodes@[n2].mesh->0.mesh_id
                        == meshed_before(ss0, s2, g2, n2),
        {
            let ng = scenes[s].node_graphs.len();
            for g in 0..ng
                invariant
                    ns == ss0.len(),
                    s < ss0.len(),
                    ng == ss0[s as int].node_graphs@.len(),
                    scenes@.len() == ss0.len(),
                    id as int == scenes_meshed_count(ss0, s as int) + scene_meshed_count(
                        ss0[s as int],
                        g as int,
                    ),
                    forall|s2: int|
                        0 <= s2 < ss0.len() ==> (#[trigger] scenes@[s2]).node_graphs@.len()
                            == ss0[s2].node_graphs@.len(),
                    forall|s2: int, g2: int|
                        0 <= s2 < ss0.len() && 0 <= g2 < ss0[s2].node_graphs@.len() ==> {
                            &&& (#[trigger] scenes@[s2].node_graphs@[g2]).nodes@.len()
                                == ss0[s2].node_graphs@[g2].nodes@.len()
                            &&& scenes@[s2].node_graphs@[g2].parent@
                                == ss0[s2].node_graphs@[g2].parent@
                        },
                    forall|s2: int, g2: int, n2: int|
                        0 <= s2 < ss0.len() && 0 <= g2 < ss0[s2].node_graphs@.len() && 0 <= n2
                            < ss0[s2].node_graphs@[g2].nodes@.len() ==> node_same_but_mesh_id(
                            #[trigger] ss0[s2].node_graphs@[g2].nodes@[n2],
                            scenes@[s2].node_graphs@[g2].nodes@[n2],
                        ),
                    forall|s2: int, g2: int, n2: int|
                        0 <= s2 < ss0.len() && 0 <= g2 < ss0[s2].node_graphs@.len() && 0 <= n2
                            < ss0[s2].node_graphs@[g2].nodes@.len() && (s2 < s || (s2 == s && g2
                            < g)) && (#[trigger] scenes@[s2].node_graphs@[g2].nodes@[n2].mesh)
                            is Some ==> scenes@[s2].node_graphs@[g2].nodes@[n2].mesh->0.mesh_id
                            == meshed_before(ss0, s2, g2, n2),
            {
                let nn = scenes[s].node_graphs[g].nodes.len();
                for n in 0..nn
                    invariant
                        ns == ss0.len(),
                        s < ss0.len(),
                        ng == ss0[s as int].node_graphs@.len(),
                        g < ng,
                        nn == ss0[s as int].node_graphs@[g as int].nodes@.len(),
                        scenes@.len() == ss0.len(),
                        id as int == scenes_meshed_count(ss0, s as int) + scene_meshed_count(
                            ss0[s as int],
                            g as int,
                        ) + graph_meshed_count(ss0[s as int].node_graphs@[g as int], n as int),
                        forall|s2: int|
                            0 <= s2 < ss0.len() ==> (#[trigger] scenes@[s2]).node_graphs@.len()
                                == ss0[s2].node_graphs@.len(),
                        forall|s2: int, g2: int|
                            0 <= s2 < ss0.len() && 0 <= g2 < ss0[s2].node_graphs@.len() ==> {
                                &&& (#[trigger] scenes@[s2].node_graphs@[g2]).nodes@.len()
                                    == ss0[s2].node_graphs@[g2].nodes@.len()
                                &&& scenes@[s2].node_graphs@[g2].parent@
                                    == ss0[s2].node_graphs@[g2].parent@
                            },
                        forall|s2: int, g2: int, n2: int|
                            0 <= s2 < ss0.len() && 0 <= g2 < ss0[s2].node_graphs@.len() && 0 <= n2
                                < ss0[s2].node_graphs@[g2].nodes@.len() ==> node_same_but_mesh_id(
                                #[trigger] ss0[s2].node_graphs@[g2].nodes@[n2],
                                scenes@[s2].node_graphs@[g2].nodes@[n2],
                            ),
                        forall|s2: int, g2: int, n2: int|
                            0 <= s2 < ss0.len() && 0 <= g2 < ss0[s2].node_graphs@.len() && 0 <= n2
                                < ss0[s2].node_graphs@[g2].nodes@.len() && (s2 < s || (s2 == s && g2
                                < g) || (s2 == s && g2 == g && n2 < n)) && (
                            #[trigger] scenes@[s2].node_graphs@[g2].nodes@[n2].mesh) is Some
                                ==> scenes@[s2].node_graphs@[g2].nodes@[n2].mesh->0.mesh_id
                                == meshed_before(ss0, s2, g2, n2),
                {
                    if scenes[s].node_graphs[g].nodes[n].mesh.is_some() {
                        proof {
                            assert(node_same_but_mesh_id(
                                ss0[s as int].node_graphs@[g as int].nodes@[n as int],
                                scenes@[s as int].node_graphs@[g as int].nodes@[n as int],
                            ));
                            lemma_meshed_before_lt_total(ss0, s as int, g as int, n as int);
                        }
                        match &mut scenes[s].node_graphs[g].nodes[n].mesh {
                            Some(m) => {
                                m.mesh_id = id;
                            },
                            None => {},
                        }
                        id = id + 1;
                    }
                }
            }
        }
        proof {
            let ss1 = scenes@;
            assert(same_shape(ss0, ss1));
            assert forall|s: int, g: int, n: int|
                0 <= s < ss1.len() && 0 <= g < ss1[s].node_graphs@.len() && 0 <= n
                    < ss1[s].node_graphs@[g].nodes@.len() && (
                #[trigger] ss1[s].node_graphs@[g].nodes@[n].mesh)
                is Some implies ss1[s].node_graphs@[g].nodes@[n].mesh->0.mesh_id == meshed_before(
                ss1,
                s,
                g,
                n,
            ) by {
                lemma_meshed_before_shape(ss0, ss1, s, g, n);
            }
        }
    }
}

/// Plain description of one animation channel of the imported asset.
pub struct ChannelDesc {
    pub node_index: usize,
    pub inputs: Vec<u32>,
    pub transformations: TransformationSet,
}

/// Plain description of one animation of the imported asset.
pub struct AnimationDesc {
    pub channels: Vec<ChannelDesc>,
}

/// Plain description of one scene: its top-level nodes.
pub struct SceneDesc {
    pub roots: Vec<NodeDesc>,
}

/// Plain description of a whole imported asset.
pub struct AssetDesc {
    pub scenes: Vec<SceneDesc>,
    pub animations: Vec<AnimationDesc>,
}

/// Why an asset description was rejected at load time.
#[derive(Clone, Copy, Debug, PartialEq, Eq)]
pub enum AssetError {
    /// Some node description is malformed (bad transform entry count or
    /// out-of-range entries).
    InvalidNode,
    /// The described forest does not fit in a machine-sized arena.
    SceneTooLarge,
    /// Some channel is malformed: fewer than two keys, keys not strictly
    /// increasing, or an output track that does not match the keys.
    InvalidChannel,
}

/// A channel description carries at least two strictly increasing keys
/// and a matching, bounded output track.
pub open spec fn channel_desc_ok(c: ChannelDesc) -> bool {
    &&& c.inputs@.len() >= 2
    &&& strictly_increasing(c.inputs@)
    &&& outputs_match(c.transformations, c.inputs@.len() as int)
}

/// Every node description of every scene is well-formed.
pub open spec fn descs_wf(desc: AssetDesc) -> bool {
    forall|s: int, r: int|
        0 <= s < desc.scenes@.len() && 0 <= r < desc.scenes@[s].roots@.len() ==> desc_wf(
            #[trigger] desc.scenes@[s].roots@[r],
        )
}

/// Total size of the first `upto` trees described for one scene.
pub open spec fn roots_size(rs: Seq<NodeDesc>, upto: int) -> int
    decreases upto,
{
    if upto <= 0 {
        0
    } else {
        roots_size(rs, upto - 1) + size_of(rs[upto - 1])
    }
}

/// Total size of the trees described by the first `upto` scenes.
pub open spec fn scenes_size(ds: Seq<SceneDesc>, upto: int) -> int
    decreases upto,
{
    if upto <= 0 {
        0
    } else {
        scenes_size(ds, upto - 1) + roots_size(ds[upto - 1].roots@, ds[upto - 1].roots@.len() as int)
    }
}

/// The described forest fits in a machine-sized arena, tree by tree and
/// in total.
pub open spec fn sizes_ok(desc: AssetDesc) -> bool {
    &&& forall|s: int, r: int|
        0 <= s < desc.scenes@.len() && 0 <= r < desc.scenes@[s].roots@.len() ==> size_of(
            #[trigger] desc.scenes@[s].roots@[r],
        ) <= usize::MAX
    &&& scenes_size(desc.scenes@, desc.scenes@.len() as int) <= usize::MAX
}

/// Every channel of every animation is well-formed.
pub open spec fn channels_ok(desc: AssetDesc) -> bool {
    forall|a: int, c: int|
        0 <= a < desc.animations@.len() && 0 <= c < desc.animations@[a].channels@.len()
            ==> channel_desc_ok(#[trigger] desc.animations@[a].channels@[c])
}

/// Check one node description recursively.
fn check_desc(d: &NodeDesc) -> (b: bool)
    ensures
        b == desc_wf(*d),
    decreases size_of(*d),
{
    if d.local_transform.len() != 16 {
        return false;
    }
    let mut i: usize = 0;
    while i < 16
        invariant
            d.local_transform@.len() == 16,
            i <= 16,
            forall|j: int|
                0 <= j < i ==> -crate::fixed::ENTRY_LIMIT <= #[trigger] d.local_transform@[j]
                    <= crate::fixed::ENTRY_LIMIT,
        decreases 16 - i,
    {
        let e = d.local_transform[i];
        if e < -crate::fixed::ENTRY_LIMIT || e > crate::fixed::ENTRY_LIMIT {
            return false;
        }
        i = i + 1;
    }
    let nc = d.children.len();
    let mut k: usize = 0;
    while k < nc
        invariant
            nc == d.children@.len(),
            k <= nc,
            d.local_transform@.len() == 16,
            forall|j: int|
                0 <= j < 16 ==> -crate::fixed::ENTRY_LIMIT <= #[trigger] d.local_transform@[j]
                    <= crate::fixed::ENTRY_LIMIT,
            forall|j: int| 0 <= j < k ==> desc_wf(#[trigger] d.children@[j]),
        decreases nc - k,
    {
        proof {
            crate::scene::lemma_size_seq_take_bound(d.children@, k as int);
        }
        if !check_desc(&d.children[k]) {
            return false;
        }
        k = k + 1;
    }
    true
}

/// Count the nodes one description describes; `None` when the count does
/// not fit a machine word.
fn count_nodes(d: &NodeDesc) -> (r: Option<usize>)
    ensures
        r matches Some(c) ==> c as int == size_of(*d),
        r is None ==> size_of(*d) > usize::MAX,
    decreases size_of(*d),
{
    let mut total: usize = 1;
    let nc = d.children.len();
    let mut k: usize = 0;
    while k < nc
        invariant
            nc == d.children@.len(),
            k <= nc,
            total as int == 1 + size_seq(d.children@.take(k as int)),
        decreases nc - k,
    {
        proof {
            crate::scene::lemma_size_seq_take_bound(d.children@, k as int);
        }
        let c = match count_nodes(&d.children[k]) {
            Some(c) => c,
            None => {
                return None;
            },
        };
        total = match total.checked_add(c) {
            Some(t) => t,
            None => {
                proof {
                    crate::scene::lemma_size_seq_take_bound(d.children@, k as int);
                }
                return None;
            },
        };
        proof {
            crate::scene::lemma_size_seq_take_snoc(d.children@, k as int);
        }
        k = k + 1;
    }
    proof {
        assert(d.children@.take(nc as int) =~= d.children@);
    }
    Some(total)
}

/// Check that every vector of a track is within bounds.
fn check_vec3s(v: &Vec<Vec3>) -> (b: bool)
    ensures
        b == forall|i: int| 0 <= i < v@.len() ==> crate::transform::vec3_wf(#[trigger] v@[i]),
{
    let n = v.len();
    for i in 0..n
        invariant
            n == v@.len(),
            forall|j: int| 0 <= j < i ==> crate::transform::vec3_wf(#[trigger] v@[j]),
    {
        let e = v[i];
        if e.x < -VAL_LIMIT || e.x > VAL_LIMIT || e.y < -VAL_LIMIT || e.y > VAL_LIMIT || e.z
            < -VAL_LIMIT || e.z > VAL_LIMIT {
            return false;
        }
    }
    true
}

/// Check that every quaternion of a track is within bounds.
fn check_quats(v: &Vec<Quat>) -> (b: bool)
    ensures
        b == forall|i: int| 0 <= i < v@.len() ==> crate::transform::quat_wf(#[trigger] v@[i]),
{
    let n = v.len();
    for i in 0..n
        invariant
            n == v@.len(),
            forall|j: int| 0 <= j < i ==> crate::transform::quat_wf(#[trigger] v@[j]),
    {
        let e = v[i];
        if e.x < -VAL_LIMIT || e.x > VAL_LIMIT || e.y < -VAL_LIMIT || e.y > VAL_LIMIT || e.z
            < -VAL_LIMIT || e.z > VAL_LIMIT || e.w < -VAL_LIMIT || e.w > VAL_LIMIT {
            return false;
        }
    }
    true
}

/// Check that every weight of a track is within bounds.
fn check_weights(v: &Vec<i64>) -> (b: bool)
    ensures
        b == forall|i: int| 0 <= i < v@.len() ==> -VAL_LIMIT <= #[trigger] v@[i] <= VAL_LIMIT,
{
    let n = v.len();
    for i in 0..n
        invariant
            n == v@.len(),
            forall|j: int| 0 <= j < i ==> -VAL_LIMIT <= #[trigger] v@[j] <= VAL_LIMIT,
    {
        let e = v[i];
        if e < -VAL_LIMIT || e > VAL_LIMIT {
            return false;
        }
    }
    true
}

/// Check one channel description.
fn check_channel(c: &ChannelDesc) -> (b: bool)
    ensures
        b == channel_desc_ok(*c),
{
    let n = c.inputs.len();
    if n < 2 {
        return false;
    }
    let mut i: usize = 0;
    while i + 1 < n
        invariant
            n == c.inputs@.len(),
            i < n,
            forall|j: int| 0 <= j < i ==> #[trigger] c.inputs@[j] < c.inputs@[j + 1],
        decreases n - i,
    {
        if c.inputs[i] >= c.inputs[i + 1] {
            return false;
        }
        i = i + 1;
    }
    proof {
        crate::animation::lemma_adjacent_implies_increasing(c.inputs@);
    }
    match &c.transformations {
        TransformationSet::Translations(v) => v.len() == n && check_vec3s(v),
        TransformationSet::Rotations(v) => v.len() == n && check_quats(v),
        TransformationSet::Scales(v) => v.len() == n && check_vec3s(v),
        TransformationSet::MorphTargetWeights(v) => v.len() == n && check_weights(v),
    }
}

/// Tree sizes never decrease as more trees are counted.
proof fn lemma_roots_size_mono(rs: Seq<NodeDesc>, a: int, b: int)
    requires
        0 <= a <= b,
    ensures
        roots_size(rs, a) <= roots_size(rs, b),
    decreases b,
{
    if a < b {
        lemma_roots_size_mono(rs, a, b - 1);
    }
}

/// Scene sizes never decrease as more scenes are counted.
proof fn lemma_scenes_size_mono(ds: Seq<SceneDesc>, a: int, b: int)
    requires
        0 <= a <= b,
    ensures
        scenes_size(ds, a) <= scenes_size(ds, b),
    decreases b,
{
    if a < b {
        lemma_scenes_size_mono(ds, a, b - 1);
        lemma_roots_size_mono(ds[b - 1].roots@, 0, ds[b - 1].roots@.len() as int);
    }
}

/// A tree never holds more meshed nodes than nodes.
proof fn lemma_graph_meshed_le(g: NodeGraph, upto: int)
    requires
        0 <= upto,
    ensures
        graph_meshed_count(g, upto) <= upto,
    decreases upto,
{
    if upto > 0 {
        lemma_graph_meshed_le(g, upto - 1);
    }
}

/// A scene built from descriptions holds no more meshed nodes than the
/// descriptions describe nodes.
proof fn lemma_scene_meshed_le(sc: Scene, rs: Seq<NodeDesc>, upto: int)
    requires
        0 <= upto <= sc.node_graphs@.len(),
        sc.node_graphs@.len() == rs.len(),
        forall|g: int|
            0 <= g < rs.len() ==> (#[trigger] sc.node_graphs@[g]).nodes@.len() == size_of(rs[g]),
    ensures
        scene_meshed_count(sc, upto) <= roots_size(rs, upto),
    decreases upto,
{
    if upto > 0 {
        lemma_scene_meshed_le(sc, rs, upto - 1);
        lemma_graph_meshed_le(
            sc.node_graphs@[upto - 1],
            sc.node_graphs@[upto - 1].nodes@.len() as int,
        );
    }
}

/// A forest built from descriptions holds no more meshed nodes than the
/// descriptions describe nodes.
proof fn lemma_scenes_meshed_le(ss: Seq<Scene>, ds: Seq<SceneDesc>, upto: int)
    requires
        0 <= upto <= ss.len(),
        ss.len() == ds.len(),
        forall|s: int|
            0 <= s < ds.len() ==> (#[trigger] ss[s]).node_graphs@.len() == ds[s].roots@.len(),
        forall|s: int, g: int|
            0 <= s < ds.len() && 0 <= g < ds[s].roots@.len() ==> (
            #[trigger] ss[s].node_graphs@[g]).nodes@.len() == size_of(ds[s].roots@[g]),
    ensures
        scenes_meshed_count(ss, upto) <= scenes_size(ds, upto),
    decreases upto,
{
    if upto > 0 {
        lemma_scenes_meshed_le(ss, ds, upto - 1);
        lemma_scene_meshed_le(
            ss[upto - 1],
            ds[upto - 1].roots@,
            ss[upto - 1].node_graphs@.len() as int,
        );
    }
}

/// A placement survives changes that leave every node the same, its mesh
/// id aside.
proof fn lemma_placed_same(
    n1: Seq<Node>,
    p1: Seq<Option<usize>>,
    n2: Seq<Node>,
    p2: Seq<Option<usize>>,
    d: NodeDesc,
    at: int,
    par: Option<usize>,
)
    requires
        placed(n1, p1, d, at, par),
        n2.len() == n1.len(),
        p2 == p1,
        forall|i: int| 0 <= i < n1.len() ==> node_same_but_mesh_id(#[trigger] n1[i], n2[i]),
    ensures
        placed(n2, p2, d, at, par),
    decreases d,
{
    assert(node_same_but_mesh_id(n1[at], n2[at]));
    lemma_placed_seq_same(n1, p1, n2, p2, d.children@, at + 1, at as usize);
}

/// A consecutive placement survives changes that leave every node the
/// same, its mesh id aside.
proof fn lemma_placed_seq_same(
    n1: Seq<Node>,
    p1: Seq<Option<usize>>,
    n2: Seq<Node>,
    p2: Seq<Option<usize>>,
    s: Seq<NodeDesc>,
    at: int,
    par: usize,
)
    requires
        placed_seq(n1, p1, s, at, par),
        n2.len() == n1.len(),
        p2 == p1,
        forall|i: int| 0 <= i < n1.len() ==> node_same_but_mesh_id(#[trigger] n1[i], n2[i]),
    ensures
        placed_seq(n2, p2, s, at, par),
    decreases s,
{
    if s.len() > 0 {
        lemma_placed_same(n1, p1, n2, p2, s[0], at, Some(par));
        lemma_placed_seq_same(n1, p1, n2, p2, s.drop_first(), at + size_of(s[0]), par);
    }
}

/// The asset `a` is the runtime form of the description `desc`: one tree
/// per top-level node per scene, laid out by recursive descent; dense mesh
/// ids; animations with fresh cursors and the clock at zero.
pub open spec fn built_from(a: GltfAsset, desc: AssetDesc) -> bool {
    &&& a.scenes@.len() == desc.scenes@.len()
    &&& forall|s: int|
        0 <= s < desc.scenes@.len() ==> (#[trigger] a.scenes@[s]).node_graphs@.len()
            == desc.scenes@[s].roots@.len()
    &&& forall|s: int, g: int|
        0 <= s < desc.scenes@.len() && 0 <= g < desc.scenes@[s].roots@.len() ==> {
            &&& graph_wf(#[trigger] a.scenes@[s].node_graphs@[g])
            &&& a.scenes@[s].node_graphs@[g].nodes@.len() == size_of(desc.scenes@[s].roots@[g])
            &&& placed(
                a.scenes@[s].node_graphs@[g].nodes@,
                a.scenes@[s].node_graphs@[g].parent@,
                desc.scenes@[s].roots@[g],
                0,
                None,
            )
        }
    &&& scenes_wf(a.scenes@)
    &&& ids_assigned(a.scenes@)
    &&& a.number_of_meshes as int == meshed_total(a.scenes@)
    &&& a.animations@.len() == desc.animations@.len()
    &&& forall|i: int|
        0 <= i < desc.animations@.len() ==> {
            &&& crate::animation::animation_wf(#[trigger] a.animations@[i])
            &&& a.animations@[i].time == 0
            &&& a.animations@[i].channels@.len() == desc.animations@[i].channels@.len()
        }
    &&& forall|i: int, c: int|
        0 <= i < desc.animations@.len() && 0 <= c < desc.animations@[i].channels@.len() ==> {
            &&& (#[trigger] a.animations@[i].channels@[c]).node_index == desc.animations@[i].channels@[c].node_index
            &&& a.animations@[i].channels@[c].inputs@ == desc.animations@[i].channels@[c].inputs@
            &&& a.animations@[i].channels@[c].transformations == desc.animations@[i].channels@[c].transformations
            &&& a.animations@[i].channels@[c].previous_key == 0
            &&& a.animations@[i].channels@[c].previous_time == 0
        }
}

impl GltfAsset {
    /// Build the runtime asset from a plain description: validate it,
    /// build one tree per top-level node per scene by recursive descent,
    /// then enumerate every meshed node in traversal order and hand out
    /// dense mesh ids, and set up every animation with its clock at zero.
    #[verifier::loop_isolation(false)]
    pub fn new(desc: AssetDesc) -> (r: Result<GltfAsset, AssetError>)
        ensures
            r is Ok <==> descs_wf(desc) && sizes_ok(desc) && channels_ok(desc),
            r matches Err(e) ==> {
                &&& (e == AssetError::InvalidNode <==> !descs_wf(desc))
                &&& (e == AssetError::SceneTooLarge <==> descs_wf(desc) && !sizes_ok(desc))
                &&& (e == AssetError::InvalidChannel <==> descs_wf(desc) && sizes_ok(desc)
                    && !channels_ok(desc))
            },
            r matches Ok(a) ==> built_from(a, desc),
    {
        let ghost gdesc = desc;
        // Validate every node description.
        let ns = desc.scenes.len();
        for s in 0..ns
            invariant
                forall|s2: int, r2: int|
                    0 <= s2 < s && 0 <= r2 < gdesc.scenes@[s2].roots@.len() ==> desc_wf(
                        #[trigger] gdesc.scenes@[s2].roots@[r2],
                    ),
        {
            let nr = desc.scenes[s].roots.len();
            for rt in 0..nr
                invariant
                    nr == gdesc.scenes@[s as int].roots@.len(),
                    forall|s2: int, r2: int|
                        0 <= s2 < s && 0 <= r2 < gdesc.scenes@[s2].roots@.len() ==> desc_wf(
                            #[trigger] gdesc.scenes@[s2].roots@[r2],
                        ),
                    forall|r2: int|
                        0 <= r2 < rt ==> desc_wf(#[trigger] gdesc.scenes@[s as int].roots@[r2]),
            {
                if !check_desc(&desc.scenes[s].roots[rt]) {
                    return Err(AssetError::InvalidNode);
                }
            }
        }
        assert(descs_wf(gdesc));
        // Validate the arena sizes.
        let mut total: usize = 0;
        for s in 0..ns
            invariant
                total as int == scenes_size(gdesc.scenes@, s as int),
                forall|s2: int, r2: int|
                    0 <= s2 < s && 0 <= r2 < gdesc.scenes@[s2].roots@.len() ==> size_of(
                        #[trigger] gdesc.scenes@[s2].roots@[r2],
                    ) <= usize::MAX,
        {
            let nr = desc.scenes[s].roots.len();
            for rt in 0..nr
                invariant
                    nr == gdesc.scenes@[s as int].roots@.len(),
                    total as int == scenes_size(gdesc.scenes@, s as int) + roots_size(
                        gdesc.scenes@[s as int].roots@,
                        rt as int,
                    ),
                    forall|s2: int, r2: int|
                        0 <= s2 < s && 0 <= r2 < gdesc.scenes@[s2].roots@.len() ==> size_of(
                            #[trigger] gdesc.scenes@[s2].roots@[r2],
                        ) <= usize::MAX,
                    forall|r2: int|
                        0 <= r2 < rt ==> size_of(#[trigger] gdesc.scenes@[s as int].roots@[r2])
                            <= usize::MAX,
            {
                let c = match count_nodes(&desc.scenes[s].roots[rt]) {
                    Some(c) => c,
                    None => {
                        return Err(AssetError::SceneTooLarge);
                    },
                };
                total = match total.checked_add(c) {
                    Some(t) => t,
                    None => {
                        proof {
                            lemma_roots_size_mono(
                                gdesc.scenes@[s as int].roots@,
                                rt + 1,
                                gdesc.scenes@[s as int].roots@.len() as int,
                            );
                            lemma_scenes_size_mono(gdesc.scenes@, s + 1, gdesc.scenes@.len() as int);
                        }
                        return Err(AssetError::SceneTooLarge);
                    },
                };
            }
        }
        assert(sizes_ok(gdesc));
        // Validate every channel.
        let na = desc.animations.len();
        for a in 0..na
            invariant
                forall|a2: int, c2: int|
                    0 <= a2 < a && 0 <= c2 < gdesc.animations@[a2].channels@.len()
                        ==> channel_desc_ok(#[trigger] gdesc.animations@[a2].channels@[c2]),
        {
            let nc = desc.animations[a].channels.len();
            for c in 0..nc
                invariant
                    nc == gdesc.animations@[a as int].channels@.len(),
                    forall|a2: int, c2: int|
                        0 <= a2 < a && 0 <= c2 < gdesc.animations@[a2].channels@.len()
                            ==> channel_desc_ok(#[trigger] gdesc.animations@[a2].channels@[c2]),
                    forall|c2: int|
                        0 <= c2 < c ==> channel_desc_ok(
                            #[trigger] gdesc.animations@[a as int].channels@[c2],
                        ),
            {
                if !check_channel(&desc.animations[a].channels[c]) {
                    return Err(AssetError::InvalidChannel);
                }
            }
        }
        assert(channels_ok(gdesc));
        // Build the scene forests by recursive descent.
        let AssetDesc { scenes: mut scene_descs, animations: mut anim_descs } = desc;
        let mut scenes: Vec<Scene> = Vec::new();
        proof {
            assert(scene_descs@ =~= gdesc.scenes@.skip(0));
        }
        while scene_descs.len() > 0
            invariant
                scenes@.len() + scene_descs@.len() == gdesc.scenes@.len(),
                scene_descs@ == gdesc.scenes@.skip(scenes@.len() as int),
                forall|s2: int|
                    0 <= s2 < scenes@.len() ==> (#[trigger] scenes@[s2]).node_graphs@.len()
                        == gdesc.scenes@[s2].roots@.len(),
                forall|s2: int, g2: int|
                    0 <= s2 < scenes@.len() && 0 <= g2 < gdesc.scenes@[s2].roots@.len() ==> {
                        &&& graph_wf(#[trigger] scenes@[s2].node_graphs@[g2])
                        &&& scenes@[s2].node_graphs@[g2].nodes@.len() == size_of(
                            gdesc.scenes@[s2].roots@[g2],
                        )
                        &&& placed(
                            scenes@[s2].node_graphs@[g2].nodes@,
                            scenes@[s2].node_graphs@[g2].parent@,
                            gdesc.scenes@[s2].roots@[g2],
                            0,
                            None,
                        )
                    },
            decreases scene_descs@.len(),
        {
            let ghost s_idx = scenes@.len() as int;
            let sd = scene_descs.remove(0);
            proof {
                assert(sd == gdesc.scenes@[s_idx]);
                assert(scene_descs@ =~= gdesc.scenes@.skip(s_idx + 1));
            }
            let mut graphs: Vec<NodeGraph> = Vec::new();
            let mut roots = sd.roots;
            proof {
                assert(roots@ =~= gdesc.scenes@[s_idx].roots@.skip(0));
            }
            while roots.len() > 0
                invariant
                    0 <= s_idx < gdesc.scenes@.len(),
                    graphs@.len() + roots@.len() == gdesc.scenes@[s_idx].roots@.len(),
                    roots@ == gdesc.scenes@[s_idx].roots@.skip(graphs@.len() as int),
                    forall|g2: int|
                        0 <= g2 < graphs@.len() ==> {
                            &&& graph_wf(#[trigger] graphs@[g2])
                            &&& graphs@[g2].nodes@.len() == size_of(gdesc.scenes@[s_idx].roots@[g2])
                            &&& placed(
                                graphs@[g2].nodes@,
                                graphs@[g2].parent@,
                                gdesc.scenes@[s_idx].roots@[g2],
                                0,
                                None,
                            )
                        },
                decreases roots@.len(),
            {
                let ghost g_idx = graphs@.len() as int;
                let rd = roots.remove(0);
                proof {
                    assert(rd == gdesc.scenes@[s_idx].roots@[g_idx]);
                    assert(roots@ =~= gdesc.scenes@[s_idx].roots@.skip(g_idx + 1));
                    assert(desc_wf(rd));
                    assert(size_of(rd) <= usize::MAX);
                }
                let g = crate::scene::build_graph(rd);
                graphs.push(g);
            }
            scenes.push(Scene { node_graphs: graphs });
        }
        // The dense enumeration fits: there are no more meshed nodes than
        // described nodes.
        proof {
            lemma_scenes_meshed_le(scenes@, gdesc.scenes@, scenes@.len() as int);
            lemma_scenes_size_mono(gdesc.scenes@, 0, gdesc.scenes@.len() as int);
        }
        let number_of_meshes = match count_meshes(&scenes) {
            Some(c) => c,
            None => {
                proof {
                    assert(false);
                }
                0
            },
        };
        let ghost pre_ids = scenes@;
        GltfAsset::update_ubo_indices(&mut scenes);
        proof {
            // Everything but the mesh ids is preserved, so well-formedness,
            // placement, and the meshed count all carry over.
            assert forall|s2: int, g2: int|
                0 <= s2 < scenes@.len() && 0 <= g2
                    < scenes@[s2].node_graphs@.len() implies graph_wf(
                #[trigger] scenes@[s2].node_graphs@[g2],
            ) && scenes@[s2].node_graphs@[g2].nodes@.len() == size_of(gdesc.scenes@[s2].roots@[g2])
                && placed(
                scenes@[s2].node_graphs@[g2].nodes@,
                scenes@[s2].node_graphs@[g2].parent@,
                gdesc.scenes@[s2].roots@[g2],
                0,
                None,
            ) by {
                let g1 = pre_ids[s2].node_graphs@[g2];
                let g2v = scenes@[s2].node_graphs@[g2];
                assert(graph_wf(g1));
                assert forall|n2: int| 0 <= n2 < g2v.nodes@.len() implies crate::scene::node_wf(
                    #[trigger] g2v.nodes@[n2],
                ) by {
                    assert(node_same_but_mesh_id(g1.nodes@[n2], g2v.nodes@[n2]));
                    assert(crate::scene::node_wf(g1.nodes@[n2]));
                }
                assert(graph_wf(g2v));
                lemma_placed_same(
                    g1.nodes@,
                    g1.parent@,
                    g2v.nodes@,
                    g2v.parent@,
                    gdesc.scenes@[s2].roots@[g2],
                    0,
                    None,
                );
            }
            lemma_scenes_count_shape(pre_ids, scenes@, scenes@.len() as int);
        }
        // Set up the animations with fresh cursors.
        let mut animations: Vec<Animation> = Vec::new();
        proof {
            assert(anim_descs@ =~= gdesc.animations@.skip(0));
        }
        while anim_descs.len() > 0
            invariant
                animations@.len() + anim_descs@.len() == gdesc.animations@.len(),
                anim_descs@ == gdesc.animations@.skip(animations@.len() as int),
                forall|i2: int|
                    0 <= i2 < animations@.len() ==> {
                        &&& crate::animation::animation_wf(#[trigger] animations@[i2])
                        &&& animations@[i2].time == 0
                        &&& animations@[i2].channels@.len()
                            == gdesc.animations@[i2].channels@.len()
                    },
                forall|i2: int, c2: int|
                    0 <= i2 < animations@.len() && 0 <= c2 < gdesc.animations@[i2].channels@.len()
                        ==> {
                        &&& (#[trigger] animations@[i2].channels@[c2]).node_index
                            == gdesc.animations@[i2].channels@[c2].node_index
                        &&& animations@[i2].channels@[c2].inputs@
                            == gdesc.animations@[i2].channels@[c2].inputs@
                        &&& animations@[i2].channels@[c2].transformations
                            == gdesc.animations@[i2].channels@[c2].transformations
                        &&& animations@[i2].channels@[c2].previous_key == 0
                        &&& animations@[i2].channels@[c2].previous_time == 0
                    },
            decreases anim_descs@.len(),
        {
            let ghost a_idx = animations@.len() as int;
            let ad = anim_descs.remove(0);
            proof {
                assert(ad == gdesc.animations@[a_idx]);
                assert(anim_descs@ =~= gdesc.animations@.skip(a_idx + 1));
            }
            let mut channels: Vec<Channel> = Vec::new();
            let mut cds = ad.channels;
            proof {
                assert(cds@ =~= gdesc.animations@[a_idx].channels@.skip(0));
            }
            while cds.len() > 0
                invariant
                    0 <= a_idx < gdesc.animations@.len(),
                    channels@.len() + cds@.len() == gdesc.animations@[a_idx].channels@.len(),
                    cds@ == gdesc.animations@[a_idx].channels@.skip(channels@.len() as int),
                    forall|c2: int|
                        0 <= c2 < channels@.len() ==> {
                            &&& crate::animation::channel_wf(#[trigger] channels@[c2])
                            &&& channels@[c2].node_index
                                == gdesc.animations@[a_idx].channels@[c2].node_index
                            &&& channels@[c2].inputs@
                                == gdesc.animations@[a_idx].channels@[c2].inputs@
                            &&& channels@[c2].transformations
                                == gdesc.animations@[a_idx].channels@[c2].transformations
                            &&& channels@[c2].previous_key == 0
                            &&& channels@[c2].previous_time == 0
                        },
                decreases cds@.len(),
            {
                let ghost c_idx = channels@.len() as int;
                let cd = cds.remove(0);
                proof {
                    assert(cd == gdesc.animations@[a_idx].channels@[c_idx]);
                    assert(cds@ =~= gdesc.animations@[a_idx].channels@.skip(c_idx + 1));
                    assert(channel_desc_ok(cd));
                }
                let ChannelDesc { node_index, inputs, transformations } = cd;
                channels.push(
                    Channel { node_index, inputs, transformations, previous_key: 0, previous_time: 0 },
                );
            }
            let m = crate::animation::max_time_of(&channels);
            animations.push(Animation { time: 0, channels, max_animation_time: m });
        }
        Ok(GltfAsset { scenes, animations, number_of_meshes })
    }
}

impl GltfAsset {
    /// The path of arena positions from `starting_node_index` down to
    /// `node_index`, both included, found by ascending the stored parent
    /// links. The start must lie on the target's root chain.
    pub fn path_between_nodes(
        starting_node_index: usize,
        node_index: usize,
        graph: &NodeGraph,
    ) -> (r: Vec<usize>)
        requires
            graph_wf(*graph),
            node_index < graph.nodes@.len(),
            starting_node_index < graph.nodes@.len(),
            crate::scene::on_path(*graph, starting_node_index as int, node_index as int),
        ensures
            crate::scene::idx_view(r@) == crate::scene::path_from(
                *graph,
                starting_node_index as int,
                node_index as int,
            ),
    {
        let ghost target_path = crate::scene::path_from(
            *graph,
            starting_node_index as int,
            node_index as int,
        );
        let mut indices: Vec<usize> = Vec::new();
        let mut cur = node_index;
        proof {
            assert(target_path =~= crate::scene::path_from(
                *graph,
                starting_node_index as int,
                cur as int,
            ) + crate::scene::idx_view(indices@));
        }
        loop
            invariant_except_break
                cur < graph.nodes@.len(),
                crate::scene::on_path(*graph, starting_node_index as int, cur as int),
                target_path == crate::scene::path_from(
                    *graph,
                    starting_node_index as int,
                    cur as int,
                ) + crate::scene::idx_view(indices@),
            invariant
                graph_wf(*graph),
                starting_node_index < graph.nodes@.len(),
                node_index < graph.nodes@.len(),
                target_path == crate::scene::path_from(
                    *graph,
                    starting_node_index as int,
                    node_index as int,
                ),
            ensures
                crate::scene::idx_view(indices@) == target_path,
            decreases cur,
        {
            let ghost pre = indices@;
            indices.insert(0, cur);
            proof {
                assert(crate::scene::idx_view(indices@) =~= seq![cur as int]
                    + crate::scene::idx_view(pre));
            }
            if cur == starting_node_index {
                proof {
                    assert(crate::scene::path_from(
                        *graph,
                        starting_node_index as int,
                        cur as int,
                    ) == seq![starting_node_index as int]);
                    assert(crate::scene::idx_view(indices@) =~= target_path);
                }
                break;
            }
            proof {
                assert(graph.parent@[cur as int] is Some);
            }
            let p = match graph.parent[cur] {
                Some(p) => p,
                None => {
                    proof {
                        assert(false);
                    }
                    0
                },
            };
            proof {
                assert(crate::scene::path_from(*graph, starting_node_index as int, cur as int)
                    == crate::scene::path_from(*graph, starting_node_index as int, p as int).push(
                    cur as int,
                ));
                assert(crate::scene::path_from(*graph, starting_node_index as int, p as int).push(
                    cur as int,
                ) + crate::scene::idx_view(pre) =~= crate::scene::path_from(
                    *graph,
                    starting_node_index as int,
                    p as int,
                ) + crate::scene::idx_view(indices@));
            }
            cur = p;
        }
        indices
    }

    /// The accumulated world transform of a node: ascend to the root,
    /// then fold `acc * local_transform * override_matrix` along the
    /// root-to-node path, starting from the identity.
    #[verifier::loop_isolation(false)]
    #[verifier::rlimit(30)]
    pub fn calculate_global_transform(node_index: usize, graph: &NodeGraph) -> (r: Mat4)
        requires
            graph_wf(*graph),
            node_index < graph.nodes@.len(),
        ensures
            r@ == crate::scene::global_transform(*graph, node_index as int),
            r.wf(),
    {
        proof {
            crate::scene::lemma_root_on_path(*graph, node_index as int);
            crate::scene::lemma_path_from_props(*graph, 0, node_index as int);
            crate::scene::lemma_global_transform_is_path_product(*graph, node_index as int);
        }
        let indices = Self::path_between_nodes(0, node_index, graph);
        let ghost p = crate::scene::path_from(*graph, 0, node_index as int);
        let mut transform = Mat4::identity();
        proof {
            assert(p.skip(0) =~= p);
        }
        let n = indices.len();
        for i in 0..n
            invariant
                n == indices@.len(),
                crate::scene::idx_view(indices@) == p,
                transform.wf(),
                crate::scene::fold_path(*graph, p, crate::mat4::mat_identity())
                    == crate::scene::fold_path(*graph, p.skip(i as int), transform@),
        {
            let idx = indices[i];
            proof {
                assert(p[i as int] == idx as int);
                assert(0 <= p[i as int] < graph.nodes@.len());
                assert(crate::scene::node_wf(graph.nodes@[idx as int]));
            }
            let local = transform.mul(&graph.nodes[idx].local_transform);
            let anim = graph.nodes[idx].animation_transform.matrix();
            transform = local.mul(&anim);
            proof {
                assert(p.skip(i as int).drop_first() =~= p.skip(i + 1));
                assert(p.skip(i as int)[0] == p[i as int]);
            }
        }
        proof {
            assert(p.skip(n as int) =~= Seq::<int>::empty());
        }
        transform
    }
}

/// The asset is well-formed: every tree and every animation is.
pub open spec fn asset_wf(a: GltfAsset) -> bool {
    &&& scenes_wf(a.scenes@)
    &&& forall|i: int| 0 <= i < a.animations@.len() ==> animation_wf(#[trigger] a.animations@[i])
}

/// The samples one animation yields when its clock advances by `delta`.
pub open spec fn outputs_of_animation(a: Animation, delta: int) -> Seq<ChannelSample> {
    let t = clip_time_after(a.time as int, delta, a.max_animation_time as int);
    Seq::new(
        a.channels@.len(),
        |i: int|
            ChannelSample {
                node_index: a.channels@[i].node_index,
                output: channel_output(
                    a.channels@[i].transformations,
                    a.channels@[i].inputs@,
                    channel_time(a.channels@[i].inputs@, t),
                ),
            },
    )
}

/// The samples all animations yield, in animation order.
pub open spec fn outputs_of_asset(anims: Seq<Animation>, delta: int) -> Seq<ChannelSample>
    decreases anims.len(),
{
    if anims.len() == 0 {
        Seq::empty()
    } else {
        outputs_of_asset(anims.drop_last(), delta) + outputs_of_animation(anims.last(), delta)
    }
}

/// Write one sampled value into an override when it targets the node;
/// morph weights have no consumer and leave the override unchanged.
pub open spec fn apply_sample(t: Transform, s: ChannelSample, idx: int) -> Transform {
    if s.node_index as int == idx {
        match s.output {
            ChannelOutput::Translation(v) => Transform {
                translation: Some(v),
                rotation: t.rotation,
                scale: t.scale,
            },
            ChannelOutput::Rotation(q) => Transform {
                translation: t.translation,
                rotation: Some(q),
                scale: t.scale,
            },
            ChannelOutput::Scale(v) => Transform {
                translation: t.translation,
                rotation: t.rotation,
                scale: Some(v),
            },
            ChannelOutput::MorphWeight(_) => t,
        }
    } else {
        t
    }
}

/// Fold a whole sample sequence, in order, into one node's override.
pub open spec fn apply_samples(t: Transform, ss: Seq<ChannelSample>, idx: int) -> Transform
    decreases ss.len(),
{
    if ss.len() == 0 {
        t
    } else {
        apply_sample(apply_samples(t, ss.drop_last(), idx), ss.last(), idx)
    }
}

/// Fold all sampled values, in order, into one node's override.
fn apply_outputs(t0: Transform, outs: &Vec<ChannelSample>, idx: usize) -> (t: Transform)
    requires
        transform_wf(t0),
        forall|i: int| 0 <= i < outs@.len() ==> output_wf((#[trigger] outs@[i]).output),
    ensures
        t == apply_samples(t0, outs@, idx as int),
        transform_wf(t),
{
    let mut t = t0;
    let n = outs.len();
    proof {
        assert(outs@.take(0) =~= Seq::<ChannelSample>::empty());
    }
    for i in 0..n
        invariant
            n == outs@.len(),
            transform_wf(t0),
            forall|k: int| 0 <= k < outs@.len() ==> output_wf((#[trigger] outs@[k]).output),
            t == apply_samples(t0, outs@.take(i as int), idx as int),
            transform_wf(t),
    {
        let s = outs[i];
        if s.node_index == idx {
            match s.output {
                ChannelOutput::Translation(v) => {
                    t = Transform { translation: Some(v), rotation: t.rotation, scale: t.scale };
                },
                ChannelOutput::Rotation(q) => {
                    t = Transform { translation: t.translation, rotation: Some(q), scale: t.scale };
                },
                ChannelOutput::Scale(v) => {
                    t = Transform { translation: t.translation, rotation: t.rotation, scale: Some(v) };
                },
                ChannelOutput::MorphWeight(_) => {},
            }
        }
        proof {
            assert(outs@.take(i + 1).drop_last() =~= outs@.take(i as int));
            assert(outs@.take(i + 1).last() == outs@[i as int]);
        }
    }
    proof {
        assert(outs@.take(n as int) =~= outs@);
    }
    t
}

impl GltfAsset {
    /// Advance every animation's clock by `delta` ticks, sample every
    /// channel at the new time, and write each sampled value into the
    /// override of every node whose asset index the channel targets,
    /// animation by animation, channel by channel.
    #[verifier::loop_isolation(false)]
    pub fn animate(&mut self, delta: u32)
        requires
            asset_wf(*old(self)),
        ensures
            asset_wf(*final(self)),
            final(self).number_of_meshes == old(self).number_of_meshes,
            final(self).animations@.len() == old(self).animations@.len(),
            forall|i: int|
                0 <= i < old(self).animations@.len() ==> {
                    &&& (#[trigger] final(self).animations@[i]).time as int == clip_time_after(
                        old(self).animations@[i].time as int,
                        delta as int,
                        old(self).animations@[i].max_animation_time as int,
                    )
                    &&& final(self).animations@[i].max_animation_time == old(
                        self,
                    ).animations@[i].max_animation_time
                    &&& final(self).animations@[i].channels@.len() == old(
                        self,
                    ).animations@[i].channels@.len()
                },
            forall|i: int, c: int|
                0 <= i < old(self).animations@.len() && 0 <= c < old(
                    self,
                ).animations@[i].channels@.len() ==> {
                    &&& (#[trigger] final(self).animations@[i].channels@[c]).node_index == old(
                        self,
                    ).animations@[i].channels@[c].node_index
                    &&& final(self).animations@[i].channels@[c].inputs@ == old(
                        self,
                    ).animations@[i].channels@[c].inputs@
                    &&& final(self).animations@[i].channels@[c].transformations == old(
                        self,
                    ).animations@[i].channels@[c].transformations
                },
            final(self).scenes@.len() == old(self).scenes@.len(),
            forall|s: int|
                0 <= s < old(self).scenes@.len() ==> (#[trigger] final(self).scenes@[s]).node_graphs@.len() == old(self).scenes@[s].node_graphs@.len(),
            forall|s: int, g: int|
                0 <= s < old(self).scenes@.len() && 0 <= g < old(
                    self,
                ).scenes@[s].node_graphs@.len() ==> {
                    &&& (#[trigger] final(self).scenes@[s].node_graphs@[g]).nodes@.len() == old(
                        self,
                    ).scenes@[s].node_graphs@[g].nodes@.len()
                    &&& final(self).scenes@[s].node_graphs@[g].parent@ == old(
                        self,
                    ).scenes@[s].node_graphs@[g].parent@
                },
            forall|s: int, g: int, n: int|
                0 <= s < old(self).scenes@.len() && 0 <= g < old(
                    self,
                ).scenes@[s].node_graphs@.len() && 0 <= n < old(
                    self,
                ).scenes@[s].node_graphs@[g].nodes@.len() ==> {
                    &&& (#[trigger] final(self).scenes@[s].node_graphs@[g].nodes@[n]).index == old(
                        self,
                    ).scenes@[s].node_graphs@[g].nodes@[n].index
                    &&& final(self).scenes@[s].node_graphs@[g].nodes@[n].local_transform@ == old(
                        self,
                    ).scenes@[s].node_graphs@[g].nodes@[n].local_transform@
                    &&& final(self).scenes@[s].node_graphs@[g].nodes@[n].mesh == old(
                        self,
                    ).scenes@[s].node_graphs@[g].nodes@[n].mesh
                    &&& final(self).scenes@[s].node_graphs@[g].nodes@[n].animation_transform
                        == apply_samples(
                        old(self).scenes@[s].node_graphs@[g].nodes@[n].animation_transform,
                        outputs_of_asset(old(self).animations@, delta as int),
                        old(self).scenes@[s].node_graphs@[g].nodes@[n].index as int,
                    )
                },
    {
        let mut outs_all: Vec<ChannelSample> = Vec::new();
        proof {
            assert(old(self).animations@.take(0) =~= Seq::<Animation>::empty());
        }
        let na = self.animations.len();
        for a in 0..na
            invariant
                self.scenes == old(self).scenes,
                self.number_of_meshes == old(self).number_of_meshes,
                na == self.animations@.len(),
                forall|j: int| a <= j < na ==> self.animations@[j] == old(self).animations@[j],
                forall|j: int|
                    0 <= j < a ==> {
                        &&& animation_wf(#[trigger] self.animations@[j])
                        &&& self.animations@[j].time as int == clip_time_after(
                            old(self).animations@[j].time as int,
                            delta as int,
                            old(self).animations@[j].max_animation_time as int,
                        )
                        &&& self.animations@[j].max_animation_time == old(
                            self,
                        ).animations@[j].max_animation_time
                        &&& self.animations@[j].channels@.len() == old(
                            self,
                        ).animations@[j].channels@.len()
                    },
                forall|j: int, c: int|
                    0 <= j < a && 0 <= c < old(self).animations@[j].channels@.len() ==> {
                        &&& (#[trigger] self.animations@[j].channels@[c]).node_index == old(
                            self,
                        ).animations@[j].channels@[c].node_index
                        &&& self.animations@[j].channels@[c].inputs@ == old(
                            self,
                        ).animations@[j].channels@[c].inputs@
                        &&& self.animations@[j].channels@[c].transformations == old(
                            self,
                        ).animations@[j].channels@[c].transformations
                    },
                outs_all@ == outputs_of_asset(old(self).animations@.take(a as int), delta as int),
                forall|k: int|
                    0 <= k < outs_all@.len() ==> output_wf((#[trigger] outs_all@[k]).output),
        {
            let mut outs = self.animations[a].sample(delta);
            proof {
                assert(outs@ =~= outputs_of_animation(old(self).animations@[a as int], delta as int));
                assert(old(self).animations@.take(a + 1).drop_last() =~= old(
                    self,
                ).animations@.take(a as int));
                assert(old(self).animations@.take(a + 1).last() == old(self).animations@[a as int]);
            }
            outs_all.append(&mut outs);
        }
        proof {
            assert(old(self).animations@.take(na as int) =~= old(self).animations@);
        }
        let ghost all = outputs_of_asset(old(self).animations@, delta as int);
        let ghost anims_done = self.animations@;
        let ns = self.scenes.len();
        for s in 0..ns
            invariant
                ns == old(self).scenes@.len(),
                self.scenes@.len() == ns,
                self.animations@ == anims_done,
                self.number_of_meshes == old(self).number_of_meshes,
                outs_all@ == all,
                forall|k: int|
                    0 <= k < outs_all@.len() ==> output_wf((#[trigger] outs_all@[k]).output),
                forall|s2: int|
                    0 <= s2 < ns ==> (#[trigger] self.scenes@[s2]).node_graphs@.len() == old(
                        self,
                    ).scenes@[s2].node_graphs@.len(),
                forall|s2: int, g2: int|
                    0 <= s2 < ns && 0 <= g2 < old(self).scenes@[s2].node_graphs@.len() ==> {
                        &&& (#[trigger] self.scenes@[s2].node_graphs@[g2]).nodes@.len() == old(
                            self,
                        ).scenes@[s2].node_graphs@[g2].nodes@.len()
                        &&& self.scenes@[s2].node_graphs@[g2].parent@ == old(
                            self,
                        ).scenes@[s2].node_graphs@[g2].parent@
                    },
                forall|s2: int, g2: int, n2: int|
                    s <= s2 < ns && 0 <= g2 < old(self).scenes@[s2].node_graphs@.len() && 0 <= n2
                        < old(self).scenes@[s2].node_graphs@[g2].nodes@.len() ==> (
                    #[trigger] self.scenes@[s2].node_graphs@[g2].nodes@[n2]) == old(
                        self,
                    ).scenes@[s2].node_graphs@[g2].nodes@[n2],
                forall|s2: int, g2: int, n2: int|
                    0 <= s2 < s && 0 <= g2 < old(self).scenes@[s2].node_graphs@.len() && 0 <= n2
                        < old(self).scenes@[s2].node_graphs@[g2].nodes@.len() ==> node_animated(
                        #[trigger] old(self).scenes@[s2].node_graphs@[g2].nodes@[n2],
                        self.scenes@[s2].node_graphs@[g2].nodes@[n2],
                        all,
                    ),
        {
            let ng = self.scenes[s].node_graphs.len();
            for g in 0..ng
                invariant
                    ns == old(self).scenes@.len(),
                    s < ns,
                    ng == old(self).scenes@[s as int].node_graphs@.len(),
                    self.scenes@.len() == ns,
                    self.animations@ == anims_done,
                    self.number_of_meshes == old(self).number_of_meshes,
                    outs_all@ == all,
                    forall|k: int|
                        0 <= k < outs_all@.len() ==> output_wf((#[trigger] outs_all@[k]).output),
                    forall|s2: int|
                        0 <= s2 < ns ==> (#[trigger] self.scenes@[s2]).node_graphs@.len() == old(
                            self,
                        ).scenes@[s2].node_graphs@.len(),
                    forall|s2: int, g2: int|
                        0 <= s2 < ns && 0 <= g2 < old(self).scenes@[s2].node_graphs@.len() ==> {
                            &&& (#[trigger] self.scenes@[s2].node_graphs@[g2]).nodes@.len() == old(
                                self,
                            ).scenes@[s2].node_graphs@[g2].nodes@.len()
                            &&& self.scenes@[s2].node_graphs@[g2].parent@ == old(
                                self,
                            ).scenes@[s2].node_graphs@[g2].parent@
                        },
                    forall|s2: int, g2: int, n2: int|
                        0 <= s2 < ns && 0 <= g2 < old(self).scenes@[s2].node_graphs@.len() && 0
                            <= n2 < old(self).scenes@[s2].node_graphs@[g2].nodes@.len() && (s2 > s
                            || (s2 == s && g2 >= g)) ==> (
                        #[trigger] self.scenes@[s2].node_graphs@[g2].nodes@[n2]) == old(
                            self,
                        ).scenes@[s2].node_graphs@[g2].nodes@[n2],
                    forall|s2: int, g2: int, n2: int|
                        0 <= s2 < ns && 0 <= g2 < old(self).scenes@[s2].node_graphs@.len() && 0
                            <= n2 < old(self).scenes@[s2].node_graphs@[g2].nodes@.len() && (s2 < s
                            || (s2 == s && g2 < g)) ==> node_animated(
                            #[trigger] old(self).scenes@[s2].node_graphs@[g2].nodes@[n2],
                            self.scenes@[s2].node_graphs@[g2].nodes@[n2],
                            all,
                        ),
            {
                let nn = self.scenes[s].node_graphs[g].nodes.len();
                for n in 0..nn
                    invariant
                        ns == old(self).scenes@.len(),
                        s < ns,
                        ng == old(self).scenes@[s as int].node_graphs@.len(),
                        g < ng,
                        nn == old(self).scenes@[s as int].node_graphs@[g as int].nodes@.len(),
                        self.scenes@.len() == ns,
                        self.animations@ == anims_done,
                        self.number_of_meshes == old(self).number_of_meshes,
                        outs_all@ == all,
                        forall|k: int|
                            0 <= k < outs_all@.len() ==> output_wf(
                                (#[trigger] outs_all@[k]).output,
                            ),
                        forall|s2: int|
                            0 <= s2 < ns ==> (#[trigger] self.scenes@[s2]).node_graphs@.len()
                                == old(self).scenes@[s2].node_graphs@.len(),
                        forall|s2: int, g2: int|
                            0 <= s2 < ns && 0 <= g2 < old(self).scenes@[s2].node_graphs@.len()
                                ==> {
                                &&& (#[trigger] self.scenes@[s2].node_graphs@[g2]).nodes@.len()
                                    == old(self).scenes@[s2].node_graphs@[g2].nodes@.len()
                                &&& self.scenes@[s2].node_graphs@[g2].parent@ == old(
                                    self,
                                ).scenes@[s2].node_graphs@[g2].parent@
                            },
                        forall|s2: int, g2: int, n2: int|
                            0 <= s2 < ns && 0 <= g2 < old(self).scenes@[s2].node_graphs@.len() && 0
                                <= n2 < old(self).scenes@[s2].node_graphs@[g2].nodes@.len() && (s2
                                > s || (s2 == s && g2 > g) || (s2 == s && g2 == g && n2 >= n)) ==> (
                            #[trigger] self.scenes@[s2].node_graphs@[g2].nodes@[n2]) == old(
                                self,
                            ).scenes@[s2].node_graphs@[g2].nodes@[n2],
                        forall|s2: int, g2: int, n2: int|
                            0 <= s2 < ns && 0 <= g2 < old(self).scenes@[s2].node_graphs@.len() && 0
                                <= n2 < old(self).scenes@[s2].node_graphs@[g2].nodes@.len() && (s2
                                < s || (s2 == s && g2 < g) || (s2 == s && g2 == g && n2 < n))
                                ==> node_animated(
                                #[trigger] old(self).scenes@[s2].node_graphs@[g2].nodes@[n2],
                                self.scenes@[s2].node_graphs@[g2].nodes@[n2],
                                all,
                            ),
                {
                    proof {
                        assert(self.scenes@[s as int].node_graphs@[g as int].nodes@[n as int]
                            == old(self).scenes@[s as int].node_graphs@[g as int].nodes@[n as int]);
                        assert(crate::scene::node_wf(
                            old(self).scenes@[s as int].node_graphs@[g as int].nodes@[n as int],
                        ));
                    }
                    let idx = self.scenes[s].node_graphs[g].nodes[n].index;
                    let t0 = self.scenes[s].node_graphs[g].nodes[n].animation_transform;
                    let t1 = apply_outputs(t0, &outs_all, idx);
                    self.scenes[s].node_graphs[g].nodes[n].animation_transform = t1;
                }
            }
        }
        proof {
            assert forall|s2: int, g2: int|
                0 <= s2 < self.scenes@.len() && 0 <= g2
                    < self.scenes@[s2].node_graphs@.len() implies graph_wf(
                #[trigger] self.scenes@[s2].node_graphs@[g2],
            ) by {
                let g1 = old(self).scenes@[s2].node_graphs@[g2];
                let gv = self.scenes@[s2].node_graphs@[g2];
                assert(graph_wf(g1));
                assert forall|n2: int| 0 <= n2 < gv.nodes@.len() implies crate::scene::node_wf(
                    #[trigger] gv.nodes@[n2],
                ) by {
                    assert(node_animated(g1.nodes@[n2], gv.nodes@[n2], all));
                    assert(crate::scene::node_wf(g1.nodes@[n2]));
                }
            }
        }
    }
}

/// The node's override was rewritten by folding the sampled values in; the
/// rest of the node is untouched, and the new override is within bounds.
pub open spec fn node_animated(a: Node, b: Node, all: Seq<ChannelSample>) -> bool {
    &&& b.index == a.index
    &&& b.local_transform@ == a.local_transform@
    &&& b.mesh == a.mesh
    &&& b.animation_transform == apply_samples(a.animation_transform, all, a.index as int)
    &&& transform_wf(b.animation_transform)
}

/// Position `(s1, g1, n1)` comes strictly before `(s2, g2, n2)` in the
/// traversal order.
pub open spec fn walk_before(s1: int, g1: int, n1: int, s2: int, g2: int, n2: int) -> bool {
    ||| s1 < s2
    ||| (s1 == s2 && g1 < g2)
    ||| (s1 == s2 && g1 == g2 && n1 < n2)
}

/// A meshed node strictly earlier in the traversal order is counted
/// strictly earlier.
pub proof fn lemma_meshed_before_ordered(
    ss: Seq<Scene>,
    s1: int,
    g1: int,
    n1: int,
    s2: int,
    g2: int,
    n2: int,
)
    requires
        0 <= s1 < ss.len(),
        0 <= g1 < ss[s1].node_graphs@.len(),
        0 <= n1 < ss[s1].node_graphs@[g1].nodes@.len(),
        0 <= s2 < ss.len(),
        0 <= g2 < ss[s2].node_graphs@.len(),
        0 <= n2 < ss[s2].node_graphs@[g2].nodes@.len(),
        ss[s1].node_graphs@[g1].nodes@[n1].mesh is Some,
        walk_before(s1, g1, n1, s2, g2, n2),
    ensures
        meshed_before(ss, s1, g1, n1) < meshed_before(ss, s2, g2, n2),
{
    if s1 < s2 {
        lemma_graph_count_mono(ss[s1].node_graphs@[g1], n1 + 1, ss[s1].node_graphs@[g1].nodes@.len() as int);
        lemma_scene_count_mono(ss[s1], g1 + 1, ss[s1].node_graphs@.len() as int);
        lemma_scenes_count_mono(ss, s1 + 1, s2);
        lemma_scene_count_mono(ss[s2], 0, g2);
        lemma_graph_count_mono(ss[s2].node_graphs@[g2], 0, n2);
    } else if g1 < g2 {
        lemma_graph_count_mono(ss[s1].node_graphs@[g1], n1 + 1, ss[s1].node_graphs@[g1].nodes@.len() as int);
        lemma_scene_count_mono(ss[s1], g1 + 1, g2);
        lemma_graph_count_mono(ss[s2].node_graphs@[g2], 0, n2);
    } else {
        lemma_graph_count_mono(ss[s1].node_graphs@[g1], n1 + 1, n2);
    }
}

/// Law: the dense mesh ids are unique and bounded. A meshed node earlier
/// in the traversal order carries a strictly smaller id, and every id lies
/// below the meshed-node total.
pub proof fn lemma_mesh_ids_dense_unique(ss: Seq<Scene>)
    requires
        ids_assigned(ss),
    ensures
        forall|s: int, g: int, n: int|
            0 <= s < ss.len() && 0 <= g < ss[s].node_graphs@.len() && 0 <= n
                < ss[s].node_graphs@[g].nodes@.len() && (
            #[trigger] ss[s].node_graphs@[g].nodes@[n].mesh) is Some ==> 0
                <= ss[s].node_graphs@[g].nodes@[n].mesh->0.mesh_id < meshed_total(ss),
        forall|s1: int, g1: int, n1: int, s2: int, g2: int, n2: int|
            #![trigger ss[s1].node_graphs@[g1].nodes@[n1].mesh, ss[s2].node_graphs@[g2].nodes@[n2].mesh]
            0 <= s1 < ss.len() && 0 <= g1 < ss[s1].node_graphs@.len() && 0 <= n1
                < ss[s1].node_graphs@[g1].nodes@.len() && 0 <= s2 < ss.len() && 0 <= g2
                < ss[s2].node_graphs@.len() && 0 <= n2 < ss[s2].node_graphs@[g2].nodes@.len()
                && ss[s1].node_graphs@[g1].nodes@[n1].mesh is Some
                && ss[s2].node_graphs@[g2].nodes@[n2].mesh is Some && walk_before(
                s1,
                g1,
                n1,
                s2,
                g2,
                n2,
            ) ==> ss[s1].node_graphs@[g1].nodes@[n1].mesh->0.mesh_id
                < ss[s2].node_graphs@[g2].nodes@[n2].mesh->0.mesh_id,
{
    assert forall|s: int, g: int, n: int|
        0 <= s < ss.len() && 0 <= g < ss[s].node_graphs@.len() && 0 <= n
            < ss[s].node_graphs@[g].nodes@.len() && (
        #[trigger] ss[s].node_graphs@[g].nodes@[n].mesh) is Some implies 0
        <= ss[s].node_graphs@[g].nodes@[n].mesh->0.mesh_id < meshed_total(ss) by {
        lemma_meshed_before_lt_total(ss, s, g, n);
    }
    assert forall|s1: int, g1: int, n1: int, s2: int, g2: int, n2: int|
        #![trigger ss[s1].node_graphs@[g1].nodes@[n1].mesh, ss[s2].node_graphs@[g2].nodes@[n2].mesh]
        0 <= s1 < ss.len() && 0 <= g1 < ss[s1].node_graphs@.len() && 0 <= n1
            < ss[s1].node_graphs@[g1].nodes@.len() && 0 <= s2 < ss.len() && 0 <= g2
            < ss[s2].node_graphs@.len() && 0 <= n2 < ss[s2].node_graphs@[g2].nodes@.len()
            && ss[s1].node_graphs@[g1].nodes@[n1].mesh is Some
            && ss[s2].node_graphs@[g2].nodes@[n2].mesh is Some && walk_before(
            s1,
            g1,
            n1,
            s2,
            g2,
            n2,
        ) implies ss[s1].node_graphs@[g1].nodes@[n1].mesh->0.mesh_id
        < ss[s2].node_graphs@[g2].nodes@[n2].mesh->0.mesh_id by {
        lemma_meshed_before_ordered(ss, s1, g1, n1, s2, g2, n2);
    }
}

/// Locate the scene whose meshed range covers rank `j`.
proof fn lemma_find_scene(ss: Seq<Scene>, j: int, upto: int)
    requires
        0 <= upto <= ss.len(),
        0 <= j < scenes_meshed_count(ss, upto),
    ensures
        exists|s: int|
            0 <= s < upto && #[trigger] scenes_meshed_count(ss, s) <= j < scenes_meshed_count(
                ss,
                s,
            ) + scene_meshed_count(ss[s], ss[s].node_graphs@.len() as int),
    decreases upto,
{
    if j >= scenes_meshed_count(ss, upto - 1) {
        assert(scenes_meshed_count(ss, upto - 1) <= j < scenes_meshed_count(ss, upto - 1)
            + scene_meshed_count(
            ss[upto - 1],
            ss[upto - 1].node_graphs@.len() as int,
        ));
    } else {
        lemma_find_scene(ss, j, upto - 1);
    }
}

/// Locate the tree whose meshed range covers rank `j` within a scene.
proof fn lemma_find_graph(sc: Scene, j: int, upto: int)
    requires
        0 <= upto <= sc.node_graphs@.len(),
        0 <= j < scene_meshed_count(sc, upto),
    ensures
        exists|g: int|
            0 <= g < upto && #[trigger] scene_meshed_count(sc, g) <= j < scene_meshed_count(sc, g)
                + graph_meshed_count(sc.node_graphs@[g], sc.node_graphs@[g].nodes@.len() as int),
    decreases upto,
{
    if j >= scene_meshed_count(sc, upto - 1) {
        assert(scene_meshed_count(sc, upto - 1) <= j < scene_meshed_count(sc, upto - 1)
            + graph_meshed_count(
            sc.node_graphs@[upto - 1],
            sc.node_graphs@[upto - 1].nodes@.len() as int,
        ));
    } else {
        lemma_find_graph(sc, j, upto - 1);
    }
}

/// Locate the meshed node of rank `j` within a tree.
proof fn lemma_find_node(gr: NodeGraph, j: int, upto: int)
    requires
        0 <= upto <= gr.nodes@.len(),
        0 <= j < graph_meshed_count(gr, upto),
    ensures
        exists|n: int|
            0 <= n < upto && (#[trigger] gr.nodes@[n].mesh) is Some && graph_meshed_count(gr, n)
                == j,
    decreases upto,
{
    if j >= graph_meshed_count(gr, upto - 1) {
        assert(gr.nodes@[upto - 1].mesh is Some && graph_meshed_count(gr, upto - 1) == j);
    } else {
        lemma_find_node(gr, j, upto - 1);
    }
}

/// Law: the dense mesh ids cover every rank: for each `j` below the
/// meshed-node total some meshed node carries id `j`. Together with
/// uniqueness, the ids of `N` meshed nodes are exactly `0 .. N`.
pub proof fn lemma_mesh_ids_cover(ss: Seq<Scene>, j: int)
    requires
        ids_assigned(ss),
        0 <= j < meshed_total(ss),
    ensures
        exists|s: int, g: int, n: int|
            {
                &&& 0 <= s < ss.len()
                &&& 0 <= g < ss[s].node_graphs@.len()
                &&& 0 <= n < ss[s].node_graphs@[g].nodes@.len()
                &&& (#[trigger] ss[s].node_graphs@[g].nodes@[n].mesh) is Some
                &&& ss[s].node_graphs@[g].nodes@[n].mesh->0.mesh_id == j
            },
{
    lemma_find_scene(ss, j, ss.len() as int);
    let s = choose|s: int|
        0 <= s < ss.len() && #[trigger] scenes_meshed_count(ss, s) <= j < scenes_meshed_count(
            ss,
            s,
        ) + scene_meshed_count(ss[s], ss[s].node_graphs@.len() as int);
    let j2 = j - scenes_meshed_count(ss, s);
    lemma_find_graph(ss[s], j2, ss[s].node_graphs@.len() as int);
    let g = choose|g: int|
        0 <= g < ss[s].node_graphs@.len() && #[trigger] scene_meshed_count(ss[s], g) <= j2
            < scene_meshed_count(ss[s], g) + graph_meshed_count(
            ss[s].node_graphs@[g],
            ss[s].node_graphs@[g].nodes@.len() as int,
        );
    let j3 = j2 - scene_meshed_count(ss[s], g);
    lemma_find_node(ss[s].node_graphs@[g], j3, ss[s].node_graphs@[g].nodes@.len() as int);
    let n = choose|n: int|
        0 <= n < ss[s].node_graphs@[g].nodes@.len() && (#[trigger] ss[s].node_graphs@[g].nodes@[n].mesh)
            is Some && graph_meshed_count(ss[s].node_graphs@[g], n) == j3;
    assert(ss[s].node_graphs@[g].nodes@[n].mesh->0.mesh_id == j);
}

/// Law: the dense enumeration is stable. Over two forests of the same
/// shape — in particular, the same forest enumerated twice — every meshed
/// node receives the same id.
pub proof fn lemma_mesh_ids_stable(ss1: Seq<Scene>, ss2: Seq<Scene>)
    requires
        ids_assigned(ss1),
        ids_assigned(ss2),
        same_shape(ss1, ss2),
    ensures
        forall|s: int, g: int, n: int|
            0 <= s < ss1.len() && 0 <= g < ss1[s].node_graphs@.len() && 0 <= n
                < ss1[s].node_graphs@[g].nodes@.len() && (
            #[trigger] ss1[s].node_graphs@[g].nodes@[n].mesh) is Some
                ==> ss1[s].node_graphs@[g].nodes@[n].mesh->0.mesh_id == ss2[s].node_graphs@[g].nodes@[n].mesh->0.mesh_id,
{
    assert forall|s: int, g: int, n: int|
        0 <= s < ss1.len() && 0 <= g < ss1[s].node_graphs@.len() && 0 <= n
            < ss1[s].node_graphs@[g].nodes@.len() && (
        #[trigger] ss1[s].node_graphs@[g].nodes@[n].mesh)
        is Some implies ss1[s].node_graphs@[g].nodes@[n].mesh->0.mesh_id == ss2[s].node_graphs@[g].nodes@[n].mesh->0.mesh_id by {
        lemma_meshed_before_shape(ss1, ss2, s, g, n);
    }
}

/// The last translation a sample sequence writes into node `idx`.
pub open spec fn last_translation(ss: Seq<ChannelSample>, idx: int) -> Option<Vec3>
    decreases ss.len(),
{
    if ss.len() == 0 {
        None
    } else if ss.last().node_index as int == idx {
        match ss.last().output {
            ChannelOutput::Translation(v) => Some(v),
            _ => last_translation(ss.drop_last(), idx),
        }
    } else {
        last_translation(ss.drop_last(), idx)
    }
}

/// The last rotation a sample sequence writes into node `idx`.
pub open spec fn last_rotation(ss: Seq<ChannelSample>, idx: int) -> Option<Quat>
    decreases ss.len(),
{
    if ss.len() == 0 {
        None
    } else if ss.last().node_index as int == idx {
        match ss.last().output {
            ChannelOutput::Rotation(q) => Some(q),
            _ => last_rotation(ss.drop_last(), idx),
        }
    } else {
        last_rotation(ss.drop_last(), idx)
    }
}

/// The last scale a sample sequence writes into node `idx`.
pub open spec fn last_scale(ss: Seq<ChannelSample>, idx: int) -> Option<Vec3>
    decreases ss.len(),
{
    if ss.len() == 0 {
        None
    } else if ss.last().node_index as int == idx {
        match ss.last().output {
            ChannelOutput::Scale(v) => Some(v),
            _ => last_scale(ss.drop_last(), idx),
        }
    } else {
        last_scale(ss.drop_last(), idx)
    }
}

/// Folding a sample sequence into an override sets each component to the
/// last value written for it, and leaves unwritten components alone.
pub proof fn lemma_apply_samples_char(t: Transform, ss: Seq<ChannelSample>, idx: int)
    ensures
        apply_samples(t, ss, idx).translation == (match last_translation(ss, idx) {
            Some(v) => Some(v),
            None => t.translation,
        }),
        apply_samples(t, ss, idx).rotation == (match last_rotation(ss, idx) {
            Some(q) => Some(q),
            None => t.rotation,
        }),
        apply_samples(t, ss, idx).scale == (match last_scale(ss, idx) {
            Some(v) => Some(v),
            None => t.scale,
        }),
    decreases ss.len(),
{
    if ss.len() > 0 {
        lemma_apply_samples_char(t, ss.drop_last(), idx);
    }
}

/// Law: an override rewritten by a sample sequence is a fixed point of
/// that sequence — folding the same samples in a second time changes
/// nothing.
pub proof fn lemma_apply_samples_idempotent(t: Transform, ss: Seq<ChannelSample>, idx: int)
    ensures
        apply_samples(apply_samples(t, ss, idx), ss, idx) == apply_samples(t, ss, idx),
{
    let t1 = apply_samples(t, ss, idx);
    lemma_apply_samples_char(t, ss, idx);
    lemma_apply_samples_char(t1, ss, idx);
}

/// The animations `a1` are `a0` after one sampling pass advanced the
/// clocks by `delta`: same channels and durations, clocks moved.
pub open spec fn clocks_advanced(a0: Seq<Animation>, a1: Seq<Animation>, delta: int) -> bool {
    &&& a1.len() == a0.len()
    &&& forall|i: int|
        0 <= i < a0.len() ==> {
            &&& (#[trigger] a1[i]).time as int == clip_time_after(
                a0[i].time as int,
                delta,
                a0[i].max_animation_time as int,
            )
            &&& a1[i].max_animation_time == a0[i].max_animation_time
            &&& a1[i].channels@.len() == a0[i].channels@.len()
        }
    &&& forall|i: int, c: int|
        0 <= i < a0.len() && 0 <= c < a0[i].channels@.len() ==> {
            &&& (#[trigger] a1[i].channels@[c]).node_index == a0[i].channels@[c].node_index
            &&& a1[i].channels@[c].inputs@ == a0[i].channels@[c].inputs@
            &&& a1[i].channels@[c].transformations == a0[i].channels@[c].transformations
        }
}

/// One animation yields the same samples when its clock stands still at
/// the time the previous pass reached.
proof fn lemma_outputs_fixed_time_one(a0: Animation, a1: Animation, delta: int)
    requires
        a1.time as int == clip_time_after(a0.time as int, delta, a0.max_animation_time as int),
        a1.max_animation_time == a0.max_animation_time,
        a1.channels@.len() == a0.channels@.len(),
        forall|c: int|
            0 <= c < a0.channels@.len() ==> {
                &&& (#[trigger] a1.channels@[c]).node_index == a0.channels@[c].node_index
                &&& a1.channels@[c].inputs@ == a0.channels@[c].inputs@
                &&& a1.channels@[c].transformations == a0.channels@[c].transformations
            },
    ensures
        outputs_of_animation(a1, 0) == outputs_of_animation(a0, delta),
{
    let m = a0.max_animation_time as int;
    assert(clip_time_after(a0.time as int, delta, m) <= m);
    assert(clip_time_after(a1.time as int, 0, m) == a1.time as int);
    assert(outputs_of_animation(a1, 0) =~= outputs_of_animation(a0, delta));
}

/// Law (fixed-time sampling, first half): after one pass advanced the
/// clocks by `delta`, a second pass that advances them by zero yields
/// exactly the same samples.
pub proof fn lemma_outputs_fixed_time(a0: Seq<Animation>, a1: Seq<Animation>, delta: int)
    requires
        clocks_advanced(a0, a1, delta),
    ensures
        outputs_of_asset(a1, 0) == outputs_of_asset(a0, delta),
    decreases a0.len(),
{
    if a0.len() > 0 {
        assert(clocks_advanced(a0.drop_last(), a1.drop_last(), delta)) by {
            assert forall|i: int| 0 <= i < a0.drop_last().len() implies {
                &&& (#[trigger] a1.drop_last()[i]).time as int == clip_time_after(
                    a0.drop_last()[i].time as int,
                    delta,
                    a0.drop_last()[i].max_animation_time as int,
                )
                &&& a1.drop_last()[i].max_animation_time == a0.drop_last()[i].max_animation_time
                &&& a1.drop_last()[i].channels@.len() == a0.drop_last()[i].channels@.len()
            } by {
                assert(a1[i].time as int == clip_time_after(
                    a0[i].time as int,
                    delta,
                    a0[i].max_animation_time as int,
                ));
            }
            assert forall|i: int, c: int|
                0 <= i < a0.drop_last().len() && 0 <= c
                    < a0.drop_last()[i].channels@.len() implies {
                &&& (#[trigger] a1.drop_last()[i].channels@[c]).node_index
                    == a0.drop_last()[i].channels@[c].node_index
                &&& a1.drop_last()[i].channels@[c].inputs@ == a0.drop_last()[i].channels@[c].inputs@
                &&& a1.drop_last()[i].channels@[c].transformations
                    == a0.drop_last()[i].channels@[c].transformations
            } by {
                assert((a1[i].channels@[c]).node_index == a0[i].channels@[c].node_index);
            }
        }
        lemma_outputs_fixed_time(a0.drop_last(), a1.drop_last(), delta);
        assert(a1.last().time as int == clip_time_after(
            a0.last().time as int,
            delta,
            a0.last().max_animation_time as int,
        ));
        assert forall|c: int| 0 <= c < a0.last().channels@.len() implies {
            &&& (#[trigger] a1.last().channels@[c]).node_index == a0.last().channels@[c].node_index
            &&& a1.last().channels@[c].inputs@ == a0.last().channels@[c].inputs@
            &&& a1.last().channels@[c].transformations == a0.last().channels@[c].transformations
        } by {
            assert((a1[a1.len() - 1].channels@[c]).node_index == a0[a0.len()
                - 1].channels@[c].node_index);
        }
        lemma_outputs_fixed_time_one(a0.last(), a1.last(), delta);
    } else {
        assert(outputs_of_asset(a1, 0) =~= outputs_of_asset(a0, delta));
    }
}

/// Law: sampling is idempotent at a fixed absolute time. After one pass
/// advanced the clocks by `delta` and rewrote an override, a second pass
/// at the same absolute time (advancing by zero) rewrites it to itself.
pub proof fn lemma_sampling_idempotent(
    a0: Seq<Animation>,
    a1: Seq<Animation>,
    delta: int,
    t: Transform,
    idx: int,
)
    requires
        clocks_advanced(a0, a1, delta),
    ensures
        apply_samples(
            apply_samples(t, outputs_of_asset(a0, delta), idx),
            outputs_of_asset(a1, 0),
            idx,
        ) == apply_samples(t, outputs_of_asset(a0, delta), idx),
{
    lemma_outputs_fixed_time(a0, a1, delta);
    lemma_apply_samples_idempotent(t, outputs_of_asset(a0, delta), idx);
}

/// Count the meshed nodes of one tree.
fn graph_meshed(g: &NodeGraph) -> (c: usize)
    ensures
        c as int == graph_meshed_count(*g, g.nodes@.len() as int),
        c <= g.nodes@.len(),
{
    let mut c: usize = 0;
    let nn = g.nodes.len();
    for n in 0..nn
        invariant
            nn == g.nodes@.len(),
            c as int == graph_meshed_count(*g, n as int),
            c <= n,
    {
        if g.nodes[n].mesh.is_some() {
            c = c + 1;
        }
    }
    c
}

/// Count the meshed nodes across all scenes; `None` when the count does
/// not fit a machine word.
#[verifier::loop_isolation(false)]
pub fn count_meshes(scenes: &Vec<Scene>) -> (r: Option<usize>)
    ensures
        r matches Some(c) ==> c as int == meshed_total(scenes@),
        r is None ==> meshed_total(scenes@) > usize::MAX,
{
    let ghost ss = scenes@;
    let mut c: usize = 0;
    let ns = scenes.len();
    for s in 0..ns
        invariant
            c as int == scenes_meshed_count(ss, s as int),
    {
        let ng = scenes[s].node_graphs.len();
        for g in 0..ng
            invariant
                c as int == scenes_meshed_count(ss, s as int) + scene_meshed_count(
                    ss[s as int],
                    g as int,
                ),
        {
            let gc = graph_meshed(&scenes[s].node_graphs[g]);
            match c.checked_add(gc) {
                Some(sum) => {
                    c = sum;
                },
                None => {
                    proof {
                        lemma_scene_count_mono(
                            ss[s as int],
                            g + 1,
                            ss[s as int].node_graphs@.len() as int,
                        );
                        lemma_scenes_count_mono(ss, s + 1, ss.len() as int);
                    }
                    return None;
                },
            }
        }
    }
    Some(c)
}

} // verus!
