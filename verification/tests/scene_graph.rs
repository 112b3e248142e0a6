use render_core::asset::{AssetDesc, AssetError, GltfAsset, SceneDesc};
use render_core::fixed::FX_ONE;
use render_core::scene::{pack_primitive_indices, Mesh, NodeDesc, Primitive};

fn identity_entries() -> Vec<i64> {
    vec![
        FX_ONE, 0, 0, 0, //
        0, FX_ONE, 0, 0, //
        0, 0, FX_ONE, 0, //
        0, 0, 0, FX_ONE,
    ]
}

fn translation_entries(x: i64, y: i64, z: i64) -> Vec<i64> {
    vec![
        FX_ONE, 0, 0, 0, //
        0, FX_ONE, 0, 0, //
        0, 0, FX_ONE, 0, //
        x, y, z, FX_ONE,
    ]
}

fn leaf(index: usize, entries: Vec<i64>, mesh: Option<Mesh>) -> NodeDesc {
    NodeDesc { index, local_transform: entries, mesh, children: Vec::new() }
}

fn simple_mesh() -> Mesh {
    Mesh {
        primitives: vec![Primitive { number_of_indices: 3, first_index: 0, material_index: None }],
        mesh_id: 0,
        weights: Vec::new(),
    }
}

fn asset_without_animations(scenes: Vec<SceneDesc>) -> GltfAsset {
    GltfAsset::new(AssetDesc { scenes, animations: Vec::new() }).expect("asset should build")
}

#[test]
fn global_transform_composes_along_three_levels() {
    // Three levels of pure translations compose exactly: translations add.
    let grandchild = leaf(2, translation_entries(0, 0, 3 * FX_ONE), None);
    let child = NodeDesc {
        index: 1,
        local_transform: translation_entries(0, 2 * FX_ONE, 0),
        mesh: None,
        children: vec![grandchild],
    };
    let root = NodeDesc {
        index: 0,
        local_transform: translation_entries(FX_ONE, 0, 0),
        mesh: None,
        children: vec![child],
    };
    let asset = asset_without_animations(vec![SceneDesc { roots: vec![root] }]);
    let graph = &asset.scenes[0].node_graphs[0];
    let m = GltfAsset::calculate_global_transform(2, graph);
    let expected = translation_entries(FX_ONE, 2 * FX_ONE, 3 * FX_ONE);
    assert_eq!(m.e, expected);
}

#[test]
fn global_transform_of_root_is_its_local_transform() {
    let root = leaf(0, translation_entries(7, 8, 9), None);
    let asset = asset_without_animations(vec![SceneDesc { roots: vec![root] }]);
    let m = GltfAsset::calculate_global_transform(0, &asset.scenes[0].node_graphs[0]);
    assert_eq!(m.e, translation_entries(7, 8, 9));
}

#[test]
fn end_to_end_identity_root_with_translated_meshed_child() {
    // One root with the identity local transform holding one meshed child
    // translated by one unit along x: the child's accumulated transform is
    // exactly that translation.
    let child = leaf(5, translation_entries(FX_ONE, 0, 0), Some(simple_mesh()));
    let root = NodeDesc {
        index: 4,
        local_transform: identity_entries(),
        mesh: None,
        children: vec![child],
    };
    let asset = asset_without_animations(vec![SceneDesc { roots: vec![root] }]);
    let graph = &asset.scenes[0].node_graphs[0];
    let m = GltfAsset::calculate_global_transform(1, graph);
    assert_eq!(m.e, translation_entries(FX_ONE, 0, 0));
    assert_eq!(graph.nodes[1].mesh.as_ref().unwrap().mesh_id, 0);
    assert_eq!(asset.number_of_meshes, 1);
}

#[test]
fn mesh_ids_are_dense_unique_and_in_walk_order() {
    // Scene 0: meshed root with a meshed child; scene 1: bare root with a
    // meshed child. Ids follow the traversal order and are exactly 0..3.
    let scene0 = SceneDesc {
        roots: vec![NodeDesc {
            index: 0,
            local_transform: identity_entries(),
            mesh: Some(simple_mesh()),
            children: vec![leaf(1, identity_entries(), Some(simple_mesh()))],
        }],
    };
    let scene1 = SceneDesc {
        roots: vec![NodeDesc {
            index: 2,
            local_transform: identity_entries(),
            mesh: None,
            children: vec![leaf(3, identity_entries(), Some(simple_mesh()))],
        }],
    };
    let asset = asset_without_animations(vec![scene0, scene1]);
    assert_eq!(asset.number_of_meshes, 3);
    let mut ids = Vec::new();
    for (s, g, n) in asset.walk() {
        if let Some(mesh) = &asset.scenes[s].node_graphs[g].nodes[n].mesh {
            ids.push(mesh.mesh_id);
        }
    }
    assert_eq!(ids, vec![0, 1, 2]);
}

#[test]
fn mesh_ids_are_stable_across_repeated_enumeration() {
    let build = || {
        asset_without_animations(vec![SceneDesc {
            roots: vec![NodeDesc {
                index: 0,
                local_transform: identity_entries(),
                mesh: Some(simple_mesh()),
                children: vec![
                    leaf(1, identity_entries(), None),
                    leaf(2, identity_entries(), Some(simple_mesh())),
                ],
            }],
        }])
    };
    let a = build();
    let b = build();
    for ((s, g, n), (s2, g2, n2)) in a.walk().into_iter().zip(b.walk().into_iter()) {
        assert_eq!((s, g, n), (s2, g2, n2));
        let ma = &a.scenes[s].node_graphs[g].nodes[n].mesh;
        let mb = &b.scenes[s2].node_graphs[g2].nodes[n2].mesh;
        match (ma, mb) {
            (Some(x), Some(y)) => assert_eq!(x.mesh_id, y.mesh_id),
            (None, None) => {}
            _ => panic!("mesh placement differs between identical builds"),
        }
    }
}

#[test]
fn walk_lists_every_node_scene_by_scene_tree_by_tree() {
    let scene0 = SceneDesc {
        roots: vec![
            NodeDesc {
                index: 0,
                local_transform: identity_entries(),
                mesh: None,
                children: vec![leaf(1, identity_entries(), None)],
            },
            leaf(2, identity_entries(), None),
        ],
    };
    let scene1 = SceneDesc { roots: vec![leaf(3, identity_entries(), None)] };
    let asset = asset_without_animations(vec![scene0, scene1]);
    assert_eq!(asset.walk(), vec![(0, 0, 0), (0, 0, 1), (0, 1, 0), (1, 0, 0)]);
}

#[test]
fn path_between_nodes_follows_parent_links() {
    let chain = NodeDesc {
        index: 0,
        local_transform: identity_entries(),
        mesh: None,
        children: vec![NodeDesc {
            index: 1,
            local_transform: identity_entries(),
            mesh: None,
            children: vec![leaf(2, identity_entries(), None)],
        }],
    };
    let asset = asset_without_animations(vec![SceneDesc { roots: vec![chain] }]);
    let graph = &asset.scenes[0].node_graphs[0];
    assert_eq!(GltfAsset::path_between_nodes(0, 2, graph), vec![0, 1, 2]);
    assert_eq!(GltfAsset::path_between_nodes(1, 2, graph), vec![1, 2]);
    assert_eq!(GltfAsset::path_between_nodes(2, 2, graph), vec![2]);
}

#[test]
fn branching_tree_is_laid_out_in_preorder() {
    let root = NodeDesc {
        index: 10,
        local_transform: identity_entries(),
        mesh: None,
        children: vec![
            NodeDesc {
                index: 11,
                local_transform: identity_entries(),
                mesh: None,
                children: vec![leaf(12, identity_entries(), None)],
            },
            leaf(13, identity_entries(), None),
        ],
    };
    let asset = asset_without_animations(vec![SceneDesc { roots: vec![root] }]);
    let graph = &asset.scenes[0].node_graphs[0];
    let order: Vec<usize> = graph.nodes.iter().map(|n| n.index).collect();
    assert_eq!(order, vec![10, 11, 12, 13]);
    let parents: Vec<Option<usize>> = graph.parent.clone();
    assert_eq!(parents, vec![None, Some(0), Some(1), Some(0)]);
}

#[test]
fn invalid_node_description_is_rejected() {
    let bad = NodeDesc {
        index: 0,
        local_transform: vec![0; 15],
        mesh: None,
        children: Vec::new(),
    };
    let r = GltfAsset::new(AssetDesc {
        scenes: vec![SceneDesc { roots: vec![bad] }],
        animations: Vec::new(),
    });
    assert_eq!(r.err(), Some(AssetError::InvalidNode));
}

#[test]
fn pack_primitive_indices_rebases_and_records_the_range() {
    let mut indices: Vec<u32> = vec![7];
    let prim = vec![0u32, 1, 2];
    let p = pack_primitive_indices(5, &prim, &mut indices, Some(3));
    assert_eq!(indices, vec![7, 5, 6, 7]);
    assert_eq!(p.first_index, 1);
    assert_eq!(p.number_of_indices, 3);
    assert_eq!(p.material_index, Some(3));
}
