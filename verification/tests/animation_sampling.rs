use render_core::animation::{Animation, Channel, TransformationSet};
use render_core::asset::{AnimationDesc, AssetDesc, AssetError, ChannelDesc, GltfAsset, SceneDesc};
use render_core::fixed::{lerp_i64, FX_ONE};
use render_core::scene::NodeDesc;
use render_core::transform::{Quat, Vec3};

fn identity_entries() -> Vec<i64> {
    vec![
        FX_ONE, 0, 0, 0, //
        0, FX_ONE, 0, 0, //
        0, 0, FX_ONE, 0, //
        0, 0, 0, FX_ONE,
    ]
}

fn bare_node(index: usize) -> NodeDesc {
    NodeDesc { index, local_transform: identity_entries(), mesh: None, children: Vec::new() }
}

fn translation_channel(node_index: usize) -> ChannelDesc {
    ChannelDesc {
        node_index,
        inputs: vec![0, 1000, 2000],
        transformations: TransformationSet::Translations(vec![
            Vec3 { x: 0, y: 0, z: 0 },
            Vec3 { x: 1000, y: 2000, z: 4000 },
            Vec3 { x: 0, y: 0, z: 0 },
        ]),
    }
}

fn one_channel_asset() -> GltfAsset {
    GltfAsset::new(AssetDesc {
        scenes: vec![SceneDesc { roots: vec![bare_node(0)] }],
        animations: vec![AnimationDesc { channels: vec![translation_channel(0)] }],
    })
    .expect("asset should build")
}

#[test]
fn time_wraps_against_the_channel_duration() {
    // Keys at 0, 1000, 2000 ticks; advancing the clock to 2500 wraps the
    // lookup time to 500, selecting the first key pair at its midpoint.
    let mut asset = one_channel_asset();
    asset.animate(2500);
    assert_eq!(asset.animations[0].time, 500);
    let t = asset.scenes[0].node_graphs[0].nodes[0].animation_transform;
    assert_eq!(t.translation, Some(Vec3 { x: 500, y: 1000, z: 2000 }));
    assert_eq!(asset.animations[0].channels[0].previous_key, 0);
}

#[test]
fn cursor_resets_on_rewind() {
    let mut asset = one_channel_asset();
    asset.animate(1500);
    assert_eq!(asset.animations[0].channels[0].previous_key, 1);
    // 1500 + 700 = 2200 wraps to 200: the clock moved backwards, so the
    // forward-search cursor must restart at the first key pair.
    asset.animate(700);
    assert_eq!(asset.animations[0].time, 200);
    assert_eq!(asset.animations[0].channels[0].previous_key, 0);
    let t = asset.scenes[0].node_graphs[0].nodes[0].animation_transform;
    assert_eq!(t.translation, Some(Vec3 { x: 200, y: 400, z: 800 }));
}

#[test]
fn sampling_twice_at_the_same_time_is_idempotent() {
    let rotation_channel = ChannelDesc {
        node_index: 0,
        inputs: vec![0, 900],
        transformations: TransformationSet::Rotations(vec![
            Quat { x: 0, y: 0, z: 0, w: FX_ONE },
            Quat { x: 0, y: 0, z: FX_ONE, w: 0 },
        ]),
    };
    let mut asset = GltfAsset::new(AssetDesc {
        scenes: vec![SceneDesc { roots: vec![bare_node(0)] }],
        animations: vec![AnimationDesc { channels: vec![translation_channel(0), rotation_channel] }],
    })
    .expect("asset should build");
    asset.animate(777);
    let first = asset.scenes[0].node_graphs[0].nodes[0].animation_transform;
    let time_first = asset.animations[0].time;
    asset.animate(0);
    let second = asset.scenes[0].node_graphs[0].nodes[0].animation_transform;
    assert_eq!(asset.animations[0].time, time_first);
    assert_eq!(first, second);
}

#[test]
fn quaternions_blend_component_wise() {
    // The blend is a raw component-wise average at the key midpoint, not a
    // spherical interpolation.
    let channel = ChannelDesc {
        node_index: 0,
        inputs: vec![0, 1000],
        transformations: TransformationSet::Rotations(vec![
            Quat { x: 0, y: 0, z: 0, w: FX_ONE },
            Quat { x: FX_ONE, y: 0, z: 0, w: 0 },
        ]),
    };
    let mut asset = GltfAsset::new(AssetDesc {
        scenes: vec![SceneDesc { roots: vec![bare_node(0)] }],
        animations: vec![AnimationDesc { channels: vec![channel] }],
    })
    .expect("asset should build");
    asset.animate(500);
    let t = asset.scenes[0].node_graphs[0].nodes[0].animation_transform;
    assert_eq!(t.rotation, Some(Quat { x: FX_ONE / 2, y: 0, z: 0, w: FX_ONE / 2 }));
}

#[test]
fn lookup_below_the_first_key_clamps_up_to_it() {
    let channel = ChannelDesc {
        node_index: 0,
        inputs: vec![400, 800],
        transformations: TransformationSet::Scales(vec![
            Vec3 { x: 100, y: 100, z: 100 },
            Vec3 { x: 300, y: 300, z: 300 },
        ]),
    };
    let mut asset = GltfAsset::new(AssetDesc {
        scenes: vec![SceneDesc { roots: vec![bare_node(0)] }],
        animations: vec![AnimationDesc { channels: vec![channel] }],
    })
    .expect("asset should build");
    asset.animate(100);
    let t = asset.scenes[0].node_graphs[0].nodes[0].animation_transform;
    assert_eq!(t.scale, Some(Vec3 { x: 100, y: 100, z: 100 }));
}

#[test]
fn channels_only_touch_their_target_node() {
    let mut asset = GltfAsset::new(AssetDesc {
        scenes: vec![SceneDesc {
            roots: vec![NodeDesc {
                index: 0,
                local_transform: identity_entries(),
                mesh: None,
                children: vec![bare_node(1)],
            }],
        }],
        animations: vec![AnimationDesc { channels: vec![translation_channel(1)] }],
    })
    .expect("asset should build");
    asset.animate(500);
    let root = asset.scenes[0].node_graphs[0].nodes[0].animation_transform;
    let child = asset.scenes[0].node_graphs[0].nodes[1].animation_transform;
    assert_eq!(root.translation, None);
    assert_eq!(child.translation, Some(Vec3 { x: 500, y: 1000, z: 2000 }));
}

#[test]
fn clip_duration_is_the_largest_channel_duration() {
    let short = translation_channel(0);
    let long = ChannelDesc {
        node_index: 0,
        inputs: vec![0, 3000],
        transformations: TransformationSet::MorphTargetWeights(vec![0, 100]),
    };
    let asset = GltfAsset::new(AssetDesc {
        scenes: vec![SceneDesc { roots: vec![bare_node(0)] }],
        animations: vec![AnimationDesc { channels: vec![short, long] }],
    })
    .expect("asset should build");
    assert_eq!(asset.animations[0].max_animation_time, 3000);
}

#[test]
fn morph_weights_are_computed_but_not_applied() {
    let channel = ChannelDesc {
        node_index: 0,
        inputs: vec![0, 1000],
        transformations: TransformationSet::MorphTargetWeights(vec![0, 500]),
    };
    let mut asset = GltfAsset::new(AssetDesc {
        scenes: vec![SceneDesc { roots: vec![bare_node(0)] }],
        animations: vec![AnimationDesc { channels: vec![channel] }],
    })
    .expect("asset should build");
    asset.animate(500);
    let t = asset.scenes[0].node_graphs[0].nodes[0].animation_transform;
    assert_eq!(t.translation, None);
    assert_eq!(t.rotation, None);
    assert_eq!(t.scale, None);
}

#[test]
fn single_key_channel_is_rejected() {
    let channel = ChannelDesc {
        node_index: 0,
        inputs: vec![0],
        transformations: TransformationSet::MorphTargetWeights(vec![0]),
    };
    let r = GltfAsset::new(AssetDesc {
        scenes: vec![SceneDesc { roots: vec![bare_node(0)] }],
        animations: vec![AnimationDesc { channels: vec![channel] }],
    });
    assert_eq!(r.err(), Some(AssetError::InvalidChannel));
}

#[test]
fn non_increasing_keys_are_rejected() {
    let channel = ChannelDesc {
        node_index: 0,
        inputs: vec![0, 500, 500],
        transformations: TransformationSet::MorphTargetWeights(vec![0, 1, 2]),
    };
    let r = GltfAsset::new(AssetDesc {
        scenes: vec![SceneDesc { roots: vec![bare_node(0)] }],
        animations: vec![AnimationDesc { channels: vec![channel] }],
    });
    assert_eq!(r.err(), Some(AssetError::InvalidChannel));
}

#[test]
fn channel_sampling_without_an_asset() {
    let mut channel = Channel {
        node_index: 0,
        inputs: vec![0, 10],
        transformations: TransformationSet::MorphTargetWeights(vec![-8, 8]),
        previous_key: 0,
        previous_time: 0,
    };
    let out = channel.sample(5);
    assert_eq!(
        out,
        render_core::animation::ChannelOutput::MorphWeight(0),
    );
    assert_eq!(channel.previous_time, 5);
}

#[test]
fn animation_clock_advances_and_wraps() {
    let channels = vec![Channel {
        node_index: 0,
        inputs: vec![0, 10],
        transformations: TransformationSet::MorphTargetWeights(vec![0, 1]),
        previous_key: 0,
        previous_time: 0,
    }];
    let max = render_core::animation::max_time_of(&channels);
    let mut anim = Animation { time: 0, channels, max_animation_time: max };
    anim.sample(4);
    assert_eq!(anim.time, 4);
    anim.sample(4);
    assert_eq!(anim.time, 8);
    anim.sample(4);
    assert_eq!(anim.time, 2);
}

#[test]
fn lerp_rounds_toward_zero() {
    assert_eq!(lerp_i64(0, 10, 1, 2), 5);
    assert_eq!(lerp_i64(0, -3, 1, 2), -1);
    assert_eq!(lerp_i64(10, 10, 3, 7), 10);
    assert_eq!(lerp_i64(-4, 4, 0, 5), -4);
    assert_eq!(lerp_i64(-4, 4, 5, 5), 4);
}
