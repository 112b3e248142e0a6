use render_core::asset::{AssetDesc, GltfAsset, SceneDesc};
use render_core::fixed::FX_ONE;
use render_core::frame_sync::{FrameSyncSet, MAX_FRAMES_IN_FLIGHT};
use render_core::render_loop::{
    full_dynamic_size, select_supported_format, update_uniforms, AcquireOutcome, FramePhase,
    FrameStep, PresentOutcome, RenderLoop,
};
use render_core::mat4::Mat4;
use render_core::scene::{Mesh, NodeDesc, Primitive};

fn identity_entries() -> Vec<i64> {
    vec![
        FX_ONE, 0, 0, 0, //
        0, FX_ONE, 0, 0, //
        0, 0, FX_ONE, 0, //
        0, 0, 0, FX_ONE,
    ]
}

fn translation_entries(x: i64, y: i64, z: i64) -> Vec<i64> {
    vec![
        FX_ONE, 0, 0, 0, //
        0, FX_ONE, 0, 0, //
        0, 0, FX_ONE, 0, //
        x, y, z, FX_ONE,
    ]
}

fn run_one_frame(rl: &mut RenderLoop, image: usize) {
    rl.fence_waited();
    assert_eq!(rl.acquire_result(AcquireOutcome::Acquired(image, false)), FrameStep::Continue);
    rl.submitted();
    assert_eq!(rl.present_result(PresentOutcome::Presented(false)), FrameStep::Continue);
}

#[test]
fn frames_advance_through_the_slot_ring() {
    let mut rl = RenderLoop::new();
    assert_eq!(rl.current_slot(), 0);
    run_one_frame(&mut rl, 0);
    assert_eq!(rl.current_slot(), 1);
    run_one_frame(&mut rl, 1);
    assert_eq!(rl.current_slot(), 0);
}

#[test]
fn the_ring_never_exceeds_the_in_flight_bound() {
    // After MAX_FRAMES_IN_FLIGHT submissions without any completed work,
    // every slot is in flight; the next frame reuses slot 0, and its wait
    // step must clear that slot before another submission may happen.
    let mut rl = RenderLoop::new();
    for i in 0..MAX_FRAMES_IN_FLIGHT {
        run_one_frame(&mut rl, i);
    }
    for i in 0..MAX_FRAMES_IN_FLIGHT {
        assert!(rl.sync.is_in_flight(i));
    }
    assert_eq!(rl.current_slot(), 0);
    assert!(rl.sync.is_in_flight(rl.current_slot()));
    rl.fence_waited();
    assert!(!rl.sync.is_in_flight(0));
    assert!(rl.sync.is_in_flight(1));
}

#[test]
fn out_of_date_surface_skips_the_frame_without_advancing() {
    let mut rl = RenderLoop::new();
    run_one_frame(&mut rl, 0);
    let slot = rl.current_slot();
    rl.fence_waited();
    assert_eq!(rl.acquire_result(AcquireOutcome::OutOfDate), FrameStep::SkipFrame);
    assert_eq!(rl.current_slot(), slot);
    assert_eq!(rl.phase, FramePhase::Ready);
}

#[test]
fn device_errors_are_fatal() {
    let mut rl = RenderLoop::new();
    rl.fence_waited();
    assert_eq!(rl.acquire_result(AcquireOutcome::DeviceError(-4)), FrameStep::Fatal(-4));
    assert_eq!(rl.phase, FramePhase::Failed);

    let mut rl2 = RenderLoop::new();
    rl2.fence_waited();
    rl2.acquire_result(AcquireOutcome::Acquired(0, false));
    rl2.submitted();
    assert_eq!(rl2.present_result(PresentOutcome::DeviceError(-3)), FrameStep::Fatal(-3));
    assert_eq!(rl2.phase, FramePhase::Failed);
}

#[test]
fn suboptimal_presentation_is_reported_but_continues() {
    let mut rl = RenderLoop::new();
    rl.fence_waited();
    rl.acquire_result(AcquireOutcome::Acquired(0, false));
    rl.submitted();
    assert_eq!(rl.present_result(PresentOutcome::OutOfDate), FrameStep::Continue);
    assert_eq!(rl.current_slot(), 1);
}

#[test]
fn fresh_sync_set_has_no_work_in_flight() {
    let s = FrameSyncSet::new();
    for i in 0..MAX_FRAMES_IN_FLIGHT {
        assert!(!s.is_in_flight(i));
    }
}

#[test]
fn update_writes_one_matrix_per_meshed_node_at_its_offset() {
    let mesh = Mesh {
        primitives: vec![Primitive { number_of_indices: 3, first_index: 0, material_index: None }],
        mesh_id: 0,
        weights: Vec::new(),
    };
    let child = NodeDesc {
        index: 1,
        local_transform: translation_entries(FX_ONE, 0, 0),
        mesh: Some(mesh.clone()),
        children: Vec::new(),
    };
    let root = NodeDesc {
        index: 0,
        local_transform: identity_entries(),
        mesh: Some(mesh),
        children: vec![child],
    };
    let asset = GltfAsset::new(AssetDesc {
        scenes: vec![SceneDesc { roots: vec![root] }],
        animations: Vec::new(),
    })
    .expect("asset should build");
    let base = Mat4::identity();
    let writes = update_uniforms(&asset, &base, 256);
    assert_eq!(writes.len(), 2);
    assert_eq!(writes[0].offset, 0);
    assert_eq!(writes[1].offset, 256);
    assert_eq!(writes[0].transform.e, identity_entries());
    assert_eq!(writes[1].transform.e, translation_entries(FX_ONE, 0, 0));
    assert_eq!(full_dynamic_size(&asset, 256), 512);
}

#[test]
fn depth_format_probing_picks_the_first_supported_candidate() {
    let candidates = vec![126u32, 130, 129];
    let props = vec![(0u32, 0u32), (0, 0b110), (0, 0b111)];
    assert_eq!(select_supported_format(&candidates, &props, false, 0b010), Some(130));
    assert_eq!(select_supported_format(&candidates, &props, false, 0b001), Some(129));
    assert_eq!(select_supported_format(&candidates, &props, true, 0b001), None);
    assert_eq!(select_supported_format(&candidates, &props, false, 0b1000), None);
}
