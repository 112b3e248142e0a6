//! The per-frame presentation state machine.
//!
//! One iteration per presented frame, in strict order: wait on the frame
//! slot's fence, acquire a presentable surface, reset the fence, update
//! per-instance uniforms, submit, present, advance to the next slot. The
//! decisions live here; the calls into the GPU happen outside and report
//! their outcomes back as events. An out-of-date surface at acquisition
//! aborts the iteration without advancing; any other acquisition or
//! presentation failure is fatal. A suboptimal or out-of-date result at
//! presentation is reported but does not yet trigger recreation.

use vstd::prelude::*;

verus! {

use crate::asset::{
    asset_wf, ids_assigned, lemma_meshed_before_lt_total, meshed_before, meshed_total, GltfAsset,
};
use crate::frame_sync::{sync_wf, FrameSyncSet, MAX_FRAMES_IN_FLIGHT};
use crate::mat4::{mat_mul, Mat4};
use crate::scene::global_transform;

/// Where the loop stands within the current frame.
#[derive(Clone, Copy, Debug, PartialEq, Eq)]
pub enum FramePhase {
    /// Before the wait on the current slot's fence.
    Ready,
    /// The fence was observed signaled; the slot may be reused.
    Waited,
    /// A surface with this index was acquired and the fence was reset.
    Acquired(usize),
    /// Work for this surface index was submitted against the slot.
    Submitted(usize),
    /// A fatal GPU error was reported; the loop is unusable.
    Failed,
}

/// What the surface acquisition reported.
#[derive(Clone, Copy, Debug, PartialEq, Eq)]
pub enum AcquireOutcome {
    /// A surface index, and whether the surface is suboptimal.
    Acquired(usize, bool),
    /// The surface is out of date and must be recreated.
    OutOfDate,
    /// Any other failure, with its error code.
    DeviceError(i32),
}

/// What presentation reported.
#[derive(Clone, Copy, Debug, PartialEq, Eq)]
pub enum PresentOutcome {
    /// Presented; the flag reports a suboptimal surface.
    Presented(bool),
    /// The surface is out of date and must be recreated.
    OutOfDate,
    /// Any other failure, with its error code.
    DeviceError(i32),
}

/// What the caller must do after a step.
#[derive(Clone, Copy, Debug, PartialEq, Eq)]
pub enum FrameStep {
    /// Proceed with the iteration.
    Continue,
    /// Abort this iteration without advancing; retry next tick.
    SkipFrame,
    /// A fatal error: stop, with the reported error code.
    Fatal(i32),
}

/// The state the loop carries across frames.
pub struct RenderLoop {
    pub sync: FrameSyncSet,
    pub current_frame: usize,
    pub phase: FramePhase,
}

/// Loop invariant: a well-formed ring and a valid slot index.
pub open spec fn loop_wf(rl: RenderLoop) -> bool {
    &&& sync_wf(rl.sync)
    &&& rl.current_frame < MAX_FRAMES_IN_FLIGHT
}

impl RenderLoop {
    /// A fresh loop at slot 0, ready to start a frame.
    pub fn new() -> (r: RenderLoop)
        ensures
            loop_wf(r),
            r.current_frame == 0,
            r.phase == FramePhase::Ready,
            forall|i: int| 0 <= i < MAX_FRAMES_IN_FLIGHT ==> !r.sync.in_flight@[i],
    {
        RenderLoop { sync: FrameSyncSet::new(), current_frame: 0, phase: FramePhase::Ready }
    }

    /// The slot whose fence the caller must block on for this frame.
    pub fn current_slot(&self) -> (slot: usize)
        requires
            loop_wf(*self),
        ensures
            slot == self.current_frame,
            slot < MAX_FRAMES_IN_FLIGHT,
    {
        self.current_frame
    }

    /// Record that the blocking wait on the current slot's fence returned:
    /// the slot's previous work is complete.
    pub fn fence_waited(&mut self)
        requires
            loop_wf(*old(self)),
            old(self).phase == FramePhase::Ready,
        ensures
            loop_wf(*final(self)),
            final(self).phase == FramePhase::Waited,
            final(self).current_frame == old(self).current_frame,
            !final(self).sync.in_flight@[old(self).current_frame as int],
            forall|i: int|
                0 <= i < MAX_FRAMES_IN_FLIGHT && i != old(self).current_frame ==> final(self).sync.in_flight@[i] == old(self).sync.in_flight@[i],
    {
        let slot = self.current_frame;
        self.sync.mark_waited(slot);
        self.phase = FramePhase::Waited;
    }

    /// Feed back what surface acquisition reported. Success moves on to
    /// the update phase (the caller resets the slot's fence right before
    /// reuse); an out-of-date surface aborts the iteration without
    /// advancing; anything else is fatal.
    pub fn acquire_result(&mut self, outcome: AcquireOutcome) -> (step: FrameStep)
        requires
            loop_wf(*old(self)),
            old(self).phase == FramePhase::Waited,
        ensures
            loop_wf(*final(self)),
            final(self).current_frame == old(self).current_frame,
            final(self).sync == old(self).sync,
            outcome matches AcquireOutcome::Acquired(image, _) ==> final(self).phase
                == FramePhase::Acquired(image) && step == FrameStep::Continue,
            outcome == AcquireOutcome::OutOfDate ==> final(self).phase == FramePhase::Ready && step
                == FrameStep::SkipFrame,
            outcome matches AcquireOutcome::DeviceError(c) ==> final(self).phase
                == FramePhase::Failed && step == (FrameStep::Fatal(c)),
    {
        match outcome {
            AcquireOutcome::Acquired(image, _suboptimal) => {
                self.phase = FramePhase::Acquired(image);
                FrameStep::Continue
            },
            AcquireOutcome::OutOfDate => {
                self.phase = FramePhase::Ready;
                FrameStep::SkipFrame
            },
            AcquireOutcome::DeviceError(code) => {
                self.phase = FramePhase::Failed;
                FrameStep::Fatal(code)
            },
        }
    }

    /// Record the submission for the acquired surface against the current
    /// slot. The slot's fence must have been observed since its last use.
    pub fn submitted(&mut self) -> (image: usize)
        requires
            loop_wf(*old(self)),
            old(self).phase matches FramePhase::Acquired(_),
            !old(self).sync.in_flight@[old(self).current_frame as int],
        ensures
            loop_wf(*final(self)),
            old(self).phase == FramePhase::Acquired(image),
            final(self).phase == FramePhase::Submitted(image),
            final(self).current_frame == old(self).current_frame,
            final(self).sync.in_flight@[old(self).current_frame as int],
            forall|i: int|
                0 <= i < MAX_FRAMES_IN_FLIGHT && i != old(self).current_frame ==> final(self).sync.in_flight@[i] == old(self).sync.in_flight@[i],
    {
        let image = match self.phase {
            FramePhase::Acquired(image) => image,
            _ => 0,
        };
        let slot = self.current_frame;
        self.sync.mark_submitted(slot);
        self.phase = FramePhase::Submitted(image);
        image
    }

    /// Feed back what presentation reported. Suboptimal and out-of-date
    /// results are reported but the frame still advances to the next
    /// slot, modulo the ring size; any other failure is fatal.
    pub fn present_result(&mut self, outcome: PresentOutcome) -> (step: FrameStep)
        requires
            loop_wf(*old(self)),
            old(self).phase matches FramePhase::Submitted(_),
        ensures
            loop_wf(*final(self)),
            final(self).sync == old(self).sync,
            outcome matches PresentOutcome::DeviceError(c) ==> final(self).phase
                == FramePhase::Failed && step == (FrameStep::Fatal(c)) && final(self).current_frame
                == old(self).current_frame,
            !(outcome matches PresentOutcome::DeviceError(_)) ==> final(self).phase
                == FramePhase::Ready && step == FrameStep::Continue && final(self).current_frame
                as int == (old(self).current_frame + 1) % (MAX_FRAMES_IN_FLIGHT as int),
    {
        match outcome {
            PresentOutcome::DeviceError(code) => {
                self.phase = FramePhase::Failed;
                FrameStep::Fatal(code)
            },
            _ => {
                self.phase = FramePhase::Ready;
                self.current_frame = (self.current_frame + 1) % MAX_FRAMES_IN_FLIGHT;
                FrameStep::Continue
            },
        }
    }
}

/// Law: the ring bounds pipelining. Once every slot is in flight —
/// `MAX_FRAMES_IN_FLIGHT` submissions without an intervening wait — the
/// upcoming frame's slot still guards unfinished work, so `submitted`
/// (whose precondition demands a clear slot) cannot run until the wait
/// step has observed that slot's fence.
pub proof fn lemma_full_ring_blocks(rl: RenderLoop)
    requires
        loop_wf(rl),
        forall|i: int| 0 <= i < MAX_FRAMES_IN_FLIGHT ==> rl.sync.in_flight@[i],
    ensures
        rl.sync.in_flight@[rl.current_frame as int],
{
}

/// One pending write into the dynamic per-instance uniform store.
pub struct UniformWrite {
    /// Byte offset: the dynamic alignment times the mesh's dense id.
    pub offset: u64,
    /// The world matrix: the instance transform times the node's
    /// accumulated transform.
    pub transform: Mat4,
}

/// The update phase of a frame: for every meshed node of every tree of
/// every scene, in traversal order, the matrix to write and the offset to
/// write it at.
#[verifier::loop_isolation(false)]
pub fn update_uniforms(asset: &GltfAsset, asset_transform: &Mat4, dynamic_alignment: u64) -> (w:
    Vec<UniformWrite>)
    requires
        asset_wf(*asset),
        ids_assigned(asset.scenes@),
        asset_transform.wf(),
        meshed_total(asset.scenes@) * dynamic_alignment <= u64::MAX,
    ensures
        w@.len() == meshed_total(asset.scenes@),
        forall|s: int, g: int, n: int|
            0 <= s < asset.scenes@.len() && 0 <= g < asset.scenes@[s].node_graphs@.len() && 0 <= n
                < asset.scenes@[s].node_graphs@[g].nodes@.len() && (
            #[trigger] asset.scenes@[s].node_graphs@[g].nodes@[n].mesh) is Some ==> {
                &&& w@[meshed_before(asset.scenes@, s, g, n)].offset as int == meshed_before(
                    asset.scenes@,
                    s,
                    g,
                    n,
                ) * dynamic_alignment
                &&& w@[meshed_before(asset.scenes@, s, g, n)].transform@ == mat_mul(
                    asset_transform@,
                    global_transform(asset.scenes@[s].node_graphs@[g], n),
                )
            },
{
    let ghost ss = asset.scenes@;
    let mut w: Vec<UniformWrite> = Vec::new();
    let ns = asset.scenes.len();
    for s in 0..ns
        invariant
            w@.len() == crate::asset::scenes_meshed_count(ss, s as int),
            forall|s2: int, g2: int, n2: int|
                0 <= s2 < s && 0 <= g2 < ss[s2].node_graphs@.len() && 0 <= n2
                    < ss[s2].node_graphs@[g2].nodes@.len() && (
                #[trigger] ss[s2].node_graphs@[g2].nodes@[n2].mesh) is Some ==> {
                    &&& w@[meshed_before(ss, s2, g2, n2)].offset as int == meshed_before(
                        ss,
                        s2,
                        g2,
                        n2,
                    ) * dynamic_alignment
                    &&& w@[meshed_before(ss, s2, g2, n2)].transform@ == mat_mul(
                        asset_transform@,
                        global_transform(ss[s2].node_graphs@[g2], n2),
                    )
                },
    {
        let ng = asset.scenes[s].node_graphs.len();
        for g in 0..ng
            invariant
                s < ns,
                ng == ss[s as int].node_graphs@.len(),
                w@.len() == crate::asset::scenes_meshed_count(ss, s as int)
                    + crate::asset::scene_meshed_count(ss[s as int], g as int),
                forall|s2: int, g2: int, n2: int|
                    0 <= s2 < ns && 0 <= g2 < ss[s2].node_graphs@.len() && 0 <= n2
                        < ss[s2].node_graphs@[g2].nodes@.len() && (s2 < s || (s2 == s && g2 < g))
                        && (#[trigger] ss[s2].node_graphs@[g2].nodes@[n2].mesh) is Some ==> {
                        &&& w@[meshed_before(ss, s2, g2, n2)].offset as int == meshed_before(
                            ss,
                            s2,
                            g2,
                            n2,
                        ) * dynamic_alignment
                        &&& w@[meshed_before(ss, s2, g2, n2)].transform@ == mat_mul(
                            asset_transform@,
                            global_transform(ss[s2].node_graphs@[g2], n2),
                        )
                    },
        {
            let nn = asset.scenes[s].node_graphs[g].nodes.len();
            for n in 0..nn
                invariant
                    s < ns,
                    ng == ss[s as int].node_graphs@.len(),
                    g < ng,
                    nn == ss[s as int].node_graphs@[g as int].nodes@.len(),
                    w@.len() == crate::asset::scenes_meshed_count(ss, s as int)
                        + crate::asset::scene_meshed_count(ss[s as int], g as int)
                        + crate::asset::graph_meshed_count(
                        ss[s as int].node_graphs@[g as int],
                        n as int,
                    ),
                    forall|s2: int, g2: int, n2: int|
                        0 <= s2 < ns && 0 <= g2 < ss[s2].node_graphs@.len() && 0 <= n2
                            < ss[s2].node_graphs@[g2].nodes@.len() && (s2 < s || (s2 == s && g2
                            < g) || (s2 == s && g2 == g && n2 < n)) && (
                        #[trigger] ss[s2].node_graphs@[g2].nodes@[n2].mesh) is Some ==> {
                            &&& w@[meshed_before(ss, s2, g2, n2)].offset as int == meshed_before(
                                ss,
                                s2,
                                g2,
                                n2,
                            ) * dynamic_alignment
                            &&& w@[meshed_before(ss, s2, g2, n2)].transform@ == mat_mul(
                                asset_transform@,
                                global_transform(ss[s2].node_graphs@[g2], n2),
                            )
                        },
            {
                if asset.scenes[s].node_graphs[g].nodes[n].mesh.is_some() {
                    proof {
                        lemma_meshed_before_lt_total(ss, s as int, g as int, n as int);
                        vstd::arithmetic::mul::lemma_mul_inequality(
                            meshed_before(ss, s as int, g as int, n as int) + 1,
                            meshed_total(ss),
                            dynamic_alignment as int,
                        );
                        vstd::arithmetic::mul::lemma_mul_is_distributive_add_other_way(
                            dynamic_alignment as int,
                            meshed_before(ss, s as int, g as int, n as int),
                            1,
                        );
                        assert(meshed_before(ss, s as int, g as int, n as int)
                            * dynamic_alignment <= u64::MAX);
                    }
                    let id = w.len();
                    let global = GltfAsset::calculate_global_transform(
                        n,
                        &asset.scenes[s].node_graphs[g],
                    );
                    let transform = asset_transform.mul(&global);
                    let offset = (id as u64) * dynamic_alignment;
                    let ghost pre_w = w@;
                    w.push(UniformWrite { offset, transform });
                    proof {
                        let cs = s as int;
                        let cg = g as int;
                        let cn = n as int;
                        assert forall|s2: int, g2: int, n2: int|
                            0 <= s2 < ns && 0 <= g2 < ss[s2].node_graphs@.len() && 0 <= n2
                                < ss[s2].node_graphs@[g2].nodes@.len() && (s2 < cs || (s2 == cs
                                && g2 < cg) || (s2 == cs && g2 == cg && n2 < cn)) && (
                            #[trigger] ss[s2].node_graphs@[g2].nodes@[n2].mesh)
                                is Some implies 0 <= meshed_before(ss, s2, g2, n2) < pre_w.len()
                                && w@[meshed_before(ss, s2, g2, n2)] == pre_w[meshed_before(
                                ss,
                                s2,
                                g2,
                                n2,
                            )] by {
                            crate::asset::lemma_meshed_before_ordered(
                                ss,
                                s2,
                                g2,
                                n2,
                                cs,
                                cg,
                                cn,
                            );
                        }
                        assert(w@[meshed_before(ss, cs, cg, cn)].offset == offset);
                    }
                }
            }
        }
    }
    w
}

/// The total byte size of the dynamic per-instance uniform range that one
/// frame's update touches and must flush.
pub fn full_dynamic_size(asset: &GltfAsset, dynamic_alignment: u64) -> (r: u64)
    requires
        asset.number_of_meshes as int == meshed_total(asset.scenes@),
        meshed_total(asset.scenes@) * dynamic_alignment <= u64::MAX,
    ensures
        r as int == meshed_total(asset.scenes@) * dynamic_alignment,
{
    proof {
        vstd::arithmetic::mul::lemma_mul_is_commutative(
            asset.number_of_meshes as int,
            dynamic_alignment as int,
        );
    }
    (asset.number_of_meshes as u64) * dynamic_alignment
}

/// The first candidate format whose queried properties, under the
/// requested tiling, contain every required feature bit; the candidate
/// count when none qualifies.
pub open spec fn first_supported(
    props: Seq<(u32, u32)>,
    linear_tiling: bool,
    features: u32,
    from: int,
) -> int
    decreases props.len() - from,
    when 0 <= from <= props.len()
{
    if from >= props.len() {
        props.len() as int
    } else if (if linear_tiling {
        props[from].0 & features == features
    } else {
        props[from].1 & features == features
    }) {
        from
    } else {
        first_supported(props, linear_tiling, features, from + 1)
    }
}

/// The decision inside depth-format probing: given each candidate's
/// queried format properties (linear-tiling features, optimal-tiling
/// features), pick the first candidate that supports the required
/// features under the requested tiling.
pub fn select_supported_format(
    candidates: &Vec<u32>,
    props: &Vec<(u32, u32)>,
    linear_tiling: bool,
    features: u32,
) -> (r: Option<u32>)
    requires
        props@.len() == candidates@.len(),
    ensures
        first_supported(props@, linear_tiling, features, 0) < candidates@.len() ==> r == Some(
            candidates@[first_supported(props@, linear_tiling, features, 0)],
        ),
        first_supported(props@, linear_tiling, features, 0) == candidates@.len() ==> r is None,
{
    let n = candidates.len();
    let mut i: usize = 0;
    while i < n
        invariant
            n == candidates@.len(),
            props@.len() == n,
            i <= n,
            first_supported(props@, linear_tiling, features, 0) == first_supported(
                props@,
                linear_tiling,
                features,
                i as int,
            ),
        decreases n - i,
    {
        let (lin, opt) = props[i];
        let supported = if linear_tiling {
            lin & features == features
        } else {
            opt & features == features
        };
        if supported {
            return Some(candidates[i]);
        }
        i = i + 1;
    }
    None
}

} // verus!
