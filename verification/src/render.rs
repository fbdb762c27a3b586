//! Per-frame GPU work counters, their hitch-log lines, and the choice of how
//! an entity's mesh is submitted.
use vstd::prelude::*;
use std::collections::HashSet;
use crate::text::{bool_text, decimal, push_bool, push_decimal};
use crate::world::{submit_name, EntityId, InstanceSubmit};

verus! {

/// GPU work counted during sync + draw, for the hitch log.
#[derive(Clone, Debug)]
pub struct GpuFrameStats {
    pub mesh_new: u32,
    pub mesh_rebuild: u32,
    pub instance_rewrites: u32,
    pub instance_batches: u32,
    pub batch_rewrites: u32,
    pub skinned_new: u32,
    pub skinned_model_uploads: u32,
    pub skinned_pose_writes: u32,
    pub shadow_atlas: bool,
    pub entities: u32,
    pub animated: u32,
    pub instance_submit: InstanceSubmit,
    pub compute_culls: u32,
    pub indirect_draws: u32,
    pub direct_inside_batches: u32,
    pub boundary_batches: u32,
    pub cull_instances: u64,
    pub cull_workgroups: u64,
}

impl Default for GpuFrameStats {
    /// Nothing counted yet, on the default CPU submit path.
    fn default() -> (s: Self)
        ensures
            s.mesh_new == 0 && s.mesh_rebuild == 0 && s.instance_rewrites == 0,
            s.instance_batches == 0 && s.batch_rewrites == 0 && s.skinned_new == 0,
            s.skinned_model_uploads == 0 && s.skinned_pose_writes == 0,
            !s.shadow_atlas && s.entities == 0 && s.animated == 0,
            s.instance_submit == InstanceSubmit::CpuIndexed,
            s.compute_culls == 0 && s.indirect_draws == 0,
            s.direct_inside_batches == 0 && s.boundary_batches == 0,
            s.cull_instances == 0 && s.cull_workgroups == 0,
    {
        GpuFrameStats {
            mesh_new: 0,
            mesh_rebuild: 0,
            instance_rewrites: 0,
            instance_batches: 0,
            batch_rewrites: 0,
            skinned_new: 0,
            skinned_model_uploads: 0,
            skinned_pose_writes: 0,
            shadow_atlas: false,
            entities: 0,
            animated: 0,
            instance_submit: InstanceSubmit::CpuIndexed,
            compute_culls: 0,
            indirect_draws: 0,
            direct_inside_batches: 0,
            boundary_batches: 0,
            cull_instances: 0,
            cull_workgroups: 0,
        }
    }
}

/// The sync half of a hitch-log line.
pub open spec fn sync_line_spec(s: GpuFrameStats) -> Seq<char> {
    "mesh_new="@ + decimal(s.mesh_new as nat)
        + " rebuild="@ + decimal(s.mesh_rebuild as nat)
        + " inst="@ + decimal(s.instance_rewrites as nat)
        + " batches="@ + decimal(s.instance_batches as nat)
        + " batch_rewrites="@ + decimal(s.batch_rewrites as nat)
        + " skinned_new="@ + decimal(s.skinned_new as nat)
        + " skinned_model="@ + decimal(s.skinned_model_uploads as nat)
        + " pose="@ + decimal(s.skinned_pose_writes as nat)
        + " entities="@ + decimal(s.entities as nat)
        + " animated="@ + decimal(s.animated as nat)
}

/// The draw half of a hitch-log line.
pub open spec fn draw_line_spec(s: GpuFrameStats) -> Seq<char> {
    "shadow_atlas="@ + bool_text(s.shadow_atlas)
        + " submit="@ + submit_name(s.instance_submit)
        + " inside="@ + decimal(s.direct_inside_batches as nat)
        + " boundary="@ + decimal(s.boundary_batches as nat)
        + " tested="@ + decimal(s.cull_instances as nat)
        + " groups="@ + decimal(s.cull_workgroups as nat)
        + " indirect="@ + decimal(s.indirect_draws as nat)
}

impl GpuFrameStats {
    pub fn sync_line(&self) -> (line: String)
        ensures
            line@ == sync_line_spec(*self),
    {
        let mut s = String::new();
        s.append("mesh_new=");
        push_decimal(&mut s, self.mesh_new as u64);
        s.append(" rebuild=");
        push_decimal(&mut s, self.mesh_rebuild as u64);
        s.append(" inst=");
        push_decimal(&mut s, self.instance_rewrites as u64);
        s.append(" batches=");
        push_decimal(&mut s, self.instance_batches as u64);
        s.append(" batch_rewrites=");
        push_decimal(&mut s, self.batch_rewrites as u64);
        s.append(" skinned_new=");
        push_decimal(&mut s, self.skinned_new as u64);
        s.append(" skinned_model=");
        push_decimal(&mut s, self.skinned_model_uploads as u64);
        s.append(" pose=");
        push_decimal(&mut s, self.skinned_pose_writes as u64);
        s.append(" entities=");
        push_decimal(&mut s, self.entities as u64);
        s.append(" animated=");
        push_decimal(&mut s, self.animated as u64);
        assert(s@ =~= sync_line_spec(*self));
        s
    }

    pub fn draw_line(&self) -> (line: String)
        ensures
            line@ == draw_line_spec(*self),
    {
        let mut s = String::new();
        s.append("shadow_atlas=");
        push_bool(&mut s, self.shadow_atlas);
        s.append(" submit=");
        s.append(self.instance_submit.as_str());
        s.append(" inside=");
        push_decimal(&mut s, self.direct_inside_batches as u64);
        s.append(" boundary=");
        push_decimal(&mut s, self.boundary_batches as u64);
        s.append(" tested=");
        push_decimal(&mut s, self.cull_instances);
        s.append(" groups=");
        push_decimal(&mut s, self.cull_workgroups);
        s.append(" indirect=");
        push_decimal(&mut s, self.indirect_draws as u64);
        assert(s@ =~= draw_line_spec(*self));
        s
    }
}

/// How an entity's mesh reaches the GPU this frame.
#[derive(Clone, Copy, Debug, PartialEq, Eq, Structural)]
pub enum MeshSubmit {
    Direct,
    Compacted,
}

/// Entities whose instances a GPU cull compacted this frame are drawn from
/// the compacted buffer; every other entity is drawn directly. `compacted`
/// holds the raw numbers of the compacted entities' handles.
pub fn mesh_submit(compacted: &HashSet<u64>, id: EntityId) -> (m: MeshSubmit)
    ensures
        m == (if compacted@.contains(id.0) {
            MeshSubmit::Compacted
        } else {
            MeshSubmit::Direct
        }),
{
    broadcast use vstd::std_specs::hash::group_hash_axioms;

    if compacted.contains(&id.0) {
        MeshSubmit::Compacted
    } else {
        MeshSubmit::Direct
    }
}

} // verus!
