use vstd::prelude::*;
use crate::common::owned;

verus! {

/// The kinds of compute device work can be scheduled onto.
#[derive(Debug, Clone, Copy, PartialEq, Eq, Hash, Structural)]
pub enum ComputeTarget {
    Cpu,
    Gpu,
    Npu,
    Dsp,
    Fpga,
    Tpu,
    RemoteCluster,
}

/// Number of compute targets.
pub const TARGET_COUNT: usize = 7;

/// Position of a target in per-target tables.
pub open spec fn target_slot(t: ComputeTarget) -> int {
    match t {
        ComputeTarget::Cpu => 0,
        ComputeTarget::Gpu => 1,
        ComputeTarget::Npu => 2,
        ComputeTarget::Dsp => 3,
        ComputeTarget::Fpga => 4,
        ComputeTarget::Tpu => 5,
        ComputeTarget::RemoteCluster => 6,
    }
}

/// Display label of a target.
pub open spec fn target_label(t: ComputeTarget) -> Seq<char> {
    match t {
        ComputeTarget::Cpu => "CPU"@,
        ComputeTarget::Gpu => "GPU"@,
        ComputeTarget::Npu => "NPU"@,
        ComputeTarget::Dsp => "DSP"@,
        ComputeTarget::Fpga => "FPGA"@,
        ComputeTarget::Tpu => "TPU"@,
        ComputeTarget::RemoteCluster => "RemoteCluster"@,
    }
}

impl ComputeTarget {
    pub fn slot(&self) -> (i: usize)
        ensures
            i == target_slot(*self),
            i < TARGET_COUNT,
    {
        match self {
            ComputeTarget::Cpu => 0,
            ComputeTarget::Gpu => 1,
            ComputeTarget::Npu => 2,
            ComputeTarget::Dsp => 3,
            ComputeTarget::Fpga => 4,
            ComputeTarget::Tpu => 5,
            ComputeTarget::RemoteCluster => 6,
        }
    }

    /// The target's display label ("CPU", "GPU", ..., "RemoteCluster").
    pub fn to_string(&self) -> (s: String)
        ensures
            s@ == target_label(*self),
    {
        match self {
            ComputeTarget::Cpu => owned("CPU"),
            ComputeTarget::Gpu => owned("GPU"),
            ComputeTarget::Npu => owned("NPU"),
            ComputeTarget::Dsp => owned("DSP"),
            ComputeTarget::Fpga => owned("FPGA"),
            ComputeTarget::Tpu => owned("TPU"),
            ComputeTarget::RemoteCluster => owned("RemoteCluster"),
        }
    }
}

/// Distinct targets occupy distinct table slots.
pub proof fn lemma_target_slots_distinct(a: ComputeTarget, b: ComputeTarget)
    ensures
        target_slot(a) == target_slot(b) <==> a == b,
        0 <= target_slot(a) < TARGET_COUNT,
{
}

} // verus!
