//! Indirect-draw records and the draw slots a GPU cull fills.
use vstd::prelude::*;

verus! {

/// One `draw_indexed_indirect` record, laid out as the GPU reads it.
#[derive(Clone, Copy, Debug)]
pub struct DrawIndexedArgs {
    pub index_count: u32,
    pub instance_count: u32,
    pub first_index: u32,
    pub base_vertex: i32,
    pub first_instance: u32,
}

impl DrawIndexedArgs {
    pub open spec fn empty_range_spec(index_count: u32, first_index: u32) -> DrawIndexedArgs {
        DrawIndexedArgs { index_count, instance_count: 0, first_index, base_vertex: 0, first_instance: 0 }
    }

    /// A draw over an index range with no instances yet: the cull pass counts
    /// the survivors into `instance_count`.
    pub fn empty_range(index_count: u32, first_index: u32) -> (a: Self)
        ensures
            a == Self::empty_range_spec(index_count, first_index),
    {
        DrawIndexedArgs {
            index_count,
            instance_count: 0,
            first_index,
            base_vertex: 0,
            first_instance: 0,
        }
    }
}

/// Which index ranges of a mesh one cull job feeds.
#[derive(Clone, Copy, Debug, PartialEq, Eq, Structural)]
pub enum CullDraws {
    OpaqueOnly,
    OpaqueAndTranslucent,
}

/// Number of indirect draw records a cull job writes.
pub open spec fn cull_slots_spec(d: CullDraws) -> u32 {
    match d {
        CullDraws::OpaqueOnly => 1,
        CullDraws::OpaqueAndTranslucent => 2,
    }
}

impl CullDraws {
    pub fn slots(self) -> (n: u32)
        ensures
            n == cull_slots_spec(self),
    {
        match self {
            CullDraws::OpaqueOnly => 1,
            CullDraws::OpaqueAndTranslucent => 2,
        }
    }
}

/// Threads per cull workgroup.
pub const WORKGROUP: u32 = 64;

/// Workgroups that cover `instances` one thread each.
pub fn workgroups_for(instances: u32) -> (n: u32)
    ensures
        n as int * WORKGROUP >= instances,
        n == 0 || (n as int - 1) * WORKGROUP < instances,
{
    instances / WORKGROUP + if instances % WORKGROUP == 0 {
        0
    } else {
        1
    }
}

/// The two indirect records of a mesh: its opaque index range first, then the
/// translucent rest, both with no instances until a cull pass counts them.
pub fn indirect_records(opaque_index_count: usize, index_count: usize) -> (r: [DrawIndexedArgs; 2])
    requires
        opaque_index_count <= index_count,
        index_count <= u32::MAX,
    ensures
        r[0] == DrawIndexedArgs::empty_range_spec(opaque_index_count as u32, 0),
        r[1] == DrawIndexedArgs::empty_range_spec(
            (index_count - opaque_index_count) as u32,
            opaque_index_count as u32,
        ),
{
    let opaque = opaque_index_count as u32;
    let total = index_count as u32;
    [DrawIndexedArgs::empty_range(opaque, 0), DrawIndexedArgs::empty_range(total - opaque, opaque)]
}

/// `p` is a power of two.
pub open spec fn is_pow2(p: int) -> bool
    decreases p,
{
    if p <= 0 {
        false
    } else if p == 1 {
        true
    } else {
        p % 2 == 0 && is_pow2(p / 2)
    }
}

/// Smallest power of two not below `n`, where that fits a `usize`.
pub fn next_power_of_two(n: usize) -> (p: usize)
    requires
        1 <= n <= usize::MAX / 2 + 1,
    ensures
        is_pow2(p as int),
        n <= p,
        p < 2 * n,
{
    let mut p: usize = 1;
    while p < n
        invariant
            1 <= n <= usize::MAX / 2 + 1,
            1 <= p,
            is_pow2(p as int),
            p < 2 * n,
        decreases 2 * n - p,
    {
        proof {
            assert((2 * p) / 2 == p);
        }
        p = p * 2;
    }
    p
}

/// Bytes between consecutive parameter slots: the parameter block rounded up
/// to the device's uniform-offset alignment.
pub open spec fn slot_stride_spec(params_size: u64, alignment: u64) -> int {
    ((params_size + alignment - 1) / alignment as int) * alignment
}

/// Uniform parameter slots of the GPU cull pass.
///
/// A frame reserves enough slots for every dispatch it will record before it
/// records any; each dispatch then takes the next unused slots. A slot is
/// never handed out twice in one frame, because queue writes are not
/// interleaved with commands merely because they happen while a command
/// encoder is being populated.
pub struct CullParamSlots {
    stride: u64,
    capacity: usize,
    cursor: usize,
}

impl CullParamSlots {
    pub closed spec fn stride(&self) -> u64 {
        self.stride
    }

    pub closed spec fn capacity(&self) -> usize {
        self.capacity
    }

    /// First slot not yet taken this frame.
    pub closed spec fn cursor(&self) -> usize {
        self.cursor
    }

    pub open spec fn wf(&self) -> bool {
        &&& self.cursor() <= self.capacity()
        &&& 1 <= self.capacity()
        &&& is_pow2(self.capacity() as int)
    }

    /// One slot of `params_size` bytes padded to `alignment`.
    pub fn new(params_size: u64, alignment: u64) -> (s: Self)
        requires
            alignment > 0,
            params_size + alignment - 1 <= u64::MAX,
            slot_stride_spec(params_size, alignment) <= u64::MAX,
        ensures
            s.wf(),
            s.stride() == slot_stride_spec(params_size, alignment),
            s.capacity() == 1,
            s.cursor() == 0,
    {
        let stride = ((params_size + (alignment - 1)) / alignment) * alignment;
        CullParamSlots { stride, capacity: 1, cursor: 0 }
    }

    pub fn stride_bytes(&self) -> (b: u64)
        ensures
            b == self.stride(),
    {
        self.stride
    }

    pub fn slot_capacity(&self) -> (c: usize)
        ensures
            c == self.capacity(),
    {
        self.capacity
    }

    /// Start a frame that will dispatch at most `max_jobs` culls. Returns the
    /// new slot count when the parameter buffer must be reallocated.
    pub fn begin_frame(&mut self, max_jobs: usize) -> (grown: Option<usize>)
        requires
            old(self).wf(),
            max_jobs <= usize::MAX / 2 + 1,
        ensures
            final(self).wf(),
            final(self).cursor() == 0,
            final(self).stride() == old(self).stride(),
            ({
                let needed = if max_jobs < 1 {
                    1
                } else {
                    max_jobs as int
                };
                if needed > old(self).capacity() {
                    &&& grown == Some(final(self).capacity())
                    &&& needed <= final(self).capacity() < 2 * needed
                } else {
                    &&& grown is None
                    &&& final(self).capacity() == old(self).capacity()
                }
            }),
    {
        let needed = if max_jobs < 1 {
            1
        } else {
            max_jobs
        };
        let mut grown = None;
        if needed > self.capacity {
            let capacity = next_power_of_two(needed);
            self.capacity = capacity;
            grown = Some(capacity);
        }
        self.cursor = 0;
        grown
    }

    /// Take the next `jobs` slots of this frame. Returns the index of the first
    /// one; slot `i` lives at byte offset `i * stride`.
    pub fn take(&mut self, jobs: usize) -> (first: usize)
        requires
            old(self).wf(),
            old(self).cursor() + jobs <= old(self).capacity(),
        ensures
            final(self).wf(),
            first == old(self).cursor(),
            final(self).cursor() == old(self).cursor() + jobs,
            final(self).capacity() == old(self).capacity(),
            final(self).stride() == old(self).stride(),
    {
        let first = self.cursor;
        self.cursor = first + jobs;
        first
    }

    /// Slots left to take this frame.
    pub fn remaining(&self) -> (n: usize)
        requires
            self.wf(),
        ensures
            n == self.capacity() - self.cursor(),
    {
        self.capacity - self.cursor
    }
}

/// How many placements an instance buffer holds, and how many it has room
/// for before it must be allocated again.
pub struct InstanceCapacity {
    count: usize,
    capacity: usize,
}

impl InstanceCapacity {
    pub closed spec fn held(&self) -> usize {
        self.count
    }

    pub closed spec fn room(&self) -> usize {
        self.capacity
    }

    /// A buffer always has room for at least one placement.
    pub open spec fn wf(&self) -> bool {
        self.room() >= 1
    }

    /// A buffer made for `n` placements; an empty one still gets one slot.
    pub fn new(n: usize) -> (c: Self)
        ensures
            c.wf(),
            c.held() == n,
            c.room() == if n < 1 {
                1
            } else {
                n
            },
    {
        InstanceCapacity { count: n, capacity: if n < 1 { 1 } else { n } }
    }

    pub fn count(&self) -> (n: usize)
        ensures
            n == self.held(),
    {
        self.count
    }

    pub fn capacity(&self) -> (n: usize)
        ensures
            n == self.room(),
    {
        self.capacity
    }

    /// Replace the placements with `n` new ones. Returns whether the buffer
    /// had to be allocated again, which happens exactly when they outgrow it.
    pub fn update(&mut self, n: usize) -> (reallocated: bool)
        requires
            old(self).wf(),
        ensures
            final(self).wf(),
            reallocated == (n > old(self).room()),
            final(self).room() == if reallocated {
                n
            } else {
                old(self).room()
            },
            final(self).held() == n,
    {
        let reallocated = n > self.capacity;
        if reallocated {
            self.capacity = n;
        }
        self.count = n;
        reallocated
    }

    /// Draw no placements; the room stays.
    pub fn clear(&mut self)
        ensures
            final(self).held() == 0,
            final(self).room() == old(self).room(),
    {
        self.count = 0;
    }

    /// Byte offset of a partial write of `len` placements of `stride` bytes
    /// at placement `start`, or `None` when there is nothing to write.
    pub fn write_offset(&self, start: usize, len: usize, stride: usize) -> (offset: Option<u64>)
        requires
            start + len <= self.room(),
            start * stride <= usize::MAX,
            start * stride <= u64::MAX,
        ensures
            offset == if len == 0 {
                None::<u64>
            } else {
                Some((start * stride) as u64)
            },
    {
        if len == 0 {
            return None;
        }
        Some((start * stride) as u64)
    }
}

} // verus!
