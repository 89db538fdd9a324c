//! Thread-local accounting stack for allocation profiling.
//!
//! Each in-flight instrumented call on a thread owns one frame. The allocator
//! hook adds every allocation and deallocation to the top frame; a guard pushes
//! a frame on construction and pops it on teardown. The stack has a fixed
//! capacity and never grows, so its bookkeeping can never itself allocate.

use vstd::prelude::*;

verus! {

/// Fixed capacity of the accounting stack. Frame 0 is the implicit root frame
/// that belongs to no measured call, so at most `MAX_DEPTH - 1` instrumented
/// calls may be in flight on one thread at a time.
pub const MAX_DEPTH: usize = 64;

/// Accumulated allocation activity of one in-flight call.
#[derive(Clone, Copy, Debug)]
pub struct AllocationInfo {
    /// Total bytes allocated while the frame was on top of the stack.
    pub bytes_total: u64,
    /// Total number of allocations made while the frame was on top.
    pub count_total: u64,
    /// Net bytes currently held: allocations minus deallocations.
    pub bytes_current: i64,
    /// Largest positive `bytes_current` observed.
    pub bytes_max: u64,
    /// Net number of live allocations: allocations minus deallocations.
    pub count_current: i64,
    /// Largest positive `count_current` observed.
    pub count_max: u64,
    /// Set when the frame's numbers cannot be attributed reliably.
    pub unsupported_async: bool,
}

impl AllocationInfo {
    /// The frame a newly pushed guard starts from.
    pub open spec fn spec_empty() -> AllocationInfo {
        AllocationInfo {
            bytes_total: 0,
            count_total: 0,
            bytes_current: 0,
            bytes_max: 0,
            count_current: 0,
            count_max: 0,
            unsupported_async: false,
        }
    }

    pub fn empty() -> (r: AllocationInfo)
        ensures
            r == AllocationInfo::spec_empty(),
    {
        AllocationInfo {
            bytes_total: 0,
            count_total: 0,
            bytes_current: 0,
            bytes_max: 0,
            count_current: 0,
            count_max: 0,
            unsupported_async: false,
        }
    }
}

/// `a + b` clamped to the range of `u64`.
pub open spec fn sat_add_u64(a: u64, b: u64) -> u64 {
    if a + b > u64::MAX {
        u64::MAX
    } else {
        (a + b) as u64
    }
}

/// `a + b` clamped to the range of `i64`.
pub open spec fn sat_add_i64(a: i64, b: int) -> i64 {
    if a + b > i64::MAX {
        i64::MAX
    } else if a + b < i64::MIN {
        i64::MIN
    } else {
        (a + b) as i64
    }
}

/// The effect of recording one allocation of `size` bytes on a frame.
pub open spec fn spec_frame_alloc(f: AllocationInfo, size: usize) -> AllocationInfo {
    let cur = sat_add_i64(f.bytes_current, size as int);
    let ccur = sat_add_i64(f.count_current, 1);
    AllocationInfo {
        bytes_total: sat_add_u64(f.bytes_total, size as u64),
        count_total: sat_add_u64(f.count_total, 1),
        bytes_current: cur,
        bytes_max: if cur > 0 && cur > f.bytes_max {
            cur as u64
        } else {
            f.bytes_max
        },
        count_current: ccur,
        count_max: if ccur > 0 && ccur > f.count_max {
            ccur as u64
        } else {
            f.count_max
        },
        unsupported_async: f.unsupported_async,
    }
}

/// The effect of recording one deallocation of `size` bytes on a frame.
pub open spec fn spec_frame_dealloc(f: AllocationInfo, size: usize) -> AllocationInfo {
    AllocationInfo {
        bytes_total: f.bytes_total,
        count_total: f.count_total,
        bytes_current: sat_add_i64(f.bytes_current, -(size as int)),
        bytes_max: f.bytes_max,
        count_current: sat_add_i64(f.count_current, -1),
        count_max: f.count_max,
        unsupported_async: f.unsupported_async,
    }
}

/// A popped frame merged into the frame below it (cumulative accounting).
pub open spec fn spec_frame_merge(parent: AllocationInfo, child: AllocationInfo) -> AllocationInfo {
    let cur = sat_add_i64(parent.bytes_current, child.bytes_current as int);
    AllocationInfo {
        bytes_total: sat_add_u64(parent.bytes_total, child.bytes_total),
        count_total: sat_add_u64(parent.count_total, child.count_total),
        bytes_current: cur,
        bytes_max: if parent.bytes_max >= child.bytes_max {
            parent.bytes_max
        } else {
            child.bytes_max
        },
        count_current: sat_add_i64(parent.count_current, child.count_current as int),
        count_max: if parent.count_max >= child.count_max {
            parent.count_max
        } else {
            child.count_max
        },
        unsupported_async: parent.unsupported_async || child.unsupported_async,
    }
}

/// The frame sequence after a new frame is begun above `depth`.
pub open spec fn stack_push(frames: Seq<AllocationInfo>, depth: int) -> Seq<AllocationInfo> {
    frames.update(depth + 1, AllocationInfo::spec_empty())
}

/// The frame sequence after an allocation of `size` bytes lands on the frame
/// at `depth`.
pub open spec fn stack_alloc(
    frames: Seq<AllocationInfo>,
    depth: int,
    size: usize,
) -> Seq<AllocationInfo> {
    frames.update(depth, spec_frame_alloc(frames[depth], size))
}

/// The totals reported when the frame at `depth` is popped.
pub open spec fn stack_pop_result(frames: Seq<AllocationInfo>, depth: int) -> AllocationInfo {
    frames[depth]
}

/// The frame sequence after the frame at `depth` is popped: under cumulative
/// accounting its totals are merged into the frame below, otherwise the lower
/// frames are untouched.
pub open spec fn stack_pop_frames(
    frames: Seq<AllocationInfo>,
    depth: int,
    cumulative: bool,
) -> Seq<AllocationInfo> {
    if cumulative {
        frames.update(depth - 1, spec_frame_merge(frames[depth - 1], frames[depth]))
    } else {
        frames
    }
}

/// Fixed-depth stack of accounting frames for one thread.
///
/// When `cumulative` is set, the totals of a popped frame are merged into the
/// frame below it, so an outer call's totals include everything allocated by
/// the calls nested inside it. Otherwise each frame reports only its own
/// allocations.
pub struct AllocationInfoStack {
    /// Index of the current top frame; 0 is the root frame.
    pub depth: usize,
    pub elements: Vec<AllocationInfo>,
    /// Whether popped frames are merged into their parent frame.
    pub cumulative: bool,
}

impl AllocationInfoStack {
    pub open spec fn wf(self) -> bool {
        &&& self.elements.len() == MAX_DEPTH
        &&& self.depth < MAX_DEPTH
    }

    pub open spec fn spec_top(self) -> AllocationInfo {
        self.elements[self.depth as int]
    }

    pub fn new(cumulative: bool) -> (r: AllocationInfoStack)
        ensures
            r.wf(),
            r.depth == 0,
            r.cumulative == cumulative,
            forall|i: int|
                0 <= i < MAX_DEPTH ==> r.elements[i] == AllocationInfo::spec_empty(),
    {
        let mut elements: Vec<AllocationInfo> = Vec::new();
        let mut i: usize = 0;
        while i < MAX_DEPTH
            invariant
                i <= MAX_DEPTH,
                elements.len() == i,
                forall|j: int| 0 <= j < i ==> elements[j] == AllocationInfo::spec_empty(),
            decreases MAX_DEPTH - i,
        {
            elements.push(AllocationInfo::empty());
            i = i + 1;
        }
        AllocationInfoStack { depth: 0, elements, cumulative }
    }

    /// Begins a new frame for an instrumented call.
    ///
    /// Exceeding the fixed capacity is a programmer-contract violation that
    /// callers must rule out before entry; the stack itself never reallocates.
    pub fn push(&mut self)
        requires
            old(self).wf(),
            old(self).depth + 1 < MAX_DEPTH,
        ensures
            final(self).wf(),
            final(self).depth == old(self).depth + 1,
            final(self).cumulative == old(self).cumulative,
            final(self).elements@ == stack_push(old(self).elements@, old(self).depth as int),
            final(self).spec_top() == AllocationInfo::spec_empty(),
    {
        self.depth = self.depth + 1;
        self.elements.set(self.depth, AllocationInfo::empty());
    }

    /// Ends the top frame and returns its totals.
    ///
    /// With cumulative accounting the totals are also merged into the frame
    /// below, so the outer call's report includes the nested call's activity.
    pub fn pop(&mut self) -> (r: AllocationInfo)
        requires
            old(self).wf(),
            old(self).depth >= 1,
        ensures
            final(self).wf(),
            final(self).depth == old(self).depth - 1,
            final(self).cumulative == old(self).cumulative,
            r == old(self).spec_top(),
            r == stack_pop_result(old(self).elements@, old(self).depth as int),
            final(self).elements@ == stack_pop_frames(
                old(self).elements@,
                old(self).depth as int,
                old(self).cumulative,
            ),
            final(self).spec_top() == if old(self).cumulative {
                spec_frame_merge(old(self).elements[old(self).depth - 1], r)
            } else {
                old(self).elements[old(self).depth - 1]
            },
    {
        let top_idx = self.depth;
        let popped = self.elements[top_idx];
        self.depth = self.depth - 1;
        if self.cumulative {
            let parent_idx = self.depth;
            let merged = merge_frames(&self.elements[parent_idx], &popped);
            self.elements.set(parent_idx, merged);
            assert(self.elements@ =~= old(self).elements@.update(
                parent_idx as int,
                spec_frame_merge(old(self).elements[parent_idx as int], popped),
            ));
        }
        popped
    }
}

fn merge_frames(parent: &AllocationInfo, child: &AllocationInfo) -> (r: AllocationInfo)
    ensures
        r == spec_frame_merge(*parent, *child),
{
    AllocationInfo {
        bytes_total: sat_add_u64_exec(parent.bytes_total, child.bytes_total),
        count_total: sat_add_u64_exec(parent.count_total, child.count_total),
        bytes_current: sat_add_i64_exec(parent.bytes_current, child.bytes_current),
        bytes_max: if parent.bytes_max >= child.bytes_max {
            parent.bytes_max
        } else {
            child.bytes_max
        },
        count_current: sat_add_i64_exec(parent.count_current, child.count_current),
        count_max: if parent.count_max >= child.count_max {
            parent.count_max
        } else {
            child.count_max
        },
        unsupported_async: parent.unsupported_async || child.unsupported_async,
    }
}

fn sat_add_u64_exec(a: u64, b: u64) -> (r: u64)
    ensures
        r == sat_add_u64(a, b),
{
    if b <= u64::MAX - a {
        a + b
    } else {
        u64::MAX
    }
}

fn sat_add_i64_exec(a: i64, b: i64) -> (r: i64)
    ensures
        r == sat_add_i64(a, b as int),
{
    let wide: i128 = a as i128 + b as i128;
    if wide > i64::MAX as i128 {
        i64::MAX
    } else if wide < i64::MIN as i128 {
        i64::MIN
    } else {
        wide as i64
    }
}

/// Records one allocation of `size` bytes into the calling thread's top frame.
///
/// With no guard active (depth 0) the allocation lands in the root frame,
/// which no guard ever reports. The arithmetic saturates, so the hook can
/// never fail, whatever the history of the frame.
pub fn track_alloc(stack: &mut AllocationInfoStack, size: usize)
    requires
        old(stack).wf(),
    ensures
        final(stack).wf(),
        final(stack).depth == old(stack).depth,
        final(stack).cumulative == old(stack).cumulative,
        final(stack).elements@ == stack_alloc(
            old(stack).elements@,
            old(stack).depth as int,
            size,
        ),
{
    let idx = stack.depth;
    let f = stack.elements[idx];
    let wide: i128 = f.bytes_current as i128 + size as i128;
    let cur: i64 = if wide > i64::MAX as i128 {
        i64::MAX
    } else {
        wide as i64
    };
    let ccur: i64 = if f.count_current < i64::MAX {
        f.count_current + 1
    } else {
        i64::MAX
    };
    let updated = AllocationInfo {
        bytes_total: sat_add_u64_exec(f.bytes_total, size as u64),
        count_total: sat_add_u64_exec(f.count_total, 1),
        bytes_current: cur,
        bytes_max: if cur > 0 && cur as u64 > f.bytes_max {
            cur as u64
        } else {
            f.bytes_max
        },
        count_current: ccur,
        count_max: if ccur > 0 && ccur as u64 > f.count_max {
            ccur as u64
        } else {
            f.count_max
        },
        unsupported_async: f.unsupported_async,
    };
    stack.elements.set(idx, updated);
}

/// Records one deallocation of `size` bytes into the calling thread's top frame.
pub fn track_dealloc(stack: &mut AllocationInfoStack, size: usize)
    requires
        old(stack).wf(),
    ensures
        final(stack).wf(),
        final(stack).depth == old(stack).depth,
        final(stack).cumulative == old(stack).cumulative,
        final(stack).elements@ == old(stack).elements@.update(
            old(stack).depth as int,
            spec_frame_dealloc(old(stack).spec_top(), size),
        ),
{
    let idx = stack.depth;
    let f = stack.elements[idx];
    let wide: i128 = f.bytes_current as i128 - size as i128;
    let cur: i64 = if wide < i64::MIN as i128 {
        i64::MIN
    } else {
        wide as i64
    };
    let ccur: i64 = if f.count_current > i64::MIN {
        f.count_current - 1
    } else {
        i64::MIN
    };
    let updated = AllocationInfo { bytes_current: cur, count_current: ccur, ..f };
    stack.elements.set(idx, updated);
}

/// Nested allocation accounting. An outer instrumented call allocates `x`
/// bytes, then an inner nested call allocates `y` bytes, and both frames are
/// popped in turn. Under cumulative accounting the inner call reports `y` and
/// the outer call reports `x + y`; under exclusive accounting the inner call
/// reports `y` and the outer call reports only its own `x`. The same holds of
/// the allocation counts: one allocation each, two for the cumulative outer
/// frame.
pub proof fn lemma_nested_accounting(
    frames0: Seq<AllocationInfo>,
    depth0: int,
    x: usize,
    y: usize,
    cumulative: bool,
)
    requires
        0 <= depth0,
        depth0 + 2 < frames0.len(),
        x + y <= u64::MAX,
    ensures
        ({
            let f1 = stack_push(frames0, depth0);
            let f2 = stack_alloc(f1, depth0 + 1, x);
            let f3 = stack_push(f2, depth0 + 1);
            let f4 = stack_alloc(f3, depth0 + 2, y);
            let inner = stack_pop_result(f4, depth0 + 2);
            let f5 = stack_pop_frames(f4, depth0 + 2, cumulative);
            let outer = stack_pop_result(f5, depth0 + 1);
            &&& inner.bytes_total == y
            &&& inner.count_total == 1
            &&& cumulative ==> outer.bytes_total == x + y && outer.count_total == 2
            &&& !cumulative ==> outer.bytes_total == x && outer.count_total == 1
        }),
{
}

/// The process-wide allocator hook's dispatch point. The program installs an
/// allocator whose hooks forward every allocation and deallocation here,
/// guarded by a thread-local re-entrancy flag; these calls never allocate,
/// so the hook can never recurse into itself.
pub struct CountingAllocator;

impl CountingAllocator {
    /// Forwards one allocation to the calling thread's accounting stack.
    pub fn on_alloc(stack: &mut AllocationInfoStack, size: usize)
        requires
            old(stack).wf(),
        ensures
            final(stack).wf(),
            final(stack).depth == old(stack).depth,
            final(stack).cumulative == old(stack).cumulative,
            final(stack).elements@ == stack_alloc(
                old(stack).elements@,
                old(stack).depth as int,
                size,
            ),
    {
        track_alloc(stack, size);
    }

    /// Forwards one deallocation to the calling thread's accounting stack.
    pub fn on_dealloc(stack: &mut AllocationInfoStack, size: usize)
        requires
            old(stack).wf(),
        ensures
            final(stack).wf(),
            final(stack).depth == old(stack).depth,
            final(stack).cumulative == old(stack).cumulative,
            final(stack).elements@ == old(stack).elements@.update(
                old(stack).depth as int,
                spec_frame_dealloc(old(stack).spec_top(), size),
            ),
    {
        track_dealloc(stack, size);
    }
}

} // verus!
