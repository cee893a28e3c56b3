use vstd::prelude::*;

use crate::pipeline::{cached_after, served, PipelineCache};
use crate::shape::{numel, numel_of};

verus! {

/// A view of a region of device memory: an opaque buffer handle paired with
/// a byte offset into it. It does not own the buffer; several values may
/// reference one buffer at once.
#[derive(Clone, Copy, Debug, PartialEq, Eq, Structural)]
pub struct BufferOffset {
    pub buffer: u64,
    pub offset_in_bytes: usize,
}

/// The intended use of a buffer bound to a dispatch, declared to the device
/// layer so it can schedule overlapping work safely.
#[derive(Clone, Copy, Debug, PartialEq, Eq, Structural)]
pub enum ResourceUsage {
    Read,
    Write,
}

/// One argument bound to a kernel at dispatch, in binding order.
#[derive(Clone, Debug, PartialEq, Eq)]
pub enum KernelArg {
    /// A scalar such as the element count or the dimension count.
    Scalar(usize),
    /// A read-only input region.
    Input(BufferOffset),
    /// The output buffer.
    Output(u64),
    /// A dimension or stride array.
    Dims(Vec<usize>),
}

/// Everything the device layer needs to enqueue one kernel launch: the
/// pipeline to run, the launch geometry, the arguments in binding order, and
/// each buffer's declared usage.
#[derive(Clone, Debug, PartialEq, Eq)]
pub struct DispatchPlan {
    pub pipeline: u64,
    pub thread_group_count: usize,
    pub thread_group_size: usize,
    pub args: Vec<KernelArg>,
    pub resources: Vec<(u64, ResourceUsage)>,
}

/// A kernel could not be loaded for a device: the named function is missing
/// from its source family's compiled module, or device-side compilation
/// failed. Retrying cannot succeed, so the error is surfaced at once.
#[derive(Clone, Copy, Debug, PartialEq, Eq, Structural)]
pub enum KernelError {
    LoadFailed { device: u64, function: u64 },
}

/// Launch geometry for a flat element count: the thread-group size is the
/// pipeline's preferred size capped at `length`, and the group count is
/// `length` divided by that size, rounded up — enough groups to cover every
/// element, with fewer than one whole group to spare.
pub fn linear_split(max_threads: usize, length: usize) -> (r: (usize, usize))
    requires
        max_threads >= 1,
        length >= 1,
    ensures
        r.1 == (if length < max_threads {
            length
        } else {
            max_threads
        }),
        1 <= r.1 <= max_threads,
        r.0 >= 1,
        r.0 * r.1 >= length,
        (r.0 - 1) * r.1 < length,
{
    let size = if length < max_threads {
        length
    } else {
        max_threads
    };
    proof {
        assert((length - 1) as int / size as int <= length - 1) by (nonlinear_arith)
            requires
                size >= 1,
                length >= 1;
        assert((length - 1) as int / size as int >= 0) by (nonlinear_arith)
            requires
                size >= 1,
                length >= 1;
    }
    let count = (length - 1) / size + 1;
    proof {
        let q = (length - 1) as int / size as int;
        let rem = (length - 1) as int % size as int;
        vstd::arithmetic::div_mod::lemma_fundamental_div_mod((length - 1) as int, size as int);
        assert(0 <= rem < size) by (nonlinear_arith)
            requires
                size >= 1,
                rem == (length - 1) as int % size as int;
        assert(count * size >= length && (count - 1) * size < length) by (nonlinear_arith)
            requires
                count == q + 1,
                (length - 1) as int == size * q + rem,
                0 <= rem < size,
                size >= 1;
    }
    (count, size)
}

/// The dispatch plan for the contiguous multiply-and-activate kernel over
/// `length` elements: looks the pipeline up in the cache — caching `compiled`
/// on a miss, failing where there is nothing to cache — computes a linear
/// split of `length`, binds the element count, the two input regions and the
/// output buffer in that order, and declares the inputs read-only and the
/// output written.
pub fn call_mul_and_act_contiguous(
    cache: &mut PipelineCache,
    device: u64,
    function: u64,
    compiled: Option<u64>,
    max_threads: usize,
    length: usize,
    left: BufferOffset,
    right: BufferOffset,
    output: u64,
) -> (r: Result<DispatchPlan, KernelError>)
    requires
        old(cache).wf(),
        max_threads >= 1,
        length >= 1,
    ensures
        final(cache).wf(),
        r is Ok <==> (old(cache).cache_map().contains_key((device, function)) || compiled is Some),
        r matches Err(e) ==> e == (KernelError::LoadFailed { device, function }) && *final(cache)
            == *old(cache),
        r matches Ok(plan) ==> {
            &&& final(cache).cache_map() == cached_after(
                old(cache).cache_map(),
                device,
                function,
                compiled->Some_0,
            )
            &&& plan.pipeline == served(
                old(cache).cache_map(),
                device,
                function,
                compiled->Some_0,
            )
            &&& plan.thread_group_size == (if length < max_threads {
                length
            } else {
                max_threads
            })
            &&& plan.thread_group_count * plan.thread_group_size >= length
            &&& (plan.thread_group_count - 1) * plan.thread_group_size < length
            &&& plan.args@ == seq![
                KernelArg::Scalar(length),
                KernelArg::Input(left),
                KernelArg::Input(right),
                KernelArg::Output(output),
            ]
            &&& plan.resources@ == seq![
                (left.buffer, ResourceUsage::Read),
                (right.buffer, ResourceUsage::Read),
                (output, ResourceUsage::Write),
            ]
        },
{
    let pipeline = match load_pipeline(cache, device, function, compiled) {
        Ok(p) => p,
        Err(e) => {
            return Err(e);
        },
    };
    let split = linear_split(max_threads, length);
    let mut args: Vec<KernelArg> = Vec::new();
    args.push(KernelArg::Scalar(length));
    args.push(KernelArg::Input(left));
    args.push(KernelArg::Input(right));
    args.push(KernelArg::Output(output));
    let mut resources: Vec<(u64, ResourceUsage)> = Vec::new();
    resources.push((left.buffer, ResourceUsage::Read));
    resources.push((right.buffer, ResourceUsage::Read));
    resources.push((output, ResourceUsage::Write));
    proof {
        assert(args@ =~= seq![
            KernelArg::Scalar(length),
            KernelArg::Input(left),
            KernelArg::Input(right),
            KernelArg::Output(output),
        ]);
        assert(resources@ =~= seq![
            (left.buffer, ResourceUsage::Read),
            (right.buffer, ResourceUsage::Read),
            (output, ResourceUsage::Write),
        ]);
    }
    Ok(
        DispatchPlan {
            pipeline,
            thread_group_count: split.0,
            thread_group_size: split.1,
            args,
            resources,
        },
    )
}

/// The dispatch plan for the strided multiply-and-activate kernel over a
/// logical shape with per-operand strides: the element count is the shape's
/// product, and the kernel additionally receives the dimension count, the
/// shape and both stride arrays so it can map a flat thread id to a
/// multi-dimensional position in each operand.
pub fn call_mul_and_act_strided(
    cache: &mut PipelineCache,
    device: u64,
    function: u64,
    compiled: Option<u64>,
    max_threads: usize,
    shape: Vec<usize>,
    left: BufferOffset,
    left_strides: Vec<usize>,
    right: BufferOffset,
    right_strides: Vec<usize>,
    output: u64,
) -> (r: Result<DispatchPlan, KernelError>)
    requires
        old(cache).wf(),
        max_threads >= 1,
        1 <= numel(shape@) <= usize::MAX,
        left_strides@.len() == shape@.len(),
        right_strides@.len() == shape@.len(),
    ensures
        final(cache).wf(),
        r is Ok <==> (old(cache).cache_map().contains_key((device, function)) || compiled is Some),
        r matches Err(e) ==> e == (KernelError::LoadFailed { device, function }) && *final(cache)
            == *old(cache),
        r matches Ok(plan) ==> {
            &&& final(cache).cache_map() == cached_after(
                old(cache).cache_map(),
                device,
                function,
                compiled->Some_0,
            )
            &&& plan.pipeline == served(
                old(cache).cache_map(),
                device,
                function,
                compiled->Some_0,
            )
            &&& plan.thread_group_size == (if numel(shape@) < max_threads {
                numel(shape@)
            } else {
                max_threads as int
            })
            &&& plan.thread_group_count * plan.thread_group_size >= numel(shape@)
            &&& (plan.thread_group_count - 1) * plan.thread_group_size < numel(shape@)
            &&& plan.args@ == seq![
                KernelArg::Scalar(numel(shape@) as usize),
                KernelArg::Scalar(shape@.len() as usize),
                KernelArg::Dims(shape),
                KernelArg::Dims(left_strides),
                KernelArg::Dims(right_strides),
                KernelArg::Input(left),
                KernelArg::Input(right),
                KernelArg::Output(output),
            ]
            &&& plan.resources@ == seq![
                (left.buffer, ResourceUsage::Read),
                (right.buffer, ResourceUsage::Read),
                (output, ResourceUsage::Write),
            ]
        },
{
    let pipeline = match load_pipeline(cache, device, function, compiled) {
        Ok(p) => p,
        Err(e) => {
            return Err(e);
        },
    };
    let length = match numel_of(&shape) {
        Some(n) => n,
        None => vstd::pervasive::unreached(),
    };
    let num_dims = shape.len();
    let split = linear_split(max_threads, length);
    let mut args: Vec<KernelArg> = Vec::new();
    args.push(KernelArg::Scalar(length));
    args.push(KernelArg::Scalar(num_dims));
    args.push(KernelArg::Dims(shape));
    args.push(KernelArg::Dims(left_strides));
    args.push(KernelArg::Dims(right_strides));
    args.push(KernelArg::Input(left));
    args.push(KernelArg::Input(right));
    args.push(KernelArg::Output(output));
    let mut resources: Vec<(u64, ResourceUsage)> = Vec::new();
    resources.push((left.buffer, ResourceUsage::Read));
    resources.push((right.buffer, ResourceUsage::Read));
    resources.push((output, ResourceUsage::Write));
    proof {
        assert(resources@ =~= seq![
            (left.buffer, ResourceUsage::Read),
            (right.buffer, ResourceUsage::Read),
            (output, ResourceUsage::Write),
        ]);
    }
    Ok(
        DispatchPlan {
            pipeline,
            thread_group_count: split.0,
            thread_group_size: split.1,
            args,
            resources,
        },
    )
}

/// Looks the pipeline for `(device, function)` up in the cache. On a miss it
/// caches `compiled` — the pipeline the device layer built for that function
/// — and where the device layer built none, reports the load failure without
/// touching the cache.
pub fn load_pipeline(
    cache: &mut PipelineCache,
    device: u64,
    function: u64,
    compiled: Option<u64>,
) -> (r: Result<u64, KernelError>)
    requires
        old(cache).wf(),
    ensures
        final(cache).wf(),
        r is Ok <==> (old(cache).cache_map().contains_key((device, function)) || compiled is Some),
        r matches Err(e) ==> e == (KernelError::LoadFailed { device, function }) && *final(cache)
            == *old(cache),
        r matches Ok(p) ==> {
            &&& p == served(old(cache).cache_map(), device, function, compiled->Some_0)
            &&& final(cache).cache_map() == cached_after(
                old(cache).cache_map(),
                device,
                function,
                compiled->Some_0,
            )
            &&& final(cache).cache_map().contains_key((device, function))
        },
{
    match cache.lookup(device, function) {
        Some(p) => Ok(p),
        None => match compiled {
            Some(c) => Ok(cache.get_or_insert(device, function, c)),
            None => Err(KernelError::LoadFailed { device, function }),
        },
    }
}

} // verus!
