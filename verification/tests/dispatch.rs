use tensor_dispatch::dispatch::{
    call_mul_and_act_contiguous, call_mul_and_act_strided, linear_split, BufferOffset, KernelArg,
    KernelError, ResourceUsage,
};
use tensor_dispatch::pipeline::PipelineCache;

#[test]
fn linear_split_rounds_the_group_count_up() {
    assert_eq!(linear_split(32, 100), (4, 32));
    assert_eq!(linear_split(32, 96), (3, 32));
    assert_eq!(linear_split(32, 1), (1, 1));
    assert_eq!(linear_split(128, 100), (1, 100));
}

#[test]
fn cache_lookup_returns_what_was_inserted() {
    let mut cache = PipelineCache::new();
    assert_eq!(cache.lookup(1, 7), None);
    let served = cache.get_or_insert(1, 7, 42);
    assert_eq!(served, 42);
    assert_eq!(cache.lookup(1, 7), Some(42));
    assert_eq!(cache.lookup(1, 8), None);
}

#[test]
fn first_writer_wins_on_the_same_key() {
    let mut cache = PipelineCache::new();
    let first = cache.get_or_insert(1, 7, 42);
    let second = cache.get_or_insert(1, 7, 99);
    assert_eq!(first, 42);
    assert_eq!(second, 42);
    assert_eq!(cache.lookup(1, 7), Some(42));
}

#[test]
fn distinct_keys_keep_distinct_pipelines() {
    let mut cache = PipelineCache::new();
    cache.get_or_insert(1, 7, 42);
    cache.get_or_insert(2, 7, 43);
    cache.get_or_insert(1, 8, 44);
    assert_eq!(cache.lookup(1, 7), Some(42));
    assert_eq!(cache.lookup(2, 7), Some(43));
    assert_eq!(cache.lookup(1, 8), Some(44));
}

#[test]
fn contiguous_dispatch_binds_arguments_in_order() {
    let mut cache = PipelineCache::new();
    let left = BufferOffset { buffer: 10, offset_in_bytes: 0 };
    let right = BufferOffset { buffer: 11, offset_in_bytes: 64 };
    let plan = call_mul_and_act_contiguous(&mut cache, 1, 7, Some(42), 32, 100, left, right, 12)
        .unwrap();
    assert_eq!(plan.pipeline, 42);
    assert_eq!(plan.thread_group_count, 4);
    assert_eq!(plan.thread_group_size, 32);
    assert_eq!(
        plan.args,
        vec![
            KernelArg::Scalar(100),
            KernelArg::Input(left),
            KernelArg::Input(right),
            KernelArg::Output(12),
        ]
    );
    assert_eq!(
        plan.resources,
        vec![
            (10, ResourceUsage::Read),
            (11, ResourceUsage::Read),
            (12, ResourceUsage::Write),
        ]
    );
}

#[test]
fn contiguous_dispatch_reuses_the_cached_pipeline() {
    let mut cache = PipelineCache::new();
    cache.get_or_insert(1, 7, 42);
    let left = BufferOffset { buffer: 10, offset_in_bytes: 0 };
    let right = BufferOffset { buffer: 11, offset_in_bytes: 0 };
    let plan =
        call_mul_and_act_contiguous(&mut cache, 1, 7, Some(99), 32, 8, left, right, 12).unwrap();
    assert_eq!(plan.pipeline, 42);
    assert_eq!(cache.lookup(1, 7), Some(42));
}

#[test]
fn missing_kernel_surfaces_a_load_error() {
    let mut cache = PipelineCache::new();
    let left = BufferOffset { buffer: 10, offset_in_bytes: 0 };
    let right = BufferOffset { buffer: 11, offset_in_bytes: 0 };
    let err =
        call_mul_and_act_contiguous(&mut cache, 1, 7, None, 32, 8, left, right, 12).unwrap_err();
    assert_eq!(err, KernelError::LoadFailed { device: 1, function: 7 });
    assert_eq!(cache.lookup(1, 7), None);
}

#[test]
fn strided_dispatch_passes_shape_and_strides() {
    let mut cache = PipelineCache::new();
    let left = BufferOffset { buffer: 10, offset_in_bytes: 0 };
    let right = BufferOffset { buffer: 11, offset_in_bytes: 0 };
    let plan = call_mul_and_act_strided(
        &mut cache,
        1,
        7,
        Some(42),
        32,
        vec![4, 5],
        left,
        vec![5, 1],
        right,
        vec![1, 4],
        12,
    )
    .unwrap();
    assert_eq!(plan.pipeline, 42);
    assert_eq!(plan.thread_group_count, 1);
    assert_eq!(plan.thread_group_size, 20);
    assert_eq!(
        plan.args,
        vec![
            KernelArg::Scalar(20),
            KernelArg::Scalar(2),
            KernelArg::Dims(vec![4, 5]),
            KernelArg::Dims(vec![5, 1]),
            KernelArg::Dims(vec![1, 4]),
            KernelArg::Input(left),
            KernelArg::Input(right),
            KernelArg::Output(12),
        ]
    );
    assert_eq!(
        plan.resources,
        vec![
            (10, ResourceUsage::Read),
            (11, ResourceUsage::Read),
            (12, ResourceUsage::Write),
        ]
    );
}
