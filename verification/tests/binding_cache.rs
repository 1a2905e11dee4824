use render_graph::binding_cache::{
    check_layout, BindingCache, BindingError, BindingSet, ResourceHandle, ResourceKind,
};
use render_graph::graph::RenderPassHandle;
use render_graph::pipeline_cache::{Pipeline, PipelineCache, PipelineSpec, PrimitiveTopology, SlotLayout};

fn buffer(id: u64) -> ResourceHandle {
    ResourceHandle { kind: ResourceKind::Buffer, id }
}

fn image(id: u64) -> ResourceHandle {
    ResourceHandle { kind: ResourceKind::Image, id }
}

fn pipelines() -> (Pipeline, Pipeline) {
    let spec = PipelineSpec {
        vs_path: "vert.glsl".to_string(),
        fs_path: "frag.glsl".to_string(),
        fill_type: PrimitiveTopology::TriangleList,
        read_depth: true,
        write_depth: true,
        vertex_type: 0,
        slots: vec![SlotLayout::Buffers(2), SlotLayout::Unused, SlotLayout::Images(3)],
    };
    let mut cache = PipelineCache::new();
    let first = cache.get_or_build(&spec, RenderPassHandle(1));
    let second = cache.get_or_build(&spec, RenderPassHandle(2));
    (first, second)
}

#[test]
fn identical_requests_give_the_same_binding_set() {
    let (pipeline, _) = pipelines();
    let mut cache = BindingCache::new();
    let first = cache.get_or_build(&pipeline, 0, vec![buffer(10), buffer(11)]);
    let second = cache.get_or_build(&pipeline, 0, vec![buffer(10), buffer(11)]);
    assert_eq!(first, Ok(BindingSet { id: 0, pipeline: 0, slot: 0 }));
    assert_eq!(second, first);
    assert_eq!(cache.build_count(), 1);
}

#[test]
fn changing_one_resource_gives_a_distinct_binding_set() {
    let (pipeline, _) = pipelines();
    let mut cache = BindingCache::new();
    let first = cache.get_or_build(&pipeline, 0, vec![buffer(10), buffer(11)]).unwrap();
    let second = cache.get_or_build(&pipeline, 0, vec![buffer(10), buffer(12)]).unwrap();
    let third = cache.get_or_build(&pipeline, 0, vec![buffer(9), buffer(11)]).unwrap();
    assert_eq!(first.id, 0);
    assert_eq!(second.id, 1);
    assert_eq!(third.id, 2);
    assert_eq!(cache.build_count(), 3);
}

#[test]
fn order_of_resources_is_part_of_the_key() {
    let (pipeline, _) = pipelines();
    let mut cache = BindingCache::new();
    let first = cache.get_or_build(&pipeline, 0, vec![buffer(10), buffer(11)]).unwrap();
    let second = cache.get_or_build(&pipeline, 0, vec![buffer(11), buffer(10)]).unwrap();
    assert_ne!(first.id, second.id);
}

#[test]
fn pipeline_and_slot_are_part_of_the_key() {
    let spec = PipelineSpec {
        vs_path: "vert.glsl".to_string(),
        fs_path: "frag.glsl".to_string(),
        fill_type: PrimitiveTopology::TriangleList,
        read_depth: true,
        write_depth: true,
        vertex_type: 0,
        slots: vec![SlotLayout::Buffers(1), SlotLayout::Buffers(1)],
    };
    let mut built = PipelineCache::new();
    let first = built.get_or_build(&spec, RenderPassHandle(1));
    let second = built.get_or_build(&spec, RenderPassHandle(2));
    let mut cache = BindingCache::new();
    let a = cache.get_or_build(&first, 0, vec![buffer(5)]).unwrap();
    let b = cache.get_or_build(&first, 1, vec![buffer(5)]).unwrap();
    let c = cache.get_or_build(&second, 0, vec![buffer(5)]).unwrap();
    assert_eq!(a, BindingSet { id: 0, pipeline: 0, slot: 0 });
    assert_eq!(b, BindingSet { id: 1, pipeline: 0, slot: 1 });
    assert_eq!(c, BindingSet { id: 2, pipeline: 1, slot: 0 });
    assert_eq!(cache.get_or_build(&first, 1, vec![buffer(5)]), Ok(b));
}

#[test]
fn wrong_number_of_resources_is_refused() {
    let (pipeline, _) = pipelines();
    let mut cache = BindingCache::new();
    assert_eq!(
        cache.get_or_build(&pipeline, 0, vec![buffer(10)]),
        Err(BindingError::CountMismatch { expected: 2, found: 1 })
    );
    assert_eq!(
        cache.get_or_build(&pipeline, 2, vec![image(1), image(2), image(3), image(4)]),
        Err(BindingError::CountMismatch { expected: 3, found: 4 })
    );
    assert_eq!(cache.build_count(), 0);
}

#[test]
fn resource_of_the_wrong_kind_is_refused() {
    let (pipeline, _) = pipelines();
    let mut cache = BindingCache::new();
    assert_eq!(
        cache.get_or_build(&pipeline, 0, vec![buffer(10), image(11)]),
        Err(BindingError::KindMismatch { index: 1, expected: ResourceKind::Buffer })
    );
    assert_eq!(
        cache.get_or_build(&pipeline, 2, vec![buffer(1), image(2), buffer(3)]),
        Err(BindingError::KindMismatch { index: 0, expected: ResourceKind::Image })
    );
    assert_eq!(cache.build_count(), 0);
}

#[test]
fn wrong_count_is_reported_before_wrong_kind() {
    let (pipeline, _) = pipelines();
    assert_eq!(
        check_layout(&pipeline, 0, &vec![image(1)]),
        Err(BindingError::CountMismatch { expected: 2, found: 1 })
    );
}

#[test]
fn slot_that_the_pipeline_does_not_declare_is_refused() {
    let (pipeline, _) = pipelines();
    let mut cache = BindingCache::new();
    assert_eq!(cache.get_or_build(&pipeline, 1, vec![]), Err(BindingError::UnusedSlot { slot: 1 }));
    assert_eq!(
        cache.get_or_build(&pipeline, 3, vec![buffer(1)]),
        Err(BindingError::UnusedSlot { slot: 3 })
    );
}

#[test]
fn fitting_resources_pass_the_layout_check() {
    let (pipeline, _) = pipelines();
    assert_eq!(check_layout(&pipeline, 0, &vec![buffer(1), buffer(2)]), Ok(()));
    assert_eq!(check_layout(&pipeline, 2, &vec![image(1), image(2), image(3)]), Ok(()));
}

#[test]
fn recreated_attachment_gets_a_new_binding_set() {
    let (pipeline, _) = pipelines();
    let mut cache = BindingCache::new();
    let before = cache.get_or_build(&pipeline, 2, vec![image(0), image(1), image(2)]).unwrap();
    let after = cache.get_or_build(&pipeline, 2, vec![image(3), image(1), image(2)]).unwrap();
    assert_ne!(before.id, after.id);
}
