use render_graph::binding_cache::{BindingSet, ResourceHandle, ResourceKind};
use render_graph::frame::{
    Command, Frame, IndexBuffer, MeshBuffers, RenderableObject, Step, Viewport,
};
use render_graph::graph::{CreatedImage, GraphError, PassDescriptor, RenderPassHandle};
use render_graph::image::{AllocError, Attachment, Extent, Format, ImageAllocator, Usage};
use render_graph::pipeline_cache::{PipelineSpec, PrimitiveTopology, SlotLayout};
use render_graph::schedule::FrameError;
use render_graph::system::System;
use render_graph::tag_map::TagMap;

const SMALL: Extent = Extent { width: 800, height: 600 };
const LARGE: Extent = Extent { width: 1920, height: 1080 };

fn color() -> Usage {
    Usage { sampled: true, color_attachment: true, depth_attachment: false }
}

fn depth() -> Usage {
    Usage { sampled: true, color_attachment: false, depth_attachment: true }
}

fn pass(name: &str, render_pass: u64, created: &[&str], needed: &[&str]) -> PassDescriptor {
    PassDescriptor {
        name: name.to_string(),
        images_created: created
            .iter()
            .map(|tag| CreatedImage { tag: tag.to_string(), format: Format::R8G8B8A8Unorm, usage: color() })
            .collect(),
        images_needed: needed.iter().map(|tag| tag.to_string()).collect(),
        buffers_needed: vec![],
        render_pass: RenderPassHandle(render_pass),
        pipeline_spec: None,
    }
}

fn spec(fs_path: &str) -> PipelineSpec {
    PipelineSpec {
        vs_path: "shaders/vert.glsl".to_string(),
        fs_path: fs_path.to_string(),
        fill_type: PrimitiveTopology::TriangleList,
        read_depth: false,
        write_depth: false,
        vertex_type: 1,
        slots: vec![SlotLayout::Buffers(1)],
    }
}

fn triangle(fs_path: &str) -> RenderableObject {
    RenderableObject {
        mesh: MeshBuffers {
            vertices: 40,
            vertex_count: 3,
            indices: Some(IndexBuffer { buffer: 41, count: 3 }),
        },
        pipeline_spec: Some(spec(fs_path)),
        binding_sets: vec![],
        viewport: None,
    }
}

fn no_objects() -> TagMap<Vec<RenderableObject>> {
    TagMap::new()
}

fn no_resources() -> TagMap<ResourceHandle> {
    TagMap::new()
}

fn draws(frame: &Frame) -> Vec<(usize, u32)> {
    frame
        .steps()
        .iter()
        .filter_map(|step| match (step.pass(), step.vertices_drawn()) {
            (Some(pass), Some(count)) => Some((pass, count)),
            _ => None,
        })
        .collect()
}

#[test]
fn single_triangle_gives_exactly_one_draw_call_of_three_vertices() {
    let mut system = System::new(vec![pass("geometry", 1, &["color"], &[])], "color").unwrap();
    let mut objects = no_objects();
    objects.insert("geometry", vec![triangle("shaders/frag.glsl")]);
    let frame = system.render_frame(SMALL, &objects, &no_resources()).unwrap();
    assert_eq!(draws(&frame), vec![(0, 3)]);
    let color_image =
        Attachment { id: 0, extent: SMALL, format: Format::R8G8B8A8Unorm, usage: color() };
    assert_eq!(frame.extent, SMALL);
    assert_eq!(frame.output, color_image);
    assert_eq!(frame.passes.len(), 1);
    assert_eq!(frame.passes[0].pass, 0);
    assert_eq!(frame.passes[0].render_pass, RenderPassHandle(1));
    assert_eq!(frame.passes[0].framebuffer, vec![color_image]);
    assert_eq!(frame.passes[0].inputs, vec![]);
    assert_eq!(frame.passes[0].resources, vec![]);
    assert_eq!(
        frame.passes[0].commands,
        vec![
            Command::BindPipeline { pipeline: 0 },
            Command::BindVertexBuffer { buffer: 40 },
            Command::BindIndexBuffer { buffer: 41 },
            Command::DrawIndexed { index_count: 3 },
        ]
    );
    assert_eq!(
        frame.steps(),
        vec![
            Step::BeginRenderPass { pass: 0 },
            Step::Record { pass: 0, command: Command::BindPipeline { pipeline: 0 } },
            Step::Record { pass: 0, command: Command::BindVertexBuffer { buffer: 40 } },
            Step::Record { pass: 0, command: Command::BindIndexBuffer { buffer: 41 } },
            Step::Record { pass: 0, command: Command::DrawIndexed { index_count: 3 } },
            Step::EndRenderPass { pass: 0 },
            Step::CopyToTarget { attachment: 0 },
        ]
    );
}

#[test]
fn pass_that_needs_a_tag_nobody_creates_is_a_dependency_error_naming_the_tag() {
    let passes = vec![pass("first", 1, &["color"], &[]), pass("second", 2, &["final"], &["shadow"])];
    let error = System::new(passes, "final").unwrap_err();
    assert_eq!(error, GraphError::MissingDependency { pass: 1, tag: "shadow".to_string() });
}

#[test]
fn second_frame_at_same_dimensions_makes_no_attachment() {
    let passes = vec![
        pass("shadow", 1, &["shadow_depth"], &[]),
        pass("geometry", 2, &["color", "depth"], &["shadow_depth"]),
    ];
    let mut system = System::new(passes, "color").unwrap();
    let first = system.render_frame(SMALL, &no_objects(), &no_resources()).unwrap();
    let second = system.render_frame(SMALL, &no_objects(), &no_resources()).unwrap();
    for tag in ["shadow_depth", "color", "depth"] {
        assert_eq!(system.images().creation_count(tag), 1);
    }
    assert_eq!(first, second);
    assert_eq!(system.images().remaining(), u64::MAX - 3);
}

#[test]
fn frame_at_new_dimensions_recreates_every_attachment_once() {
    let passes = vec![
        pass("shadow", 1, &["shadow_depth"], &[]),
        pass("geometry", 2, &["color", "depth"], &["shadow_depth"]),
    ];
    let mut system = System::new(passes, "color").unwrap();
    let first = system.render_frame(SMALL, &no_objects(), &no_resources()).unwrap();
    let second = system.render_frame(LARGE, &no_objects(), &no_resources()).unwrap();
    for tag in ["shadow_depth", "color", "depth"] {
        assert_eq!(system.images().creation_count(tag), 2);
        assert_eq!(system.images().lookup(tag, SMALL), None);
        assert_eq!(system.images().lookup(tag, LARGE).unwrap().extent, LARGE);
    }
    let old_ids: Vec<u64> =
        first.passes.iter().flat_map(|record| record.framebuffer.iter().map(|a| a.id)).collect();
    let new_ids: Vec<u64> =
        second.passes.iter().flat_map(|record| record.framebuffer.iter().map(|a| a.id)).collect();
    assert_eq!(old_ids, vec![0, 1, 2]);
    assert_eq!(new_ids, vec![3, 4, 5]);
    assert_eq!(second.passes[1].inputs, vec![second.passes[0].framebuffer[0]]);
    assert_eq!(second.output, second.passes[1].framebuffer[0]);
    assert_eq!(second.output.extent, LARGE);
}

#[test]
fn draw_calls_of_an_earlier_pass_come_before_those_of_a_later_pass() {
    let passes = vec![pass("A", 1, &["x"], &[]), pass("B", 2, &["y"], &["x"])];
    let mut system = System::new(passes, "y").unwrap();
    let mut objects = no_objects();
    objects.insert("B", vec![triangle("b.glsl"), triangle("b2.glsl")]);
    objects.insert("A", vec![triangle("a.glsl"), triangle("a.glsl"), triangle("a3.glsl")]);
    for _ in 0..3 {
        let frame = system.render_frame(SMALL, &objects, &no_resources()).unwrap();
        assert_eq!(draws(&frame), vec![(0, 3), (0, 3), (0, 3), (1, 3), (1, 3)]);
        let steps = frame.steps();
        let last_of_a = steps.iter().rposition(|s| s.pass() == Some(0)).unwrap();
        let first_of_b = steps.iter().position(|s| s.pass() == Some(1)).unwrap();
        assert!(last_of_a < first_of_b);
        assert_eq!(steps.last(), Some(&Step::CopyToTarget { attachment: 1 }));
        assert_eq!(frame.passes[1].inputs, vec![frame.passes[0].framebuffer[0]]);
    }
}

#[test]
fn pipelines_are_built_once_and_shared_between_equal_specs() {
    let passes = vec![pass("A", 1, &["x"], &[]), pass("B", 2, &["y"], &["x"])];
    let mut system = System::new(passes, "y").unwrap();
    let mut objects = no_objects();
    objects.insert("A", vec![triangle("a.glsl"), triangle("other.glsl"), triangle("a.glsl")]);
    objects.insert("B", vec![triangle("a.glsl")]);
    let frame = system.render_frame(SMALL, &objects, &no_resources()).unwrap();
    let bound: Vec<usize> = frame
        .steps()
        .iter()
        .filter_map(|s| match s {
            Step::Record { command: Command::BindPipeline { pipeline }, .. } => Some(*pipeline),
            _ => None,
        })
        .collect();
    assert_eq!(bound, vec![0, 1, 0, 2]);
    assert_eq!(system.pipelines().build_count(), 3);
    system.render_frame(SMALL, &objects, &no_resources()).unwrap();
    assert_eq!(system.pipelines().build_count(), 3);
}

#[test]
fn pass_without_an_entry_draws_nothing() {
    let passes = vec![pass("A", 1, &["x"], &[]), pass("B", 2, &["y"], &["x"])];
    let mut system = System::new(passes, "y").unwrap();
    let mut objects = no_objects();
    objects.insert("B", vec![triangle("b.glsl")]);
    objects.insert("unknown", vec![triangle("c.glsl")]);
    let frame = system.render_frame(SMALL, &objects, &no_resources()).unwrap();
    assert_eq!(frame.passes[0].commands, vec![]);
    assert_eq!(draws(&frame), vec![(1, 3)]);
    assert_eq!(system.pipelines().build_count(), 1);
}

#[test]
fn object_commands_come_in_binding_order() {
    let mut system = System::new(vec![pass("geometry", 1, &["color"], &[])], "color").unwrap();
    let object = RenderableObject {
        mesh: MeshBuffers { vertices: 7, vertex_count: 4, indices: None },
        pipeline_spec: Some(spec("quad.glsl")),
        binding_sets: vec![
            BindingSet { id: 5, pipeline: 0, slot: 0 },
            BindingSet { id: 9, pipeline: 0, slot: 2 },
        ],
        viewport: Some(Viewport { x: 1024, y: 0, width: 1024, height: 1024 }),
    };
    let mut objects = no_objects();
    objects.insert("geometry", vec![object]);
    let frame = system.render_frame(SMALL, &objects, &no_resources()).unwrap();
    assert_eq!(
        frame.passes[0].commands,
        vec![
            Command::BindPipeline { pipeline: 0 },
            Command::SetViewport { viewport: Viewport { x: 1024, y: 0, width: 1024, height: 1024 } },
            Command::BindVertexBuffer { buffer: 7 },
            Command::BindSet { slot: 0, set: 5 },
            Command::BindSet { slot: 2, set: 9 },
            Command::Draw { vertex_count: 4 },
        ]
    );
}

#[test]
fn object_without_a_spec_uses_the_pipeline_of_its_pass() {
    let mut with_default = pass("ao", 3, &["ao_raw"], &[]);
    with_default.pipeline_spec = Some(spec("ao_frag.glsl"));
    let mut system = System::new(vec![with_default], "ao_raw").unwrap();
    let mut quad = triangle("unused.glsl");
    quad.pipeline_spec = None;
    let mut objects = no_objects();
    objects.insert("ao", vec![quad, triangle("ao_frag.glsl"), triangle("own.glsl")]);
    let frame = system.render_frame(SMALL, &objects, &no_resources()).unwrap();
    let bound: Vec<Command> = frame.passes[0]
        .commands
        .iter()
        .copied()
        .filter(|c| matches!(c, Command::BindPipeline { .. }))
        .collect();
    assert_eq!(
        bound,
        vec![
            Command::BindPipeline { pipeline: 0 },
            Command::BindPipeline { pipeline: 0 },
            Command::BindPipeline { pipeline: 1 },
        ]
    );
}

#[test]
fn object_without_any_pipeline_is_refused() {
    let passes = vec![pass("A", 1, &["x"], &[]), pass("B", 2, &["y"], &["x"])];
    let mut system = System::new(passes, "y").unwrap();
    let mut bare = triangle("unused.glsl");
    bare.pipeline_spec = None;
    let mut objects = no_objects();
    objects.insert("B", vec![triangle("b.glsl"), bare]);
    let result = system.render_frame(SMALL, &objects, &no_resources());
    assert_eq!(result, Err(FrameError::MissingPipeline { pass: 1, object: 1 }));
    assert_eq!(system.images().extent(), None);
    assert_eq!(system.pipelines().build_count(), 0);
}

#[test]
fn swapping_the_pipeline_of_a_pass_changes_what_is_bound() {
    let mut with_default = pass("ao", 3, &["ao_raw"], &[]);
    with_default.pipeline_spec = Some(spec("ao_frag.glsl"));
    let mut system = System::new(vec![with_default], "ao_raw").unwrap();
    let mut quad = triangle("unused.glsl");
    quad.pipeline_spec = None;
    let mut objects = no_objects();
    objects.insert("ao", vec![quad]);
    let before = system.render_frame(SMALL, &objects, &no_resources()).unwrap();
    assert!(system.set_pass_pipeline(0, Some(spec("blur_frag.glsl"))));
    assert!(!system.set_pass_pipeline(1, None));
    let after = system.render_frame(SMALL, &objects, &no_resources()).unwrap();
    assert_eq!(before.passes[0].commands[0], Command::BindPipeline { pipeline: 0 });
    assert_eq!(after.passes[0].commands[0], Command::BindPipeline { pipeline: 1 });
    assert_eq!(system.passes()[0].pipeline_spec, Some(spec("blur_frag.glsl")));
}

#[test]
fn shared_resources_are_handed_to_the_passes_that_declare_them() {
    let mut geometry = pass("geometry", 1, &["color"], &[]);
    geometry.buffers_needed = vec!["view_proj".to_string(), "dimensions".to_string()];
    let mut system = System::new(vec![geometry], "color").unwrap();
    let camera = ResourceHandle { kind: ResourceKind::Buffer, id: 100 };
    let dims = ResourceHandle { kind: ResourceKind::Buffer, id: 101 };
    let mut shared = no_resources();
    shared.insert("dimensions", dims);
    shared.insert("unused", ResourceHandle { kind: ResourceKind::Image, id: 5 });
    shared.insert("view_proj", camera);
    let frame = system.render_frame(SMALL, &no_objects(), &shared).unwrap();
    assert_eq!(frame.passes[0].resources, vec![camera, dims]);
}

#[test]
fn missing_shared_resource_is_refused_and_nothing_changes() {
    let mut first = pass("first", 1, &["x"], &[]);
    first.buffers_needed = vec!["view_proj".to_string()];
    let mut second = pass("second", 2, &["y"], &["x"]);
    second.buffers_needed = vec!["view_proj".to_string(), "ao_samples".to_string()];
    let mut system = System::new(vec![first, second], "y").unwrap();
    let mut shared = no_resources();
    shared.insert("view_proj", ResourceHandle { kind: ResourceKind::Buffer, id: 1 });
    let result = system.render_frame(SMALL, &no_objects(), &shared);
    assert_eq!(
        result,
        Err(FrameError::MissingResource { pass: 1, tag: "ao_samples".to_string() })
    );
    assert_eq!(system.images().creation_count("x"), 0);
    assert_eq!(system.images().extent(), None);
}

#[test]
fn missing_resource_of_an_earlier_pass_is_reported_first() {
    let mut first = pass("first", 1, &["x"], &[]);
    first.buffers_needed = vec!["lights".to_string()];
    let mut system = System::new(vec![first, pass("second", 2, &["y"], &["x"])], "y").unwrap();
    let mut bare = triangle("unused.glsl");
    bare.pipeline_spec = None;
    let mut objects = no_objects();
    objects.insert("first", vec![bare.clone()]);
    objects.insert("second", vec![bare]);
    assert_eq!(
        system.render_frame(SMALL, &objects, &no_resources()),
        Err(FrameError::MissingResource { pass: 0, tag: "lights".to_string() })
    );
    let mut shared = no_resources();
    shared.insert("lights", ResourceHandle { kind: ResourceKind::Buffer, id: 1 });
    assert_eq!(
        system.render_frame(SMALL, &objects, &shared),
        Err(FrameError::MissingPipeline { pass: 0, object: 0 })
    );
}

#[test]
fn output_tag_can_be_switched_to_any_created_tag() {
    let passes = vec![pass("A", 1, &["color", "depth_view"], &[])];
    let mut system = System::new(passes, "color").unwrap();
    assert_eq!(system.output_tag(), "color");
    assert_eq!(system.set_output_tag("depth_view"), Ok(()));
    assert_eq!(system.output_tag(), "depth_view");
    let frame = system.render_frame(SMALL, &no_objects(), &no_resources()).unwrap();
    assert_eq!(frame.output, frame.passes[0].framebuffer[1]);
    assert_eq!(
        system.set_output_tag("normals"),
        Err(GraphError::MissingOutput { tag: "normals".to_string() })
    );
    assert_eq!(system.output_tag(), "depth_view");
}

#[test]
fn creates_tells_which_tags_the_passes_create() {
    let passes = vec![pass("A", 1, &["x"], &[]), pass("B", 2, &["y", "z"], &["x"])];
    let system = System::new(passes, "z").unwrap();
    assert!(system.creates("x"));
    assert!(system.creates("z"));
    assert!(!system.creates("w"));
    assert!(!system.creates("A"));
}

#[test]
fn new_system_has_empty_caches_and_keeps_the_passes() {
    let passes = vec![pass("A", 1, &["x"], &[]), pass("B", 2, &["y"], &["x"])];
    let system = System::new(passes.clone(), "y").unwrap();
    assert_eq!(system.passes(), &passes);
    assert_eq!(system.images().extent(), None);
    assert_eq!(system.images().remaining(), u64::MAX);
    assert_eq!(system.pipelines().build_count(), 0);
}

#[test]
fn invalid_lists_are_refused_by_the_constructor() {
    let duplicate = vec![pass("A", 1, &["x"], &[]), pass("B", 2, &["x"], &[])];
    assert_eq!(
        System::new(duplicate, "x").unwrap_err(),
        GraphError::DuplicateTag { pass: 1, tag: "x".to_string() }
    );
    let later = vec![pass("B", 2, &["y"], &["x"]), pass("A", 1, &["x"], &[])];
    assert_eq!(
        System::new(later, "y").unwrap_err(),
        GraphError::MissingDependency { pass: 0, tag: "x".to_string() }
    );
    let no_output = vec![pass("A", 1, &["x"], &[])];
    assert_eq!(
        System::new(no_output, "color").unwrap_err(),
        GraphError::MissingOutput { tag: "color".to_string() }
    );
}

#[test]
fn fixed_image_stands_for_its_tag_at_every_output_size() {
    let atlas = Extent { width: 6144, height: 1024 };
    let passes = vec![
        pass("shadow", 1, &["shadow_map"], &[]),
        pass("geometry", 2, &["color"], &["shadow_map"]),
    ];
    let mut system = System::new(passes, "color").unwrap();
    let shadow_map = system.add_fixed_image("shadow_map", atlas, Format::D32Sfloat, depth()).unwrap();
    assert_eq!(system.add_fixed_image("shadow_map", SMALL, Format::D16Unorm, depth()), Ok(shadow_map));
    let first = system.render_frame(SMALL, &no_objects(), &no_resources()).unwrap();
    let second = system.render_frame(LARGE, &no_objects(), &no_resources()).unwrap();
    assert_eq!(first.passes[0].framebuffer, vec![shadow_map]);
    assert_eq!(second.passes[0].framebuffer, vec![shadow_map]);
    assert_eq!(second.passes[1].inputs, vec![shadow_map]);
    assert_eq!(shadow_map.extent, atlas);
    assert_eq!(system.images().creation_count("shadow_map"), 1);
    assert_eq!(system.images().creation_count("color"), 2);
    assert_eq!(AllocError::Exhausted, AllocError::Exhausted.clone());
}

#[test]
fn frame_is_refused_when_too_few_identities_are_left() {
    let passes = vec![pass("A", 1, &["x", "y"], &[]), pass("B", 2, &["z"], &["x"])];
    let images = ImageAllocator::starting_at(u64::MAX - 2);
    let mut system = System::with_images(passes.clone(), "z", images).unwrap();
    assert_eq!(
        system.render_frame(SMALL, &no_objects(), &no_resources()),
        Err(FrameError::OutOfAttachments)
    );
    assert_eq!(system.images().extent(), None);
    assert_eq!(system.images().remaining(), 2);
    assert_eq!(system.images().creation_count("x"), 0);
}

#[test]
fn frame_that_only_reuses_needs_no_identities() {
    let passes = vec![pass("A", 1, &["x", "y"], &[]), pass("B", 2, &["z"], &["x"])];
    let images = ImageAllocator::starting_at(u64::MAX - 3);
    let mut system = System::with_images(passes, "z", images).unwrap();
    let first = system.render_frame(SMALL, &no_objects(), &no_resources()).unwrap();
    assert_eq!(first.output.id, u64::MAX - 1);
    assert_eq!(system.images().remaining(), 0);
    let second = system.render_frame(SMALL, &no_objects(), &no_resources()).unwrap();
    assert_eq!(second, first);
    assert_eq!(
        system.render_frame(LARGE, &no_objects(), &no_resources()),
        Err(FrameError::OutOfAttachments)
    );
    assert_eq!(system.images().extent(), Some(SMALL));
    assert_eq!(system.images().lookup("x", SMALL), Some(first.passes[0].framebuffer[0]));
    assert_eq!(
        system.add_fixed_image("atlas", LARGE, Format::D32Sfloat, depth()),
        Err(AllocError::Exhausted)
    );
}

#[test]
fn fixed_images_are_not_counted_against_the_identities_left() {
    let passes = vec![pass("shadow", 1, &["shadow_map"], &[]), pass("B", 2, &["z"], &["shadow_map"])];
    let images = ImageAllocator::starting_at(u64::MAX - 2);
    let mut system = System::with_images(passes, "z", images).unwrap();
    system.add_fixed_image("shadow_map", LARGE, Format::D32Sfloat, depth()).unwrap();
    let first = system.render_frame(SMALL, &no_objects(), &no_resources()).unwrap();
    assert_eq!(first.passes[0].framebuffer[0].id, u64::MAX - 2);
    assert_eq!(first.output.id, u64::MAX - 1);
    assert_eq!(system.images().remaining(), 0);
}

#[test]
fn system_with_its_own_allocator_is_validated_like_any_other() {
    let later = vec![pass("B", 2, &["y"], &["x"]), pass("A", 1, &["x"], &[])];
    assert_eq!(
        System::with_images(later, "y", ImageAllocator::new()).unwrap_err(),
        GraphError::MissingDependency { pass: 0, tag: "x".to_string() }
    );
}

#[test]
fn check_frame_reports_the_fault_without_changing_anything() {
    let mut first = pass("first", 1, &["x"], &[]);
    first.buffers_needed = vec!["lights".to_string()];
    let system = System::new(vec![first, pass("second", 2, &["y"], &["x"])], "y").unwrap();
    assert_eq!(
        system.check_frame(SMALL, &no_objects(), &no_resources()),
        Err(FrameError::MissingResource { pass: 0, tag: "lights".to_string() })
    );
    let mut shared = no_resources();
    shared.insert("lights", ResourceHandle { kind: ResourceKind::Buffer, id: 1 });
    assert_eq!(system.check_frame(SMALL, &no_objects(), &shared), Ok(()));
    assert_eq!(system.images().extent(), None);
    assert_eq!(system.pipelines().build_count(), 0);
}
