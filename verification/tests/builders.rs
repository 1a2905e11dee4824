use render_graph::frame::{MeshBuffers, RenderableObject};
use render_graph::graph::{PassDescriptor, RenderPassHandle};
use render_graph::image::{Format, Usage};
use render_graph::pipeline_cache::{PipelineSpec, PrimitiveTopology};

#[test]
fn pass_is_built_up_step_by_step() {
    let color = Usage { sampled: true, color_attachment: true, depth_attachment: false };
    let depth = Usage { sampled: false, color_attachment: false, depth_attachment: true };
    let spec = PipelineSpec {
        vs_path: "v.glsl".to_string(),
        fs_path: "f.glsl".to_string(),
        fill_type: PrimitiveTopology::TriangleStrip,
        read_depth: false,
        write_depth: false,
        vertex_type: 0,
        slots: vec![],
    };
    let pass = PassDescriptor::new("ao", RenderPassHandle(4))
        .creating("ao_raw", Format::R8G8B8A8Unorm, color)
        .creating("depth", Format::D16Unorm, depth)
        .needing("position")
        .needing("normal")
        .needing_buffer("view_proj")
        .with_pipeline(spec.duplicate());
    assert_eq!(pass.name, "ao");
    assert_eq!(pass.render_pass, RenderPassHandle(4));
    let created: Vec<(&str, Format, Usage)> =
        pass.images_created.iter().map(|c| (c.tag.as_str(), c.format, c.usage)).collect();
    assert_eq!(
        created,
        vec![("ao_raw", Format::R8G8B8A8Unorm, color), ("depth", Format::D16Unorm, depth)]
    );
    assert_eq!(pass.images_needed, vec!["position", "normal"]);
    assert_eq!(pass.buffers_needed, vec!["view_proj"]);
    assert_eq!(pass.pipeline_spec, Some(spec));
}

#[test]
fn new_pass_creates_and_needs_nothing() {
    let pass = PassDescriptor::new("geometry", RenderPassHandle(1));
    assert!(pass.images_created.is_empty());
    assert!(pass.images_needed.is_empty());
    assert!(pass.buffers_needed.is_empty());
    assert_eq!(pass.pipeline_spec, None);
}

#[test]
fn new_pipeline_spec_has_the_plain_settings() {
    assert_eq!(
        PipelineSpec::new("shaders/vert.glsl", "shaders/frag.glsl"),
        PipelineSpec {
            vs_path: "shaders/vert.glsl".to_string(),
            fs_path: "shaders/frag.glsl".to_string(),
            fill_type: PrimitiveTopology::TriangleList,
            read_depth: false,
            write_depth: false,
            vertex_type: 0,
            slots: vec![],
        }
    );
}

#[test]
fn new_object_draws_its_mesh_and_nothing_else() {
    let mesh = MeshBuffers { vertices: 3, vertex_count: 36, indices: None };
    assert_eq!(
        RenderableObject::new(mesh),
        RenderableObject { mesh, pipeline_spec: None, binding_sets: vec![], viewport: None }
    );
}
