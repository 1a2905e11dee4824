//! What is drawn in a frame, and the commands that a frame is recorded as.

use vstd::prelude::*;
use crate::binding_cache::{BindingSet, ResourceHandle};
use crate::graph::RenderPassHandle;
use crate::image::{Attachment, Extent};
use crate::pipeline_cache::PipelineSpec;

verus! {

/// The part of the target that an object is drawn to.
#[derive(Clone, Copy, Debug, PartialEq, Eq, Structural)]
pub struct Viewport {
    pub x: u32,
    pub y: u32,
    pub width: u32,
    pub height: u32,
}

/// The index buffer of a mesh.
#[derive(Clone, Copy, Debug, PartialEq, Eq, Structural)]
pub struct IndexBuffer {
    pub buffer: u64,
    pub count: u32,
}

/// The buffers of a mesh on the device.
#[derive(Clone, Copy, Debug, PartialEq, Eq, Structural)]
pub struct MeshBuffers {
    pub vertices: u64,
    pub vertex_count: u32,
    pub indices: Option<IndexBuffer>,
}

/// One thing to draw.
#[derive(Clone, Debug, PartialEq, Eq)]
pub struct RenderableObject {
    pub mesh: MeshBuffers,
    /// The pipeline to draw with; without one, the pass's own is used.
    pub pipeline_spec: Option<PipelineSpec>,
    /// The binding sets to bind, each at its own slot.
    pub binding_sets: Vec<BindingSet>,
    /// Where to draw, if not to the whole target.
    pub viewport: Option<Viewport>,
}

impl RenderableObject {
    /// An object that draws `mesh` to the whole target with the pipeline of
    /// its pass and binds nothing.
    pub fn new(mesh: MeshBuffers) -> (object: RenderableObject)
        ensures
            object.mesh == mesh,
            object.pipeline_spec is None,
            object.binding_sets@.len() == 0,
            object.viewport is None,
    {
        RenderableObject { mesh, pipeline_spec: None, binding_sets: Vec::new(), viewport: None }
    }
}

/// One recorded command.
#[derive(Clone, Copy, Debug, PartialEq, Eq, Structural)]
pub enum Command {
    BindPipeline { pipeline: usize },
    SetViewport { viewport: Viewport },
    BindVertexBuffer { buffer: u64 },
    BindIndexBuffer { buffer: u64 },
    BindSet { slot: usize, set: usize },
    Draw { vertex_count: u32 },
    DrawIndexed { index_count: u32 },
}

impl Command {
    /// How many vertices this command draws, if it is a draw call.
    pub open spec fn spec_vertices_drawn(self) -> Option<u32> {
        match self {
            Command::Draw { vertex_count } => Some(vertex_count),
            Command::DrawIndexed { index_count } => Some(index_count),
            _ => None,
        }
    }

    /// How many vertices this command draws, if it is a draw call.
    #[verifier::when_used_as_spec(spec_vertices_drawn)]
    pub fn vertices_drawn(self) -> (count: Option<u32>)
        ensures
            count == self.spec_vertices_drawn(),
    {
        match self {
            Command::Draw { vertex_count } => Some(vertex_count),
            Command::DrawIndexed { index_count } => Some(index_count),
            _ => None,
        }
    }
}

/// The draw call for `mesh`: indexed if it has an index buffer.
pub open spec fn draw_command(mesh: MeshBuffers) -> Command {
    match mesh.indices {
        Some(indices) => Command::DrawIndexed { index_count: indices.count },
        None => Command::Draw { vertex_count: mesh.vertex_count },
    }
}

/// The commands that bind `sets`, in order.
pub open spec fn bind_set_commands(sets: Seq<BindingSet>) -> Seq<Command> {
    Seq::new(sets.len(), |k: int| Command::BindSet { slot: sets[k].slot, set: sets[k].id })
}

/// The commands that draw `object` with the pipeline `pipeline`: the
/// pipeline, the viewport if the object has its own, the vertex buffer, the
/// index buffer if there is one, the binding sets in order, and one draw
/// call.
pub open spec fn object_commands(object: RenderableObject, pipeline: int) -> Seq<Command> {
    seq![Command::BindPipeline { pipeline: pipeline as usize }] + (match object.viewport {
        Some(viewport) => seq![Command::SetViewport { viewport }],
        None => seq![],
    }) + seq![Command::BindVertexBuffer { buffer: object.mesh.vertices }] + (match object.mesh.indices {
        Some(indices) => seq![Command::BindIndexBuffer { buffer: indices.buffer }],
        None => seq![],
    }) + bind_set_commands(object.binding_sets@) + seq![draw_command(object.mesh)]
}

/// Appends to `commands` the commands that draw `object` with `pipeline`.
pub fn record_object(commands: &mut Vec<Command>, object: &RenderableObject, pipeline: usize)
    ensures
        final(commands)@ == old(commands)@ + object_commands(*object, pipeline as int),
{
    commands.push(Command::BindPipeline { pipeline });
    if let Some(viewport) = object.viewport {
        commands.push(Command::SetViewport { viewport });
    }
    commands.push(Command::BindVertexBuffer { buffer: object.mesh.vertices });
    if let Some(indices) = object.mesh.indices {
        commands.push(Command::BindIndexBuffer { buffer: indices.buffer });
    }
    let ghost before_sets = commands@;
    let mut k: usize = 0;
    while k < object.binding_sets.len()
        invariant
            0 <= k <= object.binding_sets@.len(),
            commands@ == before_sets + bind_set_commands(object.binding_sets@).subrange(0, k as int),
        decreases object.binding_sets@.len() - k,
    {
        let set = object.binding_sets[k];
        commands.push(Command::BindSet { slot: set.slot, set: set.id });
        k += 1;
    }
    match object.mesh.indices {
        Some(indices) => commands.push(Command::DrawIndexed { index_count: indices.count }),
        None => commands.push(Command::Draw { vertex_count: object.mesh.vertex_count }),
    }
}

/// What is recorded for one pass.
#[derive(Clone, Debug, PartialEq, Eq)]
pub struct PassRecord {
    /// The position of the pass in the declared order.
    pub pass: usize,
    pub render_pass: RenderPassHandle,
    /// The attachments the pass renders to, in the order it declares them.
    pub framebuffer: Vec<Attachment>,
    /// The attachments the pass samples, in the order it declares them.
    pub inputs: Vec<Attachment>,
    /// The shared resources the pass reads, in the order it declares them.
    pub resources: Vec<ResourceHandle>,
    /// The commands inside the pass's render-pass scope.
    pub commands: Vec<Command>,
}

/// What is recorded for one frame.
#[derive(Clone, Debug, PartialEq, Eq)]
pub struct Frame {
    pub extent: Extent,
    /// One record for each pass, in declared order.
    pub passes: Vec<PassRecord>,
    /// The attachment that is copied to the presentable image after the
    /// last pass.
    pub output: Attachment,
}

/// One step of what is submitted for a frame.
#[derive(Clone, Copy, Debug, PartialEq, Eq, Structural)]
pub enum Step {
    /// The render-pass scope of pass number `pass` begins.
    BeginRenderPass { pass: usize },
    /// A command inside the scope of pass number `pass`.
    Record { pass: usize, command: Command },
    /// The render-pass scope of pass number `pass` ends.
    EndRenderPass { pass: usize },
    /// The attachment `attachment` is copied to the presentable image.
    CopyToTarget { attachment: u64 },
}

impl Step {
    /// The pass that this step belongs to, if it belongs to one.
    pub open spec fn spec_pass(self) -> Option<usize> {
        match self {
            Step::BeginRenderPass { pass } => Some(pass),
            Step::Record { pass, .. } => Some(pass),
            Step::EndRenderPass { pass } => Some(pass),
            Step::CopyToTarget { .. } => None,
        }
    }

    /// The pass that this step belongs to, if it belongs to one.
    #[verifier::when_used_as_spec(spec_pass)]
    pub fn pass(self) -> (pass: Option<usize>)
        ensures
            pass == self.spec_pass(),
    {
        match self {
            Step::BeginRenderPass { pass } => Some(pass),
            Step::Record { pass, .. } => Some(pass),
            Step::EndRenderPass { pass } => Some(pass),
            Step::CopyToTarget { .. } => None,
        }
    }

    /// How many vertices this step draws, if it is a draw call.
    pub open spec fn spec_vertices_drawn(self) -> Option<u32> {
        match self {
            Step::Record { command, .. } => command.spec_vertices_drawn(),
            _ => None,
        }
    }

    /// How many vertices this step draws, if it is a draw call.
    #[verifier::when_used_as_spec(spec_vertices_drawn)]
    pub fn vertices_drawn(self) -> (count: Option<u32>)
        ensures
            count == self.spec_vertices_drawn(),
    {
        match self {
            Step::Record { command, .. } => command.vertices_drawn(),
            _ => None,
        }
    }
}

/// The steps of one record: the scope begins, the commands follow in order,
/// the scope ends.
pub open spec fn record_steps(record: PassRecord) -> Seq<Step> {
    seq![Step::BeginRenderPass { pass: record.pass }] + Seq::new(
        record.commands@.len(),
        |k: int| Step::Record { pass: record.pass, command: record.commands@[k] },
    ) + seq![Step::EndRenderPass { pass: record.pass }]
}

/// The steps of the first `i` of `records`, in order.
pub open spec fn steps_upto(records: Seq<PassRecord>, i: int) -> Seq<Step>
    decreases i,
{
    if i <= 0 {
        Seq::empty()
    } else {
        steps_upto(records, i - 1) + record_steps(records[i - 1])
    }
}

/// What is submitted for `frame`: the steps of every record in order, then
/// the copy of the output attachment.
pub open spec fn submission(frame: Frame) -> Seq<Step> {
    steps_upto(frame.passes@, frame.passes@.len() as int) + seq![
        Step::CopyToTarget { attachment: frame.output.id },
    ]
}

impl Frame {
    /// The steps to submit, in order.
    pub fn steps(&self) -> (steps: Vec<Step>)
        ensures
            steps@ == submission(*self),
    {
        let mut steps: Vec<Step> = Vec::new();
        let mut i: usize = 0;
        while i < self.passes.len()
            invariant
                0 <= i <= self.passes@.len(),
                steps@ == steps_upto(self.passes@, i as int),
            decreases self.passes@.len() - i,
        {
            let record = &self.passes[i];
            let ghost before = steps@;
            steps.push(Step::BeginRenderPass { pass: record.pass });
            let mut k: usize = 0;
            while k < record.commands.len()
                invariant
                    0 <= k <= record.commands@.len(),
                    steps@ == before + seq![Step::BeginRenderPass { pass: record.pass }] + Seq::new(
                        k as nat,
                        |m: int| Step::Record { pass: record.pass, command: record.commands@[m] },
                    ),
                decreases record.commands@.len() - k,
            {
                steps.push(Step::Record { pass: record.pass, command: record.commands[k] });
                k += 1;
            }
            steps.push(Step::EndRenderPass { pass: record.pass });
            i += 1;
        }
        steps.push(Step::CopyToTarget { attachment: self.output.id });
        steps
    }
}

/// With the records in pass order, every step of the first `i` records
/// belongs to a pass before `i`, and the steps stand in the order of their
/// passes.
pub proof fn lemma_steps_in_pass_order(records: Seq<PassRecord>, i: int)
    requires
        0 <= i <= records.len(),
        forall|r: int| 0 <= r < records.len() ==> (#[trigger] records[r]).pass == r,
    ensures
        forall|p: int|
            0 <= p < steps_upto(records, i).len() ==> (#[trigger] steps_upto(records, i)[p]).spec_pass()
                is Some && steps_upto(records, i)[p].spec_pass().unwrap() < i,
        forall|p: int, q: int|
            0 <= p <= q < steps_upto(records, i).len() ==> (#[trigger] steps_upto(
                records,
                i,
            )[p]).spec_pass().unwrap() <= (#[trigger] steps_upto(records, i)[q]).spec_pass().unwrap(),
    decreases i,
{
    if i > 0 {
        lemma_steps_in_pass_order(records, i - 1);
        let head = steps_upto(records, i - 1);
        let tail = record_steps(records[i - 1]);
        let all = steps_upto(records, i);
        assert forall|p: int| 0 <= p < all.len() implies (#[trigger] all[p]).spec_pass() is Some
            && all[p].spec_pass().unwrap() < i && (p >= head.len() ==> all[p].spec_pass().unwrap()
            == i - 1) by {
            if p < head.len() {
                assert(all[p] == head[p]);
            } else {
                assert(all[p] == tail[p - head.len()]);
            }
        }
    }
}

/// In what is submitted for a frame whose records stand in pass order,
/// every step of an earlier pass comes before every step of a later pass,
/// and the copy of the output comes last.
pub proof fn lemma_submission_in_pass_order(frame: Frame, p: int, q: int)
    requires
        forall|r: int| 0 <= r < frame.passes@.len() ==> (#[trigger] frame.passes@[r]).pass == r,
        0 <= p < submission(frame).len(),
        0 <= q < submission(frame).len(),
        submission(frame)[p].spec_pass() is Some,
        submission(frame)[q].spec_pass() is Some,
        submission(frame)[p].spec_pass().unwrap() < submission(frame)[q].spec_pass().unwrap(),
    ensures
        p < q,
        submission(frame).last() == (Step::CopyToTarget { attachment: frame.output.id }),
{
    let records = frame.passes@;
    let n = records.len() as int;
    lemma_steps_in_pass_order(records, n);
    let body = steps_upto(records, n);
    if q <= p {
        assert(body[q].spec_pass().unwrap() <= body[p].spec_pass().unwrap());
    }
}

} // verus!
