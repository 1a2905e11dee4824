//! Pipeline specifications and the cache that builds each distinct pipeline
//! once.

use vstd::prelude::*;
use vstd::string::*;
use crate::graph::RenderPassHandle;
use crate::keyed::{after_resolve, distinct, resolved_id};

verus! {

/// How vertices are assembled into primitives.
#[derive(Clone, Copy, Debug, PartialEq, Eq, Structural)]
pub enum PrimitiveTopology {
    PointList,
    LineList,
    LineStrip,
    TriangleList,
    TriangleStrip,
    TriangleFan,
}

/// What a pipeline expects to be bound at one slot.
#[derive(Clone, Copy, Debug, PartialEq, Eq, Structural)]
pub enum SlotLayout {
    /// Nothing is bound at this slot.
    Unused,
    /// That many uniform buffers.
    Buffers(usize),
    /// That many sampled images.
    Images(usize),
}

/// The description from which a pipeline is built, and the key under which
/// it is cached.
#[derive(Clone, Debug, PartialEq, Eq)]
pub struct PipelineSpec {
    pub vs_path: String,
    pub fs_path: String,
    pub fill_type: PrimitiveTopology,
    pub read_depth: bool,
    pub write_depth: bool,
    /// Identifies the layout of one vertex.
    pub vertex_type: u32,
    /// The declared layout of the resource slots, by slot index.
    pub slots: Vec<SlotLayout>,
}

/// A pipeline specification as a value.
pub struct PipelineSpecView {
    pub vs_path: Seq<char>,
    pub fs_path: Seq<char>,
    pub fill_type: PrimitiveTopology,
    pub read_depth: bool,
    pub write_depth: bool,
    pub vertex_type: u32,
    pub slots: Seq<SlotLayout>,
}

impl View for PipelineSpec {
    type V = PipelineSpecView;

    open spec fn view(&self) -> PipelineSpecView {
        PipelineSpecView {
            vs_path: self.vs_path@,
            fs_path: self.fs_path@,
            fill_type: self.fill_type,
            read_depth: self.read_depth,
            write_depth: self.write_depth,
            vertex_type: self.vertex_type,
            slots: self.slots@,
        }
    }
}

fn copy_slots(slots: &Vec<SlotLayout>) -> (copy: Vec<SlotLayout>)
    ensures
        copy@ == slots@,
{
    let mut copy: Vec<SlotLayout> = Vec::new();
    let mut i: usize = 0;
    while i < slots.len()
        invariant
            0 <= i <= slots@.len(),
            copy@ == slots@.subrange(0, i as int),
        decreases slots@.len() - i,
    {
        copy.push(slots[i]);
        i += 1;
    }
    copy
}

fn same_slots(a: &Vec<SlotLayout>, b: &Vec<SlotLayout>) -> (same: bool)
    ensures
        same == (a@ == b@),
{
    if a.len() != b.len() {
        return false;
    }
    let mut i: usize = 0;
    while i < a.len()
        invariant
            0 <= i <= a@.len(),
            a@.len() == b@.len(),
            a@.subrange(0, i as int) == b@.subrange(0, i as int),
        decreases a@.len() - i,
    {
        if a[i] != b[i] {
            return false;
        }
        i += 1;
    }
    assert(a@.subrange(0, a@.len() as int) =~= a@);
    assert(b@.subrange(0, b@.len() as int) =~= b@);
    true
}

impl PipelineSpec {
    /// The specification of a pipeline that runs the two shaders on lists of
    /// triangles of vertex type 0, neither reads nor writes depth, and
    /// declares no slots.
    pub fn new(vs_path: &str, fs_path: &str) -> (spec: PipelineSpec)
        ensures
            spec@ == (PipelineSpecView {
                vs_path: vs_path@,
                fs_path: fs_path@,
                fill_type: PrimitiveTopology::TriangleList,
                read_depth: false,
                write_depth: false,
                vertex_type: 0,
                slots: Seq::empty(),
            }),
    {
        PipelineSpec {
            vs_path: String::from_str(vs_path),
            fs_path: String::from_str(fs_path),
            fill_type: PrimitiveTopology::TriangleList,
            read_depth: false,
            write_depth: false,
            vertex_type: 0,
            slots: Vec::new(),
        }
    }

    /// Whether two specifications are equal as values.
    pub fn same_as(&self, other: &PipelineSpec) -> (same: bool)
        ensures
            same == (self@ == other@),
    {
        self.vs_path == other.vs_path && self.fs_path == other.fs_path && self.fill_type
            == other.fill_type && self.read_depth == other.read_depth && self.write_depth
            == other.write_depth && self.vertex_type == other.vertex_type && same_slots(
            &self.slots,
            &other.slots,
        )
    }

    /// A copy of this specification.
    pub fn duplicate(&self) -> (copy: PipelineSpec)
        ensures
            copy@ == self@,
    {
        PipelineSpec {
            vs_path: self.vs_path.clone(),
            fs_path: self.fs_path.clone(),
            fill_type: self.fill_type,
            read_depth: self.read_depth,
            write_depth: self.write_depth,
            vertex_type: self.vertex_type,
            slots: copy_slots(&self.slots),
        }
    }
}

/// What identifies a pipeline: what it is built from, and the render pass it
/// is built for.
pub struct PipelineKey {
    pub spec: PipelineSpecView,
    pub render_pass: RenderPassHandle,
}

/// A built pipeline.
#[derive(Clone, Debug, PartialEq, Eq)]
pub struct Pipeline {
    id: usize,
    render_pass: RenderPassHandle,
    slots: Vec<SlotLayout>,
}

/// A pipeline as a value.
pub struct PipelineView {
    pub id: int,
    pub render_pass: RenderPassHandle,
    pub slots: Seq<SlotLayout>,
}

impl View for Pipeline {
    type V = PipelineView;

    closed spec fn view(&self) -> PipelineView {
        PipelineView { id: self.id as int, render_pass: self.render_pass, slots: self.slots@ }
    }
}

impl Pipeline {
    /// The identity of this pipeline within its cache.
    pub fn id(&self) -> (id: usize)
        ensures
            id == self@.id,
    {
        self.id
    }

    /// The render pass this pipeline was built for.
    pub fn render_pass(&self) -> (render_pass: RenderPassHandle)
        ensures
            render_pass == self@.render_pass,
    {
        self.render_pass
    }

    /// What this pipeline expects at `slot`; nothing at a slot it does not
    /// declare.
    pub fn slot(&self, slot: usize) -> (layout: SlotLayout)
        ensures
            layout == slot_layout(self@.slots, slot as int),
    {
        if slot < self.slots.len() {
            self.slots[slot]
        } else {
            SlotLayout::Unused
        }
    }

    /// A copy of this pipeline.
    pub fn duplicate(&self) -> (copy: Pipeline)
        ensures
            copy@ == self@,
    {
        Pipeline { id: self.id, render_pass: self.render_pass, slots: copy_slots(&self.slots) }
    }
}

/// What `slots` declare at `slot`.
pub open spec fn slot_layout(slots: Seq<SlotLayout>, slot: int) -> SlotLayout {
    if 0 <= slot < slots.len() {
        slots[slot]
    } else {
        SlotLayout::Unused
    }
}

#[derive(Clone, Debug)]
struct CachedPipeline {
    spec: PipelineSpec,
    render_pass: RenderPassHandle,
}

impl CachedPipeline {
    spec fn key(&self) -> PipelineKey {
        PipelineKey { spec: self.spec@, render_pass: self.render_pass }
    }
}

/// Builds each distinct pipeline once and hands it out again afterwards.
/// Nothing is ever evicted.
#[derive(Clone, Debug)]
pub struct PipelineCache {
    entries: Vec<CachedPipeline>,
}

impl View for PipelineCache {
    type V = Seq<PipelineKey>;

    closed spec fn view(&self) -> Seq<PipelineKey> {
        Seq::new(self.entries@.len(), |i: int| self.entries@[i].key())
    }
}

impl PipelineCache {
    /// No pipeline is held twice.
    pub closed spec fn wf(&self) -> bool {
        distinct(self@)
    }

    /// What `wf` says of the view.
    pub proof fn lemma_wf(&self)
        requires
            self.wf(),
        ensures
            distinct(self@),
    {
    }

    /// A cache that holds nothing.
    pub fn new() -> (cache: Self)
        ensures
            cache.wf(),
            cache@ == Seq::<PipelineKey>::empty(),
    {
        let cache = PipelineCache { entries: Vec::new() };
        cache
    }

    /// How many pipelines have been built.
    pub fn build_count(&self) -> (count: usize)
        ensures
            count == self@.len(),
    {
        self.entries.len()
    }

    fn find(&self, spec: &PipelineSpec, render_pass: RenderPassHandle) -> (found: Option<usize>)
        requires
            self.wf(),
        ensures
            ({
                let key = PipelineKey { spec: spec@, render_pass };
                match found {
                    Some(i) => self@.contains(key) && i == self@.index_of(key) && i < self@.len(),
                    None => !self@.contains(key),
                }
            }),
    {
        let ghost key = PipelineKey { spec: spec@, render_pass };
        let mut i: usize = 0;
        while i < self.entries.len()
            invariant
                0 <= i <= self.entries@.len(),
                self.wf(),
                key == (PipelineKey { spec: spec@, render_pass }),
                forall|j: int| 0 <= j < i ==> self@[j] != key,
            decreases self.entries@.len() - i,
        {
            if self.entries[i].render_pass == render_pass && self.entries[i].spec.same_as(spec) {
                proof {
                    assert(self@[i as int] == key);
                    let j = self@.index_of(key);
                    assert(self@[j] == key);
                }
                return Some(i);
            }
            i += 1;
        }
        None
    }

    /// Whether the pipeline for `spec` and `render_pass` has been built.
    pub fn contains(&self, spec: &PipelineSpec, render_pass: RenderPassHandle) -> (built: bool)
        requires
            self.wf(),
        ensures
            built == self@.contains(PipelineKey { spec: spec@, render_pass }),
    {
        self.find(spec, render_pass).is_some()
    }

    /// The identity of the pipeline for `spec` and `render_pass`: that of the
    /// one built for an equal specification and the same render pass, if
    /// there is one, else that of a new one.
    pub fn resolve(&mut self, spec: &PipelineSpec, render_pass: RenderPassHandle) -> (id: usize)
        requires
            old(self).wf(),
        ensures
            final(self).wf(),
            id == resolved_id(old(self)@, PipelineKey { spec: spec@, render_pass }),
            final(self)@ == after_resolve(old(self)@, PipelineKey { spec: spec@, render_pass }),
    {
        let ghost key = PipelineKey { spec: spec@, render_pass };
        match self.find(spec, render_pass) {
            Some(i) => i,
            None => {
                let id = self.entries.len();
                let ghost before = self@;
                self.entries.push(CachedPipeline { spec: spec.duplicate(), render_pass });
                proof {
                    assert(self@ =~= before.push(key));
                }
                id
            },
        }
    }

    /// The pipeline for `spec` and `render_pass`: the one built for an equal
    /// specification and the same render pass, if there is one, else a new
    /// one.
    pub fn get_or_build(&mut self, spec: &PipelineSpec, render_pass: RenderPassHandle) -> (pipeline:
        Pipeline)
        requires
            old(self).wf(),
        ensures
            final(self).wf(),
            ({
                let key = PipelineKey { spec: spec@, render_pass };
                &&& pipeline@.id == resolved_id(old(self)@, key)
                &&& pipeline@.render_pass == render_pass
                &&& pipeline@.slots == spec@.slots
                &&& final(self)@ == after_resolve(old(self)@, key)
            }),
    {
        let id = self.resolve(spec, render_pass);
        Pipeline { id, render_pass, slots: copy_slots(&spec.slots) }
    }
}

} // verus!
