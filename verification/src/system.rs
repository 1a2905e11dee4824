//! The render-pass system: a validated list of passes, the caches it draws
//! on, and the recording of a frame.

use vstd::prelude::*;
use vstd::string::*;
use vstd::pervasive::unreached;
use crate::binding_cache::ResourceHandle;
use crate::frame::{record_object, Command, Frame, PassRecord, RenderableObject};
use crate::graph::{
    dependencies_ordered, first_fault, first_missing_from, lemma_faultless_iff_well_formed,
    lemma_first_missing, lemma_produced_step, produced, produced_before, shape, validate, Fault,
    GraphError, PassDescriptor, RenderPassHandle,
};
use crate::image::{
    extends, lemma_request, AllocError, AllocatorState, Attachment, Extent, Format, ImageAllocator,
    Usage,
};
use crate::keyed::{
    after_resolve, distinct, keys_extend, lemma_resolve_extends, lemma_resolve_twice, resolved_id,
};
use crate::pipeline_cache::{Pipeline, PipelineCache, PipelineKey, PipelineSpec};
use crate::schedule::{
    after_decls, after_passes, effective_spec, first_without_pipeline, frame_fault,
    frame_scan_from, keys_after_objects, keys_after_passes, lemma_first_without_pipeline,
    lemma_frame_scan, lemma_misses_in_monotone, lemma_misses_in_shrink, lemma_misses_monotone,
    lemma_misses_same, lemma_pass_commands_stable, lemma_record_stable, misses, misses_in,
    object_key, objects_of, pass_commands, pass_frame_fault, pass_settled, record_matches,
    FrameError,
};
use crate::tag_map::TagMap;

verus! {

/// What a system holds.
pub struct SystemView {
    pub passes: Seq<PassDescriptor>,
    pub output_tag: Seq<char>,
    pub images: AllocatorState,
    pub pipelines: Seq<PipelineKey>,
}

/// An ordered list of passes, the tag of the image that is presented, and the
/// attachments and pipelines that the passes use.
#[derive(Clone, Debug)]
pub struct System {
    passes: Vec<PassDescriptor>,
    output_tag: String,
    images: ImageAllocator,
    pipelines: PipelineCache,
}

impl View for System {
    type V = SystemView;

    closed spec fn view(&self) -> SystemView {
        SystemView {
            passes: self.passes@,
            output_tag: self.output_tag@,
            images: self.images@,
            pipelines: self.pipelines@,
        }
    }
}

/// Asks `images` for each attachment that `pass` creates, in declared
/// order.
fn allocate_pass(images: &mut ImageAllocator, pass: &PassDescriptor, extent: Extent) -> (framebuffer:
    Vec<Attachment>)
    requires
        old(images).wf(),
        old(images)@.extent == Some(extent),
        old(images)@.next_id + misses_in(
            old(images)@,
            pass.images_created@,
            extent,
            pass.images_created@.len() as int,
        ) <= u64::MAX,
    ensures
        final(images).wf(),
        final(images)@ == after_decls(
            old(images)@,
            pass.images_created@,
            extent,
            pass.images_created@.len() as int,
        ),
        final(images)@.extent == Some(extent),
        final(images)@.next_id <= old(images)@.next_id + misses_in(
            old(images)@,
            pass.images_created@,
            extent,
            pass.images_created@.len() as int,
        ),
        extends(old(images)@, final(images)@, extent),
        forall|k: int|
            0 <= k < pass.images_created@.len() ==> final(images)@.cached(
                (#[trigger] pass.images_created@[k]).tag@,
                extent,
            ) is Some,
        framebuffer@ == Seq::new(
            pass.images_created@.len(),
            |k: int| final(images)@.cached(pass.images_created@[k].tag@, extent).unwrap(),
        ),
{
    let ghost start = images@;
    let ghost decls = pass.images_created@;
    let mut framebuffer: Vec<Attachment> = Vec::new();
    let mut k: usize = 0;
    while k < pass.images_created.len()
        invariant
            0 <= k <= decls.len(),
            decls == pass.images_created@,
            images.wf(),
            images@ == after_decls(start, decls, extent, k as int),
            images@.extent == Some(extent),
            images@.next_id <= start.next_id + misses_in(start, decls, extent, k as int),
            start.next_id + misses_in(start, decls, extent, decls.len() as int) <= u64::MAX,
            extends(start, images@, extent),
            framebuffer@.len() == k,
            forall|m: int|
                0 <= m < k ==> images@.cached((#[trigger] decls[m]).tag@, extent) == Some(
                    framebuffer@[m],
                ),
        decreases decls.len() - k,
    {
        let decl = &pass.images_created[k];
        let ghost before = images@;
        proof {
            images.lemma_wf();
            lemma_misses_in_monotone(start, decls, extent, k as int + 1, decls.len() as int);
            lemma_request(before, decl.tag@, extent, decl.format, decl.usage);
        }
        match images.get_or_create(decl.tag.as_str(), extent, decl.format, decl.usage) {
            Ok(attachment) => {
                framebuffer.push(attachment);
            },
            Err(_) => {
                unreached()
            },
        }
        proof {
            assert forall|m: int| 0 <= m < k + 1 implies images@.cached(
                (#[trigger] decls[m]).tag@,
                extent,
            ) == Some(framebuffer@[m]) by {}
        }
        k += 1;
    }
    framebuffer
}

/// Looks up the attachment of each tag that `pass` needs, in declared order.
fn gather_inputs(images: &ImageAllocator, pass: &PassDescriptor, extent: Extent) -> (inputs: Vec<
    Attachment,
>)
    requires
        images.wf(),
        forall|k: int|
            0 <= k < pass.images_needed@.len() ==> images@.cached(
                (#[trigger] pass.images_needed@[k])@,
                extent,
            ) is Some,
    ensures
        inputs@ == Seq::new(
            pass.images_needed@.len(),
            |k: int| images@.cached(pass.images_needed@[k]@, extent).unwrap(),
        ),
{
    let mut inputs: Vec<Attachment> = Vec::new();
    let mut k: usize = 0;
    while k < pass.images_needed.len()
        invariant
            0 <= k <= pass.images_needed@.len(),
            images.wf(),
            forall|m: int|
                0 <= m < pass.images_needed@.len() ==> images@.cached(
                    (#[trigger] pass.images_needed@[m])@,
                    extent,
                ) is Some,
            inputs@.len() == k,
            forall|m: int|
                0 <= m < k ==> images@.cached((#[trigger] pass.images_needed@[m])@, extent) == Some(
                    inputs@[m],
                ),
        decreases pass.images_needed@.len() - k,
    {
        match images.lookup(pass.images_needed[k].as_str(), extent) {
            Some(attachment) => {
                inputs.push(attachment);
            },
            None => {
                unreached()
            },
        }
        k += 1;
    }
    inputs
}

/// Looks up the shared resource of each buffer tag that `pass` needs, in
/// declared order.
fn gather_resources(shared: &TagMap<ResourceHandle>, pass: &PassDescriptor) -> (resources: Vec<
    ResourceHandle,
>)
    requires
        shared.wf(),
        forall|k: int|
            0 <= k < pass.buffers_needed@.len() ==> shared@.contains_key(
                (#[trigger] pass.buffers_needed@[k])@,
            ),
    ensures
        resources@ == Seq::new(
            pass.buffers_needed@.len(),
            |k: int| shared@[pass.buffers_needed@[k]@],
        ),
{
    let mut resources: Vec<ResourceHandle> = Vec::new();
    let mut k: usize = 0;
    while k < pass.buffers_needed.len()
        invariant
            0 <= k <= pass.buffers_needed@.len(),
            shared.wf(),
            forall|m: int|
                0 <= m < pass.buffers_needed@.len() ==> shared@.contains_key(
                    (#[trigger] pass.buffers_needed@[m])@,
                ),
            resources@.len() == k,
            forall|m: int|
                0 <= m < k ==> shared@[(#[trigger] pass.buffers_needed@[m])@] == resources@[m],
        decreases pass.buffers_needed@.len() - k,
    {
        match shared.get(pass.buffers_needed[k].as_str()) {
            Some(handle) => {
                resources.push(*handle);
            },
            None => {
                unreached()
            },
        }
        k += 1;
    }
    resources
}

/// Records the commands that draw `objects` in `pass`, in order, building
/// the pipelines that are not built yet.
fn record_pass(
    pipelines: &mut PipelineCache,
    pass: &PassDescriptor,
    objects: &Vec<RenderableObject>,
) -> (commands: Vec<Command>)
    requires
        old(pipelines).wf(),
        forall|j: int|
            0 <= j < objects@.len() ==> effective_spec(#[trigger] objects@[j], *pass) is Some,
    ensures
        final(pipelines).wf(),
        final(pipelines)@ == keys_after_objects(
            old(pipelines)@,
            objects@,
            *pass,
            objects@.len() as int,
        ),
        keys_extend(old(pipelines)@, final(pipelines)@),
        forall|j: int|
            0 <= j < objects@.len() ==> final(pipelines)@.contains(
                object_key(#[trigger] objects@[j], *pass),
            ),
        commands@ == pass_commands(objects@, *pass, final(pipelines)@, objects@.len() as int),
{
    let ghost start = pipelines@;
    let mut commands: Vec<Command> = Vec::new();
    let mut j: usize = 0;
    while j < objects.len()
        invariant
            0 <= j <= objects@.len(),
            pipelines.wf(),
            forall|m: int|
                0 <= m < objects@.len() ==> effective_spec(#[trigger] objects@[m], *pass) is Some,
            pipelines@ == keys_after_objects(start, objects@, *pass, j as int),
            keys_extend(start, pipelines@),
            forall|m: int|
                0 <= m < j ==> pipelines@.contains(object_key(#[trigger] objects@[m], *pass)),
            commands@ == pass_commands(objects@, *pass, pipelines@, j as int),
        decreases objects@.len() - j,
    {
        let object = &objects[j];
        let ghost before = pipelines@;
        let ghost key = object_key(*object, *pass);
        proof {
            pipelines.lemma_wf();
        }
        let id = match &object.pipeline_spec {
            Some(spec) => pipelines.resolve(spec, pass.render_pass),
            None => match &pass.pipeline_spec {
                Some(spec) => pipelines.resolve(spec, pass.render_pass),
                None => {
                    unreached()
                },
            },
        };
        record_object(&mut commands, object, id);
        proof {
            lemma_resolve_twice(before, key);
            lemma_resolve_extends(before, key);
            lemma_pass_commands_stable(objects@, *pass, before, pipelines@, j as int);
        }
        j += 1;
    }
    commands
}

/// Checks that `shared` holds every resource that pass number `i` needs and
/// that each of `objects` has a pipeline specification in it.
fn check_pass(
    pass: &PassDescriptor,
    i: usize,
    objects: &Vec<RenderableObject>,
    shared: &TagMap<ResourceHandle>,
) -> (r: Result<(), FrameError>)
    requires
        shared.wf(),
    ensures
        match r {
            Ok(()) => pass_frame_fault(*pass, i as int, objects@, shared@.dom()) is None,
            Err(e) => pass_frame_fault(*pass, i as int, objects@, shared@.dom()) == Some(e@),
        },
{
    let ghost tags = pass.buffer_tags();
    let ghost have = shared@.dom();
    let mut k: usize = 0;
    while k < pass.buffers_needed.len()
        invariant
            0 <= k <= pass.buffers_needed@.len(),
            shared.wf(),
            tags == pass.buffer_tags(),
            have == shared@.dom(),
            first_missing_from(tags, have, 0) == first_missing_from(tags, have, k as int),
        decreases pass.buffers_needed@.len() - k,
    {
        if !shared.contains(pass.buffers_needed[k].as_str()) {
            return Err(
                FrameError::MissingResource { pass: i, tag: pass.buffers_needed[k].clone() },
            );
        }
        k += 1;
    }
    if pass.pipeline_spec.is_some() {
        proof {
            lemma_first_without_pipeline(objects@, *pass, 0);
        }
        return Ok(());
    }
    let mut j: usize = 0;
    while j < objects.len()
        invariant
            0 <= j <= objects@.len(),
            pass.pipeline_spec is None,
            first_missing_from(pass.buffer_tags(), shared@.dom(), 0) is None,
            first_without_pipeline(objects@, *pass, 0) == first_without_pipeline(
                objects@,
                *pass,
                j as int,
            ),
        decreases objects@.len() - j,
    {
        if objects[j].pipeline_spec.is_none() {
            return Err(FrameError::MissingPipeline { pass: i, object: j });
        }
        j += 1;
    }
    Ok(())
}

/// Checks each pass in declared order with the objects assigned to its
/// name, and reports what keeps the first pass that cannot be recorded from
/// being recorded.
fn scan_frame(
    passes: &Vec<PassDescriptor>,
    objects: &TagMap<Vec<RenderableObject>>,
    shared: &TagMap<ResourceHandle>,
) -> (r: Result<(), FrameError>)
    requires
        objects.wf(),
        shared.wf(),
    ensures
        match r {
            Ok(()) => frame_scan_from(passes@, objects@, shared@.dom(), 0) is None,
            Err(e) => frame_scan_from(passes@, objects@, shared@.dom(), 0) == Some(e@),
        },
{
    let none: Vec<RenderableObject> = Vec::new();
    let mut i: usize = 0;
    while i < passes.len()
        invariant
            0 <= i <= passes@.len(),
            objects.wf(),
            shared.wf(),
            none@ == Seq::<RenderableObject>::empty(),
            frame_scan_from(passes@, objects@, shared@.dom(), 0) == frame_scan_from(
                passes@,
                objects@,
                shared@.dom(),
                i as int,
            ),
        decreases passes@.len() - i,
    {
        let pass = &passes[i];
        let assigned = match objects.get(pass.name.as_str()) {
            Some(list) => list,
            None => &none,
        };
        match check_pass(pass, i, assigned, shared) {
            Err(e) => {
                return Err(e);
            },
            Ok(()) => {},
        }
        i += 1;
    }
    Ok(())
}

/// Whether `images` has identities left for every attachment of the passes
/// that it has not cached for `extent`.
fn within_budget(images: &ImageAllocator, passes: &Vec<PassDescriptor>, extent: Extent) -> (fits:
    bool)
    requires
        images.wf(),
    ensures
        fits == (images@.next_id + misses(images@, passes@, extent, passes@.len() as int)
            <= u64::MAX),
{
    let mut left: u64 = images.remaining();
    let mut i: usize = 0;
    while i < passes.len()
        invariant
            0 <= i <= passes@.len(),
            images.wf(),
            images@.next_id + misses(images@, passes@, extent, i as int) + left == u64::MAX,
        decreases passes@.len() - i,
    {
        let pass = &passes[i];
        let ghost decls = pass.images_created@;
        let ghost before = misses(images@, passes@, extent, i as int);
        let mut k: usize = 0;
        while k < pass.images_created.len()
            invariant
                0 <= k <= decls.len(),
                0 <= i < passes@.len(),
                decls == pass.images_created@,
                decls == passes@[i as int].images_created@,
                images.wf(),
                before == misses(images@, passes@, extent, i as int),
                images@.next_id + before + misses_in(images@, decls, extent, k as int) + left
                    == u64::MAX,
            decreases decls.len() - k,
        {
            if images.lookup(pass.images_created[k].tag.as_str(), extent).is_none() {
                if left == 0 {
                    proof {
                        lemma_misses_in_monotone(
                            images@,
                            decls,
                            extent,
                            k as int + 1,
                            decls.len() as int,
                        );
                        lemma_misses_monotone(
                            images@,
                            passes@,
                            extent,
                            i as int + 1,
                            passes@.len() as int,
                        );
                    }
                    return false;
                }
                left = left - 1;
            }
            k += 1;
        }
        i += 1;
    }
    proof {
        lemma_misses_monotone(images@, passes@, extent, 0, passes@.len() as int);
    }
    true
}

impl System {
    spec fn parts_wf(&self) -> bool {
        self.images.wf() && self.pipelines.wf()
    }

    /// The list of passes has no fault, and the caches are in order.
    pub closed spec fn wf(&self) -> bool {
        &&& self.parts_wf()
        &&& first_fault(shape(self.passes@), self.output_tag@) is None
    }

    /// What `wf` says of the view.
    pub proof fn lemma_wf(&self)
        requires
            self.wf(),
        ensures
            first_fault(shape(self@.passes), self@.output_tag) is None,
            self@.images.wf(),
            distinct(self@.pipelines),
    {
        self.images.lemma_wf();
        self.pipelines.lemma_wf();
    }

    /// A system of `passes` that presents the image tagged `output_tag`, if
    /// the list has no fault: every tag that a pass needs must be created by
    /// an earlier pass, no tag may be created twice, and some pass must
    /// create `output_tag`. Otherwise the first fault that a forward scan
    /// meets is reported.
    pub fn new(passes: Vec<PassDescriptor>, output_tag: &str) -> (r: Result<System, GraphError>)
        ensures
            match r {
                Ok(system) => {
                    &&& first_fault(shape(passes@), output_tag@) is None
                    &&& system.wf()
                    &&& system@.passes == passes@
                    &&& system@.output_tag == output_tag@
                    &&& system@.images == AllocatorState::empty()
                    &&& system@.pipelines == Seq::<PipelineKey>::empty()
                },
                Err(e) => first_fault(shape(passes@), output_tag@) == Some(e@),
            },
    {
        System::with_images(passes, output_tag, ImageAllocator::new())
    }

    /// A system as `new` makes it, but with `images` as the allocator of its
    /// attachments.
    pub fn with_images(passes: Vec<PassDescriptor>, output_tag: &str, images: ImageAllocator) -> (r:
        Result<System, GraphError>)
        requires
            images.wf(),
        ensures
            match r {
                Ok(system) => {
                    &&& first_fault(shape(passes@), output_tag@) is None
                    &&& system.wf()
                    &&& system@.passes == passes@
                    &&& system@.output_tag == output_tag@
                    &&& system@.images == images@
                    &&& system@.pipelines == Seq::<PipelineKey>::empty()
                },
                Err(e) => first_fault(shape(passes@), output_tag@) == Some(e@),
            },
    {
        match validate(&passes, output_tag) {
            Err(e) => Err(e),
            Ok(()) => Ok(
                System {
                    passes,
                    output_tag: String::from_str(output_tag),
                    images,
                    pipelines: PipelineCache::new(),
                },
            ),
        }
    }

    /// The passes, in declared order.
    pub fn passes(&self) -> (passes: &Vec<PassDescriptor>)
        ensures
            passes@ == self@.passes,
    {
        &self.passes
    }

    /// The tag of the image that is presented.
    pub fn output_tag(&self) -> (tag: &String)
        ensures
            tag@ == self@.output_tag,
    {
        &self.output_tag
    }

    /// The allocator of the attachments.
    pub fn images(&self) -> (images: &ImageAllocator)
        requires
            self.wf(),
        ensures
            images.wf(),
            images@ == self@.images,
    {
        &self.images
    }

    /// The cache of the pipelines.
    pub fn pipelines(&self) -> (pipelines: &PipelineCache)
        requires
            self.wf(),
        ensures
            pipelines.wf(),
            pipelines@ == self@.pipelines,
    {
        &self.pipelines
    }

    /// The pipeline for `spec` and `render_pass`, from the cache that the
    /// frames draw on: the one built for an equal specification and the same
    /// render pass, if there is one, else a new one.
    pub fn pipeline(&mut self, spec: &PipelineSpec, render_pass: RenderPassHandle) -> (pipeline:
        Pipeline)
        requires
            old(self).wf(),
        ensures
            final(self).wf(),
            ({
                let key = PipelineKey { spec: spec@, render_pass };
                &&& pipeline@.id == resolved_id(old(self)@.pipelines, key)
                &&& pipeline@.render_pass == render_pass
                &&& pipeline@.slots == spec@.slots
                &&& final(self)@ == (SystemView {
                    pipelines: after_resolve(old(self)@.pipelines, key),
                    ..old(self)@
                })
            }),
    {
        self.pipelines.get_or_build(spec, render_pass)
    }

    /// Whether some pass creates `tag`.
    pub fn creates(&self, tag: &str) -> (found: bool)
        ensures
            found == produced(shape(self@.passes)).contains(tag@),
    {
        let key = String::from_str(tag);
        let ghost sh = shape(self.passes@);
        let mut i: usize = 0;
        while i < self.passes.len()
            invariant
                0 <= i <= self.passes@.len(),
                sh == shape(self.passes@),
                key@ == tag@,
                !produced_before(sh, i as int).contains(tag@),
            decreases self.passes@.len() - i,
        {
            let pass = &self.passes[i];
            let mut k: usize = 0;
            while k < pass.images_created.len()
                invariant
                    0 <= k <= pass.images_created@.len(),
                    0 <= i < self.passes@.len(),
                    pass == self.passes@[i as int],
                    sh == shape(self.passes@),
                    key@ == tag@,
                    forall|j: int| 0 <= j < k ==> sh[i as int].created[j] != tag@,
                decreases pass.images_created@.len() - k,
            {
                if pass.images_created[k].tag == key {
                    proof {
                        assert(sh[i as int].created[k as int] == tag@);
                        assert(sh[i as int].created.contains(tag@));
                    }
                    return true;
                }
                k += 1;
            }
            proof {
                assert forall|p: int| 0 <= p < i + 1 && p < sh.len() implies !(
                #[trigger] sh[p].created.contains(tag@)) by {}
            }
            i += 1;
        }
        false
    }

    /// Makes `tag` the tag of the image that is presented. A tag that no
    /// pass creates is refused, and the system stays as it was.
    pub fn set_output_tag(&mut self, tag: &str) -> (r: Result<(), GraphError>)
        requires
            old(self).wf(),
        ensures
            final(self).wf(),
            match r {
                Ok(()) => produced(shape(old(self)@.passes)).contains(tag@) && final(self)@ == (
                SystemView { output_tag: tag@, ..old(self)@ }),
                Err(e) => !produced(shape(old(self)@.passes)).contains(tag@) && e@ == (
                Fault::MissingOutput { tag: tag@ }) && final(self)@ == old(self)@,
            },
    {
        if self.creates(tag) {
            self.output_tag = String::from_str(tag);
            Ok(())
        } else {
            Err(GraphError::MissingOutput { tag: String::from_str(tag) })
        }
    }

    /// Gives pass number `pass` the pipeline `spec` for the objects that
    /// bring none of their own, or takes it away. Says whether there is such
    /// a pass; without one, nothing changes.
    pub fn set_pass_pipeline(&mut self, pass: usize, spec: Option<PipelineSpec>) -> (found: bool)
        requires
            old(self).wf(),
        ensures
            final(self).wf(),
            found == (pass < old(self)@.passes.len()),
            found ==> final(self)@ == (SystemView {
                passes: old(self)@.passes.update(
                    pass as int,
                    PassDescriptor { pipeline_spec: spec, ..old(self)@.passes[pass as int] },
                ),
                ..old(self)@
            }),
            !found ==> final(self)@ == old(self)@,
    {
        if pass < self.passes.len() {
            let ghost before = self.passes@;
            self.passes[pass].pipeline_spec = spec;
            proof {
                assert(shape(self.passes@) =~= shape(before));
            }
            true
        } else {
            false
        }
    }

    /// Makes the attachment of fixed dimensions for `tag`, unless it was
    /// made already. It stands for `tag` whatever the output dimensions are.
    pub fn add_fixed_image(&mut self, tag: &str, extent: Extent, format: Format, usage: Usage) -> (r:
        Result<Attachment, AllocError>)
        requires
            old(self).wf(),
        ensures
            final(self).wf(),
            final(self)@.passes == old(self)@.passes,
            final(self)@.output_tag == old(self)@.output_tag,
            final(self)@.pipelines == old(self)@.pipelines,
            match r {
                Ok(a) => if old(self)@.images.fixed.contains_key(tag@) {
                    a == old(self)@.images.fixed[tag@] && final(self)@.images == old(self)@.images
                } else {
                    old(self)@.images.next_id < u64::MAX && a == old(self)@.images.fresh(
                        extent,
                        format,
                        usage,
                    ) && final(self)@.images == old(self)@.images.after_create_fixed(
                        tag@,
                        extent,
                        format,
                        usage,
                    )
                },
                Err(e) => !old(self)@.images.fixed.contains_key(tag@) && old(self)@.images.next_id
                    == u64::MAX && e == AllocError::Exhausted && final(self)@ == old(self)@,
            },
    {
        self.images.get_or_create_fixed(tag, extent, format, usage)
    }
    /// Says what keeps a frame from being recorded at `extent`, if anything
    /// does: a pass that needs a shared resource that `shared` lacks, an
    /// object that has no pipeline specification while its pass has none
    /// either, or that more attachments have to be made than identities are
    /// left. The first pass with a fault is reported.
    pub fn check_frame(
        &self,
        extent: Extent,
        objects: &TagMap<Vec<RenderableObject>>,
        shared: &TagMap<ResourceHandle>,
    ) -> (r: Result<(), FrameError>)
        requires
            self.wf(),
            objects.wf(),
            shared.wf(),
        ensures
            match r {
                Ok(()) => frame_fault(self@.passes, objects@, shared@.dom(), self@.images, extent)
                    is None,
                Err(e) => frame_fault(self@.passes, objects@, shared@.dom(), self@.images, extent)
                    == Some(e@),
            },
    {
        match scan_frame(&self.passes, objects, shared) {
            Err(e) => {
                return Err(e);
            },
            Ok(()) => {},
        }
        if !within_budget(&self.images, &self.passes, extent) {
            return Err(FrameError::OutOfAttachments);
        }
        Ok(())
    }

    /// Records a frame at the output dimensions `extent`.
    ///
    /// If `extent` is not what the sized attachments were made for, they are
    /// all dropped first. Then each pass, in declared order, gets the
    /// attachments it creates (cached ones are used again), the attachments
    /// it needs, the shared resources it needs from `shared`, and the
    /// commands that draw the objects that `objects` assigns to its name, in
    /// order; a name without an entry has no objects. At the end stands the
    /// attachment of the output tag, which is to be copied to the
    /// presentable image.
    ///
    /// Nothing is recorded, and the system stays as it was, if a pass needs
    /// a shared resource that `shared` lacks, if an object has no pipeline
    /// specification and its pass has none either, or if more attachments
    /// have to be made than identities are left.
    pub fn render_frame(
        &mut self,
        extent: Extent,
        objects: &TagMap<Vec<RenderableObject>>,
        shared: &TagMap<ResourceHandle>,
    ) -> (r: Result<Frame, FrameError>)
        requires
            old(self).wf(),
            objects.wf(),
            shared.wf(),
        ensures
            final(self).wf(),
            final(self)@.passes == old(self)@.passes,
            final(self)@.output_tag == old(self)@.output_tag,
            ({
                let passes = old(self)@.passes;
                let fault = frame_fault(
                    passes,
                    objects@,
                    shared@.dom(),
                    old(self)@.images,
                    extent,
                );
                match r {
                    Ok(frame) => {
                        &&& fault is None
                        &&& final(self)@.images == after_passes(
                            old(self)@.images.resized(extent),
                            passes,
                            extent,
                            passes.len() as int,
                        )
                        &&& final(self)@.pipelines == keys_after_passes(
                            old(self)@.pipelines,
                            passes,
                            objects@,
                            passes.len() as int,
                        )
                        &&& frame.extent == extent
                        &&& frame.passes@.len() == passes.len()
                        &&& forall|i: int|
                            0 <= i < passes.len() ==> record_matches(
                                #[trigger] frame.passes@[i],
                                i,
                                passes[i],
                                objects_of(objects@, passes[i].name@),
                                shared@,
                                final(self)@.images,
                                final(self)@.pipelines,
                                extent,
                            )
                        &&& final(self)@.images.cached(old(self)@.output_tag, extent) == Some(
                            frame.output,
                        )
                    },
                    Err(e) => fault == Some(e@) && final(self)@ == old(self)@,
                }
            }),
    {
        match self.check_frame(extent, objects, shared) {
            Err(e) => {
                return Err(e);
            },
            Ok(()) => {},
        }
        let ghost old_images = self.images@;
        let ghost passes = self.passes@;
        let ghost output_tag = self.output_tag@;
        let ghost sh = shape(passes);
        let ghost have = shared@.dom();
        self.images.resize(extent);
        let ghost start_images = self.images@;
        let ghost start_keys = self.pipelines@;
        proof {
            lemma_misses_same(old_images, start_images, passes, extent, passes.len() as int);
            lemma_faultless_iff_well_formed(sh, output_tag);
        }
        let none: Vec<RenderableObject> = Vec::new();
        let mut records: Vec<PassRecord> = Vec::new();
        let mut i: usize = 0;
        while i < self.passes.len()
            invariant
                0 <= i <= passes.len(),
                self.passes@ == passes,
                self.output_tag@ == output_tag,
                sh == shape(passes),
                have == shared@.dom(),
                dependencies_ordered(sh),
                self.images.wf(),
                self.pipelines.wf(),
                objects.wf(),
                shared.wf(),
                none@ == Seq::<RenderableObject>::empty(),
                frame_scan_from(passes, objects@, have, 0) is None,
                self.images@ == after_passes(start_images, passes, extent, i as int),
                self.images@.extent == Some(extent),
                extends(start_images, self.images@, extent),
                self.images@.next_id <= start_images.next_id + misses(
                    start_images,
                    passes,
                    extent,
                    i as int,
                ),
                start_images.next_id + misses(start_images, passes, extent, passes.len() as int)
                    <= u64::MAX,
                self.pipelines@ == keys_after_passes(start_keys, passes, objects@, i as int),
                forall|t: Seq<char>| #[trigger]
                    produced_before(sh, i as int).contains(t) ==> self.images@.cached(t, extent)
                        is Some,
                records@.len() == i,
                forall|r: int|
                    0 <= r < i ==> record_matches(
                        #[trigger] records@[r],
                        r,
                        passes[r],
                        objects_of(objects@, passes[r].name@),
                        shared@,
                        self.images@,
                        self.pipelines@,
                        extent,
                    ) && pass_settled(
                        passes[r],
                        objects_of(objects@, passes[r].name@),
                        self.images@,
                        self.pipelines@,
                        extent,
                    ),
            decreases passes.len() - i,
        {
            let pass = &self.passes[i];
            let ghost images_before = self.images@;
            let ghost keys_before = self.pipelines@;
            let ghost assigned_spec = objects_of(objects@, pass.name@);
            proof {
                lemma_misses_monotone(start_images, passes, extent, i as int + 1, passes.len() as int);
                lemma_misses_in_shrink(
                    start_images,
                    images_before,
                    pass.images_created@,
                    extent,
                    pass.images_created@.len() as int,
                );
                lemma_frame_scan(passes, objects@, have, 0, i as int);
                lemma_first_missing(pass.buffer_tags(), have, 0);
                lemma_first_without_pipeline(assigned_spec, *pass, 0);
            }
            let framebuffer = allocate_pass(&mut self.images, pass, extent);
            proof {
                assert forall|k: int| 0 <= k < pass.images_needed@.len() implies self.images@.cached(
                    (#[trigger] pass.images_needed@[k])@,
                    extent,
                ) is Some by {
                    assert(produced_before(sh, i as int).contains(sh[i as int].needed[k]));
                }
                assert forall|k: int| 0 <= k < pass.buffers_needed@.len() implies shared@.contains_key(
                    (#[trigger] pass.buffers_needed@[k])@,
                ) by {
                    assert(have.contains(pass.buffer_tags()[k]));
                }
            }
            let inputs = gather_inputs(&self.images, pass, extent);
            let resources = gather_resources(shared, pass);
            let assigned = match objects.get(pass.name.as_str()) {
                Some(list) => list,
                None => &none,
            };
            let commands = record_pass(&mut self.pipelines, pass, assigned);
            let record = PassRecord {
                pass: i,
                render_pass: pass.render_pass,
                framebuffer,
                inputs,
                resources,
                commands,
            };
            let ghost old_records = records@;
            records.push(record);
            proof {
                let images_now = self.images@;
                let keys_now = self.pipelines@;
                assert forall|r: int| 0 <= r < i + 1 implies record_matches(
                    #[trigger] records@[r],
                    r,
                    passes[r],
                    objects_of(objects@, passes[r].name@),
                    shared@,
                    images_now,
                    keys_now,
                    extent,
                ) && pass_settled(
                    passes[r],
                    objects_of(objects@, passes[r].name@),
                    images_now,
                    keys_now,
                    extent,
                ) by {
                    if r < i {
                        lemma_record_stable(
                            old_records[r],
                            r,
                            passes[r],
                            objects_of(objects@, passes[r].name@),
                            shared@,
                            images_before,
                            keys_before,
                            images_now,
                            keys_now,
                            extent,
                        );
                    }
                }
                lemma_produced_step(sh, i as int);
            }
            i += 1;
        }
        proof {
            assert(self.images@.cached(output_tag, extent) is Some);
        }
        let output = match self.images.lookup(self.output_tag.as_str(), extent) {
            Some(attachment) => attachment,
            None => {
                unreached()
            },
        };
        Ok(Frame { extent, passes: records, output })
    }
}

} // verus!
