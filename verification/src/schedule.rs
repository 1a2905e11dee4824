//! What a frame is made of: which attachments and pipelines it asks for,
//! what keeps it from being recorded, and what is recorded for each pass.

use vstd::prelude::*;
use vstd::string::*;
use crate::binding_cache::ResourceHandle;
use crate::frame::{object_commands, Command, PassRecord, RenderableObject};
use crate::graph::{
    created_once, dependencies_ordered, first_missing_from, produced_before, repeats, shape,
    CreatedImage, PassDescriptor,
};
use crate::image::{
    extends, lemma_distinct_tags_distinct_attachments, lemma_request, AllocatorState, Extent,
};
use crate::keyed::{
    after_resolve, distinct, keys_extend, lemma_resolve_extends, lemma_resolve_twice, resolved_id,
};
use crate::pipeline_cache::{PipelineKey, PipelineSpec};

verus! {

/// The pipeline specification that `object` is drawn with in `pass`: its
/// own if it has one, else the pass's.
pub open spec fn effective_spec(object: RenderableObject, pass: PassDescriptor) -> Option<
    PipelineSpec,
> {
    match object.pipeline_spec {
        Some(spec) => Some(spec),
        None => pass.pipeline_spec,
    }
}

/// The key of the pipeline that `object` is drawn with in `pass`.
pub open spec fn object_key(object: RenderableObject, pass: PassDescriptor) -> PipelineKey {
    PipelineKey { spec: effective_spec(object, pass).unwrap()@, render_pass: pass.render_pass }
}

/// The objects assigned to the pass named `name`: none if the name has no
/// entry.
pub open spec fn objects_of(
    objects: Map<Seq<char>, Vec<RenderableObject>>,
    name: Seq<char>,
) -> Seq<RenderableObject> {
    if objects.contains_key(name) {
        objects[name]@
    } else {
        Seq::empty()
    }
}

/// The allocator after the first `k` of `decls` were asked for at `extent`,
/// in order.
pub open spec fn after_decls(
    state: AllocatorState,
    decls: Seq<CreatedImage>,
    extent: Extent,
    k: int,
) -> AllocatorState
    decreases k,
{
    if k <= 0 {
        state
    } else {
        after_decls(state, decls, extent, k - 1).after_request(
            decls[k - 1].tag@,
            extent,
            decls[k - 1].format,
            decls[k - 1].usage,
        )
    }
}

/// The allocator after the attachments of the first `i` passes were asked
/// for at `extent`, in order.
pub open spec fn after_passes(
    state: AllocatorState,
    passes: Seq<PassDescriptor>,
    extent: Extent,
    i: int,
) -> AllocatorState
    decreases i,
{
    if i <= 0 {
        state
    } else {
        after_decls(
            after_passes(state, passes, extent, i - 1),
            passes[i - 1].images_created@,
            extent,
            passes[i - 1].images_created@.len() as int,
        )
    }
}

/// How many of the first `k` of `decls` have no attachment cached in
/// `state` for `extent`.
pub open spec fn misses_in(
    state: AllocatorState,
    decls: Seq<CreatedImage>,
    extent: Extent,
    k: int,
) -> int
    decreases k,
{
    if k <= 0 {
        0
    } else {
        misses_in(state, decls, extent, k - 1) + if state.cached(decls[k - 1].tag@, extent)
            is None {
            1int
        } else {
            0int
        }
    }
}

/// How many of the attachments that the first `i` passes declare are not
/// cached in `state` for `extent`.
pub open spec fn misses(
    state: AllocatorState,
    passes: Seq<PassDescriptor>,
    extent: Extent,
    i: int,
) -> int
    decreases i,
{
    if i <= 0 {
        0
    } else {
        misses(state, passes, extent, i - 1) + misses_in(
            state,
            passes[i - 1].images_created@,
            extent,
            passes[i - 1].images_created@.len() as int,
        )
    }
}

/// The pipeline keys after the pipelines of the first `j` of `objects` were
/// asked for, in order.
pub open spec fn keys_after_objects(
    keys: Seq<PipelineKey>,
    objects: Seq<RenderableObject>,
    pass: PassDescriptor,
    j: int,
) -> Seq<PipelineKey>
    decreases j,
{
    if j <= 0 {
        keys
    } else {
        after_resolve(keys_after_objects(keys, objects, pass, j - 1), object_key(objects[j - 1], pass))
    }
}

/// The pipeline keys after the pipelines of the objects of the first `i`
/// passes were asked for, in order.
pub open spec fn keys_after_passes(
    keys: Seq<PipelineKey>,
    passes: Seq<PassDescriptor>,
    objects: Map<Seq<char>, Vec<RenderableObject>>,
    i: int,
) -> Seq<PipelineKey>
    decreases i,
{
    if i <= 0 {
        keys
    } else {
        let assigned = objects_of(objects, passes[i - 1].name@);
        keys_after_objects(
            keys_after_passes(keys, passes, objects, i - 1),
            assigned,
            passes[i - 1],
            assigned.len() as int,
        )
    }
}

/// The commands that draw the first `j` of `objects` in `pass`, in order,
/// each with the pipeline that `keys` gives it.
pub open spec fn pass_commands(
    objects: Seq<RenderableObject>,
    pass: PassDescriptor,
    keys: Seq<PipelineKey>,
    j: int,
) -> Seq<Command>
    decreases j,
{
    if j <= 0 {
        Seq::empty()
    } else {
        pass_commands(objects, pass, keys, j - 1) + object_commands(
            objects[j - 1],
            resolved_id(keys, object_key(objects[j - 1], pass)),
        )
    }
}

/// Whether `images` and `keys` hold everything that the record of `pass`
/// refers to.
pub open spec fn pass_settled(
    pass: PassDescriptor,
    objects: Seq<RenderableObject>,
    images: AllocatorState,
    keys: Seq<PipelineKey>,
    extent: Extent,
) -> bool {
    &&& forall|k: int|
        0 <= k < pass.images_created@.len() ==> images.cached(
            (#[trigger] pass.images_created@[k]).tag@,
            extent,
        ) is Some
    &&& forall|k: int|
        0 <= k < pass.images_needed@.len() ==> images.cached(
            (#[trigger] pass.images_needed@[k])@,
            extent,
        ) is Some
    &&& forall|j: int|
        0 <= j < objects.len() ==> keys.contains(object_key(#[trigger] objects[j], pass))
}

/// Whether `record` is what is recorded for pass number `i`, `pass`, with
/// `objects` assigned to it: the attachments are those that `images` has
/// cached for the pass's tags at `extent`, the resources are those that
/// `shared` holds under the pass's buffer tags, and the commands draw the
/// objects in order with the pipelines that `keys` gives them.
pub open spec fn record_matches(
    record: PassRecord,
    i: int,
    pass: PassDescriptor,
    objects: Seq<RenderableObject>,
    shared: Map<Seq<char>, ResourceHandle>,
    images: AllocatorState,
    keys: Seq<PipelineKey>,
    extent: Extent,
) -> bool {
    &&& record.pass == i
    &&& record.render_pass == pass.render_pass
    &&& record.framebuffer@ == Seq::new(
        pass.images_created@.len(),
        |k: int| images.cached(pass.images_created@[k].tag@, extent).unwrap(),
    )
    &&& record.inputs@ == Seq::new(
        pass.images_needed@.len(),
        |k: int| images.cached(pass.images_needed@[k]@, extent).unwrap(),
    )
    &&& record.resources@ == Seq::new(
        pass.buffers_needed@.len(),
        |k: int| shared[pass.buffers_needed@[k]@],
    )
    &&& record.commands@ == pass_commands(objects, pass, keys, objects.len() as int)
}

/// Why a frame cannot be recorded.
pub enum FrameFault {
    /// Pass `pass` needs the shared resource `tag`, which was not supplied.
    MissingResource { pass: int, tag: Seq<char> },
    /// Object number `object` of pass `pass` has no pipeline specification,
    /// and the pass has none either.
    MissingPipeline { pass: int, object: int },
    /// More attachments have to be made than identities are left.
    OutOfAttachments,
}

/// Why a frame was not recorded.
#[derive(Clone, Debug, PartialEq, Eq)]
pub enum FrameError {
    /// Pass number `pass` needs the shared resource `tag`, which was not
    /// supplied.
    MissingResource { pass: usize, tag: String },
    /// Object number `object` of pass number `pass` has no pipeline
    /// specification, and the pass has none either.
    MissingPipeline { pass: usize, object: usize },
    /// More attachments have to be made than identities are left.
    OutOfAttachments,
}

impl View for FrameError {
    type V = FrameFault;

    open spec fn view(&self) -> FrameFault {
        match *self {
            FrameError::MissingResource { pass, tag } => FrameFault::MissingResource {
                pass: pass as int,
                tag: tag@,
            },
            FrameError::MissingPipeline { pass, object } => FrameFault::MissingPipeline {
                pass: pass as int,
                object: object as int,
            },
            FrameError::OutOfAttachments => FrameFault::OutOfAttachments,
        }
    }
}

/// Why a frame cannot be recorded, in words.
pub open spec fn frame_fault_message(fault: FrameFault) -> Seq<char> {
    match fault {
        FrameFault::MissingResource { tag, .. } => "a pass needs the shared resource `"@ + tag
            + "`, which was not supplied"@,
        FrameFault::MissingPipeline { .. } => "an object has no pipeline, and its pass has none either"@,
        FrameFault::OutOfAttachments => "no attachment identities are left"@,
    }
}

impl FrameError {
    /// Why the frame was not recorded, in words.
    pub fn message(&self) -> (text: String)
        ensures
            text@ == frame_fault_message(self@),
    {
        match self {
            FrameError::MissingResource { tag, .. } => String::from_str(
                "a pass needs the shared resource `",
            ).concat(tag.as_str()).concat("`, which was not supplied"),
            FrameError::MissingPipeline { .. } => String::from_str(
                "an object has no pipeline, and its pass has none either",
            ),
            FrameError::OutOfAttachments => String::from_str("no attachment identities are left"),
        }
    }
}

/// The first position from `j` on whose object has no pipeline
/// specification in `pass`.
pub open spec fn first_without_pipeline(
    objects: Seq<RenderableObject>,
    pass: PassDescriptor,
    j: int,
) -> Option<int>
    decreases objects.len() - j,
{
    if j < 0 || j >= objects.len() {
        None
    } else if effective_spec(objects[j], pass) is None {
        Some(j)
    } else {
        first_without_pipeline(objects, pass, j + 1)
    }
}

/// What keeps pass number `i` from being recorded, if anything does: a
/// shared resource that is missing comes before an object without a
/// pipeline.
pub open spec fn pass_frame_fault(
    pass: PassDescriptor,
    i: int,
    objects: Seq<RenderableObject>,
    shared: Set<Seq<char>>,
) -> Option<FrameFault> {
    match first_missing_from(pass.buffer_tags(), shared, 0) {
        Some(k) => Some(FrameFault::MissingResource { pass: i, tag: pass.buffer_tags()[k] }),
        None => match first_without_pipeline(objects, pass, 0) {
            Some(j) => Some(FrameFault::MissingPipeline { pass: i, object: j }),
            None => None,
        },
    }
}

/// What keeps the first pass from position `i` on that cannot be recorded
/// from being recorded.
pub open spec fn frame_scan_from(
    passes: Seq<PassDescriptor>,
    objects: Map<Seq<char>, Vec<RenderableObject>>,
    shared: Set<Seq<char>>,
    i: int,
) -> Option<FrameFault>
    decreases passes.len() - i,
{
    if i < 0 || i >= passes.len() {
        None
    } else {
        match pass_frame_fault(passes[i], i, objects_of(objects, passes[i].name@), shared) {
            Some(f) => Some(f),
            None => frame_scan_from(passes, objects, shared, i + 1),
        }
    }
}

/// What keeps a frame from being recorded at `extent`, if anything does:
/// the fault of the first pass that has one, else that more attachments
/// have to be made than `images` has identities left.
pub open spec fn frame_fault(
    passes: Seq<PassDescriptor>,
    objects: Map<Seq<char>, Vec<RenderableObject>>,
    shared: Set<Seq<char>>,
    images: AllocatorState,
    extent: Extent,
) -> Option<FrameFault> {
    match frame_scan_from(passes, objects, shared, 0) {
        Some(f) => Some(f),
        None => if images.next_id + misses(images, passes, extent, passes.len() as int)
            > u64::MAX {
            Some(FrameFault::OutOfAttachments)
        } else {
            None
        },
    }
}

/// What `first_without_pipeline` finds is the least position at or after
/// `j` whose object has no pipeline specification.
pub proof fn lemma_first_without_pipeline(
    objects: Seq<RenderableObject>,
    pass: PassDescriptor,
    j: int,
)
    requires
        0 <= j,
    ensures
        match first_without_pipeline(objects, pass, j) {
            Some(m) => j <= m < objects.len() && effective_spec(objects[m], pass) is None
                && forall|n: int| j <= n < m ==> effective_spec(#[trigger] objects[n], pass) is Some,
            None => forall|n: int|
                j <= n < objects.len() ==> effective_spec(#[trigger] objects[n], pass) is Some,
        },
    decreases objects.len() - j,
{
    if j < objects.len() && effective_spec(objects[j], pass) is Some {
        lemma_first_without_pipeline(objects, pass, j + 1);
    }
}

/// A scan that finds nothing from position `i` on finds nothing in any pass
/// from there on.
pub proof fn lemma_frame_scan(
    passes: Seq<PassDescriptor>,
    objects: Map<Seq<char>, Vec<RenderableObject>>,
    shared: Set<Seq<char>>,
    i: int,
    p: int,
)
    requires
        0 <= i <= p < passes.len(),
        frame_scan_from(passes, objects, shared, i) is None,
    ensures
        pass_frame_fault(passes[p], p, objects_of(objects, passes[p].name@), shared) is None,
    decreases p - i,
{
    if i < p {
        lemma_frame_scan(passes, objects, shared, i + 1, p);
    }
}

/// No more attachments are missing among the first `k` of `decls` than
/// among the first `limit`, if `k` is at most `limit`.
pub proof fn lemma_misses_in_monotone(
    state: AllocatorState,
    decls: Seq<CreatedImage>,
    extent: Extent,
    k: int,
    limit: int,
)
    requires
        0 <= k <= limit,
    ensures
        0 <= misses_in(state, decls, extent, k) <= misses_in(state, decls, extent, limit),
    decreases limit,
{
    if k < limit {
        lemma_misses_in_monotone(state, decls, extent, k, limit - 1);
    } else if limit > 0 {
        lemma_misses_in_monotone(state, decls, extent, k - 1, limit - 1);
    }
}

/// No more attachments are missing for the first `i` passes than for the
/// first `limit`, if `i` is at most `limit`.
pub proof fn lemma_misses_monotone(
    state: AllocatorState,
    passes: Seq<PassDescriptor>,
    extent: Extent,
    i: int,
    limit: int,
)
    requires
        0 <= i <= limit,
    ensures
        0 <= misses(state, passes, extent, i) <= misses(state, passes, extent, limit),
    decreases limit,
{
    if limit > 0 {
        let decls = passes[limit - 1].images_created@;
        lemma_misses_in_monotone(state, decls, extent, 0, decls.len() as int);
        if i < limit {
            lemma_misses_monotone(state, passes, extent, i, limit - 1);
        } else {
            lemma_misses_monotone(state, passes, extent, i - 1, limit - 1);
        }
    }
}

/// What is missing in a later state was missing before: a state that has
/// cached all that an earlier state had lacks no more of `decls` than the
/// earlier state.
pub proof fn lemma_misses_in_shrink(
    earlier: AllocatorState,
    later: AllocatorState,
    decls: Seq<CreatedImage>,
    extent: Extent,
    k: int,
)
    requires
        extends(earlier, later, extent),
    ensures
        misses_in(later, decls, extent, k) <= misses_in(earlier, decls, extent, k),
    decreases k,
{
    if k > 0 {
        lemma_misses_in_shrink(earlier, later, decls, extent, k - 1);
    }
}

/// States that have the same attachments cached for `extent` lack the same
/// number of the attachments of the passes.
pub proof fn lemma_misses_same(
    a: AllocatorState,
    b: AllocatorState,
    passes: Seq<PassDescriptor>,
    extent: Extent,
    i: int,
)
    requires
        extends(a, b, extent),
        extends(b, a, extent),
    ensures
        misses(a, passes, extent, i) == misses(b, passes, extent, i),
    decreases i,
{
    if i > 0 {
        lemma_misses_same(a, b, passes, extent, i - 1);
        let decls = passes[i - 1].images_created@;
        lemma_misses_in_shrink(a, b, decls, extent, decls.len() as int);
        lemma_misses_in_shrink(b, a, decls, extent, decls.len() as int);
    }
}

/// Asking for the first `k` of `decls` at the dimensions that the allocator
/// has, while identities are left for those that are missing, keeps what
/// was cached and leaves each of their tags cached.
pub proof fn lemma_after_decls(state: AllocatorState, decls: Seq<CreatedImage>, extent: Extent, k: int)
    requires
        state.wf(),
        state.extent == Some(extent),
        0 <= k <= decls.len(),
        state.next_id + misses_in(state, decls, extent, k) <= u64::MAX,
    ensures
        after_decls(state, decls, extent, k).wf(),
        after_decls(state, decls, extent, k).extent == Some(extent),
        after_decls(state, decls, extent, k).next_id <= state.next_id + misses_in(
            state,
            decls,
            extent,
            k,
        ),
        extends(state, after_decls(state, decls, extent, k), extent),
        forall|m: int|
            0 <= m < k ==> after_decls(state, decls, extent, k).cached(
                (#[trigger] decls[m]).tag@,
                extent,
            ) is Some,
    decreases k,
{
    if k > 0 {
        lemma_misses_in_monotone(state, decls, extent, k - 1, k);
        lemma_after_decls(state, decls, extent, k - 1);
        let before = after_decls(state, decls, extent, k - 1);
        let last = decls[k - 1];
        lemma_request(before, last.tag@, extent, last.format, last.usage);
        let after = after_decls(state, decls, extent, k);
        assert forall|m: int| 0 <= m < k implies after.cached((#[trigger] decls[m]).tag@, extent)
            is Some by {}
    }
}

/// Asking for attachments that are all cached changes nothing.
pub proof fn lemma_cached_decls_change_nothing(
    state: AllocatorState,
    decls: Seq<CreatedImage>,
    extent: Extent,
    k: int,
)
    requires
        0 <= k <= decls.len(),
        forall|m: int| 0 <= m < k ==> state.cached((#[trigger] decls[m]).tag@, extent) is Some,
    ensures
        after_decls(state, decls, extent, k) == state,
    decreases k,
{
    if k > 0 {
        lemma_cached_decls_change_nothing(state, decls, extent, k - 1);
    }
}

/// Asking for the attachments of the first `i` passes at the dimensions
/// that the allocator has, while identities are left for those that are
/// missing, keeps what was cached and leaves the tag of each of them cached.
pub proof fn lemma_after_passes(
    state: AllocatorState,
    passes: Seq<PassDescriptor>,
    extent: Extent,
    i: int,
)
    requires
        state.wf(),
        state.extent == Some(extent),
        0 <= i <= passes.len(),
        state.next_id + misses(state, passes, extent, i) <= u64::MAX,
    ensures
        after_passes(state, passes, extent, i).wf(),
        after_passes(state, passes, extent, i).extent == Some(extent),
        after_passes(state, passes, extent, i).next_id <= state.next_id + misses(
            state,
            passes,
            extent,
            i,
        ),
        extends(state, after_passes(state, passes, extent, i), extent),
        forall|p: int, k: int|
            0 <= p < i && 0 <= k < passes[p].images_created@.len() ==> after_passes(
                state,
                passes,
                extent,
                i,
            ).cached((#[trigger] passes[p].images_created@[k]).tag@, extent) is Some,
    decreases i,
{
    if i > 0 {
        lemma_misses_monotone(state, passes, extent, i - 1, i);
        lemma_after_passes(state, passes, extent, i - 1);
        let before = after_passes(state, passes, extent, i - 1);
        let decls = passes[i - 1].images_created@;
        lemma_misses_in_shrink(state, before, decls, extent, decls.len() as int);
        lemma_after_decls(before, decls, extent, decls.len() as int);
        let after = after_passes(state, passes, extent, i);
        assert forall|p: int, k: int|
            0 <= p < i && 0 <= k < passes[p].images_created@.len() implies after.cached(
            (#[trigger] passes[p].images_created@[k]).tag@,
            extent,
        ) is Some by {}
    }
}

/// Asking for the attachments of passes whose attachments are all cached
/// changes nothing.
pub proof fn lemma_cached_passes_change_nothing(
    state: AllocatorState,
    passes: Seq<PassDescriptor>,
    extent: Extent,
    i: int,
)
    requires
        0 <= i <= passes.len(),
        forall|p: int, k: int|
            0 <= p < i && 0 <= k < passes[p].images_created@.len() ==> state.cached(
                (#[trigger] passes[p].images_created@[k]).tag@,
                extent,
            ) is Some,
    ensures
        after_passes(state, passes, extent, i) == state,
    decreases i,
{
    if i > 0 {
        lemma_cached_passes_change_nothing(state, passes, extent, i - 1);
        let decls = passes[i - 1].images_created@;
        lemma_cached_decls_change_nothing(state, decls, extent, decls.len() as int);
    }
}

/// A second frame at the same dimensions makes no attachment: after the
/// attachments of the passes were asked for once, asking for them again
/// changes nothing.
pub proof fn lemma_second_frame_makes_no_attachment(
    state: AllocatorState,
    passes: Seq<PassDescriptor>,
    extent: Extent,
)
    requires
        state.wf(),
        state.next_id + misses(state.resized(extent), passes, extent, passes.len() as int)
            <= u64::MAX,
    ensures
        ({
            let once = after_passes(state.resized(extent), passes, extent, passes.len() as int);
            &&& after_passes(once.resized(extent), passes, extent, passes.len() as int) == once
            &&& misses(once, passes, extent, passes.len() as int) == 0
        }),
{
    let n = passes.len() as int;
    lemma_after_passes(state.resized(extent), passes, extent, n);
    let once = after_passes(state.resized(extent), passes, extent, n);
    lemma_cached_passes_change_nothing(once, passes, extent, n);
    lemma_cached_passes_miss_nothing(once, passes, extent, n);
}

/// Passes whose attachments are all cached miss none.
pub proof fn lemma_cached_passes_miss_nothing(
    state: AllocatorState,
    passes: Seq<PassDescriptor>,
    extent: Extent,
    i: int,
)
    requires
        0 <= i <= passes.len(),
        forall|p: int, k: int|
            0 <= p < i && 0 <= k < passes[p].images_created@.len() ==> state.cached(
                (#[trigger] passes[p].images_created@[k]).tag@,
                extent,
            ) is Some,
    ensures
        misses(state, passes, extent, i) == 0,
    decreases i,
{
    if i > 0 {
        lemma_cached_passes_miss_nothing(state, passes, extent, i - 1);
        let decls = passes[i - 1].images_created@;
        lemma_cached_decls_miss_nothing(state, decls, extent, decls.len() as int);
    }
}

/// Attachments that are all cached are not missing.
pub proof fn lemma_cached_decls_miss_nothing(
    state: AllocatorState,
    decls: Seq<CreatedImage>,
    extent: Extent,
    k: int,
)
    requires
        0 <= k <= decls.len(),
        forall|m: int| 0 <= m < k ==> state.cached((#[trigger] decls[m]).tag@, extent) is Some,
    ensures
        misses_in(state, decls, extent, k) == 0,
    decreases k,
{
    if k > 0 {
        lemma_cached_decls_miss_nothing(state, decls, extent, k - 1);
    }
}

/// Whether every sized attachment of `state` has an identity from `base`
/// on.
pub open spec fn sized_since(state: AllocatorState, base: int) -> bool {
    forall|t: Seq<char>| #[trigger] state.sized.contains_key(t) ==> state.sized[t].id >= base
}

/// Asking for attachments makes no sized attachment with an identity that
/// was handed out before.
pub proof fn lemma_sized_since_after_decls(
    state: AllocatorState,
    base: int,
    decls: Seq<CreatedImage>,
    extent: Extent,
    k: int,
)
    requires
        state.wf(),
        state.extent == Some(extent),
        0 <= k <= decls.len(),
        state.next_id + misses_in(state, decls, extent, k) <= u64::MAX,
        base <= state.next_id,
        sized_since(state, base),
    ensures
        sized_since(after_decls(state, decls, extent, k), base),
        base <= after_decls(state, decls, extent, k).next_id,
    decreases k,
{
    if k > 0 {
        lemma_misses_in_monotone(state, decls, extent, k - 1, k);
        lemma_sized_since_after_decls(state, base, decls, extent, k - 1);
        lemma_after_decls(state, decls, extent, k - 1);
    }
}

/// Asking for the attachments of passes makes no sized attachment with an
/// identity that was handed out before.
pub proof fn lemma_sized_since_after_passes(
    state: AllocatorState,
    base: int,
    passes: Seq<PassDescriptor>,
    extent: Extent,
    i: int,
)
    requires
        state.wf(),
        state.extent == Some(extent),
        0 <= i <= passes.len(),
        state.next_id + misses(state, passes, extent, i) <= u64::MAX,
        base <= state.next_id,
        sized_since(state, base),
    ensures
        sized_since(after_passes(state, passes, extent, i), base),
        base <= after_passes(state, passes, extent, i).next_id,
    decreases i,
{
    if i > 0 {
        lemma_misses_monotone(state, passes, extent, i - 1, i);
        lemma_sized_since_after_passes(state, base, passes, extent, i - 1);
        lemma_after_passes(state, passes, extent, i - 1);
        let before = after_passes(state, passes, extent, i - 1);
        let decls = passes[i - 1].images_created@;
        lemma_misses_in_shrink(state, before, decls, extent, decls.len() as int);
        lemma_sized_since_after_decls(before, base, decls, extent, decls.len() as int);
    }
}

/// A frame at new dimensions makes every sized attachment anew: each tag
/// that the passes create and that has no fixed attachment gets an
/// attachment of the new dimensions whose identity was not handed out
/// before.
pub proof fn lemma_frame_at_new_dimensions_recreates(
    state: AllocatorState,
    passes: Seq<PassDescriptor>,
    extent: Extent,
    p: int,
    k: int,
)
    requires
        state.wf(),
        state.extent != Some(extent),
        state.next_id + misses(state.resized(extent), passes, extent, passes.len() as int)
            <= u64::MAX,
        0 <= p < passes.len(),
        0 <= k < passes[p].images_created@.len(),
        !state.fixed.contains_key(passes[p].images_created@[k].tag@),
    ensures
        ({
            let after = after_passes(state.resized(extent), passes, extent, passes.len() as int);
            let made = after.cached(passes[p].images_created@[k].tag@, extent);
            &&& made is Some
            &&& made.unwrap().id >= state.next_id
            &&& made.unwrap().extent == extent
            &&& !state.holds(made.unwrap())
        }),
{
    let n = passes.len() as int;
    let start = state.resized(extent);
    lemma_after_passes(start, passes, extent, n);
    lemma_sized_since_after_passes(start, state.next_id as int, passes, extent, n);
    let after = after_passes(start, passes, extent, n);
    let tag = passes[p].images_created@[k].tag@;
    lemma_fixed_is_kept(start, passes, extent, n);
    assert(after.sized.contains_key(tag));
}

/// Asking for the attachments of passes leaves the fixed attachments as
/// they are.
pub proof fn lemma_fixed_is_kept(
    state: AllocatorState,
    passes: Seq<PassDescriptor>,
    extent: Extent,
    i: int,
)
    ensures
        after_passes(state, passes, extent, i).fixed == state.fixed,
    decreases i,
{
    if i > 0 {
        lemma_fixed_is_kept(state, passes, extent, i - 1);
        let before = after_passes(state, passes, extent, i - 1);
        let decls = passes[i - 1].images_created@;
        lemma_fixed_is_kept_by_decls(before, decls, extent, decls.len() as int);
    }
}

/// Asking for attachments leaves the fixed attachments as they are.
pub proof fn lemma_fixed_is_kept_by_decls(
    state: AllocatorState,
    decls: Seq<CreatedImage>,
    extent: Extent,
    k: int,
)
    ensures
        after_decls(state, decls, extent, k).fixed == state.fixed,
    decreases k,
{
    if k > 0 {
        lemma_fixed_is_kept_by_decls(state, decls, extent, k - 1);
    }
}

/// Asking for the pipelines of the first `j` of `objects` keeps the
/// identity of every pipeline that was built and leaves the pipeline of each
/// of them built.
pub proof fn lemma_keys_after_objects(
    keys: Seq<PipelineKey>,
    objects: Seq<RenderableObject>,
    pass: PassDescriptor,
    j: int,
)
    requires
        distinct(keys),
        0 <= j <= objects.len(),
    ensures
        distinct(keys_after_objects(keys, objects, pass, j)),
        keys_extend(keys, keys_after_objects(keys, objects, pass, j)),
        forall|m: int|
            0 <= m < j ==> keys_after_objects(keys, objects, pass, j).contains(
                object_key(#[trigger] objects[m], pass),
            ),
    decreases j,
{
    if j > 0 {
        lemma_keys_after_objects(keys, objects, pass, j - 1);
        let before = keys_after_objects(keys, objects, pass, j - 1);
        let key = object_key(objects[j - 1], pass);
        lemma_resolve_twice(before, key);
        lemma_resolve_extends(before, key);
        let after = keys_after_objects(keys, objects, pass, j);
        assert forall|m: int| 0 <= m < j implies after.contains(
            object_key(#[trigger] objects[m], pass),
        ) by {}
    }
}

/// Asking for pipelines that are all built changes nothing.
pub proof fn lemma_built_objects_change_nothing(
    keys: Seq<PipelineKey>,
    objects: Seq<RenderableObject>,
    pass: PassDescriptor,
    j: int,
)
    requires
        0 <= j <= objects.len(),
        forall|m: int| 0 <= m < j ==> keys.contains(object_key(#[trigger] objects[m], pass)),
    ensures
        keys_after_objects(keys, objects, pass, j) == keys,
    decreases j,
{
    if j > 0 {
        lemma_built_objects_change_nothing(keys, objects, pass, j - 1);
    }
}

/// Whether `keys` holds the pipeline of every object that `objects` assigns
/// to one of the first `i` passes.
pub open spec fn all_built(
    keys: Seq<PipelineKey>,
    passes: Seq<PassDescriptor>,
    objects: Map<Seq<char>, Vec<RenderableObject>>,
    i: int,
) -> bool {
    forall|p: int, m: int|
        0 <= p < i && 0 <= m < objects_of(objects, passes[p].name@).len() ==> keys.contains(
            #[trigger] object_key(objects_of(objects, passes[p].name@)[m], passes[p]),
        )
}

/// Asking for the pipelines of the objects of the first `i` passes keeps the
/// identity of every pipeline that was built and leaves the pipeline of each
/// of the objects built.
pub proof fn lemma_keys_after_passes(
    keys: Seq<PipelineKey>,
    passes: Seq<PassDescriptor>,
    objects: Map<Seq<char>, Vec<RenderableObject>>,
    i: int,
)
    requires
        distinct(keys),
        0 <= i <= passes.len(),
    ensures
        distinct(keys_after_passes(keys, passes, objects, i)),
        keys_extend(keys, keys_after_passes(keys, passes, objects, i)),
        all_built(keys_after_passes(keys, passes, objects, i), passes, objects, i),
    decreases i,
{
    if i > 0 {
        lemma_keys_after_passes(keys, passes, objects, i - 1);
        let before = keys_after_passes(keys, passes, objects, i - 1);
        let assigned = objects_of(objects, passes[i - 1].name@);
        lemma_keys_after_objects(before, assigned, passes[i - 1], assigned.len() as int);
        let after = keys_after_passes(keys, passes, objects, i);
        assert forall|p: int, m: int|
            0 <= p < i && 0 <= m < objects_of(objects, passes[p].name@).len() implies after.contains(
            #[trigger] object_key(objects_of(objects, passes[p].name@)[m], passes[p]),
        ) by {}
    }
}

/// Asking for the pipelines of passes whose objects' pipelines are all built
/// changes nothing.
pub proof fn lemma_built_passes_change_nothing(
    keys: Seq<PipelineKey>,
    passes: Seq<PassDescriptor>,
    objects: Map<Seq<char>, Vec<RenderableObject>>,
    i: int,
)
    requires
        0 <= i <= passes.len(),
        all_built(keys, passes, objects, i),
    ensures
        keys_after_passes(keys, passes, objects, i) == keys,
    decreases i,
{
    if i > 0 {
        lemma_built_passes_change_nothing(keys, passes, objects, i - 1);
        let assigned = objects_of(objects, passes[i - 1].name@);
        lemma_built_objects_change_nothing(keys, assigned, passes[i - 1], assigned.len() as int);
    }
}

/// A second frame with the same objects builds no pipeline: after the
/// pipelines of the objects were asked for once, asking for them again
/// changes nothing.
pub proof fn lemma_second_frame_builds_no_pipeline(
    keys: Seq<PipelineKey>,
    passes: Seq<PassDescriptor>,
    objects: Map<Seq<char>, Vec<RenderableObject>>,
)
    requires
        distinct(keys),
    ensures
        ({
            let once = keys_after_passes(keys, passes, objects, passes.len() as int);
            keys_after_passes(once, passes, objects, passes.len() as int) == once
        }),
{
    let n = passes.len() as int;
    lemma_keys_after_passes(keys, passes, objects, n);
    lemma_built_passes_change_nothing(keys_after_passes(keys, passes, objects, n), passes, objects, n);
}

/// What a pass samples is what an earlier pass rendered to: in the records
/// of a frame of passes whose dependencies are ordered, every input of a
/// pass is an attachment of the framebuffer of a pass before it.
pub proof fn lemma_inputs_are_rendered_earlier(
    records: Seq<PassRecord>,
    passes: Seq<PassDescriptor>,
    objects: Map<Seq<char>, Vec<RenderableObject>>,
    shared: Map<Seq<char>, ResourceHandle>,
    images: AllocatorState,
    keys: Seq<PipelineKey>,
    extent: Extent,
    i: int,
    k: int,
)
    requires
        dependencies_ordered(shape(passes)),
        records.len() == passes.len(),
        forall|r: int|
            0 <= r < passes.len() ==> record_matches(
                #[trigger] records[r],
                r,
                passes[r],
                objects_of(objects, passes[r].name@),
                shared,
                images,
                keys,
                extent,
            ),
        0 <= i < passes.len(),
        0 <= k < passes[i].images_needed@.len(),
    ensures
        exists|j: int, l: int|
            0 <= j < i && 0 <= l < records[j].framebuffer@.len() && records[i].inputs@[k]
                == #[trigger] records[j].framebuffer@[l],
{
    let sh = shape(passes);
    let tag = passes[i].images_needed@[k]@;
    assert(sh[i].needed[k] == tag);
    let j = choose|j: int| 0 <= j < i && j < sh.len() && #[trigger] sh[j].created.contains(tag);
    let l = choose|l: int| 0 <= l < sh[j].created.len() && sh[j].created[l] == tag;
    assert(records[i].inputs@[k] == records[j].framebuffer@[l]);
}

/// Every attachment has one writer: in the records of a frame of passes
/// that create no tag twice, no attachment stands at two places of the
/// framebuffers.
pub proof fn lemma_attachments_have_one_writer(
    records: Seq<PassRecord>,
    passes: Seq<PassDescriptor>,
    objects: Map<Seq<char>, Vec<RenderableObject>>,
    shared: Map<Seq<char>, ResourceHandle>,
    images: AllocatorState,
    keys: Seq<PipelineKey>,
    extent: Extent,
    i: int,
    k: int,
    j: int,
    l: int,
)
    requires
        created_once(shape(passes)),
        images.wf(),
        records.len() == passes.len(),
        forall|r: int|
            0 <= r < passes.len() ==> record_matches(
                #[trigger] records[r],
                r,
                passes[r],
                objects_of(objects, passes[r].name@),
                shared,
                images,
                keys,
                extent,
            ),
        0 <= i < passes.len(),
        0 <= k < passes[i].images_created@.len(),
        0 <= j < passes.len(),
        0 <= l < passes[j].images_created@.len(),
        images.cached(passes[i].images_created@[k].tag@, extent) is Some,
        images.cached(passes[j].images_created@[l].tag@, extent) is Some,
        i != j || k != l,
    ensures
        records[i].framebuffer@[k].id != records[j].framebuffer@[l].id,
{
    let sh = shape(passes);
    let first = passes[i].images_created@[k].tag@;
    let second = passes[j].images_created@[l].tag@;
    assert(sh[i].created[k] == first);
    assert(sh[j].created[l] == second);
    if i < j {
        assert(sh[i].created.contains(first));
        assert(!repeats(sh[j].created, produced_before(sh, j), l));
    } else if j < i {
        assert(sh[j].created.contains(second));
        assert(!repeats(sh[i].created, produced_before(sh, i), k));
    } else if k < l {
        assert(sh[i].created.subrange(0, l)[k] == first);
        assert(!repeats(sh[i].created, produced_before(sh, i), l));
    } else {
        assert(sh[i].created.subrange(0, k)[l] == second);
        assert(!repeats(sh[i].created, produced_before(sh, i), k));
    }
    lemma_distinct_tags_distinct_attachments(images, first, second, extent);
}

/// The commands of a pass do not change when more pipelines are built.
pub proof fn lemma_pass_commands_stable(
    objects: Seq<RenderableObject>,
    pass: PassDescriptor,
    earlier: Seq<PipelineKey>,
    later: Seq<PipelineKey>,
    j: int,
)
    requires
        keys_extend(earlier, later),
        0 <= j <= objects.len(),
        forall|m: int| 0 <= m < j ==> earlier.contains(object_key(#[trigger] objects[m], pass)),
    ensures
        pass_commands(objects, pass, later, j) == pass_commands(objects, pass, earlier, j),
    decreases j,
{
    if j > 0 {
        lemma_pass_commands_stable(objects, pass, earlier, later, j - 1);
    }
}

/// A record that matches stays matching when more attachments are made at
/// the same dimensions and more pipelines are built.
pub proof fn lemma_record_stable(
    record: PassRecord,
    i: int,
    pass: PassDescriptor,
    objects: Seq<RenderableObject>,
    shared: Map<Seq<char>, ResourceHandle>,
    images: AllocatorState,
    keys: Seq<PipelineKey>,
    later_images: AllocatorState,
    later_keys: Seq<PipelineKey>,
    extent: Extent,
)
    requires
        record_matches(record, i, pass, objects, shared, images, keys, extent),
        pass_settled(pass, objects, images, keys, extent),
        extends(images, later_images, extent),
        keys_extend(keys, later_keys),
    ensures
        record_matches(record, i, pass, objects, shared, later_images, later_keys, extent),
        pass_settled(pass, objects, later_images, later_keys, extent),
{
    lemma_pass_commands_stable(objects, pass, keys, later_keys, objects.len() as int);
    assert(Seq::new(
        pass.images_created@.len(),
        |k: int| later_images.cached(pass.images_created@[k].tag@, extent).unwrap(),
    ) =~= Seq::new(
        pass.images_created@.len(),
        |k: int| images.cached(pass.images_created@[k].tag@, extent).unwrap(),
    ));
    assert(Seq::new(
        pass.images_needed@.len(),
        |k: int| later_images.cached(pass.images_needed@[k]@, extent).unwrap(),
    ) =~= Seq::new(
        pass.images_needed@.len(),
        |k: int| images.cached(pass.images_needed@[k]@, extent).unwrap(),
    ));
}

} // verus!
