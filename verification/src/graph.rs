//! Pass descriptors and the rules that a list of passes must meet before it
//! can be scheduled.

use vstd::prelude::*;
use vstd::string::*;
use crate::image::{Format, Usage};
use crate::pipeline_cache::PipelineSpec;
use crate::tag_map::TagMap;

verus! {

/// The identity of a compiled render-pass object.
#[derive(Clone, Copy, Debug, PartialEq, Eq, Structural)]
pub struct RenderPassHandle(pub u64);

/// An attachment that a pass writes: its tag, and how the image is to be made.
#[derive(Clone, Debug, PartialEq, Eq)]
pub struct CreatedImage {
    pub tag: String,
    pub format: Format,
    pub usage: Usage,
}

/// One declared stage of rendering.
#[derive(Clone, Debug, PartialEq, Eq)]
pub struct PassDescriptor {
    /// The name by which a frame's objects are assigned to this pass.
    pub name: String,
    /// The attachments this pass writes, in the order of the render pass's
    /// attachment indices.
    pub images_created: Vec<CreatedImage>,
    /// Tags of attachments, written by earlier passes, that this pass samples.
    pub images_needed: Vec<String>,
    /// Tags of the shared per-frame resources that this pass's shaders expect.
    pub buffers_needed: Vec<String>,
    pub render_pass: RenderPassHandle,
    /// The pipeline for the objects of this pass that bring none of their
    /// own.
    pub pipeline_spec: Option<PipelineSpec>,
}

/// The image tags of one pass.
pub struct PassTags {
    pub created: Seq<Seq<char>>,
    pub needed: Seq<Seq<char>>,
}

impl PassDescriptor {
    /// A pass named `name` that renders with `render_pass` and, so far,
    /// creates and needs nothing.
    pub fn new(name: &str, render_pass: RenderPassHandle) -> (pass: PassDescriptor)
        ensures
            pass.name@ == name@,
            pass.render_pass == render_pass,
            pass.images_created@.len() == 0,
            pass.images_needed@.len() == 0,
            pass.buffers_needed@.len() == 0,
            pass.pipeline_spec is None,
    {
        PassDescriptor {
            name: String::from_str(name),
            images_created: Vec::new(),
            images_needed: Vec::new(),
            buffers_needed: Vec::new(),
            render_pass,
            pipeline_spec: None,
        }
    }

    /// This pass with one more attachment that it creates, after those it
    /// creates already.
    pub fn creating(self, tag: &str, format: Format, usage: Usage) -> (pass: PassDescriptor)
        ensures
            pass.created_tags() == self.created_tags().push(tag@),
            pass.images_created@.drop_last() == self.images_created@,
            pass.images_created@.last().format == format,
            pass.images_created@.last().usage == usage,
            pass.name == self.name,
            pass.images_needed == self.images_needed,
            pass.buffers_needed == self.buffers_needed,
            pass.render_pass == self.render_pass,
            pass.pipeline_spec == self.pipeline_spec,
    {
        let mut pass = self;
        pass.images_created.push(CreatedImage { tag: String::from_str(tag), format, usage });
        proof {
            assert(pass.created_tags() =~= self.created_tags().push(tag@));
        }
        pass
    }

    /// This pass with one more image tag that it needs, after those it needs
    /// already.
    pub fn needing(self, tag: &str) -> (pass: PassDescriptor)
        ensures
            pass.needed_tags() == self.needed_tags().push(tag@),
            pass.name == self.name,
            pass.images_created == self.images_created,
            pass.buffers_needed == self.buffers_needed,
            pass.render_pass == self.render_pass,
            pass.pipeline_spec == self.pipeline_spec,
    {
        let mut pass = self;
        pass.images_needed.push(String::from_str(tag));
        proof {
            assert(pass.needed_tags() =~= self.needed_tags().push(tag@));
        }
        pass
    }

    /// This pass with one more shared resource that it needs, after those it
    /// needs already.
    pub fn needing_buffer(self, tag: &str) -> (pass: PassDescriptor)
        ensures
            pass.buffer_tags() == self.buffer_tags().push(tag@),
            pass.name == self.name,
            pass.images_created == self.images_created,
            pass.images_needed == self.images_needed,
            pass.render_pass == self.render_pass,
            pass.pipeline_spec == self.pipeline_spec,
    {
        let mut pass = self;
        pass.buffers_needed.push(String::from_str(tag));
        proof {
            assert(pass.buffer_tags() =~= self.buffer_tags().push(tag@));
        }
        pass
    }

    /// This pass with `spec` as the pipeline for the objects that bring none
    /// of their own.
    pub fn with_pipeline(self, spec: PipelineSpec) -> (pass: PassDescriptor)
        ensures
            pass == (PassDescriptor { pipeline_spec: Some(spec), ..self }),
    {
        let mut pass = self;
        pass.pipeline_spec = Some(spec);
        pass
    }

    /// The tags this pass creates, in declared order.
    pub open spec fn created_tags(&self) -> Seq<Seq<char>> {
        Seq::new(self.images_created@.len(), |k: int| self.images_created@[k].tag@)
    }

    /// The tags this pass needs, in declared order.
    pub open spec fn needed_tags(&self) -> Seq<Seq<char>> {
        Seq::new(self.images_needed@.len(), |k: int| self.images_needed@[k]@)
    }

    /// The tags of the shared resources this pass needs, in declared order.
    pub open spec fn buffer_tags(&self) -> Seq<Seq<char>> {
        Seq::new(self.buffers_needed@.len(), |k: int| self.buffers_needed@[k]@)
    }

    /// The image tags of this pass.
    pub open spec fn tags(&self) -> PassTags {
        PassTags { created: self.created_tags(), needed: self.needed_tags() }
    }
}

/// The image tags of each pass of a list.
pub open spec fn shape(passes: Seq<PassDescriptor>) -> Seq<PassTags> {
    Seq::new(passes.len(), |i: int| passes[i].tags())
}

/// The tags created by the passes before position `i`.
pub open spec fn produced_before(passes: Seq<PassTags>, i: int) -> Set<Seq<char>> {
    Set::new(
        |t: Seq<char>|
            exists|p: int| 0 <= p < i && p < passes.len() && #[trigger] passes[p].created.contains(t),
    )
}

/// The tags created by any pass.
pub open spec fn produced(passes: Seq<PassTags>) -> Set<Seq<char>> {
    produced_before(passes, passes.len() as int)
}

/// Every tag that a pass needs is created by a pass before it.
pub open spec fn dependencies_ordered(passes: Seq<PassTags>) -> bool {
    forall|i: int, k: int|
        0 <= i < passes.len() && 0 <= k < passes[i].needed.len() ==> produced_before(
            passes,
            i,
        ).contains(#[trigger] passes[i].needed[k])
}

/// A position that repeats a tag: one that `have` holds, or that stands
/// earlier in `created`.
pub open spec fn repeats(created: Seq<Seq<char>>, have: Set<Seq<char>>, k: int) -> bool {
    have.contains(created[k]) || created.subrange(0, k).contains(created[k])
}

/// No tag is created twice, by two passes or by one.
pub open spec fn created_once(passes: Seq<PassTags>) -> bool {
    forall|i: int, k: int|
        0 <= i < passes.len() && 0 <= k < passes[i].created.len() ==> !#[trigger] repeats(
            passes[i].created,
            produced_before(passes, i),
            k,
        )
}

/// What is wrong with a list of passes.
pub enum Fault {
    /// Pass `pass` needs `tag`, which no earlier pass creates.
    MissingDependency { pass: int, tag: Seq<char> },
    /// Pass `pass` creates `tag`, which has been created already.
    DuplicateTag { pass: int, tag: Seq<char> },
    /// No pass creates the output tag.
    MissingOutput { tag: Seq<char> },
}

/// The first position from `k` on whose tag is not in `have`.
pub open spec fn first_missing_from(needed: Seq<Seq<char>>, have: Set<Seq<char>>, k: int) -> Option<
    int,
>
    decreases needed.len() - k,
{
    if k < 0 || k >= needed.len() {
        None
    } else if !have.contains(needed[k]) {
        Some(k)
    } else {
        first_missing_from(needed, have, k + 1)
    }
}

/// The first position from `k` on whose tag is in `have` or stands at an
/// earlier position of `created`.
pub open spec fn first_repeat_from(created: Seq<Seq<char>>, have: Set<Seq<char>>, k: int) -> Option<
    int,
>
    decreases created.len() - k,
{
    if k < 0 || k >= created.len() {
        None
    } else if repeats(created, have, k) {
        Some(k)
    } else {
        first_repeat_from(created, have, k + 1)
    }
}

/// The fault of pass `i` alone, given the passes before it: a needed tag that
/// is missing comes before a created tag that repeats.
pub open spec fn pass_fault(passes: Seq<PassTags>, i: int) -> Option<Fault> {
    let have = produced_before(passes, i);
    match first_missing_from(passes[i].needed, have, 0) {
        Some(k) => Some(Fault::MissingDependency { pass: i, tag: passes[i].needed[k] }),
        None => match first_repeat_from(passes[i].created, have, 0) {
            Some(k) => Some(Fault::DuplicateTag { pass: i, tag: passes[i].created[k] }),
            None => None,
        },
    }
}

/// The fault of the first faulty pass from position `i` on.
pub open spec fn scan_from(passes: Seq<PassTags>, i: int) -> Option<Fault>
    decreases passes.len() - i,
{
    if i < 0 || i >= passes.len() {
        None
    } else {
        match pass_fault(passes, i) {
            Some(f) => Some(f),
            None => scan_from(passes, i + 1),
        }
    }
}

/// The first fault that a forward scan of `passes` meets, if there is any;
/// that the output tag is never created is found last.
pub open spec fn first_fault(passes: Seq<PassTags>, output_tag: Seq<char>) -> Option<Fault> {
    match scan_from(passes, 0) {
        Some(f) => Some(f),
        None => if produced(passes).contains(output_tag) {
            None
        } else {
            Some(Fault::MissingOutput { tag: output_tag })
        },
    }
}

/// Why a list of passes was refused.
#[derive(Clone, Debug, PartialEq, Eq)]
pub enum GraphError {
    /// Pass number `pass` needs `tag`, which no earlier pass creates.
    MissingDependency { pass: usize, tag: String },
    /// Pass number `pass` creates `tag`, which has been created already.
    DuplicateTag { pass: usize, tag: String },
    /// No pass creates the output tag `tag`.
    MissingOutput { tag: String },
}

impl View for GraphError {
    type V = Fault;

    open spec fn view(&self) -> Fault {
        match *self {
            GraphError::MissingDependency { pass, tag } => Fault::MissingDependency {
                pass: pass as int,
                tag: tag@,
            },
            GraphError::DuplicateTag { pass, tag } => Fault::DuplicateTag {
                pass: pass as int,
                tag: tag@,
            },
            GraphError::MissingOutput { tag } => Fault::MissingOutput { tag: tag@ },
        }
    }
}

/// The tags created before position `i + 1` are those created before `i`
/// and those that pass `i` creates.
pub proof fn lemma_produced_step(passes: Seq<PassTags>, i: int)
    requires
        0 <= i < passes.len(),
    ensures
        produced_before(passes, i + 1) =~= produced_before(passes, i).union(
            passes[i].created.to_set(),
        ),
{
}

/// What is wrong, in words.
pub open spec fn fault_message(fault: Fault) -> Seq<char> {
    match fault {
        Fault::MissingDependency { tag, .. } => "a pass needs the image `"@ + tag
            + "`, which no earlier pass creates"@,
        Fault::DuplicateTag { tag, .. } => "the image `"@ + tag + "` is created more than once"@,
        Fault::MissingOutput { tag } => "no pass creates the output image `"@ + tag + "`"@,
    }
}

impl GraphError {
    /// What is wrong, in words that name the tag.
    pub fn message(&self) -> (text: String)
        ensures
            text@ == fault_message(self@),
    {
        match self {
            GraphError::MissingDependency { tag, .. } => String::from_str(
                "a pass needs the image `",
            ).concat(tag.as_str()).concat("`, which no earlier pass creates"),
            GraphError::DuplicateTag { tag, .. } => String::from_str("the image `").concat(
                tag.as_str(),
            ).concat("` is created more than once"),
            GraphError::MissingOutput { tag } => String::from_str(
                "no pass creates the output image `",
            ).concat(tag.as_str()).concat("`"),
        }
    }
}

/// What `first_missing_from` finds is the least position at or after `k`
/// whose tag `have` lacks.
pub proof fn lemma_first_missing(needed: Seq<Seq<char>>, have: Set<Seq<char>>, k: int)
    requires
        0 <= k,
    ensures
        match first_missing_from(needed, have, k) {
            Some(m) => k <= m < needed.len() && !have.contains(needed[m]) && forall|j: int|
                k <= j < m ==> have.contains(#[trigger] needed[j]),
            None => forall|j: int| k <= j < needed.len() ==> have.contains(#[trigger] needed[j]),
        },
    decreases needed.len() - k,
{
    if k < needed.len() && have.contains(needed[k]) {
        lemma_first_missing(needed, have, k + 1);
    }
}

/// What `first_repeat_from` finds is the least position at or after `k` that
/// repeats a tag.
pub proof fn lemma_first_repeat(created: Seq<Seq<char>>, have: Set<Seq<char>>, k: int)
    requires
        0 <= k,
    ensures
        match first_repeat_from(created, have, k) {
            Some(m) => k <= m < created.len() && repeats(created, have, m) && forall|j: int|
                k <= j < m ==> !#[trigger] repeats(created, have, j),
            None => forall|j: int| k <= j < created.len() ==> !#[trigger] repeats(created, have, j),
        },
    decreases created.len() - k,
{
    if k < created.len() && !repeats(created, have, k) {
        lemma_first_repeat(created, have, k + 1);
    }
}

/// What `scan_from` finds is the fault of the first faulty pass at or after
/// position `i`.
pub proof fn lemma_scan(passes: Seq<PassTags>, i: int)
    requires
        0 <= i,
    ensures
        match scan_from(passes, i) {
            Some(f) => exists|p: int|
                i <= p < passes.len() && #[trigger] pass_fault(passes, p) == Some(f) && forall|q: int|
                    i <= q < p ==> #[trigger] pass_fault(passes, q) is None,
            None => forall|p: int| i <= p < passes.len() ==> #[trigger] pass_fault(passes, p) is None,
        },
    decreases passes.len() - i,
{
    if i < passes.len() {
        if pass_fault(passes, i) is None {
            lemma_scan(passes, i + 1);
        } else {
            assert(pass_fault(passes, i) == Some(scan_from(passes, i).unwrap()));
        }
    }
}

/// A list of passes has no fault exactly when every tag that a pass needs is
/// created by an earlier pass, no tag is created twice, and some pass creates
/// the output tag. In particular a needed tag that is never created, or only
/// by the same or a later pass, is always a fault.
pub proof fn lemma_faultless_iff_well_formed(passes: Seq<PassTags>, output_tag: Seq<char>)
    ensures
        first_fault(passes, output_tag) is None <==> dependencies_ordered(passes) && created_once(
            passes,
        ) && produced(passes).contains(output_tag),
{
    lemma_scan(passes, 0);
    if scan_from(passes, 0) is None {
        assert forall|i: int, k: int|
            0 <= i < passes.len() && 0 <= k < passes[i].needed.len() implies produced_before(
            passes,
            i,
        ).contains(#[trigger] passes[i].needed[k]) by {
            assert(pass_fault(passes, i) is None);
            lemma_first_missing(passes[i].needed, produced_before(passes, i), 0);
        }
        assert forall|i: int, k: int|
            0 <= i < passes.len() && 0 <= k < passes[i].created.len() implies !#[trigger] repeats(
            passes[i].created,
            produced_before(passes, i),
            k,
        ) by {
            assert(pass_fault(passes, i) is None);
            lemma_first_missing(passes[i].needed, produced_before(passes, i), 0);
            lemma_first_repeat(passes[i].created, produced_before(passes, i), 0);
        }
    } else {
        let f = scan_from(passes, 0).unwrap();
        let p = choose|p: int|
            0 <= p < passes.len() && #[trigger] pass_fault(passes, p) == Some(f) && forall|q: int|
                0 <= q < p ==> #[trigger] pass_fault(passes, q) is None;
        let have = produced_before(passes, p);
        lemma_first_missing(passes[p].needed, have, 0);
        lemma_first_repeat(passes[p].created, have, 0);
        match first_missing_from(passes[p].needed, have, 0) {
            Some(k) => {
            },
            None => {
                let k = first_repeat_from(passes[p].created, have, 0).unwrap();
                assert(repeats(passes[p].created, have, k));
            },
        }
    }
}

/// Checks a list of passes by one forward scan that keeps the set of tags
/// created so far, and reports the first fault it meets.
pub fn validate(passes: &Vec<PassDescriptor>, output_tag: &str) -> (r: Result<(), GraphError>)
    ensures
        match r {
            Ok(()) => first_fault(shape(passes@), output_tag@) is None,
            Err(e) => first_fault(shape(passes@), output_tag@) == Some(e@),
        },
{
    let ghost sh = shape(passes@);
    let mut have: TagMap<usize> = TagMap::new();
    let mut i: usize = 0;
    while i < passes.len()
        invariant
            sh == shape(passes@),
            0 <= i <= passes@.len(),
            have.wf(),
            have@.dom() =~= produced_before(sh, i as int),
            scan_from(sh, 0) == scan_from(sh, i as int),
        decreases passes@.len() - i,
    {
        let pass = &passes[i];
        let ghost needed = sh[i as int].needed;
        let ghost created = sh[i as int].created;
        let ghost base = have@.dom();
        let mut k: usize = 0;
        while k < pass.images_needed.len()
            invariant
                0 <= k <= pass.images_needed@.len(),
                have.wf(),
                have@.dom() == base,
                sh == shape(passes@),
                base == produced_before(sh, i as int),
                0 <= i < sh.len(),
                needed == sh[i as int].needed,
                needed == pass.needed_tags(),
                scan_from(sh, 0) == scan_from(sh, i as int),
                first_missing_from(needed, base, 0) == first_missing_from(needed, base, k as int),
            decreases pass.images_needed@.len() - k,
        {
            if !have.contains(pass.images_needed[k].as_str()) {
                return Err(
                    GraphError::MissingDependency { pass: i, tag: pass.images_needed[k].clone() },
                );
            }
            k += 1;
        }
        let mut k: usize = 0;
        while k < pass.images_created.len()
            invariant
                0 <= k <= pass.images_created@.len(),
                have.wf(),
                have@.dom() =~= base.union(created.subrange(0, k as int).to_set()),
                sh == shape(passes@),
                base == produced_before(sh, i as int),
                0 <= i < sh.len(),
                needed == sh[i as int].needed,
                created == sh[i as int].created,
                created == pass.created_tags(),
                scan_from(sh, 0) == scan_from(sh, i as int),
                first_missing_from(needed, base, 0) is None,
                first_repeat_from(created, base, 0) == first_repeat_from(created, base, k as int),
            decreases pass.images_created@.len() - k,
        {
            let tag = pass.images_created[k].tag.as_str();
            if have.contains(tag) {
                return Err(
                    GraphError::DuplicateTag { pass: i, tag: pass.images_created[k].tag.clone() },
                );
            }
            have.insert(tag, i);
            proof {
                let next = (k + 1) as int;
                assert(created.subrange(0, next).to_set() =~= created.subrange(
                    0,
                    k as int,
                ).to_set().insert(created[k as int])) by {
                    let a = created.subrange(0, k as int);
                    let b = created.subrange(0, next);
                    assert forall|t: Seq<char>|
                        a.to_set().insert(created[k as int]).contains(t) implies b.to_set().contains(
                        t,
                    ) by {
                        if t == created[k as int] {
                            assert(b[k as int] == t);
                        } else {
                            let j = choose|j: int| 0 <= j < a.len() && a[j] == t;
                            assert(b[j] == t);
                        }
                    }
                }
            }
            k += 1;
        }
        proof {
            assert(created.subrange(0, created.len() as int) =~= created);
            lemma_produced_step(sh, i as int);
        }
        i += 1;
    }
    if !have.contains(output_tag) {
        return Err(GraphError::MissingOutput { tag: String::from_str(output_tag) });
    }
    Ok(())
}

} // verus!
