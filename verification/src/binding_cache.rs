//! Resource handles, binding sets and the cache that builds each distinct
//! binding set once.

use vstd::prelude::*;
use vstd::string::*;
use crate::keyed::{after_resolve, distinct, lemma_distinct_keys_distinct_ids, resolved_id};
use crate::pipeline_cache::{slot_layout, Pipeline, SlotLayout};

verus! {

/// The kind of a resource that shaders read.
#[derive(Clone, Copy, Debug, PartialEq, Eq, Structural)]
pub enum ResourceKind {
    Buffer,
    Image,
}

/// The identity of a buffer or an image.
#[derive(Clone, Copy, Debug, PartialEq, Eq, Structural)]
pub struct ResourceHandle {
    pub kind: ResourceKind,
    pub id: u64,
}

/// Why a list of resources does not fit a slot of a pipeline.
#[derive(Clone, Copy, Debug, PartialEq, Eq, Structural)]
pub enum BindingError {
    /// The pipeline declares nothing at `slot`.
    UnusedSlot { slot: usize },
    /// The slot takes `expected` resources and `found` were given.
    CountMismatch { expected: usize, found: usize },
    /// The resource at position `index` is not of the kind `expected`.
    KindMismatch { index: usize, expected: ResourceKind },
}

/// Why resources do not fit, in words.
pub open spec fn binding_message(error: BindingError) -> Seq<char> {
    match error {
        BindingError::UnusedSlot { .. } => "the pipeline declares nothing at this slot"@,
        BindingError::CountMismatch { .. } => "the slot takes another number of resources"@,
        BindingError::KindMismatch { .. } => "the slot takes resources of another kind"@,
    }
}

impl BindingError {
    /// Why the resources do not fit, in words.
    pub fn message(&self) -> (text: String)
        ensures
            text@ == binding_message(*self),
    {
        match self {
            BindingError::UnusedSlot { .. } => String::from_str(
                "the pipeline declares nothing at this slot",
            ),
            BindingError::CountMismatch { .. } => String::from_str(
                "the slot takes another number of resources",
            ),
            BindingError::KindMismatch { .. } => String::from_str(
                "the slot takes resources of another kind",
            ),
        }
    }
}

/// The first position from `k` on whose resource is not of kind `kind`.
pub open spec fn first_of_other_kind(resources: Seq<ResourceHandle>, kind: ResourceKind, k: int)
    -> Option<int>
    decreases resources.len() - k,
{
    if k < 0 || k >= resources.len() {
        None
    } else if resources[k].kind != kind {
        Some(k)
    } else {
        first_of_other_kind(resources, kind, k + 1)
    }
}

/// Why `resources` do not make `count` resources of kind `kind`, if they do
/// not: a wrong count comes before a wrong kind.
pub open spec fn count_or_kind_fault(
    count: usize,
    kind: ResourceKind,
    resources: Seq<ResourceHandle>,
) -> Option<BindingError> {
    if resources.len() != count {
        Some(BindingError::CountMismatch { expected: count, found: resources.len() as usize })
    } else {
        match first_of_other_kind(resources, kind, 0) {
            Some(i) => Some(BindingError::KindMismatch { index: i as usize, expected: kind }),
            None => None,
        }
    }
}

/// Why `resources` do not fit what `layout` declares for `slot`, if they do
/// not.
pub open spec fn layout_fault(layout: SlotLayout, slot: usize, resources: Seq<ResourceHandle>)
    -> Option<BindingError> {
    match layout {
        SlotLayout::Unused => Some(BindingError::UnusedSlot { slot }),
        SlotLayout::Buffers(n) => count_or_kind_fault(n, ResourceKind::Buffer, resources),
        SlotLayout::Images(n) => count_or_kind_fault(n, ResourceKind::Image, resources),
    }
}

/// What `first_of_other_kind` finds is the least position at or after `k`
/// whose resource is of another kind.
pub proof fn lemma_first_of_other_kind(resources: Seq<ResourceHandle>, kind: ResourceKind, k: int)
    requires
        0 <= k,
    ensures
        match first_of_other_kind(resources, kind, k) {
            Some(m) => k <= m < resources.len() && resources[m].kind != kind && forall|j: int|
                k <= j < m ==> (#[trigger] resources[j]).kind == kind,
            None => forall|j: int| k <= j < resources.len() ==> (#[trigger] resources[j]).kind == kind,
        },
    decreases resources.len() - k,
{
    if k < resources.len() && resources[k].kind == kind {
        lemma_first_of_other_kind(resources, kind, k + 1);
    }
}

/// What identifies a binding set.
pub struct BindingKey {
    pub pipeline: int,
    pub slot: int,
    pub resources: Seq<ResourceHandle>,
}

/// Concrete resources bound to one slot of one pipeline. Two binding sets of
/// one cache are the same exactly when their `id`s are equal.
#[derive(Clone, Copy, Debug, PartialEq, Eq, Structural)]
pub struct BindingSet {
    pub id: usize,
    pub pipeline: usize,
    pub slot: usize,
}

#[derive(Clone, Debug)]
struct CachedBinding {
    pipeline: usize,
    slot: usize,
    resources: Vec<ResourceHandle>,
}

impl CachedBinding {
    spec fn key(&self) -> BindingKey {
        BindingKey {
            pipeline: self.pipeline as int,
            slot: self.slot as int,
            resources: self.resources@,
        }
    }
}

fn same_resources(a: &Vec<ResourceHandle>, b: &Vec<ResourceHandle>) -> (same: bool)
    ensures
        same == (a@ == b@),
{
    if a.len() != b.len() {
        return false;
    }
    let mut i: usize = 0;
    while i < a.len()
        invariant
            0 <= i <= a@.len(),
            a@.len() == b@.len(),
            a@.subrange(0, i as int) == b@.subrange(0, i as int),
        decreases a@.len() - i,
    {
        if a[i] != b[i] {
            return false;
        }
        i += 1;
    }
    assert(a@.subrange(0, a@.len() as int) =~= a@);
    assert(b@.subrange(0, b@.len() as int) =~= b@);
    true
}

fn check_kinds(resources: &Vec<ResourceHandle>, count: usize, kind: ResourceKind) -> (r: Result<
    (),
    BindingError,
>)
    ensures
        match r {
            Ok(()) => count_or_kind_fault(count, kind, resources@) is None,
            Err(e) => count_or_kind_fault(count, kind, resources@) == Some(e),
        },
{
    if resources.len() != count {
        return Err(BindingError::CountMismatch { expected: count, found: resources.len() });
    }
    let mut i: usize = 0;
    while i < resources.len()
        invariant
            0 <= i <= resources@.len(),
            resources@.len() == count,
            first_of_other_kind(resources@, kind, 0) == first_of_other_kind(
                resources@,
                kind,
                i as int,
            ),
        decreases resources@.len() - i,
    {
        if resources[i].kind != kind {
            return Err(BindingError::KindMismatch { index: i, expected: kind });
        }
        i += 1;
    }
    Ok(())
}

/// Checks `resources` against what `pipeline` declares for `slot`.
pub fn check_layout(pipeline: &Pipeline, slot: usize, resources: &Vec<ResourceHandle>) -> (r:
    Result<(), BindingError>)
    ensures
        match r {
            Ok(()) => layout_fault(slot_layout(pipeline@.slots, slot as int), slot, resources@)
                is None,
            Err(e) => layout_fault(slot_layout(pipeline@.slots, slot as int), slot, resources@)
                == Some(e),
        },
{
    match pipeline.slot(slot) {
        SlotLayout::Unused => Err(BindingError::UnusedSlot { slot }),
        SlotLayout::Buffers(n) => check_kinds(resources, n, ResourceKind::Buffer),
        SlotLayout::Images(n) => check_kinds(resources, n, ResourceKind::Image),
    }
}

/// Builds each distinct binding set once and hands it out again afterwards.
#[derive(Clone, Debug)]
pub struct BindingCache {
    entries: Vec<CachedBinding>,
}

impl View for BindingCache {
    type V = Seq<BindingKey>;

    closed spec fn view(&self) -> Seq<BindingKey> {
        Seq::new(self.entries@.len(), |i: int| self.entries@[i].key())
    }
}

impl BindingCache {
    /// No binding set is held twice.
    pub closed spec fn wf(&self) -> bool {
        distinct(self@)
    }

    /// What `wf` says of the view.
    pub proof fn lemma_wf(&self)
        requires
            self.wf(),
        ensures
            distinct(self@),
    {
    }

    /// A cache that holds nothing.
    pub fn new() -> (cache: Self)
        ensures
            cache.wf(),
            cache@ == Seq::<BindingKey>::empty(),
    {
        let cache = BindingCache { entries: Vec::new() };
        cache
    }

    /// How many binding sets have been built.
    pub fn build_count(&self) -> (count: usize)
        ensures
            count == self@.len(),
    {
        self.entries.len()
    }

    fn find(&self, pipeline: usize, slot: usize, resources: &Vec<ResourceHandle>) -> (found: Option<
        usize,
    >)
        requires
            self.wf(),
        ensures
            ({
                let key = BindingKey {
                    pipeline: pipeline as int,
                    slot: slot as int,
                    resources: resources@,
                };
                match found {
                    Some(i) => self@.contains(key) && i == self@.index_of(key) && i < self@.len(),
                    None => !self@.contains(key),
                }
            }),
    {
        let ghost key = BindingKey {
            pipeline: pipeline as int,
            slot: slot as int,
            resources: resources@,
        };
        let mut i: usize = 0;
        while i < self.entries.len()
            invariant
                0 <= i <= self.entries@.len(),
                self.wf(),
                key == (BindingKey {
                    pipeline: pipeline as int,
                    slot: slot as int,
                    resources: resources@,
                }),
                forall|j: int| 0 <= j < i ==> self@[j] != key,
            decreases self.entries@.len() - i,
        {
            if self.entries[i].pipeline == pipeline && self.entries[i].slot == slot
                && same_resources(&self.entries[i].resources, resources) {
                proof {
                    assert(self@[i as int] == key);
                    let j = self@.index_of(key);
                    assert(self@[j] == key);
                }
                return Some(i);
            }
            i += 1;
        }
        None
    }

    /// The binding set of `resources` at `slot` of `pipeline`: the one built
    /// for the same pipeline, slot and resources, if there is one, else a new
    /// one. Resources that do not fit what the pipeline declares for the slot
    /// are refused, and the cache stays as it was.
    pub fn get_or_build(&mut self, pipeline: &Pipeline, slot: usize, resources: Vec<ResourceHandle>)
        -> (r: Result<BindingSet, BindingError>)
        requires
            old(self).wf(),
        ensures
            final(self).wf(),
            ({
                let key = BindingKey { pipeline: pipeline@.id, slot: slot as int, resources: resources@ };
                let fault = layout_fault(slot_layout(pipeline@.slots, slot as int), slot, resources@);
                match r {
                    Ok(set) => {
                        &&& fault is None
                        &&& set.id == resolved_id(old(self)@, key)
                        &&& set.pipeline == pipeline@.id
                        &&& set.slot == slot
                        &&& final(self)@ == after_resolve(old(self)@, key)
                    },
                    Err(e) => fault == Some(e) && final(self)@ == old(self)@,
                }
            }),
    {
        match check_layout(pipeline, slot, &resources) {
            Err(e) => {
                return Err(e);
            },
            Ok(()) => {},
        }
        let ghost key = BindingKey { pipeline: pipeline@.id, slot: slot as int, resources: resources@ };
        let id = match self.find(pipeline.id(), slot, &resources) {
            Some(i) => i,
            None => {
                let id = self.entries.len();
                let ghost before = self@;
                self.entries.push(CachedBinding { pipeline: pipeline.id(), slot, resources });
                proof {
                    assert(self@ =~= before.push(key));
                }
                id
            },
        };
        Ok(BindingSet { id, pipeline: pipeline.id(), slot })
    }
}

/// Binding sets asked for with lists of resources that differ in one handle
/// are distinct.
pub proof fn lemma_changed_resource_changes_set(
    keys: Seq<BindingKey>,
    key: BindingKey,
    position: int,
    handle: ResourceHandle,
)
    requires
        distinct(keys),
        0 <= position < key.resources.len(),
        handle != key.resources[position],
    ensures
        resolved_id(keys, key) != resolved_id(
            after_resolve(keys, key),
            BindingKey { resources: key.resources.update(position, handle), ..key },
        ),
{
    let changed = BindingKey { resources: key.resources.update(position, handle), ..key };
    lemma_distinct_keys_distinct_ids(keys, key, changed);
}

} // verus!
