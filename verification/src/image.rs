//! Framebuffer attachments and the allocator that caches them.

use vstd::prelude::*;
use crate::tag_map::TagMap;

verus! {

/// The width and height of an image, in pixels.
#[derive(Clone, Copy, Debug, PartialEq, Eq, Structural)]
pub struct Extent {
    pub width: u32,
    pub height: u32,
}

/// The texel layout of an attachment.
#[derive(Clone, Copy, Debug, PartialEq, Eq, Structural)]
pub enum Format {
    R8G8B8A8Unorm,
    R8G8B8A8Srgb,
    B8G8R8A8Unorm,
    B8G8R8A8Srgb,
    R16G16B16A16Sfloat,
    R32G32B32A32Sfloat,
    D16Unorm,
    D32Sfloat,
}

/// What an attachment may be used for.
#[derive(Clone, Copy, Debug, PartialEq, Eq, Structural)]
pub struct Usage {
    pub sampled: bool,
    pub color_attachment: bool,
    pub depth_attachment: bool,
}

/// An image that passes render to or sample from. Two attachments are the
/// same image exactly when their `id`s are equal.
#[derive(Clone, Copy, Debug, PartialEq, Eq, Structural)]
pub struct Attachment {
    pub id: u64,
    pub extent: Extent,
    pub format: Format,
    pub usage: Usage,
}

/// Why the allocator could not hand out an attachment.
#[derive(Clone, Copy, Debug, PartialEq, Eq, Structural)]
pub enum AllocError {
    /// Every attachment identity has been used.
    Exhausted,
}

/// What an allocator holds.
pub struct AllocatorState {
    /// The dimensions that the sized attachments were made for.
    pub extent: Option<Extent>,
    /// The attachments that follow the output dimensions, by tag.
    pub sized: Map<Seq<char>, Attachment>,
    /// The attachments of fixed dimensions, by tag.
    pub fixed: Map<Seq<char>, Attachment>,
    /// How often an attachment has been made for a tag.
    pub created: Map<Seq<char>, u64>,
    /// The identity that the next new attachment gets.
    pub next_id: u64,
}

impl AllocatorState {
    /// The state of an allocator that holds nothing and gives its first
    /// attachment the identity `first_id`.
    pub open spec fn starting_at(first_id: u64) -> AllocatorState {
        AllocatorState {
            extent: None,
            sized: Map::empty(),
            fixed: Map::empty(),
            created: Map::empty(),
            next_id: first_id,
        }
    }

    /// The state of a new allocator.
    pub open spec fn empty() -> AllocatorState {
        AllocatorState::starting_at(0)
    }

    /// Every attachment held was handed out earlier, the sized ones have the
    /// current dimensions, no identity is held under two tags, and no tag had
    /// more attachments made than were made in all.
    pub open spec fn wf(self) -> bool {
        &&& forall|t: Seq<char>| #[trigger]
            self.sized.contains_key(t) ==> self.sized[t].id < self.next_id && self.extent == Some(
                self.sized[t].extent,
            )
        &&& forall|t: Seq<char>| #[trigger]
            self.fixed.contains_key(t) ==> self.fixed[t].id < self.next_id
        &&& forall|t: Seq<char>| #[trigger]
            self.created.contains_key(t) ==> self.created[t] <= self.next_id
        &&& forall|t: Seq<char>, u: Seq<char>|
            t != u && #[trigger] self.sized.contains_key(t) && #[trigger] self.sized.contains_key(u)
                ==> self.sized[t].id != self.sized[u].id
        &&& forall|t: Seq<char>, u: Seq<char>|
            t != u && #[trigger] self.fixed.contains_key(t) && #[trigger] self.fixed.contains_key(u)
                ==> self.fixed[t].id != self.fixed[u].id
        &&& forall|t: Seq<char>, u: Seq<char>| #[trigger]
            self.sized.contains_key(t) && #[trigger] self.fixed.contains_key(u) ==> self.sized[t].id
                != self.fixed[u].id
    }

    /// The attachment that a request for `tag` at `extent` finds: the fixed
    /// one of that tag whatever the dimensions, else the sized one if it was
    /// made for `extent`.
    pub open spec fn cached(self, tag: Seq<char>, extent: Extent) -> Option<Attachment> {
        if self.fixed.contains_key(tag) {
            Some(self.fixed[tag])
        } else if self.extent == Some(extent) && self.sized.contains_key(tag) {
            Some(self.sized[tag])
        } else {
            None
        }
    }

    /// How often an attachment has been made for `tag`.
    pub open spec fn count(self, tag: Seq<char>) -> int {
        if self.created.contains_key(tag) {
            self.created[tag] as int
        } else {
            0
        }
    }

    /// Whether `a` is held under some tag.
    pub open spec fn holds(self, a: Attachment) -> bool {
        exists|t: Seq<char>|
            (#[trigger] self.sized.contains_key(t) && self.sized[t] == a) || (
            #[trigger] self.fixed.contains_key(t) && self.fixed[t] == a)
    }

    /// The attachment that would be made next.
    pub open spec fn fresh(self, extent: Extent, format: Format, usage: Usage) -> Attachment {
        Attachment { id: self.next_id, extent, format, usage }
    }

    /// The state after the output dimensions became `extent`: if they
    /// changed, every sized attachment is dropped.
    pub open spec fn resized(self, extent: Extent) -> AllocatorState {
        if self.extent == Some(extent) {
            self
        } else {
            AllocatorState { extent: Some(extent), sized: Map::empty(), ..self }
        }
    }

    /// The state after a sized attachment was made for `tag` at `extent`.
    pub open spec fn after_create(
        self,
        tag: Seq<char>,
        extent: Extent,
        format: Format,
        usage: Usage,
    ) -> AllocatorState {
        AllocatorState {
            extent: Some(extent),
            sized: self.resized(extent).sized.insert(tag, self.fresh(extent, format, usage)),
            fixed: self.fixed,
            created: self.created.insert(tag, (self.count(tag) + 1) as u64),
            next_id: (self.next_id + 1) as u64,
        }
    }

    /// The state after a fixed attachment was made for `tag`.
    pub open spec fn after_create_fixed(
        self,
        tag: Seq<char>,
        extent: Extent,
        format: Format,
        usage: Usage,
    ) -> AllocatorState {
        AllocatorState {
            fixed: self.fixed.insert(tag, self.fresh(extent, format, usage)),
            created: self.created.insert(tag, (self.count(tag) + 1) as u64),
            next_id: (self.next_id + 1) as u64,
            ..self
        }
    }

    /// Whether a request for `tag` at `extent` can be met: by an attachment
    /// that is cached, or by a new one while identities are left.
    pub open spec fn can_serve(self, tag: Seq<char>, extent: Extent) -> bool {
        self.cached(tag, extent) is Some || self.next_id < u64::MAX
    }

    /// The attachment that a request hands out.
    pub open spec fn requested(
        self,
        tag: Seq<char>,
        extent: Extent,
        format: Format,
        usage: Usage,
    ) -> Attachment {
        match self.cached(tag, extent) {
            Some(a) => a,
            None => self.fresh(extent, format, usage),
        }
    }

    /// The state after a request that could be met.
    pub open spec fn after_request(
        self,
        tag: Seq<char>,
        extent: Extent,
        format: Format,
        usage: Usage,
    ) -> AllocatorState {
        match self.cached(tag, extent) {
            Some(_) => self,
            None => self.after_create(tag, extent, format, usage),
        }
    }
}

/// Every attachment that `earlier` has cached for `extent` is cached the
/// same in `later`.
pub open spec fn extends(earlier: AllocatorState, later: AllocatorState, extent: Extent) -> bool {
    forall|t: Seq<char>|
        (#[trigger] earlier.cached(t, extent)) is Some ==> later.cached(t, extent)
            == earlier.cached(t, extent)
}

/// A request that can be met leaves a well-formed state in which the
/// attachment handed out is cached for its tag. If the request was made at
/// the dimensions that the state already had, every attachment that was
/// cached is still cached.
pub proof fn lemma_request(
    s: AllocatorState,
    tag: Seq<char>,
    extent: Extent,
    format: Format,
    usage: Usage,
)
    requires
        s.wf(),
        s.can_serve(tag, extent),
    ensures
        s.after_request(tag, extent, format, usage).wf(),
        s.after_request(tag, extent, format, usage).cached(tag, extent) == Some(
            s.requested(tag, extent, format, usage),
        ),
        s.after_request(tag, extent, format, usage).fixed == s.fixed,
        s.after_request(tag, extent, format, usage).next_id <= s.next_id + 1,
        s.extent == Some(extent) ==> s.after_request(tag, extent, format, usage).extent == Some(
            extent,
        ),
        s.extent == Some(extent) ==> forall|t: Seq<char>|
            (#[trigger] s.cached(t, extent)) is Some ==> s.after_request(
                tag,
                extent,
                format,
                usage,
            ).cached(t, extent) == s.cached(t, extent),
{
}

/// Attachments that are cached for different tags are different images.
pub proof fn lemma_distinct_tags_distinct_attachments(
    s: AllocatorState,
    tag: Seq<char>,
    other: Seq<char>,
    extent: Extent,
)
    requires
        s.wf(),
        tag != other,
        s.cached(tag, extent) is Some,
        s.cached(other, extent) is Some,
    ensures
        s.cached(tag, extent).unwrap().id != s.cached(other, extent).unwrap().id,
{
}

/// Asking again for a tag at the same dimensions hands out the identical
/// attachment and makes nothing.
pub proof fn lemma_same_request_reuses(
    s: AllocatorState,
    tag: Seq<char>,
    extent: Extent,
    format: Format,
    usage: Usage,
    format_again: Format,
    usage_again: Usage,
)
    requires
        s.wf(),
        s.can_serve(tag, extent),
    ensures
        ({
            let first = s.requested(tag, extent, format, usage);
            let s1 = s.after_request(tag, extent, format, usage);
            &&& s1.can_serve(tag, extent)
            &&& s1.requested(tag, extent, format_again, usage_again) == first
            &&& s1.after_request(tag, extent, format_again, usage_again) == s1
        }),
{
    lemma_request(s, tag, extent, format, usage);
}

/// Asking for a sized tag after the dimensions changed hands out a new
/// attachment, made for the new dimensions, and nothing that was made for the
/// old dimensions is held any more.
pub proof fn lemma_dimension_change_recreates(
    s: AllocatorState,
    tag: Seq<char>,
    old_extent: Extent,
    new_extent: Extent,
    format: Format,
    usage: Usage,
)
    requires
        s.wf(),
        !s.fixed.contains_key(tag),
        old_extent != new_extent,
        s.can_serve(tag, old_extent),
        s.after_request(tag, old_extent, format, usage).can_serve(tag, new_extent),
    ensures
        ({
            let first = s.requested(tag, old_extent, format, usage);
            let s1 = s.after_request(tag, old_extent, format, usage);
            let second = s1.requested(tag, new_extent, format, usage);
            let s2 = s1.after_request(tag, new_extent, format, usage);
            &&& second.id != first.id
            &&& second.extent == new_extent
            &&& s2.cached(tag, new_extent) == Some(second)
            &&& s2.cached(tag, old_extent) is None
            &&& !s2.holds(first)
            &&& s2.sized.dom() == set![tag]
            &&& s2.count(tag) == s1.count(tag) + 1
        }),
{
    lemma_request(s, tag, old_extent, format, usage);
    let first = s.requested(tag, old_extent, format, usage);
    let s1 = s.after_request(tag, old_extent, format, usage);
    lemma_request(s1, tag, new_extent, format, usage);
    let s2 = s1.after_request(tag, new_extent, format, usage);
    assert forall|t: Seq<char>| #[trigger] s2.fixed.contains_key(t) implies s2.fixed[t] != first by {}
}

/// Creates the attachments that passes render to, and keeps them for as long
/// as the output dimensions stay the same.
#[derive(Clone, Debug)]
pub struct ImageAllocator {
    extent: Option<Extent>,
    sized: TagMap<Attachment>,
    fixed: TagMap<Attachment>,
    created: TagMap<u64>,
    next_id: u64,
}

impl View for ImageAllocator {
    type V = AllocatorState;

    closed spec fn view(&self) -> AllocatorState {
        AllocatorState {
            extent: self.extent,
            sized: self.sized@,
            fixed: self.fixed@,
            created: self.created@,
            next_id: self.next_id,
        }
    }
}

impl ImageAllocator {
    /// No tag is held twice, and what is held is in order.
    pub closed spec fn wf(&self) -> bool {
        &&& self.sized.wf()
        &&& self.fixed.wf()
        &&& self.created.wf()
        &&& self@.wf()
    }

    /// What `wf` says of the view.
    pub proof fn lemma_wf(&self)
        requires
            self.wf(),
        ensures
            self@.wf(),
    {
    }

    /// An allocator that holds nothing.
    pub fn new() -> (allocator: Self)
        ensures
            allocator.wf(),
            allocator@ == AllocatorState::empty(),
    {
        ImageAllocator {
            extent: None,
            sized: TagMap::new(),
            fixed: TagMap::new(),
            created: TagMap::new(),
            next_id: 0,
        }
    }

    /// An allocator that holds nothing and gives its first attachment the
    /// identity `first_id`, so that the identities before it stay free for
    /// images that are made elsewhere.
    pub fn starting_at(first_id: u64) -> (allocator: Self)
        ensures
            allocator.wf(),
            allocator@ == AllocatorState::starting_at(first_id),
    {
        ImageAllocator {
            extent: None,
            sized: TagMap::new(),
            fixed: TagMap::new(),
            created: TagMap::new(),
            next_id: first_id,
        }
    }

    /// The dimensions that the sized attachments were made for.
    pub fn extent(&self) -> (extent: Option<Extent>)
        ensures
            extent == self@.extent,
    {
        self.extent
    }

    fn has_extent(&self, extent: Extent) -> (same: bool)
        ensures
            same == (self@.extent == Some(extent)),
    {
        match self.extent {
            Some(e) => e == extent,
            None => false,
        }
    }

    /// The attachment that is cached for `tag` at `extent`, if there is one.
    pub fn lookup(&self, tag: &str, extent: Extent) -> (found: Option<Attachment>)
        requires
            self.wf(),
        ensures
            found == self@.cached(tag@, extent),
    {
        match self.fixed.get(tag) {
            Some(a) => Some(*a),
            None => {
                if self.has_extent(extent) {
                    match self.sized.get(tag) {
                        Some(a) => Some(*a),
                        None => None,
                    }
                } else {
                    None
                }
            },
        }
    }

    /// How often an attachment has been made for `tag`.
    pub fn creation_count(&self, tag: &str) -> (count: u64)
        requires
            self.wf(),
        ensures
            count == self@.count(tag@),
    {
        match self.created.get(tag) {
            Some(n) => *n,
            None => 0,
        }
    }

    /// How many more attachments can be made.
    pub fn remaining(&self) -> (left: u64)
        ensures
            left == u64::MAX - self@.next_id,
    {
        u64::MAX - self.next_id
    }

    /// Makes the output dimensions `extent`. If they changed, every sized
    /// attachment is dropped; the fixed ones stay.
    pub fn resize(&mut self, extent: Extent)
        requires
            old(self).wf(),
        ensures
            final(self).wf(),
            final(self)@ == old(self)@.resized(extent),
    {
        if !self.has_extent(extent) {
            self.sized.clear();
            self.extent = Some(extent);
        }
    }

    /// The attachment for `tag` at the output dimensions `extent`. One that
    /// is cached is handed out again. Otherwise a new one is made with
    /// `format` and `usage`, after every sized attachment was dropped if
    /// `extent` is not what they were made for.
    pub fn get_or_create(&mut self, tag: &str, extent: Extent, format: Format, usage: Usage) -> (r:
        Result<Attachment, AllocError>)
        requires
            old(self).wf(),
        ensures
            final(self).wf(),
            match r {
                Ok(a) => old(self)@.can_serve(tag@, extent) && a == old(self)@.requested(
                    tag@,
                    extent,
                    format,
                    usage,
                ) && final(self)@ == old(self)@.after_request(tag@, extent, format, usage),
                Err(e) => !old(self)@.can_serve(tag@, extent) && e == AllocError::Exhausted
                    && final(self)@ == old(self)@,
            },
    {
        if let Some(a) = self.lookup(tag, extent) {
            return Ok(a);
        }
        if self.next_id == u64::MAX {
            return Err(AllocError::Exhausted);
        }
        let count = self.creation_count(tag);
        let a = Attachment { id: self.next_id, extent, format, usage };
        self.resize(extent);
        self.sized.insert(tag, a);
        self.created.insert(tag, count + 1);
        self.next_id = self.next_id + 1;
        Ok(a)
    }

    /// The attachment of fixed dimensions for `tag`. It is made once, with
    /// `extent`, `format` and `usage`, and then handed out for every request
    /// for `tag`, whatever the output dimensions are.
    pub fn get_or_create_fixed(
        &mut self,
        tag: &str,
        extent: Extent,
        format: Format,
        usage: Usage,
    ) -> (r: Result<Attachment, AllocError>)
        requires
            old(self).wf(),
        ensures
            final(self).wf(),
            match r {
                Ok(a) => if old(self)@.fixed.contains_key(tag@) {
                    a == old(self)@.fixed[tag@] && final(self)@ == old(self)@
                } else {
                    old(self)@.next_id < u64::MAX && a == old(self)@.fresh(extent, format, usage)
                        && final(self)@ == old(self)@.after_create_fixed(
                        tag@,
                        extent,
                        format,
                        usage,
                    )
                },
                Err(e) => !old(self)@.fixed.contains_key(tag@) && old(self)@.next_id == u64::MAX
                    && e == AllocError::Exhausted && final(self)@ == old(self)@,
            },
    {
        if let Some(a) = self.fixed.get(tag) {
            return Ok(*a);
        }
        if self.next_id == u64::MAX {
            return Err(AllocError::Exhausted);
        }
        let count = self.creation_count(tag);
        let a = Attachment { id: self.next_id, extent, format, usage };
        self.fixed.insert(tag, a);
        self.created.insert(tag, count + 1);
        self.next_id = self.next_id + 1;
        Ok(a)
    }
}

} // verus!
