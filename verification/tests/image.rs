use render_graph::image::{AllocError, Attachment, Extent, Format, ImageAllocator, Usage};

fn color() -> Usage {
    Usage { sampled: true, color_attachment: true, depth_attachment: false }
}

fn depth() -> Usage {
    Usage { sampled: true, color_attachment: false, depth_attachment: true }
}

const SMALL: Extent = Extent { width: 800, height: 600 };
const LARGE: Extent = Extent { width: 1920, height: 1080 };

#[test]
fn new_allocator_holds_nothing() {
    let images = ImageAllocator::new();
    assert_eq!(images.extent(), None);
    assert_eq!(images.lookup("color", SMALL), None);
    assert_eq!(images.creation_count("color"), 0);
    assert_eq!(images.remaining(), u64::MAX);
}

#[test]
fn first_request_makes_the_attachment_as_asked() {
    let mut images = ImageAllocator::new();
    let made = images.get_or_create("color", SMALL, Format::R8G8B8A8Unorm, color());
    assert_eq!(
        made,
        Ok(Attachment { id: 0, extent: SMALL, format: Format::R8G8B8A8Unorm, usage: color() })
    );
    assert_eq!(images.extent(), Some(SMALL));
    assert_eq!(images.creation_count("color"), 1);
    assert_eq!(images.remaining(), u64::MAX - 1);
}

#[test]
fn same_tag_at_same_dimensions_is_the_identical_attachment() {
    let mut images = ImageAllocator::new();
    let first = images.get_or_create("color", SMALL, Format::R8G8B8A8Unorm, color()).unwrap();
    let second = images.get_or_create("color", SMALL, Format::R8G8B8A8Unorm, color()).unwrap();
    assert_eq!(first, second);
    assert_eq!(images.creation_count("color"), 1);
}

#[test]
fn cached_attachment_keeps_the_format_it_was_made_with() {
    let mut images = ImageAllocator::new();
    let first = images.get_or_create("color", SMALL, Format::R8G8B8A8Unorm, color()).unwrap();
    let second = images.get_or_create("color", SMALL, Format::D16Unorm, depth()).unwrap();
    assert_eq!(second, first);
    assert_eq!(second.format, Format::R8G8B8A8Unorm);
}

#[test]
fn different_tags_get_different_attachments() {
    let mut images = ImageAllocator::new();
    let color_image = images.get_or_create("color", SMALL, Format::R8G8B8A8Unorm, color()).unwrap();
    let depth_image = images.get_or_create("depth", SMALL, Format::D16Unorm, depth()).unwrap();
    assert_eq!(color_image.id, 0);
    assert_eq!(depth_image.id, 1);
    assert_eq!(images.lookup("color", SMALL), Some(color_image));
    assert_eq!(images.lookup("depth", SMALL), Some(depth_image));
}

#[test]
fn dimension_change_makes_a_new_attachment_and_evicts_the_old() {
    let mut images = ImageAllocator::new();
    let old = images.get_or_create("color", SMALL, Format::R8G8B8A8Unorm, color()).unwrap();
    let new = images.get_or_create("color", LARGE, Format::R8G8B8A8Unorm, color()).unwrap();
    assert_ne!(old.id, new.id);
    assert_eq!(new.extent, LARGE);
    assert_eq!(images.lookup("color", SMALL), None);
    assert_eq!(images.lookup("color", LARGE), Some(new));
    assert_eq!(images.creation_count("color"), 2);
}

#[test]
fn dimension_change_invalidates_every_sized_attachment() {
    let mut images = ImageAllocator::new();
    images.get_or_create("color", SMALL, Format::R8G8B8A8Unorm, color()).unwrap();
    images.get_or_create("depth", SMALL, Format::D16Unorm, depth()).unwrap();
    images.get_or_create("color", LARGE, Format::R8G8B8A8Unorm, color()).unwrap();
    assert_eq!(images.lookup("depth", SMALL), None);
    assert_eq!(images.lookup("depth", LARGE), None);
    assert_eq!(images.extent(), Some(LARGE));
}

#[test]
fn going_back_to_old_dimensions_does_not_revive_old_attachments() {
    let mut images = ImageAllocator::new();
    let first = images.get_or_create("color", SMALL, Format::R8G8B8A8Unorm, color()).unwrap();
    images.get_or_create("color", LARGE, Format::R8G8B8A8Unorm, color()).unwrap();
    let third = images.get_or_create("color", SMALL, Format::R8G8B8A8Unorm, color()).unwrap();
    assert_eq!(third.id, 2);
    assert_ne!(third, first);
    assert_eq!(images.creation_count("color"), 3);
}

#[test]
fn resize_to_same_dimensions_keeps_everything() {
    let mut images = ImageAllocator::new();
    let made = images.get_or_create("color", SMALL, Format::R8G8B8A8Unorm, color()).unwrap();
    images.resize(SMALL);
    assert_eq!(images.lookup("color", SMALL), Some(made));
}

#[test]
fn resize_to_other_dimensions_drops_sized_attachments() {
    let mut images = ImageAllocator::new();
    images.get_or_create("color", SMALL, Format::R8G8B8A8Unorm, color()).unwrap();
    images.resize(LARGE);
    assert_eq!(images.extent(), Some(LARGE));
    assert_eq!(images.lookup("color", SMALL), None);
    assert_eq!(images.lookup("color", LARGE), None);
    assert_eq!(images.creation_count("color"), 1);
}

#[test]
fn fixed_attachment_is_made_once_and_never_resized() {
    let atlas = Extent { width: 6144, height: 1024 };
    let mut images = ImageAllocator::new();
    let made = images.get_or_create_fixed("shadow_map", atlas, Format::D32Sfloat, depth()).unwrap();
    assert_eq!(made, Attachment { id: 0, extent: atlas, format: Format::D32Sfloat, usage: depth() });
    let again = images.get_or_create_fixed("shadow_map", SMALL, Format::D16Unorm, depth()).unwrap();
    assert_eq!(again, made);
    assert_eq!(images.get_or_create("shadow_map", SMALL, Format::D16Unorm, depth()), Ok(made));
    images.resize(LARGE);
    assert_eq!(images.get_or_create("shadow_map", LARGE, Format::D16Unorm, depth()), Ok(made));
    assert_eq!(images.lookup("shadow_map", LARGE), Some(made));
    assert_eq!(images.creation_count("shadow_map"), 1);
}

#[test]
fn request_for_fixed_tag_leaves_sized_attachments_alone() {
    let atlas = Extent { width: 3072, height: 2048 };
    let mut images = ImageAllocator::new();
    let color_image = images.get_or_create("color", SMALL, Format::R8G8B8A8Unorm, color()).unwrap();
    images.get_or_create_fixed("patched_shadow", atlas, Format::D32Sfloat, depth()).unwrap();
    images.get_or_create("patched_shadow", LARGE, Format::D32Sfloat, depth()).unwrap();
    assert_eq!(images.extent(), Some(SMALL));
    assert_eq!(images.lookup("color", SMALL), Some(color_image));
}

#[test]
fn allocator_can_start_at_a_later_identity() {
    let mut images = ImageAllocator::starting_at(1000);
    assert_eq!(images.remaining(), u64::MAX - 1000);
    let made = images.get_or_create("color", SMALL, Format::R8G8B8A8Unorm, color()).unwrap();
    assert_eq!(made.id, 1000);
}

#[test]
fn request_fails_when_every_identity_is_used() {
    let mut images = ImageAllocator::starting_at(u64::MAX - 1);
    let last = images.get_or_create("color", SMALL, Format::R8G8B8A8Unorm, color()).unwrap();
    assert_eq!(last.id, u64::MAX - 1);
    assert_eq!(images.remaining(), 0);
    assert_eq!(
        images.get_or_create("depth", SMALL, Format::D16Unorm, depth()),
        Err(AllocError::Exhausted)
    );
    assert_eq!(
        images.get_or_create("color", LARGE, Format::R8G8B8A8Unorm, color()),
        Err(AllocError::Exhausted)
    );
    assert_eq!(
        images.get_or_create_fixed("atlas", LARGE, Format::D32Sfloat, depth()),
        Err(AllocError::Exhausted)
    );
    assert_eq!(images.get_or_create("color", SMALL, Format::R8G8B8A8Unorm, color()), Ok(last));
    assert_eq!(images.extent(), Some(SMALL));
    assert_eq!(images.lookup("depth", SMALL), None);
}
