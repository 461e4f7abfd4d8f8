//! Pane lifecycle: what happens to a pane's images when it closes or hides.

use vstd::prelude::*;

use crate::store::{image_ids, KittyImageStore};

verus! {

/// Clean up all Kitty graphics resources for a pane.
/// Called when a pane is closed.
/// Returns the image IDs that were removed (for logging/debugging).
pub fn cleanup_on_close(store: &mut KittyImageStore) -> (r: Vec<u32>)
    requires
        old(store).wf(),
    ensures
        final(store).wf(),
        r@ == image_ids(old(store)@.images),
        final(store)@ == old(store)@.with_images(Seq::empty()),
{
    let ids = store.all_image_ids();
    store.remove_all();
    ids
}

/// The command `ESC _ G a=d,d=A ESC \` that deletes every image.
pub open spec fn delete_all_command() -> Seq<u8> {
    seq![0x1bu8, 0x5fu8, 0x47u8, 0x61u8, 0x3du8, 0x64u8, 0x2cu8, 0x64u8, 0x3du8, 0x41u8, 0x1bu8, 0x5cu8]
}

/// Build delete-all passthrough APC to send to host terminal.
/// When a pane closes, we need to tell the host terminal to remove
/// all images that belonged to this pane.
pub fn build_delete_all_passthrough() -> (r: Vec<u8>)
    ensures
        r@ == delete_all_command(),
{
    let r: Vec<u8> = vec![0x1B, 0x5F, 0x47, 0x61, 0x3D, 0x64, 0x2C, 0x64, 0x3D, 0x41, 0x1B, 0x5C];
    assert(r@ =~= delete_all_command());
    r
}

/// Check if a pane's images should be rendered.
/// Returns false if the pane is hidden (images should be suppressed).
pub fn should_render_images(is_visible: bool) -> (r: bool)
    ensures
        r == is_visible,
{
    is_visible
}

} // verus!
