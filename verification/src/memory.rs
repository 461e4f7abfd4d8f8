//! Memory limits: least-recently-used eviction and the host deletes it sends.

use vstd::prelude::*;

use crate::encoding::{decimal, push_decimal};
use crate::store::KittyImageStore;

verus! {

/// Enforce memory limits by evicting LRU images.
/// Returns the IDs of evicted images (for passthrough delete commands).
pub fn enforce_memory_limit(store: &mut KittyImageStore) -> (r: Vec<u32>)
    requires
        old(store).wf(),
    ensures
        final(store).wf(),
        final(store)@ == old(store)@.evicted(),
        r@ == old(store)@.eviction_ids(),
{
    store.evict_lru_if_needed()
}

/// The command `ESC _ G a=d,d=I,i=<id> ESC \` that deletes one image.
pub open spec fn delete_image_command(image_id: u32) -> Seq<u8> {
    seq![0x1bu8, 0x5fu8, 0x47u8, 0x61u8, 0x3du8, 0x64u8, 0x2cu8, 0x64u8, 0x3du8, 0x49u8, 0x2cu8, 0x69u8, 0x3du8]
        + decimal(image_id as nat) + seq![0x1bu8, 0x5cu8]
}

/// Build delete passthrough APC for an evicted image.
/// Tells the host terminal to remove the image.
/// Format: \x1b_Ga=d,d=I,i=<id>\x1b\\
pub fn build_eviction_delete_apc(image_id: u32) -> (r: Vec<u8>)
    ensures
        r@ == delete_image_command(image_id),
{
    let mut out: Vec<u8> = vec![0x1B, 0x5F, 0x47, 0x61, 0x3D, 0x64, 0x2C, 0x64, 0x3D, 0x49, 0x2C, 0x69, 0x3D];
    push_decimal(&mut out, image_id as u64);
    out.push(0x1B);
    out.push(0x5C);
    assert(out@ =~= delete_image_command(image_id));
    out
}

} // verus!
