//! Kitty graphics pane resize handling.
//!
//! When a pane is resized, Unicode placeholder characters (U+10EEEE)
//! automatically reflow with the text content since they're just characters
//! in the grid. However, the image placement dimensions (c= columns, r= rows)
//! may no longer match the intended display size.
//!
//! This module provides utilities for handling resize events.

use vstd::prelude::*;

use crate::encoding::{decimal, push_decimal};
use crate::store::{image_ids, lemma_lookup_at, ImageView, KittyImageStore, KittyPlacement};

verus! {

/// Result of a resize operation for a single image.
pub struct ResizeResult {
    pub image_id: u32,
    /// APC sequence to re-transmit image to host terminal after resize.
    pub retransmit_apc: Vec<u8>,
}

/// The command `ESC _ G a=d,d=P,i=<id>,p=<placement> ESC \` that deletes one
/// placement.
pub open spec fn delete_placement_command(image_id: u32, placement_id: u32) -> Seq<u8> {
    seq![0x1bu8, 0x5fu8, 0x47u8, 0x61u8, 0x3du8, 0x64u8, 0x2cu8, 0x64u8, 0x3du8, 0x50u8, 0x2cu8, 0x69u8, 0x3du8]
        + decimal(image_id as nat) + seq![0x2cu8, 0x70u8, 0x3du8] + decimal(placement_id as nat)
        + seq![0x1bu8, 0x5cu8]
}

/// Build a delete-and-replace APC sequence for an image after resize.
/// The host terminal needs to be told to delete the old placement and
/// accept the new one with updated dimensions.
pub fn build_resize_delete_apc(image_id: u32, placement_id: u32) -> (r: Vec<u8>)
    ensures
        r@ == delete_placement_command(image_id, placement_id),
{
    let mut out: Vec<u8> = vec![0x1B, 0x5F, 0x47, 0x61, 0x3D, 0x64, 0x2C, 0x64, 0x3D, 0x50, 0x2C, 0x69, 0x3D];
    push_decimal(&mut out, image_id as u64);
    out.push(0x2C);
    out.push(0x70);
    out.push(0x3D);
    push_decimal(&mut out, placement_id as u64);
    out.push(0x1B);
    out.push(0x5C);
    assert(out@ =~= delete_placement_command(image_id, placement_id));
    out
}

/// The image is shown somewhere.
pub open spec fn is_placed(img: ImageView) -> bool {
    !img.placements.is_empty()
}

/// Check if any image placements need updating after a resize.
/// Returns list of image IDs that have placements (may need re-rendering).
pub fn images_needing_resize_update(store: &KittyImageStore) -> (r: Vec<u32>)
    requires
        store.wf(),
    ensures
        r@ == image_ids(store@.images.filter(|img: ImageView| is_placed(img))),
{
    let ids = store.all_image_ids();
    let ghost images = store@.images;
    let mut out: Vec<u32> = Vec::new();
    let mut k: usize = 0;
    proof {
        store.lemma_wf_valid();
        reveal(Seq::filter);
        assert(images.take(0) =~= Seq::<ImageView>::empty());
        assert(image_ids(images.take(0).filter(|img: ImageView| is_placed(img))) =~= Seq::<u32>::empty());
    }
    while k < ids.len()
        invariant
            k <= ids@.len(),
            store.wf(),
            images == store@.images,
            ids@ == image_ids(images),
            crate::store::distinct_ids(images),
            out@ == image_ids(images.take(k as int).filter(|img: ImageView| is_placed(img))),
        decreases ids.len() - k,
    {
        let id = ids[k];
        proof {
            lemma_lookup_at(images, k as int);
        }
        let placed = match store.get(id) {
            Some(img) => !img.placements.is_empty(),
            None => false,
        };
        proof {
            reveal(Seq::filter);
            assert(images.take(k + 1).drop_last() =~= images.take(k as int));
        }
        if placed {
            out.push(id);
        }
        k = k + 1;
        assert(out@ =~= image_ids(images.take(k as int).filter(|img: ImageView| is_placed(img))));
    }
    assert(images.take(k as int) =~= images);
    out
}

/// Determine if a placement's dimensions are still valid after resize.
/// A placement is invalid if its column/row count exceeds the new pane size.
pub fn placement_fits_pane(placement: &KittyPlacement, pane_cols: u32, pane_rows: u32) -> (r: bool)
    ensures
        r == ((placement.columns matches Some(c) ==> c <= pane_cols) && (placement.rows matches Some(
            rw,
        ) ==> rw <= pane_rows)),
{
    let cols_ok = match placement.columns {
        Some(c) => c <= pane_cols,
        None => true,
    };
    let rows_ok = match placement.rows {
        Some(r) => r <= pane_rows,
        None => true,
    };
    cols_ok && rows_ok
}

} // verus!
