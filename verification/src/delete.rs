//! Kitty graphics protocol delete action (a=d) handler.
//!
//! Implements all 6 delete sub-actions, removing images and/or placements
//! from KittyImageStore and returning metadata about what was removed so
//! callers can clean up placeholder characters from the grid.

use vstd::prelude::*;

use crate::command::{CommandView, DeleteTarget, KittyCommand};
use crate::query::{query_reply, text_reply};
use crate::store::{
    contains_id, image_ids, lemma_lookup_at, lemma_position_unique, lemma_remove_then_get,
    lemma_z_pruned_lookup, z_matching, z_stripped, z_emptied, lemma_replace_keeps_lookup,
    lemma_replace_keeps_others, lookup, position_of, replace_image, without, z_emptied_ids, z_pairs,
    z_pruned, ImageView, KittyImageStore, StoreView,
};

verus! {

/// Result of a delete operation, describing what was removed from the store.
/// Callers can use this information to clean up placeholder characters from the grid.
#[derive(Debug, PartialEq)]
pub struct DeleteResult {
    /// Image IDs that were fully removed from the store
    pub removed_image_ids: Vec<u32>,
    /// (image_id, placement_id) pairs that were removed
    pub removed_placement_ids: Vec<(u32, u32)>,
}

impl Default for DeleteResult {
    fn default() -> (r: Self)
        ensures
            r.removed_image_ids@ == Seq::<u32>::empty(),
            r.removed_placement_ids@ == Seq::<(u32, u32)>::empty(),
    {
        DeleteResult { removed_image_ids: Vec::new(), removed_placement_ids: Vec::new() }
    }
}

/// What a delete removes: the store afterwards, the removed image ids in
/// store order, and the removed (image id, placement id) pairs.
pub struct Deletion {
    pub store: StoreView,
    pub image_ids: Seq<u32>,
    pub pairs: Set<(u32, u32)>,
}

/// Everything goes.
pub open spec fn deletion_all(s: StoreView) -> Deletion {
    Deletion { store: s.with_images(Seq::empty()), image_ids: image_ids(s.images), pairs: Set::empty() }
}

/// The image with this id goes, if the store holds it.
pub open spec fn deletion_of_image(s: StoreView, id: u32) -> Deletion {
    Deletion {
        store: s.with_images(without(s.images, id)),
        image_ids: if contains_id(s.images, id) {
            seq![id]
        } else {
            Seq::empty()
        },
        pairs: Set::empty(),
    }
}

/// Nothing goes.
pub open spec fn deletion_none(s: StoreView) -> Deletion {
    Deletion { store: s, image_ids: Seq::empty(), pairs: Set::empty() }
}

/// One placement goes, and its image with it when it was the last one.
pub open spec fn deletion_of_placement(s: StoreView, id: u32, pid: u32) -> Deletion {
    if contains_id(s.images, id) && lookup(s.images, id)->Some_0.placements.contains_key(pid) {
        let image = lookup(s.images, id)->Some_0;
        let rest = image.placements.remove(pid);
        if rest.is_empty() {
            Deletion {
                store: s.with_images(without(s.images, id)),
                image_ids: seq![id],
                pairs: set![(id, pid)],
            }
        } else {
            Deletion {
                store: s.with_images(
                    replace_image(s.images, id, ImageView { placements: rest, ..image }),
                ),
                image_ids: Seq::empty(),
                pairs: set![(id, pid)],
            }
        }
    } else {
        deletion_none(s)
    }
}

/// Every placement at depth `z` goes, and the images left without any.
pub open spec fn deletion_at_depth(s: StoreView, z: i32) -> Deletion {
    Deletion {
        store: s.with_images(z_pruned(s.images, z)),
        image_ids: z_emptied_ids(s.images, z),
        pairs: z_pairs(s.images, z),
    }
}

/// What a delete command removes. Without grid positions, the cursor and
/// range targets fall back to the named image, else everything.
pub open spec fn deletion(s: StoreView, cmd: CommandView) -> Deletion {
    match cmd.delete_target {
        None | Some(DeleteTarget::All) => deletion_all(s),
        Some(DeleteTarget::ById) => match cmd.image_id {
            Some(id) => deletion_of_image(s, id),
            None => deletion_none(s),
        },
        Some(DeleteTarget::ByPlacement) => match (cmd.image_id, cmd.placement_id) {
            (Some(id), Some(pid)) => deletion_of_placement(s, id, pid),
            _ => deletion_none(s),
        },
        Some(DeleteTarget::AtCursor) | Some(DeleteTarget::InRange) => match cmd.image_id {
            Some(id) => deletion_of_image(s, id),
            None => deletion_all(s),
        },
        Some(DeleteTarget::ByZIndex) => deletion_at_depth(
            s,
            match cmd.z_index {
                Some(z) => z,
                None => 0,
            },
        ),
    }
}

/// The delete result and store agree with a deletion: the same store, the
/// same image ids in order, and each removed pair listed once.
pub open spec fn matches(d: Deletion, store: StoreView, r: &DeleteResult) -> bool {
    &&& store == d.store
    &&& r.removed_image_ids@ == d.image_ids
    &&& r.removed_placement_ids@.no_duplicates()
    &&& r.removed_placement_ids@.to_set() == d.pairs
}

/// Handle a kitty graphics delete action (a=d).
///
/// Dispatches on `cmd.delete_target` to remove images and/or placements
/// from the store. Returns a `DeleteResult` describing what was removed,
/// so callers can clean up placeholder characters from the grid.
pub fn handle_delete(
    cmd: &KittyCommand,
    store: &mut KittyImageStore,
    _cursor_row: u32,
    _cursor_col: u32,
) -> (r: DeleteResult)
    requires
        old(store).wf(),
    ensures
        final(store).wf(),
        matches(deletion(old(store)@, cmd@), final(store)@, &r),
{
    match &cmd.delete_target {
        None | Some(DeleteTarget::All) => delete_all(store),
        Some(DeleteTarget::ById) => delete_by_id(cmd, store),
        Some(DeleteTarget::ByPlacement) => delete_by_placement(cmd, store),
        Some(DeleteTarget::AtCursor) => delete_at_cursor(cmd, store),
        Some(DeleteTarget::InRange) => delete_in_range(cmd, store),
        Some(DeleteTarget::ByZIndex) => delete_by_z_index(cmd, store),
    }
}

/// d=A (or no target): Remove ALL images from the store.
fn delete_all(store: &mut KittyImageStore) -> (r: DeleteResult)
    requires
        old(store).wf(),
    ensures
        final(store).wf(),
        matches(deletion_all(old(store)@), final(store)@, &r),
{
    let removed_image_ids = store.all_image_ids();
    store.remove_all();
    let r = DeleteResult { removed_image_ids, removed_placement_ids: Vec::new() };
    assert(r.removed_placement_ids@.to_set() =~= Set::<(u32, u32)>::empty());
    r
}

/// Remove the image with this id, reporting it when it was there.
fn delete_image(id: u32, store: &mut KittyImageStore) -> (r: DeleteResult)
    requires
        old(store).wf(),
    ensures
        final(store).wf(),
        matches(deletion_of_image(old(store)@, id), final(store)@, &r),
{
    let r = if store.remove(id) {
        let r = DeleteResult { removed_image_ids: vec![id], removed_placement_ids: Vec::new() };
        assert(r.removed_image_ids@ =~= seq![id]);
        r
    } else {
        DeleteResult::default()
    };
    assert(r.removed_placement_ids@.to_set() =~= Set::<(u32, u32)>::empty());
    r
}

/// d=I: Remove a specific image by its ID.
fn delete_by_id(cmd: &KittyCommand, store: &mut KittyImageStore) -> (r: DeleteResult)
    requires
        old(store).wf(),
        cmd.delete_target == Some(DeleteTarget::ById),
    ensures
        final(store).wf(),
        matches(deletion(old(store)@, cmd@), final(store)@, &r),
{
    let id = match cmd.image_id {
        Some(id) => id,
        None => {
            let r = DeleteResult::default();
            assert(r.removed_placement_ids@.to_set() =~= Set::<(u32, u32)>::empty());
            return r;
        },
    };
    delete_image(id, store)
}

/// d=P: Remove a specific placement. If no placements remain, remove the image too.
fn delete_by_placement(cmd: &KittyCommand, store: &mut KittyImageStore) -> (r: DeleteResult)
    requires
        old(store).wf(),
        cmd.delete_target == Some(DeleteTarget::ByPlacement),
    ensures
        final(store).wf(),
        matches(deletion(old(store)@, cmd@), final(store)@, &r),
{
    let mut result = DeleteResult::default();
    assert(result.removed_placement_ids@.to_set() =~= Set::<(u32, u32)>::empty());
    let image_id = match cmd.image_id {
        Some(id) => id,
        None => {
            return result;
        },
    };
    let placement_id = match cmd.placement_id {
        Some(id) => id,
        None => {
            return result;
        },
    };
    let ghost s0 = store@;
    proof {
        store.lemma_wf_valid();
    }
    if store.remove_placement(image_id, placement_id) {
        result.removed_placement_ids.push((image_id, placement_id));
        proof {
            assert(result.removed_placement_ids@ =~= seq![(image_id, placement_id)]);
            assert(result.removed_placement_ids@.to_set() =~= set![(image_id, placement_id)]) by {
                assert(result.removed_placement_ids@[0] == (image_id, placement_id));
            }
            crate::store::lemma_replace_keeps_lookup(
                s0.images,
                image_id,
                ImageView {
                    placements: lookup(s0.images, image_id)->Some_0.placements.remove(placement_id),
                    ..lookup(s0.images, image_id)->Some_0
                },
            );
        }
        let should_remove_image = match store.get(image_id) {
            Some(img) => img.placements.is_empty(),
            None => false,
        };
        if should_remove_image {
            let ghost s1 = store@;
            store.remove(image_id);
            proof {
                crate::store::lemma_without_replaced(
                    s0.images,
                    image_id,
                    ImageView {
                        placements: lookup(s0.images, image_id)->Some_0.placements.remove(
                            placement_id,
                        ),
                        ..lookup(s0.images, image_id)->Some_0
                    },
                );
            }
            result.removed_image_ids.push(image_id);
            assert(result.removed_image_ids@ =~= seq![image_id]);
        }
    }
    result
}

/// d=C: Remove placements at cursor position.
/// Conservative fallback: without grid position tracking,
/// we can't determine which placements intersect the cursor.
/// If image_id is provided, delete that specific image; otherwise remove all.
fn delete_at_cursor(cmd: &KittyCommand, store: &mut KittyImageStore) -> (r: DeleteResult)
    requires
        old(store).wf(),
        cmd.delete_target == Some(DeleteTarget::AtCursor),
    ensures
        final(store).wf(),
        matches(deletion(old(store)@, cmd@), final(store)@, &r),
{
    match cmd.image_id {
        Some(id) => delete_image(id, store),
        None => delete_all(store),
    }
}

/// d=R: Remove placements in a cell range.
/// Conservative fallback: same approach as AtCursor — without grid tracking
/// we can't determine range intersections.
fn delete_in_range(cmd: &KittyCommand, store: &mut KittyImageStore) -> (r: DeleteResult)
    requires
        old(store).wf(),
        cmd.delete_target == Some(DeleteTarget::InRange),
    ensures
        final(store).wf(),
        matches(deletion(old(store)@, cmd@), final(store)@, &r),
{
    match cmd.image_id {
        Some(id) => delete_image(id, store),
        None => delete_all(store),
    }
}

/// d=Z: Remove placements matching a specific z-index.
/// If an image has no remaining placements after removal, the image is also removed.
fn delete_by_z_index(cmd: &KittyCommand, store: &mut KittyImageStore) -> (r: DeleteResult)
    requires
        old(store).wf(),
        cmd.delete_target == Some(DeleteTarget::ByZIndex),
    ensures
        final(store).wf(),
        matches(deletion(old(store)@, cmd@), final(store)@, &r),
{
    let target_z = match cmd.z_index {
        Some(z) => z,
        None => 0,
    };
    let (removed_image_ids, removed_placement_ids) = store.remove_placements_at_depth(target_z);
    DeleteResult { removed_image_ids, removed_placement_ids }
}

/// Once an image is deleted by id, a query for that id is answered
/// `ENOENT` (unless `q=2` silences it).
pub proof fn lemma_delete_then_query(s: StoreView, cmd: CommandView, query: CommandView)
    requires
        s.valid(),
        cmd.delete_target == Some(DeleteTarget::ById),
        cmd.image_id is Some,
        query.image_id == cmd.image_id,
        query.quiet != 2,
    ensures
        query_reply(query, deletion(s, cmd).store) == text_reply(
            cmd.image_id->Some_0,
            "ENOENT:image not found"@,
        ),
{
    lemma_remove_then_get(s, cmd.image_id->Some_0);
}

/// What each delete target removes, whatever the store holds; the id
/// counter and the memory limit are kept in every case.
/// - `d=A`, or no target: every image goes, and every id is reported in
///   store order.
/// - `d=I`: the named image goes, reported when it was there, and nothing
///   else changes; without an id nothing goes.
/// - `d=C` and `d=R`: with an id, as `d=I`; without one, as `d=A`.
/// - `d=P` with an image and a placement id: when the image holds that
///   placement, just that pair goes, and the image with it when it was its
///   last; otherwise, or without both ids, nothing goes.
pub proof fn lemma_delete_targets(s: StoreView, cmd: CommandView)
    requires
        s.valid(),
    ensures
        ({
            let d = deletion(s, cmd);
            let t = cmd.delete_target;
            let grid = t == Some(DeleteTarget::AtCursor) || t == Some(DeleteTarget::InRange);
            let everything = t is None || t == Some(DeleteTarget::All) || (grid && cmd.image_id is None);
            let one = (t == Some(DeleteTarget::ById) || grid) && cmd.image_id is Some;
            let id = cmd.image_id->Some_0;
            &&& d.store.next_auto_id == s.next_auto_id
            &&& d.store.max_memory == s.max_memory
            &&& everything ==> d.store.images.len() == 0 && d.pairs.is_empty()
                && d.image_ids.len() == s.images.len()
                && forall|i: int| 0 <= i < s.images.len() ==> #[trigger] d.image_ids[i] == s.images[i].id
            &&& one ==> !contains_id(d.store.images, id) && d.pairs.is_empty()
                && d.image_ids == (if contains_id(s.images, id) { seq![id] } else { Seq::<u32>::empty() })
                && forall|other: u32| other != id ==> #[trigger] lookup(d.store.images, other) == lookup(s.images, other)
            &&& (t == Some(DeleteTarget::ById) && cmd.image_id is None) ==> d.store == s
                && d.image_ids.len() == 0 && d.pairs.is_empty()
        }),
        ({
            let d = deletion(s, cmd);
            let id = cmd.image_id->Some_0;
            let pid = cmd.placement_id->Some_0;
            let held = cmd.image_id is Some && cmd.placement_id is Some && contains_id(s.images, id)
                && lookup(s.images, id)->Some_0.placements.contains_key(pid);
            let image = lookup(s.images, id)->Some_0;
            cmd.delete_target == Some(DeleteTarget::ByPlacement) ==> {
                &&& !held ==> d.store == s && d.image_ids.len() == 0 && d.pairs.is_empty()
                &&& held ==> d.pairs == set![(id, pid)]
                &&& held && image.placements.dom() == set![pid] ==> !contains_id(d.store.images, id)
                    && d.image_ids == seq![id]
                &&& held && image.placements.dom() != set![pid] ==> lookup(d.store.images, id) == Some(
                    ImageView { placements: image.placements.remove(pid), ..image },
                ) && d.image_ids.len() == 0
                &&& held ==> forall|other: u32| other != id ==> #[trigger] lookup(d.store.images, other)
                    == lookup(s.images, other)
            }
        }),
{
    if let Some(id) = cmd.image_id {
        lemma_remove_then_get(s, id);
        if cmd.delete_target == Some(DeleteTarget::ByPlacement) && cmd.placement_id is Some
            && contains_id(s.images, id) {
            let pid = cmd.placement_id->Some_0;
            let image = lookup(s.images, id)->Some_0;
            if image.placements.contains_key(pid) {
                let rest = image.placements.remove(pid);
                let p = position_of(s.images, id);
                lemma_lookup_at(s.images, p);
                assert(image.id == id);
                assert(rest.dom() =~= image.placements.dom().remove(pid));
                if rest.is_empty() {
                    assert(image.placements.dom() =~= set![pid]);
                } else {
                    if image.placements.dom() == set![pid] {
                        assert(rest.dom() =~= Set::<u32>::empty());
                    }
                    let changed = ImageView { placements: rest, ..image };
                    lemma_replace_keeps_lookup(s.images, id, changed);
                    lemma_replace_keeps_others(s.images, id, changed);
                }
            }
        }
    }
}

/// Deleting by depth (`d=Z`, depth 0 when no `z=` is given) takes away
/// exactly the placements at that depth. A pair is reported if and only if
/// the store held that placement of that image at that depth. An image
/// that had placements only at that depth (and at least one) is removed
/// and reported; any other image stays, keeps every placement at another
/// depth with its settings and all else about it, and is not reported.
pub proof fn lemma_delete_at_depth(s: StoreView, cmd: CommandView, id: u32)
    requires
        s.valid(),
        cmd.delete_target == Some(DeleteTarget::ByZIndex),
    ensures
        ({
            let z = match cmd.z_index {
                Some(z) => z,
                None => 0i32,
            };
            let d = deletion(s, cmd);
            let img = lookup(s.images, id)->Some_0;
            let after = lookup(d.store.images, id)->Some_0;
            let some_at_z = exists|pid: u32|
                #[trigger] img.placements.contains_key(pid) && img.placements[pid].z_index == z;
            let all_at_z = forall|pid: u32|
                #[trigger] img.placements.contains_key(pid) ==> img.placements[pid].z_index == z;
            &&& d.store.next_auto_id == s.next_auto_id
            &&& d.store.max_memory == s.max_memory
            &&& forall|pid: u32|
                #[trigger] d.pairs.contains((id, pid)) <==> (contains_id(s.images, id)
                    && img.placements.contains_key(pid) && img.placements[pid].z_index == z)
            &&& !contains_id(s.images, id) ==> !contains_id(d.store.images, id) && !d.image_ids.contains(id)
            &&& contains_id(s.images, id) && some_at_z && all_at_z ==> !contains_id(d.store.images, id)
                && d.image_ids.contains(id)
            &&& contains_id(s.images, id) && !(some_at_z && all_at_z) ==> {
                &&& contains_id(d.store.images, id)
                &&& !d.image_ids.contains(id)
                &&& after == ImageView { placements: after.placements, ..img }
                &&& forall|pid: u32|
                    #[trigger] after.placements.contains_key(pid) <==> (img.placements.contains_key(pid)
                        && img.placements[pid].z_index != z)
                &&& forall|pid: u32|
                    #[trigger] after.placements.contains_key(pid) ==> after.placements[pid]
                        == img.placements[pid]
            }
        }),
{
    let z = match cmd.z_index {
        Some(z) => z,
        None => 0i32,
    };
    lemma_z_pruned_lookup(s.images, z, id);
    let img = lookup(s.images, id)->Some_0;
    if contains_id(s.images, id) {
        let p = position_of(s.images, id);
        lemma_lookup_at(s.images, p);
        let m = z_matching(img, z);
        let st = z_stripped(img, z);
        assert forall|pid: u32| #[trigger] st.placements.contains_key(pid) <==> (img.placements.contains_key(pid)
            && img.placements[pid].z_index != z) by {}
        let some_at_z = exists|pid: u32|
            #[trigger] img.placements.contains_key(pid) && img.placements[pid].z_index == z;
        let all_at_z = forall|pid: u32|
            #[trigger] img.placements.contains_key(pid) ==> img.placements[pid].z_index == z;
        if some_at_z {
            let w = choose|pid: u32| #[trigger] img.placements.contains_key(pid) && img.placements[pid].z_index == z;
            assert(m.contains(w));
        }
        if z_emptied(img, z) {
            assert(!m.is_empty());
            let w = m.choose();
            assert(m.contains(w));
            assert forall|pid: u32| #[trigger] img.placements.contains_key(pid) implies img.placements[pid].z_index == z by {
                if img.placements[pid].z_index != z {
                    assert(st.placements.dom().contains(pid));
                }
            }
        }
        if some_at_z && all_at_z {
            assert(st.placements.dom() =~= Set::<u32>::empty());
        }
        assert forall|pid: u32| #[trigger] deletion(s, cmd).pairs.contains((id, pid)) <==> (
            img.placements.contains_key(pid) && img.placements[pid].z_index == z) by {
            let pairs = z_pairs(s.images, z);
            if pairs.contains((id, pid)) {
                let j = choose|j: int|
                    0 <= j < s.images.len() && #[trigger] s.images[j].id == id && z_matching(s.images[j], z).contains(pid);
                lemma_position_unique(s.images, j);
            }
            if img.placements.contains_key(pid) && img.placements[pid].z_index == z {
                assert(s.images[p].id == id && z_matching(s.images[p], z).contains(pid));
            }
        }
    } else {
        assert forall|pid: u32| !#[trigger] deletion(s, cmd).pairs.contains((id, pid)) by {
            if z_pairs(s.images, z).contains((id, pid)) {
                let j = choose|j: int|
                    0 <= j < s.images.len() && #[trigger] s.images[j].id == id && z_matching(s.images[j], z).contains(pid);
                assert(contains_id(s.images, id));
            }
        }
    }
}

} // verus!
