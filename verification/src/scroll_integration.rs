//! Scroll integration for Kitty graphics protocol.
//!
//! Handles cleanup of unreferenced images when lines are evicted from
//! the scrollback buffer. The U+10EEEE placeholder characters scroll
//! naturally with text — this module provides the mechanism to detect
//! when evicted lines contained image references and clean up images
//! that are no longer referenced by any placement.

use vstd::prelude::*;

use crate::placeholder::{color_id, fg_color_to_image_id, KITTY_PLACEHOLDER_CHAR};
use crate::store::{
    distinct_ids, image_ids, lemma_lookup_at, lemma_without_front, ImageView,
    KittyImageStore,
};

verus! {

/// Whether `x` occurs in `v`.
fn contains_id_in(v: &[u32], x: u32) -> (r: bool)
    ensures
        r == v@.contains(x),
{
    let mut i: usize = 0;
    while i < v.len()
        invariant
            i <= v@.len(),
            forall|j: int| 0 <= j < i ==> v@[j] != x,
        decreases v.len() - i,
    {
        if v[i] == x {
            return true;
        }
        i = i + 1;
    }
    false
}

/// The image is listed in `ids` and shown nowhere.
pub open spec fn is_released(img: ImageView, ids: Seq<u32>) -> bool {
    ids.contains(img.id) && img.placements.is_empty()
}

/// Called when lines are evicted from the scrollback buffer.
/// For each evicted image ID, checks if the image has no remaining placements
/// and removes it from the store if so.
///
/// Returns the list of image IDs that were fully removed from the store,
/// each once, in store order.
pub fn cleanup_evicted_images(store: &mut KittyImageStore, evicted_image_ids: &[u32]) -> (r: Vec<
    u32,
>)
    requires
        old(store).wf(),
    ensures
        final(store).wf(),
        final(store)@ == old(store)@.with_images(
            old(store)@.images.filter(|img: ImageView| !is_released(img, evicted_image_ids@)),
        ),
        r@ == image_ids(old(store)@.images.filter(|img: ImageView| is_released(img, evicted_image_ids@))),
{
    let ids = store.all_image_ids();
    let ghost start = store@.images;
    let ghost evicted = evicted_image_ids@;
    let mut removed: Vec<u32> = Vec::new();
    let mut k: usize = 0;
    proof {
        store.lemma_wf_valid();
        reveal(Seq::filter);
        assert(start.take(0) =~= Seq::<ImageView>::empty());
        assert(start.skip(0) =~= start);
        assert(store@.images =~= start.take(0).filter(|img: ImageView| !is_released(img, evicted)) + start.skip(0));
        assert(image_ids(start.take(0).filter(|img: ImageView| is_released(img, evicted))) =~= Seq::<u32>::empty());
    }
    while k < ids.len()
        invariant
            k <= ids@.len(),
            store.wf(),
            ids@ == image_ids(start),
            distinct_ids(start),
            evicted == evicted_image_ids@,
            store@ == old(store)@.with_images(store@.images),
            store@.images == start.take(k as int).filter(|img: ImageView| !is_released(img, evicted))
                + start.skip(k as int),
            removed@ == image_ids(start.take(k as int).filter(|img: ImageView| is_released(img, evicted))),
            start == old(store)@.images,
        decreases ids.len() - k,
    {
        let id = ids[k];
        let ghost done = start.take(k as int).filter(|img: ImageView| !is_released(img, evicted));
        let ghost rest = start.skip(k as int);
        let ghost img = start[k as int];
        proof {
            store.lemma_wf_valid();
            assert(rest[0] == img);
            lemma_lookup_at(store@.images, done.len() as int);
            assert(store@.images[done.len() as int] == img);
            reveal(Seq::filter);
            assert(start.take(k + 1).drop_last() =~= start.take(k as int));
        }
        if contains_id_in(evicted_image_ids, id) {
            if store.remove_if_no_placements(id) {
                removed.push(id);
                proof {
                    lemma_without_front(done, rest);
                    assert(rest.skip(1) =~= start.skip(k + 1));
                }
            }
        }
        proof {
            assert(rest =~= seq![img] + start.skip(k + 1));
        }
        k = k + 1;
        assert(store@.images =~= start.take(k as int).filter(|img: ImageView| !is_released(img, evicted))
            + start.skip(k as int));
        assert(removed@ =~= image_ids(start.take(k as int).filter(|img: ImageView| is_released(img, evicted))));
    }
    proof {
        assert(start.take(k as int) =~= start);
        assert(start.skip(k as int) =~= Seq::<ImageView>::empty());
        assert(store@.images =~= start.filter(|img: ImageView| !is_released(img, evicted)));
    }
    removed
}

/// The image ids that placeholder cells of `lines` carry in their
/// foreground colour (0 excepted).
pub open spec fn placeholder_ids(lines: Seq<Seq<(char, (u8, u8, u8))>>) -> Set<u32> {
    Set::new(
        |id: u32|
            id > 0 && exists|i: int, j: int|
                0 <= i < lines.len() && 0 <= j < lines[i].len() && #[trigger] lines[i][j].0
                    == KITTY_PLACEHOLDER_CHAR && color_id(lines[i][j].1.0, lines[i][j].1.1, lines[i][j].1.2)
                    == id,
    )
}

/// Extract image IDs from evicted lines.
///
/// Scans each line for KITTY_PLACEHOLDER_CHAR (U+10EEEE) and extracts the
/// image ID from the associated foreground color (r, g, b) encoding.
///
/// Each element in `lines` is a vec of `(char, (u8, u8, u8))` tuples
/// representing the character and its foreground color.
///
/// Returns a deduplicated list of image IDs found.
pub fn extract_image_ids_from_lines(lines: &[Vec<(char, (u8, u8, u8))>]) -> (r: Vec<u32>)
    ensures
        r@.no_duplicates(),
        r@.to_set() == placeholder_ids(lines@.map_values(|l: Vec<(char, (u8, u8, u8))>| l@)),
{
    let ghost ls = lines@.map_values(|l: Vec<(char, (u8, u8, u8))>| l@);
    let mut ids: Vec<u32> = Vec::new();
    let mut i: usize = 0;
    while i < lines.len()
        invariant
            i <= lines@.len(),
            ls == lines@.map_values(|l: Vec<(char, (u8, u8, u8))>| l@),
            ids@.no_duplicates(),
            forall|id: u32|
                ids@.contains(id) <==> (id > 0 && exists|a: int, b: int|
                    0 <= a < i && 0 <= b < ls[a].len() && #[trigger] ls[a][b].0
                        == KITTY_PLACEHOLDER_CHAR && color_id(ls[a][b].1.0, ls[a][b].1.1, ls[a][b].1.2)
                        == id),
        decreases lines.len() - i,
    {
        let line = &lines[i];
        let mut j: usize = 0;
        while j < line.len()
            invariant
                i < lines@.len(),
                j <= line@.len(),
                *line == lines@[i as int],
                ls == lines@.map_values(|l: Vec<(char, (u8, u8, u8))>| l@),
                ids@.no_duplicates(),
                forall|id: u32|
                    ids@.contains(id) <==> (id > 0 && ((exists|a: int, b: int|
                        0 <= a < i && 0 <= b < ls[a].len() && #[trigger] ls[a][b].0
                            == KITTY_PLACEHOLDER_CHAR && color_id(ls[a][b].1.0, ls[a][b].1.1, ls[a][b].1.2)
                            == id) || (exists|b: int|
                        0 <= b < j && #[trigger] ls[i as int][b].0 == KITTY_PLACEHOLDER_CHAR && color_id(
                            ls[i as int][b].1.0,
                            ls[i as int][b].1.1,
                            ls[i as int][b].1.2,
                        ) == id))),
            decreases line.len() - j,
        {
            let (c, (r, g, b)) = line[j];
            let ghost before = ids@;
            assert(ls[i as int][j as int] == (c, (r, g, b)));
            if c == KITTY_PLACEHOLDER_CHAR {
                let image_id = fg_color_to_image_id(r, g, b);
                if image_id > 0 && !contains_id_in(ids.as_slice(), image_id) {
                    ids.push(image_id);
                }
            }
            let ghost jj = j;
            j = j + 1;
            assert forall|id: u32|
                ids@.contains(id) <==> (id > 0 && ((exists|a: int, b: int|
                    0 <= a < i && 0 <= b < ls[a].len() && #[trigger] ls[a][b].0
                        == KITTY_PLACEHOLDER_CHAR && color_id(ls[a][b].1.0, ls[a][b].1.1, ls[a][b].1.2)
                        == id) || (exists|b: int|
                    0 <= b < j && #[trigger] ls[i as int][b].0 == KITTY_PLACEHOLDER_CHAR && color_id(
                        ls[i as int][b].1.0,
                        ls[i as int][b].1.1,
                        ls[i as int][b].1.2,
                    ) == id))) by {
                let old_first = exists|a: int, b: int|
                    0 <= a < i && 0 <= b < ls[a].len() && #[trigger] ls[a][b].0
                        == KITTY_PLACEHOLDER_CHAR && color_id(ls[a][b].1.0, ls[a][b].1.1, ls[a][b].1.2)
                        == id;
                let old_second = exists|b: int|
                    0 <= b < jj && #[trigger] ls[i as int][b].0 == KITTY_PLACEHOLDER_CHAR && color_id(
                        ls[i as int][b].1.0,
                        ls[i as int][b].1.1,
                        ls[i as int][b].1.2,
                    ) == id;
                let here = id > 0 && c == KITTY_PLACEHOLDER_CHAR && color_id(r, g, b) == id;
                assert(before.contains(id) <==> (id > 0 && (old_first || old_second)));
                if ids@.contains(id) && !before.contains(id) {
                    assert(here);
                    assert(ls[i as int][jj as int].0 == KITTY_PLACEHOLDER_CHAR);
                }
                if before.contains(id) {
                    let k = choose|k: int| 0 <= k < before.len() && before[k] == id;
                    assert(ids@[k] == id);
                    if old_second {
                        let b = choose|b: int|
                            0 <= b < jj && #[trigger] ls[i as int][b].0 == KITTY_PLACEHOLDER_CHAR
                                && color_id(ls[i as int][b].1.0, ls[i as int][b].1.1, ls[i as int][b].1.2)
                                == id;
                        assert(0 <= b < j && ls[i as int][b].0 == KITTY_PLACEHOLDER_CHAR);
                    }
                }
                if id > 0 && (exists|b: int|
                    0 <= b < j && #[trigger] ls[i as int][b].0 == KITTY_PLACEHOLDER_CHAR && color_id(
                        ls[i as int][b].1.0,
                        ls[i as int][b].1.1,
                        ls[i as int][b].1.2,
                    ) == id) {
                    let b = choose|b: int|
                        0 <= b < j && #[trigger] ls[i as int][b].0 == KITTY_PLACEHOLDER_CHAR && color_id(
                            ls[i as int][b].1.0,
                            ls[i as int][b].1.1,
                            ls[i as int][b].1.2,
                        ) == id;
                    if b < jj {
                        assert(old_second);
                    } else {
                        assert(here);
                        if !before.contains(id) {
                            assert(ids@.last() == id);
                        }
                    }
                }
            }
        }
        i = i + 1;
        assert forall|id: u32|
            ids@.contains(id) <==> (id > 0 && exists|a: int, b: int|
                0 <= a < i && 0 <= b < ls[a].len() && #[trigger] ls[a][b].0 == KITTY_PLACEHOLDER_CHAR
                    && color_id(ls[a][b].1.0, ls[a][b].1.1, ls[a][b].1.2) == id) by {
            if ids@.contains(id) {
                if !(exists|a: int, b: int|
                    0 <= a < i - 1 && 0 <= b < ls[a].len() && #[trigger] ls[a][b].0
                        == KITTY_PLACEHOLDER_CHAR && color_id(ls[a][b].1.0, ls[a][b].1.1, ls[a][b].1.2)
                        == id) {
                    let b = choose|b: int|
                        0 <= b < line@.len() && #[trigger] ls[i - 1][b].0 == KITTY_PLACEHOLDER_CHAR
                            && color_id(ls[i - 1][b].1.0, ls[i - 1][b].1.1, ls[i - 1][b].1.2) == id;
                    assert(ls[i - 1][b].0 == KITTY_PLACEHOLDER_CHAR);
                }
            }
        }
    }
    proof {
        assert(ids@.to_set() =~= placeholder_ids(ls));
    }
    ids
}

/// Check if an image is still referenced by any active placements.
pub fn image_has_active_placements(store: &KittyImageStore, image_id: u32) -> (r: bool)
    requires
        store.wf(),
    ensures
        r == (crate::store::contains_id(store@.images, image_id) && !crate::store::lookup(
            store@.images,
            image_id,
        )->Some_0.placements.is_empty()),
{
    match store.get(image_id) {
        Some(image) => !image.placements.is_empty(),
        None => false,
    }
}

} // verus!
