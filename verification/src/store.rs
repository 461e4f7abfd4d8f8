//! The per-pane image store: images by id, their placements and animation
//! frames, a byte count of the pixel data held, and a least-recently-used
//! order that memory-limit eviction follows.

use std::collections::HashMap;
use vstd::prelude::*;
use vstd::std_specs::hash::spec_hash_map_iter;
use vstd::std_specs::iter::IteratorSpec;

use crate::accounting::{
    lemma_sum_element, lemma_sum_push, lemma_sum_remove, lemma_sum_take_le, lemma_sum_take_next,
    lemma_sum_update, seq_sum,
};

verus! {

broadcast use vstd::std_specs::hash::group_hash_axioms;

/// Pixel format of a stored image.
#[derive(Debug, Clone, Copy, PartialEq, Eq, Structural)]
pub enum ImageFormat {
    Rgba,
    Rgb,
    Png,
}

impl Default for ImageFormat {
    fn default() -> (r: Self)
        ensures
            r == ImageFormat::Png,
    {
        ImageFormat::Png
    }
}

/// Where and how an image is shown.
#[derive(Debug, Clone, Copy, PartialEq, Eq, Structural)]
pub struct KittyPlacement {
    pub placement_id: u32,
    pub columns: Option<u32>,
    pub rows: Option<u32>,
    pub source_x: Option<u32>,
    pub source_y: Option<u32>,
    pub source_width: Option<u32>,
    pub source_height: Option<u32>,
    pub cell_offset_x: u32,
    pub cell_offset_y: u32,
    pub z_index: i32,
    pub virtual_placement: bool,
}

/// One animation frame of an image.
#[derive(Debug, Clone)]
pub struct KittyFrame {
    pub frame_number: u32,
    pub data: Vec<u8>,
    pub gap_ms: u32,
}

/// A transmitted image with its placements and animation frames.
#[derive(Debug, Clone)]
pub struct KittyImage {
    pub id: u32,
    pub format: ImageFormat,
    pub pixel_width: Option<u32>,
    pub pixel_height: Option<u32>,
    pub data: Vec<u8>,
    pub placements: HashMap<u32, KittyPlacement>,
    pub frames: Vec<KittyFrame>,
}

/// Mathematical value of a frame.
pub struct FrameView {
    pub frame_number: u32,
    pub data: Seq<u8>,
    pub gap_ms: u32,
}

/// Mathematical value of an image.
pub struct ImageView {
    pub id: u32,
    pub format: ImageFormat,
    pub pixel_width: Option<u32>,
    pub pixel_height: Option<u32>,
    pub data: Seq<u8>,
    pub placements: Map<u32, KittyPlacement>,
    pub frames: Seq<FrameView>,
}

impl View for KittyFrame {
    type V = FrameView;

    open spec fn view(&self) -> FrameView {
        FrameView { frame_number: self.frame_number, data: self.data@, gap_ms: self.gap_ms }
    }
}

impl View for KittyImage {
    type V = ImageView;

    open spec fn view(&self) -> ImageView {
        ImageView {
            id: self.id,
            format: self.format,
            pixel_width: self.pixel_width,
            pixel_height: self.pixel_height,
            data: self.data@,
            placements: self.placements@,
            frames: self.frames@.map_values(|f: KittyFrame| f@),
        }
    }
}

/// Bytes of pixel data held by each frame of a frame list.
pub open spec fn frame_sizes(frames: Seq<FrameView>) -> Seq<nat> {
    frames.map_values(|f: FrameView| f.data.len())
}

/// Bytes of pixel data held by a frame list.
pub open spec fn frames_bytes(frames: Seq<FrameView>) -> nat {
    seq_sum(frame_sizes(frames))
}

impl ImageView {
    /// Bytes of pixel data the image holds: its own data plus every frame.
    pub open spec fn memory(self) -> nat {
        self.data.len() + frames_bytes(self.frames)
    }

    /// A freshly transmitted image: no dimensions, placements or frames.
    pub open spec fn fresh(id: u32, format: ImageFormat, data: Seq<u8>) -> ImageView {
        ImageView {
            id,
            format,
            pixel_width: None,
            pixel_height: None,
            data,
            placements: Map::empty(),
            frames: Seq::empty(),
        }
    }
}

/// Bytes held by each image of a list, in list order.
pub open spec fn image_sizes(images: Seq<ImageView>) -> Seq<nat> {
    images.map_values(|i: ImageView| i.memory())
}

/// Bytes held by a list of images.
pub open spec fn images_memory(images: Seq<ImageView>) -> nat {
    seq_sum(image_sizes(images))
}

/// The ids of a list of images, in list order.
pub open spec fn image_ids(images: Seq<ImageView>) -> Seq<u32> {
    images.map_values(|i: ImageView| i.id)
}

/// No two images of the list share an id.
pub open spec fn distinct_ids(images: Seq<ImageView>) -> bool {
    forall|i: int, j: int|
        #![trigger images[i].id, images[j].id]
        0 <= i < images.len() && 0 <= j < images.len() && images[i].id == images[j].id ==> i == j
}

/// Some image of the list has this id.
pub open spec fn contains_id(images: Seq<ImageView>, id: u32) -> bool {
    exists|i: int| 0 <= i < images.len() && images[i].id == id
}

/// The index of the image with this id (meaningful when `contains_id`).
pub open spec fn position_of(images: Seq<ImageView>, id: u32) -> int {
    choose|i: int| 0 <= i < images.len() && images[i].id == id
}

/// The image with this id, if any.
pub open spec fn lookup(images: Seq<ImageView>, id: u32) -> Option<ImageView> {
    if contains_id(images, id) {
        Some(images[position_of(images, id)])
    } else {
        None
    }
}

/// The list with the image of this id taken out, others keeping their order.
pub open spec fn without(images: Seq<ImageView>, id: u32) -> Seq<ImageView> {
    if contains_id(images, id) {
        images.remove(position_of(images, id))
    } else {
        images
    }
}

/// The list with the image of this id replaced by `img` in place.
pub open spec fn replace_image(images: Seq<ImageView>, id: u32, img: ImageView) -> Seq<ImageView> {
    if contains_id(images, id) {
        images.update(position_of(images, id), img)
    } else {
        images
    }
}

/// Whether an image-id request asks for an automatically assigned id.
pub open spec fn is_auto_id(id: Option<u32>) -> bool {
    match id {
        Some(x) => x == 0,
        None => true,
    }
}

/// The id a store with counter `next` gives an image stored under `id`.
pub open spec fn assigned_id(next: u32, id: Option<u32>) -> u32 {
    match id {
        Some(x) if x != 0 => x,
        _ => (next + 1) as u32,
    }
}

/// How many of the least recently used images must go so that the rest fit
/// in `max` bytes (all of them when even the last alone does not fit).
pub open spec fn evict_count(images: Seq<ImageView>, max: nat) -> nat
    decreases images.len(),
{
    if images.len() == 0 || images_memory(images) <= max {
        0
    } else {
        1 + evict_count(images.drop_first(), max)
    }
}

/// The ids of an image's placements at depth `z`.
pub open spec fn z_matching(img: ImageView, z: i32) -> Set<u32> {
    img.placements.dom().filter(|pid: u32| img.placements[pid].z_index == z)
}

/// The image with its placements at depth `z` taken away.
pub open spec fn z_stripped(img: ImageView, z: i32) -> ImageView {
    ImageView { placements: img.placements.remove_keys(z_matching(img, z)), ..img }
}

/// Taking away the placements at depth `z` leaves the image with none: it
/// had some there, and none elsewhere.
pub open spec fn z_emptied(img: ImageView, z: i32) -> bool {
    !z_matching(img, z).is_empty() && z_stripped(img, z).placements.is_empty()
}

/// The images after every placement at depth `z` is taken away and the
/// images this empties are removed, the rest in their order.
pub open spec fn z_pruned(images: Seq<ImageView>, z: i32) -> Seq<ImageView>
    decreases images.len(),
{
    if images.len() == 0 {
        Seq::empty()
    } else {
        let rest = z_pruned(images.drop_last(), z);
        if z_emptied(images.last(), z) {
            rest
        } else {
            rest.push(z_stripped(images.last(), z))
        }
    }
}

/// The ids of the images that removing depth `z` empties, in list order.
pub open spec fn z_emptied_ids(images: Seq<ImageView>, z: i32) -> Seq<u32>
    decreases images.len(),
{
    if images.len() == 0 {
        Seq::empty()
    } else {
        let rest = z_emptied_ids(images.drop_last(), z);
        if z_emptied(images.last(), z) {
            rest.push(images.last().id)
        } else {
            rest
        }
    }
}

/// The (image id, placement id) pairs of every placement at depth `z`.
pub open spec fn z_pairs(images: Seq<ImageView>, z: i32) -> Set<(u32, u32)> {
    Set::new(
        |p: (u32, u32)|
            exists|j: int|
                0 <= j < images.len() && #[trigger] images[j].id == p.0 && z_matching(
                    images[j],
                    z,
                ).contains(p.1),
    )
}

/// Default memory limit of a store: 320 MiB.
pub const DEFAULT_MAX_MEMORY_BYTES: usize = 335544320;

/// Mathematical value of a store: its images from least to most recently
/// used, the auto-id counter and the memory limit.
pub struct StoreView {
    pub images: Seq<ImageView>,
    pub next_auto_id: u32,
    pub max_memory: nat,
}

impl StoreView {
    /// Every image id occurs once, and the bytes held fit the byte counter.
    pub open spec fn valid(self) -> bool {
        &&& distinct_ids(self.images)
        &&& images_memory(self.images) <= usize::MAX
    }

    /// Bytes of pixel data held.
    pub open spec fn total(self) -> nat {
        images_memory(self.images)
    }

    /// The store after `store(id, format, data)`: the image goes in as the
    /// most recently used, replacing an image of the same id.
    pub open spec fn stored(self, id: Option<u32>, format: ImageFormat, data: Seq<u8>) -> StoreView {
        let actual = assigned_id(self.next_auto_id, id);
        StoreView {
            images: without(self.images, actual).push(ImageView::fresh(actual, format, data)),
            next_auto_id: if is_auto_id(id) {
                (self.next_auto_id + 1) as u32
            } else {
                self.next_auto_id
            },
            max_memory: self.max_memory,
        }
    }

    /// Whether storing `len` bytes under `id` keeps the total countable.
    pub open spec fn room_for(self, id: Option<u32>, len: nat) -> bool {
        images_memory(without(self.images, assigned_id(self.next_auto_id, id))) + len
            <= usize::MAX
    }

    /// Whether `store(id, ..)` may be called: an automatic id must not
    /// exhaust the counter, and the bytes must stay countable.
    pub open spec fn can_store(self, id: Option<u32>, len: nat) -> bool {
        &&& is_auto_id(id) ==> self.next_auto_id < u32::MAX
        &&& self.room_for(id, len)
    }

    /// The store after evicting least recently used images down to the limit.
    pub open spec fn evicted(self) -> StoreView {
        StoreView {
            images: self.images.skip(evict_count(self.images, self.max_memory) as int),
            ..self
        }
    }

    /// The ids that eviction removes, least recently used first.
    pub open spec fn eviction_ids(self) -> Seq<u32> {
        image_ids(self.images.take(evict_count(self.images, self.max_memory) as int))
    }

    /// The ids that automatic stores have handed out so far: the counter
    /// starts at zero and each automatic store takes the next value.
    pub open spec fn auto_ids(self) -> Set<u32> {
        Set::new(|x: u32| 0 < x <= self.next_auto_id)
    }

    /// The store with the images list replaced.
    pub open spec fn with_images(self, images: Seq<ImageView>) -> StoreView {
        StoreView { images, ..self }
    }
}

/// Under distinct ids, an index holding the id is its position.
pub proof fn lemma_position_unique(images: Seq<ImageView>, i: int)
    requires
        distinct_ids(images),
        0 <= i < images.len(),
    ensures
        contains_id(images, images[i].id),
        position_of(images, images[i].id) == i,
{
    let id = images[i].id;
    assert(contains_id(images, id));
    let j = position_of(images, id);
    assert(images[j].id == images[i].id);
}

/// Removing an image keeps the rest distinct.
pub proof fn lemma_remove_distinct(images: Seq<ImageView>, i: int)
    requires
        distinct_ids(images),
        0 <= i < images.len(),
    ensures
        distinct_ids(images.remove(i)),
        !contains_id(images.remove(i), images[i].id),
{
    let r = images.remove(i);
    assert forall|a: int, b: int|
        #![trigger r[a].id, r[b].id]
        0 <= a < r.len() && 0 <= b < r.len() && r[a].id == r[b].id implies a == b by {
        let a2 = if a < i { a } else { a + 1 };
        let b2 = if b < i { b } else { b + 1 };
        assert(r[a] == images[a2]);
        assert(r[b] == images[b2]);
    }
    if contains_id(r, images[i].id) {
        let k = choose|k: int| 0 <= k < r.len() && r[k].id == images[i].id;
        let k2 = if k < i { k } else { k + 1 };
        assert(r[k] == images[k2]);
    }
}

/// Memory of a list after removing one image.
pub proof fn lemma_memory_remove(images: Seq<ImageView>, i: int)
    requires
        0 <= i < images.len(),
    ensures
        images_memory(images.remove(i)) + images[i].memory() == images_memory(images),
{
    assert(image_sizes(images.remove(i)) =~= image_sizes(images).remove(i));
    lemma_sum_remove(image_sizes(images), i);
}

/// Memory of a list after appending one image.
pub proof fn lemma_memory_push(images: Seq<ImageView>, img: ImageView)
    ensures
        images_memory(images.push(img)) == images_memory(images) + img.memory(),
{
    assert(image_sizes(images.push(img)) =~= image_sizes(images).push(img.memory()));
    lemma_sum_push(image_sizes(images), img.memory());
}

/// Memory of a list after replacing one image.
pub proof fn lemma_memory_update(images: Seq<ImageView>, i: int, img: ImageView)
    requires
        0 <= i < images.len(),
    ensures
        images_memory(images.update(i, img)) + images[i].memory() == images_memory(images)
            + img.memory(),
{
    assert(image_sizes(images.update(i, img)) =~= image_sizes(images).update(i, img.memory()));
    lemma_sum_update(image_sizes(images), i, img.memory());
}

/// No image holds more than the list.
pub proof fn lemma_memory_element(images: Seq<ImageView>, i: int)
    requires
        0 <= i < images.len(),
    ensures
        images[i].memory() <= images_memory(images),
{
    lemma_sum_element(image_sizes(images), i);
}

/// Replacing an image by one of another id keeps ids distinct when that id is new.
pub proof fn lemma_update_distinct(images: Seq<ImageView>, i: int, img: ImageView)
    requires
        distinct_ids(images),
        0 <= i < images.len(),
        img.id == images[i].id,
    ensures
        distinct_ids(images.update(i, img)),
{
    let u = images.update(i, img);
    assert forall|a: int, b: int|
        #![trigger u[a].id, u[b].id]
        0 <= a < u.len() && 0 <= b < u.len() && u[a].id == u[b].id implies a == b by {
        assert(u[a].id == images[a].id);
        assert(u[b].id == images[b].id);
    }
}

/// Replacing an image keeps ids distinct when the replacement keeps the id.
pub proof fn lemma_update_distinct_when_same_id(images: Seq<ImageView>, i: int, img: ImageView)
    requires
        distinct_ids(images),
        0 <= i < images.len(),
    ensures
        img.id == images[i].id ==> distinct_ids(images.update(i, img)),
{
    if img.id == images[i].id {
        lemma_update_distinct(images, i, img);
    }
}

/// Appending an image with a new id keeps ids distinct.
pub proof fn lemma_push_distinct(images: Seq<ImageView>, img: ImageView)
    requires
        distinct_ids(images),
        !contains_id(images, img.id),
    ensures
        distinct_ids(images.push(img)),
{
    let p = images.push(img);
    assert forall|a: int, b: int|
        #![trigger p[a].id, p[b].id]
        0 <= a < p.len() && 0 <= b < p.len() && p[a].id == p[b].id implies a == b by {
        if a < images.len() && b == images.len() {
            assert(images[a].id == img.id);
        }
        if b < images.len() && a == images.len() {
            assert(images[b].id == img.id);
        }
    }
}

/// One more image of the list pruned at depth `z`.
pub proof fn lemma_z_step(images: Seq<ImageView>, k: int, z: i32)
    requires
        0 <= k < images.len(),
    ensures
        z_pruned(images.take(k + 1), z) == (if z_emptied(images[k], z) {
            z_pruned(images.take(k), z)
        } else {
            z_pruned(images.take(k), z).push(z_stripped(images[k], z))
        }),
        z_emptied_ids(images.take(k + 1), z) == (if z_emptied(images[k], z) {
            z_emptied_ids(images.take(k), z).push(images[k].id)
        } else {
            z_emptied_ids(images.take(k), z)
        }),
        z_pairs(images.take(k + 1), z) == z_pairs(images.take(k), z).union(
            z_matching(images[k], z).map(|pid: u32| (images[k].id, pid)),
        ),
{
    let t = images.take(k + 1);
    assert(t.drop_last() =~= images.take(k));
    assert(t.last() == images[k]);
    let lhs = z_pairs(t, z);
    let rhs = z_pairs(images.take(k), z).union(
        z_matching(images[k], z).map(|pid: u32| (images[k].id, pid)),
    );
    assert forall|p: (u32, u32)| lhs.contains(p) <==> rhs.contains(p) by {
        if lhs.contains(p) {
            let j = choose|j: int|
                0 <= j < t.len() && #[trigger] t[j].id == p.0 && z_matching(t[j], z).contains(p.1);
            if j < k {
                assert(images.take(k)[j] == t[j]);
                assert(z_pairs(images.take(k), z).contains(p));
            } else {
                assert(z_matching(images[k], z).contains(p.1));
                assert(p == (images[k].id, p.1));
            }
        }
        if z_pairs(images.take(k), z).contains(p) {
            let j = choose|j: int|
                0 <= j < k && #[trigger] images.take(k)[j].id == p.0 && z_matching(
                    images.take(k)[j],
                    z,
                ).contains(p.1);
            assert(t[j] == images.take(k)[j]);
        }
        if z_matching(images[k], z).map(|pid: u32| (images[k].id, pid)).contains(p) {
            let pid = choose|pid: u32| z_matching(images[k], z).contains(pid) && (images[k].id, pid) == p;
            assert(t[k] == images[k]);
            assert(t[k].id == p.0);
        }
    }
    assert(lhs =~= rhs);
}

/// Pairs of one image never repeat pairs of the images before it.
pub proof fn lemma_z_pairs_fresh(images: Seq<ImageView>, k: int, z: i32, pid: u32)
    requires
        distinct_ids(images),
        0 <= k < images.len(),
    ensures
        !z_pairs(images.take(k), z).contains((images[k].id, pid)),
{
    if z_pairs(images.take(k), z).contains((images[k].id, pid)) {
        let j = choose|j: int|
            0 <= j < k && #[trigger] images.take(k)[j].id == images[k].id && z_matching(
                images.take(k)[j],
                z,
            ).contains(pid);
        assert(images[j].id == images[k].id);
    }
}

/// Replacing an image by one of the same id keeps it findable under that id.
pub proof fn lemma_replace_keeps_lookup(images: Seq<ImageView>, id: u32, img: ImageView)
    requires
        distinct_ids(images),
        contains_id(images, id),
        img.id == id,
    ensures
        distinct_ids(replace_image(images, id, img)),
        contains_id(replace_image(images, id, img), id),
        lookup(replace_image(images, id, img), id) == Some(img),
{
    let i = position_of(images, id);
    lemma_update_distinct(images, i, img);
    let u = images.update(i, img);
    lemma_position_unique(u, i);
}

/// Taking out an image that was replaced is taking out the original.
pub proof fn lemma_without_replaced(images: Seq<ImageView>, id: u32, img: ImageView)
    requires
        distinct_ids(images),
        contains_id(images, id),
        img.id == id,
    ensures
        without(replace_image(images, id, img), id) == without(images, id),
{
    let i = position_of(images, id);
    lemma_update_distinct(images, i, img);
    let u = images.update(i, img);
    lemma_position_unique(u, i);
    assert(u.remove(i) =~= images.remove(i));
}

/// Under distinct ids, each image is what looking up its id gives.
pub proof fn lemma_lookup_at(images: Seq<ImageView>, k: int)
    requires
        distinct_ids(images),
        0 <= k < images.len(),
    ensures
        contains_id(images, images[k].id),
        lookup(images, images[k].id) == Some(images[k]),
{
    lemma_position_unique(images, k);
}

/// Taking out the first image of the unprocessed part of a list.
pub proof fn lemma_without_front(done: Seq<ImageView>, rest: Seq<ImageView>)
    requires
        distinct_ids(done + rest),
        rest.len() > 0,
    ensures
        without(done + rest, rest[0].id) == done + rest.skip(1),
{
    let all = done + rest;
    assert(all[done.len() as int] == rest[0]);
    lemma_position_unique(all, done.len() as int);
    assert(all.remove(done.len() as int) =~= done + rest.skip(1));
}

impl KittyImage {
    /// A freshly transmitted image with no dimensions, placements or frames.
    pub fn new(id: u32, format: ImageFormat, data: Vec<u8>) -> (r: Self)
        ensures
            r@ == ImageView::fresh(id, format, data@),
    {
        let r = KittyImage {
            id,
            format,
            pixel_width: None,
            pixel_height: None,
            data,
            placements: HashMap::new(),
            frames: Vec::new(),
        };
        assert(r@.frames =~= Seq::<FrameView>::empty());
        r
    }

    /// Bytes of pixel data held: the image data plus every frame's data.
    pub fn memory_bytes(&self) -> (r: usize)
        requires
            self@.memory() <= usize::MAX,
        ensures
            r == self@.memory(),
    {
        let ghost sizes = frame_sizes(self@.frames);
        let mut total: usize = self.data.len();
        let mut i: usize = 0;
        while i < self.frames.len()
            invariant
                i <= self.frames.len(),
                sizes == frame_sizes(self@.frames),
                sizes.len() == self.frames.len(),
                total == self.data@.len() + seq_sum(sizes.take(i as int)),
                self@.memory() <= usize::MAX,
            decreases self.frames.len() - i,
        {
            proof {
                lemma_sum_take_next(sizes, i as int);
                lemma_sum_take_le(sizes, i + 1);
                assert(sizes[i as int] == self.frames@[i as int].data@.len());
            }
            total = total + self.frames[i].data.len();
            i = i + 1;
        }
        assert(sizes.take(i as int) =~= sizes);
        total
    }
}

/// Images of one pane, least recently used first, with a byte counter and a
/// memory limit.
#[derive(Debug)]
pub struct KittyImageStore {
    images: Vec<KittyImage>,
    next_auto_id: u32,
    total_bytes: usize,
    max_memory: usize,
}

impl View for KittyImageStore {
    type V = StoreView;

    closed spec fn view(&self) -> StoreView {
        StoreView {
            images: self.images@.map_values(|i: KittyImage| i@),
            next_auto_id: self.next_auto_id,
            max_memory: self.max_memory as nat,
        }
    }
}

impl Default for KittyImageStore {
    fn default() -> (r: Self)
        ensures
            r.wf(),
            r@ == (StoreView {
                images: Seq::empty(),
                next_auto_id: 0,
                max_memory: DEFAULT_MAX_MEMORY_BYTES as nat,
            }),
            r@.auto_ids() == Set::<u32>::empty(),
    {
        Self::new()
    }
}

/// The ids of an image's placements at depth `z`, each once, in the order
/// the placement map yields them.
fn placements_at_depth(image: &KittyImage, z: i32) -> (r: Vec<u32>)
    ensures
        r@.no_duplicates(),
        r@.to_set() == z_matching(image@, z),
{
    let mut out: Vec<u32> = Vec::new();
    let ghost m = image.placements@;
    let ghost v = spec_hash_map_iter(&image.placements).remaining();
    for entry in it: image.placements.iter()
        invariant
            it.seq() == v,
            v == spec_hash_map_iter(&image.placements).remaining(),
            m == image.placements@,
            v.no_duplicates(),
            out@.no_duplicates(),
            forall|x: u32|
                out@.contains(x) <==> exists|j: int|
                    0 <= j < it.index() && *(#[trigger] v[j]).0 == x && (*v[j].1).z_index == z,
    {
        let ghost idx = it.index();
        let ghost before = out@;
        let (pid, p) = entry;
        assert(*v[idx].0 == *pid && *v[idx].1 == *p);
        if p.z_index == z {
            proof {
                if out@.contains(*pid) {
                    let j = choose|j: int|
                        0 <= j < idx && *(#[trigger] v[j]).0 == *pid && (*v[j].1).z_index == z;
                    assert(m.contains_key(*v[j].0) && m[*v[j].0] == *v[j].1);
                    assert(m.contains_key(*v[idx].0) && m[*v[idx].0] == *v[idx].1);
                    assert(v[j] == v[idx]);
                }
            }
            out.push(*pid);
        }
        proof {
            assert forall|x: u32|
                out@.contains(x) <==> exists|j: int|
                    0 <= j < idx + 1 && *(#[trigger] v[j]).0 == x && (*v[j].1).z_index == z by {
                if out@.contains(x) {
                    if before.contains(x) {
                        let j = choose|j: int|
                            0 <= j < idx && *(#[trigger] v[j]).0 == x && (*v[j].1).z_index == z;
                        assert(0 <= j < idx + 1 && *v[j].0 == x && (*v[j].1).z_index == z);
                    } else {
                        assert(*v[idx].0 == x);
                    }
                }
                if exists|j: int| 0 <= j < idx + 1 && *(#[trigger] v[j]).0 == x && (*v[j].1).z_index == z {
                    let j = choose|j: int| 0 <= j < idx + 1 && *(#[trigger] v[j]).0 == x && (*v[j].1).z_index == z;
                    if j == idx {
                        assert(out@.last() == x);
                    } else {
                        assert(0 <= j < idx && *v[j].0 == x && (*v[j].1).z_index == z);
                        assert(before.contains(x));
                        let k = choose|k: int| 0 <= k < before.len() && before[k] == x;
                        assert(out@[k] == x);
                    }
                }
            }
        }
    }
    proof {
        assert forall|x: u32| out@.contains(x) <==> #[trigger] z_matching(image@, z).contains(x) by {
            if z_matching(image@, z).contains(x) {
                assert(v.contains((&x, &m[x])));
            }
        }
        assert(out@.to_set() =~= z_matching(image@, z));
    }
    out
}

impl KittyImageStore {
    /// The store's internal bookkeeping agrees with its images: ids are
    /// distinct and the byte counter equals the bytes held.
    pub closed spec fn wf(&self) -> bool {
        &&& self@.valid()
        &&& self.total_bytes as nat == self@.total()
    }

    /// A well-formed store has a valid view.
    pub proof fn lemma_wf_valid(&self)
        requires
            self.wf(),
        ensures
            self@.valid(),
    {
    }

    /// Removing an image from the vector removes its view from the list.
    proof fn lemma_view_remove(&self, old_images: Seq<KittyImage>, i: int)
        requires
            0 <= i < old_images.len(),
            self.images@ == old_images.remove(i),
        ensures
            self@.images == old_images.map_values(|k: KittyImage| k@).remove(i),
    {
        assert(self@.images =~= old_images.map_values(|k: KittyImage| k@).remove(i));
    }

    /// An empty store with the default memory limit.
    pub fn new() -> (r: Self)
        ensures
            r.wf(),
            r@ == (StoreView {
                images: Seq::empty(),
                next_auto_id: 0,
                max_memory: DEFAULT_MAX_MEMORY_BYTES as nat,
            }),
            r@.auto_ids() == Set::<u32>::empty(),
    {
        let r = KittyImageStore {
            images: Vec::new(),
            next_auto_id: 0,
            total_bytes: 0,
            max_memory: DEFAULT_MAX_MEMORY_BYTES,
        };
        assert(r@.images =~= Seq::<ImageView>::empty());
        assert(image_sizes(r@.images) =~= Seq::<nat>::empty());
        assert(r@.auto_ids() =~= Set::<u32>::empty());
        r
    }

    /// Index of the image with this id.
    fn find(&self, id: u32) -> (r: Option<usize>)
        requires
            self.wf(),
        ensures
            match r {
                Some(i) => i < self.images.len() && self@.images[i as int].id == id && position_of(
                    self@.images,
                    id,
                ) == i,
                None => !contains_id(self@.images, id),
            },
            r is Some <==> contains_id(self@.images, id),
    {
        let mut i: usize = 0;
        while i < self.images.len()
            invariant
                i <= self.images.len(),
                self.wf(),
                forall|j: int| 0 <= j < i ==> #[trigger] self@.images[j].id != id,
            decreases self.images.len() - i,
        {
            if self.images[i].id == id {
                proof {
                    lemma_position_unique(self@.images, i as int);
                }
                return Some(i);
            }
            i = i + 1;
        }
        None
    }

    /// Whether `store(id, ..)` can count `len` more bytes for the image it
    /// would create.
    pub fn room_for(&self, id: Option<u32>, len: usize) -> (r: bool)
        requires
            self.wf(),
        ensures
            r == self@.room_for(id, len as nat),
    {
        let actual = match id {
            Some(x) if x != 0 => x,
            _ => self.next_auto_id.wrapping_add(1),
        };
        proof {
            let next = self.next_auto_id;
            assert(next == 0xffff_ffffu32 ==> (next + 1) as u32 == 0u32) by (bit_vector);
            assert(actual == assigned_id(self@.next_auto_id, id));
        }
        let freed: usize = match self.find(actual) {
            Some(i) => {
                proof {
                    lemma_memory_element(self@.images, i as int);
                    lemma_memory_remove(self@.images, i as int);
                }
                self.images[i].memory_bytes()
            },
            None => 0,
        };
        let kept = self.total_bytes - freed;
        len <= usize::MAX - kept
    }

    /// Whether `store(id, ..)` may be called with `len` bytes: an automatic
    /// id is still available and the bytes stay countable.
    pub fn can_store(&self, id: Option<u32>, len: usize) -> (r: bool)
        requires
            self.wf(),
        ensures
            r == self@.can_store(id, len as nat),
    {
        let auto = match id {
            Some(x) => x == 0,
            None => true,
        };
        if auto && self.next_auto_id == u32::MAX {
            false
        } else {
            self.room_for(id, len)
        }
    }

    /// Whether `len` more bytes keep the byte count within `usize`.
    pub fn can_count(&self, len: usize) -> (r: bool)
        requires
            self.wf(),
        ensures
            r == (self@.total() + len <= usize::MAX),
    {
        len <= usize::MAX - self.total_bytes
    }

    /// Store image data under `id`, or under a fresh automatic id when `id`
    /// is `None` or `Some(0)`; returns the id used. An image already stored
    /// under that id is replaced, and the new image becomes the most
    /// recently used. An automatic id is above every automatic id this store
    /// handed out before, whatever was removed since.
    pub fn store(&mut self, id: Option<u32>, format: ImageFormat, data: Vec<u8>) -> (r: u32)
        requires
            old(self).wf(),
            old(self)@.can_store(id, data@.len()),
        ensures
            final(self).wf(),
            r == assigned_id(old(self)@.next_auto_id, id),
            final(self)@ == old(self)@.stored(id, format, data@),
            is_auto_id(id) ==> r > 0 && (forall|x: u32| #[trigger]
                old(self)@.auto_ids().contains(x) ==> x < r) && final(self)@.auto_ids()
                == old(self)@.auto_ids().insert(r),
            !is_auto_id(id) ==> final(self)@.auto_ids() == old(self)@.auto_ids(),
    {
        let auto = match id {
            Some(x) => x == 0,
            None => true,
        };
        let actual = if auto {
            self.next_auto_id = self.next_auto_id + 1;
            self.next_auto_id
        } else {
            match id {
                Some(x) => x,
                None => 0,
            }
        };
        assert(actual == assigned_id(old(self)@.next_auto_id, id));
        let ghost before = self@;
        let ghost before_images = self.images@;
        match self.find(actual) {
            Some(i) => {
                let old_image = self.images.remove(i);
                proof {
                    self.lemma_view_remove(before_images, i as int);
                    lemma_memory_element(before.images, i as int);
                    lemma_memory_remove(before.images, i as int);
                    lemma_remove_distinct(before.images, i as int);
                }
                let freed = old_image.memory_bytes();
                self.total_bytes = self.total_bytes - freed;
            },
            None => {},
        }
        assert(self@.images == without(before.images, actual));
        assert(distinct_ids(self@.images) && !contains_id(self@.images, actual));
        let byte_len = data.len();
        let image = KittyImage::new(actual, format, data);
        let ghost mid = self.images@;
        self.total_bytes = self.total_bytes + byte_len;
        self.images.push(image);
        proof {
            assert(self@.images =~= mid.map_values(|k: KittyImage| k@).push(image@));
            lemma_memory_push(mid.map_values(|k: KittyImage| k@), image@);
            assert(frames_bytes(image@.frames) == 0) by {
                assert(frame_sizes(image@.frames) =~= Seq::<nat>::empty());
            }
            lemma_push_distinct(mid.map_values(|k: KittyImage| k@), image@);
            assert(self@ == old(self)@.stored(id, format, data@));
            if is_auto_id(id) {
                assert(self@.auto_ids() =~= old(self)@.auto_ids().insert(actual));
            }
        }
        actual
    }

    /// Store image data, then evict least recently used images until the
    /// store fits its memory limit; returns the id used and the evicted ids.
    pub fn store_with_eviction(&mut self, id: Option<u32>, format: ImageFormat, data: Vec<u8>) -> (r:
        (u32, Vec<u32>))
        requires
            old(self).wf(),
            old(self)@.can_store(id, data@.len()),
        ensures
            final(self).wf(),
            r.0 == assigned_id(old(self)@.next_auto_id, id),
            final(self)@ == old(self)@.stored(id, format, data@).evicted(),
            r.1@ == old(self)@.stored(id, format, data@).eviction_ids(),
            is_auto_id(id) ==> r.0 > 0 && (forall|x: u32| #[trigger]
                old(self)@.auto_ids().contains(x) ==> x < r.0) && final(self)@.auto_ids()
                == old(self)@.auto_ids().insert(r.0),
            !is_auto_id(id) ==> final(self)@.auto_ids() == old(self)@.auto_ids(),
    {
        let id = self.store(id, format, data);
        let evicted = self.evict_lru_if_needed();
        (id, evicted)
    }

    /// The image with this id.
    pub fn get(&self, id: u32) -> (r: Option<&KittyImage>)
        requires
            self.wf(),
        ensures
            r is Some <==> contains_id(self@.images, id),
            r matches Some(img) ==> lookup(self@.images, id) == Some(img@),
    {
        match self.find(id) {
            Some(i) => Some(&self.images[i]),
            None => None,
        }
    }

    /// Mutable access to the image with this id. The store stays well formed
    /// when the caller keeps the image's id and byte size.
    pub fn get_mut(&mut self, id: u32) -> (r: Option<&mut KittyImage>)
        requires
            old(self).wf(),
        ensures
            r is Some <==> contains_id(old(self)@.images, id),
            match r {
                Some(img) => {
                    &&& lookup(old(self)@.images, id) == Some(img@)
                    &&& final(self)@ == old(self)@.with_images(
                        replace_image(old(self)@.images, id, final(img)@),
                    )
                    &&& (final(img)@.id == id && final(img)@.memory() == img@.memory())
                        ==> final(self).wf()
                },
                None => final(self)@ == old(self)@ && final(self).wf(),
            },
            final(self)@.auto_ids() == old(self)@.auto_ids(),
    {
        match self.find(id) {
            Some(i) => {
                let ghost before = self@;
                let ghost vec_before = self.images@;
                proof {
                    assert forall|x: KittyImage|
                        #![trigger vec_before.update(i as int, x)]
                        vec_before.update(i as int, x).map_values(|k: KittyImage| k@)
                            == before.images.update(i as int, x@) && images_memory(
                            before.images.update(i as int, x@),
                        ) + before.images[i as int].memory() == images_memory(before.images)
                            + x@.memory() && (x@.id == id ==> distinct_ids(
                            before.images.update(i as int, x@),
                        )) by {
                        assert(vec_before.update(i as int, x).map_values(|k: KittyImage| k@)
                            =~= before.images.update(i as int, x@));
                        lemma_memory_update(before.images, i as int, x@);
                        lemma_update_distinct_when_same_id(before.images, i as int, x@);
                    }
                }
                Some(&mut self.images[i])
            },
            None => None,
        }
    }

    /// Remove the image with this id; returns whether one was there.
    pub fn remove(&mut self, id: u32) -> (r: bool)
        requires
            old(self).wf(),
        ensures
            final(self).wf(),
            r == contains_id(old(self)@.images, id),
            final(self)@ == old(self)@.with_images(without(old(self)@.images, id)),
            final(self)@.auto_ids() == old(self)@.auto_ids(),
    {
        let ghost before = self@;
        let ghost before_images = self.images@;
        match self.find(id) {
            Some(i) => {
                let image = self.images.remove(i);
                proof {
                    self.lemma_view_remove(before_images, i as int);
                    lemma_memory_element(before.images, i as int);
                    lemma_memory_remove(before.images, i as int);
                    lemma_remove_distinct(before.images, i as int);
                }
                let freed = image.memory_bytes();
                self.total_bytes = self.total_bytes - freed;
                assert(self@ == before.with_images(without(before.images, id)));
                true
            },
            None => {
                assert(self@ =~= before.with_images(without(before.images, id)));
                false
            },
        }
    }

    /// Remove every image.
    pub fn remove_all(&mut self)
        requires
            old(self).wf(),
        ensures
            final(self).wf(),
            final(self)@ == old(self)@.with_images(Seq::empty()),
            final(self)@.auto_ids() == old(self)@.auto_ids(),
    {
        self.images.clear();
        self.total_bytes = 0;
        proof {
            assert(self@.images =~= Seq::<ImageView>::empty());
            assert(image_sizes(self@.images) =~= Seq::<nat>::empty());
        }
    }

    /// Remove the image with this id when it has no placements left;
    /// returns whether it was removed.
    pub fn remove_if_no_placements(&mut self, id: u32) -> (r: bool)
        requires
            old(self).wf(),
        ensures
            final(self).wf(),
            r == (contains_id(old(self)@.images, id) && lookup(
                old(self)@.images,
                id,
            )->Some_0.placements.is_empty()),
            final(self)@ == if r {
                old(self)@.with_images(without(old(self)@.images, id))
            } else {
                old(self)@
            },
            final(self)@.auto_ids() == old(self)@.auto_ids(),
    {
        match self.find(id) {
            Some(i) => {
                if self.images[i].placements.is_empty() {
                    self.remove(id)
                } else {
                    false
                }
            },
            None => false,
        }
    }

    /// Mark the image with this id as the most recently used.
    pub fn touch(&mut self, id: u32)
        requires
            old(self).wf(),
        ensures
            final(self).wf(),
            final(self)@ == if contains_id(old(self)@.images, id) {
                old(self)@.with_images(
                    without(old(self)@.images, id).push(lookup(old(self)@.images, id)->Some_0),
                )
            } else {
                old(self)@
            },
            final(self)@.auto_ids() == old(self)@.auto_ids(),
    {
        let ghost before = self@;
        let ghost before_images = self.images@;
        match self.find(id) {
            Some(i) => {
                let image = self.images.remove(i);
                proof {
                    self.lemma_view_remove(before_images, i as int);
                    lemma_memory_remove(before.images, i as int);
                    lemma_remove_distinct(before.images, i as int);
                }
                let ghost mid = self.images@;
                self.images.push(image);
                proof {
                    assert(self@.images =~= mid.map_values(|k: KittyImage| k@).push(image@));
                    lemma_memory_push(mid.map_values(|k: KittyImage| k@), image@);
                    lemma_push_distinct(mid.map_values(|k: KittyImage| k@), image@);
                }
            },
            None => {},
        }
    }

    /// Add (or replace, by placement id) a placement of the image with this
    /// id; returns whether the image exists.
    pub fn add_placement(&mut self, image_id: u32, placement: KittyPlacement) -> (r: bool)
        requires
            old(self).wf(),
        ensures
            final(self).wf(),
            r == contains_id(old(self)@.images, image_id),
            final(self)@ == old(self)@.with_images(
                replace_image(
                    old(self)@.images,
                    image_id,
                    ImageView {
                        placements: lookup(old(self)@.images, image_id)->Some_0.placements.insert(
                            placement.placement_id,
                            placement,
                        ),
                        ..lookup(old(self)@.images, image_id)->Some_0
                    },
                ),
            ),
            final(self)@.auto_ids() == old(self)@.auto_ids(),
    {
        let ghost before = self@;
        match self.find(image_id) {
            Some(i) => {
                let mut image = self.images.remove(i);
                image.placements.insert(placement.placement_id, placement);
                self.images.insert(i, image);
                proof {
                    assert(self@.images =~= before.images.update(i as int, image@));
                    assert(image@.frames == before.images[i as int].frames);
                    lemma_memory_update(before.images, i as int, image@);
                    lemma_update_distinct(before.images, i as int, image@);
                }
                true
            },
            None => false,
        }
    }

    /// Remove a placement of the image with this id; returns whether the
    /// placement was there.
    pub fn remove_placement(&mut self, image_id: u32, placement_id: u32) -> (r: bool)
        requires
            old(self).wf(),
        ensures
            final(self).wf(),
            r == (contains_id(old(self)@.images, image_id) && lookup(
                old(self)@.images,
                image_id,
            )->Some_0.placements.contains_key(placement_id)),
            !r ==> final(self)@ == old(self)@,
            final(self)@ == old(self)@.with_images(
                replace_image(
                    old(self)@.images,
                    image_id,
                    ImageView {
                        placements: lookup(old(self)@.images, image_id)->Some_0.placements.remove(
                            placement_id,
                        ),
                        ..lookup(old(self)@.images, image_id)->Some_0
                    },
                ),
            ),
            final(self)@.auto_ids() == old(self)@.auto_ids(),
    {
        let ghost before = self@;
        match self.find(image_id) {
            Some(i) => {
                let mut image = self.images.remove(i);
                let removed = image.placements.remove(&placement_id);
                self.images.insert(i, image);
                proof {
                    assert(self@.images =~= before.images.update(i as int, image@));
                    assert(image@.frames == before.images[i as int].frames);
                    lemma_memory_update(before.images, i as int, image@);
                    lemma_update_distinct(before.images, i as int, image@);
                    if removed.is_none() {
                        assert(image@.placements =~= before.images[i as int].placements);
                        assert(self@.images =~= before.images);
                    }
                }
                removed.is_some()
            },
            None => {
                assert(self@ =~= before);
                false
            },
        }
    }

    /// Append an animation frame to the image with this id; returns whether
    /// the image exists.
    pub fn add_frame(&mut self, image_id: u32, frame: KittyFrame) -> (r: bool)
        requires
            old(self).wf(),
            old(self)@.total() + frame.data@.len() <= usize::MAX,
        ensures
            final(self).wf(),
            r == contains_id(old(self)@.images, image_id),
            final(self)@ == old(self)@.with_images(
                replace_image(
                    old(self)@.images,
                    image_id,
                    ImageView {
                        frames: lookup(old(self)@.images, image_id)->Some_0.frames.push(frame@),
                        ..lookup(old(self)@.images, image_id)->Some_0
                    },
                ),
            ),
            final(self)@.auto_ids() == old(self)@.auto_ids(),
    {
        let ghost before = self@;
        match self.find(image_id) {
            Some(i) => {
                let len = frame.data.len();
                let ghost fv = frame@;
                let mut image = self.images.remove(i);
                let ghost old_frames = image@.frames;
                image.frames.push(frame);
                self.images.insert(i, image);
                self.total_bytes = self.total_bytes + len;
                proof {
                    assert(self@.images =~= before.images.update(i as int, image@));
                    assert(image@.frames =~= old_frames.push(fv));
                    assert(frame_sizes(image@.frames) =~= frame_sizes(old_frames).push(
                        fv.data.len(),
                    ));
                    lemma_sum_push(frame_sizes(old_frames), fv.data.len());
                    lemma_memory_update(before.images, i as int, image@);
                    lemma_update_distinct(before.images, i as int, image@);
                }
                true
            },
            None => false,
        }
    }

    /// Take away every placement at depth `z`, and remove the images left
    /// without placements by it; returns the removed image ids in list order
    /// and the removed (image id, placement id) pairs, each once.
    pub fn remove_placements_at_depth(&mut self, z: i32) -> (r: (Vec<u32>, Vec<(u32, u32)>))
        requires
            old(self).wf(),
        ensures
            final(self).wf(),
            final(self)@ == old(self)@.with_images(z_pruned(old(self)@.images, z)),
            r.0@ == z_emptied_ids(old(self)@.images, z),
            r.1@.no_duplicates(),
            r.1@.to_set() == z_pairs(old(self)@.images, z),
            final(self)@.auto_ids() == old(self)@.auto_ids(),
    {
        let ghost start = self@.images;
        let n = self.images.len();
        let mut k: usize = 0;
        let mut i: usize = 0;
        let mut removed_ids: Vec<u32> = Vec::new();
        let mut removed_pairs: Vec<(u32, u32)> = Vec::new();
        proof {
            assert(start.take(0) =~= Seq::<ImageView>::empty());
            assert(z_pairs(start.take(0), z) =~= Set::<(u32, u32)>::empty());
            assert(removed_pairs@.to_set() =~= Set::<(u32, u32)>::empty());
            assert(self@.images =~= z_pruned(start.take(0), z) + start.skip(0));
        }
        while k < n
            invariant
                self.wf(),
                n == start.len(),
                k <= n,
                distinct_ids(start),
                self@.images == z_pruned(start.take(k as int), z) + start.skip(k as int),
                i == z_pruned(start.take(k as int), z).len(),
                self@.next_auto_id == old(self)@.next_auto_id,
                self@.max_memory == old(self)@.max_memory,
                start == old(self)@.images,
                removed_ids@ == z_emptied_ids(start.take(k as int), z),
                removed_pairs@.no_duplicates(),
                removed_pairs@.to_set() == z_pairs(start.take(k as int), z),
            decreases n - k,
        {
            let ghost img = start[k as int];
            let ghost cur = self@;
            let ghost cur_vec = self.images@;
            assert(self@.images.len() == i + (n - k));
            assert(i < self.images.len());
            assert(cur.images[i as int] == img);
            let matched = placements_at_depth(&self.images[i], z);
            let id = self.images[i].id;
            proof {
                lemma_z_step(start, k as int, z);
                self.lemma_wf_valid();
                lemma_memory_element(cur.images, i as int);
            }
            let ghost pairs_before = removed_pairs@;
            let mut j: usize = 0;
            while j < matched.len()
                invariant
                    j <= matched.len(),
                    removed_pairs@ == pairs_before + matched@.take(j as int).map_values(
                        |pid: u32| (id, pid),
                    ),
                decreases matched.len() - j,
            {
                removed_pairs.push((id, matched[j]));
                j = j + 1;
                assert(removed_pairs@ =~= pairs_before + matched@.take(j as int).map_values(
                    |pid: u32| (id, pid),
                ));
            }
            proof {
                let added = matched@.map_values(|pid: u32| (id, pid));
                assert(matched@.take(j as int) =~= matched@);
                assert(removed_pairs@ == pairs_before + added);
                assert forall|a: int, b: int|
                    0 <= a < removed_pairs@.len() && 0 <= b < removed_pairs@.len() && a != b
                        implies removed_pairs@[a] != removed_pairs@[b] by {
                    if a >= pairs_before.len() && b < pairs_before.len() {
                        lemma_z_pairs_fresh(start, k as int, z, matched@[a - pairs_before.len()]);
                        assert(pairs_before.to_set().contains(pairs_before[b]));
                    }
                    if b >= pairs_before.len() && a < pairs_before.len() {
                        lemma_z_pairs_fresh(start, k as int, z, matched@[b - pairs_before.len()]);
                        assert(pairs_before.to_set().contains(pairs_before[a]));
                    }
                }
                let target = z_pairs(start.take(k + 1), z);
                assert forall|p: (u32, u32)| removed_pairs@.contains(p) <==> target.contains(p) by {
                    if removed_pairs@.contains(p) {
                        let a = choose|a: int| 0 <= a < removed_pairs@.len() && removed_pairs@[a] == p;
                        if a < pairs_before.len() {
                            assert(pairs_before.to_set().contains(p));
                        } else {
                            let pid = matched@[a - pairs_before.len()];
                            assert(matched@.to_set().contains(pid));
                            assert(z_matching(img, z).map(|q: u32| (img.id, q)).contains(p));
                        }
                    }
                    if target.contains(p) {
                        if pairs_before.to_set().contains(p) {
                            let a = choose|a: int| 0 <= a < pairs_before.len() && pairs_before[a] == p;
                            assert(removed_pairs@[a] == p);
                        } else {
                            assert(z_matching(img, z).map(|q: u32| (img.id, q)).contains(p));
                            let pid = choose|q: u32| z_matching(img, z).contains(q) && (img.id, q) == p;
                            assert(matched@.to_set().contains(pid));
                            let b = choose|b: int| 0 <= b < matched@.len() && matched@[b] == pid;
                            assert(removed_pairs@[pairs_before.len() + b] == p);
                        }
                    }
                }
                assert(removed_pairs@.to_set() =~= target);
            }
            if matched.len() == 0 {
                proof {
                    assert(z_matching(img, z) =~= Set::<u32>::empty()) by {
                        assert forall|x: u32| !#[trigger] z_matching(img, z).contains(x) by {
                            assert(!matched@.to_set().contains(x));
                        }
                    }
                    assert(img.placements.remove_keys(Set::<u32>::empty()) =~= img.placements);
                    assert(z_stripped(img, z) == img);
                    assert(self@.images =~= z_pruned(start.take(k + 1), z) + start.skip(k + 1));
                }
                i = i + 1;
            } else {
                let mut image = self.images.remove(i);
                proof {
                    self.lemma_view_remove(cur_vec, i as int);
                    lemma_memory_remove(cur.images, i as int);
                    lemma_remove_distinct(cur.images, i as int);
                }
                let mut j: usize = 0;
                proof {
                    assert(matched@.take(0).to_set() =~= Set::<u32>::empty());
                    assert(img.placements.remove_keys(Set::<u32>::empty()) =~= img.placements);
                }
                while j < matched.len()
                    invariant
                        j <= matched.len(),
                        image@ == (ImageView {
                            placements: img.placements.remove_keys(matched@.take(j as int).to_set()),
                            ..img
                        }),
                    decreases matched.len() - j,
                {
                    let ghost before = image.placements@;
                    image.placements.remove(&matched[j]);
                    proof {
                        assert(matched@.take(j + 1).to_set() =~= matched@.take(j as int).to_set().insert(
                            matched@[j as int],
                        )) by {
                            assert forall|x: u32| #[trigger] matched@.take(j + 1).contains(x) <==> (
                            matched@.take(j as int).contains(x) || x == matched@[j as int]) by {
                                if matched@.take(j + 1).contains(x) {
                                    let a = choose|a: int| 0 <= a < j + 1 && #[trigger] matched@.take(j + 1)[a] == x;
                                    if a < j {
                                        assert(matched@.take(j as int)[a] == x);
                                    }
                                }
                                if matched@.take(j as int).contains(x) {
                                    let a = choose|a: int| 0 <= a < j && #[trigger] matched@.take(j as int)[a] == x;
                                    assert(matched@.take(j + 1)[a] == x);
                                }
                                if x == matched@[j as int] {
                                    assert(matched@.take(j + 1)[j as int] == x);
                                }
                            }
                        }
                        assert(image.placements@ =~= img.placements.remove_keys(
                            matched@.take(j + 1).to_set(),
                        ));
                    }
                    j = j + 1;
                }
                proof {
                    assert(matched@.take(j as int) =~= matched@);
                    assert(image@ == z_stripped(img, z));
                    assert(!z_matching(img, z).is_empty()) by {
                        assert(matched@.to_set().contains(matched@[0]));
                    }
                }
                if image.placements.is_empty() {
                    proof {
                        assert(z_emptied(img, z));
                        assert(self@.images =~= z_pruned(start.take(k + 1), z) + start.skip(k + 1));
                    }
                    let freed = image.memory_bytes();
                    self.total_bytes = self.total_bytes - freed;
                    removed_ids.push(id);
                } else {
                    let ghost mid = self.images@;
                    self.images.insert(i, image);
                    proof {
                        assert(!z_emptied(img, z));
                        assert(self@.images =~= cur.images.update(i as int, z_stripped(img, z)));
                        lemma_memory_update(cur.images, i as int, z_stripped(img, z));
                        lemma_update_distinct(cur.images, i as int, z_stripped(img, z));
                        assert(self@.images =~= z_pruned(start.take(k + 1), z) + start.skip(k + 1));
                    }
                    i = i + 1;
                }
            }
            k = k + 1;
        }
        proof {
            assert(start.take(n as int) =~= start);
            assert(start.skip(n as int) =~= Seq::<ImageView>::empty());
            assert(self@.images =~= z_pruned(start, z));
        }
        (removed_ids, removed_pairs)
    }

    /// Number of images held.
    pub fn image_count(&self) -> (r: usize)
        requires
            self.wf(),
        ensures
            r == self@.images.len(),
    {
        self.images.len()
    }

    /// Bytes of pixel data held, frames included.
    pub fn total_memory_bytes(&self) -> (r: usize)
        requires
            self.wf(),
        ensures
            r == self@.total(),
    {
        self.total_bytes
    }

    /// The ids of all images, least recently used first.
    pub fn all_image_ids(&self) -> (r: Vec<u32>)
        requires
            self.wf(),
        ensures
            r@ == image_ids(self@.images),
    {
        let mut ids: Vec<u32> = Vec::new();
        let mut i: usize = 0;
        while i < self.images.len()
            invariant
                i <= self.images.len(),
                ids@ == image_ids(self@.images.take(i as int)),
            decreases self.images.len() - i,
        {
            ids.push(self.images[i].id);
            i = i + 1;
            assert(ids@ =~= image_ids(self@.images.take(i as int)));
        }
        assert(self@.images.take(i as int) =~= self@.images);
        ids
    }

    /// Set the memory limit in bytes.
    pub fn set_max_memory(&mut self, max_bytes: usize)
        requires
            old(self).wf(),
        ensures
            final(self).wf(),
            final(self)@ == (StoreView { max_memory: max_bytes as nat, ..old(self)@ }),
            final(self)@.auto_ids() == old(self)@.auto_ids(),
    {
        self.max_memory = max_bytes;
    }

    /// The memory limit in bytes.
    pub fn max_memory_bytes(&self) -> (r: usize)
        requires
            self.wf(),
        ensures
            r == self@.max_memory,
    {
        self.max_memory
    }

    /// Whether the bytes held exceed the memory limit.
    pub fn is_over_limit(&self) -> (r: bool)
        requires
            self.wf(),
        ensures
            r == (self@.total() > self@.max_memory),
    {
        self.total_bytes > self.max_memory
    }

    /// Evict least recently used images until the store fits its memory
    /// limit; returns the evicted ids in eviction order.
    pub fn evict_lru_if_needed(&mut self) -> (r: Vec<u32>)
        requires
            old(self).wf(),
        ensures
            final(self).wf(),
            final(self)@ == old(self)@.evicted(),
            r@ == old(self)@.eviction_ids(),
            final(self)@.auto_ids() == old(self)@.auto_ids(),
    {
        let ghost start = self@;
        let ghost max = self@.max_memory;
        let mut evicted: Vec<u32> = Vec::new();
        while self.total_bytes > self.max_memory && self.images.len() > 0
            invariant
                self.wf(),
                self@.max_memory == max,
                self@.next_auto_id == start.next_auto_id,
                evicted.len() <= start.images.len(),
                self@.images == start.images.skip(evicted.len() as int),
                evicted@ == image_ids(start.images.take(evicted.len() as int)),
                evict_count(start.images, max) == evicted.len() + evict_count(self@.images, max),
            decreases self.images.len(),
        {
            let ghost before = self@;
            let ghost before_images = self.images@;
            let image = self.images.remove(0);
            proof {
                self.lemma_view_remove(before_images, 0);
                lemma_memory_element(before.images, 0);
                lemma_memory_remove(before.images, 0);
                lemma_remove_distinct(before.images, 0);
            }
            let freed = image.memory_bytes();
            self.total_bytes = self.total_bytes - freed;
            evicted.push(image.id);
            proof {
                assert(before.images.remove(0) =~= before.images.drop_first());
                assert(self@.images =~= start.images.skip(evicted.len() as int));
                assert(start.images.take(evicted.len() as int) =~= start.images.take(
                    evicted.len() - 1,
                ).push(before.images[0]));
                assert(evicted@ =~= image_ids(start.images.take(evicted.len() as int)));
            }
        }
        evicted
    }
}

/// What a store is asked to keep, it gives back: after storing `data`
/// under `id`, the image under the id it was given is the data with the
/// requested format and nothing else; every other image is as it was; ids
/// stay distinct and the byte count stays countable.
pub proof fn lemma_store_then_get(s: StoreView, id: Option<u32>, format: ImageFormat, data: Seq<u8>)
    requires
        s.valid(),
        s.can_store(id, data.len()),
    ensures
        s.stored(id, format, data).valid(),
        lookup(s.stored(id, format, data).images, assigned_id(s.next_auto_id, id)) == Some(
            ImageView::fresh(assigned_id(s.next_auto_id, id), format, data),
        ),
        forall|other: u32|
            other != assigned_id(s.next_auto_id, id) ==> #[trigger] lookup(
                s.stored(id, format, data).images,
                other,
            ) == lookup(s.images, other),
        s.stored(id, format, data).total() == images_memory(
            without(s.images, assigned_id(s.next_auto_id, id)),
        ) + data.len(),
{
    let n = assigned_id(s.next_auto_id, id);
    let img = ImageView::fresh(n, format, data);
    let w = without(s.images, n);
    if contains_id(s.images, n) {
        lemma_remove_distinct(s.images, position_of(s.images, n));
    }
    let t = w.push(img);
    lemma_push_distinct(w, img);
    lemma_memory_push(w, img);
    assert(frames_bytes(img.frames) == 0) by {
        assert(frame_sizes(img.frames) =~= Seq::<nat>::empty());
    }
    lemma_lookup_at(t, w.len() as int);
    assert forall|other: u32| other != n implies #[trigger] lookup(t, other) == lookup(
        s.images,
        other,
    ) by {
        if contains_id(s.images, other) {
            let i = position_of(s.images, other);
            lemma_lookup_at(s.images, i);
            let j = if contains_id(s.images, n) && position_of(s.images, n) < i {
                i - 1
            } else {
                i
            };
            assert(t[j] == s.images[i]);
            lemma_lookup_at(t, j);
        }
        if contains_id(t, other) {
            let j = choose|j: int| 0 <= j < t.len() && t[j].id == other;
            if contains_id(s.images, n) {
                let p = position_of(s.images, n);
                let i = if j < p {
                    j
                } else {
                    j + 1
                };
                assert(s.images[i] == t[j]);
            } else {
                assert(s.images[j] == t[j]);
            }
        }
    }
}

/// An image appended under a new id is found under it, and every other id
/// finds what it found before.
pub proof fn lemma_push_lookup(images: Seq<ImageView>, img: ImageView)
    requires
        distinct_ids(images),
        !contains_id(images, img.id),
    ensures
        distinct_ids(images.push(img)),
        lookup(images.push(img), img.id) == Some(img),
        forall|other: u32|
            other != img.id ==> #[trigger] lookup(images.push(img), other) == lookup(images, other),
{
    let t = images.push(img);
    lemma_push_distinct(images, img);
    lemma_lookup_at(t, images.len() as int);
    assert forall|other: u32| other != img.id implies #[trigger] lookup(t, other) == lookup(images, other) by {
        if contains_id(images, other) {
            let i = position_of(images, other);
            lemma_lookup_at(images, i);
            assert(t[i] == images[i]);
            lemma_lookup_at(t, i);
        }
        if contains_id(t, other) {
            let j = choose|j: int| 0 <= j < t.len() && t[j].id == other;
            assert(images[j] == t[j]);
        }
    }
}

/// Replacing the image of one id leaves what every other id finds.
pub proof fn lemma_replace_keeps_others(images: Seq<ImageView>, id: u32, img: ImageView)
    requires
        distinct_ids(images),
        contains_id(images, id),
        img.id == id,
    ensures
        forall|other: u32|
            other != id ==> #[trigger] lookup(replace_image(images, id, img), other) == lookup(
                images,
                other,
            ),
{
    let p = position_of(images, id);
    lemma_replace_keeps_lookup(images, id, img);
    let t = images.update(p, img);
    assert forall|other: u32| other != id implies #[trigger] lookup(t, other) == lookup(images, other) by {
        if contains_id(images, other) {
            let i = position_of(images, other);
            lemma_lookup_at(images, i);
            assert(t[i] == images[i]);
            lemma_lookup_at(t, i);
        }
        if contains_id(t, other) {
            let j = choose|j: int| 0 <= j < t.len() && t[j].id == other;
            assert(images[j] == t[j]);
        }
    }
}

/// Pruning depth `z` keeps ids distinct and adds none; each image is found
/// afterwards stripped of its placements at that depth, unless that left
/// it with none, in which case it is gone.
pub proof fn lemma_z_pruned_lookup(images: Seq<ImageView>, z: i32, id: u32)
    requires
        distinct_ids(images),
    ensures
        distinct_ids(z_pruned(images, z)),
        forall|k: u32| #[trigger] contains_id(z_pruned(images, z), k) ==> contains_id(images, k),
        lookup(z_pruned(images, z), id) == match lookup(images, id) {
            Some(img) => if z_emptied(img, z) {
                None
            } else {
                Some(z_stripped(img, z))
            },
            None => None::<ImageView>,
        },
        z_emptied_ids(images, z).contains(id) <==> (contains_id(images, id) && z_emptied(
            lookup(images, id)->Some_0,
            z,
        )),
    decreases images.len(),
{
    if images.len() == 0 {
        assert(z_pruned(images, z) =~= Seq::<ImageView>::empty());
    } else {
        let init = images.drop_last();
        let last = images.last();
        assert(init.push(last) =~= images);
        assert(distinct_ids(init)) by {
            assert forall|a: int, b: int|
                #![trigger init[a].id, init[b].id]
                0 <= a < init.len() && 0 <= b < init.len() && init[a].id == init[b].id implies a == b by {
                assert(images[a].id == init[a].id && images[b].id == init[b].id);
            }
        }
        assert(!contains_id(init, last.id)) by {
            if contains_id(init, last.id) {
                let j = choose|j: int| 0 <= j < init.len() && init[j].id == last.id;
                assert(images[j].id == images[images.len() - 1].id);
            }
        }
        lemma_z_pruned_lookup(init, z, id);
        lemma_push_lookup(init, last);
        let rest = z_pruned(init, z);
        assert(!contains_id(rest, last.id));
        let ids = z_emptied_ids(init, z);
        if id == last.id {
            assert(!ids.contains(id));
        }
        if z_emptied(last, z) {
            assert(z_emptied_ids(images, z) == ids.push(last.id));
            assert(ids.push(last.id).contains(id) <==> (ids.contains(id) || id == last.id)) by {
                if ids.push(last.id).contains(id) {
                    let j = choose|j: int| 0 <= j < ids.push(last.id).len() && ids.push(last.id)[j] == id;
                    if j < ids.len() {
                        assert(ids[j] == id);
                    }
                }
                if ids.contains(id) {
                    let j = choose|j: int| 0 <= j < ids.len() && ids[j] == id;
                    assert(ids.push(last.id)[j] == id);
                }
                if id == last.id {
                    assert(ids.push(last.id)[ids.len() as int] == id);
                }
            }
        } else {
            assert(z_emptied_ids(images, z) == ids);
        }
        if z_emptied(last, z) {
            assert(z_pruned(images, z) == rest);
            assert forall|k: u32| #[trigger] contains_id(rest, k) implies contains_id(images, k) by {
                lemma_z_pruned_lookup(init, z, k);
                let j = choose|j: int| 0 <= j < init.len() && init[j].id == k;
                assert(images[j].id == k);
            }
        } else {
            let st = z_stripped(last, z);
            assert(z_pruned(images, z) == rest.push(st));
            lemma_push_lookup(rest, st);
            assert forall|k: u32| #[trigger] contains_id(rest.push(st), k) implies contains_id(images, k) by {
                let j = choose|j: int| 0 <= j < rest.push(st).len() && rest.push(st)[j].id == k;
                if j < rest.len() {
                    assert(rest[j].id == k);
                    assert(contains_id(rest, k));
                    lemma_z_pruned_lookup(init, z, k);
                    let i = choose|i: int| 0 <= i < init.len() && init[i].id == k;
                    assert(images[i].id == k);
                } else {
                    assert(images[images.len() - 1].id == k);
                }
            }
        }
    }
}

/// What is removed is gone, and nothing else changes.
pub proof fn lemma_remove_then_get(s: StoreView, id: u32)
    requires
        s.valid(),
    ensures
        !contains_id(without(s.images, id), id),
        forall|other: u32|
            other != id ==> #[trigger] lookup(without(s.images, id), other) == lookup(s.images, other),
{
    if contains_id(s.images, id) {
        let p = position_of(s.images, id);
        lemma_remove_distinct(s.images, p);
        let w = s.images.remove(p);
        assert forall|other: u32| other != id implies #[trigger] lookup(w, other) == lookup(
            s.images,
            other,
        ) by {
            if contains_id(s.images, other) {
                let i = position_of(s.images, other);
                lemma_lookup_at(s.images, i);
                let j = if p < i {
                    i - 1
                } else {
                    i
                };
                assert(w[j] == s.images[i]);
                lemma_lookup_at(w, j);
            }
            if contains_id(w, other) {
                let j = choose|j: int| 0 <= j < w.len() && w[j].id == other;
                let i = if j < p {
                    j
                } else {
                    j + 1
                };
                assert(s.images[i] == w[j]);
            }
        }
    }
}

/// After eviction the store fits its memory limit; a store within its
/// limit evicts nothing; what goes is the least recently used images,
/// oldest first; and no more goes than needed: keeping the last image
/// evicted would leave the store over its limit.
pub proof fn lemma_eviction_fits(s: StoreView)
    ensures
        evict_count(s.images, s.max_memory) <= s.images.len(),
        s.evicted().total() <= s.max_memory,
        s.total() <= s.max_memory ==> s.evicted() == s && s.eviction_ids().len() == 0,
        s.images.take(evict_count(s.images, s.max_memory) as int) + s.evicted().images == s.images,
        evict_count(s.images, s.max_memory) > 0 ==> images_memory(
            s.images.skip(evict_count(s.images, s.max_memory) - 1),
        ) > s.max_memory,
    decreases s.images.len(),
{
    let c = evict_count(s.images, s.max_memory);
    if s.images.len() == 0 || images_memory(s.images) <= s.max_memory {
        assert(s.images.skip(0) =~= s.images);
        assert(s.images.take(0) =~= Seq::<ImageView>::empty());
        assert(image_ids(s.images.take(0)) =~= Seq::<u32>::empty());
    } else {
        let rest = s.with_images(s.images.drop_first());
        lemma_eviction_fits(rest);
        assert(s.images.skip(c as int) =~= rest.images.skip(
            evict_count(rest.images, s.max_memory) as int,
        ));
        if evict_count(rest.images, s.max_memory) == 0 {
            assert(s.images.skip(0) =~= s.images);
        } else {
            assert(s.images.skip(c - 1) =~= rest.images.skip(
                evict_count(rest.images, s.max_memory) - 1,
            ));
        }
    }
    assert(s.images.take(c as int) + s.images.skip(c as int) =~= s.images);
}

/// Automatic ids are never 0, and two automatic ids in a row differ.
pub proof fn lemma_auto_ids_fresh(s: StoreView, format: ImageFormat, data: Seq<u8>)
    requires
        s.next_auto_id < u32::MAX,
    ensures
        assigned_id(s.next_auto_id, None) > 0,
        s.stored(None, format, data).next_auto_id < u32::MAX ==> assigned_id(
            s.stored(None, format, data).next_auto_id,
            None,
        ) != assigned_id(s.next_auto_id, None),
{
}

/// The store and the ids given after a run of `store` requests, in order.
pub open spec fn store_run(s: StoreView, reqs: Seq<(Option<u32>, ImageFormat, Seq<u8>)>) -> (
    StoreView,
    Seq<u32>,
)
    decreases reqs.len(),
{
    if reqs.len() == 0 {
        (s, Seq::empty())
    } else {
        let (t, ids) = store_run(s, reqs.drop_last());
        let (id, format, data) = reqs.last();
        (t.stored(id, format, data), ids.push(assigned_id(t.next_auto_id, id)))
    }
}

/// How many requests of a run ask for an automatic id.
pub open spec fn auto_count(reqs: Seq<(Option<u32>, ImageFormat, Seq<u8>)>) -> nat
    decreases reqs.len(),
{
    if reqs.len() == 0 {
        0
    } else {
        auto_count(reqs.drop_last()) + if is_auto_id(reqs.last().0) {
            1nat
        } else {
            0nat
        }
    }
}

/// Over any run of `store` requests that does not use up the automatic ids,
/// a named id is kept as it is, every automatic id is above the counter the
/// run started from (so never 0), and each automatic id is greater than,
/// and so differs from, every automatic id given before it.
pub proof fn lemma_auto_ids_increase(s: StoreView, reqs: Seq<(Option<u32>, ImageFormat, Seq<u8>)>)
    requires
        s.next_auto_id + auto_count(reqs) <= u32::MAX,
    ensures
        store_run(s, reqs).1.len() == reqs.len(),
        store_run(s, reqs).0.next_auto_id == s.next_auto_id + auto_count(reqs),
        forall|i: int|
            0 <= i < reqs.len() && !is_auto_id(#[trigger] reqs[i].0) ==> store_run(s, reqs).1[i]
                == reqs[i].0->Some_0,
        forall|i: int|
            0 <= i < reqs.len() && is_auto_id(#[trigger] reqs[i].0) ==> s.next_auto_id
                < store_run(s, reqs).1[i] <= store_run(s, reqs).0.next_auto_id,
        forall|i: int, j: int|
            0 <= i < j < reqs.len() && is_auto_id(#[trigger] reqs[i].0) && is_auto_id(
                #[trigger] reqs[j].0,
            ) ==> store_run(s, reqs).1[i] < store_run(s, reqs).1[j],
    decreases reqs.len(),
{
    if reqs.len() > 0 {
        let prev = reqs.drop_last();
        lemma_auto_ids_increase(s, prev);
        let (t, ids) = store_run(s, prev);
        let (u, all) = store_run(s, reqs);
        assert(all == ids.push(assigned_id(t.next_auto_id, reqs.last().0)));
        assert forall|i: int| 0 <= i < prev.len() implies #[trigger] prev[i] == reqs[i] by {}
        assert forall|i: int|
            0 <= i < reqs.len() && is_auto_id(#[trigger] reqs[i].0) implies s.next_auto_id < all[i]
            <= u.next_auto_id by {
            if i < prev.len() {
                assert(prev[i] == reqs[i]);
            }
        }
        assert forall|i: int, j: int|
            0 <= i < j < reqs.len() && is_auto_id(#[trigger] reqs[i].0) && is_auto_id(
                #[trigger] reqs[j].0,
            ) implies all[i] < all[j] by {
            assert(prev[i] == reqs[i]);
            if j < prev.len() {
                assert(prev[j] == reqs[j]);
            }
        }
        assert forall|i: int| 0 <= i < reqs.len() && !is_auto_id(#[trigger] reqs[i].0) implies all[i]
            == reqs[i].0->Some_0 by {
            if i < prev.len() {
                assert(prev[i] == reqs[i]);
            }
        }
    }
}

} // verus!
