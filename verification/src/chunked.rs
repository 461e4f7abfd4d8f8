//! Chunked transmission assembly for Kitty graphics protocol.
//!
//! Large images are sent across multiple APC commands using the `m` key:
//! - `m=1` means more chunks follow
//! - `m=0` means this is the final chunk
//!
//! Chunks are raw base64 text that must be concatenated BEFORE decoding.

use std::collections::HashMap;
use std::time::{Duration, Instant};

use vstd::prelude::*;
use vstd::slice::slice_to_vec;
use vstd::std_specs::hash::spec_hash_map_iter;
use vstd::std_specs::iter::IteratorSpec;

use crate::command::{CommandView, KittyCommand};
use crate::encoding::push_all;
use crate::store::is_auto_id;

verus! {

broadcast use vstd::std_specs::hash::group_hash_axioms;

/// `std::time::Instant`, opaque here: the creation time of a pending
/// transmission.
#[verifier::external_type_specification]
#[verifier::external_body]
pub struct ExInstant(Instant);

/// Calls `Instant::now`. Trusted; nothing is stated of the instant it gives.
#[verifier::external_body]
fn instant_now() -> Instant {
    Instant::now()
}

/// Calls `Instant::duration_since`. Trusted; nothing is stated of the span,
/// which depends on the clock.
#[verifier::external_body]
fn duration_since(now: &Instant, earlier: &Instant) -> Duration {
    now.duration_since(*earlier)
}

/// Calls `Duration::as_secs`. Trusted; a `Duration` is opaque here, so
/// nothing is stated of the whole seconds it gives.
#[verifier::external_body]
fn whole_secs(d: &Duration) -> u64 {
    d.as_secs()
}

/// Result of adding a chunk to the assembler.
#[derive(Debug)]
pub enum ChunkResult {
    /// More chunks expected for this transmission.
    Buffered,
    /// All chunks assembled — raw concatenated bytes ready for base64 decode.
    /// Returns (first_command, assembled_payload).
    /// first_command contains metadata from the first chunk; use its fields
    /// for format, compression, etc. The payload has been assembled from all chunks.
    Complete(Option<KittyCommand>, Vec<u8>),
}

/// Mathematical value of a chunk result.
pub enum ChunkResultView {
    Buffered,
    Complete(Option<CommandView>, Seq<u8>),
}

/// The view of an optional command.
pub open spec fn command_view(c: Option<KittyCommand>) -> Option<CommandView> {
    match c {
        Some(c) => Some(c@),
        None => None,
    }
}

impl View for ChunkResult {
    type V = ChunkResultView;

    open spec fn view(&self) -> ChunkResultView {
        match self {
            ChunkResult::Buffered => ChunkResultView::Buffered,
            ChunkResult::Complete(c, v) => ChunkResultView::Complete(command_view(*c), v@),
        }
    }
}

/// In-progress transmission being assembled from multiple chunks.
#[derive(Debug)]
pub struct PendingTransmission {
    pub image_id: Option<u32>,
    /// Metadata from the first chunk (format, compression, etc.).
    pub first_command: Option<KittyCommand>,
    /// Raw base64 chunks (NOT decoded), in arrival order.
    pub chunks: Vec<Vec<u8>>,
    pub created_at: Instant,
}

/// Mathematical value of a pending transmission (its creation time aside).
pub struct PendingView {
    pub image_id: Option<u32>,
    pub first_command: Option<CommandView>,
    pub chunks: Seq<Seq<u8>>,
}

impl View for PendingTransmission {
    type V = PendingView;

    open spec fn view(&self) -> PendingView {
        PendingView {
            image_id: self.image_id,
            first_command: command_view(self.first_command),
            chunks: self.chunks@.map_values(|c: Vec<u8>| c@),
        }
    }
}

impl Clone for PendingTransmission {
    fn clone(&self) -> (r: Self)
        ensures
            r@ == self@,
            r.created_at == self.created_at,
    {
        let first_command = match &self.first_command {
            Some(c) => Some(c.duplicate()),
            None => None,
        };
        let mut chunks: Vec<Vec<u8>> = Vec::new();
        let mut i: usize = 0;
        while i < self.chunks.len()
            invariant
                i <= self.chunks.len(),
                chunks@.map_values(|c: Vec<u8>| c@) == self.chunks@.map_values(|c: Vec<u8>| c@).take(
                    i as int,
                ),
            decreases self.chunks.len() - i,
        {
            let copy = slice_to_vec(self.chunks[i].as_slice());
            assert(copy@ == self.chunks@[i as int]@);
            let ghost prev = chunks@;
            chunks.push(copy);
            assert(chunks@ == prev.push(copy));
            assert(chunks@.map_values(|c: Vec<u8>| c@) =~= prev.map_values(|c: Vec<u8>| c@).push(copy@));
            i = i + 1;
            assert(chunks@.map_values(|c: Vec<u8>| c@) =~= self.chunks@.map_values(|c: Vec<u8>| c@).take(
                i as int,
            ));
        }
        assert(self.chunks@.map_values(|c: Vec<u8>| c@).take(i as int) =~= self.chunks@.map_values(
            |c: Vec<u8>| c@,
        ));
        PendingTransmission {
            image_id: self.image_id,
            first_command,
            chunks,
            created_at: self.created_at,
        }
    }
}

/// Manages assembly of multi-chunk image transmissions.
///
/// Each transmission is keyed by `image_id`. When `image_id` is `None` or `0`,
/// a temporary internal ID is assigned so chunks can still be grouped.
pub struct ChunkAssembler {
    pending: HashMap<u32, PendingTransmission>,
    next_temp_id: u32,
}

impl Clone for ChunkAssembler {
    fn clone(&self) -> (r: Self)
        ensures
            r@ == self@,
    {
        ChunkAssembler { pending: self.pending.clone(), next_temp_id: self.next_temp_id }
    }
}

/// Mathematical value of an assembler: transmissions by key, and the next
/// temporary key.
pub struct AssemblerView {
    pub pending: Map<u32, PendingView>,
    pub next_temp_id: u32,
}

impl View for ChunkAssembler {
    type V = AssemblerView;

    closed spec fn view(&self) -> AssemblerView {
        AssemblerView {
            pending: self.pending@.map_values(|p: PendingTransmission| p@),
            next_temp_id: self.next_temp_id,
        }
    }
}

/// The temporary key of a fresh assembler: half of the `u32` range, above
/// the ids images usually get.
pub open spec fn first_temp_id() -> u32 {
    0x7fff_ffff
}

impl AssemblerView {
    /// The transmission under key `k` was started without an image id.
    pub open spec fn anonymous_at(self, k: u32) -> bool {
        self.pending.contains_key(k) && is_auto_id(self.pending[k].image_id)
    }

    /// Some transmission was started without an image id.
    pub open spec fn has_anonymous(self) -> bool {
        exists|k: u32| #[trigger] self.anonymous_at(k)
    }

    /// Finitely many transmissions are in progress, and at most one of them
    /// was started without an image id.
    pub open spec fn valid(self) -> bool {
        &&& self.pending.dom().finite()
        &&& forall|a: u32, b: u32| #[trigger]
            self.anonymous_at(a) && #[trigger] self.anonymous_at(b) ==> a == b
    }

    /// The key a chunk for `image_id` is filed under: the id itself, else the
    /// transmission already in progress without an id, else a fresh
    /// temporary key.
    pub open spec fn key_for(self, image_id: Option<u32>) -> u32 {
        match image_id {
            Some(id) if id != 0 => id,
            _ => if self.has_anonymous() {
                choose|k: u32| #[trigger] self.anonymous_at(k)
            } else {
                self.next_temp_id
            },
        }
    }

    /// The assembler after filing a chunk for `image_id`: a fresh temporary
    /// key is used up, wrapping around.
    pub open spec fn keyed(self, image_id: Option<u32>) -> AssemblerView {
        if is_auto_id(image_id) && !self.has_anonymous() {
            AssemblerView { next_temp_id: (self.next_temp_id + 1) as u32, ..self }
        } else {
            self
        }
    }

    /// The assembler after `add_chunk(cmd, data, more)`, and what it returns.
    pub open spec fn added(self, cmd: CommandView, data: Seq<u8>, more: bool) -> (
        AssemblerView,
        ChunkResultView,
    ) {
        let key = self.key_for(cmd.image_id);
        let a = self.keyed(cmd.image_id);
        if more {
            let entry = if a.pending.contains_key(key) {
                let p = a.pending[key];
                PendingView {
                    first_command: if p.first_command is None {
                        Some(cmd)
                    } else {
                        p.first_command
                    },
                    chunks: p.chunks.push(data),
                    ..p
                }
            } else {
                PendingView { image_id: cmd.image_id, first_command: Some(cmd), chunks: seq![data] }
            };
            (AssemblerView { pending: a.pending.insert(key, entry), ..a }, ChunkResultView::Buffered)
        } else if a.pending.contains_key(key) {
            let p = a.pending[key];
            (
                AssemblerView { pending: a.pending.remove(key), ..a },
                ChunkResultView::Complete(p.first_command, p.chunks.flatten() + data),
            )
        } else {
            (a, ChunkResultView::Complete(None, data))
        }
    }
}

/// The keys that a list of (key, age in whole seconds) marks as stale: aged
/// `timeout_secs` or more.
pub open spec fn stale_keys(ages: Seq<(u32, u64)>, timeout_secs: u64) -> Set<u32> {
    Set::new(
        |k: u32|
            exists|i: int| 0 <= i < ages.len() && (#[trigger] ages[i]).0 == k && ages[i].1 >= timeout_secs,
    )
}

impl ChunkAssembler {
    /// At most one transmission without an image id is in progress.
    pub closed spec fn wf(&self) -> bool {
        self@.valid()
    }

    /// A well-formed assembler has a valid view.
    pub proof fn lemma_wf_valid(&self)
        requires
            self.wf(),
        ensures
            self@.valid(),
    {
    }

    /// When the transmission under key `k` started.
    pub closed spec fn started(&self, k: u32) -> Instant {
        self.pending@[k].created_at
    }

    /// Every transmission in progress in both `self` and `other` started at
    /// the same time in both.
    pub open spec fn same_start_times(&self, other: &Self) -> bool {
        forall|k: u32|
            self@.pending.contains_key(k) && other@.pending.contains_key(k) ==> #[trigger] self.started(
                k,
            ) == other.started(k)
    }

    /// An assembler with nothing pending.
    pub fn new() -> (r: Self)
        ensures
            r.wf(),
            r@.pending == Map::<u32, PendingView>::empty(),
            r@.next_temp_id == first_temp_id(),
    {
        let r = ChunkAssembler { pending: HashMap::new(), next_temp_id: 0x7fff_ffff };
        assert(r@.pending =~= Map::<u32, PendingView>::empty());
        r
    }

    /// Resolve an image_id into a HashMap key.
    /// `None` or `Some(0)` gets a temporary internal ID.
    fn resolve_key(&mut self, image_id: Option<u32>) -> (r: u32)
        requires
            old(self).wf(),
        ensures
            final(self).wf(),
            r == old(self)@.key_for(image_id),
            final(self)@ == old(self)@.keyed(image_id),
            final(self).pending == old(self).pending,
    {
        match image_id {
            Some(id) if id != 0 => {
                return id;
            },
            _ => {},
        }
        let ghost v = spec_hash_map_iter(&self.pending).remaining();
        for entry in it: self.pending.iter()
            invariant
                it.seq() == v,
                v == spec_hash_map_iter(&self.pending).remaining(),
                self.wf(),
                self@ == old(self)@,
                is_auto_id(image_id),
                forall|i: int| 0 <= i < it.index() ==> !is_auto_id((*#[trigger] v[i].1).image_id),
        {
            let (k, p) = entry;
            let anonymous = match p.image_id {
                Some(x) => x == 0,
                None => true,
            };
            if anonymous {
                proof {
                    assert(self@.anonymous_at(*k));
                    let c = choose|c: u32| #[trigger] self@.anonymous_at(c);
                    assert(self@.anonymous_at(c));
                    assert(c == *k);
                }
                return *k;
            }
        }
        proof {
            assert forall|k: u32| !#[trigger] self@.anonymous_at(k) by {
                if self.pending@.contains_key(k) {
                    assert(v.contains((&k, &self.pending@[k])));
                    let i = choose|i: int| 0 <= i < v.len() && v[i] == (&k, &self.pending@[k]);
                    assert(!is_auto_id((*v[i].1).image_id));
                }
            }
        }
        let id = self.next_temp_id;
        self.next_temp_id = self.next_temp_id.wrapping_add(1);
        proof {
            assert(id == 0xffff_ffffu32 ==> (id + 1) as u32 == 0u32) by (bit_vector);
            assert(self@.pending == old(self)@.pending);
            assert forall|a: u32, b: u32| #[trigger]
                self@.anonymous_at(a) && #[trigger] self@.anonymous_at(b) implies a == b by {
                assert(old(self)@.anonymous_at(a) && old(self)@.anonymous_at(b));
            }
        }
        id
    }

    /// Add a chunk to the assembler.
    ///
    /// - `cmd`: The full command from this chunk (metadata preserved from first chunk).
    /// - `chunk_data`: Raw base64 bytes from the APC payload.
    /// - `more`: `true` if `m=1` (more chunks follow), `false` if `m=0` (final chunk).
    ///
    /// Returns `ChunkResult::Buffered` when more chunks are expected, or
    /// `ChunkResult::Complete(first_cmd, data)` with the first chunk's command and concatenated payload.
    pub fn add_chunk(&mut self, cmd: &KittyCommand, chunk_data: &[u8], more: bool) -> (r:
        ChunkResult)
        requires
            old(self).wf(),
        ensures
            final(self).wf(),
            (final(self)@, r@) == old(self)@.added(cmd@, chunk_data@, more),
            final(self).same_start_times(&*old(self)),
    {
        let key = self.resolve_key(cmd.image_id);
        let ghost keyed = self@;
        let ghost raw = self.pending@;
        if more {
            let entry = match self.pending.remove(&key) {
                Some(mut p) => {
                    if p.first_command.is_none() {
                        p.first_command = Some(cmd.duplicate());
                    }
                    let ghost before = p.chunks@;
                    p.chunks.push(slice_to_vec(chunk_data));
                    proof {
                        assert(p.chunks@.map_values(|c: Vec<u8>| c@) =~= before.map_values(
                            |c: Vec<u8>| c@,
                        ).push(chunk_data@));
                    }
                    p
                },
                None => {
                    let chunks = vec![slice_to_vec(chunk_data)];
                    assert(chunks@.map_values(|c: Vec<u8>| c@) =~= seq![chunk_data@]);
                    PendingTransmission {
                        image_id: cmd.image_id,
                        first_command: Some(cmd.duplicate()),
                        chunks,
                        created_at: instant_now(),
                    }
                },
            };
            let ghost entry_view = entry@;
            self.pending.insert(key, entry);
            proof {
                assert(self.pending@ == raw.insert(key, entry));
                assert(self@.pending =~= keyed.pending.insert(key, entry_view));
                assert forall|a: u32, b: u32| #[trigger]
                    self@.anonymous_at(a) && #[trigger] self@.anonymous_at(b) implies a == b by {
                    assert(keyed.pending == old(self)@.pending);
                    if a != key {
                        assert(keyed.anonymous_at(a));
                        assert(old(self)@.anonymous_at(a));
                    }
                    if b != key {
                        assert(keyed.anonymous_at(b));
                        assert(old(self)@.anonymous_at(b));
                    }
                    if keyed.pending.contains_key(key) {
                        if a == key {
                            assert(keyed.anonymous_at(a));
                        }
                        if b == key {
                            assert(keyed.anonymous_at(b));
                        }
                    } else if a != b {
                        assert(old(self)@.has_anonymous());
                        let c = choose|c: u32| #[trigger] old(self)@.anonymous_at(c);
                        assert(old(self)@.anonymous_at(c));
                    }
                }
            }
            ChunkResult::Buffered
        } else {
            match self.pending.remove(&key) {
                Some(p) => {
                    let mut buf: Vec<u8> = Vec::new();
                    let ghost chunks = p@.chunks;
                    let mut i: usize = 0;
                    while i < p.chunks.len()
                        invariant
                            i <= p.chunks.len(),
                            chunks == p.chunks@.map_values(|c: Vec<u8>| c@),
                            buf@ == chunks.take(i as int).flatten(),
                        decreases p.chunks.len() - i,
                    {
                        push_all(&mut buf, p.chunks[i].as_slice());
                        proof {
                            assert(chunks.take(i + 1) =~= chunks.take(i as int).push(chunks[i as int]));
                            chunks.take(i as int).lemma_flatten_push(chunks[i as int]);
                        }
                        i = i + 1;
                    }
                    assert(chunks.take(i as int) =~= chunks);
                    push_all(&mut buf, chunk_data);
                    proof {
                        assert(self@.pending =~= keyed.pending.remove(key));
                        assert forall|a: u32, b: u32| #[trigger]
                            self@.anonymous_at(a) && #[trigger] self@.anonymous_at(b) implies a
                            == b by {
                            assert(keyed.anonymous_at(a) && keyed.anonymous_at(b));
                        }
                    }
                    ChunkResult::Complete(p.first_command, buf)
                },
                None => {
                    proof {
                        assert(self@.pending =~= keyed.pending);
                    }
                    ChunkResult::Complete(None, slice_to_vec(chunk_data))
                },
            }
        }
    }

    /// Drop the transmissions that `ages` lists as aged `timeout_secs` whole
    /// seconds or more; the others stay as they are.
    pub fn remove_stale(&mut self, ages: &[(u32, u64)], timeout_secs: u64)
        requires
            old(self).wf(),
        ensures
            final(self).wf(),
            final(self)@ == (AssemblerView {
                pending: old(self)@.pending.remove_keys(stale_keys(ages@, timeout_secs)),
                ..old(self)@
            }),
            final(self).same_start_times(&*old(self)),
    {
        let mut i: usize = 0;
        proof {
            assert(stale_keys(ages@.take(0), timeout_secs) =~= Set::<u32>::empty());
            assert(old(self)@.pending.remove_keys(Set::<u32>::empty()) =~= old(self)@.pending);
        }
        while i < ages.len()
            invariant
                i <= ages@.len(),
                old(self).wf(),
                self.pending@.submap_of(old(self).pending@),
                self@ == (AssemblerView {
                    pending: old(self)@.pending.remove_keys(
                        stale_keys(ages@.take(i as int), timeout_secs),
                    ),
                    ..old(self)@
                }),
            decreases ages.len() - i,
        {
            let (k, age) = ages[i];
            let ghost before = self@;
            let ghost raw = self.pending@;
            if age >= timeout_secs {
                self.pending.remove(&k);
                assert(self@.pending =~= before.pending.remove(k));
            }
            proof {
                let s0 = stale_keys(ages@.take(i as int), timeout_secs);
                let s1 = stale_keys(ages@.take(i + 1), timeout_secs);
                assert forall|x: u32| s1.contains(x) <==> (s0.contains(x) || (x == k && age
                    >= timeout_secs)) by {
                    if s1.contains(x) {
                        let j = choose|j: int|
                            0 <= j < i + 1 && (#[trigger] ages@.take(i + 1)[j]).0 == x && ages@.take(
                                i + 1,
                            )[j].1 >= timeout_secs;
                        if j < i {
                            assert(ages@.take(i as int)[j] == ages@.take(i + 1)[j]);
                        }
                    }
                    if s0.contains(x) {
                        let j = choose|j: int|
                            0 <= j < i && (#[trigger] ages@.take(i as int)[j]).0 == x && ages@.take(
                                i as int,
                            )[j].1 >= timeout_secs;
                        assert(ages@.take(i + 1)[j] == ages@.take(i as int)[j]);
                    }
                    if x == k && age >= timeout_secs {
                        assert(ages@.take(i + 1)[i as int] == ages@[i as int]);
                    }
                }
                assert(self@.pending =~= old(self)@.pending.remove_keys(s1));
            }
            i = i + 1;
        }
        assert(ages@.take(i as int) =~= ages@);
        proof {
            assert(self@.pending.dom() =~= self.pending@.dom());
            assert forall|a: u32, b: u32| #[trigger]
                self@.anonymous_at(a) && #[trigger] self@.anonymous_at(b) implies a == b by {
                assert(old(self)@.anonymous_at(a) && old(self)@.anonymous_at(b));
            }
        }
    }

    /// Remove transmissions older than `timeout_secs` seconds.
    ///
    /// Every entry that stays is unchanged; with a timeout of zero every
    /// entry goes. Which others go depends on the clock.
    pub fn cleanup_stale(&mut self, timeout_secs: u64)
        requires
            old(self).wf(),
        ensures
            final(self).wf(),
            final(self)@.next_temp_id == old(self)@.next_temp_id,
            final(self)@.pending.submap_of(old(self)@.pending),
            final(self).same_start_times(&*old(self)),
            timeout_secs == 0 ==> final(self)@.pending.len() == 0,
    {
        let now = instant_now();
        let mut ages: Vec<(u32, u64)> = Vec::new();
        let ghost v = spec_hash_map_iter(&self.pending).remaining();
        for entry in it: self.pending.iter()
            invariant
                it.seq() == v,
                v == spec_hash_map_iter(&self.pending).remaining(),
                ages@.len() == it.index(),
                forall|i: int| 0 <= i < it.index() ==> (#[trigger] ages@[i]).0 == *v[i].0,
        {
            let (k, p) = entry;
            let d = duration_since(&now, &p.created_at);
            ages.push((*k, whole_secs(&d)));
        }
        proof {
            if timeout_secs == 0 {
                assert forall|k: u32| self.pending@.contains_key(k) implies #[trigger] stale_keys(
                    ages@,
                    0,
                ).contains(k) by {
                    assert(v.contains((&k, &self.pending@[k])));
                    let i = choose|i: int| 0 <= i < v.len() && v[i] == (&k, &self.pending@[k]);
                    assert(ages@[i].0 == k);
                }
            }
        }
        let ghost before = self@;
        self.remove_stale(ages.as_slice(), timeout_secs);
        proof {
            if timeout_secs == 0 {
                assert(self@.pending.dom() =~= Set::<u32>::empty());
            }
        }
    }

    /// Number of in-progress (pending) transmissions.
    pub fn pending_count(&self) -> (r: usize)
        ensures
            r == self@.pending.len(),
    {
        assert(self@.pending.dom() =~= self.pending@.dom());
        self.pending.len()
    }
}

/// The assembler after buffering each chunk in turn (`more` set), each
/// with its command.
pub open spec fn buffer_all(a: AssemblerView, cmds: Seq<CommandView>, chunks: Seq<Seq<u8>>) -> AssemblerView
    decreases chunks.len(),
{
    if chunks.len() == 0 || cmds.len() != chunks.len() {
        a
    } else {
        buffer_all(a, cmds.drop_last(), chunks.drop_last()).added(cmds.last(), chunks.last(), true).0
    }
}

/// Chunks sent under one image id are joined in the order they came, with
/// nothing between them: buffering chunks and then sending the final one
/// completes with the first chunk's command and the concatenation of all
/// chunks, and leaves the assembler as it was before the first chunk.
pub proof fn lemma_chunks_concatenate(
    a: AssemblerView,
    id: u32,
    cmds: Seq<CommandView>,
    chunks: Seq<Seq<u8>>,
    last_cmd: CommandView,
    last: Seq<u8>,
)
    requires
        a.valid(),
        id != 0,
        !a.pending.contains_key(id),
        1 <= chunks.len(),
        cmds.len() == chunks.len(),
        forall|i: int| 0 <= i < cmds.len() ==> (#[trigger] cmds[i]).image_id == Some(id),
        last_cmd.image_id == Some(id),
    ensures
        buffer_all(a, cmds, chunks).pending == a.pending.insert(
            id,
            PendingView { image_id: Some(id), first_command: Some(cmds[0]), chunks },
        ),
        buffer_all(a, cmds, chunks).next_temp_id == a.next_temp_id,
        buffer_all(a, cmds, chunks).added(last_cmd, last, false) == (
            a,
            ChunkResultView::Complete(Some(cmds[0]), chunks.flatten() + last),
        ),
    decreases chunks.len(),
{
    let b = buffer_all(a, cmds, chunks);
    if chunks.len() == 1 {
        assert(chunks.drop_last().len() == 0);
        assert(buffer_all(a, cmds.drop_last(), chunks.drop_last()) == a);
        assert(seq![chunks.last()] =~= chunks);
    } else {
        lemma_chunks_concatenate(a, id, cmds.drop_last(), chunks.drop_last(), last_cmd, last);
        let prev = buffer_all(a, cmds.drop_last(), chunks.drop_last());
        assert(cmds.drop_last()[0] == cmds[0]);
        assert(cmds.last() == cmds[cmds.len() - 1]);
        assert(prev.key_for(cmds.last().image_id) == id);
        assert(chunks.drop_last().push(chunks.last()) =~= chunks);
        assert(b.pending =~= a.pending.insert(
            id,
            PendingView { image_id: Some(id), first_command: Some(cmds[0]), chunks },
        ));
    }
    assert(b.key_for(last_cmd.image_id) == id);
    assert(b.pending.remove(id) =~= a.pending);
}

/// An image id of 0 is no id at all: a chunk for `Some(0)` is filed
/// exactly as one for `None`.
pub proof fn lemma_zero_id_is_anonymous(a: AssemblerView)
    ensures
        a.key_for(Some(0)) == a.key_for(None),
        a.keyed(Some(0)) == a.keyed(None),
{
}

/// The number of pending transmissions goes up by one when a chunk starts a
/// new one, down by one when a final chunk completes one, and stays the
/// same otherwise.
pub proof fn lemma_pending_count_tracks(a: AssemblerView, cmd: CommandView, data: Seq<u8>, more: bool)
    requires
        a.valid(),
    ensures
        a.added(cmd, data, more).0.valid(),
        a.added(cmd, data, more).0.pending.len() == if a.pending.contains_key(a.key_for(cmd.image_id)) {
            if more {
                a.pending.len()
            } else {
                (a.pending.len() - 1) as nat
            }
        } else {
            if more {
                a.pending.len() + 1
            } else {
                a.pending.len()
            }
        },
{
    let key = a.key_for(cmd.image_id);
    let b = a.added(cmd, data, more).0;
    assert(a.keyed(cmd.image_id).pending == a.pending);
    if more {
        assert(b.pending.dom() =~= a.pending.dom().insert(key));
    } else if a.pending.contains_key(key) {
        assert(b.pending.dom() =~= a.pending.dom().remove(key));
    }
    assert forall|x: u32, y: u32| #[trigger]
        b.anonymous_at(x) && #[trigger] b.anonymous_at(y) implies x == y by {
        if x != key {
            assert(a.anonymous_at(x));
        }
        if y != key {
            assert(a.anonymous_at(y));
        }
        if a.pending.contains_key(key) {
            if x == key {
                assert(a.anonymous_at(x));
            }
            if y == key {
                assert(a.anonymous_at(y));
            }
        } else if x != y {
            assert(a.has_anonymous());
            let c = choose|c: u32| #[trigger] a.anonymous_at(c);
            assert(a.anonymous_at(c));
        }
    }
}

/// A chunk with no more to come, under a key with nothing pending, is
/// complete at once: it comes back with its own data and no earlier
/// command, and nothing is left pending for it.
pub proof fn lemma_single_chunk_completes(a: AssemblerView, cmd: CommandView, data: Seq<u8>)
    requires
        !a.pending.contains_key(a.key_for(cmd.image_id)),
    ensures
        a.added(cmd, data, false).1 == ChunkResultView::Complete(None, data),
        a.added(cmd, data, false).0.pending == a.pending,
{
    assert(a.keyed(cmd.image_id).pending == a.pending);
}

} // verus!
