//! What is sent to the outer terminals: each image is transmitted once to a
//! client, then placed in every frame.
use std::collections::{HashMap, HashSet};
use vstd::prelude::*;

use crate::pairs::PairMap;
use crate::tables::{self, copy_set, map_keys, set_items};
use crate::text::{self, push_bytes, push_decimal, push_text};

verus! {

/// The lowest image id that is used towards outer terminals. It is high, so that
/// the ids stay clear of those that applications choose.
pub const OUTER_ID_BASE: u32 = 0x9000_0000;

/// One visible placement of an image, with all that is needed to emit it.
#[derive(Debug, Clone, PartialEq, Eq)]
pub struct KittyChunkSpec {
    pub source_image_id: u32,
    pub placement_id: u32,
    pub format: u32,
    pub compressed: bool,
    pub full_width: usize,
    pub full_height: usize,
    pub src_x: usize,
    pub src_y: usize,
    pub src_width: usize,
    pub src_height: usize,
    /// `c=` target width in cells. `None` emits the cropped region at its native
    /// pixel size.
    pub target_cols: Option<u32>,
    /// `r=` target height in cells.
    pub target_rows: Option<u32>,
    pub payload_b64: Vec<u8>,
}

/// What is known of the outer terminals. A key is a client and a source image.
#[verifier::ext_equal]
pub struct RenderView {
    /// The id under which the client's terminal knows the image.
    pub outer_ids: Map<(u16, u32), u32>,
    /// The images that the client's terminal has been sent.
    pub transmitted: Set<(u16, u32)>,
    /// The placements that are live in the client's terminal.
    pub placements: Map<(u16, u32), Set<u32>>,
    /// The next outer id to hand out.
    pub next_outer_id: u32,
}

// ---------------------------------------------------------------------------
// The sequences
// ---------------------------------------------------------------------------

/// `text` followed by a number in decimal.
pub open spec fn key(text: Seq<char>, n: nat) -> Seq<u8> {
    text::ascii(text) + text::decimal(n)
}

/// `text` followed by a number in decimal, or nothing.
pub open spec fn optional_key(text: Seq<char>, n: Option<u32>) -> Seq<u8> {
    match n {
        Some(n) => key(text, n as nat),
        None => Seq::empty(),
    }
}

/// The sequence that transmits a source image. A raw format states its
/// dimensions; a PNG carries them itself.
pub open spec fn transmit_sequence(outer_id: u32, chunk: KittyChunkSpec) -> Seq<u8> {
    key("\x1b_Ga=t,q=2,i="@, outer_id as nat) + key(",f="@, chunk.format as nat) + (
    if chunk.compressed {
        text::ascii(",o=z"@)
    } else {
        Seq::empty()
    }) + (if chunk.format != 100 {
        key(",s="@, chunk.full_width as nat) + key(",v="@, chunk.full_height as nat)
    } else {
        Seq::empty()
    }) + text::ascii(";"@) + chunk.payload_b64@ + text::ascii("\x1b\\"@)
}

/// The sequence that places a cropped region of a transmitted image.
pub open spec fn place_sequence(outer_id: u32, chunk: KittyChunkSpec) -> Seq<u8> {
    key("\x1b_Ga=p,q=2,i="@, outer_id as nat) + key(",p="@, chunk.placement_id as nat) + key(
        ",x="@,
        chunk.src_x as nat,
    ) + key(",y="@, chunk.src_y as nat) + key(",w="@, chunk.src_width as nat) + key(
        ",h="@,
        chunk.src_height as nat,
    ) + optional_key(",c="@, chunk.target_cols) + optional_key(",r="@, chunk.target_rows)
        + text::ascii(",C=1\x1b\\"@)
}

/// The sequence that deletes an image.
pub open spec fn delete_sequence(outer_id: u32) -> Seq<u8> {
    key("\x1b_Ga=d,d=i,q=2,i="@, outer_id as nat) + text::ascii("\x1b\\"@)
}

/// The sequence that deletes one placement of an image.
pub open spec fn delete_placement_sequence(outer_id: u32, placement_id: u32) -> Seq<u8> {
    key("\x1b_Ga=d,d=i,q=2,i="@, outer_id as nat) + key(",p="@, placement_id as nat) + text::ascii(
        "\x1b\\"@,
    )
}

// ---------------------------------------------------------------------------
// The state
// ---------------------------------------------------------------------------

/// The outer id that is handed out behind `id`.
pub open spec fn next_outer(id: u32) -> u32 {
    if id == u32::MAX || id < OUTER_ID_BASE {
        OUTER_ID_BASE
    } else {
        (id + 1) as u32
    }
}

/// The keys of a client.
pub open spec fn of_client(client_id: u16) -> Set<(u16, u32)> {
    Set::new(|k: (u16, u32)| k.0 == client_id)
}

/// The keys of a source image.
pub open spec fn of_image(source_image_id: u32) -> Set<(u16, u32)> {
    Set::new(|k: (u16, u32)| k.1 == source_image_id)
}

/// The placement sets of a frame.
pub open spec fn frame_view(frame: Map<u32, HashSet<u32>>) -> Map<u32, Set<u32>> {
    frame.map_values(|pids: HashSet<u32>| pids@)
}

/// Whether a frame shows a placement of a source image.
pub open spec fn frame_shows(frame: Map<u32, Set<u32>>, source_id: u32, pid: u32) -> bool {
    frame.contains_key(source_id) && frame[source_id].contains(pid)
}

/// Whether the placements of each source image stand next to each other.
pub open spec fn is_grouped(order: Seq<(u32, u32)>) -> bool {
    forall|i: int, j: int, k: int|
        #![trigger order[i], order[j], order[k]]
        0 <= i <= j <= k < order.len() && order[i].0 == order[k].0 ==> order[j].0 == order[i].0
}

impl RenderView {
    /// Nothing has been sent to anyone.
    pub open spec fn empty() -> RenderView {
        RenderView {
            outer_ids: Map::empty(),
            transmitted: Set::empty(),
            placements: Map::empty(),
            next_outer_id: OUTER_ID_BASE,
        }
    }

    /// What holds of every state: outer ids lie at the base or above, and what
    /// was transmitted has an outer id.
    pub open spec fn valid(self) -> bool {
        &&& self.next_outer_id >= OUTER_ID_BASE
        &&& forall|k: (u16, u32)| #[trigger]
            self.outer_ids.contains_key(k) ==> self.outer_ids[k] >= OUTER_ID_BASE
        &&& self.transmitted.subset_of(self.outer_ids.dom())
    }

    /// The outer id of an image on a client: the one it has, or else the next.
    pub open spec fn id_of(self, client_id: u16, source_image_id: u32) -> u32 {
        if self.outer_ids.contains_key((client_id, source_image_id)) {
            self.outer_ids[(client_id, source_image_id)]
        } else {
            self.next_outer_id
        }
    }

    /// The state in which the image has an outer id on the client.
    pub open spec fn with_id(self, client_id: u16, source_image_id: u32) -> RenderView {
        if self.outer_ids.contains_key((client_id, source_image_id)) {
            self
        } else {
            RenderView {
                outer_ids: self.outer_ids.insert(
                    (client_id, source_image_id),
                    self.next_outer_id,
                ),
                next_outer_id: next_outer(self.next_outer_id),
                ..self
            }
        }
    }

    /// The state after a chunk was rendered.
    pub open spec fn rendered(self, client_id: u16, chunk: KittyChunkSpec) -> RenderView {
        let state = self.with_id(client_id, chunk.source_image_id);
        RenderView {
            transmitted: state.transmitted.insert((client_id, chunk.source_image_id)),
            ..state
        }
    }

    /// What rendering a chunk sends: the image, unless the client has it, and its
    /// placement.
    pub open spec fn render_sequence(self, client_id: u16, chunk: KittyChunkSpec) -> Seq<u8> {
        let outer_id = self.id_of(client_id, chunk.source_image_id);
        if self.transmitted.contains((client_id, chunk.source_image_id)) {
            place_sequence(outer_id, chunk)
        } else {
            transmit_sequence(outer_id, chunk) + place_sequence(outer_id, chunk)
        }
    }

    /// The state without all that belongs to some keys.
    pub open spec fn without(self, keys: Set<(u16, u32)>) -> RenderView {
        RenderView {
            outer_ids: self.outer_ids.remove_keys(keys),
            transmitted: self.transmitted.difference(keys),
            placements: self.placements.remove_keys(keys),
            ..self
        }
    }

    /// The clients that know a source image, each with its outer id.
    pub open spec fn holders(self, source_image_id: u32) -> Set<(u16, u32)> {
        Set::new(
            |h: (u16, u32)|
                self.outer_ids.contains_key((h.0, source_image_id))
                    && self.outer_ids[(h.0, source_image_id)] == h.1,
        )
    }

    /// Whether a placement of a source image is live in the client's terminal,
    /// under a known outer id, and not shown by `frame`.
    pub open spec fn is_stale(
        self,
        client_id: u16,
        frame: Map<u32, Set<u32>>,
        source_id: u32,
        pid: u32,
    ) -> bool {
        &&& self.outer_ids.contains_key((client_id, source_id))
        &&& self.placements.contains_key((client_id, source_id))
        &&& self.placements[(client_id, source_id)].contains(pid)
        &&& !frame_shows(frame, source_id, pid)
    }

    /// The stale placements of a client, each as a source image and a placement id.
    pub open spec fn stale(self, client_id: u16, frame: Map<u32, Set<u32>>) -> Set<(u32, u32)> {
        Set::new(|s: (u32, u32)| self.is_stale(client_id, frame, s.0, s.1))
    }

    /// The sequences that delete some placements, one behind the other.
    pub open spec fn delete_sequences(self, client_id: u16, stale: Seq<(u32, u32)>) -> Seq<u8>
        decreases stale.len(),
    {
        if stale.len() == 0 {
            Seq::empty()
        } else {
            self.delete_sequences(client_id, stale.drop_last()) + delete_placement_sequence(
                self.outer_ids[(client_id, stale.last().0)],
                stale.last().1,
            )
        }
    }

    /// The state in which the live placements of a client are those of `frame`.
    pub open spec fn reconciled(self, client_id: u16, frame: Map<u32, Set<u32>>) -> RenderView {
        RenderView {
            placements: Map::new(
                |k: (u16, u32)|
                    if k.0 == client_id {
                        frame.contains_key(k.1) && frame[k.1] != Set::<u32>::empty()
                    } else {
                        self.placements.contains_key(k)
                    },
                |k: (u16, u32)|
                    if k.0 == client_id {
                        frame[k.1]
                    } else {
                        self.placements[k]
                    },
            ),
            ..self
        }
    }
}

/// Durable state for rendering images to the outer terminals of the clients.
///
/// There is one outer id per client and source image. The image is transmitted
/// under it a single time, then placed again in each frame.
#[derive(Debug)]
pub struct KittyRenderState {
    outer_ids: PairMap<u32>,
    transmitted: PairMap<()>,
    /// Placement ids that are live in the client's outer terminal, per image.
    placements: PairMap<HashSet<u32>>,
    next_outer_id: u32,
}

impl View for KittyRenderState {
    type V = RenderView;

    closed spec fn view(&self) -> RenderView {
        RenderView {
            outer_ids: self.outer_ids@,
            transmitted: self.transmitted@.dom(),
            placements: self.placements@.map_values(|pids: HashSet<u32>| pids@),
            next_outer_id: self.next_outer_id,
        }
    }
}

impl Default for KittyRenderState {
    fn default() -> (r: Self)
        ensures
            r@ == RenderView::empty(),
            r@.valid(),
            r@.has_fresh_ids(),
    {
        let r = KittyRenderState {
            outer_ids: PairMap::new(),
            transmitted: PairMap::new(),
            placements: PairMap::new(),
            next_outer_id: OUTER_ID_BASE,
        };
        assert(r@ =~= RenderView::empty());
        r
    }
}

/// Appends a text and a number in decimal.
fn push_key(out: &mut Vec<u8>, text: &str, n: u64)
    requires
        text.is_ascii(),
    ensures
        final(out)@ == old(out)@ + key(text@, n as nat),
{
    push_text(out, text);
    push_decimal(out, n);
    assert(out@ =~= old(out)@ + key(text@, n as nat));
}

fn push_optional_key(out: &mut Vec<u8>, text: &str, n: Option<u32>)
    requires
        text.is_ascii(),
    ensures
        final(out)@ == old(out)@ + optional_key(text@, n),
{
    if let Some(n) = n {
        push_key(out, text, n as u64);
    }
    assert(out@ =~= old(out)@ + optional_key(text@, n));
}

fn push_transmit(out: &mut Vec<u8>, outer_id: u32, chunk: &KittyChunkSpec)
    ensures
        final(out)@ == old(out)@ + transmit_sequence(outer_id, *chunk),
{
    proof {
        reveal_strlit("\x1b_Ga=t,q=2,i=");
        reveal_strlit(",f=");
        reveal_strlit(",o=z");
        reveal_strlit(",s=");
        reveal_strlit(",v=");
        reveal_strlit(";");
        reveal_strlit("\x1b\\");
    }
    push_key(out, "\x1b_Ga=t,q=2,i=", outer_id as u64);
    push_key(out, ",f=", chunk.format as u64);
    if chunk.compressed {
        push_text(out, ",o=z");
    }
    if chunk.format != 100 {
        push_key(out, ",s=", chunk.full_width as u64);
        push_key(out, ",v=", chunk.full_height as u64);
    }
    push_text(out, ";");
    push_bytes(out, chunk.payload_b64.as_slice());
    push_text(out, "\x1b\\");
    assert(out@ =~= old(out)@ + transmit_sequence(outer_id, *chunk));
}

fn push_place(out: &mut Vec<u8>, outer_id: u32, chunk: &KittyChunkSpec)
    ensures
        final(out)@ == old(out)@ + place_sequence(outer_id, *chunk),
{
    proof {
        reveal_strlit("\x1b_Ga=p,q=2,i=");
        reveal_strlit(",p=");
        reveal_strlit(",x=");
        reveal_strlit(",y=");
        reveal_strlit(",w=");
        reveal_strlit(",h=");
        reveal_strlit(",c=");
        reveal_strlit(",r=");
        reveal_strlit(",C=1\x1b\\");
    }
    push_key(out, "\x1b_Ga=p,q=2,i=", outer_id as u64);
    push_key(out, ",p=", chunk.placement_id as u64);
    push_key(out, ",x=", chunk.src_x as u64);
    push_key(out, ",y=", chunk.src_y as u64);
    push_key(out, ",w=", chunk.src_width as u64);
    push_key(out, ",h=", chunk.src_height as u64);
    push_optional_key(out, ",c=", chunk.target_cols);
    push_optional_key(out, ",r=", chunk.target_rows);
    push_text(out, ",C=1\x1b\\");
    assert(out@ =~= old(out)@ + place_sequence(outer_id, *chunk));
}

fn push_delete_placement(out: &mut Vec<u8>, outer_id: u32, placement_id: u32)
    ensures
        final(out)@ == old(out)@ + delete_placement_sequence(outer_id, placement_id),
{
    proof {
        reveal_strlit("\x1b_Ga=d,d=i,q=2,i=");
        reveal_strlit(",p=");
        reveal_strlit("\x1b\\");
    }
    push_key(out, "\x1b_Ga=d,d=i,q=2,i=", outer_id as u64);
    push_key(out, ",p=", placement_id as u64);
    push_text(out, "\x1b\\");
    assert(out@ =~= old(out)@ + delete_placement_sequence(outer_id, placement_id));
}

impl KittyRenderState {
    /// The outer id of a source image on a client, allocated where it has none.
    fn outer_id(&mut self, client_id: u16, source_image_id: u32) -> (r: u32)
        ensures
            r == old(self)@.id_of(client_id, source_image_id),
            final(self)@ == old(self)@.with_id(client_id, source_image_id),
    {
        if let Some(id) = self.outer_ids.get(client_id, source_image_id) {
            return *id;
        }
        let id = self.next_outer_id;
        self.next_outer_id = if id == u32::MAX || id < OUTER_ID_BASE {
            OUTER_ID_BASE
        } else {
            id + 1
        };
        self.outer_ids.insert(client_id, source_image_id, id);
        id
    }

    /// Forgets all state of a client: after a detach or a new attach, its outer
    /// terminal holds nothing.
    pub fn reset_client(&mut self, client_id: u16)
        ensures
            final(self)@ == old(self)@.without(of_client(client_id)),
            old(self)@.valid() ==> final(self)@.valid(),
    {
        self.outer_ids.remove_client(client_id);
        self.transmitted.remove_client(client_id);
        self.placements.remove_client(client_id);
        assert(self@ =~= old(self)@.without(of_client(client_id)));
    }

    /// Forgets a source image on all clients. Returns the clients that knew it,
    /// each once and with its outer id, in any order.
    pub fn forget_image(&mut self, source_image_id: u32) -> (r: Vec<(u16, u32)>)
        ensures
            final(self)@ == old(self)@.without(of_image(source_image_id)),
            tables::lists(r@, old(self)@.holders(source_image_id)),
            old(self)@.valid() ==> final(self)@.valid(),
    {
        let keys = self.outer_ids.keys();
        let mut deleted: Vec<(u16, u32)> = Vec::new();
        for i in 0..keys.len()
            invariant
                *self == *old(self),
                tables::lists(keys@, self.outer_ids@.dom()),
                deleted@.no_duplicates(),
                forall|h: (u16, u32)|
                    #![trigger deleted@.contains(h)]
                    deleted@.contains(h) <==> keys@.take(i as int).contains((h.0, source_image_id))
                        && self.outer_ids@[(h.0, source_image_id)] == h.1,
        {
            let (client_id, image) = keys[i];
            proof {
                tables::lemma_take_contains(keys@, i as int);
                assert(keys@.contains(keys@[i as int]));
                assert(keys@.to_set().contains(keys@[i as int]));
                assert(!keys@.take(i as int).contains(keys@[i as int]));
                assert(keys@[i as int] == (client_id, image));
            }
            if image == source_image_id {
                if let Some(outer_id) = self.outer_ids.get(client_id, image) {
                    let ghost before = deleted@;
                    let ghost holder = (client_id, *outer_id);
                    deleted.push((client_id, *outer_id));
                    proof {
                        assert(!before.contains(holder));
                        assert(deleted@ =~= before.push(holder));
                        tables::lemma_push_contains(before, holder);
                    }
                }
            }
        }
        proof {
            assert(keys@.take(keys@.len() as int) =~= keys@);
            assert forall|h: (u16, u32)|
                deleted@.to_set().contains(h) <==> self@.holders(source_image_id).contains(h) by {
                assert(deleted@.to_set().contains(h) <==> deleted@.contains(h));
                assert(keys@.to_set().contains((h.0, source_image_id)) <==> keys@.contains(
                    (h.0, source_image_id),
                ));
            }
            assert(deleted@.to_set() =~= self@.holders(source_image_id));
        }
        self.outer_ids.remove_image(source_image_id);
        self.transmitted.remove_image(source_image_id);
        self.placements.remove_image(source_image_id);
        assert(self@ =~= old(self)@.without(of_image(source_image_id)));
        deleted
    }

    /// The bytes that render one visible chunk on a client: the image, where the
    /// client has not been sent it, then a placement with a source crop. `q=2`
    /// silences replies; `C=1` keeps the outer cursor in its place.
    pub fn render_chunk_bytes(&mut self, client_id: u16, chunk: &KittyChunkSpec) -> (r: Vec<u8>)
        ensures
            r@ == old(self)@.render_sequence(client_id, *chunk),
            final(self)@ == old(self)@.rendered(client_id, *chunk),
            old(self)@.valid() ==> final(self)@.valid(),
    {
        let outer_id = self.outer_id(client_id, chunk.source_image_id);
        let mut out: Vec<u8> = Vec::new();
        if self.transmitted.get(client_id, chunk.source_image_id).is_none() {
            push_transmit(&mut out, outer_id, chunk);
            self.transmitted.insert(client_id, chunk.source_image_id, ());
        }
        push_place(&mut out, outer_id, chunk);
        proof {
            assert(self@ =~= old(self)@.rendered(client_id, *chunk));
            assert(out@ =~= old(self)@.render_sequence(client_id, *chunk));
        }
        out
    }

    /// Forgets a source image on one client and returns the outer id it had there.
    pub fn take_outer_id(&mut self, client_id: u16, source_image_id: u32) -> (r: Option<u32>)
        ensures
            r == (if old(self)@.outer_ids.contains_key((client_id, source_image_id)) {
                Some(old(self)@.outer_ids[(client_id, source_image_id)])
            } else {
                None
            }),
            final(self)@ == old(self)@.without(set![(client_id, source_image_id)]),
            old(self)@.valid() ==> final(self)@.valid(),
    {
        self.transmitted.remove(client_id, source_image_id);
        self.placements.remove(client_id, source_image_id);
        let r = self.outer_ids.remove(client_id, source_image_id);
        assert(self@ =~= old(self)@.without(set![(client_id, source_image_id)]));
        r
    }

    /// Appends the sequences that delete the stale placements of one image, in
    /// any order. `order` lists the placements deleted before, and the result
    /// those deleted in all.
    fn push_stale(
        &self,
        out: &mut Vec<u8>,
        client_id: u16,
        source_id: u32,
        frame: &HashMap<u32, HashSet<u32>>,
        Ghost(order): Ghost<Seq<(u32, u32)>>,
    ) -> (r: Ghost<Seq<(u32, u32)>>)
        requires
            old(out)@ == self@.delete_sequences(client_id, order),
            order.no_duplicates(),
            is_grouped(order),
            forall|i: int| 0 <= i < order.len() ==> (#[trigger] order[i]).0 != source_id,
        ensures
            final(out)@ == self@.delete_sequences(client_id, r@),
            r@.no_duplicates(),
            is_grouped(r@),
            forall|s: (u32, u32)|
                #![trigger r@.contains(s)]
                r@.contains(s) <==> order.contains(s) || s.0 == source_id && self@.is_stale(
                    client_id,
                    frame_view(frame@),
                    s.0,
                    s.1,
                ),
    {
        let outer_id = match self.outer_ids.get(client_id, source_id) {
            Some(outer_id) => *outer_id,
            None => {
                return Ghost(order);
            },
        };
        let live = match self.placements.get(client_id, source_id) {
            Some(live) => set_items(live),
            None => {
                return Ghost(order);
            },
        };
        let shown = frame.get(&source_id);
        let ghost mut done = order;
        for i in 0..live.len()
            invariant
                tables::lists(live@, self@.placements[(client_id, source_id)]),
                self@.outer_ids.contains_key((client_id, source_id)),
                self@.placements.contains_key((client_id, source_id)),
                self@.outer_ids[(client_id, source_id)] == outer_id,
                match shown {
                    Some(pids) => frame@.contains_key(source_id) && frame@[source_id] == *pids,
                    None => !frame@.contains_key(source_id),
                },
                forall|i: int| 0 <= i < order.len() ==> (#[trigger] order[i]).0 != source_id,
                out@ == self@.delete_sequences(client_id, done),
                done.no_duplicates(),
                order.len() <= done.len(),
                done.take(order.len() as int) == order,
                forall|j: int| order.len() <= j < done.len() ==> (#[trigger] done[j]).0 == source_id,
                forall|s: (u32, u32)|
                    #![trigger done.contains(s)]
                    done.contains(s) <==> order.contains(s) || s.0 == source_id && live@.take(
                        i as int,
                    ).contains(s.1) && self@.is_stale(client_id, frame_view(frame@), s.0, s.1),
        {
            let pid = live[i];
            let is_shown = match shown {
                Some(pids) => pids.contains(&pid),
                None => false,
            };
            proof {
                tables::lemma_take_contains(live@, i as int);
                assert(live@.to_set().contains(live@[i as int]));
                assert(!live@.take(i as int).contains(live@[i as int]));
                assert(is_shown == frame_shows(frame_view(frame@), source_id, pid));
            }
            if !is_shown {
                push_delete_placement(out, outer_id, pid);
                proof {
                    let stale = (source_id, pid);
                    let next = done.push(stale);
                    assert(!order.contains(stale));
                    assert(!done.contains(stale));
                    assert(next.drop_last() =~= done);
                    assert(next.take(order.len() as int) =~= order);
                    tables::lemma_push_contains(done, stale);
                    done = next;
                }
            }
        }
        proof {
            assert(live@.take(live@.len() as int) =~= live@);
            assert forall|pid: u32|
                live@.contains(pid) <==> self@.placements[(client_id, source_id)].contains(pid) by {
                assert(live@.to_set().contains(pid) <==> live@.contains(pid));
            }
            assert forall|j: int| 0 <= j < order.len() implies #[trigger] done[j] == order[j] by {
                assert(done.take(order.len() as int)[j] == done[j]);
            }
        }
        Ghost(done)
    }

    /// Brings the placements of a client in line with a frame: deletes those that
    /// were live before and are absent now, then records the frame's. Returns the
    /// delete bytes, image by image, in any order.
    pub fn reconcile_placements(
        &mut self,
        client_id: u16,
        frame: &HashMap<u32, HashSet<u32>>,
    ) -> (r: Vec<u8>)
        ensures
            exists|order: Seq<(u32, u32)>|
                #![trigger old(self)@.delete_sequences(client_id, order)]
                tables::lists(order, old(self)@.stale(client_id, frame_view(frame@)))
                    && is_grouped(order) && r@ == old(self)@.delete_sequences(client_id, order),
            final(self)@ == old(self)@.reconciled(client_id, frame_view(frame@)),
            old(self)@.valid() ==> final(self)@.valid(),
    {
        let mut out: Vec<u8> = Vec::new();
        let keys = self.placements.keys();
        assert(self.placements@.dom() =~= self@.placements.dom());
        let ghost mut order: Seq<(u32, u32)> = Seq::empty();
        for i in 0..keys.len()
            invariant
                *self == *old(self),
                tables::lists(keys@, self@.placements.dom()),
                out@ == self@.delete_sequences(client_id, order),
                order.no_duplicates(),
                is_grouped(order),
                forall|s: (u32, u32)|
                    #![trigger order.contains(s)]
                    order.contains(s) <==> keys@.take(i as int).contains((client_id, s.0))
                        && self@.is_stale(client_id, frame_view(frame@), s.0, s.1),
        {
            let (client, source_id) = keys[i];
            proof {
                tables::lemma_take_contains(keys@, i as int);
                assert(keys@[i as int] == (client, source_id));
                assert(!keys@.take(i as int).contains(keys@[i as int]));
            }
            if client == client_id {
                proof {
                    assert forall|j: int| 0 <= j < order.len() implies (#[trigger] order[j]).0
                        != source_id by {
                        assert(order.contains(order[j]));
                    }
                }
                let Ghost(next) = self.push_stale(
                    &mut out,
                    client_id,
                    source_id,
                    frame,
                    Ghost(order),
                );
                proof {
                    order = next;
                }
            }
        }
        proof {
            let stale = self@.stale(client_id, frame_view(frame@));
            assert(keys@.take(keys@.len() as int) =~= keys@);
            assert forall|s: (u32, u32)| order.to_set().contains(s) <==> stale.contains(s) by {
                assert(order.to_set().contains(s) <==> order.contains(s));
                assert(keys@.to_set().contains((client_id, s.0)) <==> keys@.contains(
                    (client_id, s.0),
                ));
            }
            assert(order.to_set() =~= stale);
            assert(tables::lists(order, stale));
        }
        self.placements.remove_client(client_id);
        self.record(client_id, frame);
        assert(self@ =~= old(self)@.reconciled(client_id, frame_view(frame@)));
        out
    }

    /// Records the placements of a frame for a client that has none recorded.
    fn record(&mut self, client_id: u16, frame: &HashMap<u32, HashSet<u32>>)
        requires
            forall|k: (u16, u32)| #[trigger] old(self)@.placements.contains_key(k) ==> k.0 != client_id,
        ensures
            final(self)@ == old(self)@.reconciled(client_id, frame_view(frame@)),
    {
        let sources = map_keys(frame);
        for i in 0..sources.len()
            invariant
                tables::lists(sources@, frame@.dom()),
                self@.outer_ids == old(self)@.outer_ids,
                self@.transmitted == old(self)@.transmitted,
                self@.next_outer_id == old(self)@.next_outer_id,
                forall|k: (u16, u32)| #[trigger] old(self)@.placements.contains_key(k) ==> k.0 != client_id,
                forall|k: (u16, u32)|
                    #![trigger self@.placements.contains_key(k)]
                    self@.placements.contains_key(k) <==> if k.0 == client_id {
                        sources@.take(i as int).contains(k.1) && frame@[k.1]@ != Set::<u32>::empty()
                    } else {
                        old(self)@.placements.contains_key(k)
                    },
                forall|k: (u16, u32)| #[trigger]
                    self@.placements.contains_key(k) ==> self@.placements[k] == (if k.0 == client_id {
                        frame@[k.1]@
                    } else {
                        old(self)@.placements[k]
                    }),
        {
            let source_id = sources[i];
            proof {
                tables::lemma_take_contains(sources@, i as int);
            }
            if let Some(pids) = frame.get(&source_id) {
                if !pids.is_empty() {
                    let ghost before = self@;
                    let copy = copy_set(pids);
                    self.placements.insert(client_id, source_id, copy);
                    assert(self@.placements =~= before.placements.insert((client_id, source_id), copy@));
                }
            }
        }
        proof {
            assert(sources@.take(sources@.len() as int) =~= sources@);
            assert forall|source_id: u32| sources@.contains(source_id) <==> frame@.contains_key(
                source_id,
            ) by {
                assert(sources@.to_set().contains(source_id) <==> sources@.contains(source_id));
            }
            assert(self@ =~= old(self)@.reconciled(client_id, frame_view(frame@)));
        }
    }

    /// The bytes that delete a source image on a client.
    pub fn delete_image_bytes(outer_id: u32) -> (r: Vec<u8>)
        ensures
            r@ == delete_sequence(outer_id),
    {
        proof {
            reveal_strlit("\x1b_Ga=d,d=i,q=2,i=");
            reveal_strlit("\x1b\\");
        }
        let mut out: Vec<u8> = Vec::new();
        push_key(&mut out, "\x1b_Ga=d,d=i,q=2,i=", outer_id as u64);
        push_text(&mut out, "\x1b\\");
        assert(out@ =~= delete_sequence(outer_id));
        out
    }
}

} // verus!
