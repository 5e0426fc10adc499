//! Laws of the state that outer terminals are rendered from.
use std::collections::HashSet;
use vstd::prelude::*;

use crate::render::{self, KittyChunkSpec, RenderView};
use crate::sequence_laws;
use crate::tables;

verus! {

/// One thing that happens to the state.
pub enum RenderStep {
    /// A chunk is rendered on a client.
    Render { client_id: u16, chunk: KittyChunkSpec },
    /// The placements of a client are brought in line with a frame.
    Reconcile { client_id: u16, frame: Map<u32, Set<u32>> },
    /// Some keys are forgotten: those of a client, those of an image, or one.
    Forget { keys: Set<(u16, u32)> },
}

impl RenderView {
    /// The state after one step.
    pub open spec fn after(self, step: RenderStep) -> RenderView {
        match step {
            RenderStep::Render { client_id, chunk } => self.rendered(client_id, chunk),
            RenderStep::Reconcile { client_id, frame } => self.reconciled(client_id, frame),
            RenderStep::Forget { keys } => self.without(keys),
        }
    }

    /// The state after some steps in turn.
    pub open spec fn after_all(self, steps: Seq<RenderStep>) -> RenderView
        decreases steps.len(),
    {
        if steps.len() == 0 {
            self
        } else {
            self.after_all(steps.drop_last()).after(steps.last())
        }
    }

    /// Whether a step hands out an outer id: it renders an image that has none on
    /// the client.
    pub open spec fn hands_out(self, step: RenderStep) -> bool {
        match step {
            RenderStep::Render { client_id, chunk } => !self.outer_ids.contains_key(
                (client_id, chunk.source_image_id),
            ),
            _ => false,
        }
    }

    /// The outer ids that some steps hand out, in turn, those that a later step
    /// forgets among them.
    pub open spec fn handed_out(self, steps: Seq<RenderStep>) -> Seq<u32>
        decreases steps.len(),
    {
        if steps.len() == 0 {
            Seq::empty()
        } else {
            let before = self.after_all(steps.drop_last());
            if before.hands_out(steps.last()) {
                self.handed_out(steps.drop_last()).push(before.next_outer_id)
            } else {
                self.handed_out(steps.drop_last())
            }
        }
    }

    /// Whether no outer id is in use twice.
    pub open spec fn has_distinct_ids(self) -> bool {
        forall|a: (u16, u32), b: (u16, u32)|
            #![trigger self.outer_ids[a], self.outer_ids[b]]
            self.outer_ids.contains_key(a) && self.outer_ids.contains_key(b) && a != b
                ==> self.outer_ids[a] != self.outer_ids[b]
    }

    /// Whether the ids in use are distinct, and lie below the next one.
    pub open spec fn has_fresh_ids(self) -> bool {
        &&& self.has_distinct_ids()
        &&& forall|k: (u16, u32)| #[trigger]
            self.outer_ids.contains_key(k) ==> self.outer_ids[k] < self.next_outer_id
    }

    /// Whether two states agree on all that belongs to a client.
    pub open spec fn agrees_on(self, other: RenderView, client_id: u16) -> bool {
        forall|source: u32|
            #![trigger self.outer_ids.contains_key((client_id, source))]
            #![trigger self.transmitted.contains((client_id, source))]
            #![trigger self.placements.contains_key((client_id, source))]
            {
                let k = (client_id, source);
                &&& self.outer_ids.contains_key(k) <==> other.outer_ids.contains_key(k)
                &&& self.outer_ids.contains_key(k) ==> self.outer_ids[k] == other.outer_ids[k]
                &&& self.transmitted.contains(k) <==> other.transmitted.contains(k)
                &&& self.placements.contains_key(k) <==> other.placements.contains_key(k)
                &&& self.placements.contains_key(k) ==> self.placements[k] == other.placements[k]
            }
    }
}

/// Whether no step forgets an image on a client.
pub open spec fn keeps(steps: Seq<RenderStep>, key: (u16, u32)) -> bool {
    forall|i: int|
        0 <= i < steps.len() ==> match #[trigger] steps[i] {
            RenderStep::Forget { keys } => !keys.contains(key),
            _ => true,
        }
}

/// Unless it is forgotten, an image keeps its outer id on a client, and stays
/// transmitted.
pub proof fn law_outer_id_is_stable(state: RenderView, steps: Seq<RenderStep>, key: (u16, u32))
    requires
        keeps(steps, key),
    ensures
        state.outer_ids.contains_key(key) ==> state.after_all(steps).outer_ids.contains_key(key)
            && state.after_all(steps).outer_ids[key] == state.outer_ids[key],
        state.transmitted.contains(key) ==> state.after_all(steps).transmitted.contains(key),
    decreases steps.len(),
{
    if steps.len() > 0 {
        let before = steps.drop_last();
        assert forall|i: int| 0 <= i < before.len() implies match #[trigger] before[i] {
            RenderStep::Forget { keys } => !keys.contains(key),
            _ => true,
        } by {
            assert(before[i] == steps[i]);
        }
        law_outer_id_is_stable(state, before, key);
        assert(steps[steps.len() - 1] == steps.last());
    }
}

/// An image is transmitted once: after a chunk of it was rendered on a client,
/// every later chunk of it on that client is a placement alone, under the same
/// outer id, unless the image was forgotten there in between.
pub proof fn law_transmit_once_then_place(
    state: RenderView,
    client_id: u16,
    chunk: KittyChunkSpec,
    between: Seq<RenderStep>,
    later: KittyChunkSpec,
)
    requires
        later.source_image_id == chunk.source_image_id,
        keeps(between, (client_id, chunk.source_image_id)),
    ensures
        state.rendered(client_id, chunk).after_all(between).render_sequence(client_id, later)
            == render::place_sequence(state.id_of(client_id, chunk.source_image_id), later),
{
    law_outer_id_is_stable(
        state.rendered(client_id, chunk),
        between,
        (client_id, chunk.source_image_id),
    );
}

/// An image that a client has not been sent is transmitted in full before its
/// placement.
pub proof fn law_first_chunk_transmits(state: RenderView, client_id: u16, chunk: KittyChunkSpec)
    requires
        !state.transmitted.contains((client_id, chunk.source_image_id)),
    ensures
        state.render_sequence(client_id, chunk) == render::transmit_sequence(
            state.id_of(client_id, chunk.source_image_id),
            chunk,
        ) + render::place_sequence(state.id_of(client_id, chunk.source_image_id), chunk),
{
}

/// What was forgotten is transmitted again, under the next outer id: after a reset
/// of the client, after the image was forgotten everywhere, and after its outer
/// id was taken.
pub proof fn law_forgotten_image_is_transmitted_again(
    state: RenderView,
    client_id: u16,
    chunk: KittyChunkSpec,
    keys: Set<(u16, u32)>,
)
    requires
        keys.contains((client_id, chunk.source_image_id)),
    ensures
        render::of_client(client_id).contains((client_id, chunk.source_image_id)),
        render::of_image(chunk.source_image_id).contains((client_id, chunk.source_image_id)),
        state.without(keys).render_sequence(client_id, chunk) == render::transmit_sequence(
            state.next_outer_id,
            chunk,
        ) + render::place_sequence(state.next_outer_id, chunk),
{
}

/// What happens on one client leaves every other client alone: rendering on it,
/// resetting it, forgetting one of its images, and reconciling its placements.
pub proof fn law_clients_are_apart(
    state: RenderView,
    client_id: u16,
    other: u16,
    chunk: KittyChunkSpec,
    source: u32,
    frame: Map<u32, Set<u32>>,
)
    requires
        client_id != other,
    ensures
        state.rendered(client_id, chunk).agrees_on(state, other),
        state.without(render::of_client(client_id)).agrees_on(state, other),
        state.without(set![(client_id, source)]).agrees_on(state, other),
        state.reconciled(client_id, frame).agrees_on(state, other),
{
}

/// No two images in use share an outer id: every step keeps the ids in use
/// distinct, and as long as the last id has not been handed out, it also keeps
/// them below the next.
pub proof fn law_ids_in_use_are_distinct(state: RenderView, step: RenderStep)
    requires
        state.valid(),
        state.has_fresh_ids(),
    ensures
        state.after(step).has_distinct_ids(),
        state.next_outer_id < u32::MAX ==> state.after(step).has_fresh_ids(),
{
}

/// Outer ids are handed out in turn, from the next one up, until the last has
/// been handed out.
pub proof fn law_ids_are_handed_out_in_turn(state: RenderView, steps: Seq<RenderStep>)
    requires
        state.valid(),
        state.next_outer_id + state.handed_out(steps).len() <= u32::MAX + 1,
    ensures
        forall|n: int|
            0 <= n < state.handed_out(steps).len() ==> #[trigger] state.handed_out(steps)[n]
                == state.next_outer_id + n,
        state.next_outer_id + state.handed_out(steps).len() <= u32::MAX ==> state.after_all(
            steps,
        ).next_outer_id == state.next_outer_id + state.handed_out(steps).len(),
    decreases steps.len(),
{
    if steps.len() > 0 {
        law_ids_are_handed_out_in_turn(state, steps.drop_last());
    }
}

/// Before the counter comes round no outer id is handed out twice, to any
/// client or image, and one that was forgotten does not come again either. An
/// image that has an id on a client keeps it and changes nothing; one that has
/// none gets an id at the base or above that was never handed out, and nothing
/// but its own entry is added.
pub proof fn law_no_id_is_handed_out_twice(steps: Seq<RenderStep>, key: (u16, u32))
    requires
        render::OUTER_ID_BASE + RenderView::empty().handed_out(steps).len() <= u32::MAX,
    ensures
        ({
            let ids = RenderView::empty().handed_out(steps);
            let state = RenderView::empty().after_all(steps);
            let id = state.id_of(key.0, key.1);
            let after = state.with_id(key.0, key.1);
            &&& ids.no_duplicates()
            &&& id >= render::OUTER_ID_BASE
            &&& state.outer_ids.contains_key(key) ==> id == state.outer_ids[key] && after == state
            &&& !state.outer_ids.contains_key(key) ==> {
                &&& !ids.contains(id)
                &&& after.outer_ids == state.outer_ids.insert(key, id)
                &&& after.transmitted == state.transmitted
                &&& after.placements == state.placements
            }
        }),
{
    law_ids_are_handed_out_in_turn(RenderView::empty(), steps);
    lemma_reached_is_valid(steps);
}

proof fn lemma_reached_is_valid(steps: Seq<RenderStep>)
    ensures
        RenderView::empty().after_all(steps).valid(),
    decreases steps.len(),
{
    if steps.len() > 0 {
        lemma_reached_is_valid(steps.drop_last());
    }
}

/// Every outer id that is in use was handed out.
pub proof fn law_ids_in_use_were_handed_out(steps: Seq<RenderStep>, key: (u16, u32))
    ensures
        RenderView::empty().after_all(steps).outer_ids.contains_key(key)
            ==> RenderView::empty().handed_out(steps).contains(
            RenderView::empty().after_all(steps).outer_ids[key],
        ),
    decreases steps.len(),
{
    if steps.len() > 0 {
        let before = steps.drop_last();
        law_ids_in_use_were_handed_out(before, key);
        let ids = RenderView::empty().handed_out(before);
        let next = RenderView::empty().after_all(before).next_outer_id;
        tables::lemma_push_contains(ids, next);
    }
}

/// Every step keeps what is stated of every state, and the id that a chunk is
/// rendered under lies at the base or above.
pub proof fn law_states_stay_valid(state: RenderView, step: RenderStep, key: (u16, u32))
    requires
        state.valid(),
    ensures
        state.after(step).valid(),
        state.id_of(key.0, key.1) >= render::OUTER_ID_BASE,
{
}

/// After an image was forgotten no client knows it, and no other image is lost.
pub proof fn law_forget_image(state: RenderView, source: u32, client_id: u16, other: u32)
    requires
        other != source,
    ensures
        state.without(render::of_image(source)).holders(source) == Set::<(u16, u32)>::empty(),
        state.without(render::of_image(source)).outer_ids.contains_key((client_id, other))
            <==> state.outer_ids.contains_key((client_id, other)),
        state.without(render::of_image(source)).transmitted.contains((client_id, other))
            <==> state.transmitted.contains((client_id, other)),
{
    assert(state.without(render::of_image(source)).holders(source) =~= Set::empty());
}

/// Deletes stand for nothing where nothing is stale.
proof fn lemma_no_deletes(order: Seq<(u32, u32)>)
    requires
        tables::lists(order, Set::empty()),
    ensures
        order.len() == 0,
{
    if order.len() > 0 {
        assert(order.to_set().contains(order[0]));
    }
}

/// A frame that shows what is live deletes nothing: right after it was
/// reconciled, and on a client of which no placement is recorded. To reconcile
/// it again changes nothing.
pub proof fn law_unchanged_frame_deletes_nothing(
    state: RenderView,
    client_id: u16,
    frame: Map<u32, Set<u32>>,
    order: Seq<(u32, u32)>,
)
    ensures
        ({
            let after = state.reconciled(client_id, frame);
            &&& tables::lists(order, after.stale(client_id, frame)) ==> after.delete_sequences(
                client_id,
                order,
            ).len() == 0
            &&& after.reconciled(client_id, frame) == after
        }),
        (forall|source: u32| !#[trigger] state.placements.contains_key((client_id, source)))
            && tables::lists(order, state.stale(client_id, frame)) ==> state.delete_sequences(
            client_id,
            order,
        ).len() == 0,
{
    let after = state.reconciled(client_id, frame);
    assert(after.stale(client_id, frame) =~= Set::empty());
    assert(after.reconciled(client_id, frame) =~= after);
    if tables::lists(order, after.stale(client_id, frame)) {
        lemma_no_deletes(order);
    }
    if forall|source: u32| !#[trigger] state.placements.contains_key((client_id, source)) {
        assert(state.stale(client_id, frame) =~= Set::empty());
        if tables::lists(order, state.stale(client_id, frame)) {
            lemma_no_deletes(order);
        }
    }
}

/// No placement is left behind: of a known image, each placement that was live
/// is either shown by the frame and recorded as live, or deleted; and none is both.
pub proof fn law_no_placement_is_left_behind(
    state: RenderView,
    client_id: u16,
    frame: Map<u32, Set<u32>>,
    source: u32,
    pid: u32,
)
    requires
        state.outer_ids.contains_key((client_id, source)),
        state.placements.contains_key((client_id, source)),
        state.placements[(client_id, source)].contains(pid),
    ensures
        ({
            let after = state.reconciled(client_id, frame);
            let recorded = after.placements.contains_key((client_id, source))
                && after.placements[(client_id, source)].contains(pid);
            recorded <==> !state.stale(client_id, frame).contains((source, pid))
        }),
{
    if render::frame_shows(frame, source, pid) {
        assert(frame[source] != Set::<u32>::empty());
    }
}

// ---------------------------------------------------------------------------
// What each operation changes
// ---------------------------------------------------------------------------

/// At the start nothing has been sent to anyone, and the first id is the base.
pub proof fn law_render_state_starts_empty(key: (u16, u32))
    ensures
        !RenderView::empty().outer_ids.contains_key(key),
        !RenderView::empty().transmitted.contains(key),
        !RenderView::empty().placements.contains_key(key),
        RenderView::empty().next_outer_id == 0x9000_0000,
{
}

/// The id that an image is rendered under on a client is the one it has there,
/// else the next; rendering gives it that id and marks it as sent. The counter
/// moves exactly where an id was handed out: by one, or from the last id back to
/// the base. Every other image, on this client and on others, stays as it was,
/// and so do all placements.
pub proof fn law_render_changes_one_image(
    state: RenderView,
    client_id: u16,
    chunk: KittyChunkSpec,
    other: (u16, u32),
)
    requires
        state.valid(),
    ensures
        ({
            let key = (client_id, chunk.source_image_id);
            let after = state.rendered(client_id, chunk);
            let known = state.outer_ids.contains_key(key);
            let id = if known {
                state.outer_ids[key]
            } else {
                state.next_outer_id
            };
            &&& state.id_of(client_id, chunk.source_image_id) == id
            &&& after.outer_ids.contains_key(key) && after.outer_ids[key] == id
            &&& after.transmitted.contains(key)
            &&& known ==> after.next_outer_id == state.next_outer_id
            &&& !known && state.next_outer_id < 0xffff_ffff ==> after.next_outer_id
                == state.next_outer_id + 1
            &&& !known && state.next_outer_id == 0xffff_ffff ==> after.next_outer_id == 0x9000_0000
            &&& after.placements == state.placements
            &&& other != key ==> {
                &&& after.outer_ids.contains_key(other) <==> state.outer_ids.contains_key(other)
                &&& after.outer_ids[other] == state.outer_ids[other]
                &&& after.transmitted.contains(other) <==> state.transmitted.contains(other)
            }
        }),
{
}

/// To forget some keys is to forget all of them in every respect, and nothing of
/// any other key: its outer id, whether it was sent, and its live placements
/// stay. No id becomes free to be handed out by it.
pub proof fn law_forget_takes_exactly_its_keys(
    state: RenderView,
    keys: Set<(u16, u32)>,
    k: (u16, u32),
)
    ensures
        ({
            let after = state.without(keys);
            &&& after.next_outer_id == state.next_outer_id
            &&& keys.contains(k) ==> {
                &&& !after.outer_ids.contains_key(k)
                &&& !after.transmitted.contains(k)
                &&& !after.placements.contains_key(k)
            }
            &&& !keys.contains(k) ==> {
                &&& after.outer_ids.contains_key(k) <==> state.outer_ids.contains_key(k)
                &&& state.outer_ids.contains_key(k) ==> after.outer_ids[k] == state.outer_ids[k]
                &&& after.transmitted.contains(k) <==> state.transmitted.contains(k)
                &&& after.placements.contains_key(k) <==> state.placements.contains_key(k)
                &&& state.placements.contains_key(k) ==> after.placements[k]
                    == state.placements[k]
            }
        }),
{
}

/// The keys of a client are those with it, and the keys of an image are those
/// with it, on every client.
pub proof fn law_keys_of_client_and_image(client_id: u16, source: u32, k: (u16, u32))
    ensures
        render::of_client(client_id).contains(k) <==> k.0 == client_id,
        render::of_image(source).contains(k) <==> k.1 == source,
{
}

/// The holders of an image are the clients that have an outer id for it, each
/// with that id.
pub proof fn law_holders(state: RenderView, source: u32, client_id: u16, outer_id: u32)
    ensures
        state.holders(source).contains((client_id, outer_id)) <==> state.outer_ids.contains_key(
            (client_id, source),
        ) && state.outer_ids[(client_id, source)] == outer_id,
{
}

/// Reconciling touches the live placements of its client alone: they become
/// those of the frame, without images of which it shows none. Outer ids, what
/// was sent, the counter, and the placements of every other client stay.
pub proof fn law_reconcile_records_the_frame(
    state: RenderView,
    client_id: u16,
    frame: Map<u32, Set<u32>>,
    k: (u16, u32),
    pid: u32,
)
    ensures
        ({
            let after = state.reconciled(client_id, frame);
            &&& after.outer_ids == state.outer_ids
            &&& after.transmitted == state.transmitted
            &&& after.next_outer_id == state.next_outer_id
            &&& k.0 == client_id ==> {
                &&& after.placements.contains_key(k) <==> frame.contains_key(k.1) && exists|p: u32|
                    frame[k.1].contains(p)
                &&& after.placements.contains_key(k) ==> (after.placements[k].contains(pid)
                    <==> frame[k.1].contains(pid))
            }
            &&& k.0 != client_id ==> {
                &&& after.placements.contains_key(k) <==> state.placements.contains_key(k)
                &&& state.placements.contains_key(k) ==> after.placements[k]
                    == state.placements[k]
            }
        }),
{
    if frame.contains_key(k.1) {
        if forall|p: u32| !frame[k.1].contains(p) {
            assert(frame[k.1] =~= Set::empty());
        }
    }
}

/// A placement is stale exactly if it is live on the client under a known outer
/// id and the frame does not show it.
pub proof fn law_stale_placements(
    state: RenderView,
    client_id: u16,
    frame: Map<u32, HashSet<u32>>,
    source: u32,
    pid: u32,
)
    ensures
        state.stale(client_id, render::frame_view(frame)).contains((source, pid)) <==> {
            &&& state.outer_ids.contains_key((client_id, source))
            &&& state.placements.contains_key((client_id, source))
            &&& state.placements[(client_id, source)].contains(pid)
            &&& !(frame.contains_key(source) && frame[source]@.contains(pid))
        },
        render::frame_view(frame).contains_key(source) <==> frame.contains_key(source),
        frame.contains_key(source) ==> render::frame_view(frame)[source] == frame[source]@,
{
}

/// The bytes that delete some placements are one delete for each, in order: with
/// one more placement, its delete follows, under the outer id that its image has
/// on the client.
pub proof fn law_each_stale_placement_is_deleted(
    state: RenderView,
    client_id: u16,
    order: Seq<(u32, u32)>,
    source: u32,
    pid: u32,
)
    ensures
        state.delete_sequences(client_id, Seq::empty()).len() == 0,
        state.delete_sequences(client_id, order.push((source, pid))) == state.delete_sequences(
            client_id,
            order,
        ) + sequence_laws::command_start('d') + seq![',' as u8, 'd' as u8, '=' as u8, 'i' as u8]
            + sequence_laws::silence() + sequence_laws::numbered(
            'i',
            state.outer_ids[(client_id, source)] as nat,
        ) + sequence_laws::numbered('p', pid as nat) + sequence_laws::command_end(),
{
    let more = order.push((source, pid));
    let outer_id = state.outer_ids[(client_id, source)];
    assert(more.drop_last() =~= order);
    sequence_laws::law_delete_bytes(outer_id, pid);
    let before = state.delete_sequences(client_id, order);
    let a = sequence_laws::command_start('d');
    let b = seq![',' as u8, 'd' as u8, '=' as u8, 'i' as u8];
    let c = sequence_laws::silence();
    let d = sequence_laws::numbered('i', outer_id as nat);
    let e = sequence_laws::numbered('p', pid as nat);
    let f = sequence_laws::command_end();
    assert(before + (a + b + c + d + e + f) =~= before + a + b + c + d + e + f);
}

/// In a grouped order nothing stands between two placements of one image but
/// placements of it.
pub proof fn law_grouped_order(order: Seq<(u32, u32)>, i: int, j: int, k: int)
    requires
        render::is_grouped(order),
        0 <= i <= j <= k < order.len(),
        order[i].0 == order[k].0,
    ensures
        order[j].0 == order[i].0,
{
}

/// What is sent for a chunk, byte by byte of its two sequences: the image in
/// full exactly where the client has not been sent it, then its placement, both
/// under the id that the client knows it by.
pub proof fn law_render_bytes(state: RenderView, client_id: u16, chunk: KittyChunkSpec)
    ensures
        ({
            let key = (client_id, chunk.source_image_id);
            let id = if state.outer_ids.contains_key(key) {
                state.outer_ids[key]
            } else {
                state.next_outer_id
            };
            state.render_sequence(client_id, chunk) == (if state.transmitted.contains(key) {
                Seq::empty()
            } else {
                render::transmit_sequence(id, chunk)
            }) + render::place_sequence(id, chunk)
        }),
{
    let id = state.id_of(client_id, chunk.source_image_id);
    assert(Seq::<u8>::empty() + render::place_sequence(id, chunk) =~= render::place_sequence(
        id,
        chunk,
    ));
}

} // verus!
