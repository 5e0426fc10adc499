//! Laws of a grid's images and placements.
use vstd::prelude::*;

use crate::geometry::PixelRect;
use crate::grid::{self, GridView, KittyPlacement, PlacementRequest, StoredKittyImage};
use crate::image;
use crate::protocol::{KittyAction, KittyControl, KittyFormat, KittyMedium};
use crate::tables;
use crate::upload::{self, FinishedImage, ImageView, UploadView};

verus! {

// ---------------------------------------------------------------------------
// Uploads
// ---------------------------------------------------------------------------

/// Whether a command carries image data.
pub open spec fn is_transmission(control: KittyControl) -> bool {
    control.action == KittyAction::Transmit || control.action == KittyAction::TransmitAndDisplay
}

/// The payloads of some chunks, one behind the other.
pub open spec fn joined(chunks: Seq<(KittyControl, Seq<u8>)>) -> Seq<u8>
    decreases chunks.len(),
{
    if chunks.len() == 0 {
        Seq::empty()
    } else {
        joined(chunks.drop_last()) + chunks.last().1
    }
}

impl GridView {
    /// The grid after some chunks in turn, and what the last of them asks for.
    pub open spec fn feed_all(self, chunks: Seq<(KittyControl, Seq<u8>)>) -> (
        GridView,
        Option<PlacementRequest>,
    )
        decreases chunks.len(),
    {
        if chunks.len() == 0 {
            (self, None)
        } else {
            self.feed_all(chunks.drop_last()).0.feed(chunks.last().0, chunks.last().1)
        }
    }
}

/// While chunks announce more, the upload gathers their payloads under the
/// control of the first, nothing is asked for, and nothing else changes.
pub proof fn law_upload_gathers(grid: GridView, chunks: Seq<(KittyControl, Seq<u8>)>)
    requires
        grid.upload is None,
        chunks.len() > 0,
        forall|i: int|
            0 <= i < chunks.len() ==> is_transmission((#[trigger] chunks[i]).0) && chunks[i].0.more,
    ensures
        grid.feed_all(chunks) == (
            GridView {
                upload: Some(UploadView { control: chunks[0].0, payload: joined(chunks) }),
                ..grid
            },
            None::<PlacementRequest>,
        ),
    decreases chunks.len(),
{
    let before = chunks.drop_last();
    assert(is_transmission(chunks.last().0) && chunks.last().0.more);
    if chunks.len() == 1 {
        assert(joined(before) =~= Seq::empty());
        assert(joined(chunks) =~= chunks[0].1);
        assert(grid.feed_all(before) == (grid, None::<PlacementRequest>));
    } else {
        assert forall|i: int| 0 <= i < before.len() implies is_transmission((#[trigger] before[i]).0)
            && before[i].0.more by {
            assert(before[i] == chunks[i]);
        }
        law_upload_gathers(grid, before);
    }
}

/// An upload in any number of chunks ends in the image that has the control of
/// the first chunk and the payloads of all of them, one behind the other. Keys
/// of later chunks do not count, except that the last announces no more.
pub proof fn law_chunks_are_reassembled(grid: GridView, chunks: Seq<(KittyControl, Seq<u8>)>)
    requires
        grid.upload is None,
        chunks.len() > 0,
        forall|i: int|
            0 <= i < chunks.len() ==> is_transmission((#[trigger] chunks[i]).0) && (
            chunks[i].0.more <==> i < chunks.len() - 1),
    ensures
        grid.feed_all(chunks) == grid.store(
            upload::finished(
                UploadView { control: chunks[0].0, payload: joined(chunks) },
                image::base64_decoded(joined(chunks)),
            ),
        ),
{
    let before = chunks.drop_last();
    assert(is_transmission(chunks.last().0) && !chunks.last().0.more);
    assert(GridView { upload: None, ..grid } == grid);
    if chunks.len() == 1 {
        assert(joined(before) =~= Seq::empty());
        assert(joined(chunks) =~= chunks[0].1);
        assert(grid.feed_all(before) == (grid, None::<PlacementRequest>));
    } else {
        assert forall|i: int| 0 <= i < before.len() implies is_transmission((#[trigger] before[i]).0)
            && before[i].0.more by {
            assert(before[i] == chunks[i]);
        }
        law_upload_gathers(grid, before);
    }
}

/// Dimensions that the control keys give count for every image: whatever its
/// format, compressed or not, and even where its payload does not decode.
pub proof fn law_explicit_dimensions_count(
    upload: UploadView,
    decoded: Option<Seq<u8>>,
    width: u32,
    height: u32,
)
    requires
        upload.control.src_width == Some(width),
        upload.control.src_height == Some(height),
    ensures
        upload::finished(upload, decoded).dimensions == Some((width, height)),
{
}

/// Without both control keys, the dimensions of an image that is compressed,
/// raw, or not decodable are unknown.
pub proof fn law_dimensions_need_a_header(upload: UploadView, decoded: Option<Seq<u8>>)
    requires
        upload.control.src_width is None || upload.control.src_height is None,
        upload.control.compressed || upload.control.format != KittyFormat::Png || decoded is None,
    ensures
        upload::finished(upload, decoded).dimensions is None,
{
}

/// The four bytes of a number in big-endian order.
pub open spec fn be_bytes(n: u32) -> Seq<u8> {
    seq![
        (n / 0x100_0000) as u8,
        (n / 0x1_0000 % 0x100) as u8,
        (n / 0x100 % 0x100) as u8,
        (n % 0x100) as u8,
    ]
}

proof fn lemma_be_bytes(bytes: Seq<u8>, at: int, n: u32)
    requires
        bytes[at] == be_bytes(n)[0],
        bytes[at + 1] == be_bytes(n)[1],
        bytes[at + 2] == be_bytes(n)[2],
        bytes[at + 3] == be_bytes(n)[3],
    ensures
        image::be_u32(bytes, at) == n,
{
    let (a, b, c, d) = (bytes[at], bytes[at + 1], bytes[at + 2], bytes[at + 3]);
    assert(a == n / 0x100_0000 && b == n / 0x1_0000 % 0x100 && c == n / 0x100 % 0x100 && d == n
        % 0x100);
    assert(a * 0x100_0000 + b * 0x1_0000 + c * 0x100 + d == n);
}

/// The dimensions in the header of an uncompressed PNG are those of the image,
/// whatever stands around them.
pub proof fn law_png_header_counts(
    upload: UploadView,
    chunk: Seq<u8>,
    width: u32,
    height: u32,
    rest: Seq<u8>,
)
    requires
        upload.control.src_width is None || upload.control.src_height is None,
        !upload.control.compressed,
        upload.control.format == KittyFormat::Png,
        chunk.len() == 8,
    ensures
        upload::finished(
            upload,
            Some(
                seq![0x89u8, 'P' as u8, 'N' as u8, 'G' as u8, 13u8, 10u8, 26u8, 10u8] + chunk
                    + be_bytes(width) + be_bytes(height) + rest,
            ),
        ).dimensions == Some((width, height)),
{
    let signature = seq![0x89u8, 'P' as u8, 'N' as u8, 'G' as u8, 13u8, 10u8, 26u8, 10u8];
    let data = signature + chunk + be_bytes(width) + be_bytes(height) + rest;
    assert(data.take(8) =~= signature);
    assert(signature =~= image::png_signature());
    assert(data.subrange(16, 20) =~= be_bytes(width));
    assert(data.subrange(20, 24) =~= be_bytes(height));
    lemma_be_bytes(data, 16, width);
    lemma_be_bytes(data, 20, height);
}

/// Data that is too short for the header, or that does not start as a PNG does,
/// tells no dimensions.
pub proof fn law_other_data_has_no_header(upload: UploadView, data: Seq<u8>, i: int)
    requires
        upload.control.src_width is None || upload.control.src_height is None,
        data.len() < 24 || 0 <= i < 8 && data[i] != seq![
            0x89u8,
            'P' as u8,
            'N' as u8,
            'G' as u8,
            13u8,
            10u8,
            26u8,
            10u8,
        ][i],
    ensures
        upload::finished(upload, Some(data)).dimensions is None,
{
    let signature = seq![0x89u8, 'P' as u8, 'N' as u8, 'G' as u8, 13u8, 10u8, 26u8, 10u8];
    assert(signature =~= image::png_signature());
    if data.len() >= 24 {
        assert(data.take(8)[i] == data[i]);
    }
}

/// A finished image has the control of its upload, and its payload byte for byte.
pub proof fn law_finished_image_keeps_its_payload(upload: UploadView, decoded: Option<Seq<u8>>)
    ensures
        upload::finished(upload, decoded).control == upload.control,
        upload::finished(upload, decoded).payload == upload.payload,
{
}

/// The dimensions of a finished image are those of its control and of what its
/// payload decodes to; one that does not decode counts as empty.
pub proof fn law_finished_image_has_its_dimensions(upload: UploadView, data: Seq<u8>)
    ensures
        upload::finished(upload, Some(data)).dimensions == image::dimensions_of(
            upload.control,
            data,
        ),
        upload::finished(upload, None).dimensions == image::dimensions_of(
            upload.control,
            Seq::empty(),
        ),
{
}

/// A finished and a stored image are seen field by field as they are, and so is
/// an optional payload.
pub proof fn law_image_views(image: FinishedImage, stored: StoredKittyImage, data: Vec<u8>)
    ensures
        image@.control == image.control,
        image@.payload == image.payload_b64@,
        image@.dimensions == image.dimensions,
        stored@.control == stored.control,
        stored@.payload == stored.payload_b64@,
        stored@.dimensions == stored.dimensions,
        image::bytes_of(Some(data)) == Some(data@),
        image::bytes_of(None) is None,
{
}

/// Whether a command that begins an upload is kept in the end: on the direct
/// medium, and addressed by an id or by nothing at all.
pub open spec fn is_kept(control: KittyControl) -> bool {
    control.medium == KittyMedium::Direct && (control.image_id is Some || control.image_number is None)
}

/// Whether `request` is what an image with this control asks for: a placement
/// under its id with the keys of the control where it is to be displayed, else
/// nothing.
pub open spec fn is_request_of(
    request: Option<PlacementRequest>,
    id: u32,
    control: KittyControl,
) -> bool {
    match request {
        Some(r) => {
            &&& control.action == KittyAction::TransmitAndDisplay
            &&& r.image_id == id
            &&& r.placement_id == control.placement_id
            &&& r.target_cols == control.target_cols
            &&& r.target_rows == control.target_rows
            &&& r.move_cursor == control.move_cursor
        },
        None => control.action != KittyAction::TransmitAndDisplay,
    }
}

/// The id that an image with this control gets: the one that was chosen, else
/// the next that is allocated.
pub open spec fn id_given(grid: GridView, control: KittyControl) -> u32 {
    if control.image_id is Some {
        control.image_id->0
    } else {
        grid.local_id()
    }
}

/// A chunk that announces more is added to the upload, or begins one. Nothing
/// else changes, and nothing is asked for.
pub proof fn law_chunk_with_more_is_added(grid: GridView, control: KittyControl, payload: Seq<u8>)
    requires
        is_transmission(control),
        control.more,
    ensures
        ({
            let (after, request) = grid.feed(control, payload);
            &&& request is None
            &&& after.upload is Some
            &&& grid.upload is None ==> after.upload->0.control == control
                && after.upload->0.payload == payload
            &&& grid.upload is Some ==> after.upload->0.control == grid.upload->0.control
                && after.upload->0.payload == grid.upload->0.payload + payload
            &&& after.images == grid.images
            &&& after.placements == grid.placements
            &&& after.next_local_id == grid.next_local_id
            &&& after.deleted == grid.deleted
        }),
{
}

/// A chunk that announces no more ends the upload. The image that is stored has
/// the control of the first chunk, the whole payload byte for byte, and the
/// dimensions that follow from both; it is asked for by the keys of that
/// control. One that is not kept changes nothing.
pub proof fn law_last_chunk_stores_the_image(
    grid: GridView,
    control: KittyControl,
    payload: Seq<u8>,
    other: u32,
)
    requires
        is_transmission(control),
        !control.more,
    ensures
        ({
            let (after, request) = grid.feed(control, payload);
            let first = if grid.upload is Some {
                grid.upload->0.control
            } else {
                control
            };
            let whole = if grid.upload is Some {
                grid.upload->0.payload + payload
            } else {
                payload
            };
            let id = id_given(grid, first);
            &&& after.upload is None
            &&& after.placements == grid.placements
            &&& after.deleted == grid.deleted
            &&& is_kept(first) ==> {
                &&& after.images.contains_key(id)
                &&& after.images[id].control == first
                &&& after.images[id].payload == whole
                &&& after.images[id].dimensions == image::dimensions_of(
                    first,
                    match image::base64_decoded(whole) {
                        Some(data) => data,
                        None => Seq::empty(),
                    },
                )
                &&& is_request_of(request, id, first)
                &&& after.next_local_id == (if first.image_id is Some {
                    grid.next_local_id
                } else {
                    id
                })
                &&& other != id ==> (after.images.contains_key(other) <==> grid.images.contains_key(
                    other,
                )) && after.images[other] == grid.images[other]
            }
            &&& !is_kept(first) ==> after.images == grid.images && after.next_local_id
                == grid.next_local_id && request is None
        }),
{
}

/// After an upload in any number of chunks, the stored payload is that of all
/// chunks, one behind the other, under the control of the first.
pub proof fn law_stored_payload_is_whole(grid: GridView, chunks: Seq<(KittyControl, Seq<u8>)>)
    requires
        grid.upload is None,
        chunks.len() > 0,
        forall|i: int|
            0 <= i < chunks.len() ==> is_transmission((#[trigger] chunks[i]).0) && (
            chunks[i].0.more <==> i < chunks.len() - 1),
        is_kept(chunks[0].0),
    ensures
        ({
            let (after, request) = grid.feed_all(chunks);
            let id = id_given(grid, chunks[0].0);
            &&& after.images.contains_key(id)
            &&& after.images[id].control == chunks[0].0
            &&& after.images[id].payload == joined(chunks)
            &&& is_request_of(request, id, chunks[0].0)
        }),
{
    law_chunks_are_reassembled(grid, chunks);
}

/// A query, a delete or an unknown command that is fed changes nothing and asks
/// for nothing.
pub proof fn law_other_commands_do_nothing(grid: GridView, control: KittyControl, payload: Seq<u8>)
    requires
        !is_transmission(control),
        control.action != KittyAction::Place,
    ensures
        grid.feed(control, payload).0 == grid,
        grid.feed(control, payload).1 is None,
{
}

/// Only chunks of a transmission touch an active upload: a query or a place
/// command in between leaves the grid as it was, and so does a delete command
/// or an erased area with the upload. None of them changes which id is given next.
pub proof fn law_upload_is_undisturbed(
    grid: GridView,
    control: KittyControl,
    payload: Seq<u8>,
    id: u32,
    rect: PixelRect,
    cleared: GridView,
)
    requires
        !is_transmission(control),
        grid.is_cleared_to(cleared),
    ensures
        grid.feed(control, payload).0 == grid,
        grid.without_image(id).upload == grid.upload,
        grid.reaped(rect).upload == grid.upload,
        cleared.upload == grid.upload,
        grid.without_image(id).next_local_id == grid.next_local_id,
        grid.reaped(rect).next_local_id == grid.next_local_id,
        cleared.next_local_id == grid.next_local_id,
{
}

// ---------------------------------------------------------------------------
// Storing and placing
// ---------------------------------------------------------------------------

/// A stored image reads back as it came, payload included, under the id that
/// its application chose, and nothing else changes. It asks for a placement
/// exactly where it is to be displayed, with the keys of its control.
pub proof fn law_store_then_read(grid: GridView, image: ImageView, other: u32)
    requires
        is_kept(image.control),
    ensures
        ({
            let id = id_given(grid, image.control);
            let (after, request) = grid.store(image);
            &&& grid.id_for(image.control) == id
            &&& after.images.contains_key(id) && after.images[id] == image
            &&& other != id ==> (after.images.contains_key(other) <==> grid.images.contains_key(
                other,
            )) && after.images[other] == grid.images[other]
            &&& after.upload == grid.upload
            &&& after.placements == grid.placements
            &&& after.deleted == grid.deleted
            &&& after.next_local_id == (if image.control.image_id is Some {
                grid.next_local_id
            } else {
                id
            })
            &&& is_request_of(request, id, image.control)
        }),
{
}

/// An image without an id of its own replaces no stored image.
pub proof fn law_anonymous_image_replaces_none(grid: GridView, image: ImageView, id: u32)
    requires
        is_kept(image.control),
        image.control.image_id is None,
        exists|free: u32| free != 0 && !#[trigger] grid.images.contains_key(free),
        grid.images.contains_key(id),
    ensures
        grid.local_id() != 0,
        grid.id_for(image.control) == grid.local_id(),
        grid.store(image).0.images.contains_key(id),
        grid.store(image).0.images[id] == grid.images[id],
        grid.store(image).0.images.dom() == grid.images.dom().insert(grid.local_id()),
{
    law_free_id(grid);
    grid.lemma_local_id();
    assert(grid.store(image).0.images.dom() =~= grid.images.dom().insert(grid.local_id()));
}

/// There is an id for an anonymous image exactly if some id other than zero is
/// not taken.
pub proof fn law_free_id(grid: GridView)
    ensures
        grid.has_free_id() <==> exists|id: u32| id != 0 && !#[trigger] grid.images.contains_key(id),
{
    if grid.has_free_id() {
        let id = choose|id: u32| grid::is_free(grid.images.dom(), id);
        assert(id != 0 && !grid.images.contains_key(id));
    }
    if exists|id: u32| id != 0 && !#[trigger] grid.images.contains_key(id) {
        let id = choose|id: u32| id != 0 && !#[trigger] grid.images.contains_key(id);
        assert(grid::is_free(grid.images.dom(), id));
    }
}

/// How many ids lie between `from` and `id`, counted upwards and round.
pub open spec fn ids_between(from: u32, id: u32) -> int {
    if id > from {
        id - from - 1
    } else {
        id - from + 0xffff_ffff
    }
}

proof fn lemma_first_free(taken: Set<u32>, from: u32, tries: nat, id: u32)
    requires
        id != 0 && !taken.contains(id),
        ids_between(from, id) <= tries,
    ensures
        ids_between(from, grid::next_free(taken, from, tries)) <= ids_between(from, id),
    decreases tries,
{
    let next = grid::successor(from);
    assert(ids_between(from, next) == 0);
    if tries > 0 && !grid::is_free(taken, next) {
        assert(next != id);
        assert(ids_between(next, id) == ids_between(from, id) - 1);
        lemma_first_free(taken, next, (tries - 1) as nat, id);
        let found = grid::next_free(taken, next, (tries - 1) as nat);
        assert(found == next || ids_between(from, found) == ids_between(next, found) + 1);
    }
}

/// The id for the next anonymous image is the first after the last allocated
/// that is neither zero nor taken.
pub proof fn law_local_id_is_the_first_free(grid: GridView, id: u32)
    requires
        id != 0,
        !grid.images.contains_key(id),
    ensures
        grid.local_id() != 0,
        !grid.images.contains_key(grid.local_id()),
        ids_between(grid.next_local_id, grid.local_id()) <= ids_between(grid.next_local_id, id),
{
    law_free_id(grid);
    grid.lemma_local_id();
    lemma_first_free(grid.images.dom(), grid.next_local_id, u32::MAX as nat, id);
}

/// An id is allocated for an image exactly if it is kept and has none, and by a
/// chunk exactly if it ends the upload of such an image.
pub proof fn law_who_takes_a_local_id(grid: GridView, control: KittyControl)
    ensures
        GridView::takes_local_id(control) <==> control.medium == KittyMedium::Direct
            && control.image_id is None && control.image_number is None,
        grid.feed_takes_local_id(control) <==> is_transmission(control) && !control.more
            && GridView::takes_local_id(
            if grid.upload is Some {
                grid.upload->0.control
            } else {
                control
            },
        ),
{
}

/// An image on an unsupported medium, or one that an image number alone
/// addresses, leaves no trace.
pub proof fn law_rejected_image_leaves_no_trace(grid: GridView, image: ImageView)
    requires
        !is_kept(image.control),
    ensures
        grid.store(image) == (grid, None::<PlacementRequest>),
{
}

/// A place command is granted exactly for a stored image, with its own keys, and
/// changes nothing. It is after the image was stored, and not after it was
/// deleted.
pub proof fn law_place_needs_the_image(
    grid: GridView,
    image: ImageView,
    id: u32,
    place: KittyControl,
    payload: Seq<u8>,
)
    requires
        place.action == KittyAction::Place,
        place.image_id == Some(id),
    ensures
        grid.feed(place, payload).0 == grid,
        match grid.feed(place, payload).1 {
            Some(r) => {
                &&& grid.images.contains_key(id)
                &&& r.image_id == id
                &&& r.placement_id == place.placement_id
                &&& r.target_cols == place.target_cols
                &&& r.target_rows == place.target_rows
                &&& r.move_cursor == place.move_cursor
            },
            None => !grid.images.contains_key(id),
        },
        is_kept(image.control) && id_given(grid, image.control) == id ==> grid.store(
            image,
        ).0.feed(place, payload).1 is Some,
        grid.without_image(id).feed(place, payload).1 is None,
{
}

/// A place command without an id is not granted.
pub proof fn law_place_needs_an_id(grid: GridView, place: KittyControl, payload: Seq<u8>)
    requires
        place.action == KittyAction::Place,
        place.image_id is None,
    ensures
        grid.feed(place, payload) == (grid, None::<PlacementRequest>),
{
}

/// A grid starts empty, and the first anonymous image gets the id one.
pub proof fn law_grid_starts_empty()
    ensures
        GridView::empty().upload is None,
        forall|id: u32| !GridView::empty().images.contains_key(id),
        GridView::empty().placements.len() == 0,
        GridView::empty().deleted.len() == 0,
        GridView::empty().local_id() == 1,
{
}

/// What holds of every grid that the operations make: an upload waits only
/// after a transmission that announced more, and every stored image is one that
/// is kept, under the id that was chosen for it or under one that is not zero.
pub proof fn law_valid_grid(grid: GridView, id: u32)
    requires
        grid.valid(),
    ensures
        grid.upload is Some ==> is_transmission(grid.upload->0.control)
            && grid.upload->0.control.more,
        grid.images.contains_key(id) ==> is_kept(grid.images[id].control) && (
        grid.images[id].control.image_id is Some ==> grid.images[id].control.image_id == Some(id))
            && (grid.images[id].control.image_id is None ==> id != 0),
{
}

/// Where fewer images are stored than there are ids, one is free for an
/// anonymous image.
pub proof fn law_has_free_id(grid: GridView)
    requires
        grid.images.dom().finite(),
        grid.images.dom().len() < u32::MAX,
    ensures
        grid.has_free_id(),
{
    if !grid.has_free_id() {
        assert forall|id: u32| 1 <= id implies grid.images.dom().contains(id) by {
            assert(!grid::is_free(grid.images.dom(), id));
        }
        lemma_taken_up_to(grid.images.dom(), u32::MAX as int);
    }
}

/// A set that holds the ids from one up to `n` has at least `n` elements.
proof fn lemma_taken_up_to(taken: Set<u32>, n: int)
    requires
        taken.finite(),
        0 <= n <= u32::MAX,
        forall|id: u32| 1 <= id <= n ==> taken.contains(id),
    ensures
        taken.len() >= n,
    decreases n,
{
    if n > 0 {
        let last = n as u32;
        assert(taken.contains(last));
        lemma_taken_up_to(taken.remove(last), n - 1);
    }
}

// ---------------------------------------------------------------------------
// Removing
// ---------------------------------------------------------------------------

/// Whether `after` has no image that `before` lacks, and has queued exactly the
/// images that it lost for deletion, each once, behind what was queued before.
pub open spec fn queues_what_it_drops(before: GridView, after: GridView) -> bool {
    let kept = before.deleted.len() as int;
    &&& after.images.submap_of(before.images)
    &&& kept <= after.deleted.len()
    &&& after.deleted.take(kept) == before.deleted
    &&& tables::lists(
        after.deleted.skip(kept),
        before.images.dom().difference(after.images.dom()),
    )
}

proof fn lemma_filter<T>(s: Seq<T>, pred: spec_fn(T) -> bool)
    ensures
        forall|x: T| #[trigger] s.filter(pred).contains(x) <==> s.contains(x) && pred(x),
    decreases s.len(),
{
    reveal(Seq::filter);
    if s.len() > 0 {
        lemma_filter(s.drop_last(), pred);
        assert(s =~= s.drop_last().push(s.last()));
        tables::lemma_push_contains(s.drop_last(), s.last());
        tables::lemma_push_contains(s.drop_last().filter(pred), s.last());
    }
}

proof fn lemma_filter_keeps_all<T>(s: Seq<T>, pred: spec_fn(T) -> bool)
    requires
        forall|i: int| 0 <= i < s.len() ==> pred(#[trigger] s[i]),
    ensures
        s.filter(pred) == s,
    decreases s.len(),
{
    reveal(Seq::filter);
    if s.len() > 0 {
        lemma_filter_keeps_all(s.drop_last(), pred);
        assert(pred(s.last()));
        assert(s.filter(pred) =~= s);
    } else {
        assert(s.filter(pred) =~= s);
    }
}

proof fn lemma_is_placed(placements: Seq<KittyPlacement>, id: u32)
    ensures
        grid::is_placed(placements, id) <==> exists|p: KittyPlacement|
            placements.contains(p) && p.image_id == id,
{
    if grid::is_placed(placements, id) {
        let i = choose|i: int|
            0 <= i < placements.len() && (#[trigger] placements[i]).image_id == id;
        assert(placements.contains(placements[i]));
    }
}

/// What is an orphan: stored, hit, and without a placement that is kept.
proof fn lemma_orphans(hit: Seq<u32>, stored: Set<u32>, kept: Seq<KittyPlacement>)
    ensures
        grid::orphans(hit, stored, kept).no_duplicates(),
        forall|id: u32| #[trigger]
            grid::orphans(hit, stored, kept).contains(id) <==> hit.contains(id)
                && stored.contains(id) && !grid::is_placed(kept, id),
    decreases hit.len(),
{
    if hit.len() > 0 {
        lemma_orphans(hit.drop_last(), stored, kept);
        assert(hit =~= hit.drop_last().push(hit.last()));
        tables::lemma_push_contains(hit.drop_last(), hit.last());
        tables::lemma_push_contains(grid::orphans(hit.drop_last(), stored, kept), hit.last());
    }
}

/// Two rectangles have a pixel in common exactly if neither is empty and each
/// begins before the other ends, both across and down.
pub proof fn law_overlap_by_edges(a: PixelRect, b: PixelRect)
    ensures
        a.overlaps(b) <==> {
            &&& a.width > 0 && a.height > 0 && b.width > 0 && b.height > 0
            &&& a.x < b.x + b.width && b.x < a.x + a.width
            &&& a.y < b.y + b.height && b.y < a.y + a.height
        },
        a.overlaps(b) <==> b.overlaps(a),
{
    let x = if a.x >= b.x {
        a.x as int
    } else {
        b.x as int
    };
    let y = if a.y >= b.y {
        a.y as int
    } else {
        b.y as int
    };
    if a.covers(x, y) && b.covers(x, y) {
        assert(a.overlaps(b) && b.overlaps(a));
    }
}

/// Which images a reap drops: those that are stored, that had a placement on the
/// rectangle, and that have none elsewhere.
pub proof fn law_reap_drops_orphans(grid: GridView, rect: PixelRect, id: u32)
    ensures
        grid.orphans_on(rect).no_duplicates(),
        grid.orphans_on(rect).contains(id) <==> {
            &&& grid.images.contains_key(id)
            &&& exists|p: KittyPlacement| #[trigger]
                grid.placements.contains(p) && p.image_id == id && p.rect.overlaps(rect)
            &&& forall|p: KittyPlacement| #[trigger]
                grid.placements.contains(p) && p.image_id == id ==> p.rect.overlaps(rect)
        },
{
    let on = |p: KittyPlacement| p.rect.overlaps(rect);
    let off = |p: KittyPlacement| !p.rect.overlaps(rect);
    let hits = grid.placements.filter(on);
    lemma_filter(grid.placements, on);
    lemma_filter(grid.placements, off);
    let kept = grid.placements_off(rect);
    assert forall|p: KittyPlacement| #[trigger] grid.placements.contains(p) implies (hits.contains(
        p,
    ) <==> p.rect.overlaps(rect)) && (kept.contains(p) <==> !p.rect.overlaps(rect)) by {}
    lemma_orphans(grid.images_on(rect), grid.images.dom(), grid.placements_off(rect));
    lemma_is_placed(grid.placements_off(rect), id);
    assert(grid.images_on(rect).contains(id) <==> exists|p: KittyPlacement|
        hits.contains(p) && p.image_id == id) by {
        if grid.images_on(rect).contains(id) {
            let i = choose|i: int|
                0 <= i < grid.images_on(rect).len() && grid.images_on(rect)[i] == id;
            assert(hits.contains(hits[i]));
        }
        if exists|p: KittyPlacement| hits.contains(p) && p.image_id == id {
            let p = choose|p: KittyPlacement| hits.contains(p) && p.image_id == id;
            let i = choose|i: int| 0 <= i < hits.len() && hits[i] == p;
            assert(grid.images_on(rect)[i] == id);
        }
    }
}

/// After a reap no placement has a pixel in the rectangle, every placement
/// without one is still there, and no image that was dropped has a placement.
pub proof fn law_reap_frees_the_rectangle(grid: GridView, rect: PixelRect, p: KittyPlacement)
    ensures
        grid.reaped(rect).placements.contains(p) <==> grid.placements.contains(p)
            && !p.rect.overlaps(rect),
        grid.reaped(rect).placements.contains(p) && grid.images.contains_key(p.image_id)
            ==> grid.reaped(rect).images.contains_key(p.image_id),
{
    lemma_filter(grid.placements, |p: KittyPlacement| !p.rect.overlaps(rect));
    law_reap_drops_orphans(grid, rect, p.image_id);
}

/// A reap keeps the order of the placements, and looks at each by itself: with
/// one more placement, that one is kept exactly if it has no pixel in the
/// rectangle, and is hit otherwise.
pub proof fn law_reap_keeps_the_order(grid: GridView, rect: PixelRect, p: KittyPlacement)
    ensures
        ({
            let more = GridView { placements: grid.placements.push(p), ..grid };
            let hit = p.rect.overlaps(rect);
            &&& more.reaped(rect).placements == (if hit {
                grid.reaped(rect).placements
            } else {
                grid.reaped(rect).placements.push(p)
            })
            &&& more.images_on(rect) == (if hit {
                grid.images_on(rect).push(p.image_id)
            } else {
                grid.images_on(rect)
            })
        }),
        grid.placements.len() == 0 ==> grid.reaped(rect).placements.len() == 0 && grid.images_on(
            rect,
        ).len() == 0,
{
    reveal(Seq::filter);
    let more = grid.placements.push(p);
    assert(more.drop_last() =~= grid.placements);
    let image = |p: KittyPlacement| p.image_id;
    let hits = grid.placements.filter(|p: KittyPlacement| p.rect.overlaps(rect));
    assert(hits.push(p).map_values(image) =~= hits.map_values(image).push(p.image_id));
}

/// The images that a reap leaves: all but those that it takes the last placement
/// from, each as it was.
pub proof fn law_reap_keeps_other_images(grid: GridView, rect: PixelRect, id: u32)
    ensures
        grid.reaped(rect).images.contains_key(id) <==> grid.images.contains_key(id) && !({
            &&& exists|p: KittyPlacement| #[trigger]
                grid.placements.contains(p) && p.image_id == id && p.rect.overlaps(rect)
            &&& forall|p: KittyPlacement| #[trigger]
                grid.placements.contains(p) && p.image_id == id ==> p.rect.overlaps(rect)
        }),
        grid.reaped(rect).images.contains_key(id) ==> grid.reaped(rect).images[id]
            == grid.images[id],
{
    law_reap_drops_orphans(grid, rect, id);
    assert(grid.orphans_on(rect).to_set().contains(id) <==> grid.orphans_on(rect).contains(id));
}

proof fn lemma_orphans_in_order(
    hit: Seq<u32>,
    stored: Set<u32>,
    kept: Seq<KittyPlacement>,
    i: int,
    j: int,
)
    requires
        0 <= i < j < grid::orphans(hit, stored, kept).len(),
    ensures
        exists|a: int|
            #![trigger hit[a]]
            0 <= a < hit.len() && hit[a] == grid::orphans(hit, stored, kept)[i] && forall|b: int|
                0 <= b < hit.len() && #[trigger] hit[b] == grid::orphans(hit, stored, kept)[j]
                    ==> a < b,
    decreases hit.len(),
{
    let before = hit.drop_last();
    let all = grid::orphans(hit, stored, kept);
    let some = grid::orphans(before, stored, kept);
    lemma_orphans(hit, stored, kept);
    lemma_orphans(before, stored, kept);
    assert(all.contains(all[i]) && all.contains(all[j]));
    if j < some.len() {
        lemma_orphans_in_order(before, stored, kept, i, j);
        let a = choose|a: int|
            #![trigger before[a]]
            0 <= a < before.len() && before[a] == some[i] && forall|b: int|
                0 <= b < before.len() && #[trigger] before[b] == some[j] ==> a < b;
        assert(hit[a] == all[i]);
        assert forall|b: int| 0 <= b < hit.len() && #[trigger] hit[b] == all[j] implies a < b by {
            if b < before.len() {
                assert(before[b] == some[j]);
            }
        }
    } else {
        assert(some.contains(some[i]));
        assert(before.contains(some[i]));
        let a = choose|a: int| 0 <= a < before.len() && before[a] == some[i];
        assert(hit[a] == all[i]);
        assert forall|b: int| 0 <= b < hit.len() && #[trigger] hit[b] == all[j] implies a < b by {
            if b < before.len() {
                assert(before[b] == all[j]);
                assert(before.contains(all[j]));
                assert(some.contains(all[j]));
            }
        }
    }
}

/// The images that a reap drops are queued in the order in which they were first
/// hit, behind what was queued before.
pub proof fn law_reap_queues_in_order(grid: GridView, rect: PixelRect, i: int, j: int)
    requires
        grid.deleted.len() <= i < j < grid.reaped(rect).deleted.len(),
    ensures
        grid.reaped(rect).deleted.take(grid.deleted.len() as int) == grid.deleted,
        exists|a: int|
            #![trigger grid.images_on(rect)[a]]
            0 <= a < grid.images_on(rect).len() && grid.images_on(rect)[a] == grid.reaped(
                rect,
            ).deleted[i] && forall|b: int|
                0 <= b < grid.images_on(rect).len() && #[trigger] grid.images_on(rect)[b]
                    == grid.reaped(rect).deleted[j] ==> a < b,
{
    let n = grid.deleted.len();
    assert(grid.reaped(rect).deleted.take(n as int) =~= grid.deleted);
    lemma_orphans_in_order(
        grid.images_on(rect),
        grid.images.dom(),
        grid.placements_off(rect),
        i - n,
        j - n,
    );
}

/// A rectangle that no placement touches reaps nothing.
pub proof fn law_reap_elsewhere_does_nothing(grid: GridView, rect: PixelRect)
    requires
        forall|i: int|
            0 <= i < grid.placements.len() ==> !(#[trigger] grid.placements[i]).rect.overlaps(rect),
    ensures
        grid.reaped(rect) == grid,
{
    lemma_filter_keeps_all(grid.placements, |p: KittyPlacement| !p.rect.overlaps(rect));
    assert forall|id: u32| !grid.orphans_on(rect).contains(id) by {
        law_reap_drops_orphans(grid, rect, id);
        assert forall|p: KittyPlacement| grid.placements.contains(p) implies !p.rect.overlaps(
            rect,
        ) by {
            let i = choose|i: int| 0 <= i < grid.placements.len() && grid.placements[i] == p;
        }
    }
    assert(grid.orphans_on(rect) =~= Seq::empty()) by {
        if grid.orphans_on(rect).len() > 0 {
            assert(grid.orphans_on(rect).contains(grid.orphans_on(rect)[0]));
        }
    }
    assert(grid.reaped(rect) =~= grid);
}

/// Every image that leaves the grid is queued for deletion in the outer
/// terminal, exactly once, whether it is deleted by its id, with all others, or
/// because text was drawn over its last placement.
pub proof fn law_dropped_images_are_queued(
    grid: GridView,
    id: u32,
    rect: PixelRect,
    cleared: GridView,
)
    requires
        grid.is_cleared_to(cleared),
    ensures
        queues_what_it_drops(grid, grid.without_image(id)),
        queues_what_it_drops(grid, grid.reaped(rect)),
        queues_what_it_drops(grid, cleared),
{
    let kept = grid.deleted.len() as int;
    // By id.
    let one = grid.without_image(id);
    assert(one.deleted.take(kept) =~= grid.deleted);
    let dropped = grid.images.dom().difference(one.images.dom());
    if grid.images.contains_key(id) {
        assert(one.deleted.skip(kept) =~= seq![id]);
        assert(seq![id][0] == id);
        assert(seq![id].to_set() =~= dropped);
    } else {
        assert(one.deleted.skip(kept) =~= Seq::empty());
        assert(Seq::<u32>::empty().to_set() =~= dropped);
    }
    // Drawn over.
    let reaped = grid.reaped(rect);
    let orphans = grid.orphans_on(rect);
    assert(reaped.deleted.take(kept) =~= grid.deleted);
    assert(reaped.deleted.skip(kept) =~= orphans);
    assert forall|other: u32| orphans.to_set().contains(other) implies grid.images.contains_key(
        other,
    ) by {
        law_reap_drops_orphans(grid, rect, other);
    }
    law_reap_drops_orphans(grid, rect, id);
    assert(orphans.to_set() =~= grid.images.dom().difference(reaped.images.dom()));
    // All of them.
    assert(cleared.deleted.take(kept) =~= grid.deleted);
    assert(grid.images.dom().difference(cleared.images.dom()) =~= grid.images.dom());
}

/// After a delete by id neither the image nor a placement of it is left, and a
/// second delete changes nothing.
pub proof fn law_delete_by_id(grid: GridView, id: u32)
    ensures
        !grid.without_image(id).images.contains_key(id),
        !grid::is_placed(grid.without_image(id).placements, id),
        grid.without_image(id).without_image(id) == grid.without_image(id),
{
    let stays = |p: KittyPlacement| p.image_id != id;
    let after = grid.without_image(id);
    lemma_filter(grid.placements, stays);
    lemma_is_placed(after.placements, id);
    assert forall|i: int| 0 <= i < after.placements.len() implies stays(
        #[trigger] after.placements[i],
    ) by {
        assert(after.placements.contains(after.placements[i]));
    }
    lemma_filter_keeps_all(after.placements, stays);
    assert(after.without_image(id) =~= after);
}

/// A delete by id takes nothing but what belongs to the image: every other image
/// and every placement of another image stays, in order and as often as before.
/// The id is queued exactly if the image was stored.
pub proof fn law_delete_keeps_the_rest(grid: GridView, id: u32, other: u32, p: KittyPlacement)
    ensures
        ({
            let after = grid.without_image(id);
            let more = GridView { placements: grid.placements.push(p), ..grid };
            &&& after.placements.contains(p) <==> grid.placements.contains(p) && p.image_id != id
            &&& more.without_image(id).placements == (if p.image_id == id {
                after.placements
            } else {
                after.placements.push(p)
            })
            &&& grid.placements.len() == 0 ==> after.placements.len() == 0
            &&& after.images.contains_key(other) <==> grid.images.contains_key(other) && other != id
            &&& after.images.contains_key(other) ==> after.images[other] == grid.images[other]
            &&& after.deleted == (if grid.images.contains_key(id) {
                grid.deleted.push(id)
            } else {
                grid.deleted
            })
        }),
{
    reveal(Seq::filter);
    lemma_filter(grid.placements, |p: KittyPlacement| p.image_id != id);
    assert(grid.placements.push(p).drop_last() =~= grid.placements);
}

/// A cleared grid has no images and no placements, and clearing it again
/// changes nothing.
pub proof fn law_clear_again(grid: GridView, cleared: GridView, again: GridView)
    requires
        grid.is_cleared_to(cleared),
        cleared.is_cleared_to(again),
    ensures
        forall|id: u32| !cleared.images.contains_key(id),
        cleared.placements.len() == 0,
        again == cleared,
{
    let queued = again.deleted.skip(cleared.deleted.len() as int);
    assert(queued =~= Seq::empty()) by {
        if queued.len() > 0 {
            assert(queued.to_set().contains(queued[0]));
        }
    }
    assert(again =~= cleared);
}

} // verus!
