//! The graphics state of one terminal grid: the upload in progress, the stored
//! images, and their placements.
use std::collections::HashMap;
use vstd::prelude::*;

use crate::geometry::PixelRect;
use crate::image;
use crate::protocol::{KittyAction, KittyCommand, KittyControl, KittyDelete, KittyMedium};
use crate::tables::{self, map_keys};
use crate::upload::{self, FinishedImage, ImageView, PendingUpload, UploadView};

verus! {

/// A stored image. Its payload stays in base64, so that it can be transmitted
/// to the outer terminal as it came.
#[derive(Debug, Clone, PartialEq, Eq)]
pub struct StoredKittyImage {
    pub control: KittyControl,
    pub payload_b64: Vec<u8>,
    pub dimensions: Option<(u32, u32)>,
}

impl View for StoredKittyImage {
    type V = ImageView;

    open spec fn view(&self) -> ImageView {
        ImageView {
            control: self.control,
            payload: self.payload_b64@,
            dimensions: self.dimensions,
        }
    }
}

/// An anchored placement of a stored image.
#[derive(Debug, Clone, Copy, PartialEq, Eq)]
pub struct KittyPlacement {
    pub image_id: u32,
    pub placement_id: Option<u32>,
    /// The display footprint in absolute scrollback pixels.
    pub rect: PixelRect,
    /// Whether the application asked for scaling into cells (`c=`, `r=`).
    pub scaled: bool,
}

/// Asks for a placement at the cursor. The owner of the cursor computes the
/// rectangle and calls [`KittyGrid::add_placement`].
#[derive(Debug, Clone, Copy, PartialEq, Eq)]
pub struct PlacementRequest {
    pub image_id: u32,
    pub placement_id: Option<u32>,
    /// The `c=` and `r=` keys of the command that carries the control: for an
    /// upload in several chunks that is the first one.
    pub target_cols: Option<u32>,
    pub target_rows: Option<u32>,
    /// Whether the cursor moves after the placement.
    pub move_cursor: bool,
}

/// The graphics state of one grid.
#[derive(Debug, Clone)]
pub struct KittyGrid {
    upload: Option<PendingUpload>,
    images: HashMap<u32, StoredKittyImage>,
    placements: Vec<KittyPlacement>,
    next_local_id: u32,
    deleted_image_ids: Vec<u32>,
}

/// The contents of a [`KittyGrid`].
#[verifier::ext_equal]
pub struct GridView {
    /// The upload that waits for more chunks.
    pub upload: Option<UploadView>,
    /// The stored images by id.
    pub images: Map<u32, ImageView>,
    /// The placements, oldest first.
    pub placements: Seq<KittyPlacement>,
    /// The last id that was allocated for an anonymous image.
    pub next_local_id: u32,
    /// The ids to delete in the outer terminal, oldest first.
    pub deleted: Seq<u32>,
}

// ---------------------------------------------------------------------------
// What the operations do
// ---------------------------------------------------------------------------

/// The placement that a command with this control asks for.
pub open spec fn request(image_id: u32, control: KittyControl) -> PlacementRequest {
    PlacementRequest {
        image_id,
        placement_id: control.placement_id,
        target_cols: control.target_cols,
        target_rows: control.target_rows,
        move_cursor: control.move_cursor,
    }
}

/// Whether an image with this control is kept: its medium is supported, and it
/// is not addressed by an image number alone.
pub open spec fn is_storable(control: KittyControl) -> bool {
    &&& control.medium == KittyMedium::Direct
    &&& !(control.image_id is None && control.image_number is Some)
}

/// The id that comes after `id`.
pub open spec fn successor(id: u32) -> u32 {
    if id == u32::MAX {
        0
    } else {
        (id + 1) as u32
    }
}

/// Whether `id` can be given to an anonymous image.
pub open spec fn is_free(taken: Set<u32>, id: u32) -> bool {
    id != 0 && !taken.contains(id)
}

/// The first free id after `from`, among as many as `tries` and one more.
pub open spec fn next_free(taken: Set<u32>, from: u32, tries: nat) -> u32
    decreases tries,
{
    if tries == 0 || is_free(taken, successor(from)) {
        successor(from)
    } else {
        next_free(taken, successor(from), (tries - 1) as nat)
    }
}

/// Whether some placement shows the image.
pub open spec fn is_placed(placements: Seq<KittyPlacement>, image_id: u32) -> bool {
    exists|i: int| 0 <= i < placements.len() && (#[trigger] placements[i]).image_id == image_id
}

/// Those of the `hit` images that are stored and that no placement in `kept`
/// shows, each once, in the order of their first hit.
pub open spec fn orphans(
    hit: Seq<u32>,
    stored: Set<u32>,
    kept: Seq<KittyPlacement>,
) -> Seq<u32>
    decreases hit.len(),
{
    if hit.len() == 0 {
        Seq::empty()
    } else {
        let before = orphans(hit.drop_last(), stored, kept);
        let id = hit.last();
        if stored.contains(id) && !is_placed(kept, id) && !before.contains(id) {
            before.push(id)
        } else {
            before
        }
    }
}

impl GridView {
    /// A grid without anything in it.
    pub open spec fn empty() -> GridView {
        GridView {
            upload: None,
            images: Map::empty(),
            placements: Seq::empty(),
            next_local_id: 0,
            deleted: Seq::empty(),
        }
    }

    /// What holds of every grid. An active upload is a transmission whose first
    /// chunk announced more. A stored image came on a supported medium; it is
    /// kept under the id that its application chose, or, where there is
    /// neither an id nor an image number, under one that is not zero.
    pub open spec fn valid(self) -> bool {
        &&& self.upload matches Some(upload) ==> upload.control.more && (upload.control.action
            == KittyAction::Transmit || upload.control.action == KittyAction::TransmitAndDisplay)
        &&& forall|id: u32| #[trigger]
            self.images.contains_key(id) ==> {
                let control = self.images[id].control;
                &&& is_storable(control)
                &&& control.image_id matches Some(chosen) ==> chosen == id
                &&& control.image_id is None ==> id != 0
            }
    }

    /// Whether there is an id left for an anonymous image.
    pub open spec fn has_free_id(self) -> bool {
        exists|id: u32| is_free(self.images.dom(), id)
    }

    /// The id that the next anonymous image gets: the first free one after the
    /// last that was allocated.
    pub open spec fn local_id(self) -> u32 {
        next_free(self.images.dom(), self.next_local_id, u32::MAX as nat)
    }

    /// The upload with one more chunk. A chunk without an active upload begins one.
    pub open spec fn extended(self, control: KittyControl, payload: Seq<u8>) -> UploadView {
        match self.upload {
            Some(upload) => UploadView {
                control: upload.control,
                payload: upload.payload + payload,
            },
            None => UploadView { control, payload },
        }
    }

    /// The id that an image with this control is stored under.
    pub open spec fn id_for(self, control: KittyControl) -> u32 {
        match control.image_id {
            Some(id) => id,
            None => self.local_id(),
        }
    }

    /// The grid after a finalized image, and the placement that it asks for.
    pub open spec fn store(self, image: ImageView) -> (GridView, Option<PlacementRequest>) {
        if !is_storable(image.control) {
            (self, None)
        } else {
            let id = self.id_for(image.control);
            (
                GridView {
                    images: self.images.insert(id, image),
                    next_local_id: if image.control.image_id is Some {
                        self.next_local_id
                    } else {
                        id
                    },
                    ..self
                },
                if image.control.action == KittyAction::TransmitAndDisplay {
                    Some(request(id, image.control))
                } else {
                    None
                },
            )
        }
    }

    /// The grid after one command chunk, and the placement that it asks for.
    pub open spec fn feed(self, control: KittyControl, payload: Seq<u8>) -> (
        GridView,
        Option<PlacementRequest>,
    ) {
        match control.action {
            KittyAction::Place => (
                self,
                match control.image_id {
                    Some(id) => if self.images.contains_key(id) {
                        Some(request(id, control))
                    } else {
                        None
                    },
                    None => None,
                },
            ),
            KittyAction::Transmit | KittyAction::TransmitAndDisplay => {
                let upload = self.extended(control, payload);
                if control.more {
                    (GridView { upload: Some(upload), ..self }, None)
                } else {
                    (GridView { upload: None, ..self }).store(
                        upload::finished(upload, image::base64_decoded(upload.payload)),
                    )
                }
            },
            KittyAction::Delete | KittyAction::Query | KittyAction::Unknown => (self, None),
        }
    }

    /// Whether an image with this control takes an id that the grid allocates.
    pub open spec fn takes_local_id(control: KittyControl) -> bool {
        is_storable(control) && control.image_id is None
    }

    /// Whether this chunk ends an upload that takes an id which the grid allocates.
    pub open spec fn feed_takes_local_id(self, control: KittyControl) -> bool {
        &&& control.action == KittyAction::Transmit || control.action
            == KittyAction::TransmitAndDisplay
        &&& !control.more
        &&& Self::takes_local_id(self.extended(control, Seq::empty()).control)
    }

    /// The grid without an image and its placements. The id is queued for
    /// deletion where the image was stored.
    pub open spec fn without_image(self, id: u32) -> GridView {
        GridView {
            images: self.images.remove(id),
            placements: self.placements.filter(|p: KittyPlacement| p.image_id != id),
            deleted: if self.images.contains_key(id) {
                self.deleted.push(id)
            } else {
                self.deleted
            },
            ..self
        }
    }

    /// Whether `after` is the grid without its images and placements, with the
    /// ids of all its images queued for deletion, in any order.
    pub open spec fn is_cleared_to(self, after: GridView) -> bool {
        let queued = after.deleted.skip(self.deleted.len() as int);
        &&& after == GridView {
            images: Map::empty(),
            placements: Seq::empty(),
            deleted: self.deleted + queued,
            ..self
        }
        &&& tables::lists(queued, self.images.dom())
    }

    /// The placements that have no pixel in common with `rect`.
    pub open spec fn placements_off(self, rect: PixelRect) -> Seq<KittyPlacement> {
        self.placements.filter(|p: KittyPlacement| !p.rect.overlaps(rect))
    }

    /// The images whose placements have a pixel in common with `rect`, one for
    /// each such placement.
    pub open spec fn images_on(self, rect: PixelRect) -> Seq<u32> {
        self.placements.filter(|p: KittyPlacement| p.rect.overlaps(rect)).map_values(
            |p: KittyPlacement| p.image_id,
        )
    }

    /// The stored images that lose their last placement when those on `rect` go.
    pub open spec fn orphans_on(self, rect: PixelRect) -> Seq<u32> {
        orphans(self.images_on(rect), self.images.dom(), self.placements_off(rect))
    }

    /// The grid without the placements on `rect`, and without the images that
    /// lose their last placement with them. The ids of those are queued for deletion.
    pub open spec fn reaped(self, rect: PixelRect) -> GridView {
        GridView {
            images: self.images.remove_keys(self.orphans_on(rect).to_set()),
            placements: self.placements_off(rect),
            deleted: self.deleted + self.orphans_on(rect),
            ..self
        }
    }
}

impl View for KittyGrid {
    type V = GridView;

    closed spec fn view(&self) -> GridView {
        GridView {
            upload: match self.upload {
                Some(upload) => Some(upload@),
                None => None,
            },
            images: self.images@.map_values(|image: StoredKittyImage| image@),
            placements: self.placements@,
            next_local_id: self.next_local_id,
            deleted: self.deleted_image_ids@,
        }
    }
}

// ---------------------------------------------------------------------------
// The operations
// ---------------------------------------------------------------------------

impl Default for KittyGrid {
    fn default() -> (r: Self)
        ensures
            r@ == GridView::empty(),
            r@.valid(),
    {
        let r = KittyGrid {
            upload: None,
            images: HashMap::new(),
            placements: Vec::new(),
            next_local_id: 0,
            deleted_image_ids: Vec::new(),
        };
        assert(r@.images =~= Map::empty());
        r
    }
}

/// The id that lies `k` steps after `from`.
spec fn steps_after(from: u32, k: int) -> u32 {
    if from + k <= u32::MAX {
        (from + k) as u32
    } else {
        (from + k - u32::MAX - 1) as u32
    }
}

/// Probing finds a free id where there is one in reach.
proof fn lemma_next_free(taken: Set<u32>, from: u32, tries: nat, k: int)
    requires
        1 <= k <= tries + 1,
        tries <= u32::MAX,
        is_free(taken, steps_after(from, k)),
    ensures
        is_free(taken, next_free(taken, from, tries)),
    decreases tries,
{
    if !is_free(taken, successor(from)) {
        assert(steps_after(from, 1) == successor(from));
        assert(steps_after(successor(from), k - 1) == steps_after(from, k));
        lemma_next_free(taken, successor(from), (tries - 1) as nat, k - 1);
    }
}

/// The number of steps from one id to another.
proof fn lemma_steps(from: u32, id: u32) -> (k: int)
    ensures
        1 <= k <= u32::MAX + 1,
        steps_after(from, k) == id,
{
    if id > from {
        id - from
    } else {
        id - from + u32::MAX + 1
    }
}

impl GridView {
    /// An allocated id is free: not zero, and not that of a stored image.
    pub proof fn lemma_local_id(self)
        requires
            self.has_free_id(),
        ensures
            self.local_id() != 0,
            !self.images.contains_key(self.local_id()),
    {
        let id = choose|id: u32| is_free(self.images.dom(), id);
        let k = lemma_steps(self.next_local_id, id);
        lemma_next_free(self.images.dom(), self.next_local_id, u32::MAX as nat, k);
    }
}

impl KittyGrid {
    /// Resolves the id to store an image under: the one that the application
    /// chose, else a fresh one that no stored image has.
    fn allocate_id(&mut self, requested: Option<u32>) -> (r: u32)
        requires
            requested is None ==> old(self)@.has_free_id(),
        ensures
            match requested {
                Some(id) => r == id && final(self)@ == old(self)@,
                None => r == old(self)@.local_id() && final(self)@ == (GridView {
                    next_local_id: r,
                    ..old(self)@
                }),
            },
    {
        if let Some(id) = requested {
            return id;
        }
        let ghost taken = self@.images.dom();
        let ghost mut tries: nat = u32::MAX as nat;
        let ghost mut k: int = 1;
        proof {
            let id = choose|id: u32| is_free(taken, id);
            k = lemma_steps(self.next_local_id, id);
        }
        let mut candidate: u32 = self.next_local_id;
        loop
            invariant
                requested is None,
                taken == self@.images.dom(),
                *self == *old(self),
                tries <= u32::MAX,
                1 <= k <= tries + 1,
                is_free(taken, steps_after(candidate, k)),
                next_free(taken, candidate, tries) == old(self)@.local_id(),
            decreases tries,
        {
            let ghost from = candidate;
            candidate = candidate.wrapping_add(1);
            assert(candidate == successor(from));
            if candidate != 0 && !self.images.contains_key(&candidate) {
                self.next_local_id = candidate;
                return candidate;
            }
            proof {
                assert(steps_after(from, 1) == successor(from));
                assert(steps_after(candidate, k - 1) == steps_after(from, k));
                tries = (tries - 1) as nat;
                k = k - 1;
            }
        }
    }

    /// Stores a finalized image. Returns the placement that it asks for, where
    /// it is to be displayed.
    ///
    /// An image that came on an unsupported medium, or that an image number
    /// alone addresses, is dropped: its payload could not be transmitted again,
    /// or its application could not refer to it.
    pub fn store(&mut self, image: FinishedImage) -> (r: Option<PlacementRequest>)
        requires
            GridView::takes_local_id(image.control) ==> old(self)@.has_free_id(),
        ensures
            (final(self)@, r) == old(self)@.store(image@),
            old(self)@.valid() ==> final(self)@.valid(),
    {
        let control = image.control;
        if !control.medium_supported() {
            return None;
        }
        if control.image_id.is_none() && control.image_number.is_some() {
            return None;
        }
        proof {
            if control.image_id is None {
                self@.lemma_local_id();
            }
        }
        let id = self.allocate_id(control.image_id);
        let ghost before = self@.images;
        let ghost view = image@;
        self.images.insert(
            id,
            StoredKittyImage {
                control,
                payload_b64: image.payload_b64,
                dimensions: image.dimensions,
            },
        );
        assert(self@.images =~= before.insert(id, view));
        if control.action == KittyAction::TransmitAndDisplay {
            Some(
                PlacementRequest {
                    image_id: id,
                    placement_id: control.placement_id,
                    target_cols: control.target_cols,
                    target_rows: control.target_rows,
                    move_cursor: control.move_cursor,
                },
            )
        } else {
            None
        }
    }

    /// Feeds one chunk of a transmit, display or place command.
    ///
    /// A chunk with `m=1` waits for more. The last chunk finalizes the upload
    /// and stores the image. Returns a request where the command is to be
    /// anchored at the cursor: a finalized transmit-and-display, or a place of
    /// a known image.
    pub fn feed_chunk(&mut self, cmd: KittyCommand) -> (r: Option<PlacementRequest>)
        requires
            old(self)@.feed_takes_local_id(cmd.control) ==> old(self)@.has_free_id(),
        ensures
            (final(self)@, r) == old(self)@.feed(cmd.control, cmd.payload@),
            old(self)@.valid() ==> final(self)@.valid(),
    {
        let control = cmd.control;
        match control.action {
            KittyAction::Place => {
                let id = match control.image_id {
                    Some(id) => id,
                    None => {
                        return None;
                    },
                };
                if self.images.contains_key(&id) {
                    Some(
                        PlacementRequest {
                            image_id: id,
                            placement_id: control.placement_id,
                            target_cols: control.target_cols,
                            target_rows: control.target_rows,
                            move_cursor: control.move_cursor,
                        },
                    )
                } else {
                    None
                }
            },
            KittyAction::Transmit | KittyAction::TransmitAndDisplay => {
                let upload = match self.upload.take() {
                    Some(mut upload) => {
                        upload.append(cmd.payload.as_slice());
                        upload
                    },
                    None => PendingUpload::begin(control, cmd.payload.as_slice()),
                };
                assert(upload@ == old(self)@.extended(control, cmd.payload@));
                if control.more {
                    self.upload = Some(upload);
                    return None;
                }
                assert(self@ == GridView { upload: None, ..old(self)@ });
                self.store(upload.finish())
            },
            KittyAction::Delete | KittyAction::Query | KittyAction::Unknown => None,
        }
    }

    /// Drops the placements of one image.
    fn drop_placements_of(&mut self, id: u32)
        ensures
            final(self)@ == (GridView {
                placements: old(self)@.placements.filter(|p: KittyPlacement| p.image_id != id),
                ..old(self)@
            }),
    {
        let ghost stays = |p: KittyPlacement| p.image_id != id;
        let mut kept: Vec<KittyPlacement> = Vec::new();
        proof {
            reveal(Seq::filter);
            assert(self.placements@.take(0).filter(stays) =~= Seq::empty());
        }
        for i in 0..self.placements.len()
            invariant
                *self == *old(self),
                stays == (|p: KittyPlacement| p.image_id != id),
                kept@ == self.placements@.take(i as int).filter(stays),
        {
            let placement = self.placements[i];
            proof {
                reveal(Seq::filter);
                assert(self.placements@.take(i + 1).drop_last() =~= self.placements@.take(i as int));
                assert(self.placements@.take(i + 1).last() == placement);
            }
            if placement.image_id != id {
                kept.push(placement);
            }
        }
        assert(self.placements@.take(self.placements@.len() as int) =~= self.placements@);
        self.placements = kept;
    }

    /// The ids of the stored images, in any order.
    pub fn image_ids(&self) -> (r: Vec<u32>)
        ensures
            tables::lists(r@, self@.images.dom()),
    {
        let ids = map_keys(&self.images);
        assert(self@.images.dom() =~= self.images@.dom());
        ids
    }

    /// Applies a delete command: drops the images it names and their
    /// placements, and queues their ids for deletion in the outer terminal.
    pub fn delete(&mut self, request: KittyDelete)
        ensures
            match request {
                KittyDelete::ById(id) => final(self)@ == old(self)@.without_image(id),
                KittyDelete::All => old(self)@.is_cleared_to(final(self)@),
                KittyDelete::Unsupported => final(self)@ == old(self)@,
            },
            old(self)@.valid() ==> final(self)@.valid(),
    {
        match request {
            KittyDelete::ById(id) => {
                let ghost before = self@;
                if self.images.remove(&id).is_some() {
                    self.deleted_image_ids.push(id);
                }
                assert(self@.images =~= before.images.remove(id));
                self.drop_placements_of(id);
            },
            KittyDelete::All => {
                let mut ids = self.image_ids();
                let ghost queued = ids@;
                self.deleted_image_ids.append(&mut ids);
                self.images.clear();
                self.placements.clear();
                assert(self@.images =~= Map::empty());
                assert(self@.deleted.skip(old(self)@.deleted.len() as int) =~= queued);
            },
            KittyDelete::Unsupported => {},
        }
    }

    /// Drops every image and placement, and queues the ids of the images for
    /// deletion in the outer terminal.
    pub fn clear(&mut self)
        ensures
            old(self)@.is_cleared_to(final(self)@),
            old(self)@.valid() ==> final(self)@.valid(),
    {
        self.delete(KittyDelete::All);
    }

    /// Queues ids for deletion in the outer terminal, and touches nothing else.
    pub fn queue_deletions(&mut self, ids: Vec<u32>)
        ensures
            final(self)@ == (GridView { deleted: old(self)@.deleted + ids@, ..old(self)@ }),
            old(self)@.valid() ==> final(self)@.valid(),
    {
        let mut ids = ids;
        self.deleted_image_ids.append(&mut ids);
    }

    /// Takes the ids that were queued for deletion since the last call.
    pub fn drain_deleted_image_ids(&mut self) -> (r: Vec<u32>)
        ensures
            r@ == old(self)@.deleted,
            final(self)@ == (GridView { deleted: Seq::empty(), ..old(self)@ }),
            old(self)@.valid() ==> final(self)@.valid(),
    {
        let mut ids: Vec<u32> = Vec::new();
        std::mem::swap(&mut ids, &mut self.deleted_image_ids);
        ids
    }

    /// Whether some placement shows the image.
    fn shows(&self, image_id: u32) -> (r: bool)
        ensures
            r == is_placed(self@.placements, image_id),
    {
        for i in 0..self.placements.len()
            invariant
                forall|j: int| 0 <= j < i ==> (#[trigger] self.placements@[j]).image_id != image_id,
        {
            if self.placements[i].image_id == image_id {
                assert(self@.placements[i as int].image_id == image_id);
                return true;
            }
        }
        false
    }

    /// Removes the placements on `rect`, and returns the image of each.
    fn lift_placements(&mut self, rect: &PixelRect) -> (r: Vec<u32>)
        ensures
            r@ == old(self)@.images_on(*rect),
            final(self)@ == (GridView { placements: old(self)@.placements_off(*rect), ..old(self)@ }),
    {
        let ghost hit = |p: KittyPlacement| p.rect.overlaps(*rect);
        let ghost off = |p: KittyPlacement| !p.rect.overlaps(*rect);
        let ghost image = |p: KittyPlacement| p.image_id;
        let mut hit_images: Vec<u32> = Vec::new();
        let mut kept: Vec<KittyPlacement> = Vec::new();
        proof {
            reveal(Seq::filter);
            assert(self.placements@.take(0).filter(off) =~= Seq::empty());
            assert(self.placements@.take(0).filter(hit).map_values(image) =~= Seq::empty());
        }
        for i in 0..self.placements.len()
            invariant
                *self == *old(self),
                hit == (|p: KittyPlacement| p.rect.overlaps(*rect)),
                off == (|p: KittyPlacement| !p.rect.overlaps(*rect)),
                image == (|p: KittyPlacement| p.image_id),
                kept@ == self.placements@.take(i as int).filter(off),
                hit_images@ == self.placements@.take(i as int).filter(hit).map_values(image),
        {
            let placement = self.placements[i];
            proof {
                reveal(Seq::filter);
                assert(self.placements@.take(i + 1).drop_last() =~= self.placements@.take(i as int));
                assert(self.placements@.take(i + 1).last() == placement);
            }
            if placement.rect.intersects(rect) {
                hit_images.push(placement.image_id);
            } else {
                kept.push(placement);
            }
            assert(hit_images@ =~= self.placements@.take(i + 1).filter(hit).map_values(image));
        }
        assert(self.placements@.take(self.placements@.len() as int) =~= self.placements@);
        self.placements = kept;
        hit_images
    }

    /// Reaps every placement that overlaps `rect`, in absolute scrollback
    /// pixels. Text drawn over an image cell removes the whole placement. An
    /// image that loses its last placement is dropped, and its id is queued for
    /// deletion in the outer terminal.
    pub fn reap_placements_intersecting(&mut self, rect: &PixelRect)
        ensures
            final(self)@ == old(self)@.reaped(*rect),
            old(self)@.valid() ==> final(self)@.valid(),
    {
        let ghost before = self@;
        let hit_images = self.lift_placements(rect);
        let ghost stored = before.images.dom();
        let ghost kept = self@.placements;
        assert(before.images.remove_keys(orphans(hit_images@.take(0), stored, kept).to_set())
            =~= self@.images);
        for i in 0..hit_images.len()
            invariant
                stored == before.images.dom(),
                kept == before.placements_off(*rect),
                self@ == (GridView {
                    images: before.images.remove_keys(
                        orphans(hit_images@.take(i as int), stored, kept).to_set(),
                    ),
                    placements: kept,
                    deleted: before.deleted + orphans(hit_images@.take(i as int), stored, kept),
                    ..before
                }),
        {
            let id = hit_images[i];
            let ghost done = orphans(hit_images@.take(i as int), stored, kept);
            let ghost next = orphans(hit_images@.take(i + 1), stored, kept);
            proof {
                assert(hit_images@.take(i + 1).drop_last() =~= hit_images@.take(i as int));
                assert(hit_images@.take(i + 1).last() == id);
                assert(self@.images.contains_key(id) <==> stored.contains(id) && !done.contains(id));
            }
            if !self.shows(id) {
                let ghost images = self@.images;
                let gone = self.images.remove(&id).is_some();
                assert(self@.images =~= images.remove(id));
                if gone {
                    self.deleted_image_ids.push(id);
                    proof {
                        assert(next == done.push(id));
                        tables::lemma_push_to_set(done, id);
                        assert(self@.images =~= before.images.remove_keys(next.to_set()));
                        assert(self@.deleted =~= before.deleted + next);
                    }
                } else {
                    assert(self@.images =~= images);
                }
            }
        }
        assert(hit_images@.take(hit_images@.len() as int) =~= hit_images@);
    }

    /// The pixel dimensions of a stored image, if they are known.
    pub fn image_dimensions(&self, image_id: u32) -> (r: Option<(u32, u32)>)
        ensures
            r == (if self@.images.contains_key(image_id) {
                self@.images[image_id].dimensions
            } else {
                None
            }),
    {
        match self.images.get(&image_id) {
            Some(image) => image.dimensions,
            None => None,
        }
    }

    /// Anchors a placement of an image at `rect`, its display footprint.
    pub fn add_placement(
        &mut self,
        image_id: u32,
        placement_id: Option<u32>,
        rect: PixelRect,
        scaled: bool,
    )
        ensures
            final(self)@ == (GridView {
                placements: old(self)@.placements.push(
                    KittyPlacement { image_id, placement_id, rect, scaled },
                ),
                ..old(self)@
            }),
            old(self)@.valid() ==> final(self)@.valid(),
    {
        self.placements.push(KittyPlacement { image_id, placement_id, rect, scaled });
    }

    /// Whether an upload waits for more chunks.
    pub fn has_active_upload(&self) -> (r: bool)
        ensures
            r == self@.upload is Some,
    {
        self.upload.is_some()
    }

    /// The number of stored images.
    pub fn image_count(&self) -> (r: usize)
        ensures
            self@.images.dom().finite(),
            r == self@.images.dom().len(),
    {
        assert(self@.images.dom() =~= self.images@.dom());
        self.images.len()
    }

    /// The stored image with this id.
    pub fn stored_image(&self, image_id: u32) -> (r: Option<&StoredKittyImage>)
        ensures
            match r {
                Some(image) => self@.images.contains_key(image_id) && self@.images[image_id]
                    == image@,
                None => !self@.images.contains_key(image_id),
            },
    {
        self.images.get(&image_id)
    }

    /// The placements, oldest first.
    pub fn placements(&self) -> (r: &[KittyPlacement])
        ensures
            r@ == self@.placements,
    {
        self.placements.as_slice()
    }
}

} // verus!
