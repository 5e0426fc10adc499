//! The images and placements of a grid, and what a viewport shows of them.
use kitty_graphics::{
    dispatch, FinishedImage, KittyCommand, KittyDelete, KittyFormat, KittyGrid, KittyImageChunk,
    KittyOutcome, PixelRect, PlacementRequest, SizeInPixels,
};

fn store_cmd(body: &[u8]) -> KittyCommand {
    match dispatch(body) {
        KittyOutcome::Store(cmd) => cmd,
        other => panic!("expected Store, got {:?}", other),
    }
}

#[test]
fn feed_transmit_and_display_stores_and_requests_placement() {
    let mut kg = KittyGrid::default();
    let req = kg.feed_chunk(store_cmd(b"a=T,f=32,s=10,v=20,i=3;AAAA"));
    assert_eq!(
        req,
        Some(PlacementRequest {
            image_id: 3,
            placement_id: None,
            target_cols: None,
            target_rows: None,
            move_cursor: true,
        })
    );
    assert_eq!(kg.image_count(), 1);
    assert_eq!(kg.image_dimensions(3), Some((10, 20)));
    assert!(!kg.has_active_upload());
}

#[test]
fn feed_transmit_only_stores_without_placement() {
    let mut kg = KittyGrid::default();
    let req = kg.feed_chunk(store_cmd(b"a=t,f=32,s=4,v=4,i=9;AAAA"));
    assert_eq!(req, None, "transmit-only must not request a placement");
    assert!(kg.stored_image(9).is_some());
}

#[test]
fn feed_multichunk_reassembles_then_displays() {
    let mut kg = KittyGrid::default();
    // first chunk: control + m=1
    assert_eq!(kg.feed_chunk(store_cmd(b"a=T,f=32,s=1,v=1,i=2,m=1;AA")), None);
    assert!(kg.has_active_upload());
    // final chunk: continuation, m absent → finalize + display
    let req = kg.feed_chunk(store_cmd(b"m=0;AA"));
    assert_eq!(
        req,
        Some(PlacementRequest {
            image_id: 2,
            placement_id: None,
            target_cols: None,
            target_rows: None,
            move_cursor: true,
        })
    );
    assert_eq!(kg.stored_image(2).map(|i| i.payload_b64.clone()), Some(b"AAAA".to_vec()));
    assert!(!kg.has_active_upload());
}

#[test]
fn feed_multichunk_scaled_carries_cell_target_from_first_chunk() {
    // The `c=`/`r=` keys live on the first chunk (retained by
    // `PendingUpload`); the final `m=0` chunk carries neither. The finalized
    // `PlacementRequest` must carry the first chunk's target footprint.
    let mut kg = KittyGrid::default();
    assert_eq!(kg.feed_chunk(store_cmd(b"a=T,f=32,s=100,v=100,c=4,r=3,i=7,m=1;AA")), None);
    let req = kg.feed_chunk(store_cmd(b"m=0;AA"));
    assert_eq!(
        req,
        Some(PlacementRequest {
            image_id: 7,
            placement_id: None,
            target_cols: Some(4),
            target_rows: Some(3),
            move_cursor: true,
        })
    );
}

#[test]
fn place_of_known_image_requests_placement() {
    let mut kg = KittyGrid::default();
    kg.feed_chunk(store_cmd(b"a=t,f=32,s=1,v=1,i=5;AAAA"));
    let req = kg.feed_chunk(store_cmd(b"a=p,i=5,p=7"));
    assert_eq!(
        req,
        Some(PlacementRequest {
            image_id: 5,
            placement_id: Some(7),
            target_cols: None,
            target_rows: None,
            move_cursor: true,
        })
    );
}

#[test]
fn place_of_unknown_image_is_noop() {
    let mut kg = KittyGrid::default();
    assert_eq!(kg.feed_chunk(store_cmd(b"a=p,i=404")), None);
}

#[test]
fn anonymous_transmit_allocates_local_id() {
    let mut kg = KittyGrid::default();
    kg.feed_chunk(store_cmd(b"a=t,f=32,s=1,v=1;AAAA")); // no i=
    assert_eq!(kg.image_count(), 1);
}

#[test]
fn unsupported_media_is_not_stored() {
    // t=f (file) / t=s (shared mem): must not be stored, else render would
    // re-emit the path/handle as an inline a=t payload and corrupt it.
    let mut kg = KittyGrid::default();
    assert_eq!(kg.feed_chunk(store_cmd(b"a=T,t=f,f=100,i=1;L3RtcC9pbWc=")), None);
    assert_eq!(kg.feed_chunk(store_cmd(b"a=t,t=s,f=32,s=1,v=1,i=2;AAAA")), None);
    assert_eq!(kg.image_count(), 0);
}

#[test]
fn image_number_only_command_is_not_stored() {
    // I=-only addressing is unsupported (we key by i=); must not store an
    // image the app cannot later reference.
    let mut kg = KittyGrid::default();
    assert_eq!(kg.feed_chunk(store_cmd(b"a=T,f=32,s=1,v=1,I=7;AAAA")), None);
    assert_eq!(kg.image_count(), 0);
    // …but an anonymous transmit (neither i nor I) is still fine.
    kg.feed_chunk(store_cmd(b"a=t,f=32,s=1,v=1;AAAA"));
    assert_eq!(kg.image_count(), 1);
}

#[test]
fn reap_placements_intersecting_removes_overlapping_image() {
    let mut kg = KittyGrid::default();
    kg.feed_chunk(store_cmd(b"a=T,f=32,s=20,v=20,i=4;AAAA"));
    kg.add_placement(4, None, PixelRect::new(0, 0, 20, 20), false);
    // A cell rect inside the image reaps the whole placement + image.
    kg.reap_placements_intersecting(&PixelRect::new(0, 0, 16, 8));
    assert!(kg.placements().is_empty());
    assert_eq!(kg.image_count(), 0);
    assert_eq!(kg.drain_deleted_image_ids(), vec![4]);
    // A non-overlapping rect reaps nothing.
    kg.feed_chunk(store_cmd(b"a=T,f=32,s=8,v=8,i=5;AAAA"));
    kg.add_placement(5, None, PixelRect::new(0, 0, 8, 8), false);
    kg.reap_placements_intersecting(&PixelRect::new(800, 800, 16, 8));
    assert_eq!(kg.placements().len(), 1);
}

#[test]
fn grid_delete_by_id_removes_image_placement_and_records() {
    let mut kg = KittyGrid::default();
    kg.feed_chunk(store_cmd(b"a=T,f=32,s=1,v=1,i=3;AAAA"));
    // Anchoring follows the request that feed_chunk returns.
    kg.add_placement(3, None, PixelRect::new(0, 0, 1, 1), false);
    assert_eq!(kg.image_count(), 1);
    assert_eq!(kg.placements().len(), 1);

    kg.delete(KittyDelete::ById(3));
    assert_eq!(kg.image_count(), 0);
    assert!(kg.placements().is_empty());
    assert_eq!(kg.drain_deleted_image_ids(), vec![3]);
    // drained once, then empty
    assert!(kg.drain_deleted_image_ids().is_empty());
}

#[test]
fn grid_delete_all_clears_everything() {
    let mut kg = KittyGrid::default();
    kg.feed_chunk(store_cmd(b"a=t,f=32,s=1,v=1,i=1;AAAA"));
    kg.feed_chunk(store_cmd(b"a=t,f=32,s=1,v=1,i=2;AAAA"));
    kg.delete(KittyDelete::All);
    assert_eq!(kg.image_count(), 0);
    let mut drained = kg.drain_deleted_image_ids();
    drained.sort();
    assert_eq!(drained, vec![1, 2]);
}

#[test]
fn grid_clear_drops_images_and_queues_outer_deletions() {
    // Erase-Display / reset path: `clear()` must drop every image+placement
    // AND queue their ids for outer-terminal deletion, otherwise an image
    // stays stuck in the outer terminal after `clear`.
    let mut kg = KittyGrid::default();
    kg.feed_chunk(store_cmd(b"a=T,f=32,s=4,v=4,i=1;AAAA"));
    kg.add_placement(1, None, PixelRect::new(0, 0, 4, 4), false);
    kg.feed_chunk(store_cmd(b"a=T,f=32,s=4,v=4,i=2;AAAA"));
    kg.add_placement(2, None, PixelRect::new(0, 0, 4, 4), false);
    assert_eq!(kg.image_count(), 2);

    kg.clear();
    assert_eq!(kg.image_count(), 0, "all images dropped");
    assert!(kg.placements().is_empty(), "all placements dropped");
    let mut drained = kg.drain_deleted_image_ids();
    drained.sort();
    assert_eq!(drained, vec![1, 2], "both ids queued for outer-terminal delete");
}

#[test]
fn chunks_end_in_the_same_image_however_they_are_cut() {
    let mut whole = KittyGrid::default();
    whole.feed_chunk(store_cmd(b"a=T,f=32,s=1,v=1,i=2,c=4;AAAABBBB"));
    let mut cut = KittyGrid::default();
    assert_eq!(cut.feed_chunk(store_cmd(b"a=T,f=32,s=1,v=1,i=2,c=4,m=1;AAA")), None);
    assert_eq!(cut.feed_chunk(store_cmd(b"m=1;AB")), None);
    assert_eq!(cut.feed_chunk(store_cmd(b"i=9,m=1;")), None);
    assert_eq!(cut.image_count(), 0);
    let request = cut.feed_chunk(store_cmd(b"a=t,c=9;BBB"));
    assert_eq!(request.map(|r| (r.image_id, r.target_cols)), Some((2, Some(4))));
    let (whole, cut) = (whole.stored_image(2).unwrap(), cut.stored_image(2).unwrap());
    assert_eq!(whole.payload_b64, cut.payload_b64);
    assert_eq!(whole.dimensions, cut.dimensions);
}

#[test]
fn other_commands_leave_an_upload_alone() {
    let mut kg = KittyGrid::default();
    kg.feed_chunk(store_cmd(b"a=t,f=32,s=1,v=1,i=1;AAAA"));
    kg.feed_chunk(store_cmd(b"a=T,f=32,s=1,v=1,i=2,m=1;AA"));
    // A place command is granted at once.
    let placed = kg.feed_chunk(store_cmd(b"a=p,i=1,p=3,C=1"));
    assert_eq!(
        placed,
        Some(PlacementRequest {
            image_id: 1,
            placement_id: Some(3),
            target_cols: None,
            target_rows: None,
            move_cursor: false,
        })
    );
    // A query is not fed at all; its action has no effect.
    let mut query = store_cmd(b"a=t");
    query.control.action = kitty_graphics::KittyAction::Query;
    assert_eq!(kg.feed_chunk(query), None);
    kg.clear();
    assert!(kg.has_active_upload());
    kg.feed_chunk(store_cmd(b"m=0;AA"));
    assert_eq!(kg.stored_image(2).map(|i| i.payload_b64.clone()), Some(b"AAAA".to_vec()));
}

#[test]
fn anonymous_images_take_free_ids() {
    let mut kg = KittyGrid::default();
    kg.feed_chunk(store_cmd(b"a=t,f=32,s=7,v=7,i=1;AAAA"));
    kg.feed_chunk(store_cmd(b"a=t,f=32,s=7,v=7,i=3;AAAA"));
    let first = kg.feed_chunk(store_cmd(b"a=T,f=32,s=1,v=1;AAAA")).unwrap();
    let second = kg.feed_chunk(store_cmd(b"a=T,f=32,s=1,v=1;AAAA")).unwrap();
    assert_eq!((first.image_id, second.image_id), (2, 4));
    assert_eq!(kg.image_dimensions(1), Some((7, 7)));
    assert_eq!(kg.image_dimensions(3), Some((7, 7)));
    // A freed id is not taken again before the others.
    kg.delete(KittyDelete::ById(2));
    let third = kg.feed_chunk(store_cmd(b"a=T,f=32,s=1,v=1;AAAA")).unwrap();
    assert_eq!(third.image_id, 5);
}

#[test]
fn rejected_upload_ends_all_the_same() {
    let mut kg = KittyGrid::default();
    kg.feed_chunk(store_cmd(b"a=T,t=f,i=1,m=1;AA"));
    assert!(kg.has_active_upload());
    assert_eq!(kg.feed_chunk(store_cmd(b"m=0;AA")), None);
    assert!(!kg.has_active_upload());
    assert_eq!(kg.image_count(), 0);
}

#[test]
fn an_id_holds_one_image() {
    let mut kg = KittyGrid::default();
    kg.feed_chunk(store_cmd(b"a=t,f=32,s=1,v=1,i=5;AAAA"));
    kg.feed_chunk(store_cmd(b"a=t,f=24,s=2,v=3,i=5;BBBB"));
    assert_eq!(kg.image_count(), 1);
    let image = kg.stored_image(5).unwrap();
    assert_eq!(image.payload_b64, b"BBBB".to_vec());
    assert_eq!(image.control.format, KittyFormat::Rgb);
    assert_eq!(kg.image_dimensions(5), Some((2, 3)));
    assert_eq!(kg.image_dimensions(6), None);
}

#[test]
fn finished_images_can_be_stored_directly() {
    let mut kg = KittyGrid::default();
    let control = store_cmd(b"a=T,f=100,i=6,r=2").control;
    let image = FinishedImage { control, payload_b64: b"xyz".to_vec(), dimensions: Some((3, 4)) };
    let request = kg.store(image);
    assert_eq!(request.map(|r| (r.image_id, r.target_rows)), Some((6, Some(2))));
    assert_eq!(kg.image_dimensions(6), Some((3, 4)));
}

#[test]
fn place_needs_an_id_and_a_stored_image() {
    let mut kg = KittyGrid::default();
    kg.feed_chunk(store_cmd(b"a=t,f=32,s=1,v=1,i=5;AAAA"));
    assert_eq!(kg.feed_chunk(store_cmd(b"a=p")), None);
    assert!(kg.feed_chunk(store_cmd(b"a=p,i=5")).is_some());
    kg.delete(KittyDelete::ById(5));
    assert_eq!(kg.feed_chunk(store_cmd(b"a=p,i=5")), None);
}

#[test]
fn deletes_queue_only_what_was_stored() {
    let mut kg = KittyGrid::default();
    kg.feed_chunk(store_cmd(b"a=t,f=32,s=1,v=1,i=5;AAAA"));
    kg.add_placement(5, Some(1), PixelRect::new(0, 0, 1, 1), false);
    kg.add_placement(6, None, PixelRect::new(0, 0, 1, 1), true);
    kg.delete(KittyDelete::Unsupported);
    assert_eq!((kg.image_count(), kg.placements().len()), (1, 2));
    // The placement of an unknown image goes, and nothing is queued.
    kg.delete(KittyDelete::ById(6));
    assert_eq!(kg.placements().len(), 1);
    assert!(kg.drain_deleted_image_ids().is_empty());
    kg.delete(KittyDelete::ById(5));
    kg.delete(KittyDelete::ById(5));
    assert_eq!(kg.drain_deleted_image_ids(), vec![5]);
}

#[test]
fn queued_ids_keep_their_order() {
    let mut kg = KittyGrid::default();
    kg.feed_chunk(store_cmd(b"a=t,f=32,s=1,v=1,i=5;AAAA"));
    kg.queue_deletions(vec![9, 8, 9]);
    assert_eq!(kg.image_ids(), vec![5]);
    kg.clear();
    kg.clear();
    assert!(kg.image_ids().is_empty());
    assert_eq!(kg.drain_deleted_image_ids(), vec![9, 8, 9, 5]);
    assert!(kg.drain_deleted_image_ids().is_empty());
}

#[test]
fn reap_spares_images_that_are_still_placed() {
    let mut kg = KittyGrid::default();
    for body in [b"a=t,f=32,s=1,v=1,i=1;AAAA", b"a=t,f=32,s=1,v=1,i=2;AAAA", b"a=t,f=32,s=1,v=1,i=3;AAAA"] {
        kg.feed_chunk(store_cmd(body));
    }
    kg.add_placement(1, None, PixelRect::new(0, 0, 10, 10), false);
    kg.add_placement(2, None, PixelRect::new(5, 5, 10, 10), false);
    kg.add_placement(2, None, PixelRect::new(8, 8, 10, 10), false);
    kg.add_placement(1, None, PixelRect::new(100, 100, 10, 10), false);
    kg.reap_placements_intersecting(&PixelRect::new(9, 9, 1, 1));
    // Image 1 has a placement left; image 2 lost both and is queued once;
    // image 3 was never placed.
    assert_eq!(kg.placements().len(), 1);
    assert_eq!(kg.placements()[0].image_id, 1);
    let mut ids = kg.image_ids();
    ids.sort();
    assert_eq!(ids, vec![1, 3]);
    assert_eq!(kg.drain_deleted_image_ids(), vec![2]);
}

#[test]
fn rectangles_overlap_by_pixels() {
    let rect = PixelRect::new(10, -5, 10, 20);
    assert!(rect.intersects(&PixelRect::new(29, 4, 1, 1)));
    assert!(!rect.intersects(&PixelRect::new(30, 4, 1, 1)));
    assert!(!rect.intersects(&PixelRect::new(29, 5, 1, 1)));
    assert!(rect.intersects(&PixelRect::new(0, -100, 96, 11)));
    assert!(!rect.intersects(&PixelRect::new(0, -100, 95, 11)));
    assert!(!rect.intersects(&PixelRect::new(12, 0, 0, 5)));
    assert!(rect.intersects(&PixelRect::new(0, isize::MIN, usize::MAX, usize::MAX)));
}

const CELL: SizeInPixels = SizeInPixels { height: 20, width: 10 };

fn shown(rect: PixelRect) -> KittyGrid {
    let mut kg = KittyGrid::default();
    kg.feed_chunk(store_cmd(b"a=t,f=24,o=z,s=64,v=48,i=3;AAAA"));
    kg.add_placement(3, None, rect, true);
    kg
}

#[test]
fn visible_chunk_has_all_that_is_needed() {
    let kg = shown(PixelRect::new(30, 140, 40, 50));
    let chunks = kg.visible_kitty_chunks(5, 10, 20, 2, 1, CELL);
    assert_eq!(
        chunks,
        vec![KittyImageChunk {
            cell_x: 2 + 3,
            cell_y: 1 + 2,
            source_image_id: 3,
            placement_id: 1,
            format: 24,
            compressed: true,
            full_width: 64,
            full_height: 48,
            disp_width: 50,
            disp_height: 40,
            scaled: true,
            src_x: 0,
            src_y: 0,
            src_width: 50,
            src_height: 40,
            payload_b64: b"AAAA".to_vec(),
        }]
    );
}

#[test]
fn placements_are_clipped_at_the_viewport() {
    // The window shows pixel rows 100 to 299 and columns 0 to 199.
    let crop = |rect: PixelRect| -> Vec<(usize, usize, usize, usize, usize)> {
        shown(rect)
            .visible_kitty_chunks(5, 10, 20, 0, 0, CELL)
            .iter()
            .map(|c| (c.cell_x, c.cell_y, c.src_y, c.src_width, c.src_height))
            .collect()
    };
    assert_eq!(crop(PixelRect::new(0, 60, 100, 30)), vec![(0, 0, 40, 30, 60)]);
    assert_eq!(crop(PixelRect::new(0, -20, 121, 30)), vec![(0, 0, 120, 30, 1)]);
    assert_eq!(crop(PixelRect::new(0, 280, 100, 30)), vec![(0, 9, 0, 30, 20)]);
    assert_eq!(crop(PixelRect::new(180, 100, 20, 30)), vec![(18, 0, 0, 20, 20)]);
    assert_eq!(crop(PixelRect::new(0, 0, 1000, 1000)), vec![(0, 0, 100, 200, 200)]);
    // Out of the window.
    assert_eq!(crop(PixelRect::new(0, 60, 40, 30)), vec![]);
    assert_eq!(crop(PixelRect::new(0, 300, 40, 30)), vec![]);
    assert_eq!(crop(PixelRect::new(200, 100, 40, 30)), vec![]);
    assert_eq!(crop(PixelRect::new(0, 100, 40, 0)), vec![]);
    assert_eq!(crop(PixelRect::new(0, 100, 0, 30)), vec![]);
}

#[test]
fn visible_chunks_are_numbered_by_placement() {
    let mut kg = shown(PixelRect::new(0, 1000, 20, 20));
    kg.add_placement(4, None, PixelRect::new(0, 0, 20, 20), false);
    kg.add_placement(3, None, PixelRect::new(0, 0, 20, 20), false);
    kg.add_placement(3, None, PixelRect::new(20, 0, 20, 20), false);
    let chunks = kg.visible_kitty_chunks(0, 10, 20, 0, 0, CELL);
    let numbers: Vec<(u32, bool)> = chunks.iter().map(|c| (c.placement_id, c.scaled)).collect();
    assert_eq!(numbers, vec![(3, false), (4, false)]);
    kg.clear();
    assert!(kg.visible_kitty_chunks(0, 10, 20, 0, 0, CELL).is_empty());
}

#[test]
fn cells_without_area_show_nothing() {
    let kg = shown(PixelRect::new(0, 0, 20, 20));
    let flat = SizeInPixels { height: 0, width: 10 };
    let thin = SizeInPixels { height: 20, width: 0 };
    assert!(kg.visible_kitty_chunks(usize::MAX, usize::MAX, 20, 0, 0, flat).is_empty());
    assert!(kg.visible_kitty_chunks(0, 10, 20, 0, 0, thin).is_empty());
}

#[test]
fn unknown_dimensions_fall_back_to_the_footprint() {
    let mut kg = KittyGrid::default();
    kg.feed_chunk(store_cmd(b"a=t,f=100,i=3;AAAA"));
    kg.feed_chunk(store_cmd(b"a=t,i=4;AAAA"));
    kg.add_placement(3, None, PixelRect::new(0, 0, 21, 33), false);
    kg.add_placement(4, None, PixelRect::new(0, 0, 21, 33), false);
    let chunks = kg.visible_kitty_chunks(0, 10, 20, 0, 0, CELL);
    let sizes: Vec<(u32, usize, usize)> =
        chunks.iter().map(|c| (c.format, c.full_width, c.full_height)).collect();
    assert_eq!(sizes, vec![(100, 33, 21), (32, 33, 21)]);
}
