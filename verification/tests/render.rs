//! The sequences that go to outer terminals.
use std::collections::{HashMap, HashSet};

use kitty_graphics::{
    dispatch, KittyAction, KittyChunkSpec, KittyDelete, KittyFormat, KittyOutcome,
    KittyRenderState,
};

fn spec() -> KittyChunkSpec {
    KittyChunkSpec {
        source_image_id: 7,
        placement_id: 1,
        format: 100,
        compressed: false,
        full_width: 20,
        full_height: 10,
        src_x: 0,
        src_y: 0,
        src_width: 20,
        src_height: 10,
        target_cols: None,
        target_rows: None,
        payload_b64: b"AAAA".to_vec(),
    }
}

#[test]
fn render_transmits_once_then_places() {
    let mut rs = KittyRenderState::default();
    let first = rs.render_chunk_bytes(1, &spec());
    let first = String::from_utf8(first).unwrap();
    // First frame: a transmit (a=t) AND a placement (a=p).
    assert!(first.contains("a=t,q=2"), "first frame transmits: {}", first);
    assert!(first.contains("a=p,q=2"), "first frame places: {}", first);
    assert!(first.contains(";AAAA"), "first frame carries payload");

    let second = rs.render_chunk_bytes(1, &spec());
    let second = String::from_utf8(second).unwrap();
    // Second frame: placement only, no re-transmit / no payload.
    assert!(!second.contains("a=t"), "must not re-transmit: {}", second);
    assert!(second.contains("a=p,q=2"), "still re-places: {}", second);
    assert!(!second.contains("AAAA"), "no payload on re-place");
}

#[test]
fn render_emits_cell_target_when_scaled() {
    // A scaled placement must carry `c`/`r` so the outer terminal draws the
    // image in the same cell footprint the inner app reserved (no gap).
    let mut rs = KittyRenderState::default();
    let mut s = spec();
    s.target_cols = Some(54);
    s.target_rows = Some(30);
    let bytes = String::from_utf8(rs.render_chunk_bytes(1, &s)).unwrap();
    assert!(bytes.contains("a=p,q=2"), "places: {}", bytes);
    assert!(bytes.contains(",c=54"), "carries target cols: {}", bytes);
    assert!(bytes.contains(",r=30"), "carries target rows: {}", bytes);
}

#[test]
fn render_omits_cell_target_when_unscaled() {
    // Native-size placements must NOT carry `c`/`r`.
    let mut rs = KittyRenderState::default();
    let bytes = String::from_utf8(rs.render_chunk_bytes(1, &spec())).unwrap();
    assert!(bytes.contains("a=p,q=2"), "places: {}", bytes);
    assert!(!bytes.contains(",c="), "no target cols: {}", bytes);
    assert!(!bytes.contains(",r="), "no target rows: {}", bytes);
}

#[test]
fn render_per_client_outer_ids_are_distinct_and_each_transmits() {
    let mut rs = KittyRenderState::default();
    let c1 = String::from_utf8(rs.render_chunk_bytes(1, &spec())).unwrap();
    let c2 = String::from_utf8(rs.render_chunk_bytes(2, &spec())).unwrap();
    // Each client gets its own transmit (separate outer terminals).
    assert!(c1.contains("a=t") && c2.contains("a=t"));
}

#[test]
fn render_reset_client_forces_retransmit() {
    let mut rs = KittyRenderState::default();
    rs.render_chunk_bytes(1, &spec());
    rs.reset_client(1);
    let again = String::from_utf8(rs.render_chunk_bytes(1, &spec())).unwrap();
    assert!(again.contains("a=t"), "re-attach must re-transmit: {}", again);
}

#[test]
fn render_raw_format_includes_dims_in_transmit() {
    let mut rs = KittyRenderState::default();
    let mut s = spec();
    s.format = 32; // RGBA raw
    let bytes = String::from_utf8(rs.render_chunk_bytes(1, &s)).unwrap();
    assert!(bytes.contains("s=20,v=10"), "raw transmit carries dims: {}", bytes);
}

#[test]
fn forget_image_returns_live_outer_ids_and_clears() {
    let mut rs = KittyRenderState::default();
    rs.render_chunk_bytes(1, &spec());
    rs.render_chunk_bytes(2, &spec());
    let deleted = rs.forget_image(7);
    assert_eq!(deleted.len(), 2, "both clients' outer ids returned for delete");
    // After forgetting, the next render re-transmits (fresh id).
    let again = String::from_utf8(rs.render_chunk_bytes(1, &spec())).unwrap();
    assert!(again.contains("a=t"));
}

#[test]
fn delete_image_bytes_well_formed() {
    let bytes = String::from_utf8(KittyRenderState::delete_image_bytes(0x90000000)).unwrap();
    assert_eq!(bytes, "\x1b_Ga=d,d=i,q=2,i=2415919104\x1b\\");
}

#[test]
fn reconcile_deletes_stale_placements() {
    let mut rs = KittyRenderState::default();
    // Allocate an outer id for (client 1, image 7).
    rs.render_chunk_bytes(1, &spec());

    // Frame 1: image 7 shows two visible sub-rects (placements 1 and 2).
    let mut f1: HashMap<u32, HashSet<u32>> = HashMap::new();
    f1.insert(7, HashSet::from([1, 2]));
    assert!(
        rs.reconcile_placements(1, &f1).is_empty(),
        "nothing tracked yet → nothing to delete"
    );

    // Frame 2: coverage grew, only placement 1 remains → placement 2 deleted.
    let mut f2: HashMap<u32, HashSet<u32>> = HashMap::new();
    f2.insert(7, HashSet::from([1]));
    let deletes = String::from_utf8(rs.reconcile_placements(1, &f2)).unwrap();
    assert!(deletes.contains("a=d,d=i") && deletes.contains("p=2"), "stale p=2 deleted: {}", deletes);
    assert!(!deletes.contains("p=1"), "live placement p=1 kept");

    // Frame 3: unchanged → no further deletes.
    assert!(rs.reconcile_placements(1, &f2).is_empty());
}

#[test]
fn take_outer_id_clears_mapping_and_returns_it() {
    let mut rs = KittyRenderState::default();
    let bytes = rs.render_chunk_bytes(1, &spec()); // transmits image 7 to client 1
    assert!(!bytes.is_empty());
    let outer = rs.take_outer_id(1, 7);
    assert!(outer.is_some(), "outer id was allocated");
    assert!(rs.take_outer_id(1, 7).is_none(), "mapping cleared");
    // After taking, the next render re-transmits (fresh).
    let again = String::from_utf8(rs.render_chunk_bytes(1, &spec())).unwrap();
    assert!(again.contains("a=t"));
}

fn text(bytes: Vec<u8>) -> String {
    String::from_utf8(bytes).unwrap()
}

#[test]
fn first_chunk_in_full() {
    let mut rs = KittyRenderState::default();
    let chunk = KittyChunkSpec {
        format: 24,
        compressed: true,
        src_x: 1,
        src_y: 2,
        src_width: 3,
        src_height: 4,
        placement_id: 12,
        target_cols: Some(5),
        target_rows: Some(6),
        ..spec()
    };
    assert_eq!(
        text(rs.render_chunk_bytes(1, &chunk)),
        "\x1b_Ga=t,q=2,i=2415919104,f=24,o=z,s=20,v=10;AAAA\x1b\\\
         \x1b_Ga=p,q=2,i=2415919104,p=12,x=1,y=2,w=3,h=4,c=5,r=6,C=1\x1b\\"
    );
    assert_eq!(
        text(rs.render_chunk_bytes(1, &spec())),
        "\x1b_Ga=p,q=2,i=2415919104,p=1,x=0,y=0,w=20,h=10,C=1\x1b\\"
    );
}

#[test]
fn outer_ids_are_handed_out_in_turn() {
    let mut rs = KittyRenderState::default();
    let other = KittyChunkSpec { source_image_id: 8, ..spec() };
    assert!(text(rs.render_chunk_bytes(1, &spec())).contains("a=p,q=2,i=2415919104,"));
    assert!(text(rs.render_chunk_bytes(2, &spec())).contains("a=p,q=2,i=2415919105,"));
    assert!(text(rs.render_chunk_bytes(1, &other)).contains("a=p,q=2,i=2415919106,"));
    // Each image keeps its id on each client.
    assert!(text(rs.render_chunk_bytes(2, &spec())).contains("a=p,q=2,i=2415919105,"));
    // A forgotten image gets a new one.
    assert_eq!(rs.take_outer_id(2, 7), Some(2415919105));
    assert!(text(rs.render_chunk_bytes(2, &spec())).contains("a=t,q=2,i=2415919107,"));
}

#[test]
fn reset_spares_other_clients() {
    let mut rs = KittyRenderState::default();
    rs.render_chunk_bytes(1, &spec());
    rs.render_chunk_bytes(2, &spec());
    let frame = HashMap::from([(7, HashSet::from([1]))]);
    rs.reconcile_placements(1, &frame);
    rs.reconcile_placements(2, &frame);
    rs.reset_client(1);
    assert!(!text(rs.render_chunk_bytes(2, &spec())).contains("a=t"));
    assert_eq!(rs.take_outer_id(1, 7), None);
    assert!(rs.reconcile_placements(1, &HashMap::new()).is_empty());
    assert_eq!(
        text(rs.reconcile_placements(2, &HashMap::new())),
        "\x1b_Ga=d,d=i,q=2,i=2415919105,p=1\x1b\\"
    );
}

#[test]
fn forgotten_image_is_gone_from_every_client() {
    let mut rs = KittyRenderState::default();
    let other = KittyChunkSpec { source_image_id: 8, ..spec() };
    rs.render_chunk_bytes(1, &spec());
    rs.render_chunk_bytes(2, &spec());
    rs.render_chunk_bytes(3, &other);
    let mut holders = rs.forget_image(7);
    holders.sort();
    assert_eq!(holders, vec![(1, 0x9000_0000), (2, 0x9000_0001)]);
    assert!(rs.forget_image(7).is_empty());
    assert!(!text(rs.render_chunk_bytes(3, &other)).contains("a=t"));
}

#[test]
fn forgotten_images_leave_no_placements() {
    let mut rs = KittyRenderState::default();
    rs.render_chunk_bytes(1, &spec());
    rs.reconcile_placements(1, &HashMap::from([(7, HashSet::from([1]))]));
    rs.forget_image(7);
    rs.render_chunk_bytes(1, &spec());
    assert!(rs.reconcile_placements(1, &HashMap::new()).is_empty());
}

#[test]
fn reconcile_deletes_each_stale_placement_once() {
    let mut rs = KittyRenderState::default();
    let other = KittyChunkSpec { source_image_id: 8, ..spec() };
    rs.render_chunk_bytes(1, &spec());
    rs.render_chunk_bytes(1, &other);
    let frame = HashMap::from([
        (7, HashSet::from([1, 2, 3])),
        (8, HashSet::from([1])),
        // Never rendered: there is no outer id to delete under.
        (9, HashSet::from([1])),
    ]);
    assert!(rs.reconcile_placements(1, &frame).is_empty());
    let next = HashMap::from([(7, HashSet::from([2])), (8, HashSet::new())]);
    let deletes = text(rs.reconcile_placements(1, &next));
    let mut parts: Vec<&str> = deletes.split_inclusive("\x1b\\").collect();
    parts.sort();
    assert_eq!(
        parts,
        vec![
            "\x1b_Ga=d,d=i,q=2,i=2415919104,p=1\x1b\\",
            "\x1b_Ga=d,d=i,q=2,i=2415919104,p=3\x1b\\",
            "\x1b_Ga=d,d=i,q=2,i=2415919105,p=1\x1b\\",
        ]
    );
    assert!(rs.reconcile_placements(1, &next).is_empty());
}

#[test]
fn sequences_read_back() {
    let mut rs = KittyRenderState::default();
    let chunk = KittyChunkSpec { format: 24, compressed: true, target_cols: Some(5), ..spec() };
    let bytes = rs.render_chunk_bytes(1, &chunk);
    let sequences: Vec<String> =
        text(bytes).split_inclusive("\x1b\\").map(|s| s.to_string()).collect();
    assert_eq!(sequences.len(), 2);
    let body = |s: &str| -> KittyOutcome { dispatch(&s.as_bytes()[3..s.len() - 2]) };
    match body(&sequences[0]) {
        KittyOutcome::Store(cmd) => {
            assert_eq!(cmd.control.action, KittyAction::Transmit);
            assert_eq!(cmd.control.image_id, Some(0x9000_0000));
            assert_eq!(cmd.control.format, KittyFormat::Rgb);
            assert_eq!((cmd.control.src_width, cmd.control.src_height), (Some(20), Some(10)));
            assert!(cmd.control.compressed);
            assert_eq!(cmd.control.quiet, 2);
            assert_eq!(cmd.payload, b"AAAA".to_vec());
        },
        other => panic!("expected Store, got {:?}", other),
    }
    match body(&sequences[1]) {
        KittyOutcome::Store(cmd) => {
            assert_eq!(cmd.control.action, KittyAction::Place);
            assert_eq!(cmd.control.image_id, Some(0x9000_0000));
            assert_eq!(cmd.control.placement_id, Some(1));
            assert_eq!(cmd.control.target_cols, Some(5));
            assert!(!cmd.control.move_cursor);
        },
        other => panic!("expected Store, got {:?}", other),
    }
    let delete = text(KittyRenderState::delete_image_bytes(77));
    assert_eq!(body(&delete), KittyOutcome::Delete(KittyDelete::ById(77)));
}

#[test]
fn forgotten_outer_ids_do_not_come_again() {
    let mut rs = KittyRenderState::default();
    let mut handed_out: Vec<u32> = Vec::new();
    for round in 0..20u32 {
        rs.render_chunk_bytes(1, &spec());
        rs.render_chunk_bytes(2, &spec());
        let mut holders: Vec<u32> = rs.forget_image(7).iter().map(|h| h.1).collect();
        if round % 2 == 0 {
            rs.reset_client(1);
        }
        holders.sort();
        handed_out.extend(holders);
    }
    let expected: Vec<u32> = (0..40).map(|n| 0x9000_0000 + n).collect();
    assert_eq!(handed_out, expected);
}
