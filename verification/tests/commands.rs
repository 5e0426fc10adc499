//! Parsing of commands, replies to queries, and reassembly of uploads.
use kitty_graphics::{
    decode_payload, dispatch, image_dimensions, parse_control, parse_keys, KittyAction,
    KittyCommand, KittyControl, KittyDelete, KittyFormat, KittyMedium, KittyOutcome, KittyQuery,
    PendingUpload,
};

fn control_of(body: &[u8]) -> KittyControl {
    parse_control(&parse_keys(body))
}

fn store_cmd(body: &[u8]) -> KittyCommand {
    match dispatch(body) {
        KittyOutcome::Store(cmd) => cmd,
        other => panic!("expected Store, got {:?}", other),
    }
}

#[test]
fn query_is_classified() {
    // The startup probe shape: i=<id>,a=q,s=1,v=1,t=d,f=24;AAAA
    let out = dispatch(b"i=31,a=q,s=1,v=1,t=d,f=24;AAAA");
    assert_eq!(
        out,
        KittyOutcome::Query(KittyQuery {
            id: Some(31),
            image_number: None,
            quiet: 0,
            medium: KittyMedium::Direct,
        })
    );
}

#[test]
fn query_with_image_number_and_quiet() {
    let out = dispatch(b"I=7,a=q,q=2");
    assert_eq!(
        out,
        KittyOutcome::Query(KittyQuery {
            id: None,
            image_number: Some(7),
            quiet: 2,
            medium: KittyMedium::Direct,
        })
    );
}

#[test]
fn query_carries_probed_medium() {
    // icat probes each medium with its own a=q; we must capture t= so the
    // reply can answer OK only for media we actually ingest.
    let direct = dispatch(b"a=q,f=24,s=1,v=1,i=1");
    let tempfile = dispatch(b"a=q,f=24,t=t,s=1,v=1,i=2");
    let shmem = dispatch(b"a=q,f=24,t=s,s=1,v=1,i=3");
    assert_eq!(
        direct,
        KittyOutcome::Query(KittyQuery {
            id: Some(1),
            image_number: None,
            quiet: 0,
            medium: KittyMedium::Direct,
        })
    );
    assert_eq!(
        tempfile,
        KittyOutcome::Query(KittyQuery {
            id: Some(2),
            image_number: None,
            quiet: 0,
            medium: KittyMedium::TempFile,
        })
    );
    assert_eq!(
        shmem,
        KittyOutcome::Query(KittyQuery {
            id: Some(3),
            image_number: None,
            quiet: 0,
            medium: KittyMedium::SharedMemory,
        })
    );
}

#[test]
fn transmit_and_display_is_store_with_typed_control() {
    match dispatch(b"a=T,f=100,i=1;iVBORw0KGgo=") {
        KittyOutcome::Store(cmd) => {
            assert_eq!(cmd.control.action, KittyAction::TransmitAndDisplay);
            assert_eq!(cmd.control.format, KittyFormat::Png);
            assert_eq!(cmd.control.image_id, Some(1));
            assert_eq!(cmd.payload, b"iVBORw0KGgo=".to_vec());
        },
        other => panic!("expected Store, got {:?}", other),
    }
}

#[test]
fn defaults_when_keys_absent() {
    let c = control_of(b"i=5");
    assert_eq!(c.action, KittyAction::Transmit); // default a=t
    assert_eq!(c.format, KittyFormat::Rgba); // default f=32
    assert_eq!(c.medium, KittyMedium::Direct); // default t=d
    assert!(!c.more);
    assert!(c.medium_supported());
    // No cell-target scaling unless `c=`/`r=` are present.
    assert_eq!(c.target_cols, None);
    assert_eq!(c.target_rows, None);
    // Kitty default is to move the cursor after placement unless `C=1`.
    assert!(c.move_cursor);
}

#[test]
fn parses_cursor_movement_policy() {
    assert!(!control_of(b"a=T,C=1").move_cursor, "C=1 disables cursor movement");
    assert!(!control_of(b"a=T,C=01").move_cursor, "C is parsed numerically");
    assert!(control_of(b"a=T,C=0").move_cursor, "C=0 keeps default cursor movement");
    assert!(control_of(b"a=T,C=99").move_cursor, "unknown C values keep default behavior");
}

#[test]
fn parses_cell_target_columns_and_rows() {
    // Apps like `pi` send `c=`/`r=` to scale the image into a cell box.
    let c = control_of(b"a=T,f=100,i=1,c=54,r=30");
    assert_eq!(c.target_cols, Some(54));
    assert_eq!(c.target_rows, Some(30));
}

#[test]
fn unsupported_media_flagged() {
    assert!(!control_of(b"a=t,t=f").medium_supported());
    assert!(!control_of(b"a=t,t=s").medium_supported());
    assert_eq!(control_of(b"a=t,t=f").medium, KittyMedium::File);
}

#[test]
fn unknown_action_is_ignored() {
    assert_eq!(dispatch(b"a=z"), KittyOutcome::Ignore);
}

#[test]
fn malformed_keys_skipped() {
    let out = dispatch(b"a=q,,=,xx=1,i=5");
    assert_eq!(
        out,
        KittyOutcome::Query(KittyQuery {
            id: Some(5),
            image_number: None,
            quiet: 0,
            medium: KittyMedium::Direct,
        })
    );
}

#[test]
fn reply_echoes_id_and_honours_quiet() {
    let q = KittyQuery { id: Some(31), image_number: None, quiet: 0, medium: KittyMedium::Direct };
    assert_eq!(q.reply(), Some(b"\x1b_Gi=31;OK\x1b\\".to_vec()));

    let q_num = KittyQuery {
        id: Some(2),
        image_number: Some(9),
        quiet: 0,
        medium: KittyMedium::Direct,
    };
    assert_eq!(q_num.reply(), Some(b"\x1b_Gi=2,I=9;OK\x1b\\".to_vec()));

    // q=1 suppresses the OK for a supported (direct) medium.
    let quiet = KittyQuery { id: Some(1), image_number: None, quiet: 1, medium: KittyMedium::Direct };
    assert_eq!(quiet.reply(), None);
}

#[test]
fn reply_errors_on_unsupported_medium_so_app_falls_back() {
    // File / shared-memory probes must get EBADT (not OK), otherwise the app
    // transmits via a medium that is dropped, and no image renders.
    let file = KittyQuery { id: Some(2), image_number: None, quiet: 0, medium: KittyMedium::File };
    assert_eq!(file.reply(), Some(b"\x1b_Gi=2;EBADT\x1b\\".to_vec()));

    let tmp = KittyQuery { id: Some(3), image_number: None, quiet: 0, medium: KittyMedium::TempFile };
    assert_eq!(tmp.reply(), Some(b"\x1b_Gi=3;EBADT\x1b\\".to_vec()));

    let shmem = KittyQuery { id: Some(4), image_number: None, quiet: 0, medium: KittyMedium::SharedMemory };
    assert_eq!(shmem.reply(), Some(b"\x1b_Gi=4;EBADT\x1b\\".to_vec()));

    // q=1 still emits the error (only q>=2 suppresses errors).
    let q1 = KittyQuery { id: Some(5), image_number: None, quiet: 1, medium: KittyMedium::File };
    assert_eq!(q1.reply(), Some(b"\x1b_Gi=5;EBADT\x1b\\".to_vec()));
    // q=2 suppresses the error.
    let q2 = KittyQuery { id: Some(6), image_number: None, quiet: 2, medium: KittyMedium::File };
    assert_eq!(q2.reply(), None);
}

#[test]
fn raw_dimensions_from_s_v() {
    let c = control_of(b"a=t,f=32,s=64,v=48");
    assert_eq!(image_dimensions(&c, &[]), Some((64, 48)));
}

#[test]
fn png_dimensions_from_ihdr() {
    // Minimal PNG header: signature + IHDR len + "IHDR" + width(5) + height(7)
    let mut png = Vec::new();
    png.extend_from_slice(b"\x89PNG\r\n\x1a\n");
    png.extend_from_slice(&[0, 0, 0, 13]); // IHDR length
    png.extend_from_slice(b"IHDR");
    png.extend_from_slice(&5u32.to_be_bytes());
    png.extend_from_slice(&7u32.to_be_bytes());
    let c = control_of(b"a=t,f=100");
    assert_eq!(image_dimensions(&c, &png), Some((5, 7)));
}

#[test]
fn compressed_without_dims_is_unknown() {
    // o=z PNG without s,v: not recoverable without inflate → None (placeholder).
    let c = control_of(b"a=t,f=100,o=z");
    assert!(c.compressed);
    assert_eq!(image_dimensions(&c, b"\x89PNG\r\n\x1a\n............"), None);
    // …but explicit s,v win even when compressed.
    let c2 = control_of(b"a=t,f=100,o=z,s=10,v=20");
    assert_eq!(image_dimensions(&c2, &[]), Some((10, 20)));
}

#[test]
fn reassembly_concatenates_chunks_and_finishes() {
    // "AAAA" base64-decodes to 3 zero bytes; split across two chunks.
    let first = control_of(b"a=t,f=32,s=1,v=1,m=1");
    let mut upload = PendingUpload::begin(first, b"AA");
    upload.append(b"AA");
    let finished = upload.finish();
    assert_eq!(finished.payload_b64, b"AAAA".to_vec());
    assert_eq!(finished.dimensions, Some((1, 1)));
}

#[test]
fn reassembly_png_dims_after_full_decode() {
    // base64 of a minimal PNG header, transmitted whole.
    let mut png = Vec::new();
    png.extend_from_slice(b"\x89PNG\r\n\x1a\n");
    png.extend_from_slice(&[0, 0, 0, 13]);
    png.extend_from_slice(b"IHDR");
    png.extend_from_slice(&3u32.to_be_bytes());
    png.extend_from_slice(&4u32.to_be_bytes());
    let b64 = base64::encode(&png);
    let upload = PendingUpload::begin(control_of(b"a=T,f=100,i=1"), b64.as_bytes());
    let finished = upload.finish();
    assert_eq!(finished.dimensions, Some((3, 4)));
    assert_eq!(finished.control.image_id, Some(1));
}

#[test]
fn dispatch_delete_by_id_and_all() {
    assert_eq!(dispatch(b"a=d,d=i,i=5"), KittyOutcome::Delete(KittyDelete::ById(5)));
    assert_eq!(dispatch(b"a=d,d=a"), KittyOutcome::Delete(KittyDelete::All));
    // default selector is "all"
    assert_eq!(dispatch(b"a=d"), KittyOutcome::Delete(KittyDelete::All));
    // case folding (d=I "also free data") collapses to by-id
    assert_eq!(dispatch(b"a=d,d=I,i=9"), KittyOutcome::Delete(KittyDelete::ById(9)));
}

#[test]
fn unreadable_values_and_keys_are_skipped() {
    let keys = parse_keys(b"i=\xff,p=2,\xe9=5,z=\xc3\xa9");
    assert_eq!(keys.len(), 2);
    assert_eq!(keys.get(&b'i'), None, "a value that is not UTF-8");
    assert_eq!(keys.get(&0xe9), None, "a key that is not ASCII");
    assert_eq!(keys.get(&b'p').map(|v| v.as_str()), Some("2"));
    assert_eq!(keys.get(&b'z').map(|v| v.as_str()), Some("\u{e9}"));
    assert!(parse_keys(b"").is_empty());
}

#[test]
fn malformed_entries_change_nothing_wherever_they_stand() {
    let plain = control_of(b"a=T,i=5,m=1");
    assert_eq!(control_of(b"xx=1,a=T,i=5,m=1"), plain);
    assert_eq!(control_of(b"a=T,,i=5,m=1"), plain);
    assert_eq!(control_of(b"a=T,i=5,=3,m=1"), plain);
    assert_eq!(control_of(b"a=T,i=5,m=1,p"), plain);
    assert_eq!(control_of(b"a=T,i=5,m=1,"), plain);
}

#[test]
fn last_entry_of_a_key_counts() {
    assert_eq!(control_of(b"i=1,i=2").image_id, Some(2));
    assert_eq!(control_of(b"i=1,i=x").image_id, None);
    // Behind the first `=` everything belongs to the value.
    assert_eq!(parse_keys(b"k=a=b").get(&b'k').map(|v| v.as_str()), Some("a=b"));
}

#[test]
fn unknown_keys_have_no_effect() {
    assert_eq!(control_of(b"a=p,i=5,z=-1,x=4,U=1"), control_of(b"a=p,i=5"));
}

#[test]
fn numbers_are_read_by_value() {
    assert_eq!(control_of(b"i=0").image_id, Some(0));
    assert_eq!(control_of(b"i=+5").image_id, Some(5));
    assert_eq!(control_of(b"i=0007").image_id, Some(7));
    assert_eq!(control_of(b"i=4294967295").image_id, Some(u32::MAX));
    assert_eq!(control_of(b"i=4294967296").image_id, None);
    assert_eq!(control_of(b"i=99999999999999999999999").image_id, None);
    assert_eq!(control_of(b"i=").image_id, None);
    assert_eq!(control_of(b"i=+").image_id, None);
    assert_eq!(control_of(b"i=++1").image_id, None);
    assert_eq!(control_of(b"i=-1").image_id, None);
    assert_eq!(control_of(b"i= 1").image_id, None);
    assert_eq!(control_of(b"i=1a").image_id, None);
}

#[test]
fn quiet_level_must_fit_a_byte() {
    assert_eq!(control_of(b"q=255").quiet, 255);
    assert_eq!(control_of(b"q=256").quiet, 0);
    assert_eq!(control_of(b"q=x").quiet, 0);
}

#[test]
fn flags_are_read_by_text() {
    assert!(control_of(b"m=1").more);
    assert!(!control_of(b"m=01").more);
    assert!(control_of(b"o=z").compressed);
    assert!(!control_of(b"o=Z").compressed);
    assert_eq!(control_of(b"f=24").format, KittyFormat::Rgb);
    assert_eq!(control_of(b"f=024").format, KittyFormat::Rgba);
    assert_eq!(control_of(b"a=").action, KittyAction::Unknown);
    assert_eq!(control_of(b"t=x").medium, KittyMedium::Direct);
}

#[test]
fn first_semicolon_parts_the_body() {
    assert_eq!(store_cmd(b"i=1;AA;i=2").payload, b"AA;i=2".to_vec());
    assert_eq!(store_cmd(b"i=1").payload, Vec::<u8>::new());
    assert_eq!(store_cmd(b";AAAA").payload, b"AAAA".to_vec());
    assert_eq!(store_cmd(b"").control, control_of(b"a=t"));
}

#[test]
fn delete_selectors() {
    assert_eq!(dispatch(b"a=d,d=A"), KittyOutcome::Delete(KittyDelete::All));
    assert_eq!(dispatch(b"a=d,d=i"), KittyOutcome::Delete(KittyDelete::Unsupported));
    assert_eq!(dispatch(b"a=d,d=i,i=x"), KittyOutcome::Delete(KittyDelete::Unsupported));
    assert_eq!(dispatch(b"a=d,d=z,i=4"), KittyOutcome::Delete(KittyDelete::Unsupported));
    assert_eq!(dispatch(b"a=d,d="), KittyOutcome::Delete(KittyDelete::Unsupported));
}

#[test]
fn replies_without_an_id() {
    let nobody = KittyQuery::default();
    assert_eq!(nobody.reply(), Some(b"\x1b_G;OK\x1b\\".to_vec()));
    let number = KittyQuery { image_number: Some(9), ..KittyQuery::default() };
    assert_eq!(number.reply(), Some(b"\x1b_GI=9;OK\x1b\\".to_vec()));
}

#[test]
fn quiet_levels_hide_more_and_more() {
    for medium in [KittyMedium::Direct, KittyMedium::File] {
        let mut hidden = false;
        for quiet in 0..=255u8 {
            let query = KittyQuery { id: Some(1), image_number: None, quiet, medium };
            let now = query.reply().is_none();
            assert!(now || !hidden);
            hidden = now;
        }
        assert!(hidden);
    }
}

#[test]
fn payloads_decode_as_base64() {
    assert_eq!(decode_payload(b"aGVsbG8="), Some(b"hello".to_vec()));
    assert_eq!(decode_payload(b"AAAA"), Some(vec![0, 0, 0]));
    assert_eq!(decode_payload(b""), Some(vec![]));
    assert_eq!(decode_payload(b"A"), None);
    assert_eq!(decode_payload(b"AA AA"), None);
    assert_eq!(decode_payload(b"AA\nAA"), None);
}

fn png(width: u32, height: u32) -> Vec<u8> {
    let mut png = b"\x89PNG\r\n\x1a\n\0\0\0\rIHDR".to_vec();
    png.extend_from_slice(&width.to_be_bytes());
    png.extend_from_slice(&height.to_be_bytes());
    png
}

#[test]
fn png_header_is_needed_whole() {
    let c = control_of(b"f=100");
    assert_eq!(image_dimensions(&c, &png(0x0102_0304, 0xfffe_fdfc)), Some((0x0102_0304, 0xfffe_fdfc)));
    assert_eq!(image_dimensions(&c, &png(5, 7)[..23]), None);
    let mut other = png(5, 7);
    other[0] = 0x88;
    assert_eq!(image_dimensions(&c, &other), None);
    let mut longer = png(5, 7);
    longer.extend_from_slice(b"\x08\x06");
    assert_eq!(image_dimensions(&c, &longer), Some((5, 7)));
}

#[test]
fn dimensions_need_both_keys_or_a_header() {
    assert_eq!(image_dimensions(&control_of(b"f=32,s=4"), &png(5, 7)), None);
    assert_eq!(image_dimensions(&control_of(b"f=24,v=4"), &png(5, 7)), None);
    // One key alone does not count.
    assert_eq!(image_dimensions(&control_of(b"f=100,s=4"), &png(5, 7)), Some((5, 7)));
    assert_eq!(image_dimensions(&control_of(b"f=100,s=4,v=6"), &png(5, 7)), Some((4, 6)));
    assert_eq!(image_dimensions(&control_of(b"f=100,o=z"), &png(5, 7)), None);
}

#[test]
fn undecodable_payload_keeps_explicit_dimensions() {
    let upload = PendingUpload::begin(control_of(b"f=32,s=4,v=6"), b"*");
    assert_eq!(upload.finish().dimensions, Some((4, 6)));
    let upload = PendingUpload::begin(control_of(b"f=100"), b"*");
    let finished = upload.finish();
    assert_eq!(finished.dimensions, None);
    assert_eq!(finished.payload_b64, b"*".to_vec());
}

#[test]
fn finishing_takes_the_decoded_payload() {
    let upload = PendingUpload::begin(control_of(b"f=100,i=8"), b"AAAA");
    assert_eq!(upload.image_id(), Some(8));
    assert_eq!(upload.clone().finish().dimensions, None);
    let finished = upload.finish_decoded(Some(png(3, 9)));
    assert_eq!(finished.dimensions, Some((3, 9)));
    assert_eq!(finished.payload_b64, b"AAAA".to_vec());
}

#[test]
fn stray_text_is_ignored() {
    // SOS or PM text that begins with a `G`.
    assert_eq!(dispatch(b"oodbye world"), KittyOutcome::Ignore);
    assert_eq!(dispatch(b"oodbye; world"), KittyOutcome::Ignore);
    assert_eq!(dispatch(b"oodbye, world"), KittyOutcome::Ignore);
}

#[test]
fn lists_without_a_good_entry_are_ignored() {
    for body in [&b","[..], b",;AAAA", b"xx=1", b"=", b"=1", b"a", b"i=\xff", b"\xe9=5", b"xx=1,,=,p;AAAA"] {
        assert_eq!(dispatch(body), KittyOutcome::Ignore, "{:?}", body);
    }
}

#[test]
fn one_good_entry_makes_a_command() {
    // The entry may be of a key that is not known.
    for body in [&b"xx=1,i=5;AAAA"[..], b"i=5,xx=1;AAAA", b",i=5,;AAAA", b"z=1;AAAA", b";AAAA"] {
        assert_eq!(store_cmd(body).control.action, KittyAction::Transmit);
        assert_eq!(store_cmd(body).payload, b"AAAA".to_vec());
    }
}
