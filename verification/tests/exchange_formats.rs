use cadrum::body_order::{
    apply_body_order, can_apply_body_order, insert_body_order, read_body_order, reorder_step_bodies, shells_only, BodyKind,
    BrepBody,
};
use cadrum::bytes::{find_first_from, find_last, push_le16, push_le32, push_le64, read_le32};
use cadrum::chjc::{decode_chjc, encode_chjc, resolve_chjc_colors, write_brep_color};
use cadrum::color_trailer::{
    color_trailer_entries, encode_color_trailer, read_color_trailer, resolve_color_trailer, trailer_ids, write_color_trailer, ColorBits,
};
use cadrum::Error;
use std::collections::HashMap;

fn bits(r: f32, g: f32, b: f32) -> ColorBits {
    ColorBits { r: r.to_bits(), g: g.to_bits(), b: b.to_bits() }
}

fn tags(bodies: &[BrepBody<u32, u32>]) -> Vec<(char, u32)> {
    bodies
        .iter()
        .map(|b| match b {
            BrepBody::Solid(x) => ('D', *x),
            BrepBody::Shell(x) => ('H', *x),
        })
        .collect()
}

// ==================== Little-endian helpers and search ====================

#[test]
fn little_endian_writers_and_reader() {
    let mut out = Vec::new();
    push_le16(&mut out, 0x1234);
    push_le32(&mut out, 0xdeadbeef);
    push_le64(&mut out, 0x0102030405060708);
    assert_eq!(out, vec![0x34, 0x12, 0xef, 0xbe, 0xad, 0xde, 8, 7, 6, 5, 4, 3, 2, 1]);
    assert_eq!(read_le32(&out, 2), 0xdeadbeef);
}

#[test]
fn byte_search_finds_last_and_first() {
    let s = b"abcabcab";
    assert_eq!(find_last(s, b"ab"), Some(6));
    assert_eq!(find_last(s, b"abc"), Some(3));
    assert_eq!(find_last(s, b"x"), None);
    assert_eq!(find_first_from(s, b"ca", 0), Some(2));
    assert_eq!(find_first_from(s, b"ca", 3), Some(5));
    assert_eq!(find_first_from(s, b"ca", 6), None);
}

// ==================== STEP body order ====================

#[test]
fn body_order_marker_goes_before_the_last_footer() {
    let mut payload = b"ISO-10303-21;\r\nDATA;\r\nENDSEC;\r\nEND-ISO-10303-21;\r\n".to_vec();
    assert_eq!(insert_body_order(&mut payload, &[BodyKind::Solid, BodyKind::Shell, BodyKind::Solid]), Ok(()));
    assert_eq!(payload, b"ISO-10303-21;\r\nDATA;\r\nENDSEC;\r\n/*CADRUM_BODY_ORDER:DHD*/\r\nEND-ISO-10303-21;\r\n".to_vec());
    assert_eq!(read_body_order(&payload), Some(vec![BodyKind::Solid, BodyKind::Shell, BodyKind::Solid]));
}

#[test]
fn body_order_needs_a_footer() {
    let mut payload = b"no footer here".to_vec();
    assert_eq!(insert_body_order(&mut payload, &[BodyKind::Solid]), Err(Error::StepWriteFailed));
    assert_eq!(payload, b"no footer here".to_vec());
}

#[test]
fn body_order_reader_takes_the_last_marker() {
    let payload = b"/*CADRUM_BODY_ORDER:H*/ x /*CADRUM_BODY_ORDER:DD*/ END-ISO-10303-21;";
    assert_eq!(read_body_order(payload), Some(vec![BodyKind::Solid, BodyKind::Solid]));
    assert_eq!(read_body_order(b"/*CADRUM_BODY_ORDER:*/"), Some(vec![]));
}

#[test]
fn body_order_reader_refuses_malformed_markers() {
    assert_eq!(read_body_order(b"/*CADRUM_BODY_ORDER:DX*/"), None);
    assert_eq!(read_body_order(b"/*CADRUM_BODY_ORDER:DH"), None);
    assert_eq!(read_body_order(b"END-ISO-10303-21;"), None);
}

#[test]
fn body_order_round_trip_through_insert_and_read() {
    let order = vec![BodyKind::Shell, BodyKind::Shell, BodyKind::Solid];
    let mut payload = b"HEADER;END-ISO-10303-21;".to_vec();
    insert_body_order(&mut payload, &order).unwrap();
    assert_eq!(read_body_order(&payload), Some(order));
}

#[test]
fn applying_an_order_interleaves_kinds_stably() {
    let bodies = vec![BrepBody::Solid(1), BrepBody::Solid(2), BrepBody::Shell(10), BrepBody::Shell(11)];
    let order = [BodyKind::Shell, BodyKind::Solid, BodyKind::Shell, BodyKind::Solid];
    assert!(can_apply_body_order(&bodies, &order));
    let applied = apply_body_order(bodies, &order).expect("enough bodies of each kind");
    assert_eq!(tags(&applied), vec![('H', 10), ('D', 1), ('H', 11), ('D', 2)]);
}

#[test]
fn an_order_with_other_counts_does_not_apply() {
    let bodies = vec![BrepBody::Solid(1), BrepBody::Shell(10)];
    assert!(!can_apply_body_order(&bodies, &[BodyKind::Solid, BodyKind::Solid]));
    assert!(!can_apply_body_order(&bodies, &[BodyKind::Solid]));
    assert!(apply_body_order(bodies, &[BodyKind::Solid, BodyKind::Solid]).is_none());
}

#[test]
fn step_bodies_follow_the_recorded_order() {
    let payload = b"DATA; /*CADRUM_BODY_ORDER:HD*/\r\nEND-ISO-10303-21;";
    let bodies = vec![BrepBody::Solid(1), BrepBody::Shell(10)];
    let reordered = reorder_step_bodies(bodies, payload).unwrap();
    assert_eq!(tags(&reordered), vec![('H', 10), ('D', 1)]);

    let bodies = vec![BrepBody::Solid(1), BrepBody::Shell(10)];
    let unchanged = reorder_step_bodies(bodies, b"DATA; END-ISO-10303-21;").unwrap();
    assert_eq!(tags(&unchanged), vec![('D', 1), ('H', 10)]);

    let bodies = vec![BrepBody::Solid(1), BrepBody::Shell(10)];
    let mismatched = reorder_step_bodies(bodies, b"/*CADRUM_BODY_ORDER:DD*/").unwrap();
    assert_eq!(tags(&mismatched), vec![('D', 1), ('H', 10)]);
}

#[test]
fn shells_only_keeps_shells_or_fails() {
    let bodies = vec![BrepBody::Shell(3), BrepBody::Solid(1), BrepBody::Shell(4)];
    assert_eq!(tags(&shells_only(bodies).unwrap()), vec![('H', 3), ('H', 4)]);
    let bodies: Vec<BrepBody<u32, u32>> = vec![BrepBody::Solid(1)];
    assert!(matches!(shells_only(bodies), Err(Error::StepReadFailed)));
}

#[test]
fn body_kind_is_reported() {
    assert_eq!(BrepBody::<u32, u32>::Solid(1).kind(), BodyKind::Solid);
    assert_eq!(BrepBody::<u32, u32>::Shell(1).kind(), BodyKind::Shell);
}

// ==================== BRep color trailer ====================

#[test]
fn trailer_entries_use_the_last_index_of_each_colored_id() {
    let red = bits(1.0, 0.0, 0.0);
    let blue = bits(0.0, 0.0, 1.0);
    let colormap: HashMap<u64, ColorBits> = [(100, red), (300, blue), (999, red)].into_iter().collect();
    let ids = [100u64, 200, 100, 300];
    assert_eq!(color_trailer_entries(&ids, &colormap), vec![(2, red), (3, blue)]);
}

#[test]
fn trailer_bytes_have_magic_count_and_entries() {
    let c = ColorBits { r: 0x01020304, g: 5, b: 6 };
    let bytes = encode_color_trailer(&[(7, c)]);
    assert_eq!(
        bytes,
        vec![b'C', b'D', b'C', b'L', 1, 0, 0, 0, 7, 0, 0, 0, 4, 3, 2, 1, 5, 0, 0, 0, 6, 0, 0, 0]
    );
    assert!(encode_color_trailer(&[]).is_empty());
}

#[test]
fn trailer_round_trip_ignores_bytes_after_it() {
    let a = bits(0.5, 0.25, 1.0);
    let b = bits(0.0, 1.0, 0.0);
    let mut bytes = encode_color_trailer(&[(0, a), (4, b), (0, b)]);
    bytes.extend_from_slice(b"trailing garbage");
    let map = read_color_trailer(&bytes);
    assert_eq!(map.len(), 2);
    assert_eq!(map.get(&0), Some(&b));
    assert_eq!(map.get(&4), Some(&b));
}

#[test]
fn anything_but_a_complete_trailer_reads_as_empty() {
    assert!(read_color_trailer(b"").is_empty());
    assert!(read_color_trailer(b"CDCL\x01\x00\x00").is_empty());
    assert!(read_color_trailer(b"XDCL\x00\x00\x00\x00").is_empty());
    let truncated = encode_color_trailer(&[(1, bits(1.0, 1.0, 1.0))]);
    assert!(read_color_trailer(&truncated[..truncated.len() - 1]).is_empty());
    assert!(read_color_trailer(b"CDCL\x00\x00\x00\x00").is_empty());
}

#[test]
fn resolving_a_trailer_maps_indices_to_ids() {
    let a = bits(1.0, 0.0, 0.0);
    let b = bits(0.0, 1.0, 0.0);
    let trailer: HashMap<u32, ColorBits> = [(0, a), (2, b), (9, a)].into_iter().collect();
    let resolved = resolve_color_trailer(&trailer, &[50, 60, 50]);
    assert_eq!(resolved.len(), 1);
    assert_eq!(resolved.get(&50), Some(&b));
    let resolved = resolve_color_trailer(&trailer, &[50, 60, 70]);
    assert_eq!(resolved.len(), 2);
    assert_eq!(resolved.get(&50), Some(&a));
    assert_eq!(resolved.get(&70), Some(&b));
}

// ==================== CHJC container ====================

#[test]
fn chjc_frames_header_entries_length_and_body() {
    let c = ColorBits { r: 1, g: 2, b: 3 };
    let bytes = encode_chjc(&[(5, c)], b"BREP");
    assert_eq!(
        bytes,
        vec![
            b'C', b'H', b'J', b'C', 1, 1, 0, 0, 0, 5, 0, 0, 0, 1, 0, 0, 0, 2, 0, 0, 0, 3, 0, 0, 0, 4, 0, 0, 0, 0, 0, 0, 0, b'B',
            b'R', b'E', b'P'
        ]
    );
}

#[test]
fn chjc_round_trip_gives_entries_and_body() {
    let a = bits(0.1, 0.2, 0.3);
    let b = bits(0.4, 0.5, 0.6);
    let bytes = encode_chjc(&[(0, a), (3, b)], b"body bytes");
    let header = decode_chjc(&bytes).expect("well-formed header");
    assert_eq!(header.entries, vec![(0, a), (3, b)]);
    assert_eq!(header.body_start, 17 + 32);
    assert_eq!(&bytes[header.body_start..], b"body bytes");
    let empty = encode_chjc(&[], b"");
    let header = decode_chjc(&empty).unwrap();
    assert!(header.entries.is_empty());
    assert_eq!(header.body_start, 17);
}

#[test]
fn chjc_refuses_bad_headers() {
    assert!(matches!(decode_chjc(b"CHJ"), Err(Error::BrepReadFailed)));
    assert!(matches!(decode_chjc(b"CHJX\x01\x00\x00\x00\x00\x00\x00\x00\x00\x00\x00\x00\x00"), Err(Error::BrepReadFailed)));
    assert!(matches!(decode_chjc(b"CHJC\x02\x00\x00\x00\x00\x00\x00\x00\x00\x00\x00\x00\x00"), Err(Error::BrepReadFailed)));
    assert!(matches!(decode_chjc(b"CHJC\x01\x01\x00\x00\x00\x00\x00\x00\x00"), Err(Error::BrepReadFailed)));
    assert!(decode_chjc(b"CHJC\x01\x00\x00\x00\x00\x00\x00\x00\x00\x00\x00\x00\x00").is_ok());
}

#[test]
fn chjc_colors_skip_unknown_faces_and_later_entries_win() {
    let a = bits(1.0, 0.0, 0.0);
    let b = bits(0.0, 0.0, 1.0);
    let colors = resolve_chjc_colors(&[(1, a), (7, b), (0, b), (2, b)], &[11, 12, 11]);
    assert_eq!(colors.len(), 2);
    assert_eq!(colors.get(&12), Some(&a));
    assert_eq!(colors.get(&11), Some(&b));
}

#[test]
fn trailer_write_then_read_gives_the_colors_of_the_listed_shapes() {
    let red = bits(1.0, 0.0, 0.0);
    let blue = bits(0.0, 0.0, 1.0);
    let green = bits(0.0, 1.0, 0.0);
    let colormap: HashMap<u64, ColorBits> = [(100, red), (300, blue), (999, green)].into_iter().collect();
    let ids = [100u64, 200, 100, 300];
    let bytes = write_color_trailer(&ids, &colormap);
    let read = resolve_color_trailer(&read_color_trailer(&bytes), &ids);
    let expected: HashMap<u64, ColorBits> = [(100, red), (300, blue)].into_iter().collect();
    assert_eq!(read, expected);
}

#[test]
fn chjc_write_then_read_gives_the_colors_of_the_faces() {
    let red = bits(1.0, 0.0, 0.0);
    let blue = bits(0.0, 0.0, 1.0);
    let colormap: HashMap<u64, ColorBits> = [(7, red), (9, blue), (11, red)].into_iter().collect();
    let faces = [9u64, 7, 8, 9];
    let bytes = write_brep_color(&faces, &colormap, b"brep");
    let header = decode_chjc(&bytes).unwrap();
    let read = resolve_chjc_colors(&header.entries, &faces);
    let expected: HashMap<u64, ColorBits> = [(7, red), (9, blue)].into_iter().collect();
    assert_eq!(read, expected);
    assert_eq!(&bytes[header.body_start..], b"brep");
}

#[test]
fn trailer_ids_list_solids_before_faces() {
    assert_eq!(trailer_ids(&[1, 2], &[10, 11, 12]), vec![1, 2, 10, 11, 12]);
    assert_eq!(trailer_ids(&[], &[5]), vec![5]);
}

#[test]
fn uncolored_shapes_write_no_trailer() {
    let colormap: HashMap<u64, ColorBits> = [(42, bits(1.0, 1.0, 1.0))].into_iter().collect();
    assert!(write_color_trailer(&[1, 2, 3], &colormap).is_empty());
    let bytes = write_color_trailer(&[1, 42], &colormap);
    assert_eq!(&bytes[..8], b"CDCL\x01\x00\x00\x00");
    assert_eq!(read_color_trailer(&bytes).get(&1), Some(&bits(1.0, 1.0, 1.0)));
}

#[test]
fn colors_follow_faces_renamed_by_the_reader() {
    let red = bits(1.0, 0.0, 0.0);
    let blue = bits(0.0, 0.0, 1.0);
    let colormap: HashMap<u64, ColorBits> = [(7, red), (9, blue)].into_iter().collect();
    let written = [9u64, 7, 8];
    let renamed = [900u64, 700, 800];
    let expected: HashMap<u64, ColorBits> = [(700, red), (900, blue)].into_iter().collect();

    let trailer = write_color_trailer(&written, &colormap);
    assert_eq!(resolve_color_trailer(&read_color_trailer(&trailer), &renamed), expected);

    let container = write_brep_color(&written, &colormap, b"body");
    let header = decode_chjc(&container).unwrap();
    assert_eq!(resolve_chjc_colors(&header.entries, &renamed), expected);
}
