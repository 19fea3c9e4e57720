use cadrum::color_trailer::ColorBits;
use cadrum::gltf::{
    edge_primitive, glb_container, gltf_json, push_accessor_index, push_accessor_vec3, push_buffer_view, triangle_indices, triangle_primitive,
};
use cadrum::mesh_buffers::{edge_line_indices, triangle_groups};
use std::collections::HashMap;

#[test]
fn buffer_views_are_four_byte_aligned() {
    let mut views = Vec::new();
    let mut bin = vec![1u8, 2, 3];
    let v = push_buffer_view(&mut views, &mut bin, &[9, 9], 34962);
    assert_eq!(v, 0);
    assert_eq!(bin, vec![1, 2, 3, 0, 9, 9]);
    assert_eq!(views, vec![r#"{"buffer":0,"byteOffset":4,"byteLength":2,"target":34962}"#.to_string()]);
    let v = push_buffer_view(&mut views, &mut bin, &[7], 34963);
    assert_eq!(v, 1);
    assert_eq!(bin, vec![1, 2, 3, 0, 9, 9, 0, 0, 7]);
    assert_eq!(views[1], r#"{"buffer":0,"byteOffset":8,"byteLength":1,"target":34963}"#);
}

#[test]
fn small_meshes_use_16_bit_indices() {
    let mut views = vec!["{}".to_string()];
    let mut accs = vec!["{}".to_string(), "{}".to_string()];
    let mut bin = Vec::new();
    let a = push_accessor_index(&mut views, &mut accs, &mut bin, &[0, 1, 258], 3);
    assert_eq!(a, 2);
    assert_eq!(bin, vec![0, 0, 1, 0, 2, 1]);
    assert_eq!(views[1], r#"{"buffer":0,"byteOffset":0,"byteLength":6,"target":34963}"#);
    assert_eq!(accs[2], r#"{"bufferView":1,"componentType":5123,"count":3,"type":"SCALAR"}"#);
}

#[test]
fn large_meshes_use_32_bit_indices() {
    let mut views = Vec::new();
    let mut accs = Vec::new();
    let mut bin = vec![0xffu8];
    let a = push_accessor_index(&mut views, &mut accs, &mut bin, &[65536, 1], 70000);
    assert_eq!(a, 0);
    assert_eq!(bin, vec![0xff, 0, 0, 0, 0, 0, 1, 0, 1, 0, 0, 0]);
    assert_eq!(views[0], r#"{"buffer":0,"byteOffset":4,"byteLength":8,"target":34963}"#);
    assert_eq!(accs[0], r#"{"bufferView":0,"componentType":5125,"count":2,"type":"SCALAR"}"#);
}

#[test]
fn primitives_are_written_as_json() {
    assert_eq!(
        triangle_primitive(0, 1, 2, Some(3)),
        r#"{"attributes":{"POSITION":0,"NORMAL":1},"indices":2,"mode":4,"material":3}"#
    );
    assert_eq!(triangle_primitive(0, 1, 4, None), r#"{"attributes":{"POSITION":0,"NORMAL":1},"indices":4,"mode":4}"#);
    assert_eq!(edge_primitive(5, 6), r#"{"attributes":{"POSITION":5},"indices":6,"mode":1,"extras":{"cadrum":"edges"}}"#);
}

#[test]
fn gltf_document_lists_only_present_members() {
    let empty: Vec<String> = Vec::new();
    assert_eq!(gltf_json(0, &empty, &empty, &empty, &empty), r#"{"asset":{"version":"2.0","generator":"cadrum"}}"#);
    let views = vec!["V0".to_string(), "V1".to_string()];
    let accs = vec!["A0".to_string()];
    let prims = vec!["P0".to_string()];
    assert_eq!(
        gltf_json(12, &views, &accs, &empty, &prims),
        r#"{"asset":{"version":"2.0","generator":"cadrum"},"buffers":[{"byteLength":12}],"bufferViews":[V0,V1],"accessors":[A0],"meshes":[{"primitives":[P0]}],"nodes":[{"mesh":0}],"scenes":[{"nodes":[0]}],"scene":0}"#
    );
    let mats = vec!["M0".to_string(), "M1".to_string()];
    assert_eq!(
        gltf_json(0, &empty, &empty, &mats, &empty),
        r#"{"asset":{"version":"2.0","generator":"cadrum"},"materials":[M0,M1]}"#
    );
}

#[test]
fn glb_without_binary_has_only_the_json_chunk() {
    let glb = glb_container(b"{}", b"");
    let mut expected = Vec::new();
    expected.extend_from_slice(b"glTF");
    expected.extend_from_slice(&2u32.to_le_bytes());
    expected.extend_from_slice(&24u32.to_le_bytes());
    expected.extend_from_slice(&4u32.to_le_bytes());
    expected.extend_from_slice(b"JSON");
    expected.extend_from_slice(b"{}  ");
    assert_eq!(glb, expected);
}

#[test]
fn glb_with_binary_pads_both_chunks() {
    let glb = glb_container(b"{\"a\":1}", &[5]);
    let mut expected = Vec::new();
    expected.extend_from_slice(b"glTF");
    expected.extend_from_slice(&2u32.to_le_bytes());
    expected.extend_from_slice(&40u32.to_le_bytes());
    expected.extend_from_slice(&8u32.to_le_bytes());
    expected.extend_from_slice(b"JSON");
    expected.extend_from_slice(b"{\"a\":1} ");
    expected.extend_from_slice(&4u32.to_le_bytes());
    expected.extend_from_slice(b"BIN\0");
    expected.extend_from_slice(&[5, 0, 0, 0]);
    assert_eq!(glb, expected);
}

#[test]
fn edge_polylines_become_segments() {
    assert_eq!(edge_line_indices(&[false, false, false, true, false, false]), vec![0, 1, 1, 2, 3, 4]);
    assert_eq!(edge_line_indices(&[true, false, true, true, false, false]), vec![1, 2]);
    assert_eq!(edge_line_indices(&[false]), Vec::<u32>::new());
    assert_eq!(edge_line_indices(&[]), Vec::<u32>::new());
}

#[test]
fn triangles_are_grouped_by_face_color_in_first_seen_order() {
    let red = ColorBits { r: 1.0f32.to_bits(), g: 0, b: 0 };
    let gray = ColorBits { r: 0.8667f32.to_bits(), g: 0.8667f32.to_bits(), b: 0.8667f32.to_bits() };
    let colormap: HashMap<u64, ColorBits> = [(10, red)].into_iter().collect();
    let groups = triangle_groups(&[0, 1, 2, 2, 1, 3, 4, 5, 6], &[10, 20, 10], &colormap, gray);
    assert_eq!(groups, vec![(vec![0, 1, 2, 4, 5, 6], red), (vec![2, 1, 3], gray)]);
    assert!(triangle_groups(&[0, 1], &[], &colormap, gray).is_empty());
}

#[test]
fn triangle_indices_narrow_to_32_bits() {
    assert_eq!(triangle_indices(&[0, 1, 2, 70000]), vec![0u32, 1, 2, 70000]);
}

#[test]
fn vec3_accessors_describe_their_float_buffer() {
    let mut views = vec!["{}".to_string()];
    let mut accs = Vec::new();
    let mut bin = vec![7u8, 7];
    let data: Vec<u8> = [1.0f32, 2.0, 3.0].iter().flat_map(|c| c.to_le_bytes()).collect();
    let a = push_accessor_vec3(&mut views, &mut accs, &mut bin, &data, 1, r#""min":[1,2,3],"max":[1,2,3]"#);
    assert_eq!(a, 0);
    assert_eq!(bin.len(), 4 + 12);
    assert_eq!(&bin[4..], &data[..]);
    assert_eq!(views[1], r#"{"buffer":0,"byteOffset":4,"byteLength":12,"target":34962}"#);
    assert_eq!(accs[0], r#"{"bufferView":1,"componentType":5126,"count":1,"type":"VEC3","min":[1,2,3],"max":[1,2,3]}"#);
}
