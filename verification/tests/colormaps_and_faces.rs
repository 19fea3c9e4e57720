use cadrum::colormap::{
    clean_colormap, extend_colormap, merge_all_colormaps, merge_colormaps, merge_side_colormaps, mesh_face_colors, remap_colormap_by_order, restrict_colormap,
    SolidColors,
};
use cadrum::provenance::{is_shape_face, is_tool_face, TShapeId};
use std::collections::HashMap;

fn map(pairs: &[(u64, u8)]) -> HashMap<u64, u8> {
    pairs.iter().copied().collect()
}

#[test]
fn boolean_result_faces_take_their_source_colors() {
    let a = map(&[(1, 10), (2, 20)]);
    let b = map(&[(3, 30), (1, 99)]);
    // [post, src] pairs: 100 <- 1 (in a), 101 <- 3 (in b), 102 <- 4 (nowhere), trailing 7 ignored.
    let merged = merge_colormaps(&[100, 1, 101, 3, 102, 4, 7], &a, &b);
    assert_eq!(merged, map(&[(100, 10), (101, 30)]));
}

#[test]
fn later_history_pairs_overwrite_earlier_ones() {
    let a = map(&[(1, 10), (2, 20)]);
    let b = HashMap::new();
    let merged = merge_colormaps(&[100, 1, 100, 2], &a, &b);
    assert_eq!(merged, map(&[(100, 20)]));
}

#[test]
fn remapping_by_order_pairs_faces_positionally() {
    let old = map(&[(1, 10), (3, 30)]);
    let remapped = remap_colormap_by_order(&[1, 2, 3], &[11, 12, 13, 14], &old);
    assert_eq!(remapped, map(&[(11, 10), (13, 30)]));
    let remapped = remap_colormap_by_order(&[1, 2, 3], &[11], &old);
    assert_eq!(remapped, map(&[(11, 10)]));
}

#[test]
fn cleaning_keeps_the_first_color_of_a_merged_face() {
    let old = map(&[(1, 10), (2, 20)]);
    // [new, old] pairs: 50 <- 1, 50 <- 2 (already colored), 60 <- 3 (uncolored).
    let cleaned = clean_colormap(&[50, 1, 50, 2, 60, 3], &old);
    assert_eq!(cleaned, map(&[(50, 10)]));
}

#[test]
fn restricting_keeps_only_listed_faces() {
    let colors = map(&[(1, 10), (2, 20), (3, 30)]);
    assert_eq!(restrict_colormap(&[3, 4, 1, 3], &colors), map(&[(1, 10), (3, 30)]));
    assert!(restrict_colormap(&[], &colors).is_empty());
}

#[test]
fn boolean_metadata_tells_the_side_of_a_face() {
    let metadata = [vec![1u64, 2, 3], vec![7u64, 8]];
    assert!(is_shape_face(&metadata, 2));
    assert!(!is_shape_face(&metadata, 7));
    assert!(is_tool_face(&metadata, 8));
    assert!(!is_tool_face(&metadata, 1));
    assert!(!is_tool_face(&metadata, 42) && !is_shape_face(&metadata, 42));
}

#[test]
fn shape_ids_compare_by_value() {
    assert_eq!(TShapeId(5), TShapeId(5));
    assert_ne!(TShapeId(5), TShapeId(6));
    let set: std::collections::HashSet<TShapeId> = [TShapeId(1), TShapeId(1), TShapeId(2)].into_iter().collect();
    assert_eq!(set.len(), 2);
}

#[test]
fn meshed_faces_take_solid_colors_under_face_colors() {
    // Solid 1 (faces 10, 11) is red as a whole and has face 11 blue.
    // Solid 2 (faces 20, 21) has no solid color; face 21 is green.
    // Solid 3 (faces 30) is uncolored.
    let solids = vec![
        SolidColors { id: 1, faces: vec![10, 11], colormap: map(&[(1, 1), (11, 2)]) },
        SolidColors { id: 2, faces: vec![20, 21], colormap: map(&[(21, 3)]) },
        SolidColors { id: 3, faces: vec![30], colormap: HashMap::new() },
    ];
    let colors = mesh_face_colors(&solids, &[10, 11, 20, 21, 30]);
    assert_eq!(colors, map(&[(10, 1), (11, 2), (21, 3)]));
}

#[test]
fn later_solids_overwrite_shared_faces() {
    let solids = vec![
        SolidColors { id: 1, faces: vec![10], colormap: map(&[(10, 5)]) },
        SolidColors { id: 2, faces: vec![10], colormap: map(&[(2, 6)]) },
    ];
    assert_eq!(mesh_face_colors(&solids, &[10]), map(&[(10, 6)]));
    assert!(mesh_face_colors(&solids, &[]).is_empty());
}

#[test]
fn extending_lays_the_source_over_the_target() {
    let mut target = map(&[(1, 10), (2, 20)]);
    extend_colormap(&mut target, &map(&[(2, 99), (3, 30)]));
    assert_eq!(target, map(&[(1, 10), (2, 99), (3, 30)]));
    extend_colormap(&mut target, &HashMap::new());
    assert_eq!(target, map(&[(1, 10), (2, 99), (3, 30)]));
}

#[test]
fn merging_all_maps_lets_later_maps_win() {
    let merged = merge_all_colormaps(&[map(&[(1, 1), (2, 2)]), map(&[(2, 20)]), map(&[(3, 3), (1, 10)])]);
    assert_eq!(merged, map(&[(1, 10), (2, 20), (3, 3)]));
    assert!(merge_all_colormaps::<u8>(&[]).is_empty());
}

#[test]
fn per_side_histories_let_the_tool_side_win() {
    let a = map(&[(1, 10), (2, 20)]);
    let b = map(&[(3, 30)]);
    let merged = merge_side_colormaps(&[100, 1, 101, 2], &[101, 3, 102, 4], &a, &b);
    assert_eq!(merged, map(&[(100, 10), (101, 30)]));
}
