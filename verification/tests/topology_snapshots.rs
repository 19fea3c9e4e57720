use cadrum::topology::{
    optional_index, orientation, required_index, shell_role, snapshot, RawEdge, RawEdgeIncident, RawEdgeUse, RawFace,
    RawFaceUse, RawLoop, RawShell, RawTopology, TopologyEdge, TopologyEdgeIncident, TopologyEdgeUse, TopologyFaceUse,
    TopologyOrientation, TopologyShellRole, Vertex, MISSING_INDEX,
};
use cadrum::Error;

fn vertex(id: u64) -> Vertex {
    Vertex { runtime_id: id, x_bits: 0, y_bits: 1.0f64.to_bits(), z_bits: 2.0f64.to_bits(), tolerance_bits: 1e-7f64.to_bits() }
}

/// One face bounded by one edge that it uses reversed, in one outer shell.
fn single_face() -> RawTopology {
    RawTopology {
        success: true,
        vertices: vec![vertex(5)],
        edges: vec![RawEdge {
            runtime_id: 10,
            start_vertex: 0,
            end_vertex: MISSING_INDEX,
            incidents: vec![RawEdgeIncident { face: 0, boundary_loop: 0, edge_use: 0, orientation: 1 }],
        }],
        faces: vec![RawFace {
            runtime_id: 20,
            boundary_loops: vec![RawLoop { is_outer: true, orientation: 0, edges: vec![RawEdgeUse { edge: 0, orientation: 1 }] }],
        }],
        shells: vec![RawShell { runtime_id: 30, role: 1, orientation: 0, is_closed: false, faces: vec![RawFaceUse { face: 0, orientation: 0 }] }],
    }
}

#[test]
fn snapshot_converts_a_consistent_table() {
    let t = snapshot(single_face()).expect("consistent tables");
    assert_eq!(t.vertices, vec![vertex(5)]);
    assert_eq!(t.edges.len(), 1);
    assert_eq!(t.edges[0].runtime_id, 10);
    assert_eq!(t.edges[0].start_vertex, Some(0));
    assert_eq!(t.edges[0].end_vertex, None);
    assert_eq!(
        t.edges[0].incidents,
        vec![TopologyEdgeIncident { face: 0, boundary_loop: 0, edge_use: 0, orientation: TopologyOrientation::Reversed }]
    );
    assert_eq!(t.faces[0].runtime_id, 20);
    assert!(t.faces[0].boundary_loops[0].is_outer);
    assert_eq!(t.faces[0].boundary_loops[0].orientation, TopologyOrientation::Forward);
    assert_eq!(t.faces[0].boundary_loops[0].edges, vec![TopologyEdgeUse { edge: 0, orientation: TopologyOrientation::Reversed }]);
    assert_eq!(t.shells[0].role, TopologyShellRole::Outer);
    assert!(!t.shells[0].is_closed);
    assert_eq!(t.shells[0].faces, vec![TopologyFaceUse { face: 0, orientation: TopologyOrientation::Forward }]);
}

#[test]
fn snapshot_refuses_a_failed_query() {
    let mut raw = single_face();
    raw.success = false;
    assert_eq!(snapshot(raw), Err(Error::TopologyQueryFailed));
}

#[test]
fn snapshot_refuses_an_incident_that_disagrees_with_its_edge_use() {
    let mut raw = single_face();
    raw.edges[0].incidents[0].orientation = 0;
    assert_eq!(snapshot(raw), Err(Error::TopologyQueryFailed));
}

#[test]
fn snapshot_refuses_an_incident_outside_its_face() {
    let mut raw = single_face();
    raw.edges[0].incidents[0].edge_use = 1;
    assert_eq!(snapshot(raw), Err(Error::TopologyQueryFailed));
    let mut raw = single_face();
    raw.edges[0].incidents[0].boundary_loop = 3;
    assert_eq!(snapshot(raw), Err(Error::TopologyQueryFailed));
}

#[test]
fn snapshot_refuses_bad_indices_and_codes() {
    let mut raw = single_face();
    raw.edges[0].start_vertex = 1;
    assert_eq!(snapshot(raw), Err(Error::TopologyQueryFailed));
    let mut raw = single_face();
    raw.faces[0].boundary_loops[0].edges[0].edge = 2;
    assert_eq!(snapshot(raw), Err(Error::TopologyQueryFailed));
    let mut raw = single_face();
    raw.faces[0].boundary_loops[0].orientation = 4;
    assert_eq!(snapshot(raw), Err(Error::TopologyQueryFailed));
    let mut raw = single_face();
    raw.shells[0].role = 3;
    assert_eq!(snapshot(raw), Err(Error::TopologyQueryFailed));
    let mut raw = single_face();
    raw.shells[0].faces[0].face = 1;
    assert_eq!(snapshot(raw), Err(Error::TopologyQueryFailed));
}

#[test]
fn decoders_map_every_code() {
    assert_eq!(orientation(0), Ok(TopologyOrientation::Forward));
    assert_eq!(orientation(1), Ok(TopologyOrientation::Reversed));
    assert_eq!(orientation(2), Ok(TopologyOrientation::Internal));
    assert_eq!(orientation(3), Ok(TopologyOrientation::External));
    assert_eq!(orientation(4), Err(Error::TopologyQueryFailed));
    assert_eq!(shell_role(0), Ok(TopologyShellRole::Independent));
    assert_eq!(shell_role(1), Ok(TopologyShellRole::Outer));
    assert_eq!(shell_role(2), Ok(TopologyShellRole::Cavity));
    assert_eq!(shell_role(255), Err(Error::TopologyQueryFailed));
}

#[test]
fn indices_are_checked_against_their_bound() {
    assert_eq!(required_index(2, 3), Ok(2));
    assert_eq!(required_index(3, 3), Err(Error::TopologyQueryFailed));
    assert_eq!(optional_index(MISSING_INDEX, 0), Ok(None));
    assert_eq!(optional_index(0, 1), Ok(Some(0)));
    assert_eq!(optional_index(1, 1), Err(Error::TopologyQueryFailed));
}

#[test]
fn incident_count_classifies_edges() {
    let incident = TopologyEdgeIncident { face: 0, boundary_loop: 0, edge_use: 0, orientation: TopologyOrientation::Forward };
    let edge = |n: usize| TopologyEdge { runtime_id: 1, start_vertex: None, end_vertex: None, incidents: vec![incident; n] };
    assert!(edge(1).is_boundary());
    assert!(!edge(1).is_non_manifold());
    assert!(!edge(2).is_boundary());
    assert!(!edge(2).is_non_manifold());
    assert!(edge(3).is_non_manifold());
    assert!(!edge(0).is_boundary());
}

#[test]
fn vertices_compare_as_floating_point_values() {
    let at = |x: f64| Vertex { runtime_id: 1, x_bits: x.to_bits(), y_bits: 0, z_bits: 0, tolerance_bits: 1e-7f64.to_bits() };
    assert_eq!(at(0.0), at(-0.0));
    assert_ne!(at(f64::NAN), at(f64::NAN));
    assert_ne!(at(1.0), at(2.0));
    assert_eq!(at(1.5), at(1.5));
    assert_ne!(Vertex { runtime_id: 2, ..at(1.5) }, at(1.5));
}
