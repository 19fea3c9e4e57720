//! Ordered, index-addressed topology snapshots and the validation that turns the
//! kernel's raw index tables into them.
use vstd::prelude::*;

use crate::error::Error;
use vstd::std_specs::cmp::PartialEqSpecImpl;

verus! {

/// Marker that the kernel uses for "no vertex".
pub const MISSING_INDEX: u32 = 0xffff_ffffu32;

/// Orientation of one topological occurrence inside its immediate owner.
#[derive(Debug, Clone, Copy, PartialEq, Eq, Hash, Structural)]
pub enum TopologyOrientation {
    Forward,
    Reversed,
    Internal,
    External,
}

/// Immutable value snapshot of one exact BRep vertex.
///
/// The position and tolerance are kept as the IEEE-754 bit patterns of the
/// `f64` values (`f64::to_bits`); `runtime_id` identifies the kernel shape only
/// while the model stays alive.
#[derive(Debug, Clone, Copy)]
pub struct Vertex {
    pub runtime_id: u64,
    pub x_bits: u64,
    pub y_bits: u64,
    pub z_bits: u64,
    pub tolerance_bits: u64,
}

/// The `f64` with bit pattern `b` is a NaN (all exponent bits set, some
/// fraction bit set).
pub open spec fn f64_bits_nan(b: u64) -> bool {
    (b & 0x7ff0_0000_0000_0000u64) == 0x7ff0_0000_0000_0000u64 && (b & 0x000f_ffff_ffff_ffffu64) != 0
}

/// The `f64` values with bit patterns `a` and `b` compare equal: neither is
/// a NaN, and they are the same value (`0.0` and `-0.0` are equal).
pub open spec fn f64_bits_eq(a: u64, b: u64) -> bool {
    &&& !f64_bits_nan(a)
    &&& !f64_bits_nan(b)
    &&& (a == b || ((a & 0x7fff_ffff_ffff_ffffu64) == 0 && (b & 0x7fff_ffff_ffff_ffffu64) == 0))
}

/// Floating-point equality of two `f64` values given by their bit patterns.
pub fn f64_bits_equal(a: u64, b: u64) -> (r: bool)
    ensures
        r == f64_bits_eq(a, b),
{
    let nan_a = (a & 0x7ff0_0000_0000_0000u64) == 0x7ff0_0000_0000_0000u64 && (a & 0x000f_ffff_ffff_ffffu64) != 0;
    let nan_b = (b & 0x7ff0_0000_0000_0000u64) == 0x7ff0_0000_0000_0000u64 && (b & 0x000f_ffff_ffff_ffffu64) != 0;
    !nan_a && !nan_b && (a == b || ((a & 0x7fff_ffff_ffff_ffffu64) == 0 && (b & 0x7fff_ffff_ffff_ffffu64) == 0))
}

/// Two vertices are equal when their ids are, and their coordinates and
/// tolerances compare equal as `f64` values.
pub open spec fn vertex_eq(a: Vertex, b: Vertex) -> bool {
    &&& a.runtime_id == b.runtime_id
    &&& f64_bits_eq(a.x_bits, b.x_bits)
    &&& f64_bits_eq(a.y_bits, b.y_bits)
    &&& f64_bits_eq(a.z_bits, b.z_bits)
    &&& f64_bits_eq(a.tolerance_bits, b.tolerance_bits)
}

impl PartialEq for Vertex {
    fn eq(&self, other: &Self) -> (r: bool) {
        self.runtime_id == other.runtime_id && f64_bits_equal(self.x_bits, other.x_bits) && f64_bits_equal(
            self.y_bits,
            other.y_bits,
        ) && f64_bits_equal(self.z_bits, other.z_bits) && f64_bits_equal(
            self.tolerance_bits,
            other.tolerance_bits,
        )
    }
}

impl PartialEqSpecImpl for Vertex {
    open spec fn obeys_eq_spec() -> bool {
        true
    }

    open spec fn eq_spec(&self, other: &Self) -> bool {
        vertex_eq(*self, *other)
    }
}

/// One use of an edge by an ordered face boundary loop.
#[derive(Debug, Clone, Copy, PartialEq, Eq, Structural)]
pub struct TopologyEdgeUse {
    pub edge: usize,
    pub orientation: TopologyOrientation,
}

/// One edge occurrence viewed from the incident face side.
#[derive(Debug, Clone, Copy, PartialEq, Eq, Structural)]
pub struct TopologyEdgeIncident {
    pub face: usize,
    pub boundary_loop: usize,
    pub edge_use: usize,
    pub orientation: TopologyOrientation,
}

/// One unique exact BRep edge and every face-side occurrence that uses it.
#[derive(Debug, Clone, PartialEq)]
pub struct TopologyEdge {
    pub runtime_id: u64,
    pub start_vertex: Option<usize>,
    pub end_vertex: Option<usize>,
    pub incidents: Vec<TopologyEdgeIncident>,
}

impl TopologyEdge {
    /// An edge with more than two face-side uses is non-manifold.
    ///
    /// A seam normally has two uses by the same face and is therefore manifold.
    pub fn is_non_manifold(&self) -> (r: bool)
        ensures
            r == (self.incidents@.len() > 2),
    {
        self.incidents.len() > 2
    }

    /// A single face-side use denotes an exposed boundary edge.
    pub fn is_boundary(&self) -> (r: bool)
        ensures
            r == (self.incidents@.len() == 1),
    {
        self.incidents.len() == 1
    }
}

/// An edge is never both an exposed boundary and non-manifold.
pub proof fn lemma_boundary_excludes_non_manifold(edge: TopologyEdge)
    ensures
        !(edge.incidents@.len() == 1 && edge.incidents@.len() > 2),
{
}

/// One ordered wire on a face.
#[derive(Debug, Clone, PartialEq)]
pub struct TopologyLoop {
    pub is_outer: bool,
    pub orientation: TopologyOrientation,
    pub edges: Vec<TopologyEdgeUse>,
}

/// One unique exact BRep face with its outer and inner wires in native order.
#[derive(Debug, Clone, PartialEq)]
pub struct TopologyFace {
    pub runtime_id: u64,
    pub boundary_loops: Vec<TopologyLoop>,
}

/// One face occurrence inside a shell.
#[derive(Debug, Clone, Copy, PartialEq, Eq, Structural)]
pub struct TopologyFaceUse {
    pub face: usize,
    pub orientation: TopologyOrientation,
}

/// Role of a shell in the queried body.
#[derive(Debug, Clone, Copy, PartialEq, Eq, Hash, Structural)]
pub enum TopologyShellRole {
    Independent,
    Outer,
    Cavity,
}

/// One shell occurrence inside a body.
#[derive(Debug, Clone, PartialEq)]
pub struct TopologyShell {
    pub runtime_id: u64,
    pub role: TopologyShellRole,
    pub orientation: TopologyOrientation,
    pub is_closed: bool,
    pub faces: Vec<TopologyFaceUse>,
}

/// Ordered, index-addressed topology snapshot of one exact Solid or Shell.
///
/// Indices are valid only inside this snapshot.
#[derive(Debug, Clone, PartialEq)]
pub struct ShapeTopology {
    pub vertices: Vec<Vertex>,
    pub edges: Vec<TopologyEdge>,
    pub faces: Vec<TopologyFace>,
    pub shells: Vec<TopologyShell>,
}

// ==================== Raw kernel tables ====================

/// Raw incident record: 32-bit indices and a one-byte orientation code.
#[derive(Debug, Clone, Copy, PartialEq, Eq, Structural)]
pub struct RawEdgeIncident {
    pub face: u32,
    pub boundary_loop: u32,
    pub edge_use: u32,
    pub orientation: u8,
}

/// Raw edge record; `MISSING_INDEX` marks an absent vertex.
#[derive(Debug, Clone, PartialEq)]
pub struct RawEdge {
    pub runtime_id: u64,
    pub start_vertex: u32,
    pub end_vertex: u32,
    pub incidents: Vec<RawEdgeIncident>,
}

/// Raw edge use inside a loop.
#[derive(Debug, Clone, Copy, PartialEq, Eq, Structural)]
pub struct RawEdgeUse {
    pub edge: u32,
    pub orientation: u8,
}

/// Raw boundary loop.
#[derive(Debug, Clone, PartialEq)]
pub struct RawLoop {
    pub is_outer: bool,
    pub orientation: u8,
    pub edges: Vec<RawEdgeUse>,
}

/// Raw face record.
#[derive(Debug, Clone, PartialEq)]
pub struct RawFace {
    pub runtime_id: u64,
    pub boundary_loops: Vec<RawLoop>,
}

/// Raw face use inside a shell.
#[derive(Debug, Clone, Copy, PartialEq, Eq, Structural)]
pub struct RawFaceUse {
    pub face: u32,
    pub orientation: u8,
}

/// Raw shell record; `role` is 0 (independent), 1 (outer) or 2 (cavity).
#[derive(Debug, Clone, PartialEq)]
pub struct RawShell {
    pub runtime_id: u64,
    pub role: u8,
    pub orientation: u8,
    pub is_closed: bool,
    pub faces: Vec<RawFaceUse>,
}

/// The index tables that the kernel reports for one shape.
#[derive(Debug, Clone, PartialEq)]
pub struct RawTopology {
    pub success: bool,
    pub vertices: Vec<Vertex>,
    pub edges: Vec<RawEdge>,
    pub faces: Vec<RawFace>,
    pub shells: Vec<RawShell>,
}

// ==================== Specification ====================

/// The orientation that a raw code denotes, if any.
pub open spec fn orientation_code(value: u8) -> Option<TopologyOrientation> {
    if value == 0 {
        Some(TopologyOrientation::Forward)
    } else if value == 1 {
        Some(TopologyOrientation::Reversed)
    } else if value == 2 {
        Some(TopologyOrientation::Internal)
    } else if value == 3 {
        Some(TopologyOrientation::External)
    } else {
        None
    }
}

/// The shell role that a raw code denotes, if any.
pub open spec fn shell_role_code(value: u8) -> Option<TopologyShellRole> {
    if value == 0 {
        Some(TopologyShellRole::Independent)
    } else if value == 1 {
        Some(TopologyShellRole::Outer)
    } else if value == 2 {
        Some(TopologyShellRole::Cavity)
    } else {
        None
    }
}

/// `Some(None)` for the missing marker, `Some(Some(i))` for an in-range index,
/// `None` for an out-of-range index.
pub open spec fn optional_index_code(index: u32, upper_bound: nat) -> Option<Option<usize>> {
    if index == MISSING_INDEX {
        Some(None)
    } else if index < upper_bound {
        Some(Some(index as usize))
    } else {
        None
    }
}

pub open spec fn raw_incident_valid(r: RawEdgeIncident, face_count: nat) -> bool {
    &&& r.face < face_count
    &&& orientation_code(r.orientation) is Some
}

pub open spec fn incident_converted(i: TopologyEdgeIncident, r: RawEdgeIncident) -> bool {
    &&& i.face == r.face
    &&& i.boundary_loop == r.boundary_loop
    &&& i.edge_use == r.edge_use
    &&& orientation_code(r.orientation) == Some(i.orientation)
}

pub open spec fn raw_edge_valid(r: RawEdge, vertex_count: nat, face_count: nat) -> bool {
    &&& optional_index_code(r.start_vertex, vertex_count) is Some
    &&& optional_index_code(r.end_vertex, vertex_count) is Some
    &&& forall|j: int|
        0 <= j < r.incidents@.len() ==> #[trigger] raw_incident_valid(r.incidents@[j], face_count)
}

pub open spec fn edge_converted(e: TopologyEdge, r: RawEdge, vertex_count: nat) -> bool {
    &&& e.runtime_id == r.runtime_id
    &&& optional_index_code(r.start_vertex, vertex_count) == Some(e.start_vertex)
    &&& optional_index_code(r.end_vertex, vertex_count) == Some(e.end_vertex)
    &&& e.incidents@.len() == r.incidents@.len()
    &&& forall|j: int|
        0 <= j < r.incidents@.len() ==> #[trigger] incident_converted(
            e.incidents@[j],
            r.incidents@[j],
        )
}

pub open spec fn raw_edge_use_valid(r: RawEdgeUse, edge_count: nat) -> bool {
    &&& r.edge < edge_count
    &&& orientation_code(r.orientation) is Some
}

pub open spec fn edge_use_converted(u: TopologyEdgeUse, r: RawEdgeUse) -> bool {
    &&& u.edge == r.edge
    &&& orientation_code(r.orientation) == Some(u.orientation)
}

pub open spec fn raw_loop_valid(r: RawLoop, edge_count: nat) -> bool {
    &&& orientation_code(r.orientation) is Some
    &&& forall|k: int|
        0 <= k < r.edges@.len() ==> #[trigger] raw_edge_use_valid(r.edges@[k], edge_count)
}

pub open spec fn loop_converted(l: TopologyLoop, r: RawLoop) -> bool {
    &&& l.is_outer == r.is_outer
    &&& orientation_code(r.orientation) == Some(l.orientation)
    &&& l.edges@.len() == r.edges@.len()
    &&& forall|k: int|
        0 <= k < r.edges@.len() ==> #[trigger] edge_use_converted(l.edges@[k], r.edges@[k])
}

pub open spec fn raw_face_valid(r: RawFace, edge_count: nat) -> bool {
    forall|l: int|
        0 <= l < r.boundary_loops@.len() ==> #[trigger] raw_loop_valid(
            r.boundary_loops@[l],
            edge_count,
        )
}

pub open spec fn face_converted(f: TopologyFace, r: RawFace) -> bool {
    &&& f.runtime_id == r.runtime_id
    &&& f.boundary_loops@.len() == r.boundary_loops@.len()
    &&& forall|l: int|
        0 <= l < r.boundary_loops@.len() ==> #[trigger] loop_converted(
            f.boundary_loops@[l],
            r.boundary_loops@[l],
        )
}

pub open spec fn raw_face_use_valid(r: RawFaceUse, face_count: nat) -> bool {
    &&& r.face < face_count
    &&& orientation_code(r.orientation) is Some
}

pub open spec fn face_use_converted(u: TopologyFaceUse, r: RawFaceUse) -> bool {
    &&& u.face == r.face
    &&& orientation_code(r.orientation) == Some(u.orientation)
}

pub open spec fn raw_shell_valid(r: RawShell, face_count: nat) -> bool {
    &&& shell_role_code(r.role) is Some
    &&& orientation_code(r.orientation) is Some
    &&& forall|k: int|
        0 <= k < r.faces@.len() ==> #[trigger] raw_face_use_valid(r.faces@[k], face_count)
}

pub open spec fn shell_converted(s: TopologyShell, r: RawShell) -> bool {
    &&& s.runtime_id == r.runtime_id
    &&& shell_role_code(r.role) == Some(s.role)
    &&& orientation_code(r.orientation) == Some(s.orientation)
    &&& s.is_closed == r.is_closed
    &&& s.faces@.len() == r.faces@.len()
    &&& forall|k: int|
        0 <= k < r.faces@.len() ==> #[trigger] face_use_converted(s.faces@[k], r.faces@[k])
}

/// Incident `j` of edge `i` names a loop and an edge use of its face, and that
/// edge use refers back to edge `i` with the same orientation.
pub open spec fn raw_incident_consistent(data: RawTopology, i: int, j: int) -> bool {
    let inc = data.edges@[i].incidents@[j];
    let face = data.faces@[inc.face as int];
    &&& inc.boundary_loop < face.boundary_loops@.len()
    &&& inc.edge_use < face.boundary_loops@[inc.boundary_loop as int].edges@.len()
    &&& face.boundary_loops@[inc.boundary_loop as int].edges@[inc.edge_use as int].edge == i
    &&& face.boundary_loops@[inc.boundary_loop as int].edges@[inc.edge_use as int].orientation
        == inc.orientation
}

/// Every check that the snapshot performs on the kernel tables.
pub open spec fn topology_valid(data: RawTopology) -> bool {
    let vc = data.vertices@.len();
    let ec = data.edges@.len();
    let fc = data.faces@.len();
    &&& data.success
    &&& forall|i: int| 0 <= i < ec ==> #[trigger] raw_edge_valid(data.edges@[i], vc, fc)
    &&& forall|f: int| 0 <= f < fc ==> #[trigger] raw_face_valid(data.faces@[f], ec)
    &&& forall|i: int, j: int|
        0 <= i < ec && 0 <= j < data.edges@[i].incidents@.len() ==> #[trigger]
            raw_incident_consistent(data, i, j)
    &&& forall|s: int|
        0 <= s < data.shells@.len() ==> #[trigger] raw_shell_valid(data.shells@[s], fc)
}

/// `t` is the element-by-element conversion of the raw tables.
pub open spec fn topology_converted(t: ShapeTopology, data: RawTopology) -> bool {
    let vc = data.vertices@.len();
    &&& t.vertices@ == data.vertices@
    &&& t.edges@.len() == data.edges@.len()
    &&& forall|i: int|
        0 <= i < data.edges@.len() ==> #[trigger] edge_converted(t.edges@[i], data.edges@[i], vc)
    &&& t.faces@.len() == data.faces@.len()
    &&& forall|f: int|
        0 <= f < data.faces@.len() ==> #[trigger] face_converted(t.faces@[f], data.faces@[f])
    &&& t.shells@.len() == data.shells@.len()
    &&& forall|s: int|
        0 <= s < data.shells@.len() ==> #[trigger] shell_converted(t.shells@[s], data.shells@[s])
}

/// Cross-references of a snapshot: every edge incident points at a face loop
/// position whose edge use refers back to that edge with the same orientation.
pub open spec fn snapshot_cross_referenced(t: ShapeTopology) -> bool {
    forall|i: int, j: int|
        0 <= i < t.edges@.len() && 0 <= j < t.edges@[i].incidents@.len() ==> {
            let inc = #[trigger] t.edges@[i].incidents@[j];
            &&& inc.face < t.faces@.len()
            &&& inc.boundary_loop < t.faces@[inc.face as int].boundary_loops@.len()
            &&& inc.edge_use < t.faces@[inc.face as int].boundary_loops@[inc.boundary_loop as int].edges@.len()
            &&& t.faces@[inc.face as int].boundary_loops@[inc.boundary_loop as int].edges@[inc.edge_use as int]
                == (TopologyEdgeUse { edge: i as usize, orientation: inc.orientation })
        }
}

proof fn lemma_orientation_code_injective(a: u8, b: u8)
    requires
        orientation_code(a) is Some,
        orientation_code(a) == orientation_code(b),
    ensures
        a == b,
{
}

// ==================== Decoders ====================

/// Decode a raw orientation code.
pub fn orientation(value: u8) -> (r: Result<TopologyOrientation, Error>)
    ensures
        match r {
            Ok(o) => orientation_code(value) == Some(o),
            Err(e) => orientation_code(value) is None && e == Error::TopologyQueryFailed,
        },
{
    match value {
        0 => Ok(TopologyOrientation::Forward),
        1 => Ok(TopologyOrientation::Reversed),
        2 => Ok(TopologyOrientation::Internal),
        3 => Ok(TopologyOrientation::External),
        _ => Err(Error::TopologyQueryFailed),
    }
}

/// Decode a raw shell role code.
pub fn shell_role(value: u8) -> (r: Result<TopologyShellRole, Error>)
    ensures
        match r {
            Ok(role) => shell_role_code(value) == Some(role),
            Err(e) => shell_role_code(value) is None && e == Error::TopologyQueryFailed,
        },
{
    match value {
        0 => Ok(TopologyShellRole::Independent),
        1 => Ok(TopologyShellRole::Outer),
        2 => Ok(TopologyShellRole::Cavity),
        _ => Err(Error::TopologyQueryFailed),
    }
}

/// An index that must lie below `upper_bound`.
pub fn required_index(index: u32, upper_bound: usize) -> (r: Result<usize, Error>)
    ensures
        match r {
            Ok(i) => index < upper_bound && i == index,
            Err(e) => index >= upper_bound && e == Error::TopologyQueryFailed,
        },
{
    let index = index as usize;
    if index < upper_bound {
        Ok(index)
    } else {
        Err(Error::TopologyQueryFailed)
    }
}

/// An index that is either the missing marker or lies below `upper_bound`.
pub fn optional_index(index: u32, upper_bound: usize) -> (r: Result<Option<usize>, Error>)
    ensures
        match r {
            Ok(o) => optional_index_code(index, upper_bound as nat) == Some(o),
            Err(e) => optional_index_code(index, upper_bound as nat) is None && e
                == Error::TopologyQueryFailed,
        },
{
    if index == MISSING_INDEX {
        Ok(None)
    } else {
        match required_index(index, upper_bound) {
            Ok(i) => Ok(Some(i)),
            Err(e) => Err(e),
        }
    }
}

fn convert_edge(r: &RawEdge, vertex_count: usize, face_count: usize) -> (res: Result<
    TopologyEdge,
    Error,
>)
    ensures
        match res {
            Ok(e) => raw_edge_valid(*r, vertex_count as nat, face_count as nat) && edge_converted(
                e,
                *r,
                vertex_count as nat,
            ),
            Err(e) => !raw_edge_valid(*r, vertex_count as nat, face_count as nat) && e
                == Error::TopologyQueryFailed,
        },
{
    let start_vertex = match optional_index(r.start_vertex, vertex_count) {
        Ok(v) => v,
        Err(e) => return Err(e),
    };
    let end_vertex = match optional_index(r.end_vertex, vertex_count) {
        Ok(v) => v,
        Err(e) => return Err(e),
    };
    let mut incidents: Vec<TopologyEdgeIncident> = Vec::new();
    let n = r.incidents.len();
    for j in 0..n
        invariant
            n == r.incidents@.len(),
            incidents@.len() == j,
            forall|k: int|
                0 <= k < j ==> #[trigger] raw_incident_valid(r.incidents@[k], face_count as nat),
            forall|k: int|
                0 <= k < j ==> #[trigger] incident_converted(incidents@[k], r.incidents@[k]),
    {
        let raw = r.incidents[j];
        let face = match required_index(raw.face, face_count) {
            Ok(f) => f,
            Err(e) => {
                assert(!raw_incident_valid(r.incidents@[j as int], face_count as nat));
                return Err(e);
            },
        };
        let o = match orientation(raw.orientation) {
            Ok(o) => o,
            Err(e) => {
                assert(!raw_incident_valid(r.incidents@[j as int], face_count as nat));
                return Err(e);
            },
        };
        incidents.push(
            TopologyEdgeIncident {
                face,
                boundary_loop: raw.boundary_loop as usize,
                edge_use: raw.edge_use as usize,
                orientation: o,
            },
        );
        assert(incident_converted(incidents@[j as int], r.incidents@[j as int]));
    }
    let e = TopologyEdge { runtime_id: r.runtime_id, start_vertex, end_vertex, incidents };
    assert(edge_converted(e, *r, vertex_count as nat));
    Ok(e)
}

fn convert_loop(r: &RawLoop, edge_count: usize) -> (res: Result<TopologyLoop, Error>)
    ensures
        match res {
            Ok(l) => raw_loop_valid(*r, edge_count as nat) && loop_converted(l, *r),
            Err(e) => !raw_loop_valid(*r, edge_count as nat) && e == Error::TopologyQueryFailed,
        },
{
    let o = match orientation(r.orientation) {
        Ok(o) => o,
        Err(e) => return Err(e),
    };
    let mut edges: Vec<TopologyEdgeUse> = Vec::new();
    let n = r.edges.len();
    for k in 0..n
        invariant
            n == r.edges@.len(),
            edges@.len() == k,
            forall|m: int|
                0 <= m < k ==> #[trigger] raw_edge_use_valid(r.edges@[m], edge_count as nat),
            forall|m: int| 0 <= m < k ==> #[trigger] edge_use_converted(edges@[m], r.edges@[m]),
    {
        let raw = r.edges[k];
        let edge = match required_index(raw.edge, edge_count) {
            Ok(i) => i,
            Err(e) => {
                assert(!raw_edge_use_valid(r.edges@[k as int], edge_count as nat));
                return Err(e);
            },
        };
        let eo = match orientation(raw.orientation) {
            Ok(o) => o,
            Err(e) => {
                assert(!raw_edge_use_valid(r.edges@[k as int], edge_count as nat));
                return Err(e);
            },
        };
        edges.push(TopologyEdgeUse { edge, orientation: eo });
        assert(edge_use_converted(edges@[k as int], r.edges@[k as int]));
    }
    let l = TopologyLoop { is_outer: r.is_outer, orientation: o, edges };
    assert(loop_converted(l, *r));
    Ok(l)
}

fn convert_face(r: &RawFace, edge_count: usize) -> (res: Result<TopologyFace, Error>)
    ensures
        match res {
            Ok(f) => raw_face_valid(*r, edge_count as nat) && face_converted(f, *r),
            Err(e) => !raw_face_valid(*r, edge_count as nat) && e == Error::TopologyQueryFailed,
        },
{
    let mut loops: Vec<TopologyLoop> = Vec::new();
    let n = r.boundary_loops.len();
    for l in 0..n
        invariant
            n == r.boundary_loops@.len(),
            loops@.len() == l,
            forall|m: int|
                0 <= m < l ==> #[trigger] raw_loop_valid(r.boundary_loops@[m], edge_count as nat),
            forall|m: int|
                0 <= m < l ==> #[trigger] loop_converted(loops@[m], r.boundary_loops@[m]),
    {
        match convert_loop(&r.boundary_loops[l], edge_count) {
            Ok(c) => {
                loops.push(c);
                assert(loop_converted(loops@[l as int], r.boundary_loops@[l as int]));
            },
            Err(e) => {
                assert(!raw_loop_valid(r.boundary_loops@[l as int], edge_count as nat));
                return Err(e);
            },
        }
    }
    let f = TopologyFace { runtime_id: r.runtime_id, boundary_loops: loops };
    assert(face_converted(f, *r));
    Ok(f)
}

fn convert_shell(r: &RawShell, face_count: usize) -> (res: Result<TopologyShell, Error>)
    ensures
        match res {
            Ok(s) => raw_shell_valid(*r, face_count as nat) && shell_converted(s, *r),
            Err(e) => !raw_shell_valid(*r, face_count as nat) && e == Error::TopologyQueryFailed,
        },
{
    let role = match shell_role(r.role) {
        Ok(v) => v,
        Err(e) => return Err(e),
    };
    let o = match orientation(r.orientation) {
        Ok(v) => v,
        Err(e) => return Err(e),
    };
    let mut faces: Vec<TopologyFaceUse> = Vec::new();
    let n = r.faces.len();
    for k in 0..n
        invariant
            n == r.faces@.len(),
            faces@.len() == k,
            forall|m: int|
                0 <= m < k ==> #[trigger] raw_face_use_valid(r.faces@[m], face_count as nat),
            forall|m: int| 0 <= m < k ==> #[trigger] face_use_converted(faces@[m], r.faces@[m]),
    {
        let raw = r.faces[k];
        let face = match required_index(raw.face, face_count) {
            Ok(i) => i,
            Err(e) => {
                assert(!raw_face_use_valid(r.faces@[k as int], face_count as nat));
                return Err(e);
            },
        };
        let fo = match orientation(raw.orientation) {
            Ok(v) => v,
            Err(e) => {
                assert(!raw_face_use_valid(r.faces@[k as int], face_count as nat));
                return Err(e);
            },
        };
        faces.push(TopologyFaceUse { face, orientation: fo });
        assert(face_use_converted(faces@[k as int], r.faces@[k as int]));
    }
    let s = TopologyShell {
        runtime_id: r.runtime_id,
        role,
        orientation: o,
        is_closed: r.is_closed,
        faces,
    };
    assert(shell_converted(s, *r));
    Ok(s)
}


proof fn lemma_cross_referenced(t: ShapeTopology, data: RawTopology)
    requires
        topology_valid(data),
        topology_converted(t, data),
    ensures
        snapshot_cross_referenced(t),
{
    let vc = data.vertices@.len();
    let fc = data.faces@.len();
    assert forall|i: int, j: int|
        0 <= i < t.edges@.len() && 0 <= j < t.edges@[i].incidents@.len() implies {
            let inc = #[trigger] t.edges@[i].incidents@[j];
            &&& inc.face < t.faces@.len()
            &&& inc.boundary_loop < t.faces@[inc.face as int].boundary_loops@.len()
            &&& inc.edge_use < t.faces@[inc.face as int].boundary_loops@[inc.boundary_loop as int].edges@.len()
            &&& t.faces@[inc.face as int].boundary_loops@[inc.boundary_loop as int].edges@[inc.edge_use as int]
                == (TopologyEdgeUse { edge: i as usize, orientation: inc.orientation })
        } by {
        let inc = t.edges@[i].incidents@[j];
        assert(edge_converted(t.edges@[i], data.edges@[i], vc));
        assert(raw_edge_valid(data.edges@[i], vc, fc));
        let rinc = data.edges@[i].incidents@[j];
        assert(incident_converted(inc, rinc));
        assert(raw_incident_valid(rinc, fc));
        assert(raw_incident_consistent(data, i, j));
        let f = inc.face as int;
        assert(face_converted(t.faces@[f], data.faces@[f]));
        let l = inc.boundary_loop as int;
        assert(loop_converted(t.faces@[f].boundary_loops@[l], data.faces@[f].boundary_loops@[l]));
        let k = inc.edge_use as int;
        assert(edge_use_converted(
            t.faces@[f].boundary_loops@[l].edges@[k],
            data.faces@[f].boundary_loops@[l].edges@[k],
        ));
    }
}

/// Turn the kernel's raw topology tables into an index-addressed snapshot.
///
/// Every index must be in range (vertices may also be `MISSING_INDEX`), every
/// orientation and role code must be known, and every edge incident must name
/// a loop position of its face whose edge use refers back to the edge with the
/// same orientation. Otherwise the query fails.
pub fn snapshot(data: RawTopology) -> (res: Result<ShapeTopology, Error>)
    ensures
        match res {
            Ok(t) => topology_valid(data) && topology_converted(t, data)
                && snapshot_cross_referenced(t),
            Err(e) => !topology_valid(data) && e == Error::TopologyQueryFailed,
        },
{
    if !data.success {
        return Err(Error::TopologyQueryFailed);
    }
    let vertex_count = data.vertices.len();
    let edge_count = data.edges.len();
    let face_count = data.faces.len();
    let shell_count = data.shells.len();

    let mut edges: Vec<TopologyEdge> = Vec::new();
    for i in 0..edge_count
        invariant
            vertex_count == data.vertices@.len(),
            edge_count == data.edges@.len(),
            face_count == data.faces@.len(),
            edges@.len() == i,
            forall|k: int|
                0 <= k < i ==> #[trigger] raw_edge_valid(
                    data.edges@[k],
                    vertex_count as nat,
                    face_count as nat,
                ),
            forall|k: int|
                0 <= k < i ==> #[trigger] edge_converted(
                    edges@[k],
                    data.edges@[k],
                    vertex_count as nat,
                ),
    {
        match convert_edge(&data.edges[i], vertex_count, face_count) {
            Ok(e) => {
                edges.push(e);
                assert(edge_converted(edges@[i as int], data.edges@[i as int], vertex_count as nat));
            },
            Err(e) => {
                assert(!raw_edge_valid(data.edges@[i as int], vertex_count as nat, face_count as nat));
                return Err(e);
            },
        }
    }

    let mut faces: Vec<TopologyFace> = Vec::new();
    for f in 0..face_count
        invariant
            edge_count == data.edges@.len(),
            face_count == data.faces@.len(),
            faces@.len() == f,
            forall|k: int|
                0 <= k < f ==> #[trigger] raw_face_valid(data.faces@[k], edge_count as nat),
            forall|k: int| 0 <= k < f ==> #[trigger] face_converted(faces@[k], data.faces@[k]),
    {
        match convert_face(&data.faces[f], edge_count) {
            Ok(c) => {
                faces.push(c);
                assert(face_converted(faces@[f as int], data.faces@[f as int]));
            },
            Err(e) => {
                assert(!raw_face_valid(data.faces@[f as int], edge_count as nat));
                return Err(e);
            },
        }
    }

    for i in 0..edge_count
        invariant
            vertex_count == data.vertices@.len(),
            edge_count == data.edges@.len(),
            face_count == data.faces@.len(),
            edges@.len() == edge_count,
            faces@.len() == face_count,
            forall|k: int|
                0 <= k < edge_count ==> #[trigger] raw_edge_valid(
                    data.edges@[k],
                    vertex_count as nat,
                    face_count as nat,
                ),
            forall|k: int|
                0 <= k < edge_count ==> #[trigger] edge_converted(
                    edges@[k],
                    data.edges@[k],
                    vertex_count as nat,
                ),
            forall|k: int|
                0 <= k < face_count ==> #[trigger] face_converted(faces@[k], data.faces@[k]),
            forall|a: int, b: int|
                0 <= a < i && 0 <= b < data.edges@[a].incidents@.len() ==> #[trigger]
                    raw_incident_consistent(data, a, b),
    {
        let edge = &edges[i];
        assert(edge_converted(edges@[i as int], data.edges@[i as int], vertex_count as nat));
        assert(raw_edge_valid(data.edges@[i as int], vertex_count as nat, face_count as nat));
        let m = edge.incidents.len();
        for j in 0..m
            invariant
                vertex_count == data.vertices@.len(),
                edge_count == data.edges@.len(),
                face_count == data.faces@.len(),
                faces@.len() == face_count,
                0 <= i < edge_count,
                *edge == edges@[i as int],
                m == edge.incidents@.len(),
                edge_converted(*edge, data.edges@[i as int], vertex_count as nat),
                raw_edge_valid(data.edges@[i as int], vertex_count as nat, face_count as nat),
                forall|k: int|
                    0 <= k < face_count ==> #[trigger] face_converted(faces@[k], data.faces@[k]),
                forall|b: int| 0 <= b < j ==> #[trigger] raw_incident_consistent(data, i as int, b),
        {
            let inc = edge.incidents[j];
            proof {
                assert(incident_converted(inc, data.edges@[i as int].incidents@[j as int]));
                assert(raw_incident_valid(data.edges@[i as int].incidents@[j as int], face_count as nat));
                assert(face_converted(faces@[inc.face as int], data.faces@[inc.face as int]));
            }
            let face = &faces[inc.face];
            if inc.boundary_loop >= face.boundary_loops.len() {
                assert(!raw_incident_consistent(data, i as int, j as int));
                return Err(Error::TopologyQueryFailed);
            }
            let boundary_loop = &face.boundary_loops[inc.boundary_loop];
            proof {
                assert(loop_converted(
                    face.boundary_loops@[inc.boundary_loop as int],
                    data.faces@[inc.face as int].boundary_loops@[inc.boundary_loop as int],
                ));
            }
            if inc.edge_use >= boundary_loop.edges.len() {
                assert(!raw_incident_consistent(data, i as int, j as int));
                return Err(Error::TopologyQueryFailed);
            }
            let edge_use = boundary_loop.edges[inc.edge_use];
            proof {
                assert(edge_use_converted(
                    edge_use,
                    data.faces@[inc.face as int].boundary_loops@[inc.boundary_loop as int].edges@[inc.edge_use as int],
                ));
            }
            if edge_use.edge != i || edge_use.orientation != inc.orientation {
                assert(!raw_incident_consistent(data, i as int, j as int));
                return Err(Error::TopologyQueryFailed);
            }
            proof {
                let r = data.faces@[inc.face as int].boundary_loops@[inc.boundary_loop as int].edges@[inc.edge_use as int];
                let ri = data.edges@[i as int].incidents@[j as int];
                lemma_orientation_code_injective(r.orientation, ri.orientation);
                assert(raw_incident_consistent(data, i as int, j as int));
            }
        }
    }

    let mut shells: Vec<TopologyShell> = Vec::new();
    for s in 0..shell_count
        invariant
            face_count == data.faces@.len(),
            shell_count == data.shells@.len(),
            shells@.len() == s,
            forall|k: int|
                0 <= k < s ==> #[trigger] raw_shell_valid(data.shells@[k], face_count as nat),
            forall|k: int| 0 <= k < s ==> #[trigger] shell_converted(shells@[k], data.shells@[k]),
    {
        match convert_shell(&data.shells[s], face_count) {
            Ok(c) => {
                shells.push(c);
                assert(shell_converted(shells@[s as int], data.shells@[s as int]));
            },
            Err(e) => {
                assert(!raw_shell_valid(data.shells@[s as int], face_count as nat));
                return Err(e);
            },
        }
    }
    let ghost d = data;
    let t = ShapeTopology { vertices: data.vertices, edges, faces, shells };
    proof {
        assert(topology_valid(d));
        assert(topology_converted(t, d));
        lemma_cross_referenced(t, d);
    }
    Ok(t)
}

/// Kernel orientation code `code` names orientation `o`: 0 forward,
/// 1 reversed, 2 internal, 3 external.
pub open spec fn names_orientation(code: u8, o: TopologyOrientation) -> bool {
    match o {
        TopologyOrientation::Forward => code == 0,
        TopologyOrientation::Reversed => code == 1,
        TopologyOrientation::Internal => code == 2,
        TopologyOrientation::External => code == 3,
    }
}

/// Kernel role code `code` names shell role `r`: 0 independent, 1 outer,
/// 2 cavity.
pub open spec fn names_role(code: u8, r: TopologyShellRole) -> bool {
    match r {
        TopologyShellRole::Independent => code == 0,
        TopologyShellRole::Outer => code == 1,
        TopologyShellRole::Cavity => code == 2,
    }
}

/// A snapshot is the kernel's tables read back position by position: every
/// orientation in it (of shells, face uses, loops, edge uses and incidents)
/// is the one its kernel code names, by one code table for all of them;
/// every shell role the one its code names; ids, flags and indices are the
/// kernel's, and every list keeps its length and order.
pub proof fn lemma_snapshot_decodes(data: RawTopology, t: ShapeTopology)
    requires
        topology_converted(t, data),
    ensures
        t.vertices@ == data.vertices@,
        t.shells@.len() == data.shells@.len(),
        forall|s: int|
            0 <= s < t.shells@.len() ==> {
                let ts = #[trigger] t.shells@[s];
                let rs = data.shells@[s];
                &&& ts.runtime_id == rs.runtime_id
                &&& names_role(rs.role, ts.role)
                &&& names_orientation(rs.orientation, ts.orientation)
                &&& ts.is_closed == rs.is_closed
                &&& ts.faces@.len() == rs.faces@.len()
            },
        forall|s: int, k: int|
            0 <= s < t.shells@.len() && 0 <= k < t.shells@[s].faces@.len() ==> {
                let u = #[trigger] t.shells@[s].faces@[k];
                let ru = data.shells@[s].faces@[k];
                u.face == ru.face && names_orientation(ru.orientation, u.orientation)
            },
        t.faces@.len() == data.faces@.len(),
        forall|f: int|
            0 <= f < t.faces@.len() ==> (#[trigger] t.faces@[f]).runtime_id == data.faces@[f].runtime_id
                && t.faces@[f].boundary_loops@.len() == data.faces@[f].boundary_loops@.len(),
        forall|f: int, l: int|
            0 <= f < t.faces@.len() && 0 <= l < t.faces@[f].boundary_loops@.len() ==> {
                let tl = #[trigger] t.faces@[f].boundary_loops@[l];
                let rl = data.faces@[f].boundary_loops@[l];
                &&& tl.is_outer == rl.is_outer
                &&& names_orientation(rl.orientation, tl.orientation)
                &&& tl.edges@.len() == rl.edges@.len()
            },
        forall|f: int, l: int, k: int|
            0 <= f < t.faces@.len() && 0 <= l < t.faces@[f].boundary_loops@.len() && 0 <= k
                < t.faces@[f].boundary_loops@[l].edges@.len() ==> {
                let u = #[trigger] t.faces@[f].boundary_loops@[l].edges@[k];
                let ru = data.faces@[f].boundary_loops@[l].edges@[k];
                u.edge == ru.edge && names_orientation(ru.orientation, u.orientation)
            },
        t.edges@.len() == data.edges@.len(),
        forall|e: int|
            0 <= e < t.edges@.len() ==> (#[trigger] t.edges@[e]).runtime_id == data.edges@[e].runtime_id
                && t.edges@[e].incidents@.len() == data.edges@[e].incidents@.len(),
        forall|e: int, j: int|
            0 <= e < t.edges@.len() && 0 <= j < t.edges@[e].incidents@.len() ==> {
                let i = #[trigger] t.edges@[e].incidents@[j];
                let ri = data.edges@[e].incidents@[j];
                &&& i.face == ri.face
                &&& i.boundary_loop == ri.boundary_loop
                &&& i.edge_use == ri.edge_use
                &&& names_orientation(ri.orientation, i.orientation)
            },
{
    assert forall|s: int| 0 <= s < t.shells@.len() implies {
        let ts = #[trigger] t.shells@[s];
        let rs = data.shells@[s];
        &&& ts.runtime_id == rs.runtime_id
        &&& names_role(rs.role, ts.role)
        &&& names_orientation(rs.orientation, ts.orientation)
        &&& ts.is_closed == rs.is_closed
        &&& ts.faces@.len() == rs.faces@.len()
    } by {
        assert(shell_converted(t.shells@[s], data.shells@[s]));
    }
    assert forall|s: int, k: int| 0 <= s < t.shells@.len() && 0 <= k < t.shells@[s].faces@.len() implies {
        let u = #[trigger] t.shells@[s].faces@[k];
        let ru = data.shells@[s].faces@[k];
        u.face == ru.face && names_orientation(ru.orientation, u.orientation)
    } by {
        assert(shell_converted(t.shells@[s], data.shells@[s]));
        assert(face_use_converted(t.shells@[s].faces@[k], data.shells@[s].faces@[k]));
    }
    assert forall|f: int| 0 <= f < t.faces@.len() implies (#[trigger] t.faces@[f]).runtime_id
        == data.faces@[f].runtime_id && t.faces@[f].boundary_loops@.len() == data.faces@[f].boundary_loops@.len() by {
        assert(face_converted(t.faces@[f], data.faces@[f]));
    }
    assert forall|f: int, l: int| 0 <= f < t.faces@.len() && 0 <= l < t.faces@[f].boundary_loops@.len() implies {
        let tl = #[trigger] t.faces@[f].boundary_loops@[l];
        let rl = data.faces@[f].boundary_loops@[l];
        &&& tl.is_outer == rl.is_outer
        &&& names_orientation(rl.orientation, tl.orientation)
        &&& tl.edges@.len() == rl.edges@.len()
    } by {
        assert(face_converted(t.faces@[f], data.faces@[f]));
        assert(loop_converted(t.faces@[f].boundary_loops@[l], data.faces@[f].boundary_loops@[l]));
    }
    assert forall|f: int, l: int, k: int|
        0 <= f < t.faces@.len() && 0 <= l < t.faces@[f].boundary_loops@.len() && 0 <= k
            < t.faces@[f].boundary_loops@[l].edges@.len() implies {
        let u = #[trigger] t.faces@[f].boundary_loops@[l].edges@[k];
        let ru = data.faces@[f].boundary_loops@[l].edges@[k];
        u.edge == ru.edge && names_orientation(ru.orientation, u.orientation)
    } by {
        assert(face_converted(t.faces@[f], data.faces@[f]));
        assert(loop_converted(t.faces@[f].boundary_loops@[l], data.faces@[f].boundary_loops@[l]));
        assert(edge_use_converted(
            t.faces@[f].boundary_loops@[l].edges@[k],
            data.faces@[f].boundary_loops@[l].edges@[k],
        ));
    }
    assert forall|e: int| 0 <= e < t.edges@.len() implies (#[trigger] t.edges@[e]).runtime_id
        == data.edges@[e].runtime_id && t.edges@[e].incidents@.len() == data.edges@[e].incidents@.len() by {
        assert(edge_converted(t.edges@[e], data.edges@[e], data.vertices@.len()));
    }
    assert forall|e: int, j: int| 0 <= e < t.edges@.len() && 0 <= j < t.edges@[e].incidents@.len() implies {
        let i = #[trigger] t.edges@[e].incidents@[j];
        let ri = data.edges@[e].incidents@[j];
        &&& i.face == ri.face
        &&& i.boundary_loop == ri.boundary_loop
        &&& i.edge_use == ri.edge_use
        &&& names_orientation(ri.orientation, i.orientation)
    } by {
        assert(edge_converted(t.edges@[e], data.edges@[e], data.vertices@.len()));
        assert(incident_converted(t.edges@[e].incidents@[j], data.edges@[e].incidents@[j]));
    }
}

} // verus!
