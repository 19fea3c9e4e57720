use vstd::prelude::*;

verus! {

/// Why a shell could not be promoted to a solid.
#[derive(Debug, Clone, Copy, PartialEq, Eq, Structural)]
pub enum SolidificationFailure {
    InvalidShell,
    OpenShell { boundary_edge_count: usize },
    NonManifoldShell { edge_count: usize },
    BuildFailed,
    OrientationFailed,
    InvalidSolid,
    NonPositiveVolume,
    KernelFailure,
}

/// Errors that can occur during CAD operations.
#[derive(Debug, Clone, PartialEq)]
pub enum Error {
    /// STEP file read failed (invalid format or corrupted data).
    StepReadFailed,
    /// BRep file read failed (invalid format or corrupted data).
    BrepReadFailed,
    /// STEP file write failed.
    StepWriteFailed,
    /// BRep file write failed.
    BrepWriteFailed,
    /// Triangulation/meshing failed.
    TriangulationFailed,
    /// Boolean operation (fuse/cut/common) failed.
    BooleanOperationFailed,
    /// An operation that expects exactly one resulting solid produced a
    /// different number of solids; the payload is the actual count.
    OneFailed(usize),
    /// Shape cleaning (UnifySameDomain) failed.
    CleanFailed,
    /// Helix edge construction failed.
    HelixFailed,
    /// Extrusion failed.
    ExtrudeFailed,
    /// Pipe sweep failed.
    SweepFailed,
    /// Shell / hollow failed.
    ShellFailed,
    /// Fillet failed.
    FilletFailed,
    /// Chamfer failed.
    ChamferFailed,
    /// Lofting failed; the string identifies which precondition or stage failed.
    LoftFailed(String),
    /// B-spline construction failed; the string identifies the stage.
    BsplineFailed(String),
    /// Edge construction failed due to degenerate input.
    InvalidEdge(String),
    /// SVG export failed.
    SvgExportFailed,
    /// PNG export failed.
    PngExportFailed,
    /// STL write failed.
    StlWriteFailed,
    /// glTF (GLB binary) write failed.
    GltfWriteFailed,
    /// Invalid color string (unrecognized name or invalid hex format).
    InvalidColor(String),
    /// The kernel returned an inconsistent topology snapshot.
    TopologyQueryFailed,
    /// Sewing faces into a shell failed; the string is the repair message.
    SewFailed(String),
    /// A shell could not be promoted to a solid.
    SolidificationFailed(SolidificationFailure),
    /// Trimmed B-spline face exchange failed; the string gives the reason.
    TrimmedFaceFailed(String),
    /// Unknown error.
    Unknown(String),
}

} // verus!
