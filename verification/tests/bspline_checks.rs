use cadrum::construct::{
    bspline_kernel_failure, check_bspline_grid, check_loft_sections, check_spline_points, end_kind, loft_kernel_failure, polygon_failure,
    BSplineEndKind,
};
use cadrum::trim::{
    check_bspline_curve, check_extracted_face, check_trimmed_face, trimmed_face_kernel_failure, validate_axis, validate_curve,
    validate_surface, validate_trimmed_face, CurveLayout, KnotAxis, SurfaceLayout, TrimOrientation, TrimUseLayout, TrimmedFaceLayout,
    WeightSummary,
};
use cadrum::Error;

/// A clamped cubic axis over `control_count` control points with two knots.
fn clamped(control_count: usize) -> KnotAxis {
    let end = 4u32;
    let inner = control_count as u32 + 4 - 2 * end;
    let mut multiplicities = vec![end];
    let mut knot_count = 2;
    if inner > 0 {
        multiplicities.extend(std::iter::repeat(1).take(inner as usize));
        knot_count += inner as usize;
    }
    multiplicities.push(end);
    KnotAxis { degree: 3, knot_count, knots_increasing: true, multiplicities, periodic: false }
}

fn linear_curve() -> CurveLayout {
    CurveLayout {
        control_count: 2,
        points_finite: true,
        weights: None,
        axis: KnotAxis { degree: 1, knot_count: 2, knots_increasing: true, multiplicities: vec![2, 2], periodic: false },
        range_increasing: true,
    }
}

fn surface() -> SurfaceLayout {
    SurfaceLayout { u_count: 4, v_count: 4, control_count: 16, points_finite: true, weights: None, u: clamped(4), v: clamped(4) }
}

fn edge_use(edge: usize, orientation: TrimOrientation) -> TrimUseLayout {
    TrimUseLayout { edge, orientation, pcurve: linear_curve(), range_matches: true }
}

/// A face bounded by four edges, one loop.
fn square_face() -> TrimmedFaceLayout {
    TrimmedFaceLayout {
        surface: surface(),
        edges: vec![linear_curve(), linear_curve(), linear_curve(), linear_curve()],
        loops: vec![(0..4).map(|e| edge_use(e, TrimOrientation::Forward)).collect()],
        tolerance_positive: true,
    }
}

fn reason(r: Result<(), String>) -> String {
    r.expect_err("the validation must fail")
}

// ==================== Axes ====================

#[test]
fn a_clamped_axis_is_valid() {
    assert_eq!(validate_axis("u", 4, &clamped(4)), Ok(()));
    assert_eq!(validate_axis("u", 7, &clamped(7)), Ok(()));
}

#[test]
fn axis_degree_must_be_below_the_control_count() {
    let mut a = clamped(4);
    a.degree = 0;
    assert_eq!(reason(validate_axis("u", 4, &a)), "u degree must be in 1..4");
    assert_eq!(reason(validate_axis("v", 3, &clamped(4))), "v degree must be in 1..3");
}

#[test]
fn axis_knots_and_multiplicities_must_pair_up() {
    let mut a = clamped(4);
    a.knot_count = 3;
    assert_eq!(reason(validate_axis("u", 4, &a)), "u knots and multiplicities must have the same length of at least 2");
    let a = KnotAxis { degree: 1, knot_count: 1, knots_increasing: true, multiplicities: vec![2], periodic: true };
    assert_eq!(reason(validate_axis("u", 2, &a)), "u knots and multiplicities must have the same length of at least 2");
}

#[test]
fn axis_knots_must_increase() {
    let mut a = clamped(4);
    a.knots_increasing = false;
    assert_eq!(reason(validate_axis("u", 4, &a)), "u knots must be finite and strictly increasing");
}

#[test]
fn axis_multiplicities_are_bounded_by_the_order() {
    let mut a = clamped(4);
    a.multiplicities[0] = 5;
    assert_eq!(reason(validate_axis("u", 4, &a)), "u multiplicities must be in 1..=4");
    let mut a = clamped(4);
    a.multiplicities[1] = 0;
    assert_eq!(reason(validate_axis("u", 4, &a)), "u multiplicities must be in 1..=4");
}

#[test]
fn non_periodic_multiplicities_sum_to_count_plus_order() {
    let mut a = clamped(5);
    a.multiplicities = vec![4, 4];
    a.knot_count = 2;
    assert_eq!(reason(validate_axis("u", 5, &a)), "u multiplicities must sum to 9, got 8");
    a.periodic = true;
    assert_eq!(validate_axis("u", 5, &a), Ok(()));
}

// ==================== Curves and surfaces ====================

#[test]
fn curve_checks_come_in_order() {
    assert_eq!(validate_curve("3D curve", &linear_curve()), Ok(()));
    let mut c = linear_curve();
    c.control_count = 1;
    assert_eq!(reason(validate_curve("3D curve", &c)), "3D curve must contain at least two control points");
    let mut c = linear_curve();
    c.points_finite = false;
    assert_eq!(reason(validate_curve("2D curve", &c)), "2D curve control points must be finite");
    let mut c = linear_curve();
    c.weights = Some(WeightSummary { count: 3, finite_positive: true });
    assert_eq!(reason(validate_curve("3D curve", &c)), "3D curve weight count must be 2, got 3");
    c.weights = Some(WeightSummary { count: 2, finite_positive: false });
    assert_eq!(reason(validate_curve("3D curve", &c)), "3D curve weights must be finite and positive");
    c.weights = Some(WeightSummary { count: 2, finite_positive: true });
    assert_eq!(validate_curve("3D curve", &c), Ok(()));
    let mut c = linear_curve();
    c.axis.degree = 2;
    assert_eq!(reason(validate_curve("3D curve", &c)), "3D curve degree must be in 1..2");
    let mut c = linear_curve();
    c.range_increasing = false;
    assert_eq!(reason(validate_curve("3D curve", &c)), "3D curve parameter range must be finite and increasing");
}

#[test]
fn surface_checks_come_in_order() {
    assert_eq!(validate_surface(&surface()), Ok(()));
    let mut s = surface();
    s.u_count = usize::MAX;
    assert_eq!(reason(validate_surface(&s)), "control grid dimensions overflow");
    let mut s = surface();
    s.v_count = 1;
    assert_eq!(reason(validate_surface(&s)), "control grid dimensions must both be at least 2");
    let mut s = surface();
    s.control_count = 15;
    assert_eq!(reason(validate_surface(&s)), "control point count must be 16, got 15");
    let mut s = surface();
    s.points_finite = false;
    assert_eq!(reason(validate_surface(&s)), "control points must be finite");
    let mut s = surface();
    s.weights = Some(WeightSummary { count: 4, finite_positive: true });
    assert_eq!(reason(validate_surface(&s)), "weight count must be 16, got 4");
    s.weights = Some(WeightSummary { count: 16, finite_positive: false });
    assert_eq!(reason(validate_surface(&s)), "weights must be finite and positive");
    let mut s = surface();
    s.v.knots_increasing = false;
    assert_eq!(reason(validate_surface(&s)), "v knots must be finite and strictly increasing");
    s.u.degree = 9;
    assert_eq!(reason(validate_surface(&s)), "u degree must be in 1..4");
}

// ==================== Trimmed faces ====================

#[test]
fn a_square_face_is_valid() {
    assert_eq!(validate_trimmed_face(&square_face()), Ok(()));
    assert_eq!(check_trimmed_face(&square_face()), Ok(()));
}

#[test]
fn face_head_checks() {
    let mut f = square_face();
    f.tolerance_positive = false;
    assert_eq!(reason(validate_trimmed_face(&f)), "trim tolerance must be finite and positive");
    let mut f = square_face();
    f.edges.clear();
    assert_eq!(reason(validate_trimmed_face(&f)), "trim topology must contain at least one 3D edge");
    let mut f = square_face();
    f.loops.clear();
    assert_eq!(reason(validate_trimmed_face(&f)), "trim topology must contain an outer loop");
    let mut f = square_face();
    f.surface.control_count = 3;
    assert_eq!(reason(validate_trimmed_face(&f)), "control point count must be 16, got 3");
    let mut f = square_face();
    f.edges[2].control_count = 0;
    assert_eq!(reason(validate_trimmed_face(&f)), "edge 2: 3D curve must contain at least two control points");
}

#[test]
fn face_loop_checks_name_the_use() {
    let mut f = square_face();
    f.loops.push(Vec::new());
    assert_eq!(reason(validate_trimmed_face(&f)), "trim loop 1 is empty");
    let mut f = square_face();
    f.loops[0][3].edge = 4;
    assert_eq!(reason(validate_trimmed_face(&f)), "trim loop 0 edge use 3 references missing edge 4");
    let mut f = square_face();
    f.loops[0][1].pcurve.points_finite = false;
    assert_eq!(reason(validate_trimmed_face(&f)), "trim loop 0 edge use 1: 2D curve control points must be finite");
    let mut f = square_face();
    f.loops[0][2].range_matches = false;
    assert_eq!(reason(validate_trimmed_face(&f)), "trim loop 0 edge use 2 does not share the 3D edge parameter range");
}

#[test]
fn every_edge_is_used_once_or_as_a_seam() {
    let mut f = square_face();
    f.loops[0].pop();
    assert_eq!(reason(validate_trimmed_face(&f)), "3D edge 3 is not used by a trim loop");

    let mut f = square_face();
    f.loops[0][3] = edge_use(1, TrimOrientation::Reversed);
    f.edges.pop();
    assert_eq!(validate_trimmed_face(&f), Ok(()));

    let mut f = square_face();
    f.loops[0][3] = edge_use(1, TrimOrientation::Forward);
    f.edges.pop();
    assert_eq!(reason(validate_trimmed_face(&f)), "seam edge 1 must occur once in each orientation");

    let mut f = square_face();
    f.loops.push(vec![edge_use(0, TrimOrientation::Reversed), edge_use(0, TrimOrientation::Forward)]);
    assert_eq!(reason(validate_trimmed_face(&f)), "3D edge 0 occurs more than twice");
}

#[test]
fn face_errors_become_trimmed_face_failures() {
    let mut f = square_face();
    f.tolerance_positive = false;
    assert_eq!(check_trimmed_face(&f), Err(Error::TrimmedFaceFailed("trim tolerance must be finite and positive".to_string())));
    assert_eq!(
        check_extracted_face(false, &square_face()),
        Err(Error::TrimmedFaceFailed("OCCT could not expose complete trimmed B-spline topology".to_string()))
    );
    assert_eq!(check_extracted_face(true, &square_face()), Ok(()));
    assert_eq!(trimmed_face_kernel_failure(5), Error::TrimmedFaceFailed("invalid periodic seam occurrences".to_string()));
    assert_eq!(trimmed_face_kernel_failure(8), Error::TrimmedFaceFailed("constructed face topology is invalid".to_string()));
    assert_eq!(trimmed_face_kernel_failure(0), Error::TrimmedFaceFailed("OCCT kernel failure".to_string()));
    assert_eq!(trimmed_face_kernel_failure(42), Error::TrimmedFaceFailed("OCCT kernel failure".to_string()));
}

#[test]
fn curve_errors_become_bspline_failures() {
    assert_eq!(check_bspline_curve(&linear_curve()), Ok(()));
    let mut c = linear_curve();
    c.range_increasing = false;
    assert_eq!(
        check_bspline_curve(&c),
        Err(Error::BsplineFailed("3D curve parameter range must be finite and increasing".to_string()))
    );
}

// ==================== Loft and grid ====================

#[test]
fn loft_needs_non_empty_sections() {
    assert_eq!(check_loft_sections(&[4, 4]), Ok(()));
    assert_eq!(
        check_loft_sections(&[4, 0, 0]),
        Err(Error::LoftFailed("loft: section 1 is empty (each section must contain ≥1 edge)".to_string()))
    );
    assert_eq!(
        check_loft_sections(&[3]),
        Err(Error::LoftFailed("loft: need ≥2 sections, got 1 (a single section has no thickness to skin across)".to_string()))
    );
    assert_eq!(
        check_loft_sections(&[]),
        Err(Error::LoftFailed("loft: need ≥2 sections, got 0 (a single section has no thickness to skin across)".to_string()))
    );
    assert_eq!(
        loft_kernel_failure(3),
        Error::LoftFailed(
            "loft: OCCT BRepOffsetAPI_ThruSections failed (sections=3). Check that each section forms a valid closed wire and sections are not coplanar."
                .to_string()
        )
    );
}

#[test]
fn bspline_grid_is_at_least_two_by_three() {
    assert_eq!(check_bspline_grid(2, 3), Ok(()));
    assert_eq!(check_bspline_grid(1, 5), Err(Error::BsplineFailed("grid must be at least 2x3 (M=1, N=5)".to_string())));
    assert_eq!(check_bspline_grid(4, 2), Err(Error::BsplineFailed("grid must be at least 2x3 (M=4, N=2)".to_string())));
    assert_eq!(
        bspline_kernel_failure(3, 4, true),
        Error::BsplineFailed("OCCT construction failed (M=3, N=4, periodic=true)".to_string())
    );
    assert_eq!(
        bspline_kernel_failure(2, 3, false),
        Error::BsplineFailed("OCCT construction failed (M=2, N=3, periodic=false)".to_string())
    );
}

// ==================== Interpolated edges ====================

#[test]
fn spline_edges_need_enough_points() {
    assert_eq!(
        check_spline_points(BSplineEndKind::Periodic, "Periodic", 2, false, ""),
        Err(Error::InvalidEdge("bspline: need ≥3 points for Periodic, got 2".to_string()))
    );
    assert_eq!(
        check_spline_points(BSplineEndKind::NotAKnot, "NotAKnot", 1, false, ""),
        Err(Error::InvalidEdge("bspline: need ≥2 points for NotAKnot, got 1".to_string()))
    );
    assert_eq!(check_spline_points(BSplineEndKind::NotAKnot, "NotAKnot", 2, false, ""), Ok(()));
    assert_eq!(check_spline_points(BSplineEndKind::Periodic, "Periodic", 3, false, ""), Ok(()));
}

#[test]
fn periodic_splines_must_not_repeat_the_closing_point() {
    assert_eq!(
        check_spline_points(BSplineEndKind::Periodic, "Periodic", 4, true, "DVec3(0.0, 0.0, 0.0)"),
        Err(Error::InvalidEdge(
            "bspline(Periodic): first and last points coincide (DVec3(0.0, 0.0, 0.0)); periodicity is encoded in the basis, do not duplicate the closing point"
                .to_string()
        ))
    );
    assert_eq!(check_spline_points(BSplineEndKind::Clamped, "Clamped", 2, true, "p"), Ok(()));
}

#[test]
fn end_kinds_and_polygon_failures() {
    assert_eq!(end_kind(BSplineEndKind::Periodic), 0);
    assert_eq!(end_kind(BSplineEndKind::NotAKnot), 1);
    assert_eq!(end_kind(BSplineEndKind::Clamped), 2);
    assert_eq!(
        polygon_failure(2),
        Error::InvalidEdge("polygon: construction failed (point count = 2, need ≥ 3 non-degenerate)".to_string())
    );
}
