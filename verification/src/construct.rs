//! Input checks and failure reports of the solid constructors that skin
//! sections (loft) or interpolate a point grid (B-spline solid).
use vstd::prelude::*;

use crate::error::Error;
use crate::text::{decimal, push_decimal};

verus! {

/// The index of the first empty section at or after `i`, if any.
pub open spec fn first_empty_section(counts: Seq<usize>, i: int) -> Option<int>
    decreases counts.len() - i,
{
    if i < 0 || i >= counts.len() {
        None
    } else if counts[i] == 0 {
        Some(i)
    } else {
        first_empty_section(counts, i + 1)
    }
}

/// Why a loft over sections with these edge counts is refused before the
/// kernel is asked: an empty section (the first one), or fewer than two.
pub open spec fn loft_input_failure(counts: Seq<usize>) -> Option<Seq<char>> {
    match first_empty_section(counts, 0) {
        Some(i) => Some(
            "loft: section "@ + decimal(i as nat) + " is empty (each section must contain ≥1 edge)"@,
        ),
        None => if counts.len() < 2 {
            Some(
                "loft: need ≥2 sections, got "@ + decimal(counts.len())
                    + " (a single section has no thickness to skin across)"@,
            )
        } else {
            None
        },
    }
}

/// Check the sections of a loft, given the number of edges in each; a
/// failure is `LoftFailed` with the reason.
pub fn check_loft_sections(section_edge_counts: &[usize]) -> (r: Result<(), Error>)
    requires
        forall|i: int|
            0 <= i < section_edge_counts@.len() ==> #[trigger] section_edge_counts@[i] <= u32::MAX,
    ensures
        loft_input_failure(section_edge_counts@) is None <==> r is Ok,
        loft_input_failure(section_edge_counts@) is Some ==> (r matches Err(Error::LoftFailed(m))
            && m@ == loft_input_failure(section_edge_counts@)->0),
{
    let n = section_edge_counts.len();
    for i in 0..n
        invariant
            n == section_edge_counts@.len(),
            first_empty_section(section_edge_counts@, 0) == first_empty_section(
                section_edge_counts@,
                i as int,
            ),
    {
        if section_edge_counts[i] == 0 {
            let mut s = String::new();
            s.append("loft: section ");
            push_decimal(&mut s, i as u64);
            s.append(" is empty (each section must contain ≥1 edge)");
            assert(s@ =~= "loft: section "@ + decimal(i as nat)
                + " is empty (each section must contain ≥1 edge)"@);
            return Err(Error::LoftFailed(s));
        }
    }
    if n < 2 {
        let mut s = String::new();
        s.append("loft: need ≥2 sections, got ");
        push_decimal(&mut s, n as u64);
        s.append(" (a single section has no thickness to skin across)");
        assert(s@ =~= "loft: need ≥2 sections, got "@ + decimal(n as nat)
            + " (a single section has no thickness to skin across)"@);
        return Err(Error::LoftFailed(s));
    }
    Ok(())
}

proof fn lemma_first_empty_section_from(counts: Seq<usize>, i: int)
    requires
        0 <= i <= counts.len(),
    ensures
        match first_empty_section(counts, i) {
            None => forall|j: int| i <= j < counts.len() ==> #[trigger] counts[j] != 0,
            Some(k) => i <= k < counts.len() && counts[k] == 0 && forall|j: int|
                i <= j < k ==> #[trigger] counts[j] != 0,
        },
    decreases counts.len() - i,
{
    if i < counts.len() && counts[i] != 0 {
        lemma_first_empty_section_from(counts, i + 1);
    }
}

/// Which sections a loft accepts: at least two, each with an edge. When one
/// is empty, the index that the refusal names is that of the first empty
/// section.
pub proof fn lemma_loft_sections_accepted(counts: Seq<usize>)
    ensures
        loft_input_failure(counts) is None <==> (counts.len() >= 2 && forall|j: int|
            0 <= j < counts.len() ==> #[trigger] counts[j] > 0),
        first_empty_section(counts, 0) matches Some(k) ==> (0 <= k < counts.len() && counts[k] == 0
            && forall|j: int| 0 <= j < k ==> #[trigger] counts[j] > 0),
{
    lemma_first_empty_section_from(counts, 0);
}

/// The report of a loft over `section_count` sections that the kernel could
/// not skin.
pub open spec fn loft_kernel_text(section_count: nat) -> Seq<char> {
    "loft: OCCT BRepOffsetAPI_ThruSections failed (sections="@ + decimal(section_count)
        + "). Check that each section forms a valid closed wire and sections are not coplanar."@
}

/// The error for a loft that the kernel could not skin.
pub fn loft_kernel_failure(section_count: usize) -> (r: Error)
    ensures
        r matches Error::LoftFailed(m) && m@ == loft_kernel_text(section_count as nat),
{
    let mut s = String::new();
    s.append("loft: OCCT BRepOffsetAPI_ThruSections failed (sections=");
    push_decimal(&mut s, section_count as u64);
    s.append(
        "). Check that each section forms a valid closed wire and sections are not coplanar.",
    );
    assert(s@ =~= loft_kernel_text(section_count as nat));
    Error::LoftFailed(s)
}

/// The text of a boolean flag as it is printed.
pub open spec fn bool_text(b: bool) -> Seq<char> {
    if b {
        "true"@
    } else {
        "false"@
    }
}

/// Check the dimensions of an `m` by `n` point grid for a B-spline solid:
/// at least 2 rows and 3 columns.
pub fn check_bspline_grid(m: usize, n: usize) -> (r: Result<(), Error>)
    ensures
        r is Ok <==> (m >= 2 && n >= 3),
        !(m >= 2 && n >= 3) ==> (r matches Err(Error::BsplineFailed(t)) && t@
            == "grid must be at least 2x3 (M="@ + decimal(m as nat) + ", N="@ + decimal(n as nat)
            + ")"@),
{
    if m < 2 || n < 3 {
        let mut s = String::new();
        s.append("grid must be at least 2x3 (M=");
        push_decimal(&mut s, m as u64);
        s.append(", N=");
        push_decimal(&mut s, n as u64);
        s.append(")");
        assert(s@ =~= "grid must be at least 2x3 (M="@ + decimal(m as nat) + ", N="@ + decimal(
            n as nat,
        ) + ")"@);
        return Err(Error::BsplineFailed(s));
    }
    Ok(())
}

/// The error for a B-spline solid that the kernel could not build.
pub fn bspline_kernel_failure(m: usize, n: usize, periodic: bool) -> (r: Error)
    ensures
        r matches Error::BsplineFailed(t) && t@ == "OCCT construction failed (M="@ + decimal(
            m as nat,
        ) + ", N="@ + decimal(n as nat) + ", periodic="@ + bool_text(periodic) + ")"@,
{
    let mut s = String::new();
    s.append("OCCT construction failed (M=");
    push_decimal(&mut s, m as u64);
    s.append(", N=");
    push_decimal(&mut s, n as u64);
    s.append(", periodic=");
    if periodic {
        s.append("true");
    } else {
        s.append("false");
    }
    s.append(")");
    assert(s@ =~= "OCCT construction failed (M="@ + decimal(m as nat) + ", N="@ + decimal(n as nat)
        + ", periodic="@ + bool_text(periodic) + ")"@);
    Error::BsplineFailed(s)
}

/// How an interpolating B-spline edge ends.
#[derive(Debug, Clone, Copy, PartialEq, Eq, Structural)]
pub enum BSplineEndKind {
    /// Closed, with periodicity built into the basis.
    Periodic,
    /// Open, with not-a-knot end conditions.
    NotAKnot,
    /// Open, with prescribed end tangents.
    Clamped,
}

/// The fewest points that an interpolating B-spline edge with these ends needs.
pub open spec fn min_spline_points(k: BSplineEndKind) -> nat {
    match k {
        BSplineEndKind::Periodic => 3,
        _ => 2,
    }
}

/// The kernel's code for an end kind.
pub open spec fn end_kind_code(k: BSplineEndKind) -> u32 {
    match k {
        BSplineEndKind::Periodic => 0,
        BSplineEndKind::NotAKnot => 1,
        BSplineEndKind::Clamped => 2,
    }
}

/// The kernel's code for an end kind.
pub fn end_kind(k: BSplineEndKind) -> (r: u32)
    ensures
        r == end_kind_code(k),
{
    match k {
        BSplineEndKind::Periodic => 0,
        BSplineEndKind::NotAKnot => 1,
        BSplineEndKind::Clamped => 2,
    }
}

/// Why an interpolating B-spline edge through `count` points is refused
/// before the kernel is asked. `end_text` is how the ends are printed,
/// `closing_repeats` says whether the last point repeats the first, and
/// `first_text` is how the first point is printed.
pub open spec fn spline_points_failure(
    kind: BSplineEndKind,
    end_text: Seq<char>,
    count: nat,
    closing_repeats: bool,
    first_text: Seq<char>,
) -> Option<Seq<char>> {
    if count < min_spline_points(kind) {
        Some(
            "bspline: need ≥"@ + decimal(min_spline_points(kind)) + " points for "@ + end_text + ", got "@
                + decimal(count),
        )
    } else if kind == BSplineEndKind::Periodic && closing_repeats {
        Some(
            "bspline(Periodic): first and last points coincide ("@ + first_text
                + "); periodicity is encoded in the basis, do not duplicate the closing point"@,
        )
    } else {
        None
    }
}

/// Check the points of an interpolating B-spline edge; a refusal is
/// `InvalidEdge` with the reason.
pub fn check_spline_points(
    kind: BSplineEndKind,
    end_text: &str,
    count: usize,
    closing_repeats: bool,
    first_text: &str,
) -> (r: Result<(), Error>)
    ensures
        spline_points_failure(kind, end_text@, count as nat, closing_repeats, first_text@) is None
            <==> r is Ok,
        r is Ok <==> (count >= 2 && (kind == BSplineEndKind::Periodic ==> (count >= 3 && !closing_repeats))),
        spline_points_failure(kind, end_text@, count as nat, closing_repeats, first_text@) is Some ==> (r matches Err(Error::InvalidEdge(m)) && m@
            == spline_points_failure(kind, end_text@, count as nat, closing_repeats, first_text@)->0),
{
    let min_required: usize = match kind {
        BSplineEndKind::Periodic => 3,
        BSplineEndKind::NotAKnot => 2,
        BSplineEndKind::Clamped => 2,
    };
    if count < min_required {
        let mut s = String::new();
        s.append("bspline: need ≥");
        push_decimal(&mut s, min_required as u64);
        s.append(" points for ");
        s.append(end_text);
        s.append(", got ");
        push_decimal(&mut s, count as u64);
        assert(s@ =~= "bspline: need ≥"@ + decimal(min_spline_points(kind)) + " points for "@ + end_text@
            + ", got "@ + decimal(count as nat));
        return Err(Error::InvalidEdge(s));
    }
    let periodic = match kind {
        BSplineEndKind::Periodic => true,
        _ => false,
    };
    if periodic && closing_repeats {
        let mut s = String::new();
        s.append("bspline(Periodic): first and last points coincide (");
        s.append(first_text);
        s.append("); periodicity is encoded in the basis, do not duplicate the closing point");
        assert(s@ =~= "bspline(Periodic): first and last points coincide ("@ + first_text@
            + "); periodicity is encoded in the basis, do not duplicate the closing point"@);
        return Err(Error::InvalidEdge(s));
    }
    Ok(())
}

/// The error for a polygon that the kernel could not build from
/// `point_count` points.
pub fn polygon_failure(point_count: usize) -> (r: Error)
    ensures
        r matches Error::InvalidEdge(m) && m@ == "polygon: construction failed (point count = "@
            + decimal(point_count as nat) + ", need ≥ 3 non-degenerate)"@,
{
    let mut s = String::new();
    s.append("polygon: construction failed (point count = ");
    push_decimal(&mut s, point_count as u64);
    s.append(", need ≥ 3 non-degenerate)");
    assert(s@ =~= "polygon: construction failed (point count = "@ + decimal(point_count as nat)
        + ", need ≥ 3 non-degenerate)"@);
    Error::InvalidEdge(s)
}

/// Which point lists an interpolating B-spline edge accepts: open ends
/// (not-a-knot or clamped) need two points and accept any list of two or
/// more, a repeated closing point included; periodic ends need three points
/// and refuse a list whose last point repeats the first.
pub proof fn lemma_spline_points_accepted(
    kind: BSplineEndKind,
    end_text: Seq<char>,
    count: nat,
    closing_repeats: bool,
    first_text: Seq<char>,
)
    ensures
        kind != BSplineEndKind::Periodic ==> (spline_points_failure(kind, end_text, count, closing_repeats, first_text) is None
            <==> count >= 2),
        kind == BSplineEndKind::Periodic ==> (spline_points_failure(kind, end_text, count, closing_repeats, first_text) is None
            <==> (count >= 3 && !closing_repeats)),
        count < 2 ==> spline_points_failure(kind, end_text, count, closing_repeats, first_text) is Some,
{
}

} // verus!
