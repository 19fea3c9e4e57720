//! Decimal text and the messages of the library's errors.
use vstd::prelude::*;

use crate::error::{Error, SolidificationFailure};

verus! {

/// The ASCII digit for `d < 10`.
pub open spec fn digit_char(d: nat) -> char {
    if d == 0 {
        '0'
    } else if d == 1 {
        '1'
    } else if d == 2 {
        '2'
    } else if d == 3 {
        '3'
    } else if d == 4 {
        '4'
    } else if d == 5 {
        '5'
    } else if d == 6 {
        '6'
    } else if d == 7 {
        '7'
    } else if d == 8 {
        '8'
    } else {
        '9'
    }
}

/// The decimal representation of `n`, without sign or leading zeros.
pub open spec fn decimal(n: nat) -> Seq<char>
    decreases n,
{
    if n < 10 {
        seq![digit_char(n)]
    } else {
        decimal(n / 10).push(digit_char(n % 10))
    }
}

fn digit_str(d: u64) -> (r: &'static str)
    requires
        d < 10,
    ensures
        r@ == seq![digit_char(d as nat)],
{
    match d {
        0 => {
            proof {
                reveal_strlit("0");
            }
            "0"
        },
        1 => {
            proof {
                reveal_strlit("1");
            }
            "1"
        },
        2 => {
            proof {
                reveal_strlit("2");
            }
            "2"
        },
        3 => {
            proof {
                reveal_strlit("3");
            }
            "3"
        },
        4 => {
            proof {
                reveal_strlit("4");
            }
            "4"
        },
        5 => {
            proof {
                reveal_strlit("5");
            }
            "5"
        },
        6 => {
            proof {
                reveal_strlit("6");
            }
            "6"
        },
        7 => {
            proof {
                reveal_strlit("7");
            }
            "7"
        },
        8 => {
            proof {
                reveal_strlit("8");
            }
            "8"
        },
        _ => {
            proof {
                reveal_strlit("9");
            }
            "9"
        },
    }
}

/// Append the decimal representation of `n`.
pub fn push_decimal(s: &mut String, n: u64)
    ensures
        final(s)@ == old(s)@ + decimal(n as nat),
    decreases n,
{
    if n >= 10 {
        push_decimal(s, n / 10);
    }
    s.append(digit_str(n % 10));
    assert(final(s)@ =~= old(s)@ + decimal(n as nat));
}

/// The decimal representation of `n`.
pub fn decimal_string(n: u64) -> (r: String)
    ensures
        r@ == decimal(n as nat),
{
    let mut s = String::new();
    push_decimal(&mut s, n);
    assert(s@ =~= decimal(n as nat));
    s
}

/// The number that a string of ASCII decimal digits reads as.
pub open spec fn digits_value(s: Seq<char>) -> int
    decreases s.len(),
{
    if s.len() == 0 {
        0
    } else {
        digits_value(s.drop_last()) * 10 + ((s.last() as u32) as int - 48)
    }
}

proof fn lemma_digit_char_code(d: nat)
    requires
        d < 10,
    ensures
        (digit_char(d) as u32) as int == 48 + d,
{
}

/// The decimal text of a number is made of ASCII digits, starts with `0`
/// only for zero itself, and reads back as the number.
pub proof fn lemma_decimal_reads_back(n: nat)
    ensures
        decimal(n).len() >= 1,
        forall|i: int| 0 <= i < decimal(n).len() ==> '0' <= #[trigger] decimal(n)[i] <= '9',
        n > 0 ==> decimal(n)[0] != '0',
        digits_value(decimal(n)) == n,
    decreases n,
{
    lemma_digit_char_code(n % 10);
    if n >= 10 {
        lemma_decimal_reads_back(n / 10);
        let d = decimal(n);
        assert(d.drop_last() =~= decimal(n / 10));
        assert(forall|i: int| 0 <= i < decimal(n / 10).len() ==> d[i] == decimal(n / 10)[i]);
        assert(d[0] == decimal(n / 10)[0]);
        assert(d.last() == digit_char(n % 10));
        assert(digits_value(d) == digits_value(decimal(n / 10)) * 10 + (n % 10) as int);
        assert(n == (n / 10) * 10 + n % 10);
        assert(digits_value(d) == n);
    } else {
        assert(decimal(n).drop_last() =~= Seq::<char>::empty());
        assert(decimal(n).last() == digit_char(n));
        assert(digits_value(Seq::<char>::empty()) == 0);
        assert(digits_value(decimal(n)) == n);
    }
}

/// The name of a solidification failure.
pub open spec fn solidification_text(f: SolidificationFailure) -> Seq<char> {
    match f {
        SolidificationFailure::InvalidShell => "invalid shell"@,
        SolidificationFailure::OpenShell { boundary_edge_count } => "open shell with "@ + decimal(
            boundary_edge_count as nat,
        ) + " boundary edges"@,
        SolidificationFailure::NonManifoldShell { edge_count } => "non-manifold shell with "@
            + decimal(edge_count as nat) + " shared edges"@,
        SolidificationFailure::BuildFailed => "solid build failed"@,
        SolidificationFailure::OrientationFailed => "orientation failed"@,
        SolidificationFailure::InvalidSolid => "invalid solid"@,
        SolidificationFailure::NonPositiveVolume => "non-positive volume"@,
        SolidificationFailure::KernelFailure => "kernel failure"@,
    }
}

/// The human-readable message of an error.
pub open spec fn error_text(e: Error) -> Seq<char> {
    match e {
        Error::StepReadFailed => "STEP read failed"@,
        Error::BrepReadFailed => "BRep read failed"@,
        Error::StepWriteFailed => "STEP write failed"@,
        Error::BrepWriteFailed => "BRep write failed"@,
        Error::TriangulationFailed => "Triangulation failed"@,
        Error::BooleanOperationFailed => "Boolean operation failed"@,
        Error::OneFailed(n) => "Expected exactly one resulting Solid, got "@ + decimal(n as nat),
        Error::CleanFailed => "Shape clean failed"@,
        Error::HelixFailed => "Helix failed"@,
        Error::ExtrudeFailed => "Extrude failed"@,
        Error::SweepFailed => "Sweep failed"@,
        Error::ShellFailed => "Shell failed"@,
        Error::FilletFailed => "Fillet failed"@,
        Error::ChamferFailed => "Chamfer failed"@,
        Error::LoftFailed(msg) => "Loft failed: "@ + msg@,
        Error::BsplineFailed(msg) => "Bspline failed: "@ + msg@,
        Error::InvalidEdge(msg) => "Invalid edge: "@ + msg@,
        Error::SvgExportFailed => "SVG export failed"@,
        Error::PngExportFailed => "PNG export failed"@,
        Error::StlWriteFailed => "STL write failed"@,
        Error::GltfWriteFailed => "glTF write failed"@,
        Error::InvalidColor(s) => "Invalid color: \""@ + s@ + "\""@,
        Error::TopologyQueryFailed => "Topology query failed"@,
        Error::SewFailed(msg) => "Sew failed: "@ + msg@,
        Error::SolidificationFailed(f) => "Solidification failed: "@ + solidification_text(f),
        Error::TrimmedFaceFailed(msg) => "Trimmed face failed: "@ + msg@,
        Error::Unknown(msg) => "Unknown error: "@ + msg@,
    }
}

fn push_solidification_text(s: &mut String, f: SolidificationFailure)
    ensures
        final(s)@ == old(s)@ + solidification_text(f),
{
    match f {
        SolidificationFailure::InvalidShell => s.append("invalid shell"),
        SolidificationFailure::OpenShell { boundary_edge_count } => {
            s.append("open shell with ");
            push_decimal(s, boundary_edge_count as u64);
            s.append(" boundary edges");
        },
        SolidificationFailure::NonManifoldShell { edge_count } => {
            s.append("non-manifold shell with ");
            push_decimal(s, edge_count as u64);
            s.append(" shared edges");
        },
        SolidificationFailure::BuildFailed => s.append("solid build failed"),
        SolidificationFailure::OrientationFailed => s.append("orientation failed"),
        SolidificationFailure::InvalidSolid => s.append("invalid solid"),
        SolidificationFailure::NonPositiveVolume => s.append("non-positive volume"),
        SolidificationFailure::KernelFailure => s.append("kernel failure"),
    }
    assert(final(s)@ =~= old(s)@ + solidification_text(f));
}

impl Error {
    /// The human-readable message of this error.
    pub fn message(&self) -> (r: String)
        ensures
            r@ == error_text(*self),
    {
        let mut s = String::new();
        match self {
            Error::StepReadFailed => s.append("STEP read failed"),
            Error::BrepReadFailed => s.append("BRep read failed"),
            Error::StepWriteFailed => s.append("STEP write failed"),
            Error::BrepWriteFailed => s.append("BRep write failed"),
            Error::TriangulationFailed => s.append("Triangulation failed"),
            Error::BooleanOperationFailed => s.append("Boolean operation failed"),
            Error::OneFailed(n) => {
                s.append("Expected exactly one resulting Solid, got ");
                push_decimal(&mut s, *n as u64);
            },
            Error::CleanFailed => s.append("Shape clean failed"),
            Error::HelixFailed => s.append("Helix failed"),
            Error::ExtrudeFailed => s.append("Extrude failed"),
            Error::SweepFailed => s.append("Sweep failed"),
            Error::ShellFailed => s.append("Shell failed"),
            Error::FilletFailed => s.append("Fillet failed"),
            Error::ChamferFailed => s.append("Chamfer failed"),
            Error::LoftFailed(msg) => {
                s.append("Loft failed: ");
                s.append(msg.as_str());
            },
            Error::BsplineFailed(msg) => {
                s.append("Bspline failed: ");
                s.append(msg.as_str());
            },
            Error::InvalidEdge(msg) => {
                s.append("Invalid edge: ");
                s.append(msg.as_str());
            },
            Error::SvgExportFailed => s.append("SVG export failed"),
            Error::PngExportFailed => s.append("PNG export failed"),
            Error::StlWriteFailed => s.append("STL write failed"),
            Error::GltfWriteFailed => s.append("glTF write failed"),
            Error::InvalidColor(c) => {
                s.append("Invalid color: \"");
                s.append(c.as_str());
                s.append("\"");
            },
            Error::TopologyQueryFailed => s.append("Topology query failed"),
            Error::SewFailed(msg) => {
                s.append("Sew failed: ");
                s.append(msg.as_str());
            },
            Error::SolidificationFailed(f) => {
                s.append("Solidification failed: ");
                push_solidification_text(&mut s, *f);
            },
            Error::TrimmedFaceFailed(msg) => {
                s.append("Trimmed face failed: ");
                s.append(msg.as_str());
            },
            Error::Unknown(msg) => {
                s.append("Unknown error: ");
                s.append(msg.as_str());
            },
        }
        assert(s@ =~= error_text(*self));
        s
    }
}

} // verus!
