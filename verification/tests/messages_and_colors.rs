use cadrum::color::{parse_color_str, Rgb8};
use cadrum::repair::{
    failure, repair_error_message, repair_outcome, sew_error, solidification_outcome, topology_history, RepairFailure,
    RepairOperation, TopologyHistory,
};
use cadrum::text::decimal_string;
use cadrum::{Error, SolidificationFailure};

#[test]
fn decimal_text() {
    assert_eq!(decimal_string(0), "0");
    assert_eq!(decimal_string(7), "7");
    assert_eq!(decimal_string(10), "10");
    assert_eq!(decimal_string(1234567890), "1234567890");
    assert_eq!(decimal_string(u64::MAX), "18446744073709551615");
}

#[test]
fn error_messages() {
    assert_eq!(Error::StepReadFailed.message(), "STEP read failed");
    assert_eq!(Error::BooleanOperationFailed.message(), "Boolean operation failed");
    assert_eq!(Error::OneFailed(3).message(), "Expected exactly one resulting Solid, got 3");
    assert_eq!(Error::OneFailed(0).message(), "Expected exactly one resulting Solid, got 0");
    assert_eq!(Error::CleanFailed.message(), "Shape clean failed");
    assert_eq!(Error::LoftFailed("x".to_string()).message(), "Loft failed: x");
    assert_eq!(Error::BsplineFailed("grid".to_string()).message(), "Bspline failed: grid");
    assert_eq!(Error::InvalidEdge("arc".to_string()).message(), "Invalid edge: arc");
    assert_eq!(Error::GltfWriteFailed.message(), "glTF write failed");
    assert_eq!(Error::InvalidColor("nope".to_string()).message(), "Invalid color: \"nope\"");
    assert_eq!(Error::Unknown("?".to_string()).message(), "Unknown error: ?");
    assert_eq!(
        Error::SolidificationFailed(SolidificationFailure::OpenShell { boundary_edge_count: 4 }).message(),
        "Solidification failed: open shell with 4 boundary edges"
    );
}

#[test]
fn repair_status_codes() {
    assert_eq!(failure(1), RepairFailure::InvalidTolerance);
    assert_eq!(failure(2), RepairFailure::EmptyInput);
    assert_eq!(failure(3), RepairFailure::KernelFailure);
    assert_eq!(failure(4), RepairFailure::NoOutput);
    assert_eq!(failure(5), RepairFailure::MultipleComponents);
    assert_eq!(failure(6), RepairFailure::InvalidTopology);
    assert_eq!(failure(7), RepairFailure::ToleranceExceeded);
    assert_eq!(failure(8), RepairFailure::NonManifoldTopology);
    assert_eq!(failure(99), RepairFailure::KernelFailure);
}

#[test]
fn repair_outcomes() {
    assert_eq!(repair_outcome(0, true), None);
    assert_eq!(repair_outcome(0, false), Some(RepairFailure::NoOutput));
    assert_eq!(repair_outcome(5, true), Some(RepairFailure::MultipleComponents));
    assert_eq!(repair_outcome(2, false), Some(RepairFailure::EmptyInput));
}

#[test]
fn repair_messages() {
    assert_eq!(repair_error_message(RepairOperation::Heal, RepairFailure::NoOutput), "healing failed: OCCT produced no shell");
    assert_eq!(
        sew_error(RepairFailure::NonManifoldTopology),
        Error::SewFailed("sewing failed: result contains an edge shared by more than two faces".to_string())
    );
    assert_eq!(
        sew_error(RepairFailure::InvalidTolerance),
        Error::SewFailed("sewing failed: tolerance must be finite, positive, and no greater than the maximum tolerance".to_string())
    );
}

#[test]
fn history_pairs_ignore_a_trailing_entry() {
    assert_eq!(
        topology_history(&[0, 3, 1, 1, 9]),
        vec![TopologyHistory { input_index: 0, output_index: 3 }, TopologyHistory { input_index: 1, output_index: 1 }]
    );
    assert!(topology_history(&[4]).is_empty());
}

#[test]
fn solidification_outcomes() {
    assert_eq!(solidification_outcome(0, 0, true), Ok(()));
    assert_eq!(solidification_outcome(0, 0, false), Err(Error::SolidificationFailed(SolidificationFailure::KernelFailure)));
    assert_eq!(
        solidification_outcome(2, 6, true),
        Err(Error::SolidificationFailed(SolidificationFailure::OpenShell { boundary_edge_count: 6 }))
    );
    assert_eq!(
        solidification_outcome(3, 1, false),
        Err(Error::SolidificationFailed(SolidificationFailure::NonManifoldShell { edge_count: 1 }))
    );
    assert_eq!(solidification_outcome(7, 0, false), Err(Error::SolidificationFailed(SolidificationFailure::NonPositiveVolume)));
}

#[test]
fn named_colors_ignore_case() {
    assert_eq!(parse_color_str("red"), Ok(Rgb8 { r: 255, g: 0, b: 0 }));
    assert_eq!(parse_color_str("RED"), Ok(Rgb8 { r: 255, g: 0, b: 0 }));
    assert_eq!(parse_color_str("SkyBlue"), Ok(Rgb8 { r: 135, g: 206, b: 235 }));
    assert_eq!(parse_color_str("grey"), parse_color_str("gray"));
    assert_eq!(parse_color_str("aqua"), Ok(Rgb8 { r: 0, g: 255, b: 255 }));
    assert_eq!(parse_color_str("orange"), Ok(Rgb8 { r: 255, g: 165, b: 0 }));
}

#[test]
fn hex_colors_long_and_short() {
    assert_eq!(parse_color_str("#ff8800"), Ok(Rgb8 { r: 255, g: 136, b: 0 }));
    assert_eq!(parse_color_str("#f80"), Ok(Rgb8 { r: 255, g: 136, b: 0 }));
    assert_eq!(parse_color_str("#FfFfFf"), Ok(Rgb8 { r: 255, g: 255, b: 255 }));
    assert_eq!(parse_color_str("#000"), Ok(Rgb8 { r: 0, g: 0, b: 0 }));
}

#[test]
fn invalid_colors_are_refused_with_the_input() {
    assert_eq!(parse_color_str("chartreuse"), Err(Error::InvalidColor("chartreuse".to_string())));
    assert_eq!(parse_color_str("#12345"), Err(Error::InvalidColor("#12345".to_string())));
    assert_eq!(parse_color_str("#ggg"), Err(Error::InvalidColor("#ggg".to_string())));
    assert_eq!(parse_color_str("#"), Err(Error::InvalidColor("#".to_string())));
    assert_eq!(parse_color_str(""), Err(Error::InvalidColor("".to_string())));
    assert_eq!(parse_color_str("ff0000"), Err(Error::InvalidColor("ff0000".to_string())));
}
