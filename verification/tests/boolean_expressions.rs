use cadrum::boolean::{Boolean, BooleanKernel};
use cadrum::Error;

#[derive(Debug, Clone, PartialEq)]
struct Piece(u32);

/// A kernel that answers with every solid of the expression, in order.
impl BooleanKernel for Piece {
    fn evaluates_to(expression: Boolean<Self>, r: Result<Vec<Self>, Error>) -> bool {
        r == Ok(expression.solids().to_vec())
    }

    fn boolean_build(expression: &Boolean<Self>) -> Result<Vec<Self>, Error> {
        Ok(expression.solids().to_vec())
    }
}

fn solid(n: u32) -> Boolean<Piece> {
    Boolean::from_solid(Piece(n))
}

#[test]
fn single_solid_is_one_positive_clause() {
    let a = solid(7);
    assert_eq!(a.clauses(), &[1, 0]);
    assert_eq!(a.solids(), &[Piece(7)]);
}

#[test]
fn union_appends_shifted_clauses() {
    let u = solid(1).union(solid(2));
    assert_eq!(u.clauses(), &[1, 0, 2, 0]);
    assert_eq!(u.solids(), &[Piece(1), Piece(2)]);
}

#[test]
fn intersect_conjoins_clauses() {
    let i = solid(1).intersect(solid(2));
    assert_eq!(i.clauses(), &[1, 2, 0]);
    assert_eq!(i.solids(), &[Piece(1), Piece(2)]);
}

#[test]
fn subtract_negates_the_tool() {
    let d = solid(1).subtract(solid(2));
    assert_eq!(d.clauses(), &[1, -2, 0]);
    assert_eq!(d.solids(), &[Piece(1), Piece(2)]);
}

#[test]
fn subtract_from_a_union_distributes() {
    let d = solid(1).union(solid(2)).subtract(solid(3));
    assert_eq!(d.clauses(), &[1, -3, 0, 2, -3, 0]);
    assert_eq!(d.solids().len(), 3);
}

#[test]
fn subtract_a_union_takes_every_negation() {
    let d = solid(1).subtract(solid(2).union(solid(3)));
    assert_eq!(d.clauses(), &[1, -2, -3, 0]);
}

#[test]
fn subtract_an_intersection_splits_into_clauses() {
    let d = solid(1).intersect(solid(2)).subtract(solid(3).intersect(solid(4)));
    assert_eq!(d.clauses(), &[1, 2, -3, 0, 1, 2, -4, 0]);
    assert_eq!(d.solids(), &[Piece(1), Piece(2), Piece(3), Piece(4)]);
}

#[test]
fn subtract_the_empty_expression_keeps_the_left_side() {
    let d = solid(5).subtract(Boolean::default());
    assert_eq!(d.clauses(), &[1, 0]);
    assert_eq!(d.solids(), &[Piece(5)]);
}

#[test]
fn empty_expression_is_the_identity_of_union() {
    let u = Boolean::default().union(solid(4));
    assert_eq!(u.clauses(), &[1, 0]);
    assert_eq!(u.solids(), &[Piece(4)]);
    let folded = [1, 2, 3].iter().fold(Boolean::new_empty(), |acc, &n| acc.union(solid(n)));
    assert_eq!(folded.clauses(), &[1, 0, 2, 0, 3, 0]);
}

#[test]
fn empty_expression_annihilates_intersection() {
    let i = Boolean::default().intersect(solid(4));
    assert!(i.clauses().is_empty());
    assert_eq!(i.solids(), &[Piece(4)]);
}

#[test]
fn empty_expression_cannot_be_built() {
    let e: Boolean<Piece> = Boolean::default();
    assert_eq!(e.build_vec(), Err(Error::OneFailed(0)));
    let e: Boolean<Piece> = Boolean::default();
    assert_eq!(e.build(), Err(Error::OneFailed(0)));
}

#[test]
fn build_keeps_a_single_piece() {
    assert_eq!(solid(9).build(), Ok(Piece(9)));
}

#[test]
fn build_reports_the_piece_count() {
    assert_eq!(solid(1).union(solid(2)).build(), Err(Error::OneFailed(2)));
    assert_eq!(solid(1).union(solid(2)).build_vec(), Ok(vec![Piece(1), Piece(2)]));
}

#[test]
fn select_one_counts_pieces() {
    assert_eq!(Boolean::select_one(vec![Piece(3)]), Ok(Piece(3)));
    assert_eq!(Boolean::<Piece>::select_one(vec![]), Err(Error::OneFailed(0)));
    assert_eq!(Boolean::select_one(vec![Piece(1), Piece(2), Piece(3)]), Err(Error::OneFailed(3)));
}
