use vstd::prelude::*;

verus! {

/// An affine transform, as `kurbo` has it. Its coefficients are of no concern here.
#[verifier::external_type_specification]
#[verifier::external_body]
pub struct ExAffine(kurbo::Affine);

/// A path, as `kurbo` has it. Its elements are of no concern here.
#[verifier::external_type_specification]
#[verifier::external_body]
pub struct ExBezPath(kurbo::BezPath);

/// A rectangle, as `kurbo` has it. Its corners are of no concern here.
#[verifier::external_type_specification]
#[verifier::external_body]
pub struct ExRect(kurbo::Rect);

/// A stroke style, as `kurbo` has it. Its fields are of no concern here.
#[verifier::external_type_specification]
#[verifier::external_body]
pub struct ExStroke(kurbo::Stroke);

/// `clone` of `kurbo::BezPath`, which copies the path's elements one by one: the clone is the
/// same path.
pub assume_specification[ <kurbo::BezPath as Clone>::clone ](path: &kurbo::BezPath) -> (copy:
    kurbo::BezPath)
    ensures
        copy == *path,
;

/// `clone` of `kurbo::Stroke`, which copies the style's fields one by one: the clone is the same
/// style.
pub assume_specification[ <kurbo::Stroke as Clone>::clone ](stroke: &kurbo::Stroke) -> (copy:
    kurbo::Stroke)
    ensures
        copy == *stroke,
;

} // verus!
