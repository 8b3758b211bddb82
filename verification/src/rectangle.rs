//! The area of a rectangle, computed from three equivalent shapes of input:
//! two plain numbers, a pair, and a record with named fields.

use vstd::prelude::*;

verus! {

/// A rectangle with sides measured in whole pixels.
#[derive(Clone, Copy, Debug, PartialEq, Eq)]
pub struct Rectangle {
    pub width: u32,
    pub height: u32,
}

/// The area of a `width` by `height` rectangle, as a natural number: it is
/// not bounded by the width of a machine integer.
pub open spec fn area_of(width: nat, height: nat) -> nat {
    width * height
}

/// The area of the rectangle whose width and height make up `dimensions`.
pub open spec fn area_of_pair(dimensions: (u32, u32)) -> nat {
    area_of(dimensions.0 as nat, dimensions.1 as nat)
}

impl Rectangle {
    /// The area of this rectangle.
    pub open spec fn spec_area(&self) -> nat {
        area_of(self.width as nat, self.height as nat)
    }
}

/// The area of a `width` by `height` rectangle, in square pixels.
///
/// The area has to fit the result type.
pub fn area(width: u32, height: u32) -> (a: u32)
    requires
        area_of(width as nat, height as nat) <= u32::MAX,
    ensures
        a == area_of(width as nat, height as nat),
{
    width * height
}

/// The area of the rectangle whose width and height make up `dimensions`,
/// in square pixels.
///
/// The area has to fit the result type.
pub fn area_tuple(dimensions: (u32, u32)) -> (a: u32)
    requires
        area_of_pair(dimensions) <= u32::MAX,
    ensures
        a == area_of_pair(dimensions),
{
    dimensions.0 * dimensions.1
}

/// The area of `rect`, in square pixels.
///
/// The area has to fit the result type.
pub fn area_struct(rect: Rectangle) -> (a: u32)
    requires
        rect.spec_area() <= u32::MAX,
    ensures
        a == rect.spec_area(),
{
    assert(rect.height * rect.width == rect.width * rect.height) by (nonlinear_arith);
    rect.height * rect.width
}

/// In whichever shape the sides of a rectangle are handed over, as two
/// numbers, as a pair or as a `Rectangle`, the area is the same: the product
/// of the sides.
pub proof fn lemma_area_is_product_in_every_shape(width: u32, height: u32)
    ensures
        area_of(width as nat, height as nat) == width * height,
        area_of_pair((width, height)) == width * height,
        (Rectangle { width, height }).spec_area() == width * height,
{
}

} // verus!
