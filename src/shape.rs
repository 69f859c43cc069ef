//! Structural shape of a declared field type, and the classification of a
//! field as mandatory or optional from its outer type constructor.

use vstd::prelude::*;

verus! {

/// One segment of a type path (`Option`, `Vec<String>`), with its generic
/// arguments in order.
pub struct Segment {
    pub name: String,
    pub args: Vec<TypeShape>,
}

/// The shape of a declared type: a named path, or any other form (a tuple, a
/// reference, an array, a non-type generic argument), kept as its source text.
pub enum TypeShape {
    Path(Vec<Segment>),
    Other(String),
}

/// The name of the optional-wrapper type constructor.
pub open spec fn optional_marker() -> Seq<char> {
    "Option"@
}

/// The outer type constructor of a shape: the last segment of a path.
pub open spec fn outer_constructor(t: TypeShape) -> Option<Seq<char>> {
    match t {
        TypeShape::Path(segs) => if segs@.len() > 0 {
            Some(segs@.last().name@)
        } else {
            None
        },
        TypeShape::Other(_) => None,
    }
}

/// A field is optional iff its outer type constructor is the optional wrapper.
pub open spec fn is_optional_shape(t: TypeShape) -> bool {
    outer_constructor(t) == Some(optional_marker())
}

/// A shape the classifier recognises: a non-empty path, and an optional
/// wrapper with exactly one generic argument.
pub open spec fn shape_ok(t: TypeShape) -> bool {
    match t {
        TypeShape::Path(segs) => segs@.len() > 0 && (is_optional_shape(t)
            ==> segs@.last().args@.len() == 1),
        TypeShape::Other(_) => false,
    }
}

/// The element type: one optional-wrapper layer stripped, or the type itself.
pub open spec fn element_of(t: TypeShape) -> TypeShape
    recommends
        shape_ok(t),
{
    if is_optional_shape(t) {
        t->Path_0@.last().args@[0]
    } else {
        t
    }
}

/// A shape with an item type, as a sequence has: a path whose last segment
/// has exactly one generic argument.
pub open spec fn has_item_type(t: TypeShape) -> bool {
    match t {
        TypeShape::Path(segs) => segs@.len() > 0 && segs@.last().args@.len() == 1,
        TypeShape::Other(_) => false,
    }
}

/// The item type: the one generic argument of the last segment.
pub open spec fn item_of(t: TypeShape) -> TypeShape
    recommends
        has_item_type(t),
{
    t->Path_0@.last().args@[0]
}

impl TypeShape {
    /// Whether this shape is recognised by the classifier.
    pub fn is_well_formed(&self) -> (r: bool)
        ensures
            r == shape_ok(*self),
    {
        match self {
            TypeShape::Path(segs) => {
                if segs.len() == 0 {
                    false
                } else if self.is_optional() {
                    segs[segs.len() - 1].args.len() == 1
                } else {
                    true
                }
            },
            TypeShape::Other(_) => false,
        }
    }

    /// Whether the outer type constructor is the optional wrapper.
    pub fn is_optional(&self) -> (r: bool)
        ensures
            r == is_optional_shape(*self),
    {
        match self {
            TypeShape::Path(segs) => {
                if segs.len() == 0 {
                    false
                } else {
                    let marker = "Option".to_owned();
                    segs[segs.len() - 1].name == marker
                }
            },
            TypeShape::Other(_) => false,
        }
    }

    /// Whether this shape has an item type.
    pub fn has_item_type(&self) -> (r: bool)
        ensures
            r == has_item_type(*self),
    {
        match self {
            TypeShape::Path(segs) => segs.len() > 0 && segs[segs.len() - 1].args.len() == 1,
            TypeShape::Other(_) => false,
        }
    }

    /// The item type of a shape that has one.
    pub fn item_type(&self) -> (r: &TypeShape)
        requires
            has_item_type(*self),
        ensures
            *r == item_of(*self),
    {
        match self {
            TypeShape::Path(segs) => &segs[segs.len() - 1].args[0],
            TypeShape::Other(_) => self,
        }
    }

    /// The element type of a well-formed shape.
    pub fn element_type(&self) -> (r: &TypeShape)
        requires
            shape_ok(*self),
        ensures
            *r == element_of(*self),
    {
        if self.is_optional() {
            match self {
                TypeShape::Path(segs) => &segs[segs.len() - 1].args[0],
                TypeShape::Other(_) => self,
            }
        } else {
            self
        }
    }
}

} // verus!
