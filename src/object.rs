use vstd::prelude::*;

verus! {

/// The closed set of object kinds that a scene holds, one flat array each.
#[derive(Copy, Clone, Debug, PartialEq, Eq, Structural)]
pub enum HittableObjectType {
    Sphere,
    MovingSphere,
    XyRectangle,
    XzRectangle,
    YzRectangle,
    AabbBox,
    BvhNode,
}

/// A typed index: the kind of object and its position in that kind's array.
#[derive(Copy, Clone, Debug, PartialEq, Eq, Structural)]
pub struct HittableObjectIndex {
    pub kind: HittableObjectType,
    pub index: usize,
}

impl HittableObjectIndex {
    pub fn new(kind: HittableObjectType, index: usize) -> (r: Self)
        ensures
            r.kind == kind,
            r.index == index,
    {
        HittableObjectIndex { kind, index }
    }

    /// Whether the reference names a hierarchy node rather than a primitive.
    pub fn is_node(&self) -> (r: bool)
        ensures
            r == (self.kind == HittableObjectType::BvhNode),
    {
        match self.kind {
            HittableObjectType::BvhNode => true,
            _ => false,
        }
    }
}

} // verus!
