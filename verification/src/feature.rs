//! The sketch as a feature of the document's tree: the sketch, its plane,
//! and the datum it was drawn on.

use vstd::prelude::*;

use crate::sketch::{Sketch, SketchPlane};

verus! {

/// A sketch's place on a datum: a datum plane, or one of a coordinate
/// system's three planes, pushed `offset` (millimetres, the bit pattern of
/// an `f32`) along its normal.
#[derive(Debug, Clone, PartialEq, Eq)]
pub struct DatumSupport {
    /// The datum feature's id.
    pub datum: u128,
    /// A coordinate system's plane: `XY`, `XZ` or `YZ`. A datum plane has
    /// only its own.
    pub plane: Option<String>,
    pub offset: u32,
}

/// A sketch feature of the document's tree.
#[derive(Debug)]
pub struct SketchFeature {
    /// The sketch data.
    pub sketch: Sketch,
    /// The reference plane for the sketch.
    pub plane: SketchPlane,
    /// The datum the sketch was drawn on, which its plane follows: moved,
    /// turned or flipped, the datum takes the sketch with it.
    pub support: Option<DatumSupport>,
}

impl SketchFeature {
    /// A sketch on a plane of its own, following no datum.
    pub fn new(sketch: Sketch, plane: SketchPlane) -> (f: Self)
        ensures
            f.sketch == sketch,
            f.plane == plane,
            f.support is None,
    {
        SketchFeature { sketch, plane, support: None }
    }

    /// A sketch on the default (XY) plane.
    pub fn from_sketch(sketch: Sketch) -> (f: Self)
        ensures
            f.sketch == sketch,
            f.plane == SketchPlane::spec_xy(),
            f.support is None,
    {
        SketchFeature { sketch, plane: SketchPlane::default(), support: None }
    }

    /// The features this one depends on: the datum it follows, if any.
    pub fn dependencies(&self) -> (v: Vec<u128>)
        ensures
            v@ == match self.support {
                Some(s) => seq![s.datum],
                None => Seq::<u128>::empty(),
            },
    {
        match &self.support {
            Some(s) => {
                let v = vec![s.datum];
                assert(v@ =~= seq![s.datum]);
                v
            },
            None => Vec::new(),
        }
    }
}

} // verus!
