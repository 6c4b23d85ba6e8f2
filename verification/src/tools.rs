//! Modes of the state brush and the state lasso, and how a brush sample is
//! classified.
use vstd::prelude::*;

verus! {

/// What a brush stroke does to the provinces it touches.
#[derive(Debug, Clone, Copy, PartialEq, Eq, Structural)]
pub enum StateBrushMode {
    AssignToTarget,
    Unassign,
}

impl StateBrushMode {
    pub fn label(self) -> (r: &'static str)
        ensures
            r@ == (match self {
                StateBrushMode::AssignToTarget => "Assign to target"@,
                StateBrushMode::Unassign => "Unassign"@,
            }),
    {
        match self {
            StateBrushMode::AssignToTarget => "Assign to target",
            StateBrushMode::Unassign => "Unassign",
        }
    }
}

/// How a province under the brush is treated.
#[derive(Debug, Clone, Copy, PartialEq, Eq, Structural)]
pub enum BrushProvinceClassification {
    Selectable,
    NoOp,
    IgnoredNonLand,
    BlockedAmbiguous,
    BlockedInvalidState,
    Unknown,
}

/// How a lasso selection combines with the current selection.
#[derive(Debug, Clone, Copy, PartialEq, Eq, Structural)]
pub enum LassoSelectionMode {
    Replace,
    Add,
    Remove,
}

impl LassoSelectionMode {
    pub fn label(self) -> (r: &'static str)
        ensures
            r@ == (match self {
                LassoSelectionMode::Replace => "Replace"@,
                LassoSelectionMode::Add => "Add"@,
                LassoSelectionMode::Remove => "Remove"@,
            }),
    {
        match self {
            LassoSelectionMode::Replace => "Replace",
            LassoSelectionMode::Add => "Add",
            LassoSelectionMode::Remove => "Remove",
        }
    }
}

/// Which provinces a lasso polygon takes in.
#[derive(Debug, Clone, Copy, PartialEq, Eq, Structural)]
pub enum ProvinceInclusionMode {
    CentroidInside,
    AnyIntersection,
    MajorityInside,
}

impl ProvinceInclusionMode {
    pub fn label(self) -> (r: &'static str)
        ensures
            r@ == (match self {
                ProvinceInclusionMode::CentroidInside => "Centroid"@,
                ProvinceInclusionMode::AnyIntersection => "Any intersection"@,
                ProvinceInclusionMode::MajorityInside => "Majority"@,
            }),
    {
        match self {
            ProvinceInclusionMode::CentroidInside => "Centroid",
            ProvinceInclusionMode::AnyIntersection => "Any intersection",
            ProvinceInclusionMode::MajorityInside => "Majority",
        }
    }
}

/// Why a lasso could not be evaluated.
#[derive(Debug, Clone, Copy, PartialEq, Eq, Structural)]
pub enum StateLassoError {
    NotEnoughPoints,
    OutsideMap,
}

impl StateLassoError {
    /// The message shown for the error.
    pub fn message(self) -> (r: &'static str)
        ensures
            r@ == (match self {
                StateLassoError::NotEnoughPoints => "State lasso needs at least three points"@,
                StateLassoError::OutsideMap => "State lasso does not intersect the map"@,
            }),
    {
        match self {
            StateLassoError::NotEnoughPoints => "State lasso needs at least three points",
            StateLassoError::OutsideMap => "State lasso does not intersect the map",
        }
    }
}

} // verus!
