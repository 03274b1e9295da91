//! Display rotation and its integer transform code as the compositor's
//! configuration format expects it.

use vstd::prelude::*;

verus! {

/// Rotation of a display, with the compositor's transform codes:
/// 0 = normal, 1 = left, 2 = inverted, 3 = right.
#[derive(Debug, Clone, Copy, PartialEq, Eq, Structural)]
pub enum Rotation {
    Normal,
    Left,
    Right,
    Inverted,
}

impl Rotation {
    /// Human-readable label for the rotation.
    pub fn as_str(self) -> (r: &'static str)
        ensures
            self is Normal ==> r@ == "Landscape"@,
            self is Left ==> r@ == "Portrait Left"@,
            self is Right ==> r@ == "Portrait Right"@,
            self is Inverted ==> r@ == "Inverted"@,
    {
        match self {
            Rotation::Normal => "Landscape",
            Rotation::Left => "Portrait Left",
            Rotation::Right => "Portrait Right",
            Rotation::Inverted => "Inverted",
        }
    }

    /// The transform code of this rotation.
    pub open spec fn spec_transform(self) -> u8 {
        match self {
            Rotation::Normal => 0,
            Rotation::Left => 1,
            Rotation::Right => 3,
            Rotation::Inverted => 2,
        }
    }

    /// Transform code as the compositor's configuration expects it.
    #[verifier::when_used_as_spec(spec_transform)]
    pub fn transform(self) -> (t: u8)
        ensures
            t == self.spec_transform(),
    {
        match self {
            Rotation::Normal => 0,
            Rotation::Left => 1,
            Rotation::Right => 3,
            Rotation::Inverted => 2,
        }
    }

    /// The rotation a transform code denotes; codes above 3 fall back to normal.
    pub open spec fn spec_from_transform(t: u8) -> Rotation {
        match t {
            1u8 => Rotation::Left,
            2u8 => Rotation::Inverted,
            3u8 => Rotation::Right,
            _ => Rotation::Normal,
        }
    }

    /// Rotation denoted by a transform code; unknown codes mean normal.
    #[verifier::when_used_as_spec(spec_from_transform)]
    pub fn from_transform(t: u8) -> (r: Rotation)
        ensures
            r == Rotation::spec_from_transform(t),
    {
        match t {
            1 => Rotation::Left,
            2 => Rotation::Inverted,
            3 => Rotation::Right,
            _ => Rotation::Normal,
        }
    }

    /// Every rotation, in the order the rotation dropdown offers them.
    pub fn all() -> (v: Vec<Rotation>)
        ensures
            v@ == seq![Rotation::Normal, Rotation::Left, Rotation::Right, Rotation::Inverted],
    {
        let mut v: Vec<Rotation> = Vec::new();
        v.push(Rotation::Normal);
        v.push(Rotation::Left);
        v.push(Rotation::Right);
        v.push(Rotation::Inverted);
        proof {
            assert(v@ =~= seq![
                Rotation::Normal,
                Rotation::Left,
                Rotation::Right,
                Rotation::Inverted,
            ]);
        }
        v
    }
}

} // verus!
