//! The pose of a large bird that shoots.
use vstd::prelude::*;

use crate::text::str_equal;

verus! {

/// The animation of a large bird shooting.
pub struct ShootAnimation;

/// Which of the two shooting poses an ability calls for.
#[derive(Clone, Copy, Debug, PartialEq, Eq, Structural)]
pub enum ShootVariant {
    /// The fire rain of the large fire bird: it rears up, wings spread when grounded.
    FireRain,
    /// Any other shot: the head and beak snap forward, the wings fold in when standing still.
    Default,
}

impl ShootAnimation {
    /// The pose for the ability with id `ability_id`.
    pub fn variant(ability_id: Option<&str>) -> (v: ShootVariant)
        ensures
            v == (if ability_id matches Some(id) && id@ == "common.abilities.custom.birdlargefire.firerain"@ {
                ShootVariant::FireRain
            } else {
                ShootVariant::Default
            }),
    {
        match ability_id {
            Some(id) => {
                if str_equal(id, "common.abilities.custom.birdlargefire.firerain") {
                    ShootVariant::FireRain
                } else {
                    ShootVariant::Default
                }
            },
            None => ShootVariant::Default,
        }
    }
}

} // verus!
