//! What happens when a termite dies or a particle ends its flight: which sound plays and
//! which mark is left.

use vstd::prelude::*;

use crate::audio::numbered_name;
use crate::rng::{draw_int, state_after_int, SeededRng};
use crate::text::decimal;

verus! {

/// Why termites died.
#[derive(Clone, Copy, Debug, PartialEq, Eq, Structural)]
pub enum Cause {
    /// The flame-thrower.
    Flame,
    /// The stamp.
    Squish,
}

/// The sound a batch of dead termites makes: squished ones squish, burnt ones die.
pub fn death_sound(cause: Cause) -> (r: &'static str)
    ensures
        r@ == match cause {
            Cause::Squish => "termite_squish"@,
            Cause::Flame => "termite_dead"@,
        },
{
    match cause {
        Cause::Squish => "termite_squish",
        Cause::Flame => "termite_dead",
    }
}

/// What a particle does when it lands or expires, and which texture it is drawn with.
/// Generic particles (splinters, sawdust) just fade; a shell clinks when it lands; a
/// paint droplet splats its colour when its time runs out.
#[derive(Clone, Copy, Debug, PartialEq, Eq, Structural)]
pub enum ParticleKind {
    Generic { variant: i64 },
    Shell,
    Droplet { color_index: i64 },
}

/// The sound a landing particle makes: one of `shell1`…`shell3` for a shell (drawn from
/// `rng`), nothing for anything else (and `rng` untouched).
pub fn landing_sound(kind: ParticleKind, rng: &mut SeededRng) -> (r: Option<String>)
    ensures
        match kind {
            ParticleKind::Shell => {
                &&& r matches Some(name) && name@ == "shell"@ + decimal(
                    draw_int(old(rng)@, 1, 4) as nat,
                )
                &&& 1 <= draw_int(old(rng)@, 1, 4) <= 3
                &&& final(rng)@ == state_after_int(old(rng)@, 1, 4)
            },
            _ => r is None && final(rng)@ == old(rng)@,
        },
{
    match kind {
        ParticleKind::Shell => Some(numbered_name("shell", 3, rng)),
        _ => None,
    }
}

/// The paint colour an expiring particle splats, if it is a droplet.
pub fn splat_color(kind: ParticleKind) -> (r: Option<i64>)
    ensures
        r == match kind {
            ParticleKind::Droplet { color_index } => Some(color_index),
            _ => None::<i64>,
        },
{
    match kind {
        ParticleKind::Droplet { color_index } => Some(color_index),
        _ => None,
    }
}

} // verus!
