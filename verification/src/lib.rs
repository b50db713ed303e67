//! Hakai's verified core: the deterministic random generator, the tool table and key
//! bindings, the damage layer's tile grid, the decal catalogue, sound selection and the
//! sound bank, screen-capture pixel conversion, HUD colours and the credits text layout.

pub mod rng;
pub mod text;
pub mod audio;
pub mod tools;
pub mod input;
pub mod credits;
pub mod theme;
pub mod capture;
pub mod pixmap;
pub mod compose;
pub mod damage;
pub mod decals;
pub mod fonts;
pub mod effects;
pub mod sounds;
pub mod wav;
