pub mod animation;
pub mod editor;
pub mod entity;
pub mod geom;
pub mod inventory;
pub mod item;
pub mod map;
pub mod mapfile;
pub mod mob_group;
pub mod num;
pub mod particles;
pub mod rng;
pub mod sound;
pub mod textfmt;
pub mod ui;

use vstd::prelude::*;

verus! {

/// World coordinates are kept in fixed-point milli-units: 1000 equals one
/// world unit. Velocities are milli-units per millisecond, which makes one
/// velocity unit equal to one world unit per second. Time is counted in
/// milliseconds.
pub const MILLIS_PER_UNIT: i64 = 1000;

} // verus!
