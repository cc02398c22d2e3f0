use vstd::prelude::*;

use crate::entity::{white, BlendMode, MapObject, UpdateAction, MAX_TIMER};
use crate::num::{dt_ok, MAX_LIFE};

verus! {

/// Tileset holding the burn-down overlay frames of the removal animation.
pub const ANIMATION_TILESET: usize = 7;

/// Number of frames in the burn-down overlay sequence.
pub const REMOVAL_FRAMES: i64 = 22;

/// Render scale forced while the removal overlay plays, in milli-units.
pub const REMOVAL_SCALE: i64 = 1500;

/// A stateless per-tick behavior applied to one entity, attached through the
/// entity store's side table keyed by entity id; an absent entry means no
/// behavior.
#[derive(PartialEq, Eq, Structural, Debug, Clone, Copy)]
pub enum Animation {
    /// No effect at all; the animation clock does not even advance.
    NoAnimation,
    /// Cycles the sprite frame with the animation clock; `speed` is in
    /// frames per second.
    Spin { speed: u32 },
    /// Plays the burn-down overlay from `start_time` on the entity's own
    /// clock for `duration` milliseconds, then marks the entity for removal.
    Removal { start_time: i64, duration: i64 },
}

impl Animation {
    pub open spec fn wf(&self) -> bool {
        match *self {
            Animation::Removal { start_time, duration } => 0 <= start_time <= MAX_TIMER && 1
                <= duration <= MAX_LIFE,
            _ => true,
        }
    }
}

/// The entity's animation clock after one tick: it advances by `dt` and
/// saturates at `MAX_TIMER`.
pub open spec fn ticked_timer(timer: int, dt: int) -> int {
    if timer + dt > MAX_TIMER {
        MAX_TIMER as int
    } else {
        timer + dt
    }
}

/// The state of an entity after one application of an animation behavior.
pub open spec fn animation_applied(a: Animation, dt: int, m: MapObject) -> MapObject {
    match a {
        Animation::NoAnimation => m,
        Animation::Spin { speed } => {
            let t = ticked_timer(m.animation_timer as int, dt);
            let frame = ((t * (speed as int)) / 1000) % (m.visual.frames as int);
            MapObject {
                animation_timer: t as i64,
                visual: crate::entity::Visual {
                    current_image_id: (m.visual.base_image_id + frame) as usize,
                    ..m.visual
                },
                ..m
            }
        },
        Animation::Removal { start_time, duration } => {
            let t = ticked_timer(m.animation_timer as int, dt);
            let elapsed = t - start_time;
            if elapsed < duration as int {
                let progress = if elapsed < 0 {
                    0
                } else {
                    elapsed
                };
                MapObject {
                    animation_timer: t as i64,
                    visual: crate::entity::Visual {
                        current_image_id: (1 + (progress * (REMOVAL_FRAMES as int)) / (
                        duration as int)) as usize,
                        color: white(),
                        blend: BlendMode::Add,
                        tileset_id: ANIMATION_TILESET,
                        ..m.visual
                    },
                    scale: REMOVAL_SCALE,
                    ..m
                }
            } else {
                MapObject { animation_timer: t as i64, update_action: UpdateAction::RemoveFromMap, ..m }
            }
        },
    }
}

impl Animation {
    /// Applies this behavior to one entity for one tick, exactly as
    /// `animation_applied` describes.
    pub fn update(&self, dt: i64, mob: &mut MapObject)
        requires
            self.wf(),
            old(mob).wf(),
            dt_ok(dt as int),
        ensures
            *final(mob) == animation_applied(*self, dt as int, *old(mob)),
            final(mob).wf(),
    {
        match self {
            Animation::NoAnimation => {},
            Animation::Spin { speed } => {
                let t: i64 = if mob.animation_timer + dt > MAX_TIMER {
                    MAX_TIMER
                } else {
                    mob.animation_timer + dt
                };
                mob.animation_timer = t;
                proof {
                    assert(0 <= (t as int) * (*speed as int) < 0x1_0000_0000_0000_0000_0000)
                        by (nonlinear_arith)
                        requires
                            0 <= t <= MAX_TIMER,
                            0 <= *speed <= u32::MAX,
                    ;
                }
                let product: i128 = (t as i128) * (*speed as i128);
                let frame: usize = ((product / 1000) % (mob.visual.frames as i128)) as usize;
                mob.visual.current_image_id = mob.visual.base_image_id + frame;
            },
            Animation::Removal { start_time, duration } => {
                let t: i64 = if mob.animation_timer + dt > MAX_TIMER {
                    MAX_TIMER
                } else {
                    mob.animation_timer + dt
                };
                mob.animation_timer = t;
                let elapsed: i64 = t - *start_time;
                if elapsed < *duration {
                    let progress: i64 = if elapsed < 0 {
                        0
                    } else {
                        elapsed
                    };
                    let tile: usize = (1 + (progress * REMOVAL_FRAMES) / *duration) as usize;
                    mob.visual.current_image_id = tile;
                    mob.visual.color = crate::entity::Rgba { r: 1000, g: 1000, b: 1000, a: 1000 };
                    mob.visual.blend = BlendMode::Add;
                    mob.visual.tileset_id = ANIMATION_TILESET;
                    mob.scale = REMOVAL_SCALE;
                } else {
                    mob.update_action = UpdateAction::RemoveFromMap;
                }
            },
        }
    }
}

} // verus!
