use vstd::prelude::*;

use crate::geom::{vec2_coord_ok, vec2_vel_ok, Vec2};
use crate::item::Item;
use crate::num::{advanced, dt_ok, MAX_COORD, MAX_DT, MAX_VEL};
use crate::particles::ParticleDriver;

verus! {

/// Largest render height or scale, in milli-units.
pub const MAX_SCALAR: i64 = 0x4000_0000;

/// Largest animation-clock value, in milliseconds; the clock saturates here.
pub const MAX_TIMER: i64 = 0x100_0000_0000;

/// Largest remaining move time, in milliseconds.
pub const MAX_MOVE_TIME: i64 = 0x1_0000_0000_0000;

/// How a sprite is combined with the scene behind it; persisted as a
/// one-character key in map files.
#[derive(PartialEq, Eq, Structural, Debug, Clone, Copy)]
pub enum BlendMode {
    Alpha,
    Add,
    Lighter,
    Multiply,
    Invert,
}

/// The gameplay kind of an entity; collision compatibility is decided by
/// kind.
#[derive(PartialEq, Eq, Structural, Debug, Clone, Copy)]
pub enum MobType {
    MapObject,
    Player,
    Creature,
    PlayerProjectile,
    CreatureProjectile,
}

/// What happens when an entity's timed move runs out.
#[derive(PartialEq, Eq, Structural, Debug, Clone, Copy)]
pub enum MoveEndAction {
    NoAction,
    RemoveFromMap,
}

/// What happens to an entity on every tick.
#[derive(PartialEq, Eq, Structural, Debug, Clone, Copy)]
pub enum UpdateAction {
    NoAction,
    RemoveFromMap,
    EmitDriveParticles,
}

/// An RGBA tint, per-mille per channel.
#[derive(PartialEq, Eq, Structural, Debug, Clone, Copy)]
pub struct Rgba {
    pub r: u16,
    pub g: u16,
    pub b: u16,
    pub a: u16,
}

pub open spec fn white() -> Rgba {
    Rgba { r: 1000, g: 1000, b: 1000, a: 1000 }
}

/// The render-facing state of an entity: sprite frames, tint, blend mode and
/// its owned particle pool. Heights are milli-units.
pub struct Visual {
    pub base_image_id: usize,
    pub current_image_id: usize,
    pub frames: usize,
    pub tileset_id: usize,
    pub height: i64,
    pub color: Rgba,
    pub blend: BlendMode,
    pub particles: ParticleDriver,
}

impl Visual {
    pub open spec fn wf(&self) -> bool {
        &&& 1 <= self.frames <= 0x10000
        &&& self.base_image_id <= 0x1000_0000
        &&& 0 <= self.height <= MAX_SCALAR
        &&& self.particles.wf()
    }
}

/// Gameplay attributes: base speed in milli-units per millisecond (world
/// units per second), hit points, and the entity kind.
#[derive(PartialEq, Eq, Structural, Debug, Clone, Copy)]
pub struct MobAttributes {
    pub base_speed: i64,
    pub hit_points: i32,
    pub mob_type: MobType,
}

impl MobAttributes {
    pub open spec fn wf(&self) -> bool {
        1 <= self.base_speed <= MAX_VEL
    }
}

/// The compass sector of a direction vector, split into eight 45-degree
/// regions: 0 points along positive x, then counting through positive y
/// (1, 2) to negative x (3, 4) and back through negative y (5, 6, 7).
/// A zero vector has no direction and maps to sector 0.
pub open spec fn direction_sector(dx: int, dy: int) -> int {
    let ax = if dx >= 0 { dx } else { -dx };
    let ay = if dy >= 0 { dy } else { -dy };
    if dx == 0 && dy == 0 {
        0
    } else if ay <= ax {
        if dx >= 0 {
            if dy >= 0 { 0 } else { 7 }
        } else {
            if dy >= 0 { 3 } else { 4 }
        }
    } else {
        if dy >= 0 {
            if dx >= 0 { 1 } else { 2 }
        } else {
            if dx >= 0 { 6 } else { 5 }
        }
    }
}

/// The sprite-frame offset facing a direction: the sector scaled to the
/// frame count, rotated by half a turn to match the sprite sheets.
pub open spec fn orient_offset(dx: int, dy: int, frames: int) -> int {
    (frames / 2 + (direction_sector(dx, dy) * frames) / 8) % frames
}

impl Visual {
    /// Frame offset, below `frames`, whose sprite faces the direction
    /// `(dx, dy)`; a zero direction has no facing and falls into the first
    /// sector.
    pub fn orient(&self, dx: i64, dy: i64) -> (r: usize)
        requires
            self.wf(),
            -0x1_0000_0000_0000 <= dx <= 0x1_0000_0000_0000,
            -0x1_0000_0000_0000 <= dy <= 0x1_0000_0000_0000,
        ensures
            r == orient_offset(dx as int, dy as int, self.frames as int),
            r < self.frames,
    {
        let frames = self.frames;
        let ax: i64 = if dx >= 0 { dx } else { -dx };
        let ay: i64 = if dy >= 0 { dy } else { -dy };
        let sector: usize = if dx == 0 && dy == 0 {
            0
        } else if ay <= ax {
            if dx >= 0 {
                if dy >= 0 { 0 } else { 7 }
            } else {
                if dy >= 0 { 3 } else { 4 }
            }
        } else {
            if dy >= 0 {
                if dx >= 0 { 1 } else { 2 }
            } else {
                if dx >= 0 { 6 } else { 5 }
            }
        };
        proof {
            assert(sector <= 7);
            assert(1 <= frames <= 0x10000);
        }
        (frames / 2 + (sector * frames) / 8) % frames
    }
}

/// One simulated object on the map. Positions and velocities are fixed-point
/// (milli-units and milli-units per millisecond), times are milliseconds.
pub struct MapObject {
    pub uid: u64,
    pub visual: Visual,
    pub attributes: MobAttributes,
    pub item: Option<Item>,
    pub position: Vec2,
    pub velocity: Vec2,
    pub move_time_left: i64,
    pub scale: i64,
    pub move_end_action: MoveEndAction,
    pub update_action: UpdateAction,
    pub animation_timer: i64,
}

impl MapObject {
    pub open spec fn wf(&self) -> bool {
        &&& vec2_coord_ok(self.position)
        &&& vec2_vel_ok(self.velocity)
        &&& -MAX_DT <= self.move_time_left <= MAX_MOVE_TIME
        &&& 0 <= self.animation_timer <= MAX_TIMER
        &&& 0 <= self.scale <= MAX_SCALAR
        &&& self.visual.wf()
        &&& self.attributes.wf()
    }

    /// Integrates one frame of straight-line motion while a timed move is
    /// running: the position advances by `velocity * dt` and the remaining
    /// move time drops by `dt`. A stopped entity (no move time left) does
    /// not drift, whatever its velocity field holds.
    pub fn move_dt(&mut self, dt: i64)
        requires
            old(self).wf(),
            dt_ok(dt as int),
        ensures
            *final(self) == moved(*old(self), dt as int),
            final(self).wf(),
    {
        if self.move_time_left > 0 {
            let p = self.position.advanced_by(&self.velocity, dt);
            self.position = p;
            self.move_time_left = self.move_time_left - dt;
        }
    }
}

/// The state of an entity after one frame of motion integration.
pub open spec fn moved(m: MapObject, dt: int) -> MapObject {
    if m.move_time_left > 0 {
        MapObject {
            position: Vec2 {
                x: advanced(m.position.x as int, m.velocity.x as int, dt) as i64,
                y: advanced(m.position.y as int, m.velocity.y as int, dt) as i64,
            },
            move_time_left: (m.move_time_left - dt) as i64,
            ..m
        }
    } else {
        m
    }
}

/// Total of a sequence of frame deltas.
pub open spec fn dts_sum(dts: Seq<i64>) -> int
    decreases dts.len(),
{
    if dts.len() == 0 {
        0
    } else {
        dts[0] + dts_sum(dts.drop_first())
    }
}

/// The state of an entity after a sequence of motion ticks.
pub open spec fn moved_seq(m: MapObject, dts: Seq<i64>) -> MapObject
    decreases dts.len(),
{
    if dts.len() == 0 {
        m
    } else {
        moved_seq(moved(m, dts[0] as int), dts.drop_first())
    }
}

/// Law: an entity with zero velocity does not drift — after any number of
/// motion ticks of any frame deltas, its position is unchanged.
pub proof fn lemma_zero_velocity_keeps_position(m: MapObject, dts: Seq<i64>)
    requires
        vec2_coord_ok(m.position),
        m.velocity == (Vec2 { x: 0i64, y: 0i64 }),
        forall|i: int| 0 <= i < dts.len() ==> dt_ok(#[trigger] dts[i] as int),
    ensures
        moved_seq(m, dts).position == m.position,
    decreases dts.len(),
{
    if dts.len() > 0 {
        let m1 = moved(m, dts[0] as int);
        assert(m1.position == m.position);
        lemma_zero_velocity_keeps_position(m1, dts.drop_first());
    }
}

proof fn lemma_coord_between(p: int, v: int, t: int, tt: int)
    requires
        0 <= t <= tt,
        crate::num::coord_ok(p),
        crate::num::coord_ok(p + v * tt),
    ensures
        crate::num::coord_ok(p + v * t),
{
    assert(-MAX_COORD <= p + v * t <= MAX_COORD) by (nonlinear_arith)
        requires
            0 <= t <= tt,
            -MAX_COORD <= p <= MAX_COORD,
            -MAX_COORD <= p + v * tt <= MAX_COORD,
    ;
}

/// While the frame deltas consumed stay within the remaining move time,
/// integration is exactly linear: the position advances by
/// `velocity * (sum of deltas)` and the move time drops by that sum, with
/// every other field untouched. The two clamping hypotheses only exclude a
/// path that would leave the world box.
pub proof fn lemma_motion_linear(m: MapObject, dts: Seq<i64>)
    requires
        vec2_coord_ok(m.position),
        forall|i: int| 0 <= i < dts.len() ==> 0 < #[trigger] dts[i] && dt_ok(dts[i] as int),
        dts.len() > 0 ==> m.move_time_left > 0,
        dts_sum(dts) <= m.move_time_left <= MAX_MOVE_TIME,
        crate::num::coord_ok(m.position.x + m.velocity.x * m.move_time_left),
        crate::num::coord_ok(m.position.y + m.velocity.y * m.move_time_left),
    ensures
        moved_seq(m, dts) == (MapObject {
            position: Vec2 {
                x: (m.position.x + m.velocity.x * dts_sum(dts)) as i64,
                y: (m.position.y + m.velocity.y * dts_sum(dts)) as i64,
            },
            move_time_left: (m.move_time_left - dts_sum(dts)) as i64,
            ..m
        }),
    decreases dts.len(),
{
    lemma_sum_nonneg(dts);
    if dts.len() == 0 {
        assert(m.velocity.x * 0 == 0);
        assert(m.velocity.y * 0 == 0);
        assert(moved_seq(m, dts) =~= (MapObject {
            position: Vec2 { x: m.position.x, y: m.position.y },
            move_time_left: m.move_time_left,
            ..m
        }));
    } else {
        let dt0 = dts[0] as int;
        let rest = dts.drop_first();
        let t = m.move_time_left as int;
        lemma_sum_nonneg(rest);
        lemma_coord_between(m.position.x as int, m.velocity.x as int, dt0, t);
        lemma_coord_between(m.position.y as int, m.velocity.y as int, dt0, t);
        let m1 = moved(m, dt0);
        assert(m1.position.x == m.position.x + m.velocity.x * dt0);
        assert(m1.position.y == m.position.y + m.velocity.y * dt0);
        assert(m.velocity.x * t == m.velocity.x * dt0 + m.velocity.x * (t - dt0))
            by (nonlinear_arith);
        assert(m.velocity.y * t == m.velocity.y * dt0 + m.velocity.y * (t - dt0))
            by (nonlinear_arith);
        lemma_motion_linear(m1, rest);
        assert(m.velocity.x * dts_sum(dts) == m.velocity.x * dt0 + m.velocity.x * dts_sum(rest))
            by (nonlinear_arith)
            requires
                dts_sum(dts) == dt0 + dts_sum(rest),
        ;
        assert(m.velocity.y * dts_sum(dts) == m.velocity.y * dt0 + m.velocity.y * dts_sum(rest))
            by (nonlinear_arith)
            requires
                dts_sum(dts) == dt0 + dts_sum(rest),
        ;
    }
}

proof fn lemma_sum_nonneg(dts: Seq<i64>)
    requires
        forall|i: int| 0 <= i < dts.len() ==> 0 < #[trigger] dts[i],
    ensures
        dts_sum(dts) >= 0,
        dts.len() > 0 ==> dts_sum(dts) > 0,
    decreases dts.len(),
{
    if dts.len() > 0 {
        lemma_sum_nonneg(dts.drop_first());
    }
}

proof fn lemma_sum_split(dts: Seq<i64>, i: int)
    requires
        0 <= i <= dts.len(),
    ensures
        dts_sum(dts) == dts_sum(dts.take(i)) + dts_sum(dts.skip(i)),
    decreases i,
{
    if i == 0 {
        assert(dts.take(0).len() == 0);
        assert(dts.skip(0) =~= dts);
    } else {
        let rest = dts.drop_first();
        assert(dts.take(i).drop_first() =~= rest.take(i - 1));
        assert(dts.take(i)[0] == dts[0]);
        assert(dts.skip(i) =~= rest.skip(i - 1));
        lemma_sum_split(rest, i - 1);
    }
}

/// Law: a timed move integrates exactly. An entity with `move_time_left`
/// equal to `T > 0` and a constant velocity, stepped by any positive frame
/// deltas summing to `T`, ends exactly at `initial + velocity * T` with no
/// move time left; the remaining move time is still positive before every
/// earlier tick, so the move-end crossing (positive to non-positive) happens
/// at the last tick and only there.
#[verifier::rlimit(60)]
pub proof fn lemma_move_completes_exactly(m: MapObject, dts: Seq<i64>)
    requires
        vec2_coord_ok(m.position),
        m.move_time_left > 0,
        m.move_time_left <= MAX_MOVE_TIME,
        dts.len() > 0,
        forall|i: int| 0 <= i < dts.len() ==> 0 < #[trigger] dts[i] && dt_ok(dts[i] as int),
        dts_sum(dts) == m.move_time_left,
        crate::num::coord_ok(m.position.x + m.velocity.x * m.move_time_left),
        crate::num::coord_ok(m.position.y + m.velocity.y * m.move_time_left),
    ensures
        moved_seq(m, dts).position.x == m.position.x + m.velocity.x * m.move_time_left,
        moved_seq(m, dts).position.y == m.position.y + m.velocity.y * m.move_time_left,
        moved_seq(m, dts).move_time_left == 0,
        moved_seq(m, dts).velocity == m.velocity,
        forall|i: int|
            0 <= i < dts.len() ==> ((moved_seq(m, #[trigger] dts.take(i)).move_time_left > 0
                && moved_seq(m, dts.take(i + 1)).move_time_left <= 0) <==> i == dts.len() - 1),
{
    lemma_motion_linear(m, dts);
    assert forall|i: int| 0 <= i < dts.len() implies ((moved_seq(
        m,
        #[trigger] dts.take(i),
    ).move_time_left > 0 && moved_seq(m, dts.take(i + 1)).move_time_left <= 0) <==> i
        == dts.len() - 1) by {
        lemma_sum_split(dts, i);
        lemma_sum_split(dts, i + 1);
        assert(forall|j: int|
            0 <= j < dts.take(i).len() ==> 0 < #[trigger] dts.take(i)[j] && dt_ok(
                dts.take(i)[j] as int,
            ));
        assert(forall|j: int|
            0 <= j < dts.take(i + 1).len() ==> 0 < #[trigger] dts.take(i + 1)[j] && dt_ok(
                dts.take(i + 1)[j] as int,
            ));
        assert(forall|j: int| 0 <= j < dts.skip(i).len() ==> 0 < #[trigger] dts.skip(i)[j]);
        assert(forall|j: int|
            0 <= j < dts.skip(i + 1).len() ==> 0 < #[trigger] dts.skip(i + 1)[j]);
        lemma_sum_nonneg(dts.skip(i));
        lemma_sum_nonneg(dts.skip(i + 1));
        lemma_sum_nonneg(dts.take(i));
        lemma_sum_nonneg(dts.take(i + 1));
        lemma_motion_linear(m, dts.take(i));
        lemma_motion_linear(m, dts.take(i + 1));
        let t = m.move_time_left as int;
        assert(moved_seq(m, dts.take(i)).move_time_left == t - dts_sum(dts.take(i)));
        assert(moved_seq(m, dts.take(i + 1)).move_time_left == t - dts_sum(dts.take(i + 1)));
        assert(dts.skip(i).len() > 0);
        assert(dts_sum(dts.take(i)) < t);
        if i + 1 < dts.len() {
            assert(dts.skip(i + 1).len() > 0);
            assert(dts_sum(dts.take(i + 1)) < t);
        } else {
            assert(dts.take(i + 1) =~= dts);
            assert(dts_sum(dts.take(i + 1)) == t);
        }
    }
}

/// No two entities of the sequence share an id.
pub open spec fn ids_unique(s: Seq<MapObject>) -> bool {
    forall|i: int, j: int|
        0 <= i < j < s.len() ==> (#[trigger] s[i]).uid != (#[trigger] s[j]).uid
}

pub open spec fn all_wf(s: Seq<MapObject>) -> bool {
    forall|i: int| 0 <= i < s.len() ==> (#[trigger] s[i]).wf()
}

/// Every id of the sequence is below the factory's next id, so a freshly
/// allocated id collides with nothing.
pub open spec fn ids_below(s: Seq<MapObject>, n: int) -> bool {
    forall|i: int| 0 <= i < s.len() ==> (#[trigger] s[i]).uid < n
}

pub open spec fn contains_id(s: Seq<MapObject>, id: u64) -> bool {
    exists|i: int| 0 <= i < s.len() && (#[trigger] s[i]).uid == id
}

/// Allocates process-unique entity identifiers and default entity state.
/// Identifiers grow monotonically and are never reused.
pub struct MapObjectFactory {
    pub next_id: u64,
}

impl MapObjectFactory {
    /// Builds a fresh entity at `position` with the default visual (8
    /// frames, white tint, alpha blend, empty particle pool) and default
    /// attributes (base speed 150, no hit points, generic kind), consuming
    /// the next identifier.
    pub fn create_mob(
        &mut self,
        tile_id: usize,
        tileset_id: usize,
        position: Vec2,
        height: i64,
        scale: i64,
    ) -> (r: MapObject)
        requires
            old(self).next_id < u64::MAX,
            vec2_coord_ok(position),
            tile_id <= 0x1000_0000,
            0 <= height <= MAX_SCALAR,
            0 <= scale <= MAX_SCALAR,
        ensures
            final(self).next_id == old(self).next_id + 1,
            r.wf(),
            r.uid == old(self).next_id,
            r.position == position,
            r.velocity == (Vec2 { x: 0, y: 0 }),
            r.move_time_left == 0,
            r.scale == scale,
            r.move_end_action == MoveEndAction::NoAction,
            r.update_action == UpdateAction::NoAction,
            r.animation_timer == 0,
            r.item is None,
            r.visual.base_image_id == tile_id,
            r.visual.current_image_id == tile_id,
            r.visual.frames == 8,
            r.visual.tileset_id == tileset_id,
            r.visual.height == height,
            r.visual.color == white(),
            r.visual.blend == BlendMode::Alpha,
            r.visual.particles.high_water_mark() == 0,
            r.visual.particles.search_cursor() == 0,
            r.visual.particles.spawn_ids@.len() == 0,
            r.visual.particles.spawn_chance == 0,
            r.attributes == (MobAttributes {
                base_speed: 150,
                hit_points: 0,
                mob_type: MobType::MapObject,
            }),
    {
        let visual = Visual {
            base_image_id: tile_id,
            current_image_id: tile_id,
            frames: 8,
            tileset_id,
            height,
            color: Rgba { r: 1000, g: 1000, b: 1000, a: 1000 },
            blend: BlendMode::Alpha,
            particles: ParticleDriver::new(),
        };
        let attributes = MobAttributes { base_speed: 150, hit_points: 0, mob_type: MobType::MapObject };
        let uid = self.next_id;
        self.next_id = self.next_id + 1;
        MapObject {
            uid,
            visual,
            attributes,
            item: None,
            position,
            velocity: Vec2 { x: 0, y: 0 },
            move_time_left: 0,
            scale,
            move_end_action: MoveEndAction::NoAction,
            update_action: UpdateAction::NoAction,
            animation_timer: 0,
        }
    }
}

} // verus!
