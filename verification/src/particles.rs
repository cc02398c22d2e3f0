use vstd::prelude::*;

use crate::num::{
    advanced, clamp_coord, coord_ok, dt_ok, vel_ok, MAX_COORD, MAX_LIFE, MAX_VEL,
};

verus! {

/// Capacity of every particle pool.
pub const PMAX: usize = 1024;

/// An RGB tint, per-mille per channel (1000 is full intensity; values above
/// 1000 over-brighten, as some spark palettes do).
#[derive(Clone, Copy, PartialEq, Eq, Structural, Debug)]
pub struct Rgb {
    pub r: u16,
    pub g: u16,
    pub b: u16,
}

/// One pooled particle. Positions are offsets from the owning entity in
/// milli-units, velocities are milli-units per millisecond, lifetimes are
/// milliseconds.
#[derive(Clone, Copy, PartialEq, Eq, Structural, Debug)]
pub struct Particle {
    pub active: bool,
    pub lifetime: i64,
    pub total_lifetime: i64,
    pub xpos: i64,
    pub ypos: i64,
    pub zpos: i64,
    pub xvel: i64,
    pub yvel: i64,
    pub zvel: i64,
    pub tex_id: usize,
    pub color: Rgb,
}

pub open spec fn particle_bounds_ok(p: Particle) -> bool {
    &&& coord_ok(p.xpos as int)
    &&& coord_ok(p.ypos as int)
    &&& coord_ok(p.zpos as int)
    &&& vel_ok(p.xvel as int)
    &&& vel_ok(p.yvel as int)
    &&& vel_ok(p.zvel as int)
    &&& (p.active ==> 0 <= p.lifetime <= MAX_LIFE)
}

pub open spec fn inactive_particle() -> Particle {
    Particle {
        active: false,
        lifetime: 0,
        total_lifetime: 0,
        xpos: 0,
        ypos: 0,
        zpos: 0,
        xvel: 0,
        yvel: 0,
        zvel: 0,
        tex_id: 0,
        color: Rgb { r: 0, g: 0, b: 0 },
    }
}

/// Index of the first inactive slot of `s` at or after `i`, or `s.len()`
/// when every slot from `i` on is active.
pub open spec fn first_free_at(s: Seq<Particle>, i: int) -> int
    decreases s.len() - i,
{
    if i < 0 || i >= s.len() {
        s.len() as int
    } else if !s[i].active {
        i
    } else {
        first_free_at(s, i + 1)
    }
}

/// One particle after aging by `dt`: inactive slots are untouched; an active
/// one integrates its position, loses `dt` of lifetime, and is deactivated
/// once the lifetime goes negative.
pub open spec fn aged_particle(p: Particle, dt: int) -> Particle {
    if !p.active {
        p
    } else {
        Particle {
            active: p.lifetime - dt >= 0,
            lifetime: (p.lifetime - dt) as i64,
            xpos: advanced(p.xpos as int, p.xvel as int, dt) as i64,
            ypos: advanced(p.ypos as int, p.yvel as int, dt) as i64,
            zpos: advanced(p.zpos as int, p.zvel as int, dt) as i64,
            ..p
        }
    }
}

/// The whole slot vector after aging the window `[0, hwm)`.
pub open spec fn aged_window(s: Seq<Particle>, hwm: int, dt: int) -> Seq<Particle> {
    Seq::new(s.len(), |i: int| if i < hwm { aged_particle(s[i], dt) } else { s[i] })
}

/// One past the last active slot of `s` below `k`, or 0 when none is active.
pub open spec fn active_mark(s: Seq<Particle>, k: int) -> int
    decreases k,
{
    if k <= 0 {
        0
    } else if 0 <= k - 1 < s.len() && s[k - 1].active {
        k
    } else {
        active_mark(s, k - 1)
    }
}

/// Fixed-capacity object pool of short-lived particles, with a forward-only
/// free-slot cursor and a shrinking high-water mark, so that aging costs time
/// proportional to the working set and allocation silently drops particles
/// when no slot is free.
pub struct ParticleDriver {
    pub start_search_mark: usize,
    pub last_particle_mark: usize,
    pub particles: Vec<Particle>,
    /// Candidate sprite ids for randomized ambient emission, or empty.
    pub spawn_ids: Vec<usize>,
    /// Ambient emission chance, in millionths per millisecond.
    pub spawn_chance: u32,
}

impl ParticleDriver {
    pub open spec fn slots(&self) -> Seq<Particle> {
        self.particles@
    }

    pub open spec fn search_cursor(&self) -> int {
        self.start_search_mark as int
    }

    pub open spec fn high_water_mark(&self) -> int {
        self.last_particle_mark as int
    }

    pub open spec fn wf(&self) -> bool {
        &&& self.slots().len() == PMAX
        &&& 0 <= self.search_cursor() <= self.high_water_mark() <= PMAX
        &&& forall|i: int|
            self.high_water_mark() <= i < PMAX ==> !(#[trigger] self.slots()[i].active)
        &&& forall|i: int| 0 <= i < PMAX ==> particle_bounds_ok(#[trigger] self.slots()[i])
    }

    pub fn new() -> (r: ParticleDriver)
        ensures
            r.wf(),
            r.slots() == Seq::new(PMAX as nat, |i: int| inactive_particle()),
            r.search_cursor() == 0,
            r.high_water_mark() == 0,
            r.spawn_ids@ == Seq::<usize>::empty(),
            r.spawn_chance == 0,
    {
        let mut particles: Vec<Particle> = Vec::new();
        let mut i: usize = 0;
        while i < PMAX
            invariant
                i <= PMAX,
                particles@.len() == i,
                forall|j: int| 0 <= j < i ==> particles@[j] == inactive_particle(),
            decreases PMAX - i,
        {
            particles.push(
                Particle {
                    active: false,
                    lifetime: 0,
                    total_lifetime: 0,
                    xpos: 0,
                    ypos: 0,
                    zpos: 0,
                    xvel: 0,
                    yvel: 0,
                    zvel: 0,
                    tex_id: 0,
                    color: Rgb { r: 0, g: 0, b: 0 },
                },
            );
            i = i + 1;
        }
        let r = ParticleDriver {
            start_search_mark: 0,
            last_particle_mark: 0,
            particles,
            spawn_ids: Vec::new(),
            spawn_chance: 0,
        };
        proof {
            assert(r.slots() =~= Seq::new(PMAX as nat, |i: int| inactive_particle()));
        }
        r
    }

    /// Claims the first free slot at or after the search cursor and writes
    /// the particle there; returns false, changing nothing, when every slot
    /// from the cursor on is taken. The dropped particle is lost by design.
    pub fn add_particle(
        &mut self,
        x: i64,
        y: i64,
        z: i64,
        xv: i64,
        yv: i64,
        zv: i64,
        lifetime: i64,
        tex_id: usize,
        color: Rgb,
    ) -> (ok: bool)
        requires
            old(self).wf(),
            coord_ok(x as int),
            coord_ok(y as int),
            coord_ok(z as int),
            vel_ok(xv as int),
            vel_ok(yv as int),
            vel_ok(zv as int),
            0 <= lifetime <= MAX_LIFE,
        ensures
            final(self).wf(),
            final(self).spawn_ids@ == old(self).spawn_ids@,
            final(self).spawn_chance == old(self).spawn_chance,
            ({
                let i = first_free_at(old(self).slots(), old(self).search_cursor());
                if i < PMAX {
                    &&& ok
                    &&& final(self).slots() == old(self).slots().update(
                        i,
                        Particle {
                            active: true,
                            lifetime,
                            total_lifetime: lifetime,
                            xpos: x,
                            ypos: y,
                            zpos: z,
                            xvel: xv,
                            yvel: yv,
                            zvel: zv,
                            tex_id,
                            color,
                        },
                    )
                    &&& final(self).search_cursor() == i + 1
                    &&& final(self).high_water_mark() == if i + 1 > old(self).high_water_mark() {
                        i + 1
                    } else {
                        old(self).high_water_mark()
                    }
                } else {
                    &&& !ok
                    &&& final(self).slots() == old(self).slots()
                    &&& final(self).search_cursor() == old(self).search_cursor()
                    &&& final(self).high_water_mark() == old(self).high_water_mark()
                }
            }),
    {
        let ghost s0 = self.particles@;
        let mut i: usize = self.start_search_mark;
        while i < PMAX
            invariant
                old(self).wf(),
                coord_ok(x as int),
                coord_ok(y as int),
                coord_ok(z as int),
                vel_ok(xv as int),
                vel_ok(yv as int),
                vel_ok(zv as int),
                0 <= lifetime <= MAX_LIFE,
                self.start_search_mark <= i <= PMAX,
                self.particles@ == s0,
                s0 == old(self).particles@,
                self.start_search_mark == old(self).start_search_mark,
                self.last_particle_mark == old(self).last_particle_mark,
                self.spawn_ids@ == old(self).spawn_ids@,
                self.spawn_chance == old(self).spawn_chance,
                s0.len() == PMAX,
                first_free_at(s0, self.start_search_mark as int) == first_free_at(s0, i as int),
            decreases PMAX - i,
        {
            if !self.particles[i].active {
                proof {
                    assert(first_free_at(s0, i as int) == i as int);
                }
                let p = Particle {
                    active: true,
                    lifetime,
                    total_lifetime: lifetime,
                    xpos: x,
                    ypos: y,
                    zpos: z,
                    xvel: xv,
                    yvel: yv,
                    zvel: zv,
                    tex_id,
                    color,
                };
                self.particles[i] = p;
                if i + 1 > self.last_particle_mark {
                    self.last_particle_mark = i + 1;
                }
                self.start_search_mark = i + 1;
                proof {
                    assert(self.particles@ == s0.update(i as int, p));
                    assert forall|j: int| 0 <= j < PMAX implies particle_bounds_ok(
                        #[trigger] self.particles@[j],
                    ) by {
                        if j == i {
                            assert(self.particles@[j] == p);
                        } else {
                            assert(self.particles@[j] == s0[j]);
                        }
                    }
                }
                return true;
            }
            proof {
                assert(first_free_at(s0, i as int) == first_free_at(s0, i as int + 1));
            }
            i = i + 1;
        }
        false
    }

    /// Ages the window `[0, high_water_mark)` by `dt`: every active particle
    /// integrates its offset, loses lifetime, and dies when the lifetime runs
    /// out. The high-water mark shrinks to one past the last slot still
    /// active, and the search cursor shrinks to the first inactive slot of
    /// the window, so freed low slots are reclaimed by later allocations.
    pub fn drive(&mut self, dt: i64)
        requires
            old(self).wf(),
            dt_ok(dt as int),
        ensures
            final(self).wf(),
            final(self).spawn_ids@ == old(self).spawn_ids@,
            final(self).spawn_chance == old(self).spawn_chance,
            final(self).slots() == aged_window(
                old(self).slots(),
                old(self).high_water_mark(),
                dt as int,
            ),
            final(self).high_water_mark() == active_mark(
                final(self).slots(),
                old(self).high_water_mark(),
            ),
            final(self).search_cursor() == ({
                let ff = first_free_at(final(self).slots(), 0);
                if ff < old(self).search_cursor() {
                    ff
                } else {
                    old(self).search_cursor()
                }
            }),
    {
        let ghost s0 = self.particles@;
        let ghost hwm0 = self.last_particle_mark as int;
        let ghost cursor0 = self.start_search_mark as int;
        let ghost target = aged_window(s0, hwm0, dt as int);
        let hwm: usize = self.last_particle_mark;
        let mut new_mark: usize = 0;
        let mut i: usize = 0;
        while i < hwm
            invariant
                i <= hwm,
                hwm == hwm0,
                0 <= cursor0 <= hwm0 <= PMAX,
                dt_ok(dt as int),
                s0.len() == PMAX,
                self.particles@.len() == PMAX,
                self.last_particle_mark == hwm0,
                self.start_search_mark == cursor0,
                self.spawn_ids@ == old(self).spawn_ids@,
                self.spawn_chance == old(self).spawn_chance,
                target == aged_window(s0, hwm0, dt as int),
                forall|j: int| 0 <= j < i ==> self.particles@[j] == target[j],
                forall|j: int| i <= j < PMAX ==> self.particles@[j] == s0[j],
                forall|j: int| 0 <= j < PMAX ==> particle_bounds_ok(#[trigger] s0[j]),
                new_mark == active_mark(target, i as int),
            decreases hwm - i,
        {
            let ghost pre = self.particles@;
            proof {
                assert(self.particles@[i as int] == s0[i as int]);
                assert(particle_bounds_ok(s0[i as int]));
            }
            if self.particles[i].active {
                let p = self.particles[i];
                let nx = crate::num::advance(p.xpos, p.xvel, dt);
                let ny = crate::num::advance(p.ypos, p.yvel, dt);
                let nz = crate::num::advance(p.zpos, p.zvel, dt);
                let nlife = p.lifetime - dt;
                let q = Particle {
                    active: nlife >= 0,
                    lifetime: nlife,
                    xpos: nx,
                    ypos: ny,
                    zpos: nz,
                    ..p
                };
                self.particles[i] = q;
                if q.active {
                    new_mark = i + 1;
                }
            }
            proof {
                assert(self.particles@[i as int] == target[i as int]);
                assert(active_mark(target, i + 1) == if target[i as int].active {
                    i + 1
                } else {
                    active_mark(target, i as int)
                });
            }
            i = i + 1;
        }
        self.last_particle_mark = new_mark;
        proof {
            assert(self.particles@ =~= target);
            assert(forall|j: int| hwm0 <= j < PMAX ==> s0[j] == #[trigger] target[j]);
            lemma_active_mark_le(target, hwm0);
            lemma_active_mark_inactive(target, hwm0);
        }
        // Reclaim freed low slots: the cursor shrinks to the first inactive
        // slot, scanning no further than the old working set.
        let mut f: usize = 0;
        while f < PMAX && self.particles[f].active
            invariant
                f <= PMAX,
                self.particles@ == target,
                target.len() == PMAX,
                first_free_at(target, 0) == first_free_at(target, f as int),
                forall|j: int| 0 <= j < f ==> (#[trigger] target[j].active),
            decreases PMAX - f,
        {
            proof {
                assert(first_free_at(target, f as int) == first_free_at(target, f as int + 1));
            }
            f = f + 1;
        }
        proof {
            assert(first_free_at(target, 0) == f as int);
        }
        if f < self.start_search_mark {
            self.start_search_mark = f;
        }
        proof {
            let mark = self.last_particle_mark as int;
            lemma_active_mark_inactive(target, hwm0);
            if mark < hwm0 {
                lemma_first_free_le(target, hwm0, mark);
            }
        }
    }

    /// Deactivates everything below the high-water mark and resets both the
    /// cursor and the mark.
    pub fn clear(&mut self)
        requires
            old(self).wf(),
        ensures
            final(self).wf(),
            final(self).spawn_ids@ == old(self).spawn_ids@,
            final(self).spawn_chance == old(self).spawn_chance,
            final(self).slots() == Seq::new(
                PMAX as nat,
                |i: int| Particle { active: false, ..old(self).slots()[i] },
            ),
            final(self).search_cursor() == 0,
            final(self).high_water_mark() == 0,
    {
        let ghost s0 = self.particles@;
        let mut i: usize = 0;
        while i < PMAX
            invariant
                i <= PMAX,
                self.particles@.len() == PMAX,
                s0.len() == PMAX,
                self.start_search_mark == old(self).start_search_mark,
                self.last_particle_mark == old(self).last_particle_mark,
                self.spawn_ids@ == old(self).spawn_ids@,
                self.spawn_chance == old(self).spawn_chance,
                forall|j: int|
                    0 <= j < i ==> self.particles@[j] == (Particle { active: false, ..s0[j] }),
                forall|j: int| i <= j < PMAX ==> self.particles@[j] == s0[j],
                forall|j: int| 0 <= j < PMAX ==> particle_bounds_ok(#[trigger] s0[j]),
            decreases PMAX - i,
        {
            let p = Particle { active: false, ..self.particles[i] };
            self.particles[i] = p;
            i = i + 1;
        }
        self.start_search_mark = 0;
        self.last_particle_mark = 0;
        proof {
            assert(self.particles@ =~= Seq::new(
                PMAX as nat,
                |i: int| Particle { active: false, ..s0[i] },
            ));
        }
    }

    /// True while any slot below the high-water mark may still be active.
    pub fn has_particles(&self) -> (r: bool)
        ensures
            r == (self.high_water_mark() > 0),
    {
        self.last_particle_mark > 0
    }

    /// Read-only window bound for rendering traversals: slots at or past it
    /// are inactive.
    pub fn window(&self) -> (r: usize)
        ensures
            r == self.high_water_mark(),
    {
        self.last_particle_mark
    }

    /// One slot of the pool; a visitor must skip slots whose active flag is
    /// clear.
    pub fn particle(&self, i: usize) -> (r: &Particle)
        requires
            self.wf(),
            i < PMAX,
        ensures
            *r == self.slots()[i as int],
    {
        &self.particles[i]
    }
}

/// Aging a pool past every active lifetime empties it: when `dt` exceeds the
/// lifetime of every active slot of the window, the aged window has no active
/// slot left and the high-water mark computed over it is zero. Together with
/// `drive`'s contract: driving a pool by such a `dt` ends with
/// `high_water_mark == 0`, however many particles were allocated before.
pub proof fn lemma_pool_expire_all(s: Seq<Particle>, hwm: int, dt: int)
    requires
        0 <= hwm <= s.len(),
        forall|j: int| 0 <= j < hwm && (#[trigger] s[j].active) ==> s[j].lifetime < dt,
    ensures
        active_mark(aged_window(s, hwm, dt), hwm) == 0,
    decreases hwm,
{
    if hwm > 0 {
        let aged = aged_window(s, hwm, dt);
        assert(!aged[hwm - 1].active);
        lemma_pool_expire_all_helper(s, hwm, hwm - 1, dt);
    }
}

proof fn lemma_pool_expire_all_helper(s: Seq<Particle>, hwm: int, k: int, dt: int)
    requires
        0 <= k < hwm <= s.len(),
        forall|j: int| 0 <= j < hwm && (#[trigger] s[j].active) ==> s[j].lifetime < dt,
    ensures
        active_mark(aged_window(s, hwm, dt), k + 1) == 0,
    decreases k,
{
    let aged = aged_window(s, hwm, dt);
    assert(!aged[k].active);
    if k > 0 {
        lemma_pool_expire_all_helper(s, hwm, k - 1, dt);
    } else {
        assert(active_mark(aged, 0) == 0);
    }
}

/// A pool whose slots from the search cursor to capacity are all taken has no
/// free slot to find: by `add_particle`'s contract, the next allocation
/// returns false and leaves every slot, both marks and the spawn settings
/// unchanged — the stored particles are not corrupted.
pub proof fn lemma_pool_full_allocation_fails(p: ParticleDriver)
    requires
        p.wf(),
        forall|j: int| p.search_cursor() <= j < PMAX ==> (#[trigger] p.slots()[j].active),
    ensures
        first_free_at(p.slots(), p.search_cursor()) == PMAX,
{
    lemma_first_free_all_active(p.slots(), p.search_cursor());
}

proof fn lemma_first_free_all_active(s: Seq<Particle>, i: int)
    requires
        0 <= i <= s.len(),
        forall|j: int| i <= j < s.len() ==> (#[trigger] s[j].active),
    ensures
        first_free_at(s, i) == s.len(),
    decreases s.len() - i,
{
    if i < s.len() {
        lemma_first_free_all_active(s, i + 1);
    }
}

/// A fresh prefix-filled pool allocates at its cursor: when the first `c`
/// slots are the active ones and the cursor sits at `c`, the next allocation
/// takes slot `c` itself, so `c + 1` allocations from a fresh pool fill the
/// slots in order while `c < PMAX`.
pub proof fn lemma_pool_prefix_allocates_at_cursor(p: ParticleDriver)
    requires
        p.wf(),
        p.search_cursor() < PMAX,
        !p.slots()[p.search_cursor()].active,
    ensures
        first_free_at(p.slots(), p.search_cursor()) == p.search_cursor(),
{
}

/// The first-free search never lands before its start nor past the end,
/// and inside the pool it lands on an inactive slot.
pub proof fn lemma_first_free_at_ge(s: Seq<Particle>, i: int)
    requires
        0 <= i <= s.len(),
    ensures
        i <= first_free_at(s, i) <= s.len(),
        first_free_at(s, i) < s.len() ==> !s[first_free_at(s, i)].active,
    decreases s.len() - i,
{
    if i < s.len() && s[i].active {
        lemma_first_free_at_ge(s, i + 1);
    }
}

/// The active mark never exceeds the window it was computed over.
pub proof fn lemma_active_mark_le(s: Seq<Particle>, k: int)
    requires
        k >= 0,
    ensures
        0 <= active_mark(s, k) <= k,
    decreases k,
{
    if k > 0 {
        lemma_active_mark_le(s, k - 1);
    }
}

/// Every slot at or past the active mark, below the window bound, is
/// inactive.
pub proof fn lemma_active_mark_inactive(s: Seq<Particle>, k: int)
    requires
        k >= 0,
    ensures
        forall|j: int|
            active_mark(s, k) <= j < k && 0 <= j < s.len() ==> !(#[trigger] s[j].active),
    decreases k,
{
    if k > 0 {
        lemma_active_mark_inactive(s, k - 1);
    }
}

/// When the slots at and after the active mark are inactive through `k`, the
/// first free slot of the sequence is no later than the active mark, provided
/// the mark lies inside the sequence.
proof fn lemma_first_free_le(s: Seq<Particle>, k: int, m: int)
    requires
        0 <= m <= k <= s.len(),
        forall|j: int| m <= j < k && 0 <= j < s.len() ==> !(#[trigger] s[j].active),
    ensures
        m < k ==> first_free_at(s, 0) <= m,
{
    if m < k {
        lemma_first_free_step(s, 0, m);
    }
}

/// `first_free_at` from 0 never passes an inactive slot.
proof fn lemma_first_free_step(s: Seq<Particle>, i: int, m: int)
    requires
        0 <= i <= m < s.len(),
        !s[m].active,
    ensures
        first_free_at(s, i) <= m,
    decreases m - i,
{
    if i < m && s[i].active {
        lemma_first_free_step(s, i + 1, m);
    }
}

} // verus!
