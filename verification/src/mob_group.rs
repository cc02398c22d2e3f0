use vstd::prelude::*;

use crate::entity::{
    all_wf, contains_id, ids_below, ids_unique, orient_offset, MapObject, MapObjectFactory,
    MobType, MoveEndAction, UpdateAction,
};
use crate::geom::{dist2, vec2_coord_ok, Vec2};
use crate::map::{
    clamp_coord_exec, fire_projectile, first_index_of, lemma_store_update_keeps, move_mob,
    move_mob_applied, GameMap, PROJECTILE_TILESET,
};
use crate::num::{clamp_coord, dt_ok, scaled_toward, sqrt_floor, MAX_LIFE};
use crate::rng::rng_below;

verus! {

/// One autonomous group member: the entity it steers, the time until its
/// next action, and whether it roams at all.
#[derive(PartialEq, Eq, Structural, Debug, Clone, Copy)]
pub struct MobGroupMember {
    pub id: u64,
    /// Milliseconds until the member acts again.
    pub action_countdown: i64,
    pub mobile: bool,
}

/// A named set of creatures sharing a center point; each member schedules
/// its own moves and shots independently, and members whose entity has
/// vanished from the store are pruned lazily on the next update.
pub struct MobGroup {
    pub center: Vec2,
    pub members: Vec<MobGroupMember>,
}

/// The id sequence of a member list.
pub open spec fn member_ids(s: Seq<MobGroupMember>) -> Seq<u64> {
    s.map_values(|m: MobGroupMember| m.id)
}

impl MobGroup {
    pub open spec fn wf(&self) -> bool {
        &&& vec2_coord_ok(self.center)
        &&& forall|i: int|
            0 <= i < self.members@.len() ==> -MAX_LIFE <= (#[trigger] self.members@[i]).action_countdown
                <= MAX_LIFE
    }

    /// Every member id lies below the factory bound, so a freshly allocated
    /// entity id never matches a member.
    pub open spec fn ids_bounded(&self, bound: int) -> bool {
        forall|i: int| 0 <= i < self.members@.len() ==> (#[trigger] self.members@[i]).id < bound
    }

    /// Forms a group of the given entity ids around `center`; each member
    /// starts with a short randomized countdown so the group does not act in
    /// lockstep.
    pub fn new(mobs: Vec<u64>, center: Vec2, mobile: bool, rng: &mut rand::rngs::StdRng) -> (r:
        MobGroup)
        requires
            vec2_coord_ok(center),
        ensures
            r.wf(),
            r.center == center,
            member_ids(r.members@) == mobs@,
            forall|i: int| 0 <= i < r.members@.len() ==> (#[trigger] r.members@[i]).mobile == mobile,
            forall|i: int|
                0 <= i < r.members@.len() ==> 100 <= (#[trigger] r.members@[i]).action_countdown
                    < 1100,
    {
        let mut members: Vec<MobGroupMember> = Vec::new();
        let mut i: usize = 0;
        while i < mobs.len()
            invariant
                i <= mobs@.len(),
                members@.len() == i,
                forall|j: int| 0 <= j < i ==> (#[trigger] members@[j]).id == mobs@[j],
                forall|j: int| 0 <= j < i ==> (#[trigger] members@[j]).mobile == mobile,
                forall|j: int|
                    0 <= j < i ==> 100 <= (#[trigger] members@[j]).action_countdown < 1100,
            decreases mobs@.len() - i,
        {
            let jitter = rng_below(rng, 1000);
            members.push(
                MobGroupMember { id: mobs[i], action_countdown: 100 + jitter as i64, mobile },
            );
            i = i + 1;
        }
        proof {
            assert(member_ids(members@) =~= mobs@);
        }
        MobGroup { center, members }
    }

    /// One scheduler pass: each member loses `dt` of countdown; a member
    /// whose countdown ran out either fires a projectile at the player's
    /// current position (about a quarter of the time) or, if mobile, starts
    /// a move to a random point held near the group center by a soft leash.
    /// Members whose entity id has vanished from the store are pruned, in
    /// order, without touching anything else; the store only gains fresh
    /// projectile entities and keeps every entity it had, in place.
    pub fn update(
        &mut self,
        player_id: u64,
        dt: i64,
        mobs: &mut Vec<MapObject>,
        rng: &mut rand::rngs::StdRng,
        factory: &mut MapObjectFactory,
    )
        requires
            old(self).wf(),
            old(self).ids_bounded(old(factory).next_id as int),
            dt_ok(dt as int),
            all_wf(old(mobs)@),
            ids_unique(old(mobs)@),
            ids_below(old(mobs)@, old(factory).next_id as int),
            contains_id(old(mobs)@, player_id),
            old(factory).next_id + old(self).members@.len() < u64::MAX,
        ensures
            final(self).wf(),
            final(self).center == old(self).center,
            final(self).ids_bounded(final(factory).next_id as int),
            old(factory).next_id <= final(factory).next_id <= old(factory).next_id + old(
                self,
            ).members@.len(),
            member_ids(final(self).members@) == pruned_ids(old(self).members@, old(mobs)@),
            members_evolve(old(self).members@, final(self).members@, old(mobs)@, dt as int),
            all_wf(final(mobs)@),
            ids_unique(final(mobs)@),
            ids_below(final(mobs)@, final(factory).next_id as int),
            final(mobs)@.len() >= old(mobs)@.len(),
            forall|i: int|
                0 <= i < old(mobs)@.len() ==> (#[trigger] final(mobs)@[i]).uid == old(mobs)@[i].uid
                    && final(mobs)@[i].attributes == old(mobs)@[i].attributes
                    && final(mobs)@[i].position == old(mobs)@[i].position
                    && final(mobs)@[i].move_end_action == old(mobs)@[i].move_end_action
                    && final(mobs)@[i].update_action == old(mobs)@[i].update_action,
            forall|i: int|
                0 <= i < old(mobs)@.len() && !expiring_member_for(
                    old(self).members@,
                    (#[trigger] old(mobs)@[i]).uid,
                    dt as int,
                ) ==> final(mobs)@[i] == old(mobs)@[i],
            forall|i: int|
                0 <= i < old(mobs)@.len() ==> (#[trigger] final(mobs)@[i]) == old(mobs)@[i]
                    || group_moved(old(mobs)@[i], final(mobs)@[i], old(self).center),
            forall|i: int|
                old(mobs)@.len() <= i < final(mobs)@.len() ==> (#[trigger] final(mobs)@[i]).uid
                    >= old(factory).next_id && (exists|s: int|
                    0 <= s < old(mobs)@.len() && creature_projectile_toward(
                        final(mobs)@[i],
                        (#[trigger] old(mobs)@[s]).position,
                        old(mobs)@[first_index_of(old(mobs)@, player_id)].position,
                    )),
            contains_id(final(mobs)@, player_id),
    {
        let ghost mobs0 = mobs@;
        let ghost next0 = factory.next_id;
        let player_position = match GameMap::find_index(mobs, player_id) {
            Some(i) => {
                proof {
                    assert(all_wf(mobs@));
                    assert(mobs@[i as int].wf());
                    crate::map::lemma_first_index_agrees_pub(mobs@, player_id, i as int);
                }
                mobs[i].position
            },
            None => {
                proof {
                    assert(false);
                }
                Vec2 { x: 0, y: 0 }
            },
        };
        let leash_center = self.center;
        let mut new_members: Vec<MobGroupMember> = Vec::new();
        let mut k: usize = 0;
        while k < self.members.len()
            invariant
                k <= self.members@.len(),
                self.members@ == old(self).members@,
                self.center == old(self).center,
                old(self).wf(),
                leash_center == old(self).center,
                vec2_coord_ok(player_position),
                dt_ok(dt as int),
                mobs0 == old(mobs)@,
                next0 == old(factory).next_id,
                old(self).ids_bounded(next0 as int),
                ids_below(mobs0, next0 as int),
                contains_id(mobs0, player_id),
                next0 + old(self).members@.len() < u64::MAX,
                next0 <= factory.next_id <= next0 + k,
                all_wf(mobs@),
                ids_unique(mobs@),
                ids_below(mobs@, factory.next_id as int),
                mobs@.len() >= mobs0.len(),
                forall|i: int|
                    0 <= i < mobs0.len() ==> (#[trigger] mobs@[i]).uid == mobs0[i].uid
                        && mobs@[i].attributes == mobs0[i].attributes
                        && mobs@[i].position == mobs0[i].position
                        && mobs@[i].move_end_action == mobs0[i].move_end_action
                        && mobs@[i].update_action == mobs0[i].update_action,
                forall|i: int|
                    0 <= i < mobs0.len() && !expiring_member_for(
                        old(self).members@,
                        (#[trigger] mobs0[i]).uid,
                        dt as int,
                    ) ==> mobs@[i] == mobs0[i],
                forall|i: int|
                    0 <= i < mobs0.len() ==> (#[trigger] mobs@[i]) == mobs0[i] || group_moved(
                        mobs0[i],
                        mobs@[i],
                        old(self).center,
                    ),
                forall|i: int|
                    mobs0.len() <= i < mobs@.len() ==> (#[trigger] mobs@[i]).uid >= next0 && (
                    exists|s: int|
                        0 <= s < mobs0.len() && creature_projectile_toward(
                            mobs@[i],
                            (#[trigger] mobs0[s]).position,
                            mobs0[first_index_of(mobs0, player_id)].position,
                        )),
                player_position == mobs0[first_index_of(mobs0, player_id)].position,
                member_ids(new_members@) == pruned_ids(old(self).members@.take(k as int), mobs0),
                members_evolve(old(self).members@.take(k as int), new_members@, mobs0, dt as int),
                forall|i: int|
                    0 <= i < new_members@.len() ==> -MAX_LIFE <= (
                    #[trigger] new_members@[i]).action_countdown <= MAX_LIFE,
                forall|i: int|
                    0 <= i < new_members@.len() ==> (#[trigger] new_members@[i]).id
                        < factory.next_id,
            decreases self.members@.len() - k,
        {
            let m = self.members[k];
            proof {
                assert(old(self).members@.take(k + 1).drop_last() =~= old(self).members@.take(
                    k as int,
                ));
                assert(old(self).members@.take(k + 1).last() == old(self).members@[k as int]);
            }
            match GameMap::find_index(mobs, m.id) {
                None => {
                    proof {
                        if contains_id(mobs0, m.id) {
                            let w = choose|w: int|
                                0 <= w < mobs0.len() && (#[trigger] mobs0[w]).uid == m.id;
                            assert(mobs@[w].uid == m.id);
                            assert(contains_id(mobs@, m.id));
                        }
                        assert(!contains_id(mobs0, m.id));
                        assert(member_ids(new_members@) =~= pruned_ids(
                            old(self).members@.take(k + 1),
                            mobs0,
                        ));
                        assert(members_evolve(
                            old(self).members@.take(k + 1),
                            new_members@,
                            mobs0,
                            dt as int,
                        ));
                    }
                },
                Some(idx) => {
                    proof {
                        assert(mobs@[idx as int].uid == m.id);
                        assert(m.id < next0);
                        if idx >= mobs0.len() {
                            assert(mobs@[idx as int].uid >= next0);
                            assert(false);
                        }
                        assert(mobs0[idx as int].uid == m.id);
                        assert(contains_id(mobs0, m.id));
                    }
                    let mut member = m;
                    member.action_countdown = if m.action_countdown - dt >= -MAX_LIFE {
                        m.action_countdown - dt
                    } else {
                        -MAX_LIFE
                    };
                    if member.action_countdown < 0 {
                        let roll = rng_below(rng, 1000);
                        if roll < 250 {
                            let shooter_position = mobs[idx].position;
                            proof {
                                assert(mobs@[idx as int].wf());
                            }
                            let projectile = fire_projectile(
                                shooter_position,
                                player_position,
                                200,
                                MobType::CreatureProjectile,
                                factory,
                            );
                            mobs.push(projectile);
                            member.action_countdown = 1000 + rng_below(rng, 1000) as i64;
                        } else if member.mobile {
                            let pos = mobs[idx].position;
                            proof {
                                assert(mobs@[idx as int].wf());
                            }
                            let mut tx: i64 = 0;
                            let mut ty: i64 = 0;
                            let mut ok = false;
                            let mut t: usize = 0;
                            while t < 5 && !ok
                                invariant
                                    t <= 5,
                                    vec2_coord_ok(pos),
                                    vec2_coord_ok(leash_center),
                                    t > 0 ==> box_point(pos, Vec2 { x: tx, y: ty }, 100_000),
                                    ok ==> t > 0,
                                decreases 5 - t,
                            {
                                let r1 = rng_below(rng, 200_001) as i64;
                                let r2 = rng_below(rng, 200_001) as i64;
                                tx = clamp_coord_exec(pos.x + 100_000 - r1);
                                ty = clamp_coord_exec(pos.y + 100_000 - r2);
                                proof {
                                    assert(tx as int == clamp_coord(
                                        pos.x + (100_000 - r1 as int),
                                    ));
                                    assert(ty as int == clamp_coord(
                                        pos.y + (100_000 - r2 as int),
                                    ));
                                    assert(box_point(pos, Vec2 { x: tx, y: ty }, 100_000));
                                }
                                let candidate = Vec2 { x: tx, y: ty };
                                proof {
                                    assert(vec2_coord_ok(candidate));
                                }
                                if candidate.dist2(&leash_center) < 10_000_000_000i128 {
                                    ok = true;
                                }
                                t = t + 1;
                            }
                            if !ok {
                                let r1 = rng_below(rng, 100_001) as i64;
                                let r2 = rng_below(rng, 100_001) as i64;
                                tx = clamp_coord_exec(leash_center.x + 50_000 - r1);
                                ty = clamp_coord_exec(leash_center.y + 50_000 - r2);
                                proof {
                                    assert(tx as int == clamp_coord(
                                        leash_center.x + (50_000 - r1 as int),
                                    ));
                                    assert(ty as int == clamp_coord(
                                        leash_center.y + (50_000 - r2 as int),
                                    ));
                                    assert(box_point(leash_center, Vec2 { x: tx, y: ty }, 50_000));
                                }
                            }
                            let destination = Vec2 { x: tx, y: ty };
                            proof {
                                assert(group_move_target_ok(pos, leash_center, destination));
                            }
                            let speed = mobs[idx].attributes.base_speed;
                            let ghost pre = mobs@;
                            move_mob(&mut mobs[idx], destination, speed);
                            proof {
                                assert(mobs@ =~= pre.update(
                                    idx as int,
                                    mobs@[idx as int],
                                ));
                                assert(mobs@[idx as int].uid == pre[idx as int].uid);
                                lemma_store_update_keeps(
                                    pre,
                                    idx as int,
                                    mobs@[idx as int],
                                    factory.next_id as int,
                                );
                                let before = pre[idx as int];
                                let orig = mobs0[idx as int];
                                assert(before.position == orig.position);
                                assert(before.attributes == orig.attributes);
                                assert(mobs@[idx as int] == move_mob_applied(
                                    before,
                                    destination,
                                    speed,
                                ));
                                if before == orig {
                                    assert(group_moved(orig, mobs@[idx as int], old(self).center));
                                } else {
                                    // this entity was steered once already: a
                                    // re-issued move overwrites exactly the
                                    // fields the first one set
                                    assert(group_moved(orig, before, old(self).center));
                                    let d0 = choose|d0: Vec2|
                                        #[trigger] group_move_target_ok(
                                            orig.position,
                                            old(self).center,
                                            d0,
                                        ) && before == move_mob_applied(
                                            orig,
                                            d0,
                                            orig.attributes.base_speed,
                                        );
                                    assert(before.visual.frames == orig.visual.frames);
                                    assert(move_mob_applied(before, destination, speed)
                                        == move_mob_applied(orig, destination, speed));
                                    assert(group_moved(orig, mobs@[idx as int], old(self).center));
                                }
                            }
                            member.action_countdown = 3000 + rng_below(rng, 2000) as i64;
                        }
                    }
                    proof {
                        assert(member_step_ok(m, member, dt as int));
                    }
                    let ghost news0 = new_members@;
                    new_members.push(member);
                    proof {
                        assert(new_members@.drop_last() =~= news0);
                        assert(new_members@.last() == member);
                        assert(member_ids(new_members@) =~= member_ids(
                            new_members@.drop_last(),
                        ).push(member.id));
                        assert(member_ids(new_members@) =~= pruned_ids(
                            old(self).members@.take(k + 1),
                            mobs0,
                        ));
                        assert(members_evolve(
                            old(self).members@.take(k + 1),
                            new_members@,
                            mobs0,
                            dt as int,
                        ));
                    }
                },
            }
            k = k + 1;
        }
        proof {
            assert(old(self).members@.take(old(self).members@.len() as int) =~= old(
                self,
            ).members@);
        }
        self.members = new_members;
        proof {
            if contains_id(mobs0, player_id) {
                let w = choose|w: int| 0 <= w < mobs0.len() && (#[trigger] mobs0[w]).uid == player_id;
                assert(mobs@[w].uid == player_id);
            }
        }
    }
}

/// Total member count over a list of groups.
pub open spec fn total_members(gs: Seq<MobGroup>) -> int
    decreases gs.len(),
{
    if gs.len() == 0 {
        0
    } else {
        gs.last().members@.len() + total_members(gs.drop_last())
    }
}

/// A countdown decrement, saturating at the lowest stored value.
pub open spec fn sat_countdown(c: int) -> int {
    if c >= -MAX_LIFE {
        c
    } else {
        -MAX_LIFE as int
    }
}

/// How one surviving member evolves in one scheduler pass: id and mobility
/// are fixed; a countdown that does not run out just loses `dt`; one that
/// runs out either keeps its saturated remainder (no action drawn), or is
/// reset into [1000, 2000) milliseconds by firing, or into [3000, 5000) by
/// starting a move.
pub open spec fn member_step_ok(old_m: MobGroupMember, new_m: MobGroupMember, dt: int) -> bool {
    &&& new_m.id == old_m.id
    &&& new_m.mobile == old_m.mobile
    &&& if old_m.action_countdown - dt >= 0 {
        new_m.action_countdown == old_m.action_countdown - dt
    } else {
        ||| new_m.action_countdown == sat_countdown(old_m.action_countdown - dt)
        ||| 1000 <= new_m.action_countdown < 2000
        ||| 3000 <= new_m.action_countdown < 5000
    }
}

/// The new member list is exactly the old one with vanished members pruned,
/// in order, and each survivor evolved by one step.
pub open spec fn members_evolve(
    olds: Seq<MobGroupMember>,
    news: Seq<MobGroupMember>,
    mobs: Seq<MapObject>,
    dt: int,
) -> bool
    decreases olds.len(),
{
    if olds.len() == 0 {
        news.len() == 0
    } else if contains_id(mobs, olds.last().id) {
        &&& news.len() > 0
        &&& member_step_ok(olds.last(), news.last(), dt)
        &&& members_evolve(olds.drop_last(), news.drop_last(), mobs, dt)
    } else {
        members_evolve(olds.drop_last(), news, mobs, dt)
    }
}

/// A destination drawn around `base`: each axis offset by at most `r` and
/// clamped to the world box.
pub open spec fn box_point(base: Vec2, dest: Vec2, r: int) -> bool {
    exists|jx: int, jy: int|
        -r <= jx <= r && -r <= jy <= r && dest.x == #[trigger] clamp_coord(base.x + jx) && dest.y
            == #[trigger] clamp_coord(base.y + jy)
}

/// A roam destination the scheduler may pick for an entity: a point in the
/// 200-by-200-unit box around the entity itself, or the fallback within 50
/// units per axis of the group center when the leash retries ran out.
pub open spec fn group_move_target_ok(pos: Vec2, center: Vec2, dest: Vec2) -> bool {
    box_point(pos, dest, 100_000) || box_point(center, dest, 50_000)
}

/// The entity of an expiring mobile member after its roam move was issued:
/// exactly a `move_mob` toward an allowed destination at the entity's own
/// base speed.
pub open spec fn group_moved(before: MapObject, after: MapObject, center: Vec2) -> bool {
    exists|dest: Vec2|
        #[trigger] group_move_target_ok(before.position, center, dest) && after
            == move_mob_applied(before, dest, before.attributes.base_speed)
}

/// Some member steering this entity id has its countdown running out this
/// pass; only such an entity can be touched by the scheduler.
pub open spec fn expiring_member_for(ms: Seq<MobGroupMember>, id: u64, dt: int) -> bool {
    exists|t: int|
        0 <= t < ms.len() && (#[trigger] ms[t]).id == id && ms[t].action_countdown - dt < 0
}

/// What the scheduler inserts and nothing else: a factory-built creature
/// projectile flying from `from` toward `at`, exactly as `fire_projectile`
/// builds it.
pub open spec fn creature_projectile_toward(e: MapObject, from: Vec2, at: Vec2) -> bool {
    &&& e.attributes.mob_type == MobType::CreatureProjectile
    &&& e.move_time_left == 2000
    &&& e.move_end_action == MoveEndAction::RemoveFromMap
    &&& e.update_action == UpdateAction::NoAction
    &&& e.visual.tileset_id == PROJECTILE_TILESET
    &&& ({
        let dx = at.x - from.x;
        let dy = at.y - from.y;
        let dist = sqrt_floor(dx * dx + dy * dy);
        &&& e.visual.current_image_id == 1 + orient_offset(dx as int, dy as int, 8)
        &&& if dist == 0 {
            e.velocity == (Vec2 { x: 0i64, y: 0i64 }) && e.position == from
        } else {
            e.velocity == (Vec2 {
                x: scaled_toward(dx as int, 200, dist) as i64,
                y: scaled_toward(dy as int, 200, dist) as i64,
            }) && e.position == (Vec2 {
                x: clamp_coord(from.x + scaled_toward(dx as int, 80_000, dist)) as i64,
                y: clamp_coord(from.y + scaled_toward(dy as int, 80_000, dist)) as i64,
            })
        }
    })
}

/// Surviving members carry ids the old list already had, and there are no
/// more of them than before.
pub proof fn lemma_evolve_shrinks(
    olds: Seq<MobGroupMember>,
    news: Seq<MobGroupMember>,
    mobs: Seq<MapObject>,
    dt: int,
)
    requires
        members_evolve(olds, news, mobs, dt),
    ensures
        news.len() <= olds.len(),
        forall|j: int|
            0 <= j < news.len() ==> exists|t: int|
                0 <= t < olds.len() && (#[trigger] news[j]).id == olds[t].id,
    decreases olds.len(),
{
    if olds.len() > 0 {
        if contains_id(mobs, olds.last().id) {
            lemma_evolve_shrinks(olds.drop_last(), news.drop_last(), mobs, dt);
            assert forall|j: int| 0 <= j < news.len() implies exists|t: int|
                0 <= t < olds.len() && (#[trigger] news[j]).id == olds[t].id by {
                if j < news.len() - 1 {
                    assert(news.drop_last()[j] == news[j]);
                    let t = choose|t: int|
                        0 <= t < olds.drop_last().len() && (#[trigger] news.drop_last()[j]).id
                            == olds.drop_last()[t].id;
                    assert(olds[t].id == news[j].id);
                } else {
                    assert(news[j].id == olds[olds.len() - 1].id);
                }
            }
        } else {
            lemma_evolve_shrinks(olds.drop_last(), news, mobs, dt);
            assert forall|j: int| 0 <= j < news.len() implies exists|t: int|
                0 <= t < olds.len() && (#[trigger] news[j]).id == olds[t].id by {
                let t = choose|t: int|
                    0 <= t < olds.drop_last().len() && (#[trigger] news[j]).id
                        == olds.drop_last()[t].id;
                assert(olds[t].id == news[j].id);
            }
        }
    }
}

/// Replacing one group changes the total by exactly its member-count
/// difference.
pub proof fn lemma_total_members_update(gs: Seq<MobGroup>, g: int, x: MobGroup)
    requires
        0 <= g < gs.len(),
    ensures
        total_members(gs.update(g, x)) == total_members(gs) - gs[g].members@.len()
            + x.members@.len(),
    decreases gs.len(),
{
    let t = gs.update(g, x);
    if g == gs.len() - 1 {
        assert(t.drop_last() =~= gs.drop_last());
        assert(t.last() == x);
    } else {
        assert(t.drop_last() =~= gs.drop_last().update(g, x));
        assert(t.last() == gs.last());
        lemma_total_members_update(gs.drop_last(), g, x);
    }
}

/// Prefix counts of the member total: each prefix is bounded by the whole,
/// and one more group adds exactly its member count.
pub proof fn lemma_total_members_prefix(gs: Seq<MobGroup>, g: int)
    requires
        0 <= g <= gs.len(),
    ensures
        0 <= total_members(gs.take(g)) <= total_members(gs),
        g < gs.len() ==> total_members(gs.take(g + 1)) == total_members(gs.take(g))
            + gs[g].members@.len(),
    decreases gs.len(),
{
    lemma_total_members_nonneg(gs.take(g));
    lemma_total_members_le(gs, g);
    if g < gs.len() {
        assert(gs.take(g + 1).drop_last() =~= gs.take(g));
        assert(gs.take(g + 1).last() == gs[g]);
    }
}

proof fn lemma_total_members_nonneg(gs: Seq<MobGroup>)
    ensures
        total_members(gs) >= 0,
    decreases gs.len(),
{
    if gs.len() > 0 {
        lemma_total_members_nonneg(gs.drop_last());
    }
}

proof fn lemma_total_members_le(gs: Seq<MobGroup>, g: int)
    requires
        0 <= g <= gs.len(),
    ensures
        total_members(gs.take(g)) <= total_members(gs),
    decreases gs.len() - g,
{
    if g < gs.len() {
        assert(gs.take(g + 1).drop_last() =~= gs.take(g));
        assert(gs.take(g + 1).last() == gs[g]);
        lemma_total_members_le(gs, g + 1);
    } else {
        assert(gs.take(g) =~= gs);
    }
}

/// The ids of the members that survive a pass against the given store: the
/// member list filtered, in order, to those whose entity id is present.
pub open spec fn pruned_ids(members: Seq<MobGroupMember>, mobs: Seq<MapObject>) -> Seq<u64>
    decreases members.len(),
{
    if members.len() == 0 {
        Seq::empty()
    } else {
        let rest = pruned_ids(members.drop_last(), mobs);
        if contains_id(mobs, members.last().id) {
            rest.push(members.last().id)
        } else {
            rest
        }
    }
}

} // verus!
