use tiny_places_core::entity::{MapObject, MapObjectFactory, MobType, MoveEndAction, UpdateAction};
use tiny_places_core::geom::Vec2;
use tiny_places_core::map::{GameMap, MAP_OBJECT_LAYER};
use tiny_places_core::mob_group::MobGroup;
use tiny_places_core::rng::rng_from_seed;
use tiny_places_core::sound::Sound;

fn fresh_map() -> GameMap {
    GameMap::new(b"test map", b"ground.png", b"backdrop.png")
}

fn make_mob(factory: &mut MapObjectFactory, x: i64, y: i64) -> MapObject {
    factory.create_mob(10, 1, Vec2 { x, y }, 10_000, 1000)
}

#[test]
fn zero_velocity_keeps_position() {
    // An entity with zero velocity must not drift, however many ticks pass.
    let mut factory = MapObjectFactory { next_id: 1 };
    let mut mob = make_mob(&mut factory, 500_000, 600_000);
    mob.move_time_left = 5_000;
    for _ in 0..100 {
        mob.move_dt(16);
    }
    assert_eq!(mob.position, Vec2 { x: 500_000, y: 600_000 });
}

#[test]
fn motion_integrates_exactly_over_split_deltas() {
    // Splitting a move of T milliseconds into deltas summing to T lands the
    // entity exactly at initial + velocity * T.
    let mut factory = MapObjectFactory { next_id: 1 };
    let mut mob = make_mob(&mut factory, 100_000, 200_000);
    mob.velocity = Vec2 { x: 150, y: -50 };
    mob.move_time_left = 1000;
    let deltas = [100i64, 250, 400, 150, 100];
    let mut crossings = 0;
    for dt in deltas {
        let before = mob.move_time_left;
        mob.move_dt(dt);
        if before > 0 && mob.move_time_left <= 0 {
            crossings += 1;
        }
    }
    assert_eq!(mob.position, Vec2 { x: 100_000 + 150 * 1000, y: 200_000 - 50 * 1000 });
    assert_eq!(mob.move_time_left, 0);
    assert_eq!(crossings, 1);
}

#[test]
fn find_nearest_none_outside_radius() {
    let mut map = fresh_map();
    let mob = map.factory.create_mob(7, 1, Vec2 { x: 2_000_000, y: 1_000_000 }, 10_000, 1000);
    map.layers[MAP_OBJECT_LAYER].push(mob);
    // Nearest candidate is one million milli-units away; the radius is less.
    let r = map.find_nearest_object(
        MAP_OBJECT_LAYER,
        &Vec2 { x: 1_000_000, y: 1_000_000 },
        999_999,
        map.player_id,
    );
    assert_eq!(r, None);
}

#[test]
fn find_nearest_unique_candidate() {
    let mut map = fresh_map();
    let mob = map.factory.create_mob(7, 1, Vec2 { x: 1_050_000, y: 1_000_000 }, 10_000, 1000);
    let expected = mob.uid;
    map.layers[MAP_OBJECT_LAYER].push(mob);
    let far = map.factory.create_mob(8, 1, Vec2 { x: 3_000_000, y: 3_000_000 }, 10_000, 1000);
    map.layers[MAP_OBJECT_LAYER].push(far);
    let r = map.find_nearest_object(
        MAP_OBJECT_LAYER,
        &Vec2 { x: 1_000_000, y: 1_000_000 },
        100_000,
        map.player_id,
    );
    assert_eq!(r, Some(expected));
}

#[test]
fn mob_group_prunes_vanished_member() {
    // A member whose entity id is no longer in the store must be dropped on
    // the next update, without panicking, while live members stay.
    let mut rng = rng_from_seed(7);
    let mut factory = MapObjectFactory { next_id: 1 };
    let mut mobs: Vec<MapObject> = Vec::new();
    let player = {
        let mut p = make_mob(&mut factory, 1_000_000, 1_000_000);
        p.attributes.mob_type = MobType::Player;
        p
    };
    let player_id = player.uid;
    mobs.push(player);
    let keeper = make_mob(&mut factory, 1_100_000, 1_000_000);
    let keeper_id = keeper.uid;
    mobs.push(keeper);
    let vanished = make_mob(&mut factory, 1_200_000, 1_000_000);
    let vanished_id = vanished.uid;
    drop(vanished);
    let mut group = MobGroup::new(
        vec![keeper_id, vanished_id],
        Vec2 { x: 1_150_000, y: 1_000_000 },
        true,
        &mut rng,
    );
    assert_eq!(group.members.len(), 2);
    group.update(player_id, 16, &mut mobs, &mut rng, &mut factory);
    assert_eq!(group.members.len(), 1);
    assert_eq!(group.members[0].id, keeper_id);
}

#[test]
fn projectile_kinds_respect_friendly_fire() {
    // A creature projectile sitting on top of a creature never hurts it; a
    // player projectile does.
    let mut rng = rng_from_seed(99);
    let mut map = fresh_map();
    let mut creature = map.factory.create_mob(41, 1, Vec2 { x: 500_000, y: 500_000 }, 32_000, 500);
    creature.attributes.mob_type = MobType::Creature;
    creature.attributes.hit_points = 1;
    let creature_id = creature.uid;
    map.layers[MAP_OBJECT_LAYER].push(creature);
    let mut cproj = map.factory.create_mob(1, 5, Vec2 { x: 510_000, y: 500_000 }, 12_000, 500);
    cproj.attributes.mob_type = MobType::CreatureProjectile;
    map.layers[MAP_OBJECT_LAYER].push(cproj);
    let sounds = map.update(16, &mut rng);
    assert!(sounds.is_empty());
    let idx = map.layers[MAP_OBJECT_LAYER]
        .iter()
        .position(|m| m.uid == creature_id)
        .expect("creature must survive a friendly projectile");
    assert_eq!(map.layers[MAP_OBJECT_LAYER][idx].attributes.hit_points, 1);

    let mut pproj = map.factory.create_mob(1, 5, Vec2 { x: 495_000, y: 500_000 }, 12_000, 500);
    pproj.attributes.mob_type = MobType::PlayerProjectile;
    let pproj_id = pproj.uid;
    map.layers[MAP_OBJECT_LAYER].push(pproj);
    let sounds = map.update(16, &mut rng);
    assert_eq!(sounds, vec![Sound::FireballHit]);
    let idx = map.layers[MAP_OBJECT_LAYER]
        .iter()
        .position(|m| m.uid == creature_id)
        .expect("the struck creature is removed later, by its removal animation");
    assert!(map.layers[MAP_OBJECT_LAYER][idx].attributes.hit_points <= 0);
    assert!(!map.layers[MAP_OBJECT_LAYER].iter().any(|m| m.uid == pproj_id));
}

#[test]
fn player_projectile_never_hits_player() {
    // A player projectile right next to the player leaves the player alone.
    let mut rng = rng_from_seed(3);
    let mut map = fresh_map();
    let mut pproj = map.factory.create_mob(1, 5, Vec2 { x: 1_010_000, y: 1_000_000 }, 12_000, 500);
    pproj.attributes.mob_type = MobType::PlayerProjectile;
    map.layers[MAP_OBJECT_LAYER].push(pproj);
    let sounds = map.update(16, &mut rng);
    assert!(sounds.is_empty());
    assert!(map.layers[MAP_OBJECT_LAYER].iter().any(|m| m.uid == map.player_id));
}

#[test]
fn move_end_action_removes_projectile() {
    let mut rng = rng_from_seed(5);
    let mut map = fresh_map();
    let mut proj = map.factory.create_mob(1, 5, Vec2 { x: 1_500_000, y: 1_500_000 }, 12_000, 500);
    proj.attributes.mob_type = MobType::MapObject;
    proj.velocity = Vec2 { x: 200, y: 0 };
    proj.move_time_left = 50;
    proj.move_end_action = MoveEndAction::RemoveFromMap;
    let proj_id = proj.uid;
    map.layers[MAP_OBJECT_LAYER].push(proj);
    let _ = map.update(16, &mut rng);
    assert!(map.layers[MAP_OBJECT_LAYER].iter().any(|m| m.uid == proj_id));
    let _ = map.update(16, &mut rng);
    let _ = map.update(16, &mut rng);
    let _ = map.update(16, &mut rng);
    assert!(!map.layers[MAP_OBJECT_LAYER].iter().any(|m| m.uid == proj_id));
}

#[test]
fn update_action_removal_is_deferred_but_applied() {
    let mut rng = rng_from_seed(5);
    let mut map = fresh_map();
    let mut decoration = map.factory.create_mob(9, 1, Vec2 { x: 900_000, y: 900_000 }, 8_000, 1000);
    decoration.update_action = UpdateAction::RemoveFromMap;
    let id = decoration.uid;
    map.layers[MAP_OBJECT_LAYER].push(decoration);
    let _ = map.update(16, &mut rng);
    assert!(!map.layers[MAP_OBJECT_LAYER].iter().any(|m| m.uid == id));
}

#[test]
fn end_to_end_run_is_reproducible() {
    // Two runs with the same seed and delta sequence produce bit-for-bit the
    // same persisted state; the player id survives a map transition.
    let run = || {
        let mut rng = rng_from_seed(2024);
        let mut map = fresh_map();
        map.populate(&mut rng);
        assert!(map.mob_groups.len() == 1);
        let n = map.mob_groups[0].members.len();
        assert!((5..=9).contains(&n));
        for _ in 0..600 {
            let _ = map.update(16, &mut rng);
        }
        let saved = map.save();
        tiny_places_core::mapfile::serialize_map(&saved)
    };
    let a = run();
    let b = run();
    assert_eq!(a, b);
}

#[test]
fn player_id_survives_map_transition() {
    let mut rng = rng_from_seed(11);
    let mut map = fresh_map();
    map.populate(&mut rng);
    let player_before = map.player_id;
    for _ in 0..60 {
        let _ = map.update(16, &mut rng);
    }
    // A scripted transition: reload the map from its own saved state.
    let data = map.save();
    map.load(&data);
    assert_eq!(map.player_id, player_before);
    let idx = map.layers[MAP_OBJECT_LAYER]
        .iter()
        .position(|m| m.uid == map.player_id)
        .expect("player must be reinserted on load");
    assert_eq!(map.layers[MAP_OBJECT_LAYER][idx].move_time_left, 0);
}

#[test]
fn check_player_transition_picks_matching_zone() {
    let mut map = fresh_map();
    assert_eq!(map.check_player_transition(), None);
    map.transitions.push(tiny_places_core::map::MapTransition {
        from: Vec2 { x: 1_000_000, y: 1_000_000 },
        rad: 50_000,
        to: 4,
    });
    assert_eq!(map.check_player_transition(), Some(4));
    map.transitions.push(tiny_places_core::map::MapTransition {
        from: Vec2 { x: 1_010_000, y: 1_000_000 },
        rad: 50_000,
        to: 9,
    });
    // The last matching transition wins.
    assert_eq!(map.check_player_transition(), Some(9));
}

#[test]
fn fire_projectile_flies_toward_target() {
    let mut factory = MapObjectFactory { next_id: 1 };
    let p = tiny_places_core::map::fire_projectile(
        Vec2 { x: 0, y: 0 },
        Vec2 { x: 1_000_000, y: 0 },
        200,
        MobType::CreatureProjectile,
        &mut factory,
    );
    assert_eq!(p.velocity, Vec2 { x: 200, y: 0 });
    assert_eq!(p.position, Vec2 { x: 80_000, y: 0 });
    assert_eq!(p.move_time_left, 2000);
    assert_eq!(p.move_end_action, MoveEndAction::RemoveFromMap);
    assert_eq!(p.attributes.mob_type, MobType::CreatureProjectile);
}

#[test]
fn move_mob_sets_velocity_and_duration() {
    let mut factory = MapObjectFactory { next_id: 1 };
    let mut mob = make_mob(&mut factory, 0, 0);
    tiny_places_core::map::move_mob(&mut mob, Vec2 { x: 300_000, y: 0 }, 150);
    assert_eq!(mob.velocity, Vec2 { x: 150, y: 0 });
    assert_eq!(mob.move_time_left, 2000);
    // Running the move to completion arrives at the destination.
    for _ in 0..125 {
        mob.move_dt(16);
    }
    assert_eq!(mob.position, Vec2 { x: 300_000, y: 0 });
}

#[test]
fn move_selected_object_shifts_position() {
    let mut map = fresh_map();
    let mob = map.factory.create_mob(3, 1, Vec2 { x: 10_000, y: 20_000 }, 5_000, 1000);
    let id = mob.uid;
    map.layers[MAP_OBJECT_LAYER].push(mob);
    map.has_selection = true;
    map.selected_layer = MAP_OBJECT_LAYER;
    map.selected_item = id;
    map.move_selected_object(500, -500);
    let idx = map.layers[MAP_OBJECT_LAYER].iter().position(|m| m.uid == id).unwrap();
    assert_eq!(map.layers[MAP_OBJECT_LAYER][idx].position, Vec2 { x: 10_500, y: 19_500 });
}

#[test]
fn orient_faces_cardinal_directions() {
    let mut factory = MapObjectFactory { next_id: 1 };
    let mob = make_mob(&mut factory, 0, 0);
    // Eight frames: east maps to the half-turn offset, west to 0.
    let east = mob.visual.orient(1000, 0);
    let west = mob.visual.orient(-1000, 0);
    assert_eq!(east, 4);
    assert_eq!(west, 7);
    assert_eq!(mob.visual.orient(0, 0), 4);
}

#[test]
fn editor_starts_in_selection_mode() {
    let e = tiny_places_core::editor::MapEditor::new();
    assert_eq!(e.selected_tile_id, 0);
    assert!(!e.show_editor_keys);
}

#[test]
fn apply_to_selected_edits_entity() {
    let mut map = fresh_map();
    let mob = map.factory.create_mob(3, 1, Vec2 { x: 0, y: 0 }, 5_000, 1000);
    let id = mob.uid;
    map.layers[MAP_OBJECT_LAYER].push(mob);
    map.has_selection = true;
    map.selected_layer = MAP_OBJECT_LAYER;
    map.selected_item = id;
    map.apply_to_selected_mob(|mut m: MapObject| {
        m.scale = 2000;
        m
    });
    let idx = map.layers[MAP_OBJECT_LAYER].iter().position(|m| m.uid == id).unwrap();
    assert_eq!(map.layers[MAP_OBJECT_LAYER][idx].scale, 2000);
}

#[test]
fn creature_projectile_hits_player_with_health() {
    // Per the collision rule, only PlayerProjectile-vs-Player and
    // CreatureProjectile-vs-Creature are forbidden: a creature projectile
    // may strike the player once the player has hit points. The store still
    // keeps exactly one player, so the player survives the removal pass.
    let mut rng = rng_from_seed(21);
    let mut map = fresh_map();
    let pidx = map.layers[MAP_OBJECT_LAYER].iter().position(|m| m.uid == map.player_id).unwrap();
    map.layers[MAP_OBJECT_LAYER][pidx].attributes.hit_points = 500;
    let mut cproj = map.factory.create_mob(1, 5, Vec2 { x: 1_005_000, y: 1_000_000 }, 12_000, 500);
    cproj.attributes.mob_type = MobType::CreatureProjectile;
    let cproj_id = cproj.uid;
    map.layers[MAP_OBJECT_LAYER].push(cproj);
    let sounds = map.update(16, &mut rng);
    assert_eq!(sounds, vec![Sound::FireballHit]);
    let pidx = map.layers[MAP_OBJECT_LAYER]
        .iter()
        .position(|m| m.uid == map.player_id)
        .expect("exactly one player exists at any time");
    assert_eq!(map.layers[MAP_OBJECT_LAYER][pidx].attributes.hit_points, 400);
    assert!(!map.layers[MAP_OBJECT_LAYER].iter().any(|m| m.uid == cproj_id));
    // Even when the burn-down overlay runs out, the player is never deleted.
    for _ in 0..100 {
        let _ = map.update(16, &mut rng);
    }
    assert!(map.layers[MAP_OBJECT_LAYER].iter().any(|m| m.uid == map.player_id));
}

#[test]
fn projectile_hits_plain_map_object_with_health() {
    // Any compatible kind pair counts when the target has hit points; a
    // plain decoration with health can be struck by either projectile kind.
    let mut rng = rng_from_seed(33);
    let mut map = fresh_map();
    let mut crate_mob = map.factory.create_mob(9, 1, Vec2 { x: 300_000, y: 300_000 }, 8_000, 1000);
    crate_mob.attributes.hit_points = 50;
    let crate_id = crate_mob.uid;
    map.layers[MAP_OBJECT_LAYER].push(crate_mob);
    let mut cproj = map.factory.create_mob(1, 5, Vec2 { x: 305_000, y: 300_000 }, 12_000, 500);
    cproj.attributes.mob_type = MobType::CreatureProjectile;
    map.layers[MAP_OBJECT_LAYER].push(cproj);
    let sounds = map.update(16, &mut rng);
    assert_eq!(sounds, vec![Sound::FireballHit]);
    let idx = map.layers[MAP_OBJECT_LAYER].iter().position(|m| m.uid == crate_id).unwrap();
    assert!(map.layers[MAP_OBJECT_LAYER][idx].attributes.hit_points <= 0);
}

#[test]
fn load_discards_animation_table() {
    // A rebuilt store carries no per-entity state over: the animation side
    // table is emptied, the player's own entry included; creature groups
    // stay and prune their vanished members on the next pass.
    let mut rng = rng_from_seed(17);
    let mut map = fresh_map();
    map.populate(&mut rng);
    let members_before = map.mob_groups[0].members.len();
    for _ in 0..30 {
        let _ = map.update(16, &mut rng);
    }
    let data = map.save();
    assert!(!map.animations.is_empty(), "the spin animations must be installed");
    map.load(&data);
    assert!(map.animations.is_empty());
    assert_eq!(map.mob_groups[0].members.len(), members_before);
    // The next pass prunes every member: their ids were not reloaded.
    let _ = map.update(16, &mut rng);
    assert!(map.mob_groups[0].members.is_empty());
}

#[test]
fn ungrouped_still_entity_rests_across_many_ticks() {
    // The per-tick stillness clause chains: an entity no group steers and
    // with zero velocity has not moved after any number of ticks.
    let mut rng = rng_from_seed(13);
    let mut map = fresh_map();
    map.populate(&mut rng);
    let rock = map.factory.create_mob(12, 1, Vec2 { x: 777_000, y: 555_000 }, 9_000, 1000);
    let rock_id = rock.uid;
    map.layers[MAP_OBJECT_LAYER].push(rock);
    for _ in 0..120 {
        let _ = map.update(16, &mut rng);
    }
    let idx = map.layers[MAP_OBJECT_LAYER].iter().position(|m| m.uid == rock_id).unwrap();
    assert_eq!(map.layers[MAP_OBJECT_LAYER][idx].position, Vec2 { x: 777_000, y: 555_000 });
}
