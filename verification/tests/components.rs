use tiny_places_core::animation::{Animation, ANIMATION_TILESET, REMOVAL_SCALE};
use tiny_places_core::entity::{BlendMode, MapObjectFactory, UpdateAction};
use tiny_places_core::geom::Vec2;
use tiny_places_core::inventory::{Inventory, Slot};
use tiny_places_core::item::{calc_slot, parse_mod, parse_mods, parse_range, Attribute, Item, Mod};
use tiny_places_core::particles::{ParticleDriver, Rgb, PMAX};
use tiny_places_core::ui::UiArea;

#[test]
fn pool_empties_after_aging_past_lifetimes() {
    // Allocating a few particles and aging past all their lifetimes leaves
    // the high-water mark at zero.
    let mut pool = ParticleDriver::new();
    for k in 0..5 {
        assert!(pool.add_particle(0, 0, 0, 1, 2, 3, 100 + k, 7, Rgb { r: 1, g: 2, b: 3 }));
    }
    assert!(pool.has_particles());
    assert_eq!(pool.window(), 5);
    pool.drive(200);
    assert_eq!(pool.window(), 0);
    assert!(!pool.has_particles());
}

#[test]
fn pool_overflow_is_dropped_without_corruption() {
    // Filling the pool to capacity succeeds; one more allocation fails and
    // leaves the stored particles untouched.
    let mut pool = ParticleDriver::new();
    for k in 0..PMAX {
        assert!(pool.add_particle(k as i64, 0, 0, 0, 0, 0, 1000, k, Rgb { r: 0, g: 0, b: 0 }));
    }
    assert!(!pool.add_particle(7, 7, 7, 0, 0, 0, 1000, 9, Rgb { r: 9, g: 9, b: 9 }));
    for k in 0..PMAX {
        let p = pool.particle(k);
        assert!(p.active);
        assert_eq!(p.xpos, k as i64);
        assert_eq!(p.tex_id, k);
    }
}

#[test]
fn pool_reclaims_freed_low_slots() {
    let mut pool = ParticleDriver::new();
    assert!(pool.add_particle(1, 0, 0, 0, 0, 0, 50, 1, Rgb { r: 0, g: 0, b: 0 }));
    assert!(pool.add_particle(2, 0, 0, 0, 0, 0, 500, 2, Rgb { r: 0, g: 0, b: 0 }));
    pool.drive(100);
    // The first particle expired; its slot is found again.
    assert!(pool.add_particle(3, 0, 0, 0, 0, 0, 500, 3, Rgb { r: 0, g: 0, b: 0 }));
    assert_eq!(pool.particle(0).xpos, 3);
    assert_eq!(pool.window(), 2);
}

#[test]
fn pool_clear_resets_marks() {
    let mut pool = ParticleDriver::new();
    for _ in 0..3 {
        assert!(pool.add_particle(0, 0, 0, 0, 0, 0, 1000, 1, Rgb { r: 0, g: 0, b: 0 }));
    }
    pool.clear();
    assert_eq!(pool.window(), 0);
    assert!(!pool.particle(0).active);
}

#[test]
fn particles_integrate_position() {
    let mut pool = ParticleDriver::new();
    assert!(pool.add_particle(0, 0, 0, 3, -2, 1, 1000, 1, Rgb { r: 0, g: 0, b: 0 }));
    pool.drive(100);
    let p = pool.particle(0);
    assert_eq!(p.xpos, 300);
    assert_eq!(p.ypos, -200);
    assert_eq!(p.zpos, 100);
    assert_eq!(p.lifetime, 900);
}

#[test]
fn spin_animation_cycles_frames() {
    let mut factory = MapObjectFactory { next_id: 1 };
    let mut mob = factory.create_mob(100, 1, Vec2 { x: 0, y: 0 }, 1000, 1000);
    let spin = Animation::Spin { speed: 24 };
    // After 250 ms at 24 frames per second: frame 6 of 8.
    spin.update(250, &mut mob);
    assert_eq!(mob.animation_timer, 250);
    assert_eq!(mob.visual.current_image_id, 106);
    // A full second later the frame count has wrapped around.
    spin.update(1000, &mut mob);
    assert_eq!(mob.visual.current_image_id, 100 + 30 % 8);
}

#[test]
fn removal_animation_burns_down_then_removes() {
    let mut factory = MapObjectFactory { next_id: 1 };
    let mut mob = factory.create_mob(100, 1, Vec2 { x: 0, y: 0 }, 1000, 1000);
    let anim = Animation::Removal { start_time: 0, duration: 700 };
    anim.update(350, &mut mob);
    // Halfway through: frame 1 + 11 of the 22-frame sequence.
    assert_eq!(mob.visual.current_image_id, 12);
    assert_eq!(mob.visual.tileset_id, ANIMATION_TILESET);
    assert_eq!(mob.visual.blend, BlendMode::Add);
    assert_eq!(mob.scale, REMOVAL_SCALE);
    assert_eq!(mob.update_action, UpdateAction::NoAction);
    anim.update(400, &mut mob);
    assert_eq!(mob.update_action, UpdateAction::RemoveFromMap);
}

#[test]
fn calc_slot_maps_codes() {
    assert_eq!(calc_slot(0), Slot::Bag);
    assert_eq!(calc_slot(1), Slot::Stash);
    assert_eq!(calc_slot(2), Slot::Nose);
    assert_eq!(calc_slot(3), Slot::Body);
    assert_eq!(calc_slot(4), Slot::LWing);
    assert_eq!(calc_slot(5), Slot::RWing);
    assert_eq!(calc_slot(6), Slot::Engine);
    assert_eq!(calc_slot(99), Slot::Bag);
}

#[test]
fn parse_range_handles_single_and_pair() {
    assert_eq!(parse_range(b"7"), (7, 7));
    assert_eq!(parse_range(b"3-9"), (3, 9));
}

#[test]
fn parse_mod_builds_modifier() {
    let m = parse_mod(Some(b"2-5"), Attribute::Armor);
    assert_eq!(m, Mod { attribute: Attribute::Armor, min_value: 2, max_value: 5 });
}

#[test]
fn parse_mods_reads_eight_columns() {
    let parts: Vec<Vec<u8>> = vec![
        b"1".to_vec(),
        b"2".to_vec(),
        b"3".to_vec(),
        b"4-6".to_vec(),
        b"5".to_vec(),
        b"6".to_vec(),
        b"7".to_vec(),
        b"8-9".to_vec(),
    ];
    let mods = parse_mods(&parts, 0);
    assert_eq!(mods.len(), 8);
    assert_eq!(mods[0], Mod { attribute: Attribute::Structure, min_value: 1, max_value: 1 });
    assert_eq!(mods[3], Mod { attribute: Attribute::Computation, min_value: 4, max_value: 6 });
    assert_eq!(mods[7], Mod { attribute: Attribute::RadiationDamage, min_value: 8, max_value: 9 });
}

#[test]
fn attribute_total_sums_matching_mods() {
    let item = Item {
        id: 1,
        name: String::from("probe"),
        mods: vec![
            Mod { attribute: Attribute::Speed, min_value: 3, max_value: 5 },
            Mod { attribute: Attribute::Armor, min_value: 10, max_value: 10 },
            Mod { attribute: Attribute::Speed, min_value: -1, max_value: 0 },
        ],
        inventory_tile_id: 0,
        inventory_w: 2,
        inventory_h: 1,
        inventory_scale: 1000,
        slot: Slot::Bag,
        map_tile_id: 0,
    };
    assert_eq!(item.get_attribute_total_mod(Attribute::Speed), 2);
    assert_eq!(item.get_attribute_total_mod(Attribute::Armor), 10);
    assert_eq!(item.get_attribute_total_mod(Attribute::Energy), 0);
}

#[test]
fn inventory_places_items_first_fit() {
    let mut inv = Inventory::new();
    let item = |id: usize, w: i32, h: i32| Item {
        id,
        name: String::from("thing"),
        mods: Vec::new(),
        inventory_tile_id: 0,
        inventory_w: w,
        inventory_h: h,
        inventory_scale: 1000,
        slot: Slot::Bag,
        map_tile_id: 0,
    };
    inv.put_item(item(1, 2, 2), Slot::Bag);
    assert_eq!(inv.entries[0].location_x, 0);
    assert_eq!(inv.entries[0].location_y, 0);
    inv.put_item(item(2, 1, 1), Slot::Bag);
    // The occupied area includes its borders, so the next free column is 3.
    assert_eq!(inv.entries[1].location_x, 3);
    assert_eq!(inv.entries[1].location_y, 0);
    inv.put_item(item(3, 1, 1), Slot::Engine);
    assert_eq!(inv.entries[2].location_x, 0);
    assert_eq!(inv.entries[2].slot, Slot::Engine);
}

#[test]
fn ui_area_contains_borders() {
    let a = UiArea { x: 10, y: 20, w: 5, h: 5 };
    assert!(a.contains(10, 20));
    assert!(a.contains(15, 25));
    assert!(!a.contains(16, 20));
    assert!(!a.contains(9, 20));
}
