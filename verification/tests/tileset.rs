// Tileset image loading lives with the host shell, outside the simulation
// core; this placeholder marks where a shell with image assets would hook in.
use tiny_places_core::map::CREATURE_TILESET;

#[test]
fn test_load_tileset() {
}

#[test]
fn tileset_ids_are_distinct() {
    assert_ne!(CREATURE_TILESET, tiny_places_core::map::PROJECTILE_TILESET);
    assert_ne!(CREATURE_TILESET, tiny_places_core::animation::ANIMATION_TILESET);
}
