use vstd::prelude::*;

use crate::animation::Animation;
use crate::entity::{
    all_wf, contains_id, ids_below, ids_unique, moved, BlendMode, MapObject, MapObjectFactory,
    MobAttributes, MobType, MoveEndAction, Rgba, UpdateAction, Visual, MAX_MOVE_TIME, MAX_SCALAR,
};
use crate::geom::{dist2, vec2_coord_ok, Vec2};
use crate::inventory::Inventory;
use crate::mob_group::MobGroup;
use crate::mapfile::{object_record_ok, transition_record_ok, MapData, ObjectRecord, TransitionRecord};
use crate::num::{coord_ok, sqrt_floor, MAX_COORD, MAX_VEL};
use crate::particles::ParticleDriver;
use crate::rng::rng_below;
use crate::sound::Sound;

verus! {

/// Render layer of the ground tiles.
pub const MAP_GROUND_LAYER: usize = 0;

/// Render layer of the simulated entities.
pub const MAP_OBJECT_LAYER: usize = 1;

/// Render layer of the clouds.
pub const MAP_CLOUD_LAYER: usize = 2;

/// Number of render layers a map keeps.
pub const MAP_LAYER_COUNT: usize = 7;

/// Tileset of the creature sprites.
pub const CREATURE_TILESET: usize = 3;

/// Tileset of the projectile sprites.
pub const PROJECTILE_TILESET: usize = 5;

/// How close a projectile must come to register a hit, in milli-units.
pub const HIT_RADIUS: i64 = 80_000;

/// A point that teleports the player to another map when entered.
#[derive(PartialEq, Eq, Structural, Debug, Clone, Copy)]
pub struct MapTransition {
    /// Entrance location.
    pub from: Vec2,
    /// Catchment radius, in milli-units.
    pub rad: i64,
    /// Destination map selector.
    pub to: i32,
}

pub open spec fn transition_ok(t: MapTransition) -> bool {
    vec2_coord_ok(t.from) && 0 <= t.rad <= MAX_COORD
}

/// Entity `i` is a possible nearest-query answer: in the layer, not the
/// excluded id, and strictly inside the search radius by squared distance.
pub open spec fn nearest_candidate(
    s: Seq<MapObject>,
    pos: Vec2,
    radius: int,
    ignore: u64,
    i: int,
) -> bool {
    0 <= i < s.len() && s[i].uid != ignore && dist2(s[i].position, pos) < radius * radius
}

/// The entity store: every live entity filed by render layer, the animation
/// side table, the map transitions, the creature groups, and the per-tick
/// update pipeline. Exactly one entity of the object layer is the player;
/// its id is held in `player_id` and entity ids are never reused.
pub struct GameMap {
    pub layers: Vec<Vec<MapObject>>,
    pub animations: Vec<(u64, Animation)>,
    pub transitions: Vec<MapTransition>,
    pub mob_groups: Vec<MobGroup>,
    pub items: Inventory,
    pub has_selection: bool,
    pub selected_item: u64,
    pub selected_layer: usize,
    pub name: Vec<u8>,
    pub map_image_name: Vec<u8>,
    pub backdrop_image_name: Vec<u8>,
    pub factory: MapObjectFactory,
    pub player_id: u64,
}

impl GameMap {
    pub open spec fn objects(&self) -> Seq<MapObject> {
        self.layers@[MAP_OBJECT_LAYER as int]@
    }

    pub open spec fn wf(&self) -> bool {
        &&& self.layers@.len() == MAP_LAYER_COUNT
        &&& self.selected_layer < MAP_LAYER_COUNT
        &&& forall|l: int|
            0 <= l < MAP_LAYER_COUNT ==> all_wf((#[trigger] self.layers@[l])@) && ids_unique(
                self.layers@[l]@,
            ) && ids_below(self.layers@[l]@, self.factory.next_id as int)
        &&& contains_id(self.objects(), self.player_id)
        &&& forall|i: int|
            0 <= i < self.objects().len() && (#[trigger] self.objects()[i]).uid == self.player_id
                ==> self.objects()[i].attributes.mob_type == MobType::Player
        &&& forall|i: int|
            0 <= i < self.animations@.len() ==> (#[trigger] self.animations@[i]).1.wf()
        &&& forall|i: int| 0 <= i < self.transitions@.len() ==> transition_ok(#[trigger] self.transitions@[i])
        &&& forall|g: int|
            0 <= g < self.mob_groups@.len() ==> (#[trigger] self.mob_groups@[g]).wf() && self.mob_groups@[g].ids_bounded(
                self.factory.next_id as int,
            )
    }

    /// A fresh map holding only the player, at the default spawn point, with
    /// its drive-particle emitter armed.
    pub fn new(name: &[u8], map_image_name: &[u8], backdrop_image_name: &[u8]) -> (r: GameMap)
        ensures
            r.wf(),
            r.name@ == name@,
            r.map_image_name@ == map_image_name@,
            r.backdrop_image_name@ == backdrop_image_name@,
            r.objects().len() == 1,
            forall|l: int|
                0 <= l < MAP_LAYER_COUNT && l != MAP_OBJECT_LAYER
                    ==> (#[trigger] r.layers@[l])@.len() == 0,
            r.objects()[0].uid == r.player_id,
            r.objects()[0].attributes.mob_type == MobType::Player,
            r.objects()[0].update_action == UpdateAction::EmitDriveParticles,
            r.objects()[0].position == (Vec2 { x: 1_000_000, y: 1_000_000 }),
            r.objects()[0].velocity == (Vec2 { x: 0i64, y: 0i64 }),
            r.objects()[0].move_time_left == 0,
            r.objects()[0].move_end_action == MoveEndAction::NoAction,
            r.objects()[0].attributes.hit_points == 0,
            r.animations@.len() == 0,
            r.transitions@.len() == 0,
            r.mob_groups@.len() == 0,
            r.factory.next_id == 2,
            !r.has_selection,
    {
        let mut factory = MapObjectFactory { next_id: 1 };
        let mut player = factory.create_mob(
            39,
            4,
            Vec2 { x: 1_000_000, y: 1_000_000 },
            24_000,
            1000,
        );
        player.visual.frames = 16;
        player.update_action = UpdateAction::EmitDriveParticles;
        player.attributes.mob_type = MobType::Player;
        let player_id = player.uid;
        let ghost player_snapshot = player;
        let mut object_layer: Vec<MapObject> = Vec::new();
        object_layer.push(player);
        let mut layers: Vec<Vec<MapObject>> = Vec::new();
        layers.push(Vec::new());
        layers.push(object_layer);
        let mut l: usize = 2;
        while l < MAP_LAYER_COUNT
            invariant
                2 <= l <= MAP_LAYER_COUNT,
                layers@.len() == l,
                layers@[MAP_OBJECT_LAYER as int]@.len() == 1,
                layers@[MAP_OBJECT_LAYER as int]@[0] == player_snapshot,
                player_snapshot.uid == player_id,
                player_snapshot.wf(),
                player_snapshot.uid < 2,
                player_snapshot.attributes.mob_type == MobType::Player,
                player_snapshot.update_action == UpdateAction::EmitDriveParticles,
                player_snapshot.position == (Vec2 { x: 1_000_000, y: 1_000_000 }),
                player_snapshot.velocity == (Vec2 { x: 0i64, y: 0i64 }),
                player_snapshot.move_time_left == 0,
                player_snapshot.move_end_action == MoveEndAction::NoAction,
                player_snapshot.attributes.hit_points == 0,
                layers@[0]@.len() == 0,
                forall|k: int| 2 <= k < l ==> (#[trigger] layers@[k])@.len() == 0,
            decreases MAP_LAYER_COUNT - l,
        {
            layers.push(Vec::new());
            l = l + 1;
        }
        GameMap {
            layers,
            animations: Vec::new(),
            transitions: Vec::new(),
            mob_groups: Vec::new(),
            items: Inventory::new(),
            has_selection: false,
            selected_item: 0,
            selected_layer: 0,
            name: vstd::slice::slice_to_vec(name),
            map_image_name: vstd::slice::slice_to_vec(map_image_name),
            backdrop_image_name: vstd::slice::slice_to_vec(backdrop_image_name),
            factory,
            player_id,
        }
    }

    /// First index of the entity with the given id in a layer sequence.
    pub(crate) fn find_index(objs: &Vec<MapObject>, id: u64) -> (r: Option<usize>)
        ensures
            match r {
                Some(i) => i < objs@.len() && objs@[i as int].uid == id && forall|j: int|
                    0 <= j < i ==> (#[trigger] objs@[j]).uid != id,
                None => !contains_id(objs@, id),
            },
    {
        let mut i: usize = 0;
        while i < objs.len()
            invariant
                i <= objs@.len(),
                forall|j: int| 0 <= j < i ==> (#[trigger] objs@[j]).uid != id,
            decreases objs@.len() - i,
        {
            if objs[i].uid == id {
                return Some(i);
            }
            i = i + 1;
        }
        None
    }

    /// The player's current position. The player is always present in a
    /// well-formed store.
    pub fn player_position(&self) -> (r: Vec2)
        requires
            self.wf(),
        ensures
            r == self.spec_player_position(),
            vec2_coord_ok(r),
    {
        let objs = &self.layers[MAP_OBJECT_LAYER];
        match GameMap::find_index(objs, self.player_id) {
            Some(i) => {
                proof {
                    lemma_first_index_agrees(objs@, self.player_id, i as int);
                    assert(all_wf(objs@));
                    assert(objs@[i as int].wf());
                }
                objs[i].position
            },
            None => {
                proof {
                    assert(false);
                }
                Vec2 { x: 0, y: 0 }
            },
        }
    }

    /// Brute-force nearest-neighbor query: the id of the entity of `layer`
    /// closest to `position` strictly within `search_radius`, by squared
    /// distance, excluding `ignore_uid`; `None` when no entity lies inside
    /// the radius. Ties go to the earliest entity in layer order.
    pub fn find_nearest_object(
        &self,
        layer: usize,
        position: &Vec2,
        search_radius: i64,
        ignore_uid: u64,
    ) -> (r: Option<u64>)
        requires
            self.wf(),
            layer < MAP_LAYER_COUNT,
            vec2_coord_ok(*position),
            0 <= search_radius <= MAX_COORD,
        ensures
            ({
                let objs = self.layers@[layer as int]@;
                match r {
                    Some(id) => exists|i: int|
                        {
                            &&& #[trigger] nearest_candidate(
                                objs,
                                *position,
                                search_radius as int,
                                ignore_uid,
                                i,
                            )
                            &&& objs[i].uid == id
                            &&& forall|j: int|
                                #[trigger] nearest_candidate(
                                    objs,
                                    *position,
                                    search_radius as int,
                                    ignore_uid,
                                    j,
                                ) ==> dist2(objs[i].position, *position) <= dist2(
                                    objs[j].position,
                                    *position,
                                )
                            &&& forall|j: int|
                                j < i && #[trigger] nearest_candidate(
                                    objs,
                                    *position,
                                    search_radius as int,
                                    ignore_uid,
                                    j,
                                ) ==> dist2(objs[j].position, *position) > dist2(
                                    objs[i].position,
                                    *position,
                                )
                        },
                    None => forall|i: int|
                        !nearest_candidate(objs, *position, search_radius as int, ignore_uid, i),
                }
            }),
    {
        let objs = &self.layers[layer];
        let r2: i128 = crate::num::square_wide(search_radius);
        let mut best_d2: i128 = r2;
        let mut best_id: u64 = 0;
        let mut found: bool = false;
        let ghost mut best_idx: int = 0;
        let mut i: usize = 0;
        while i < objs.len()
            invariant
                i <= objs@.len(),
                self.wf(),
                layer < MAP_LAYER_COUNT,
                objs@ == self.layers@[layer as int]@,
                vec2_coord_ok(*position),
                0 <= search_radius <= MAX_COORD,
                r2 == (search_radius as int) * (search_radius as int),
                !found ==> best_d2 == r2 && forall|j: int|
                    0 <= j < i ==> !nearest_candidate(
                        objs@,
                        *position,
                        search_radius as int,
                        ignore_uid,
                        j,
                    ),
                found ==> {
                    &&& nearest_candidate(
                        objs@,
                        *position,
                        search_radius as int,
                        ignore_uid,
                        best_idx,
                    )
                    &&& best_idx < i
                    &&& objs@[best_idx].uid == best_id
                    &&& best_d2 == dist2(objs@[best_idx].position, *position)
                    &&& forall|j: int|
                        0 <= j < i && #[trigger] nearest_candidate(
                            objs@,
                            *position,
                            search_radius as int,
                            ignore_uid,
                            j,
                        ) ==> dist2(objs@[best_idx].position, *position) <= dist2(
                            objs@[j].position,
                            *position,
                        )
                    &&& forall|j: int|
                        j < best_idx && #[trigger] nearest_candidate(
                            objs@,
                            *position,
                            search_radius as int,
                            ignore_uid,
                            j,
                        ) ==> dist2(objs@[j].position, *position) > dist2(
                            objs@[best_idx].position,
                            *position,
                        )
                },
            decreases objs@.len() - i,
        {
            proof {
                assert(all_wf(objs@));
                assert(objs@[i as int].wf());
            }
            let d2 = objs[i].position.dist2(position);
            if d2 < best_d2 && objs[i].uid != ignore_uid {
                best_d2 = d2;
                best_id = objs[i].uid;
                found = true;
                proof {
                    best_idx = i as int;
                }
            }
            i = i + 1;
        }
        if found {
            Some(best_id)
        } else {
            None
        }
    }

    /// The destination of the transition the player currently stands in, or
    /// `None`; when several catch the player, the last one in list order
    /// wins. The host reloads the map when a destination comes back.
    pub fn check_player_transition(&self) -> (r: Option<i32>)
        requires
            self.wf(),
        ensures
            ({
                let pos = self.spec_player_position();
                match r {
                    Some(to) => exists|i: int|
                        {
                            &&& 0 <= i < self.transitions@.len()
                            &&& #[trigger] in_transition(self.transitions@[i], pos)
                            &&& self.transitions@[i].to == to
                            &&& forall|j: int|
                                i < j < self.transitions@.len() ==> !in_transition(
                                    #[trigger] self.transitions@[j],
                                    pos,
                                )
                        },
                    None => forall|i: int|
                        0 <= i < self.transitions@.len() ==> !in_transition(
                            #[trigger] self.transitions@[i],
                            pos,
                        ),
                }
            }),
    {
        let pos = self.player_position();
        proof {
            lemma_first_id_position(self.objects(), self.player_id);
        }
        let mut r: Option<i32> = None;
        let ghost mut r_idx: int = 0;
        let mut i: usize = 0;
        while i < self.transitions.len()
            invariant
                i <= self.transitions@.len(),
                self.wf(),
                pos == self.spec_player_position(),
                match r {
                    Some(to) => {
                        &&& 0 <= r_idx < i
                        &&& in_transition(self.transitions@[r_idx], pos)
                        &&& self.transitions@[r_idx].to == to
                        &&& forall|j: int|
                            r_idx < j < i ==> !in_transition(#[trigger] self.transitions@[j], pos)
                    },
                    None => forall|j: int|
                        0 <= j < i ==> !in_transition(#[trigger] self.transitions@[j], pos),
                },
            decreases self.transitions@.len() - i,
        {
            let t = self.transitions[i];
            proof {
                assert(transition_ok(self.transitions@[i as int]));
                assert(vec2_coord_ok(self.spec_player_position())) by {
                    lemma_player_position_wf(*self);
                }
            }
            let d2 = pos.dist2(&t.from);
            let rad2: i128 = crate::num::square_wide(t.rad);
            if d2 < rad2 {
                r = Some(t.to);
                proof {
                    r_idx = i as int;
                }
            }
            i = i + 1;
        }
        r
    }

    /// Where the player entity stands, as a specification value: the
    /// position of the first object-layer entity holding the player id.
    pub open spec fn spec_player_position(&self) -> Vec2 {
        self.objects()[first_index_of(self.objects(), self.player_id)].position
    }

    /// Shifts the selected entity, clamping to the world box; nothing
    /// happens without a selection or when the selected id is gone.
    pub fn move_selected_object(&mut self, dx: i64, dy: i64)
        requires
            old(self).wf(),
            -MAX_COORD <= dx <= MAX_COORD,
            -MAX_COORD <= dy <= MAX_COORD,
        ensures
            final(self).wf(),
            final(self).layers@.len() == MAP_LAYER_COUNT,
            forall|l: int|
                0 <= l < MAP_LAYER_COUNT && l != old(self).selected_layer
                    ==> (#[trigger] final(self).layers@[l])@ == old(self).layers@[l]@,
            ({
                let layer = old(self).selected_layer as int;
                let objs = old(self).layers@[layer]@;
                if old(self).has_selection && contains_id(objs, old(self).selected_item) {
                    let i = first_index_of(objs, old(self).selected_item);
                    final(self).layers@[layer]@ == objs.update(
                        i,
                        MapObject {
                            position: Vec2 {
                                x: crate::num::clamp_coord(objs[i].position.x + dx) as i64,
                                y: crate::num::clamp_coord(objs[i].position.y + dy) as i64,
                            },
                            ..objs[i]
                        },
                    )
                } else {
                    final(self).layers@[layer]@ == objs
                }
            }),
            final(self).animations@ == old(self).animations@,
            final(self).transitions@ == old(self).transitions@,
            final(self).factory == old(self).factory,
            final(self).player_id == old(self).player_id,
            final(self).mob_groups@ == old(self).mob_groups@,
            final(self).items == old(self).items,
            final(self).name == old(self).name,
            final(self).map_image_name == old(self).map_image_name,
            final(self).backdrop_image_name == old(self).backdrop_image_name,
            final(self).has_selection == old(self).has_selection,
            final(self).selected_item == old(self).selected_item,
            final(self).selected_layer == old(self).selected_layer,
    {
        if !self.has_selection {
            return ;
        }
        let layer = self.selected_layer;
        let id = self.selected_item;
        let objs = &mut self.layers[layer];
        match GameMap::find_index(objs, id) {
            Some(i) => {
                proof {
                    lemma_first_index_agrees(objs@, id, i as int);
                    assert(all_wf(objs@));
                    assert(objs@[i as int].wf());
                }
                let px = objs[i].position.x;
                let py = objs[i].position.y;
                let nx = clamp_coord_exec(px + dx);
                let ny = clamp_coord_exec(py + dy);
                let updated = MapObject { position: Vec2 { x: nx, y: ny }, ..objs.remove(i) };
                objs.insert(i, updated);
                proof {
                    assert(self.layers@[layer as int]@ =~= old(self).layers@[layer as int]@.update(
                        i as int,
                        updated,
                    ));
                    assert(contains_id(old(self).layers@[layer as int]@, id)) by {
                        assert(old(self).layers@[layer as int]@[i as int].uid == id);
                    }
                    lemma_store_update_keeps(
                        old(self).layers@[layer as int]@,
                        i as int,
                        updated,
                        old(self).factory.next_id as int,
                    );
                    assert(contains_id(self.objects(), self.player_id)) by {
                        let k = choose|k: int|
                            0 <= k < old(self).objects().len() && (#[trigger] old(self).objects()[k]).uid == old(self).player_id;
                        assert(self.objects()[k].uid == self.player_id);
                    }
                }
            },
            None => {
                proof {
                    assert(final(self).layers@ =~= old(self).layers@);
                }
            },
        }
    }
    /// Applies an arbitrary edit to the selected entity, if the selection
    /// still points at a live one: the entity is handed to the closure by
    /// value and replaced by what comes back. The closure must keep the
    /// entity's id and well-formedness, and may not turn the player entity
    /// into something the store would drop.
    pub fn apply_to_selected_mob<F: FnOnce(MapObject) -> MapObject>(&mut self, func: F)
        requires
            old(self).wf(),
            forall|m: MapObject| #[trigger] call_requires(func, (m,)),
            forall|m: MapObject, r: MapObject|
                m.wf() && #[trigger] call_ensures(func, (m,), r) ==> r.wf() && r.uid == m.uid && (
                m.uid == old(self).player_id ==> r.attributes.mob_type == m.attributes.mob_type
                    && r.move_end_action == m.move_end_action && r.update_action
                    == m.update_action),
        ensures
            final(self).wf(),
            final(self).layers@.len() == MAP_LAYER_COUNT,
            forall|l: int|
                0 <= l < MAP_LAYER_COUNT && l != old(self).selected_layer
                    ==> (#[trigger] final(self).layers@[l])@ == old(self).layers@[l]@,
            final(self).player_id == old(self).player_id,
            final(self).animations@ == old(self).animations@,
            final(self).transitions@ == old(self).transitions@,
            final(self).factory == old(self).factory,
            final(self).player_id == old(self).player_id,
            final(self).mob_groups@ == old(self).mob_groups@,
            final(self).items == old(self).items,
            final(self).name == old(self).name,
            final(self).map_image_name == old(self).map_image_name,
            final(self).backdrop_image_name == old(self).backdrop_image_name,
            final(self).has_selection == old(self).has_selection,
            final(self).selected_item == old(self).selected_item,
            final(self).selected_layer == old(self).selected_layer,
            ({
                let layer = old(self).selected_layer as int;
                let objs = old(self).layers@[layer]@;
                if old(self).has_selection && contains_id(objs, old(self).selected_item) {
                    let i = first_index_of(objs, old(self).selected_item);
                    exists|r: MapObject|
                        #[trigger] call_ensures(func, (objs[i],), r)
                            && final(self).layers@[layer]@ == objs.update(i, r)
                } else {
                    final(self).layers@[layer]@ == objs
                }
            }),
    {
        if !self.has_selection {
            return ;
        }
        let layer = self.selected_layer;
        let id = self.selected_item;
        let objs = &mut self.layers[layer];
        match GameMap::find_index(objs, id) {
            Some(i) => {
                proof {
                    lemma_first_index_agrees(objs@, id, i as int);
                    assert(all_wf(objs@));
                    assert(objs@[i as int].wf());
                    assert(contains_id(old(self).layers@[layer as int]@, id)) by {
                        assert(old(self).layers@[layer as int]@[i as int].uid == id);
                    }
                }
                let taken = objs.remove(i);
                let replaced = func(taken);
                objs.insert(i, replaced);
                proof {
                    assert(self.layers@[layer as int]@ =~= old(self).layers@[layer as int]@.update(
                        i as int,
                        replaced,
                    ));
                    lemma_store_update_keeps(
                        old(self).layers@[layer as int]@,
                        i as int,
                        replaced,
                        old(self).factory.next_id as int,
                    );
                    assert(contains_id(self.objects(), self.player_id)) by {
                        let k = choose|k: int|
                            0 <= k < old(self).objects().len() && (#[trigger] old(self).objects()[k]).uid == old(self).player_id;
                        assert(self.objects()[k].uid == self.player_id);
                    }
                }
            },
            None => {
                proof {
                    assert(final(self).layers@ =~= old(self).layers@);
                }
            },
        }
    }

    /// AI phase of the tick: every creature group runs its scheduler against
    /// the object layer, possibly inserting fresh projectile entities.
    fn update_groups(&mut self, dt: i64, rng: &mut rand::rngs::StdRng)
        requires
            old(self).wf(),
            crate::num::dt_ok(dt as int),
            old(self).factory.next_id + crate::mob_group::total_members(old(self).mob_groups@)
                < u64::MAX,
        ensures
            final(self).wf(),
            final(self).layers@.len() == MAP_LAYER_COUNT,
            forall|l: int|
                0 <= l < MAP_LAYER_COUNT && l != MAP_OBJECT_LAYER
                    ==> (#[trigger] final(self).layers@[l])@ == old(self).layers@[l]@,
            final(self).player_id == old(self).player_id,
            final(self).animations@ == old(self).animations@,
            final(self).transitions@ == old(self).transitions@,
            final(self).name == old(self).name,
            final(self).map_image_name == old(self).map_image_name,
            final(self).backdrop_image_name == old(self).backdrop_image_name,
            final(self).has_selection == old(self).has_selection,
            final(self).selected_item == old(self).selected_item,
            final(self).selected_layer == old(self).selected_layer,
            final(self).items == old(self).items,
            old(self).factory.next_id <= final(self).factory.next_id,
            final(self).objects().len() >= old(self).objects().len(),
            forall|i: int|
                0 <= i < old(self).objects().len() ==> (#[trigger] final(self).objects()[i]).uid
                    == old(self).objects()[i].uid
                    && final(self).objects()[i].attributes == old(self).objects()[i].attributes
                    && final(self).objects()[i].position == old(self).objects()[i].position
                    && final(self).objects()[i].move_end_action
                    == old(self).objects()[i].move_end_action
                    && final(self).objects()[i].update_action
                    == old(self).objects()[i].update_action,
            forall|i: int|
                0 <= i < old(self).objects().len() && !member_of_any(
                    old(self).mob_groups@,
                    (#[trigger] old(self).objects()[i]).uid,
                ) ==> final(self).objects()[i] == old(self).objects()[i],
            forall|i: int|
                old(self).objects().len() <= i < final(self).objects().len()
                    ==> (#[trigger] final(self).objects()[i]).uid >= old(self).factory.next_id
                    && final(self).objects()[i].attributes.mob_type == MobType::CreatureProjectile
                    && final(self).objects()[i].move_time_left == 2000
                    && final(self).objects()[i].update_action == UpdateAction::NoAction
                    && final(self).objects()[i].move_end_action == MoveEndAction::RemoveFromMap,
            final(self).mob_groups@.len() == old(self).mob_groups@.len(),
            forall|id: u64|
                !member_of_any(old(self).mob_groups@, id) ==> !member_of_any(
                    final(self).mob_groups@,
                    id,
                ),
            crate::mob_group::total_members(final(self).mob_groups@)
                <= crate::mob_group::total_members(old(self).mob_groups@),
            final(self).factory.next_id as int <= old(self).factory.next_id
                + crate::mob_group::total_members(old(self).mob_groups@),
    {
        let ghost objs0 = self.objects();
        let ghost next0 = self.factory.next_id;
        let ghost groups0 = self.mob_groups@;
        let mut g: usize = 0;
        while g < self.mob_groups.len()
            invariant
                g <= self.mob_groups@.len(),
                self.mob_groups@.len() == groups0.len(),
                groups0 == old(self).mob_groups@,
                objs0 == old(self).objects(),
                next0 == old(self).factory.next_id,
                old(self).wf(),
                crate::num::dt_ok(dt as int),
                next0 + crate::mob_group::total_members(groups0) < u64::MAX,
                self.layers@.len() == MAP_LAYER_COUNT,
                forall|l: int|
                    0 <= l < MAP_LAYER_COUNT && l != MAP_OBJECT_LAYER
                        ==> (#[trigger] self.layers@[l])@ == old(self).layers@[l]@,
                self.player_id == old(self).player_id,
                self.animations@ == old(self).animations@,
                self.transitions@ == old(self).transitions@,
                self.name == old(self).name,
                self.map_image_name == old(self).map_image_name,
                self.backdrop_image_name == old(self).backdrop_image_name,
                self.has_selection == old(self).has_selection,
                self.selected_item == old(self).selected_item,
                self.selected_layer == old(self).selected_layer,
                self.items == old(self).items,
                next0 <= self.factory.next_id,
                self.factory.next_id as int <= next0 + crate::mob_group::total_members(
                    groups0.take(g as int),
                ),
                all_wf(self.objects()),
                ids_unique(self.objects()),
                ids_below(self.objects(), self.factory.next_id as int),
                contains_id(self.objects(), self.player_id),
                self.objects().len() >= objs0.len(),
                forall|i: int|
                    0 <= i < objs0.len() ==> (#[trigger] self.objects()[i]).uid == objs0[i].uid
                        && self.objects()[i].attributes == objs0[i].attributes
                        && self.objects()[i].position == objs0[i].position
                        && self.objects()[i].move_end_action == objs0[i].move_end_action
                        && self.objects()[i].update_action == objs0[i].update_action,
                forall|i: int|
                    0 <= i < objs0.len() && !member_of_any(
                        groups0,
                        (#[trigger] objs0[i]).uid,
                    ) ==> self.objects()[i] == objs0[i],
                forall|i: int|
                    objs0.len() <= i < self.objects().len() ==> (
                    #[trigger] self.objects()[i]).uid >= next0 && self.objects()[
                        i
                    ].attributes.mob_type == MobType::CreatureProjectile && self.objects()[
                        i
                    ].move_time_left == 2000 && self.objects()[i].update_action
                        == UpdateAction::NoAction && self.objects()[i].move_end_action
                        == MoveEndAction::RemoveFromMap,
                forall|j: int|
                    0 <= j < g ==> (#[trigger] self.mob_groups@[j]).wf()
                        && self.mob_groups@[j].ids_bounded(self.factory.next_id as int),
                forall|j: int|
                    g <= j < groups0.len() ==> (#[trigger] self.mob_groups@[j]) == groups0[j],
                forall|id: u64|
                    !member_of_any(groups0, id) ==> !member_of_any(self.mob_groups@, id),
                crate::mob_group::total_members(self.mob_groups@)
                    <= crate::mob_group::total_members(groups0),
            decreases self.mob_groups@.len() - g,
        {
            proof {
                crate::mob_group::lemma_total_members_prefix(groups0, g as int);
                crate::mob_group::lemma_total_members_prefix(groups0, g + 1);
                assert(self.mob_groups@[g as int] == groups0[g as int]);
                assert(groups0[g as int].wf());
                assert(groups0[g as int].ids_bounded(next0 as int));
                assert forall|i: int|
                    0 <= i < groups0[g as int].members@.len() implies (
                #[trigger] groups0[g as int].members@[i]).id < self.factory.next_id by {}
            }
            let player_id = self.player_id;
            let ghost pre_objs = self.objects();
            let ghost pre_next = self.factory.next_id;
            let ghost pre_groups = self.mob_groups@;
            self.mob_groups[g].update(
                player_id,
                dt,
                &mut self.layers[MAP_OBJECT_LAYER],
                rng,
                &mut self.factory,
            );
            proof {
                crate::mob_group::lemma_total_members_prefix(groups0, g as int);
                crate::mob_group::lemma_total_members_prefix(groups0, g + 1);
                assert forall|i: int|
                    0 <= i < objs0.len() implies (#[trigger] self.objects()[i]).uid == objs0[i].uid
                    && self.objects()[i].attributes == objs0[i].attributes
                    && self.objects()[i].position == objs0[i].position
                    && self.objects()[i].move_end_action == objs0[i].move_end_action
                    && self.objects()[i].update_action == objs0[i].update_action by {
                    assert(pre_objs[i].uid == objs0[i].uid && pre_objs[i].attributes
                        == objs0[i].attributes && pre_objs[i].position == objs0[i].position
                        && pre_objs[i].move_end_action == objs0[i].move_end_action
                        && pre_objs[i].update_action == objs0[i].update_action);
                }
                assert forall|i: int|
                    0 <= i < objs0.len() && !member_of_any(
                        groups0,
                        (#[trigger] objs0[i]).uid,
                    ) implies self.objects()[i] == objs0[i] by {
                    assert(pre_objs[i] == objs0[i]);
                    assert(!crate::mob_group::expiring_member_for(
                        groups0[g as int].members@,
                        pre_objs[i].uid,
                        dt as int,
                    )) by {
                        if crate::mob_group::expiring_member_for(
                            groups0[g as int].members@,
                            pre_objs[i].uid,
                            dt as int,
                        ) {
                            let t = choose|t: int|
                                0 <= t < groups0[g as int].members@.len() && (
                                #[trigger] groups0[g as int].members@[t]).id == pre_objs[i].uid
                                    && groups0[g as int].members@[t].action_countdown - dt < 0;
                            assert(member_of_any(groups0, objs0[i].uid));
                        }
                    }
                }
                assert forall|i: int|
                    objs0.len() <= i < self.objects().len() implies (
                #[trigger] self.objects()[i]).uid >= next0 && self.objects()[
                    i
                ].attributes.mob_type == MobType::CreatureProjectile && self.objects()[
                    i
                ].move_time_left == 2000 && self.objects()[i].update_action
                    == UpdateAction::NoAction && self.objects()[i].move_end_action
                    == MoveEndAction::RemoveFromMap by {
                    if i < pre_objs.len() {
                        assert(!crate::mob_group::expiring_member_for(
                            groups0[g as int].members@,
                            pre_objs[i].uid,
                            dt as int,
                        )) by {
                            if crate::mob_group::expiring_member_for(
                                groups0[g as int].members@,
                                pre_objs[i].uid,
                                dt as int,
                            ) {
                                let t = choose|t: int|
                                    0 <= t < groups0[g as int].members@.len() && (
                                    #[trigger] groups0[g as int].members@[t]).id
                                        == pre_objs[i].uid
                                        && groups0[g as int].members@[t].action_countdown - dt
                                        < 0;
                                assert(groups0[g as int].ids_bounded(next0 as int));
                                assert(groups0[g as int].members@[t].id < next0);
                                assert(pre_objs[i].uid >= next0);
                            }
                        }
                        assert(self.objects()[i] == pre_objs[i]);
                    } else {
                        assert(self.objects()[i].uid >= pre_next);
                        let sp = choose|sp: int|
                            0 <= sp < pre_objs.len() && crate::mob_group::creature_projectile_toward(
                                self.objects()[i],
                                (#[trigger] pre_objs[sp]).position,
                                pre_objs[first_index_of(pre_objs, self.player_id)].position,
                            );
                    }
                }
                assert forall|j: int|
                    0 <= j < g + 1 implies (#[trigger] self.mob_groups@[j]).wf()
                    && self.mob_groups@[j].ids_bounded(self.factory.next_id as int) by {}
                assert(self.mob_groups@ =~= pre_groups.update(
                    g as int,
                    self.mob_groups@[g as int],
                ));
                crate::mob_group::lemma_evolve_shrinks(
                    pre_groups[g as int].members@,
                    self.mob_groups@[g as int].members@,
                    pre_objs,
                    dt as int,
                );
                crate::mob_group::lemma_total_members_update(
                    pre_groups,
                    g as int,
                    self.mob_groups@[g as int],
                );
                assert forall|id: u64|
                    !member_of_any(groups0, id) implies !member_of_any(
                    self.mob_groups@,
                    id,
                ) by {
                    if member_of_any(self.mob_groups@, id) {
                        let (h, t) = choose|h: int, t: int|
                            0 <= h < self.mob_groups@.len() && 0 <= t
                                < self.mob_groups@[h].members@.len() && (
                            #[trigger] self.mob_groups@[h].members@[t]).id == id;
                        if h == g {
                            let w = choose|w: int|
                                0 <= w < pre_groups[g as int].members@.len() && (
                                #[trigger] self.mob_groups@[g as int].members@[t]).id
                                    == pre_groups[g as int].members@[w].id;
                            assert(pre_groups[g as int] == groups0[g as int]);
                            assert(member_of_any(groups0, id));
                        } else {
                            assert(self.mob_groups@[h] == pre_groups[h]);
                            assert(member_of_any(pre_groups, id));
                        }
                    }
                }
            }
            g = g + 1;
        }
        proof {
            assert(groups0.take(groups0.len() as int) =~= groups0);
            assert forall|i: int|
                0 <= i < self.objects().len() && (#[trigger] self.objects()[i]).uid
                    == self.player_id implies self.objects()[i].attributes.mob_type
                == MobType::Player by {
                if i < objs0.len() {
                    assert(objs0[i].uid == self.player_id);
                } else {
                    assert(self.objects()[i].uid >= next0);
                    assert(objs0[first_index_of(objs0, self.player_id)].uid == self.player_id);
                    lemma_first_id_position(objs0, self.player_id);
                    assert(self.player_id < next0);
                    assert(false);
                }
            }
        }
    }

    /// Deferred-removal phase: every entity whose id is on the kill list
    /// leaves its layer, and any animation entry keyed by it is dropped.
    /// Exactly one entity is the player at any time — the store invariant —
    /// so a removal wish against the player id is ignored entirely.
    #[verifier::rlimit(100)]
    fn remove_entities(&mut self, kill_list: &Vec<u64>)
        requires
            old(self).wf(),
        ensures
            final(self).wf(),
            final(self).layers@.len() == MAP_LAYER_COUNT,
            forall|l: int|
                0 <= l < MAP_LAYER_COUNT && l != MAP_OBJECT_LAYER
                    ==> (#[trigger] final(self).layers@[l])@ == old(self).layers@[l]@,
            final(self).player_id == old(self).player_id,
            final(self).transitions@ == old(self).transitions@,
            final(self).factory == old(self).factory,
            final(self).mob_groups@ == old(self).mob_groups@,
            final(self).name == old(self).name,
            final(self).map_image_name == old(self).map_image_name,
            final(self).backdrop_image_name == old(self).backdrop_image_name,
            final(self).has_selection == old(self).has_selection,
            final(self).selected_item == old(self).selected_item,
            final(self).selected_layer == old(self).selected_layer,
            final(self).items == old(self).items,
            contains_id(final(self).objects(), final(self).player_id),
            forall|t: int|
                0 <= t < kill_list@.len() && (#[trigger] kill_list@[t]) != old(self).player_id
                    ==> !contains_id(final(self).objects(), kill_list@[t]),
            forall|id: u64|
                contains_id(old(self).objects(), id) && !kill_list@.contains(id)
                    ==> contains_id(final(self).objects(), id),
            forall|j: int|
                0 <= j < final(self).objects().len() ==> old(self).objects().contains(
                    #[trigger] final(self).objects()[j],
                ),
            forall|j: int|
                0 <= j < final(self).animations@.len() ==> old(self).animations@.contains(
                    #[trigger] final(self).animations@[j],
                ) && (kill_list@.contains(final(self).animations@[j].0)
                    ==> final(self).animations@[j].0 == old(self).player_id),
            forall|j: int|
                0 <= j < old(self).animations@.len() && (!kill_list@.contains(
                    (#[trigger] old(self).animations@[j]).0,
                ) || old(self).animations@[j].0 == old(self).player_id)
                    ==> final(self).animations@.contains(old(self).animations@[j]),
    {
        let ghost objs0 = self.objects();
        let ghost anims0 = self.animations@;
        let mut k: usize = 0;
        while k < kill_list.len()
            invariant
                k <= kill_list@.len(),
                self.wf(),
                objs0 == old(self).objects(),
                anims0 == old(self).animations@,
                self.layers@.len() == MAP_LAYER_COUNT,
                forall|l: int|
                    0 <= l < MAP_LAYER_COUNT && l != MAP_OBJECT_LAYER
                        ==> (#[trigger] self.layers@[l])@ == old(self).layers@[l]@,
                self.player_id == old(self).player_id,
                self.transitions@ == old(self).transitions@,
                self.factory == old(self).factory,
                self.mob_groups@ == old(self).mob_groups@,
                self.name == old(self).name,
                self.map_image_name == old(self).map_image_name,
                self.backdrop_image_name == old(self).backdrop_image_name,
                self.has_selection == old(self).has_selection,
                self.selected_item == old(self).selected_item,
                self.selected_layer == old(self).selected_layer,
                self.items == old(self).items,
                forall|t: int|
                    0 <= t < k && (#[trigger] kill_list@[t]) != old(self).player_id
                        ==> !contains_id(self.objects(), kill_list@[t]),
                forall|id: u64|
                    contains_id(objs0, id) && !kill_list@.contains(id) ==> contains_id(
                        self.objects(),
                        id,
                    ),
                forall|j: int|
                    0 <= j < self.objects().len() ==> objs0.contains(
                        #[trigger] self.objects()[j],
                    ),
                forall|j: int|
                    0 <= j < self.animations@.len() ==> anims0.contains(
                        #[trigger] self.animations@[j],
                    ),
                forall|j: int, t: int|
                    0 <= j < self.animations@.len() && 0 <= t < k && (
                    #[trigger] kill_list@[t]) == (#[trigger] self.animations@[j]).0
                        ==> kill_list@[t] == old(self).player_id,
                forall|j: int|
                    0 <= j < anims0.len() && (!kill_list@.contains((#[trigger] anims0[j]).0)
                        || anims0[j].0 == old(self).player_id) ==> self.animations@.contains(
                        anims0[j],
                    ),
            decreases kill_list@.len() - k,
        {
            let id = kill_list[k];
            if id != self.player_id {
                let ghost pre = self.objects();
                match GameMap::find_index(&self.layers[MAP_OBJECT_LAYER], id) {
                    Some(i) => {
                        let removed = self.layers[MAP_OBJECT_LAYER].remove(i);
                        proof {
                            lemma_store_remove_keeps(pre, i as int, self.factory.next_id as int);
                            assert forall|j: int|
                                0 <= j < self.objects().len() implies pre.contains(
                                #[trigger] self.objects()[j],
                            ) && self.objects()[j].uid != id by {
                                if j < i {
                                    assert(self.objects()[j] == pre[j]);
                                    assert(ids_unique(pre));
                                } else {
                                    assert(self.objects()[j] == pre[j + 1]);
                                    assert(ids_unique(pre));
                                }
                            }
                            assert(contains_id(self.objects(), self.player_id)) by {
                                let w = choose|w: int|
                                    0 <= w < pre.len() && (#[trigger] pre[w]).uid
                                        == self.player_id;
                                if w < i {
                                    assert(self.objects()[w].uid == self.player_id);
                                } else {
                                    assert(w != i);
                                    assert(self.objects()[w - 1].uid == self.player_id);
                                }
                            }
                            assert forall|j: int|
                                0 <= j < self.objects().len() && (#[trigger] self.objects()[j]).uid
                                    == self.player_id implies self.objects()[j].attributes.mob_type
                                == MobType::Player by {
                                if j < i {
                                    assert(self.objects()[j] == pre[j]);
                                } else {
                                    assert(self.objects()[j] == pre[j + 1]);
                                }
                            }
                            assert forall|x: u64|
                                contains_id(pre, x) && x != id implies contains_id(
                                self.objects(),
                                x,
                            ) by {
                                let w = choose|w: int|
                                    0 <= w < pre.len() && (#[trigger] pre[w]).uid == x;
                                assert(pre[i as int].uid == id);
                                if w < i {
                                    assert(self.objects()[w].uid == x);
                                } else {
                                    assert(w != i);
                                    assert(self.objects()[w - 1].uid == x);
                                }
                            }
                            assert forall|x: u64|
                                !contains_id(pre, x) implies !contains_id(
                                self.objects(),
                                x,
                            ) by {
                                if contains_id(self.objects(), x) {
                                    let w = choose|w: int|
                                        0 <= w < self.objects().len() && (
                                        #[trigger] self.objects()[w]).uid == x;
                                    assert(pre.contains(self.objects()[w]));
                                    let v = choose|v: int|
                                        0 <= v < pre.len() && pre[v] == self.objects()[w];
                                    assert(pre[v].uid == x);
                                }
                            }
                            assert forall|j: int|
                                0 <= j < self.objects().len() implies objs0.contains(
                                #[trigger] self.objects()[j],
                            ) by {
                                assert(pre.contains(self.objects()[j]));
                                let v = choose|v: int|
                                    0 <= v < pre.len() && pre[v] == self.objects()[j];
                                assert(objs0.contains(pre[v]));
                            }
                            assert(!contains_id(self.objects(), id));
                        }
                    },
                    None => {},
                }
                self.drop_animation(id);
            }
            proof {
                assert(kill_list@[k as int] == id);
            }
            k = k + 1;
        }
    }

    /// Drops every animation-table entry keyed by `id`.
    fn drop_animation(&mut self, id: u64)
        requires
            old(self).wf(),
        ensures
            final(self).wf(),
            final(self).animations@.len() <= old(self).animations@.len(),
            forall|j: int|
                0 <= j < final(self).animations@.len()
                    ==> (#[trigger] final(self).animations@[j]).0 != id,
            forall|j: int|
                0 <= j < final(self).animations@.len() ==> old(self).animations@.contains(
                    #[trigger] final(self).animations@[j],
                ),
            forall|j: int|
                0 <= j < old(self).animations@.len() && (#[trigger] old(self).animations@[j]).0
                    != id ==> final(self).animations@.contains(old(self).animations@[j]),
            (GameMap { animations: old(self).animations, ..*final(self) }) == *old(self),
    {
        let mut kept: Vec<(u64, Animation)> = Vec::new();
        let mut j: usize = 0;
        while j < self.animations.len()
            invariant
                j <= self.animations@.len(),
                self.animations@ == old(self).animations@,
                self.wf(),
                kept@.len() <= j,
                forall|t: int| 0 <= t < kept@.len() ==> (#[trigger] kept@[t]).0 != id,
                forall|t: int| 0 <= t < kept@.len() ==> (#[trigger] kept@[t]).1.wf(),
                forall|t: int|
                    0 <= t < kept@.len() ==> old(self).animations@.contains(#[trigger] kept@[t]),
                forall|u: int|
                    0 <= u < j && (#[trigger] old(self).animations@[u]).0 != id
                        ==> kept@.contains(old(self).animations@[u]),
            decreases self.animations@.len() - j,
        {
            let entry = self.animations[j];
            if entry.0 != id {
                proof {
                    assert(self.animations@[j as int].1.wf());
                }
                let ghost kept0 = kept@;
                kept.push(entry);
                proof {
                    assert(kept@.last() == old(self).animations@[j as int]);
                    assert forall|u: int|
                        0 <= u < j + 1 && (#[trigger] old(self).animations@[u]).0 != id implies
                        kept@.contains(old(self).animations@[u]) by {
                        if u < j {
                            let w = choose|w: int|
                                0 <= w < kept0.len() && kept0[w] == old(self).animations@[u];
                            assert(kept@[w] == old(self).animations@[u]);
                        } else {
                            assert(kept@[kept@.len() - 1] == old(self).animations@[u]);
                        }
                    }
                }
            }
            j = j + 1;
        }
        self.animations = kept;
        proof {
            assert(GameMap { animations: old(self).animations, ..*final(self) } =~= *old(self));
        }
    }

    /// Motion and side-effects phase of the tick, over every entity of the
    /// object layer in order: integrate the timed move; when the move just
    /// ended, clear the entity's particles and queue it for removal if its
    /// move-end action says so; roll the ambient particle spawn; age the
    /// particle pool; apply the entity's animation behavior, if one is
    /// registered; finally queue removal or emit drive particles as the
    /// entity's update action directs. Removals are only collected here; the
    /// layer itself is not touched, so the iteration is safe.
    fn update_motion(&mut self, dt: i64, rng: &mut rand::rngs::StdRng) -> (kill_list: Vec<u64>)
        requires
            old(self).wf(),
            crate::num::dt_ok(dt as int),
        ensures
            final(self).wf(),
            final(self).layers@.len() == MAP_LAYER_COUNT,
            forall|l: int|
                0 <= l < MAP_LAYER_COUNT && l != MAP_OBJECT_LAYER
                    ==> (#[trigger] final(self).layers@[l])@ == old(self).layers@[l]@,
            final(self).player_id == old(self).player_id,
            final(self).animations@ == old(self).animations@,
            final(self).transitions@ == old(self).transitions@,
            final(self).mob_groups@ == old(self).mob_groups@,
            final(self).factory == old(self).factory,
            final(self).name == old(self).name,
            final(self).map_image_name == old(self).map_image_name,
            final(self).backdrop_image_name == old(self).backdrop_image_name,
            final(self).has_selection == old(self).has_selection,
            final(self).selected_item == old(self).selected_item,
            final(self).selected_layer == old(self).selected_layer,
            final(self).items == old(self).items,
            final(self).objects().len() == old(self).objects().len(),
            forall|i: int|
                0 <= i < old(self).objects().len() ==> (#[trigger] final(self).objects()[i]).uid
                    == old(self).objects()[i].uid && final(self).objects()[i].attributes
                    == old(self).objects()[i].attributes
                    && final(self).objects()[i].move_end_action
                    == old(self).objects()[i].move_end_action
                    && final(self).objects()[i].velocity == old(self).objects()[i].velocity
                    && final(self).objects()[i].position == moved(
                    old(self).objects()[i],
                    dt as int,
                ).position && final(self).objects()[i].move_time_left == moved(
                    old(self).objects()[i],
                    dt as int,
                ).move_time_left,
            forall|i: int|
                0 <= i < old(self).objects().len() && (#[trigger] old(self).objects()[i]).update_action == UpdateAction::RemoveFromMap
                    ==> kill_list@.contains(old(self).objects()[i].uid),
            forall|i: int|
                0 <= i < old(self).objects().len() && 0 < (#[trigger] old(self).objects()[i]).move_time_left <= dt && old(self).objects()[i].move_end_action
                    == MoveEndAction::RemoveFromMap ==> kill_list@.contains(
                    old(self).objects()[i].uid,
                ),
    {
        let ghost objs0 = self.objects();
        let mut kill_list: Vec<u64> = Vec::new();
        let mut i: usize = 0;
        while i < self.layers[MAP_OBJECT_LAYER].len()
            invariant
                old(self).wf(),
                crate::num::dt_ok(dt as int),
                objs0 == old(self).objects(),
                self.layers@.len() == MAP_LAYER_COUNT,
                i <= self.objects().len(),
                forall|l: int|
                    0 <= l < MAP_LAYER_COUNT && l != MAP_OBJECT_LAYER
                        ==> (#[trigger] self.layers@[l])@ == old(self).layers@[l]@,
                self.player_id == old(self).player_id,
                self.animations@ == old(self).animations@,
                self.transitions@ == old(self).transitions@,
                self.mob_groups@ == old(self).mob_groups@,
                self.factory == old(self).factory,
                self.name == old(self).name,
                self.map_image_name == old(self).map_image_name,
                self.backdrop_image_name == old(self).backdrop_image_name,
                self.has_selection == old(self).has_selection,
                self.selected_item == old(self).selected_item,
                self.selected_layer == old(self).selected_layer,
                self.items == old(self).items,
                self.objects().len() == objs0.len(),
                all_wf(self.objects()),
                forall|j: int|
                    0 <= j < i ==> (#[trigger] self.objects()[j]).uid == objs0[j].uid
                        && self.objects()[j].attributes == objs0[j].attributes
                        && self.objects()[j].move_end_action == objs0[j].move_end_action
                        && self.objects()[j].velocity == objs0[j].velocity
                        && self.objects()[j].position == moved(objs0[j], dt as int).position
                        && self.objects()[j].move_time_left == moved(
                        objs0[j],
                        dt as int,
                    ).move_time_left,
                forall|j: int| i <= j < objs0.len() ==> (#[trigger] self.objects()[j]) == objs0[j],
                forall|j: int|
                    0 <= j < i && (#[trigger] objs0[j]).update_action
                        == UpdateAction::RemoveFromMap ==> kill_list@.contains(objs0[j].uid),
                forall|j: int|
                    0 <= j < i && 0 < (#[trigger] objs0[j]).move_time_left <= dt
                        && objs0[j].move_end_action == MoveEndAction::RemoveFromMap
                        ==> kill_list@.contains(objs0[j].uid),
            decreases self.objects().len() - i,
        {
            proof {
                assert(self.objects()[i as int].wf());
                assert(self.objects()[i as int] == objs0[i as int]);
            }
            let uid = self.layers[MAP_OBJECT_LAYER][i].uid;
            let anim_opt = find_animation(&self.animations, uid);
            proof {
                lemma_anim_for_entry(self.animations@, uid);
            }
            let ghost kills0 = kill_list@;
            let kill = tick_entity(&mut self.layers[MAP_OBJECT_LAYER][i], anim_opt, dt, rng);
            if kill {
                kill_list.push(uid);
                proof {
                    assert(kill_list@ == kills0.push(uid));
                    assert(kill_list@[kill_list@.len() - 1] == uid);
                    assert(forall|t: int|
                        0 <= t < kills0.len() ==> kill_list@[t] == (#[trigger] kills0[t]));
                    assert(forall|x: u64| kills0.contains(x) ==> kill_list@.contains(x));
                }
            }
            i = i + 1;
        }
        proof {
            assert forall|l: int| 0 <= l < MAP_LAYER_COUNT implies all_wf(
                (#[trigger] self.layers@[l])@,
            ) && ids_unique(self.layers@[l]@) && ids_below(
                self.layers@[l]@,
                self.factory.next_id as int,
            ) by {
                if l != MAP_OBJECT_LAYER {
                    assert(self.layers@[l]@ == old(self).layers@[l]@);
                } else {
                    assert forall|a: int, b: int|
                        0 <= a < b < self.objects().len() implies (
                    #[trigger] self.objects()[a]).uid != (#[trigger] self.objects()[b]).uid by {
                        assert(self.objects()[a].uid == objs0[a].uid);
                        assert(self.objects()[b].uid == objs0[b].uid);
                        assert(ids_unique(objs0));
                    }
                    assert forall|a: int|
                        0 <= a < self.objects().len() implies (#[trigger] self.objects()[a]).uid
                        < self.factory.next_id by {
                        assert(self.objects()[a].uid == objs0[a].uid);
                        assert(ids_below(objs0, old(self).factory.next_id as int));
                    }
                }
            }
            assert(contains_id(self.objects(), self.player_id)) by {
                let w = choose|w: int|
                    0 <= w < objs0.len() && (#[trigger] objs0[w]).uid == old(self).player_id;
                assert(self.objects()[w].uid == self.player_id);
            }
        }
        kill_list
    }

    /// Collision phase of the tick: scans the object layer read-only and
    /// collects, for every projectile, the nearest other entity within the
    /// hit radius as a candidate `(projectile, target)` pair. Nothing is
    /// mutated during the scan.
    fn collect_hits(&self) -> (hits: Vec<(u64, u64)>)
        requires
            self.wf(),
        ensures
            forall|k: int|
                0 <= k < hits@.len() ==> is_hit_pair(
                    self.objects(),
                    (#[trigger] hits@[k]).0,
                    hits@[k].1,
                ),
    {
        let mut hits: Vec<(u64, u64)> = Vec::new();
        let mut i: usize = 0;
        while i < self.layers[MAP_OBJECT_LAYER].len()
            invariant
                self.wf(),
                i <= self.objects().len(),
                forall|k: int|
                    0 <= k < hits@.len() ==> is_hit_pair(
                        self.objects(),
                        (#[trigger] hits@[k]).0,
                        hits@[k].1,
                    ),
            decreases self.objects().len() - i,
        {
            proof {
                assert(self.objects()[i as int].wf());
            }
            let mob_type = self.layers[MAP_OBJECT_LAYER][i].attributes.mob_type;
            if mob_type == MobType::PlayerProjectile || mob_type == MobType::CreatureProjectile {
                let uid = self.layers[MAP_OBJECT_LAYER][i].uid;
                let position = self.layers[MAP_OBJECT_LAYER][i].position;
                let target = self.find_nearest_object(
                    MAP_OBJECT_LAYER,
                    &position,
                    HIT_RADIUS,
                    uid,
                );
                match target {
                    Some(tid) => {
                        proof {
                            let j = choose|j: int|
                                {
                                    &&& #[trigger] nearest_candidate(
                                        self.objects(),
                                        position,
                                        HIT_RADIUS as int,
                                        uid,
                                        j,
                                    )
                                    &&& self.objects()[j].uid == tid
                                };
                            assert(is_hit_pair(self.objects(), uid, tid));
                        }
                        hits.push((uid, tid));
                    },
                    None => {},
                }
            }
            i = i + 1;
        }
        hits
    }

    /// Resolution of one candidate hit: the hit counts exactly when the
    /// projectile is a player projectile, the target a creature with hit
    /// points left. A valid hit scatters a burst of spark particles at the
    /// target, zeroes its tint, and takes a fixed amount of damage off its
    /// hit points (saturating); an invalid one changes nothing. Nothing else
    /// on the map is touched either way.
    fn handle_projectile_hit(
        &mut self,
        projectile_uid: u64,
        target_uid: u64,
        rng: &mut rand::rngs::StdRng,
    ) -> (valid: bool)
        requires
            old(self).wf(),
            contains_id(old(self).objects(), projectile_uid),
            contains_id(old(self).objects(), target_uid),
        ensures
            final(self).wf(),
            ({
                let objs = old(self).objects();
                let pi = first_index_of(objs, projectile_uid);
                let ti = first_index_of(objs, target_uid);
                &&& valid == valid_hit(
                    objs[pi].attributes.mob_type,
                    objs[ti].attributes.mob_type,
                    objs[ti].attributes.hit_points as int,
                )
                &&& final(self).objects().len() == objs.len()
                &&& forall|j: int|
                    0 <= j < objs.len() && j != ti ==> (#[trigger] final(self).objects()[j])
                        == objs[j]
                &&& final(self).objects()[ti].uid == objs[ti].uid
                &&& final(self).objects()[ti].attributes.mob_type
                    == objs[ti].attributes.mob_type
                &&& final(self).objects()[ti].position == objs[ti].position
                &&& final(self).objects()[ti].velocity == objs[ti].velocity
                &&& final(self).objects()[ti].move_time_left == objs[ti].move_time_left
                &&& final(self).objects()[ti].move_end_action == objs[ti].move_end_action
                &&& final(self).objects()[ti].update_action == objs[ti].update_action
                &&& final(self).objects()[ti].animation_timer == objs[ti].animation_timer
                &&& if valid {
                    final(self).objects()[ti].visual.color == (Rgba { r: 0, g: 0, b: 0, a: 0 })
                        && final(self).objects()[ti].attributes.hit_points as int == damaged(
                        objs[ti].attributes.hit_points as int,
                    ) && spark_burst(
                        objs[ti].visual.particles,
                        final(self).objects()[ti].visual.particles,
                        (objs[ti].visual.height as int) * (objs[ti].scale as int) / 2_000_000,
                    )
                } else {
                    final(self).objects()[ti] == objs[ti]
                }
            }),
            final(self).layers@.len() == MAP_LAYER_COUNT,
            forall|l: int|
                0 <= l < MAP_LAYER_COUNT && l != MAP_OBJECT_LAYER
                    ==> (#[trigger] final(self).layers@[l])@ == old(self).layers@[l]@,
            final(self).player_id == old(self).player_id,
            final(self).animations@ == old(self).animations@,
            final(self).transitions@ == old(self).transitions@,
            final(self).mob_groups@ == old(self).mob_groups@,
            final(self).factory == old(self).factory,
            final(self).name == old(self).name,
            final(self).map_image_name == old(self).map_image_name,
            final(self).backdrop_image_name == old(self).backdrop_image_name,
            final(self).has_selection == old(self).has_selection,
            final(self).selected_item == old(self).selected_item,
            final(self).selected_layer == old(self).selected_layer,
            final(self).items == old(self).items,
    {
        let ghost objs0 = self.objects();
        let pi = match GameMap::find_index(&self.layers[MAP_OBJECT_LAYER], projectile_uid) {
            Some(i) => i,
            None => {
                proof {
                    assert(false);
                }
                0
            },
        };
        let ti = match GameMap::find_index(&self.layers[MAP_OBJECT_LAYER], target_uid) {
            Some(i) => i,
            None => {
                proof {
                    assert(false);
                }
                0
            },
        };
        proof {
            lemma_first_index_agrees(objs0, projectile_uid, pi as int);
            lemma_first_index_agrees(objs0, target_uid, ti as int);
            assert(objs0[pi as int].wf());
            assert(objs0[ti as int].wf());
        }
        let projectile_type = self.layers[MAP_OBJECT_LAYER][pi].attributes.mob_type;
        let target_type = self.layers[MAP_OBJECT_LAYER][ti].attributes.mob_type;
        let target_hp = self.layers[MAP_OBJECT_LAYER][ti].attributes.hit_points;
        let compatible = !(projectile_type == MobType::PlayerProjectile && target_type
            == MobType::Player) && !(projectile_type == MobType::CreatureProjectile && target_type
            == MobType::Creature);
        if !(compatible && target_hp > 0) {
            return false;
        }
        let height = self.layers[MAP_OBJECT_LAYER][ti].visual.height;
        let scale = self.layers[MAP_OBJECT_LAYER][ti].scale;
        proof {
            assert((height as int) * (scale as int) <= 0x1000_0000_0000_0000
                && (height as int) * (scale as int) >= 0) by (nonlinear_arith)
                requires
                    0 <= height <= MAX_SCALAR,
                    0 <= scale <= MAX_SCALAR,
            ;
        }
        let z_off: i64 = (((height as i128) * (scale as i128)) / 2_000_000) as i64;
        proof {
            vstd::arithmetic::div_mod::lemma_div_pos_is_pos(
                (height as int) * (scale as int),
                2_000_000,
            );
            vstd::arithmetic::div_mod::lemma_div_is_ordered(
                (height as int) * (scale as int),
                0x1000_0000_0000_0000,
                2_000_000,
            );
            assert(0 <= (height as int) * (scale as int) / 2_000_000 < MAX_COORD);
        }
        let mut it: usize = 0;
        let ghost struck0 = objs0[ti as int];
        while it < 10
            invariant
                it <= 10,
                0 <= ti < self.objects().len(),
                self.objects().len() == objs0.len(),
                crate::num::coord_ok(z_off as int),
                z_off >= 0,
                forall|j: int|
                    0 <= j < objs0.len() && j != ti ==> (#[trigger] self.objects()[j])
                        == objs0[j],
                self.layers@.len() == MAP_LAYER_COUNT,
                forall|l: int|
                    0 <= l < MAP_LAYER_COUNT && l != MAP_OBJECT_LAYER
                        ==> (#[trigger] self.layers@[l])@ == old(self).layers@[l]@,
                self.player_id == old(self).player_id,
                self.animations@ == old(self).animations@,
                self.transitions@ == old(self).transitions@,
                self.mob_groups@ == old(self).mob_groups@,
                self.factory == old(self).factory,
                self.name == old(self).name,
                self.map_image_name == old(self).map_image_name,
                self.backdrop_image_name == old(self).backdrop_image_name,
                self.has_selection == old(self).has_selection,
                self.selected_item == old(self).selected_item,
                self.selected_layer == old(self).selected_layer,
                self.items == old(self).items,
                self.objects()[ti as int].wf(),
                self.objects()[ti as int].uid == struck0.uid,
                self.objects()[ti as int].attributes.mob_type == struck0.attributes.mob_type,
                self.objects()[ti as int].attributes.base_speed
                    == struck0.attributes.base_speed,
                self.objects()[ti as int].position == struck0.position,
                self.objects()[ti as int].velocity == struck0.velocity,
                self.objects()[ti as int].move_time_left == struck0.move_time_left,
                self.objects()[ti as int].move_end_action == struck0.move_end_action,
                self.objects()[ti as int].update_action == struck0.update_action,
                self.objects()[ti as int].animation_timer == struck0.animation_timer,
                self.objects()[ti as int].scale == struck0.scale,
                struck0 == objs0[ti as int],
                self.objects()[ti as int].attributes.hit_points as int == damaged_by(
                    struck0.attributes.hit_points as int,
                    it as int,
                ),
                self.objects()[ti as int].visual.height == struck0.visual.height,
                z_off as int == (struck0.visual.height as int) * (struck0.scale as int)
                    / 2_000_000,
                spark_burst(
                    struck0.visual.particles,
                    self.objects()[ti as int].visual.particles,
                    z_off as int,
                ),
                it > 0 ==> self.objects()[ti as int].visual.color == (Rgba {
                    r: 0,
                    g: 0,
                    b: 0,
                    a: 0,
                }),
            decreases 10 - it,
        {
            let j1: i64 = rng_below(rng, 2001) as i64 - 1000;
            let j2: i64 = rng_below(rng, 2001) as i64 - 1000;
            let j3: i64 = rng_below(rng, 1001) as i64;
            let pick = rng_below(rng, 7);
            let tile: usize = if pick == 0 {
                403
            } else if pick == 1 {
                404
            } else if pick == 2 {
                1993
            } else if pick == 3 {
                1994
            } else if pick == 4 {
                1995
            } else if pick == 5 {
                1996
            } else {
                1997
            };
            let speed: i64 = if tile == 403 {
                100
            } else {
                100 + rng_below(rng, 50) as i64
            };
            let xv = crate::num::scale_toward(j1, speed, 1000);
            let yv = crate::num::scale_toward(j2, speed, 1000);
            let zv = crate::num::scale_toward(j3, speed, 1000);
            let color = crate::particles::Rgb {
                r: (800 + rng_below(rng, 401)) as u16,
                g: (500 + rng_below(rng, 401)) as u16,
                b: (100 + rng_below(rng, 401)) as u16,
            };
            proof {
                assert((j3 as int) * (speed as int) >= 0) by (nonlinear_arith)
                    requires
                        j3 >= 0,
                        speed >= 1,
                ;
                vstd::arithmetic::div_mod::lemma_div_pos_is_pos(
                    (j3 as int) * (speed as int),
                    1000,
                );
            }
            let ghost pool_pre = self.objects()[ti as int].visual.particles;
            let added = self.layers[MAP_OBJECT_LAYER][ti].visual.particles.add_particle(
                0,
                0,
                z_off,
                xv,
                yv,
                zv,
                700,
                tile,
                color,
            );
            proof {
                let p0 = struck0.visual.particles;
                let p1 = self.objects()[ti as int].visual.particles;
                let fi = crate::particles::first_free_at(pool_pre.slots(), pool_pre.search_cursor());
                crate::particles::lemma_first_free_at_ge(
                    pool_pre.slots(),
                    pool_pre.search_cursor(),
                );
                if fi < crate::particles::PMAX as int {
                    assert(p1.slots() == pool_pre.slots().update(fi, p1.slots()[fi]));
                    assert(!pool_pre.slots()[fi].active);
                    assert(is_spark(p1.slots()[fi], z_off as int));
                    assert forall|s2: int|
                        0 <= s2 < crate::particles::PMAX && (#[trigger] p0.slots()[s2]).active implies
                        p1.slots()[s2] == p0.slots()[s2] by {
                        assert(pool_pre.slots()[s2] == p0.slots()[s2]);
                        assert(s2 != fi);
                    }
                    assert forall|s2: int|
                        0 <= s2 < crate::particles::PMAX && !(#[trigger] p0.slots()[s2]).active
                            && p1.slots()[s2].active implies is_spark(
                        p1.slots()[s2],
                        z_off as int,
                    ) by {
                        if s2 != fi {
                            assert(p1.slots()[s2] == pool_pre.slots()[s2]);
                        }
                    }
                    assert(spark_burst(p0, p1, z_off as int));
                } else {
                    assert(p1.slots() == pool_pre.slots());
                    assert(spark_burst(p0, p1, z_off as int));
                }
            }
            self.layers[MAP_OBJECT_LAYER][ti].visual.color = Rgba { r: 0, g: 0, b: 0, a: 0 };
            let hp = self.layers[MAP_OBJECT_LAYER][ti].attributes.hit_points;
            self.layers[MAP_OBJECT_LAYER][ti].attributes.hit_points = if hp >= i32::MIN + 10 {
                hp - 10
            } else {
                i32::MIN
            };
            it = it + 1;
        }
        proof {
            assert forall|l: int| 0 <= l < MAP_LAYER_COUNT implies all_wf(
                (#[trigger] self.layers@[l])@,
            ) && ids_unique(self.layers@[l]@) && ids_below(
                self.layers@[l]@,
                self.factory.next_id as int,
            ) by {
                if l != MAP_OBJECT_LAYER {
                    assert(self.layers@[l]@ == old(self).layers@[l]@);
                } else {
                    assert forall|a: int| 0 <= a < self.objects().len() implies (
                    #[trigger] self.objects()[a]).wf() && self.objects()[a].uid
                        < self.factory.next_id by {
                        if a != ti {
                            assert(self.objects()[a] == objs0[a]);
                        }
                    }
                    assert forall|a: int, b: int|
                        0 <= a < b < self.objects().len() implies (
                    #[trigger] self.objects()[a]).uid != (#[trigger] self.objects()[b]).uid by {
                        assert(self.objects()[a].uid == objs0[a].uid);
                        assert(self.objects()[b].uid == objs0[b].uid);
                        assert(ids_unique(objs0));
                    }
                }
            }
            assert(contains_id(self.objects(), self.player_id)) by {
                let w = choose|w: int|
                    0 <= w < objs0.len() && (#[trigger] objs0[w]).uid == old(self).player_id;
                assert(self.objects()[w].uid == self.player_id);
            }
            assert forall|j: int|
                0 <= j < self.objects().len() && (#[trigger] self.objects()[j]).uid
                    == self.player_id implies self.objects()[j].attributes.mob_type
                == MobType::Player by {
                assert(self.objects()[j].uid == objs0[j].uid);
                if j != ti {
                    assert(self.objects()[j] == objs0[j]);
                }
            }
        }
        true
    }

    /// One tick of the update pipeline, with frame delta `dt` in
    /// milliseconds: the creature groups act first (their projectiles are
    /// integrated and hit-tested this same tick), then every entity
    /// integrates motion, particles and animation, then projectile hits are
    /// collected read-only and resolved, and finally every entity queued for
    /// removal leaves the store together with its animation entry. The
    /// player entity always survives the tick, and the returned sounds are
    /// the hit sounds this tick produced.
    #[verifier::rlimit(100)]
    pub fn update(&mut self, dt: i64, rng: &mut rand::rngs::StdRng) -> (sounds: Vec<Sound>)
        requires
            old(self).wf(),
            crate::num::dt_ok(dt as int),
            old(self).factory.next_id + crate::mob_group::total_members(old(self).mob_groups@)
                < u64::MAX,
        ensures
            final(self).wf(),
            final(self).player_id == old(self).player_id,
            contains_id(final(self).objects(), final(self).player_id),
            final(self).transitions@ == old(self).transitions@,
            final(self).name == old(self).name,
            final(self).map_image_name == old(self).map_image_name,
            final(self).backdrop_image_name == old(self).backdrop_image_name,
            final(self).items == old(self).items,
            forall|l: int|
                0 <= l < MAP_LAYER_COUNT && l != MAP_OBJECT_LAYER
                    ==> (#[trigger] final(self).layers@[l])@ == old(self).layers@[l]@,
            old(self).factory.next_id <= final(self).factory.next_id,
            forall|k: int| 0 <= k < sounds@.len() ==> (#[trigger] sounds@[k]) == Sound::FireballHit,
            // Deferred removal: an entity that asked to be removed is gone
            // by the end of the tick (the player alone is spared: exactly
            // one player exists at any time).
            forall|i: int|
                0 <= i < old(self).objects().len() && (#[trigger] old(self).objects()[i]).update_action == UpdateAction::RemoveFromMap && old(self).objects()[i].uid != old(self).player_id ==> !contains_id(
                    final(self).objects(),
                    old(self).objects()[i].uid,
                ),
            // A move that runs out this tick with a removal wish removes the
            // entity, unless a creature group steers it (the group may have
            // issued a new move first).
            forall|i: int|
                0 <= i < old(self).objects().len() && 0 < (#[trigger] old(self).objects()[i]).move_time_left <= dt && old(self).objects()[i].move_end_action
                    == MoveEndAction::RemoveFromMap && old(self).objects()[i].uid != old(self).player_id && !member_of_any(old(self).mob_groups@, old(self).objects()[i].uid)
                    ==> !contains_id(final(self).objects(), old(self).objects()[i].uid),
            // An entity no group steers and with zero velocity does not
            // move: nothing but motion integration changes a position.
            forall|i: int, j: int|
                0 <= i < old(self).objects().len() && 0 <= j < final(self).objects().len() && (
                #[trigger] old(self).objects()[i]).velocity == (Vec2 { x: 0i64, y: 0i64 })
                    && !member_of_any(old(self).mob_groups@, old(self).objects()[i].uid) && (
                #[trigger] final(self).objects()[j]).uid == old(self).objects()[i].uid ==> final(self).objects()[j].position == old(self).objects()[i].position,
            // A surviving entity no group steers has lost exactly `dt` of
            // its running move.
            forall|i: int, j: int|
                0 <= i < old(self).objects().len() && 0 <= j < final(self).objects().len()
                    && !member_of_any(old(self).mob_groups@, (#[trigger] old(self).objects()[i]).uid) && (#[trigger] final(self).objects()[j]).uid == old(self).objects()[i].uid ==> final(self).objects()[j].move_time_left == moved(
                    old(self).objects()[i],
                    dt as int,
                ).move_time_left,
            // A projectile the AI fired this tick was integrated this same
            // tick: any surviving fresh entity is a creature projectile with
            // `dt` of its two-second flight already consumed.
            forall|j: int|
                0 <= j < final(self).objects().len() && (#[trigger] final(self).objects()[j]).uid
                    >= old(self).factory.next_id ==> final(self).objects()[j].attributes.mob_type
                    == MobType::CreatureProjectile && final(self).objects()[j].move_time_left
                    == 2000 - dt,
            // The creature groups only shrink: no member is ever added, so an
            // entity outside every group stays outside, the member total
            // cannot grow, and the id counter advances by at most one id per
            // member — which lets a caller re-establish this tick's
            // preconditions for the next one.
            final(self).mob_groups@.len() == old(self).mob_groups@.len(),
            forall|id: u64|
                !member_of_any(old(self).mob_groups@, id) ==> !member_of_any(
                    final(self).mob_groups@,
                    id,
                ),
            crate::mob_group::total_members(final(self).mob_groups@)
                <= crate::mob_group::total_members(old(self).mob_groups@),
            final(self).factory.next_id as int <= old(self).factory.next_id
                + crate::mob_group::total_members(old(self).mob_groups@),
            // Hit resolution: hit points never rise during a tick; an entity
            // that was struck (its hit points dropped) accounts for a hit
            // sound and, surviving, carries the burn-down overlay keyed to
            // its clock at resolution.
            forall|i: int, j: int|
                0 <= i < old(self).objects().len() && 0 <= j < final(self).objects().len() && (
                #[trigger] final(self).objects()[j]).uid == (#[trigger] old(
                    self,
                ).objects()[i]).uid ==> final(self).objects()[j].attributes.hit_points <= old(
                    self,
                ).objects()[i].attributes.hit_points,
            forall|i: int, j: int|
                0 <= i < old(self).objects().len() && 0 <= j < final(self).objects().len() && (
                #[trigger] final(self).objects()[j]).uid == (#[trigger] old(
                    self,
                ).objects()[i]).uid && final(self).objects()[j].attributes.hit_points < old(
                    self,
                ).objects()[i].attributes.hit_points ==> sounds@.len() >= 1 && (exists|a: int|
                    0 <= a < final(self).animations@.len() && final(self).animations@[a] == (
                    old(self).objects()[i].uid,
                    Animation::Removal {
                        start_time: final(self).objects()[j].animation_timer,
                        duration: 700,
                    },
                )),
            // Animation-table keys stay live: if every key referred to an
            // entity before the tick, every key still does after it (removed
            // entities take their entries with them, and entries inserted
            // for hit targets refer to entities on the map).
            (forall|j: int|
                0 <= j < old(self).animations@.len() ==> contains_id(
                    old(self).objects(),
                    (#[trigger] old(self).animations@[j]).0,
                )) ==> (forall|j: int|
                0 <= j < final(self).animations@.len() ==> contains_id(
                    final(self).objects(),
                    (#[trigger] final(self).animations@[j]).0,
                )),
    {
        let ghost objs0 = self.objects();
        let ghost groups0 = self.mob_groups@;
        let ghost next0 = self.factory.next_id;
        let ghost anims0 = self.animations@;
        let mut sounds: Vec<Sound> = Vec::new();
        self.update_groups(dt, rng);
        let ghost objs_a = self.objects();
        let ghost groups_a = self.mob_groups@;
        let ghost next_a = self.factory.next_id;
        let mut kill_list = self.update_motion(dt, rng);
        let ghost objs_b = self.objects();
        let ghost kills_b = kill_list@;
        proof {
            assert(self.animations@ == anims0);
        }
        let phit_list = self.collect_hits();
        let mut h: usize = 0;
        while h < phit_list.len()
            invariant
                h <= phit_list@.len(),
                self.wf(),
                crate::num::dt_ok(dt as int),
                self.player_id == old(self).player_id,
                self.transitions@ == old(self).transitions@,
                self.name == old(self).name,
                self.map_image_name == old(self).map_image_name,
                self.backdrop_image_name == old(self).backdrop_image_name,
                self.items == old(self).items,
                self.layers@.len() == MAP_LAYER_COUNT,
                forall|l: int|
                    0 <= l < MAP_LAYER_COUNT && l != MAP_OBJECT_LAYER
                        ==> (#[trigger] self.layers@[l])@ == old(self).layers@[l]@,
                old(self).factory.next_id <= self.factory.next_id,
                self.mob_groups@ == groups_a,
                self.factory.next_id == next_a,
                self.objects().len() == objs_b.len(),
                forall|i: int|
                    0 <= i < objs_b.len() ==> (#[trigger] self.objects()[i]).uid == objs_b[i].uid
                        && self.objects()[i].attributes.mob_type == objs_b[i].attributes.mob_type
                        && self.objects()[i].position == objs_b[i].position
                        && self.objects()[i].velocity == objs_b[i].velocity
                        && self.objects()[i].move_time_left == objs_b[i].move_time_left
                        && self.objects()[i].move_end_action == objs_b[i].move_end_action
                        && self.objects()[i].update_action == objs_b[i].update_action
                        && self.objects()[i].animation_timer == objs_b[i].animation_timer
                        && self.objects()[i].attributes.hit_points
                        <= objs_b[i].attributes.hit_points,
                forall|i: int|
                    0 <= i < objs_b.len() && (#[trigger] self.objects()[i]).attributes.hit_points
                        < objs_b[i].attributes.hit_points ==> sounds@.len() >= 1 && (exists|a: int|
                        0 <= a < self.animations@.len() && self.animations@[a] == (
                        objs_b[i].uid,
                        Animation::Removal {
                            start_time: self.objects()[i].animation_timer,
                            duration: 700,
                        },
                    )),
                forall|k: int|
                    0 <= k < phit_list@.len() ==> contains_id(
                        self.objects(),
                        (#[trigger] phit_list@[k]).0,
                    ) && contains_id(self.objects(), phit_list@[k].1),
                forall|x: u64| kills_b.contains(x) ==> kill_list@.contains(x),
                forall|k: int|
                    0 <= k < sounds@.len() ==> (#[trigger] sounds@[k]) == Sound::FireballHit,
                forall|j: int|
                    0 <= j < self.animations@.len() ==> anims0.contains(
                        #[trigger] self.animations@[j],
                    ) || contains_id(self.objects(), self.animations@[j].0),
            decreases phit_list@.len() - h,
        {
            let pair = phit_list[h];
            let ghost pre = self.objects();
            let ghost ti_g = first_index_of(pre, pair.1);
            let valid = self.handle_projectile_hit(pair.0, pair.1, rng);
            proof {
                lemma_first_id_position(pre, pair.1);
                assert forall|k: int|
                    0 <= k < phit_list@.len() implies contains_id(
                    self.objects(),
                    (#[trigger] phit_list@[k]).0,
                ) && contains_id(self.objects(), phit_list@[k].1) by {
                    lemma_contains_preserved(pre, self.objects(), phit_list@[k].0);
                    lemma_contains_preserved(pre, self.objects(), phit_list@[k].1);
                }
                assert forall|j: int|
                    0 <= j < self.animations@.len() implies anims0.contains(
                    #[trigger] self.animations@[j],
                ) || contains_id(self.objects(), self.animations@[j].0) by {
                    lemma_contains_preserved(pre, self.objects(), self.animations@[j].0);
                }
                if valid {
                    lemma_damaged_le(pre[ti_g].attributes.hit_points as int, 10);
                }
                assert forall|i: int|
                    0 <= i < objs_b.len() implies (#[trigger] self.objects()[i]).attributes.hit_points
                    <= objs_b[i].attributes.hit_points && self.objects()[i].animation_timer
                    == objs_b[i].animation_timer by {
                    if i != ti_g {
                        assert(self.objects()[i] == pre[i]);
                    }
                }
            }
            if valid {
                sounds.push(Sound::FireballHit);
                let ghost kills_pre = kill_list@;
                kill_list.push(pair.0);
                proof {
                    assert(forall|t: int|
                        0 <= t < kills_pre.len() ==> kill_list@[t] == (#[trigger] kills_pre[t]));
                    assert(forall|x: u64| kills_pre.contains(x) ==> kill_list@.contains(x));
                }
                match GameMap::find_index(&self.layers[MAP_OBJECT_LAYER], pair.1) {
                    Some(ti) => {
                        proof {
                            assert(self.objects()[ti as int].wf());
                            assert forall|w: int| 0 <= w < ti implies (
                            #[trigger] pre[w]).uid != pair.1 by {
                                assert(self.objects()[w].uid == pre[w].uid);
                            }
                            assert(pre[ti as int].uid == self.objects()[ti as int].uid);
                            lemma_first_index_agrees_pub(pre, pair.1, ti as int);
                            assert(ti as int == ti_g);
                        }
                        let start = self.layers[MAP_OBJECT_LAYER][ti].animation_timer;
                        let ghost anims_pre = self.animations@;
                        self.animations.insert(
                            0,
                            (pair.1, Animation::Removal { start_time: start, duration: 700 }),
                        );
                        proof {
                            assert(self.animations@ =~= seq![
                                (pair.1, Animation::Removal { start_time: start, duration: 700 }),
                            ] + anims_pre);
                            assert forall|j: int|
                                0 <= j < self.animations@.len() implies (
                            #[trigger] self.animations@[j]).1.wf() by {
                                if j > 0 {
                                    assert(self.animations@[j] == anims_pre[j - 1]);
                                }
                            }
                            assert forall|j: int|
                                0 <= j < self.animations@.len() implies anims0.contains(
                                #[trigger] self.animations@[j],
                            ) || contains_id(self.objects(), self.animations@[j].0) by {
                                if j == 0 {
                                    assert(self.objects()[ti as int].uid == pair.1);
                                    assert(contains_id(self.objects(), pair.1));
                                } else {
                                    assert(self.animations@[j] == anims_pre[j - 1]);
                                }
                            }
                            assert forall|i: int|
                                0 <= i < objs_b.len() && (
                            #[trigger] self.objects()[i]).attributes.hit_points
                                < objs_b[i].attributes.hit_points implies sounds@.len() >= 1 && (
                            exists|a: int|
                                0 <= a < self.animations@.len() && self.animations@[a] == (
                                objs_b[i].uid,
                                Animation::Removal {
                                    start_time: self.objects()[i].animation_timer,
                                    duration: 700,
                                },
                            )) by {
                                if i == ti_g {
                                    assert(self.animations@[0] == (
                                        objs_b[i].uid,
                                        Animation::Removal {
                                            start_time: self.objects()[i].animation_timer,
                                            duration: 700,
                                        },
                                    ));
                                } else {
                                    if pre[i].attributes.hit_points
                                        < objs_b[i].attributes.hit_points {
                                        let a0 = choose|a0: int|
                                            0 <= a0 < anims_pre.len() && anims_pre[a0] == (
                                            objs_b[i].uid,
                                            Animation::Removal {
                                                start_time: pre[i].animation_timer,
                                                duration: 700,
                                            },
                                        );
                                        assert(self.animations@[a0 + 1] == anims_pre[a0]);
                                        assert(self.objects()[i] == pre[i]);
                                    }
                                }
                            }
                        }
                    },
                    None => {
                        proof {
                            assert(contains_id(self.objects(), pair.1));
                            assert(false);
                        }
                    },
                }
            }
            h = h + 1;
        }
        let ghost objs_d = self.objects();
        let ghost anims_d = self.animations@;
        let ghost kills = kill_list@;
        self.remove_entities(&kill_list);
        proof {
            lemma_first_id_position(objs0, old(self).player_id);
            // Entities that asked for removal are gone.
            assert forall|i: int|
                0 <= i < objs0.len() && (#[trigger] objs0[i]).update_action
                    == UpdateAction::RemoveFromMap && objs0[i].uid != old(self).player_id implies
                !contains_id(self.objects(), objs0[i].uid) by {
                assert(objs_a[i].update_action == UpdateAction::RemoveFromMap);
                assert(objs_a[i].uid == objs0[i].uid);
                assert(kills_b.contains(objs_a[i].uid));
                assert(kills.contains(objs0[i].uid));
                let t = choose|t: int| 0 <= t < kills.len() && kills[t] == objs0[i].uid;
                assert(!contains_id(self.objects(), kills[t]));
            }
            // Moves that ran out with a removal wish removed their entity.
            assert forall|i: int|
                0 <= i < objs0.len() && 0 < (#[trigger] objs0[i]).move_time_left <= dt
                    && objs0[i].move_end_action == MoveEndAction::RemoveFromMap && objs0[i].uid
                    != old(self).player_id && !member_of_any(groups0, objs0[i].uid) implies
                !contains_id(self.objects(), objs0[i].uid) by {
                assert(objs_a[i] == objs0[i]);
                assert(kills_b.contains(objs_a[i].uid));
                assert(kills.contains(objs0[i].uid));
                let t = choose|t: int| 0 <= t < kills.len() && kills[t] == objs0[i].uid;
                assert(!contains_id(self.objects(), kills[t]));
            }
            // Per-uid value claims for survivors, via the removal pass's
            // value preservation and id uniqueness.
            assert forall|i: int, j: int|
                0 <= i < objs0.len() && 0 <= j < self.objects().len()
                    && !member_of_any(groups0, (#[trigger] objs0[i]).uid) && (
                #[trigger] self.objects()[j]).uid == objs0[i].uid implies self.objects()[j].position
                == (if objs0[i].velocity == (Vec2 { x: 0i64, y: 0i64 }) {
                objs0[i].position
            } else {
                self.objects()[j].position
            }) && self.objects()[j].move_time_left == moved(objs0[i], dt as int).move_time_left by {
                assert(objs_a[i] == objs0[i]);
                assert(objs_d.contains(self.objects()[j]));
                let v = choose|v: int| 0 <= v < objs_d.len() && objs_d[v] == self.objects()[j];
                assert(objs_d[v].uid == objs0[i].uid);
                assert(objs_b[v].uid == objs_a[v].uid);
                if v != i {
                    assert(objs_a[v].uid == objs0[i].uid && objs_a[i].uid == objs0[i].uid);
                    if v < objs0.len() {
                        assert(objs0[v].uid == objs0[i].uid);
                        assert(ids_unique(objs0));
                        assert(false);
                    } else {
                        assert(objs_a[v].uid >= next0);
                        assert(ids_below(objs0, next0 as int));
                        assert(false);
                    }
                }
                assert(objs_d[i].position == objs_b[i].position);
                assert(objs_d[i].move_time_left == objs_b[i].move_time_left);
                assert(objs_b[i].position == moved(objs_a[i], dt as int).position);
                assert(objs_b[i].move_time_left == moved(objs_a[i], dt as int).move_time_left);
                if objs0[i].velocity == (Vec2 { x: 0i64, y: 0i64 }) {
                    assert(objs0[i].wf());
                    assert(objs0[i].velocity.x == 0 && objs0[i].velocity.y == 0);
                    assert((objs0[i].velocity.x as int) * (dt as int) == 0 && (
                    objs0[i].velocity.y as int) * (dt as int) == 0) by (nonlinear_arith)
                        requires
                            objs0[i].velocity.x == 0,
                            objs0[i].velocity.y == 0,
                    ;
                    assert(moved(objs0[i], dt as int).position == objs0[i].position);
                }
            }
            // Fresh projectiles were integrated this tick.
            assert forall|j: int|
                0 <= j < self.objects().len() && (#[trigger] self.objects()[j]).uid
                    >= next0 implies self.objects()[j].attributes.mob_type
                == MobType::CreatureProjectile && self.objects()[j].move_time_left == 2000
                - dt by {
                assert(objs_d.contains(self.objects()[j]));
                let v = choose|v: int| 0 <= v < objs_d.len() && objs_d[v] == self.objects()[j];
                assert(objs_d[v].uid == objs_b[v].uid && objs_b[v].uid == objs_a[v].uid);
                if v < objs0.len() {
                    assert(objs_a[v].uid == objs0[v].uid);
                    assert(ids_below(objs0, next0 as int));
                    assert(false);
                }
                assert(objs_a[v].move_time_left == 2000);
                assert(objs_a[v].attributes.mob_type == MobType::CreatureProjectile);
                assert(objs_b[v].move_time_left == moved(objs_a[v], dt as int).move_time_left);
                assert(objs_b[v].attributes.mob_type == objs_a[v].attributes.mob_type);
                assert(objs_d[v].move_time_left == objs_b[v].move_time_left);
                assert(objs_d[v].attributes.mob_type == objs_b[v].attributes.mob_type);
            }
            // Animation keys stay live when they were live before.
            if forall|j: int|
                0 <= j < anims0.len() ==> contains_id(objs0, (#[trigger] anims0[j]).0) {
                assert forall|j: int|
                    0 <= j < self.animations@.len() implies contains_id(
                    self.objects(),
                    (#[trigger] self.animations@[j]).0,
                ) by {
                    assert(anims_d.contains(self.animations@[j]));
                    let v = choose|v: int|
                        0 <= v < anims_d.len() && anims_d[v] == self.animations@[j];
                    let key = self.animations@[j].0;
                    assert(contains_id(objs_d, key)) by {
                        if anims0.contains(anims_d[v]) {
                            let w = choose|w: int|
                                0 <= w < anims0.len() && anims0[w] == anims_d[v];
                            assert(contains_id(objs0, key));
                            let u = choose|u: int|
                                0 <= u < objs0.len() && (#[trigger] objs0[u]).uid == key;
                            assert(objs_a[u].uid == key);
                            assert(objs_b[u].uid == key);
                            assert(objs_d[u].uid == key);
                        } else {
                            assert(contains_id(objs_d, key));
                        }
                    }
                    if kills.contains(key) {
                        assert(key == old(self).player_id);
                        assert(contains_id(self.objects(), self.player_id));
                    } else {
                        assert(contains_id(self.objects(), key));
                    }
                }
            }
        }
        sounds
    }

    /// Rebuilds the store from parsed map data: the player entity is lifted
    /// out, every layer, the transition list and the animation side table
    /// are cleared (the store is discarded, so no per-entity state survives
    /// — the preserved player's own entry included), the records become
    /// fresh entities on their layers, and the player is reinserted with its
    /// motion stopped. Entity ids keep growing across the reload. The
    /// creature groups stay as they are: they reference entities by id only
    /// and tolerate vanished ids, which the scheduler prunes lazily on its
    /// next pass.
    pub fn load(&mut self, d: &MapData)
        requires
            old(self).wf(),
            d.wf(),
            old(self).factory.next_id + d.objects@.len() < u64::MAX,
        ensures
            final(self).wf(),
            final(self).player_id == old(self).player_id,
            final(self).animations@.len() == 0,
            final(self).mob_groups@ == old(self).mob_groups@,
            final(self).name@ == d.name@,
            final(self).map_image_name@ == d.map_image_name@,
            final(self).backdrop_image_name@ == d.backdrop_image_name@,
            final(self).transitions@.len() == d.transitions@.len(),
            forall|k: int|
                0 <= k < d.transitions@.len() ==> (#[trigger] final(self).transitions@[k])
                    == (MapTransition {
                    from: Vec2 { x: d.transitions@[k].x, y: d.transitions@[k].y },
                    rad: d.transitions@[k].radius,
                    to: d.transitions@[k].to,
                }),
            final(self).layers@.len() == MAP_LAYER_COUNT,
            ({
                let objs = final(self).objects();
                let player0 = old(self).objects()[first_index_of(
                    old(self).objects(),
                    old(self).player_id,
                )];
                &&& objs.len() >= 1
                &&& objs.last().uid == old(self).player_id
                &&& objs.last().position == player0.position
                &&& objs.last().move_time_left == 0
                &&& objs.last().attributes == player0.attributes
            }),
            forall|l: int|
                0 <= l < MAP_LAYER_COUNT ==> layer_matches(
                    (#[trigger] final(self).layers@[l])@,
                    records_for_layer(d.objects@, l),
                    l == MAP_OBJECT_LAYER,
                ),
    {
        let ghost objs0 = self.objects();
        let pi = match GameMap::find_index(&self.layers[MAP_OBJECT_LAYER], self.player_id) {
            Some(i) => i,
            None => {
                proof {
                    assert(false);
                }
                0
            },
        };
        proof {
            lemma_first_index_agrees(objs0, self.player_id, pi as int);
            assert(objs0[pi as int].wf());
        }
        let mut player = self.layers[MAP_OBJECT_LAYER].remove(pi);
        player.move_time_left = 0;
        let mut l: usize = 0;
        while l < MAP_LAYER_COUNT
            invariant
                l <= MAP_LAYER_COUNT,
                old(self).wf(),
                self.layers@.len() == MAP_LAYER_COUNT,
                forall|k: int| 0 <= k < l ==> (#[trigger] self.layers@[k])@.len() == 0,
                self.factory == old(self).factory,
                self.player_id == old(self).player_id,
                self.transitions@ == old(self).transitions@,
                self.animations@ == old(self).animations@,
                self.mob_groups@ == old(self).mob_groups@,
                self.selected_layer == old(self).selected_layer,
            decreases MAP_LAYER_COUNT - l,
        {
            self.layers[l].clear();
            l = l + 1;
        }
        self.transitions.clear();
        self.animations.clear();
        self.name = vstd::slice::slice_to_vec(d.name.as_slice());
        self.map_image_name = vstd::slice::slice_to_vec(d.map_image_name.as_slice());
        self.backdrop_image_name = vstd::slice::slice_to_vec(d.backdrop_image_name.as_slice());
        let ghost next0 = self.factory.next_id;
        let mut k: usize = 0;
        while k < d.objects.len()
            invariant
                k <= d.objects@.len(),
                d.wf(),
                old(self).wf(),
                self.selected_layer == old(self).selected_layer,
                self.layers@.len() == MAP_LAYER_COUNT,
                self.factory.next_id as int == next0 + k,
                next0 == old(self).factory.next_id,
                next0 + d.objects@.len() < u64::MAX,
                self.player_id == old(self).player_id,
                self.transitions@.len() == 0,
                self.animations@.len() == 0,
                self.mob_groups@ == old(self).mob_groups@,
                self.name@ == d.name@,
                self.map_image_name@ == d.map_image_name@,
                self.backdrop_image_name@ == d.backdrop_image_name@,
                forall|l: int|
                    0 <= l < MAP_LAYER_COUNT ==> layer_matches(
                        (#[trigger] self.layers@[l])@,
                        records_for_layer(d.objects@.take(k as int), l),
                        false,
                    ),
                forall|l: int|
                    0 <= l < MAP_LAYER_COUNT ==> all_wf((#[trigger] self.layers@[l])@)
                        && ids_unique(self.layers@[l]@) && ids_below(
                        self.layers@[l]@,
                        self.factory.next_id as int,
                    ) && ids_at_least(self.layers@[l]@, next0 as int),
            decreases d.objects@.len() - k,
        {
            let rec = d.objects[k];
            proof {
                assert(object_record_ok(d.objects@[k as int]));
            }
            let mut mob = self.factory.create_mob(
                rec.tile_id,
                rec.layer,
                Vec2 { x: rec.x, y: rec.y },
                rec.height,
                rec.scale,
            );
            mob.visual.color = rec.color;
            mob.visual.blend = rec.blend;
            mob.visual.frames = rec.frames;
            let ghost pre_layer = self.layers@[rec.layer as int]@;
            let ghost the_mob = mob;
            self.layers[rec.layer].push(mob);
            proof {
                assert(mob_matches_record(the_mob, d.objects@[k as int]));
                assert forall|l: int| 0 <= l < MAP_LAYER_COUNT implies layer_matches(
                    (#[trigger] self.layers@[l])@,
                    records_for_layer(d.objects@.take(k + 1), l),
                    false,
                ) by {
                    assert(d.objects@.take(k + 1).drop_last() =~= d.objects@.take(k as int));
                    assert(d.objects@.take(k + 1).last() == d.objects@[k as int]);
                    if l == rec.layer {
                        assert(self.layers@[l]@ =~= pre_layer.push(the_mob));
                    }
                }
                assert forall|l: int| 0 <= l < MAP_LAYER_COUNT implies all_wf(
                    (#[trigger] self.layers@[l])@,
                ) && ids_unique(self.layers@[l]@) && ids_below(
                    self.layers@[l]@,
                    self.factory.next_id as int,
                ) && ids_at_least(self.layers@[l]@, next0 as int) by {
                    if l == rec.layer {
                        assert(self.layers@[l]@ =~= pre_layer.push(the_mob));
                    }
                }
            }
            k = k + 1;
        }
        proof {
            assert(d.objects@.take(d.objects@.len() as int) =~= d.objects@);
        }
        let mut t: usize = 0;
        while t < d.transitions.len()
            invariant
                t <= d.transitions@.len(),
                d.wf(),
                old(self).wf(),
                self.selected_layer == old(self).selected_layer,
                self.transitions@.len() == t,
                forall|j: int|
                    0 <= j < t ==> (#[trigger] self.transitions@[j]) == (MapTransition {
                        from: Vec2 { x: d.transitions@[j].x, y: d.transitions@[j].y },
                        rad: d.transitions@[j].radius,
                        to: d.transitions@[j].to,
                    }),
                self.layers@.len() == MAP_LAYER_COUNT,
                self.factory.next_id as int == next0 + d.objects@.len(),
                next0 == old(self).factory.next_id,
                self.player_id == old(self).player_id,
                self.animations@.len() == 0,
                self.mob_groups@ == old(self).mob_groups@,
                self.name@ == d.name@,
                self.map_image_name@ == d.map_image_name@,
                self.backdrop_image_name@ == d.backdrop_image_name@,
                forall|l: int|
                    0 <= l < MAP_LAYER_COUNT ==> layer_matches(
                        (#[trigger] self.layers@[l])@,
                        records_for_layer(d.objects@, l),
                        false,
                    ),
                forall|l: int|
                    0 <= l < MAP_LAYER_COUNT ==> all_wf((#[trigger] self.layers@[l])@)
                        && ids_unique(self.layers@[l]@) && ids_below(
                        self.layers@[l]@,
                        self.factory.next_id as int,
                    ) && ids_at_least(self.layers@[l]@, next0 as int),
            decreases d.transitions@.len() - t,
        {
            let rec = d.transitions[t];
            proof {
                assert(transition_record_ok(d.transitions@[t as int]));
            }
            self.transitions.push(
                MapTransition { from: Vec2 { x: rec.x, y: rec.y }, rad: rec.radius, to: rec.to },
            );
            t = t + 1;
        }
        let ghost pre_obj = self.objects();
        let ghost player_final = player;
        self.layers[MAP_OBJECT_LAYER].push(player);
        proof {
            assert(self.objects() =~= pre_obj.push(player_final));
            assert(player_final.uid == old(self).player_id);
            assert(player_final.uid < next0);
            assert(contains_id(self.objects(), self.player_id)) by {
                assert(self.objects().last().uid == self.player_id);
            }
            assert forall|l: int| 0 <= l < MAP_LAYER_COUNT implies all_wf(
                (#[trigger] self.layers@[l])@,
            ) && ids_unique(self.layers@[l]@) && ids_below(
                self.layers@[l]@,
                self.factory.next_id as int,
            ) by {
                if l == MAP_OBJECT_LAYER {
                    assert forall|a: int, b: int|
                        0 <= a < b < self.objects().len() implies (
                    #[trigger] self.objects()[a]).uid != (#[trigger] self.objects()[b]).uid by {
                        if b == self.objects().len() - 1 {
                            assert(self.objects()[a].uid >= next0);
                        }
                    }
                }
            }
            assert forall|j: int|
                0 <= j < self.objects().len() && (#[trigger] self.objects()[j]).uid
                    == self.player_id implies self.objects()[j].attributes.mob_type
                == MobType::Player by {
                if j < self.objects().len() - 1 {
                    assert(self.objects()[j].uid >= next0);
                    assert(false);
                } else {
                    assert(self.objects()[j] == player_final);
                    assert(objs0[pi as int].uid == self.player_id);
                }
            }
            assert forall|l: int| 0 <= l < MAP_LAYER_COUNT implies layer_matches(
                (#[trigger] self.layers@[l])@,
                records_for_layer(d.objects@, l),
                l == MAP_OBJECT_LAYER,
            ) by {
                if l == MAP_OBJECT_LAYER {
                    assert(self.objects().drop_last() =~= pre_obj);
                }
            }
        }
    }

    /// The persisted form of the store: the records of the ground, object
    /// and cloud layers, in layer order, with the player entity left out,
    /// together with the header names and the transitions.
    pub fn save(&self) -> (d: MapData)
        requires
            self.wf(),
            crate::mapfile::line_text_ok(self.name@),
            crate::mapfile::line_text_ok(self.map_image_name@),
            crate::mapfile::line_text_ok(self.backdrop_image_name@),
        ensures
            d.wf(),
            d.name@ == self.name@,
            d.map_image_name@ == self.map_image_name@,
            d.backdrop_image_name@ == self.backdrop_image_name@,
            d.objects@ == saved_records(
                self.layers@[MAP_GROUND_LAYER as int]@,
                MAP_GROUND_LAYER as int,
                self.player_id,
            ) + saved_records(
                self.layers@[MAP_OBJECT_LAYER as int]@,
                MAP_OBJECT_LAYER as int,
                self.player_id,
            ) + saved_records(
                self.layers@[MAP_CLOUD_LAYER as int]@,
                MAP_CLOUD_LAYER as int,
                self.player_id,
            ),
            d.transitions@.len() == self.transitions@.len(),
            forall|k: int|
                0 <= k < self.transitions@.len() ==> (#[trigger] d.transitions@[k])
                    == (TransitionRecord {
                    x: self.transitions@[k].from.x,
                    y: self.transitions@[k].from.y,
                    radius: self.transitions@[k].rad,
                    to: self.transitions@[k].to,
                }),
    {
        let mut objects: Vec<ObjectRecord> = Vec::new();
        self.save_layer(MAP_GROUND_LAYER, &mut objects);
        self.save_layer(MAP_OBJECT_LAYER, &mut objects);
        self.save_layer(MAP_CLOUD_LAYER, &mut objects);
        let mut transitions: Vec<TransitionRecord> = Vec::new();
        let mut t: usize = 0;
        while t < self.transitions.len()
            invariant
                t <= self.transitions@.len(),
                self.wf(),
                transitions@.len() == t,
                forall|k: int|
                    0 <= k < t ==> (#[trigger] transitions@[k]) == (TransitionRecord {
                        x: self.transitions@[k].from.x,
                        y: self.transitions@[k].from.y,
                        radius: self.transitions@[k].rad,
                        to: self.transitions@[k].to,
                    }),
                forall|k: int|
                    0 <= k < t ==> crate::mapfile::transition_record_ok(
                        #[trigger] transitions@[k],
                    ),
            decreases self.transitions@.len() - t,
        {
            let tr = self.transitions[t];
            proof {
                assert(transition_ok(self.transitions@[t as int]));
            }
            transitions.push(
                TransitionRecord { x: tr.from.x, y: tr.from.y, radius: tr.rad, to: tr.to },
            );
            t = t + 1;
        }
        proof {
            lemma_saved_records_ok(
                self.layers@[MAP_GROUND_LAYER as int]@,
                MAP_GROUND_LAYER as int,
                self.player_id,
            );
            lemma_saved_records_ok(
                self.layers@[MAP_OBJECT_LAYER as int]@,
                MAP_OBJECT_LAYER as int,
                self.player_id,
            );
            lemma_saved_records_ok(
                self.layers@[MAP_CLOUD_LAYER as int]@,
                MAP_CLOUD_LAYER as int,
                self.player_id,
            );
        }
        MapData {
            name: vstd::slice::slice_to_vec(self.name.as_slice()),
            map_image_name: vstd::slice::slice_to_vec(self.map_image_name.as_slice()),
            backdrop_image_name: vstd::slice::slice_to_vec(self.backdrop_image_name.as_slice()),
            objects,
            transitions,
        }
    }

    /// Appends the records of one layer, skipping the player entity.
    fn save_layer(&self, layer: usize, out: &mut Vec<ObjectRecord>)
        requires
            self.wf(),
            layer < MAP_LAYER_COUNT,
        ensures
            final(out)@ == old(out)@ + saved_records(
                self.layers@[layer as int]@,
                layer as int,
                self.player_id,
            ),
    {
        let ghost objs = self.layers@[layer as int]@;
        let mut i: usize = 0;
        proof {
            assert(objs.take(0) =~= Seq::<MapObject>::empty());
            assert(out@ =~= old(out)@ + saved_records(objs.take(0), layer as int, self.player_id));
        }
        while i < self.layers[layer].len()
            invariant
                i <= objs.len(),
                self.wf(),
                layer < MAP_LAYER_COUNT,
                objs == self.layers@[layer as int]@,
                out@ == old(out)@ + saved_records(objs.take(i as int), layer as int, self.player_id),
            decreases objs.len() - i,
        {
            proof {
                assert(objs.take(i + 1).drop_last() =~= objs.take(i as int));
                assert(objs.take(i + 1).last() == objs[i as int]);
            }
            let e = &self.layers[layer][i];
            if e.uid != self.player_id {
                out.push(
                    ObjectRecord {
                        layer,
                        tile_id: e.visual.base_image_id,
                        frames: e.visual.frames,
                        x: e.position.x,
                        y: e.position.y,
                        height: e.visual.height,
                        scale: e.scale,
                        color: e.visual.color,
                        blend: e.visual.blend,
                    },
                );
                proof {
                    assert(out@ =~= old(out)@ + saved_records(
                        objs.take(i + 1),
                        layer as int,
                        self.player_id,
                    ));
                }
            } else {
                proof {
                    assert(out@ =~= old(out)@ + saved_records(
                        objs.take(i + 1),
                        layer as int,
                        self.player_id,
                    ));
                }
            }
            i = i + 1;
        }
        proof {
            assert(objs.take(objs.len() as int) =~= objs);
        }
    }

    /// Spawns a randomized batch of creatures around `center`: the count is
    /// drawn between the two bounds, each creature tries up to ten spots so
    /// that it lands at least twenty world units from the ones already
    /// placed (giving up costs the creature), and every one starts with one
    /// hit point and a desynchronized animation clock. The creatures are
    /// returned, not yet inserted.
    pub fn make_creatures(
        &mut self,
        id: usize,
        min_count: u32,
        max_count: u32,
        center: Vec2,
        spacing: i64,
        scale: i64,
        rng: &mut rand::rngs::StdRng,
    ) -> (list: Vec<MapObject>)
        requires
            old(self).wf(),
            id <= 0x1000_0000,
            min_count <= max_count,
            max_count <= 0x1000,
            vec2_coord_ok(center),
            0 <= spacing <= 0x10_0000,
            0 <= scale <= MAX_SCALAR,
            old(self).factory.next_id + max_count < u64::MAX,
        ensures
            final(self).wf(),
            (GameMap { factory: old(self).factory, ..*final(self) }) == *old(self),
            final(self).factory.next_id == old(self).factory.next_id + list@.len(),
            list@.len() <= max_count,
            min_count >= 1 ==> list@.len() >= 1,
            forall|k: int|
                0 <= k < list@.len() ==> {
                    &&& (#[trigger] list@[k]).wf()
                    &&& list@[k].attributes == (MobAttributes {
                        base_speed: 150,
                        hit_points: 1,
                        mob_type: MobType::Creature,
                    })
                    &&& list@[k].uid >= old(self).factory.next_id
                    &&& list@[k].uid < final(self).factory.next_id
                    &&& list@[k].visual.tileset_id == CREATURE_TILESET
                    &&& list@[k].scale == scale
                    &&& list@[k].velocity == (Vec2 { x: 0i64, y: 0i64 })
                    &&& list@[k].move_time_left == 0
                    &&& 0 <= list@[k].animation_timer < 1000
                    &&& -5 * spacing <= list@[k].position.x - center.x <= 5 * spacing
                    &&& -5 * spacing <= list@[k].position.y - center.y <= 5 * spacing
                },
            forall|a: int, b: int|
                0 <= a < b < list@.len() ==> (#[trigger] list@[a]).uid != (
                #[trigger] list@[b]).uid,
    {
        let ghost next0 = self.factory.next_id;
        let count = (min_count + rng_below(rng, max_count - min_count + 1)) as usize;
        let mut list: Vec<MapObject> = Vec::new();
        let mut i: usize = 0;
        while i < count
            invariant
                old(self).wf(),
                i <= count,
                min_count <= count <= max_count <= 0x1000,
                id <= 0x1000_0000,
                vec2_coord_ok(center),
                0 <= spacing <= 0x10_0000,
                0 <= scale <= MAX_SCALAR,
                next0 == old(self).factory.next_id,
                next0 + max_count < u64::MAX,
                (GameMap { factory: old(self).factory, ..*self }) == *old(self),
                self.factory.next_id as int == next0 + list@.len(),
                list@.len() <= i,
                min_count >= 1 && i >= 1 ==> list@.len() >= 1,
                forall|k: int| 0 <= k < list@.len() ==> creature_spawned(#[trigger] list@[k], center, spacing, scale, next0 as int, self.factory.next_id as int),
                forall|a: int, b: int|
                    0 <= a < b < list@.len() ==> (#[trigger] list@[a]).uid != (
                    #[trigger] list@[b]).uid,
            decreases count - i,
        {
            let ghost pre_len = list@.len();
            let mut tries: usize = 0;
            let mut placed = false;
            while tries <= 10 && !placed
                invariant
                    old(self).wf(),
                    tries <= 11,
                    min_count <= count <= max_count <= 0x1000,
                    id <= 0x1000_0000,
                    vec2_coord_ok(center),
                    0 <= spacing <= 0x10_0000,
                    0 <= scale <= MAX_SCALAR,
                    next0 == old(self).factory.next_id,
                    next0 + max_count < u64::MAX,
                    i < count,
                    pre_len <= i,
                    (GameMap { factory: old(self).factory, ..*self }) == *old(self),
                    self.factory.next_id as int == next0 + list@.len(),
                    !placed ==> list@.len() == pre_len,
                    placed ==> list@.len() == pre_len + 1,
                    tries >= 1 && pre_len == 0 ==> placed,
                    forall|k: int| 0 <= k < list@.len() ==> creature_spawned(#[trigger] list@[k], center, spacing, scale, next0 as int, self.factory.next_id as int),
                    forall|a: int, b: int|
                        0 <= a < b < list@.len() ==> (#[trigger] list@[a]).uid != (
                        #[trigger] list@[b]).uid,
                decreases 11 - tries, 1int - (if placed { 1int } else { 0int }),
            {
                let jx = rng_below(rng, 10_001) as i64 - 5000;
                let jy = rng_below(rng, 10_001) as i64 - 5000;
                let offx = spawn_offset(spacing, jx);
                let offy = spawn_offset(spacing, jy);
                let x = clamp_coord_exec(center.x + offx);
                let y = clamp_coord_exec(center.y + offy);
                proof {
                    lemma_clamp_near(center.x as int, offx as int, 5 * spacing);
                    lemma_clamp_near(center.y as int, offy as int, 5 * spacing);
                }
                let candidate = Vec2 { x, y };
                let mut ok = true;
                let mut m: usize = 0;
                while m < list.len()
                    invariant
                        m <= list@.len(),
                        vec2_coord_ok(candidate),
                        list@.len() == 0 ==> ok,
                        forall|k: int|
                            0 <= k < list@.len() ==> vec2_coord_ok(
                                (#[trigger] list@[k]).position,
                            ),
                    decreases list@.len() - m,
                {
                    let d2 = list[m].position.dist2(&candidate);
                    ok = d2 > 400_000_000i128;
                    m = m + 1;
                }
                tries = tries + 1;
                if ok {
                    let mut mob = self.factory.create_mob(
                        id,
                        CREATURE_TILESET,
                        candidate,
                        32_000,
                        scale,
                    );
                    mob.attributes.mob_type = MobType::Creature;
                    mob.attributes.hit_points = 1;
                    mob.animation_timer = rng_below(rng, 1000) as i64;
                    proof {
                        assert(creature_spawned(
                            mob,
                            center,
                            spacing,
                            scale,
                            next0 as int,
                            self.factory.next_id as int,
                        ));
                    }
                    list.push(mob);
                    placed = true;
                }
            }
            i = i + 1;
        }
        list
    }

    /// Spawns a creature group: the creatures are placed around `center`,
    /// inserted into the object layer with a spin animation each, and a
    /// mobile group is formed over their ids.
    pub fn make_creature_group(
        &mut self,
        id: usize,
        min_count: u32,
        max_count: u32,
        center: Vec2,
        spacing: i64,
        rng: &mut rand::rngs::StdRng,
    ) -> (group: MobGroup)
        requires
            old(self).wf(),
            id <= 0x1000_0000,
            min_count <= max_count,
            max_count <= 0x1000,
            vec2_coord_ok(center),
            0 <= spacing <= 0x10_0000,
            old(self).factory.next_id + max_count < u64::MAX,
        ensures
            final(self).wf(),
            final(self).player_id == old(self).player_id,
            final(self).transitions@ == old(self).transitions@,
            final(self).mob_groups@ == old(self).mob_groups@,
            final(self).name == old(self).name,
            final(self).map_image_name == old(self).map_image_name,
            final(self).backdrop_image_name == old(self).backdrop_image_name,
            old(self).factory.next_id <= final(self).factory.next_id,
            group.wf(),
            group.center == center,
            group.ids_bounded(final(self).factory.next_id as int),
            group.members@.len() <= max_count,
            min_count >= 1 ==> group.members@.len() >= 1,
            forall|j: int| 0 <= j < group.members@.len() ==> (#[trigger] group.members@[j]).mobile,
            final(self).objects().len() == old(self).objects().len() + group.members@.len(),
            forall|j: int|
                0 <= j < old(self).objects().len() ==> (#[trigger] final(self).objects()[j])
                    == old(self).objects()[j],
            forall|k: int|
                0 <= k < group.members@.len() ==> {
                    let e = #[trigger] final(self).objects()[old(self).objects().len() + k];
                    &&& e.uid == group.members@[k].id
                    &&& creature_spawned(
                        e,
                        center,
                        spacing,
                        500,
                        old(self).factory.next_id as int,
                        final(self).factory.next_id as int,
                    )
                    &&& anim_for(final(self).animations@, e.uid) == Option::Some(
                        Animation::Spin { speed: 24u32 },
                    )
                },
    {
        let ghost next0 = self.factory.next_id;
        let ghost objs_pre = self.objects();
        let mobs = self.make_creatures(id, min_count, max_count, center, spacing, 500, rng);
        let mut ids: Vec<u64> = Vec::new();
        let mut i: usize = 0;
        while i < mobs.len()
            invariant
                old(self).wf(),
                i <= mobs@.len(),
                mobs@.len() <= max_count <= 0x1000,
                ids@.len() == i,
                next0 == old(self).factory.next_id,
                vec2_coord_ok(center),
                0 <= spacing <= 0x10_0000,
                self.wf(),
                self.player_id == old(self).player_id,
                self.transitions@ == old(self).transitions@,
                self.mob_groups@ == old(self).mob_groups@,
                self.name == old(self).name,
                self.map_image_name == old(self).map_image_name,
                self.backdrop_image_name == old(self).backdrop_image_name,
                next0 <= self.factory.next_id,
                objs_pre == old(self).objects(),
                self.objects().len() == objs_pre.len() + i,
                forall|j: int|
                    0 <= j < objs_pre.len() ==> (#[trigger] self.objects()[j]) == objs_pre[j],
                forall|k: int|
                    0 <= k < i ==> {
                        let e = #[trigger] self.objects()[objs_pre.len() + k];
                        &&& e.uid == mobs@[k].uid
                        &&& creature_spawned(
                            e,
                            center,
                            spacing,
                            500,
                            next0 as int,
                            self.factory.next_id as int,
                        )
                        &&& anim_for(self.animations@, e.uid) == Option::Some(
                            Animation::Spin { speed: 24u32 },
                        )
                    },
                forall|k: int|
                    0 <= k < mobs@.len() ==> creature_spawned(
                        #[trigger] mobs@[k],
                        center,
                        spacing,
                        500,
                        next0 as int,
                        self.factory.next_id as int,
                    ),
                forall|a: int, b: int|
                    0 <= a < b < mobs@.len() ==> (#[trigger] mobs@[a]).uid != (
                    #[trigger] mobs@[b]).uid,
                forall|k: int| 0 <= k < i ==> (#[trigger] ids@[k]) == mobs@[k].uid,
                forall|j: int|
                    0 <= j < self.objects().len() ==> (#[trigger] self.objects()[j]).uid
                        < next0 || contains_mob_index(mobs@, i as int, self.objects()[j].uid),
            decreases mobs@.len() - i,
        {
            let mob = &mobs[i];
            let uid = mob.uid;
            ids.push(uid);
            let ghost pre = self.objects();
            proof {
                assert(mobs@[i as int].uid >= next0);
                assert(self.player_id < next0) by {
                    lemma_first_id_position(old(self).objects(), old(self).player_id);
                }
            }
            let cloned = clone_mob(mob);
            let ghost cv = cloned;
            self.layers[MAP_OBJECT_LAYER].push(cloned);
            let ghost anims_pre = self.animations@;
            self.animations.insert(0, (uid, Animation::Spin { speed: 24 }));
            proof {
                assert(self.objects() =~= pre.push(cv));
                assert(cv.uid == mobs@[i as int].uid);
                assert(creature_spawned(
                    cv,
                    center,
                    spacing,
                    500,
                    next0 as int,
                    self.factory.next_id as int,
                ));
                assert(self.animations@ =~= seq![(uid, Animation::Spin { speed: 24u32 })]
                    + anims_pre);
                assert(self.animations@.first() == (uid, Animation::Spin { speed: 24u32 }));
                assert(self.animations@.drop_first() =~= anims_pre);
                assert(anim_for(self.animations@, uid) == Option::Some(
                    Animation::Spin { speed: 24u32 },
                ));
                assert forall|k: int| 0 <= k < i implies anim_for(
                    self.animations@,
                    (#[trigger] mobs@[k]).uid,
                ) == Option::Some(Animation::Spin { speed: 24u32 }) by {
                    assert(mobs@[k].uid != uid);
                    assert(anim_for(self.animations@, mobs@[k].uid) == anim_for(
                        anims_pre,
                        mobs@[k].uid,
                    ));
                    assert(self.objects()[objs_pre.len() + k].uid == mobs@[k].uid);
                }
                assert forall|a: int, b: int|
                    0 <= a < b < self.objects().len() implies (
                #[trigger] self.objects()[a]).uid != (#[trigger] self.objects()[b]).uid by {
                    if b == self.objects().len() - 1 {
                        if self.objects()[a].uid >= next0 {
                            assert(contains_mob_index(mobs@, i as int, self.objects()[a].uid));
                            let w = choose|w: int|
                                0 <= w < i && (#[trigger] mobs@[w]).uid == self.objects()[a].uid;
                            assert(mobs@[w].uid != mobs@[i as int].uid);
                        }
                    }
                }
                assert(contains_id(self.objects(), self.player_id)) by {
                    let w = choose|w: int|
                        0 <= w < pre.len() && (#[trigger] pre[w]).uid == self.player_id;
                    assert(self.objects()[w].uid == self.player_id);
                }
                assert forall|j: int|
                    0 <= j < self.objects().len() && (#[trigger] self.objects()[j]).uid
                        == self.player_id implies self.objects()[j].attributes.mob_type
                    == MobType::Player by {
                    if j == self.objects().len() - 1 {
                        assert(self.objects()[j].uid >= next0);
                        assert(false);
                    } else {
                        assert(self.objects()[j] == pre[j]);
                    }
                }
                assert forall|t: int|
                    0 <= t < self.animations@.len() implies (
                #[trigger] self.animations@[t]).1.wf() by {
                    if t > 0 {
                    }
                }
                assert forall|j: int|
                    0 <= j < self.objects().len() implies (#[trigger] self.objects()[j]).uid
                    < next0 || contains_mob_index(mobs@, i + 1, self.objects()[j].uid) by {
                    if j == self.objects().len() - 1 {
                        assert(self.objects()[j] == cv);
                        assert(mobs@[i as int].uid == self.objects()[j].uid);
                    } else {
                        assert(self.objects()[j] == pre[j]);
                        if self.objects()[j].uid >= next0 {
                            let w = choose|w: int|
                                0 <= w < i && (#[trigger] mobs@[w]).uid == self.objects()[j].uid;
                            assert(contains_mob_index(mobs@, i + 1, self.objects()[j].uid));
                        }
                    }
                }
            }
            i = i + 1;
        }
        let group = MobGroup::new(ids, center, true, rng);
        proof {
            assert forall|t: int|
                0 <= t < group.members@.len() implies (#[trigger] group.members@[t]).id
                < self.factory.next_id && group.members@[t].id == mobs@[t].uid by {
                assert(crate::mob_group::member_ids(group.members@)[t] == group.members@[t].id);
                assert(crate::mob_group::member_ids(group.members@)[t] == ids@[t]);
                assert(ids@[t] == mobs@[t].uid);
            }
            assert(group.members@.len() == ids@.len());
        }
        group
    }

    /// Populates a freshly loaded map with its scripted inhabitants: one
    /// mobile creature group near the default spawn area.
    pub fn populate(&mut self, rng: &mut rand::rngs::StdRng)
        requires
            old(self).wf(),
            old(self).factory.next_id + 16 < u64::MAX,
        ensures
            final(self).wf(),
            final(self).player_id == old(self).player_id,
            final(self).mob_groups@.len() == old(self).mob_groups@.len() + 1,
            1 <= final(self).mob_groups@.last().members@.len() <= 9,
            forall|j: int|
                0 <= j < final(self).mob_groups@.last().members@.len() ==> contains_id(
                    final(self).objects(),
                    (#[trigger] final(self).mob_groups@.last().members@[j]).id,
                ) && final(self).mob_groups@.last().members@[j].mobile,
    {
        let center = Vec2 { x: 1_216_000, y: 1_448_000 };
        let ghost objs_pre = self.objects();
        let group = self.make_creature_group(41, 5, 9, center, 40_000, rng);
        proof {
            assert forall|j: int| 0 <= j < group.members@.len() implies contains_id(
                self.objects(),
                (#[trigger] group.members@[j]).id,
            ) by {
                assert(self.objects()[objs_pre.len() + j].uid == group.members@[j].id);
            }
        }
        self.mob_groups.push(group);
        proof {
            assert forall|g: int|
                0 <= g < self.mob_groups@.len() implies (#[trigger] self.mob_groups@[g]).wf()
                && self.mob_groups@[g].ids_bounded(self.factory.next_id as int) by {
                if g < self.mob_groups@.len() - 1 {
                    assert(self.mob_groups@[g] == old(self).mob_groups@[g]);
                }
            }
        }
    }

}

/// The player position the transition check uses lies in the world box.
proof fn lemma_player_position_wf(m: GameMap)
    requires
        m.wf(),
    ensures
        vec2_coord_ok(m.spec_player_position()),
{
    lemma_first_id_position(m.objects(), m.player_id);
    let i = first_index_of(m.objects(), m.player_id);
    assert(m.objects()[i].wf());
}

/// The player stands inside the catchment circle of the transition.
pub open spec fn in_transition(t: MapTransition, pos: Vec2) -> bool {
    dist2(pos, t.from) < t.rad * t.rad
}

/// First index of `id` in `s`; `s.len()` when absent.
pub open spec fn first_index_of(s: Seq<MapObject>, id: u64) -> int
    decreases s.len(),
{
    if s.len() == 0 {
        0
    } else if s.first().uid == id {
        0
    } else {
        1 + first_index_of(s.drop_first(), id)
    }
}

proof fn lemma_first_id_position(s: Seq<MapObject>, id: u64)
    requires
        contains_id(s, id),
    ensures
        0 <= first_index_of(s, id) < s.len(),
        s[first_index_of(s, id)].uid == id,
        forall|j: int| 0 <= j < first_index_of(s, id) ==> (#[trigger] s[j]).uid != id,
    decreases s.len(),
{
    if s.len() > 0 && s.first().uid != id {
        assert(contains_id(s.drop_first(), id)) by {
            let k = choose|k: int| 0 <= k < s.len() && (#[trigger] s[k]).uid == id;
            assert(s.drop_first()[k - 1].uid == id);
        }
        lemma_first_id_position(s.drop_first(), id);
        assert(forall|j: int|
            1 <= j < first_index_of(s, id) ==> (#[trigger] s[j]).uid == s.drop_first()[j - 1].uid);
    }
}

/// An exec index that finds `id` with nothing equal before it is the first
/// index of `id`; usable by the scheduler's proofs.
pub(crate) proof fn lemma_first_index_agrees_pub(s: Seq<MapObject>, id: u64, i: int)
    requires
        0 <= i < s.len(),
        s[i].uid == id,
        forall|j: int| 0 <= j < i ==> (#[trigger] s[j]).uid != id,
    ensures
        first_index_of(s, id) == i,
{
    lemma_first_index_agrees(s, id, i);
}

/// An exec index that finds `id` with nothing equal before it is the first
/// index of `id`.
proof fn lemma_first_index_agrees(s: Seq<MapObject>, id: u64, i: int)
    requires
        0 <= i < s.len(),
        s[i].uid == id,
        forall|j: int| 0 <= j < i ==> (#[trigger] s[j]).uid != id,
    ensures
        first_index_of(s, id) == i,
    decreases i,
{
    if i > 0 {
        lemma_first_index_agrees(s.drop_first(), id, i - 1);
    } else {
        assert(s.first().uid == id);
    }
}

/// Updating one entity in place, with its id kept, preserves the layer
/// invariants as long as the new entity is well-formed.
pub(crate) proof fn lemma_store_update_keeps(s: Seq<MapObject>, i: int, m: MapObject, bound: int)
    requires
        0 <= i < s.len(),
        all_wf(s),
        ids_unique(s),
        ids_below(s, bound),
        m.wf(),
        m.uid == s[i].uid,
    ensures
        all_wf(s.update(i, m)),
        ids_unique(s.update(i, m)),
        ids_below(s.update(i, m), bound),
{
    let t = s.update(i, m);
    assert forall|k: int| 0 <= k < t.len() implies (#[trigger] t[k]).wf() by {
        if k != i {
            assert(t[k] == s[k]);
        }
    }
    assert forall|k: int| 0 <= k < t.len() implies (#[trigger] t[k]).uid < bound by {
        if k != i {
            assert(t[k] == s[k]);
        }
    }
    assert forall|a: int, b: int|
        0 <= a < b < t.len() implies (#[trigger] t[a]).uid != (#[trigger] t[b]).uid by {
        assert(t[a].uid == s[a].uid && t[b].uid == s[b].uid);
    }
}

/// Some already-inserted creature among the first `n` carries this id.
pub open spec fn contains_mob_index(mobs: Seq<MapObject>, n: int, id: u64) -> bool {
    exists|w: int| 0 <= w < n && w < mobs.len() && (#[trigger] mobs[w]).uid == id
}

/// Duplicates an entity, fresh particle pool included; used when a spawned
/// creature is filed into its layer.
fn clone_mob(m: &MapObject) -> (r: MapObject)
    requires
        m.wf(),
    ensures
        r.uid == m.uid,
        r.wf(),
        r.attributes == m.attributes,
        r.position == m.position,
        r.velocity == m.velocity,
        r.move_time_left == m.move_time_left,
        r.move_end_action == m.move_end_action,
        r.update_action == m.update_action,
        r.animation_timer == m.animation_timer,
        r.scale == m.scale,
        r.visual.tileset_id == m.visual.tileset_id,
{
    let particles = ParticleDriver::new();
    MapObject {
        uid: m.uid,
        visual: Visual {
            base_image_id: m.visual.base_image_id,
            current_image_id: m.visual.current_image_id,
            frames: m.visual.frames,
            tileset_id: m.visual.tileset_id,
            height: m.visual.height,
            color: m.visual.color,
            blend: m.visual.blend,
            particles,
        },
        attributes: m.attributes,
        item: None,
        position: m.position,
        velocity: m.velocity,
        move_time_left: m.move_time_left,
        scale: m.scale,
        move_end_action: m.move_end_action,
        update_action: m.update_action,
        animation_timer: m.animation_timer,
    }
}

/// Every id of the sequence is at least the given bound.
pub open spec fn ids_at_least(s: Seq<MapObject>, n: int) -> bool {
    forall|i: int| 0 <= i < s.len() ==> (#[trigger] s[i]).uid >= n
}

/// The records of `rs` that belong to layer `l`, in order.
pub open spec fn records_for_layer(rs: Seq<ObjectRecord>, l: int) -> Seq<ObjectRecord>
    decreases rs.len(),
{
    if rs.len() == 0 {
        Seq::empty()
    } else {
        let rest = records_for_layer(rs.drop_last(), l);
        if rs.last().layer == l {
            rest.push(rs.last())
        } else {
            rest
        }
    }
}

/// A freshly loaded entity carries exactly its record's persisted fields and
/// the defaults everywhere else.
pub open spec fn mob_matches_record(m: MapObject, r: ObjectRecord) -> bool {
    &&& m.visual.base_image_id == r.tile_id
    &&& m.visual.current_image_id == r.tile_id
    &&& m.visual.frames == r.frames
    &&& m.visual.tileset_id == r.layer
    &&& m.visual.height == r.height
    &&& m.visual.color == r.color
    &&& m.visual.blend == r.blend
    &&& m.position == (Vec2 { x: r.x, y: r.y })
    &&& m.scale == r.scale
    &&& m.velocity == (Vec2 { x: 0i64, y: 0i64 })
    &&& m.move_time_left == 0
    &&& m.move_end_action == MoveEndAction::NoAction
    &&& m.update_action == UpdateAction::NoAction
    &&& m.animation_timer == 0
    &&& m.attributes == (MobAttributes {
        base_speed: 150,
        hit_points: 0,
        mob_type: MobType::MapObject,
    })
}

/// A loaded layer holds one matching entity per record, in record order,
/// with the preserved player appended at the end of the object layer.
pub open spec fn layer_matches(objs: Seq<MapObject>, rs: Seq<ObjectRecord>, with_player: bool) -> bool {
    if with_player {
        objs.len() == rs.len() + 1 && forall|k: int|
            0 <= k < rs.len() ==> mob_matches_record(#[trigger] objs[k], rs[k])
    } else {
        objs.len() == rs.len() && forall|k: int|
            0 <= k < rs.len() ==> mob_matches_record(#[trigger] objs[k], rs[k])
    }
}

/// The persisted records of one layer: every entity but the player, in
/// layer order, with its render fields.
pub open spec fn saved_records(objs: Seq<MapObject>, layer: int, player_id: u64) -> Seq<
    ObjectRecord,
>
    decreases objs.len(),
{
    if objs.len() == 0 {
        Seq::empty()
    } else {
        let rest = saved_records(objs.drop_last(), layer, player_id);
        if objs.last().uid == player_id {
            rest
        } else {
            rest.push(record_of(objs.last(), layer))
        }
    }
}

/// The record an entity persists as.
pub open spec fn record_of(m: MapObject, layer: int) -> ObjectRecord {
    ObjectRecord {
        layer: layer as usize,
        tile_id: m.visual.base_image_id,
        frames: m.visual.frames,
        x: m.position.x,
        y: m.position.y,
        height: m.visual.height,
        scale: m.scale,
        color: m.visual.color,
        blend: m.visual.blend,
    }
}

/// Records saved from a well-formed layer are well formed.
proof fn lemma_saved_records_ok(objs: Seq<MapObject>, layer: int, player_id: u64)
    requires
        all_wf(objs),
        0 <= layer < 7,
    ensures
        forall|k: int|
            0 <= k < saved_records(objs, layer, player_id).len()
                ==> crate::mapfile::object_record_ok(
                #[trigger] saved_records(objs, layer, player_id)[k],
            ),
    decreases objs.len(),
{
    if objs.len() > 0 {
        assert(all_wf(objs.drop_last())) by {
            assert(forall|i: int|
                0 <= i < objs.len() - 1 ==> (#[trigger] objs.drop_last()[i]) == objs[i]);
        }
        lemma_saved_records_ok(objs.drop_last(), layer, player_id);
        let rest = saved_records(objs.drop_last(), layer, player_id);
        if objs.last().uid != player_id {
            assert(objs.last().wf());
            assert(crate::mapfile::object_record_ok(record_of(objs.last(), layer)));
            assert forall|k: int|
                0 <= k < saved_records(objs, layer, player_id).len() implies crate::mapfile::object_record_ok(
                #[trigger] saved_records(objs, layer, player_id)[k],
            ) by {
                if k < rest.len() {
                    assert(saved_records(objs, layer, player_id)[k] == rest[k]);
                }
            }
        }
    }
}

/// One creature as `make_creatures` builds it: the default factory entity
/// at a point within five spacings of the center per axis, made a creature
/// with one hit point and a desynchronized animation clock, standing still.
pub open spec fn creature_spawned(
    m: MapObject,
    center: Vec2,
    spacing: i64,
    scale: i64,
    lo: int,
    hi: int,
) -> bool {
    &&& m.wf()
    &&& m.attributes == (MobAttributes {
        base_speed: 150,
        hit_points: 1,
        mob_type: MobType::Creature,
    })
    &&& lo <= m.uid < hi
    &&& m.visual.tileset_id == CREATURE_TILESET
    &&& m.scale == scale
    &&& m.velocity == (Vec2 { x: 0i64, y: 0i64 })
    &&& m.move_time_left == 0
    &&& 0 <= m.animation_timer < 1000
    &&& -5 * spacing <= m.position.x - center.x <= 5 * spacing
    &&& -5 * spacing <= m.position.y - center.y <= 5 * spacing
}

/// A random placement offset: the spacing scaled by a per-mille jitter of up
/// to five spacings either way.
fn spawn_offset(spacing: i64, j: i64) -> (r: i64)
    requires
        0 <= spacing <= 0x10_0000,
        -5000 <= j <= 5000,
    ensures
        -5 * spacing <= r <= 5 * spacing,
{
    let jmag: u64 = if j >= 0 {
        j as u64
    } else {
        (-j) as u64
    };
    proof {
        assert((spacing as int) * (jmag as int) <= (spacing as int) * 5000 && 0 <= (spacing
            as int) * (jmag as int) && (spacing as int) * 5000 == 1000 * (5 * (spacing as int)))
            by (nonlinear_arith)
            requires
                0 <= spacing,
                0 <= jmag <= 5000,
        ;
        vstd::arithmetic::div_mod::lemma_div_is_ordered(
            (spacing as int) * (jmag as int),
            (spacing as int) * 5000,
            1000,
        );
        vstd::arithmetic::div_mod::lemma_div_multiples_vanish(5 * (spacing as int), 1000);
        vstd::arithmetic::div_mod::lemma_div_pos_is_pos((spacing as int) * (jmag as int), 1000);
    }
    let omag: i64 = (((spacing as u128) * (jmag as u128)) / 1000) as i64;
    if j >= 0 {
        omag
    } else {
        -omag
    }
}

/// A clamped point stays as close to an in-box center as the raw offset was.
proof fn lemma_clamp_near(c: int, off: int, bound: int)
    requires
        coord_ok(c),
        0 <= bound,
        -bound <= off <= bound,
    ensures
        -bound <= crate::num::clamp_coord(c + off) - c <= bound,
{
}

/// A velocity component after at most one unit of jitter, or pinned to the
/// velocity bound by the clamp.
pub open spec fn within_jitter(v: int, base: int) -> bool {
    (base - 1 <= v <= base + 1) || v == MAX_VEL || v == -MAX_VEL
}

/// What one drive-particle roll can do to a pool: nothing (no emission
/// drawn, or every slot from the cursor on was taken), or exactly one
/// exhaust particle claimed at the first free slot — one second of life,
/// 25 world units up, a drive spark tile, the exhaust tint, velocity
/// opposite the motion with at most one unit of jitter per axis and no
/// vertical drift.
pub open spec fn emit_outcome(p0: ParticleDriver, p1: ParticleDriver, vel: Vec2) -> bool {
    &&& p1.spawn_ids@ == p0.spawn_ids@
    &&& p1.spawn_chance == p0.spawn_chance
    &&& ({
        ||| (p1.slots() == p0.slots() && p1.search_cursor() == p0.search_cursor()
            && p1.high_water_mark() == p0.high_water_mark())
        ||| ({
            let i = crate::particles::first_free_at(p0.slots(), p0.search_cursor());
            let q = p1.slots()[i];
            &&& 0 <= i < crate::particles::PMAX as int
            &&& p1.slots() == p0.slots().update(i, q)
            &&& q.active
            &&& q.lifetime == 1000
            &&& q.total_lifetime == 1000
            &&& q.zpos == 25_000
            &&& q.zvel == 0
            &&& 1993 <= q.tex_id <= 1997
            &&& q.color == (crate::particles::Rgb { r: 500, g: 800, b: 1000 })
            &&& within_jitter(q.xvel as int, -vel.x as int)
            &&& within_jitter(q.yvel as int, -vel.y as int)
        })
    })
}

/// A spark of the hit burst: a short-lived scatter particle thrown out from
/// the target's midriff with a bounded randomized velocity, a spark tile and
/// a hot tint.
pub open spec fn is_spark(q: crate::particles::Particle, z_off: int) -> bool {
    &&& q.lifetime == 700
    &&& q.total_lifetime == 700
    &&& q.xpos == 0
    &&& q.ypos == 0
    &&& q.zpos == z_off
    &&& (q.tex_id == 403 || q.tex_id == 404 || (1993 <= q.tex_id <= 1997))
    &&& 800 <= q.color.r <= 1200
    &&& 500 <= q.color.g <= 900
    &&& 100 <= q.color.b <= 500
    &&& -150 <= q.xvel <= 150
    &&& -150 <= q.yvel <= 150
    &&& 0 <= q.zvel <= 150
}

/// What the hit burst does to the target's pool: active particles are left
/// alone, and every newly active slot holds a spark.
pub open spec fn spark_burst(p0: ParticleDriver, p1: ParticleDriver, z_off: int) -> bool {
    &&& p1.spawn_ids@ == p0.spawn_ids@
    &&& p1.spawn_chance == p0.spawn_chance
    &&& forall|s: int|
        0 <= s < crate::particles::PMAX && (#[trigger] p0.slots()[s]).active ==> p1.slots()[s]
            == p0.slots()[s]
    &&& forall|s: int|
        0 <= s < crate::particles::PMAX && !(#[trigger] p0.slots()[s]).active
            && p1.slots()[s].active ==> is_spark(p1.slots()[s], z_off)
}

/// Some creature group has a member steering this entity id.
pub open spec fn member_of_any(gs: Seq<MobGroup>, id: u64) -> bool {
    exists|g: int, t: int|
        0 <= g < gs.len() && 0 <= t < gs[g].members@.len() && (#[trigger] gs[g].members@[t]).id
            == id
}

/// A projectile at some index paired with a nearest-in-radius target.
pub open spec fn is_hit_pair(objs: Seq<MapObject>, p: u64, t: u64) -> bool {
    exists|i: int, j: int|
        {
            &&& 0 <= i < objs.len()
            &&& (#[trigger] objs[i]).uid == p
            &&& (objs[i].attributes.mob_type == MobType::PlayerProjectile
                || objs[i].attributes.mob_type == MobType::CreatureProjectile)
            &&& #[trigger] nearest_candidate(objs, objs[i].position, HIT_RADIUS as int, p, j)
            &&& objs[j].uid == t
        }
}

/// A candidate hit counts exactly when the kind pair is compatible (a
/// player projectile never strikes the player, a creature projectile never
/// strikes a creature) and the target still has hit points.
pub open spec fn valid_hit(projectile_type: MobType, target_type: MobType, target_hp: int) -> bool {
    &&& !(projectile_type == MobType::PlayerProjectile && target_type == MobType::Player)
    &&& !(projectile_type == MobType::CreatureProjectile && target_type == MobType::Creature)
    &&& target_hp > 0
}

/// Law: collision resolution never reports friendly fire, whatever the hit
/// points: no player projectile ever strikes the player and no creature
/// projectile ever strikes a creature.
pub proof fn lemma_no_friendly_fire(pt: MobType, tt: MobType, thp: int)
    ensures
        valid_hit(pt, tt, thp) ==> !(pt == MobType::PlayerProjectile && tt == MobType::Player),
        valid_hit(pt, tt, thp) ==> !(pt == MobType::CreatureProjectile && tt == MobType::Creature),
{
}

/// Hit points after the fixed per-hit damage, saturating at the lowest
/// representable value.
pub open spec fn damaged(hp: int) -> int {
    damaged_by(hp, 10)
}

/// Hit points after `n` damage steps of ten points each, saturating.
pub open spec fn damaged_by(hp: int, n: int) -> int
    decreases n,
{
    if n <= 0 {
        hp
    } else {
        let prev = damaged_by(hp, n - 1);
        if prev >= i32::MIN + 10 {
            prev - 10
        } else {
            i32::MIN as int
        }
    }
}

/// Damage only lowers hit points.
pub proof fn lemma_damaged_le(hp: int, n: int)
    requires
        hp >= i32::MIN,
    ensures
        damaged_by(hp, n) <= hp,
    decreases n,
{
    if n > 0 {
        lemma_damaged_le(hp, n - 1);
    }
}

/// Presence of an id survives an in-place pass that keeps every uid.
proof fn lemma_contains_preserved(pre: Seq<MapObject>, post: Seq<MapObject>, id: u64)
    requires
        pre.len() == post.len(),
        forall|j: int| 0 <= j < pre.len() ==> (#[trigger] post[j]).uid == pre[j].uid,
    ensures
        contains_id(pre, id) ==> contains_id(post, id),
{
    if contains_id(pre, id) {
        let w = choose|w: int| 0 <= w < pre.len() && (#[trigger] pre[w]).uid == id;
        assert(post[w].uid == id);
    }
}

/// The behavior registered for an entity id: the first entry of the side
/// table with that key, so a fresher entry inserted at the front shadows an
/// older one.
pub open spec fn anim_for(anims: Seq<(u64, Animation)>, id: u64) -> Option<Animation>
    decreases anims.len(),
{
    if anims.len() == 0 {
        Option::None
    } else if anims.first().0 == id {
        Option::Some(anims.first().1)
    } else {
        anim_for(anims.drop_first(), id)
    }
}

/// A found behavior is one of the table's entries under the same key.
pub(crate) proof fn lemma_anim_for_entry(anims: Seq<(u64, Animation)>, id: u64)
    ensures
        match anim_for(anims, id) {
            Option::Some(a) => exists|j: int|
                0 <= j < anims.len() && (#[trigger] anims[j]) == (id, a),
            Option::None => true,
        },
    decreases anims.len(),
{
    if anims.len() > 0 && anims.first().0 != id {
        lemma_anim_for_entry(anims.drop_first(), id);
        match anim_for(anims.drop_first(), id) {
            Option::Some(a) => {
                let j = choose|j: int|
                    0 <= j < anims.drop_first().len() && (#[trigger] anims.drop_first()[j]) == (
                    id,
                    a,
                );
                assert(anims[j + 1] == (id, a));
            },
            Option::None => {},
        }
    }
}

/// Looks up the animation behavior registered for an entity id.
fn find_animation(anims: &Vec<(u64, Animation)>, id: u64) -> (r: Option<Animation>)
    ensures
        r == anim_for(anims@, id),
{
    let mut j: usize = 0;
    proof {
        assert(anims@.skip(0) =~= anims@);
    }
    while j < anims.len()
        invariant
            j <= anims@.len(),
            anim_for(anims@, id) == anim_for(anims@.skip(j as int), id),
        decreases anims@.len() - j,
    {
        proof {
            assert(anims@.skip(j as int).first() == anims@[j as int]);
            assert(anims@.skip(j as int).drop_first() =~= anims@.skip(j as int + 1));
        }
        if anims[j].0 == id {
            return Some(anims[j].1);
        }
        j = j + 1;
    }
    proof {
        assert(anims@.skip(anims@.len() as int).len() == 0);
    }
    None
}

/// One entity's share of the motion phase: integrate the timed move, handle
/// the move ending (clear particles, note the removal wish), roll the
/// ambient particle spawn, age the pool, apply the given animation behavior,
/// and finally carry out the entity's update action (note removal, or emit
/// drive particles while still moving). Returns whether the entity asked to
/// be removed this tick. Nothing here moves an entity but the integration
/// itself, so the position and remaining move time land exactly where
/// `moved` puts them, and the velocity is untouched.
fn tick_entity(e: &mut MapObject, anim: Option<Animation>, dt: i64, rng: &mut rand::rngs::StdRng) -> (kill: bool)
    requires
        old(e).wf(),
        crate::num::dt_ok(dt as int),
        match anim {
            Some(a) => a.wf(),
            None => true,
        },
    ensures
        final(e).wf(),
        final(e).uid == old(e).uid,
        final(e).attributes == old(e).attributes,
        final(e).move_end_action == old(e).move_end_action,
        final(e).velocity == old(e).velocity,
        final(e).position == moved(*old(e), dt as int).position,
        final(e).move_time_left == moved(*old(e), dt as int).move_time_left,
        old(e).update_action == UpdateAction::RemoveFromMap ==> kill,
        (0 < old(e).move_time_left <= dt && old(e).move_end_action == MoveEndAction::RemoveFromMap)
            ==> kill,
{
    let mut kill = false;
    let before = e.move_time_left;
    e.move_dt(dt);
    let after = e.move_time_left;
    if before > 0 && after <= 0 {
        e.visual.particles.clear();
        if e.move_end_action == MoveEndAction::RemoveFromMap {
            kill = true;
        }
    }
    let spawn_count = e.visual.particles.spawn_ids.len();
    let spawn_chance = e.visual.particles.spawn_chance;
    if spawn_count > 0 && spawn_chance > 0 {
        proof {
            assert((spawn_chance as int) * (dt as int) <= 0x10_0000_0000_0000) by (nonlinear_arith)
                requires
                    0 <= spawn_chance <= u32::MAX,
                    0 <= dt <= crate::num::MAX_DT,
            ;
        }
        let threshold: u64 = (spawn_chance as u64) * (dt as u64);
        let roll = rng_below(rng, 1_000_000);
        if (roll as u64) < threshold {
            let bound: u32 = if spawn_count > 0xFFFF_FFFFusize {
                0xFFFF_FFFFu32
            } else {
                spawn_count as u32
            };
            let pick = rng_below(rng, bound) as usize;
            let spark = e.visual.particles.spawn_ids[pick];
            let added = e.visual.particles.add_particle(
                0,
                -400_000,
                0,
                0,
                0,
                0,
                100,
                spark,
                crate::particles::Rgb { r: 700, g: 750, b: 900 },
            );
        }
    }
    e.visual.particles.drive(dt);
    match anim {
        Some(a) => {
            a.update(dt, e);
        },
        None => {},
    }
    if e.update_action == UpdateAction::RemoveFromMap {
        kill = true;
    } else if e.update_action == UpdateAction::EmitDriveParticles && after > 0 {
        emit_drive_particles(e, dt, rng);
    }
    kill
}

/// Emits one trailing exhaust particle behind a moving entity's direction of
/// travel, with small randomized jitter, gated by a per-second probability;
/// only the entity's particle pool can change, and most ticks change
/// nothing.
pub fn emit_drive_particles(mob: &mut MapObject, dt: i64, rng: &mut rand::rngs::StdRng)
    requires
        old(mob).wf(),
        crate::num::dt_ok(dt as int),
    ensures
        final(mob).wf(),
        final(mob).uid == old(mob).uid,
        final(mob).attributes == old(mob).attributes,
        final(mob).position == old(mob).position,
        final(mob).velocity == old(mob).velocity,
        final(mob).move_time_left == old(mob).move_time_left,
        final(mob).move_end_action == old(mob).move_end_action,
        final(mob).update_action == old(mob).update_action,
        final(mob).animation_timer == old(mob).animation_timer,
        final(mob).scale == old(mob).scale,
        final(mob).visual.base_image_id == old(mob).visual.base_image_id,
        final(mob).visual.current_image_id == old(mob).visual.current_image_id,
        final(mob).visual.frames == old(mob).visual.frames,
        final(mob).visual.tileset_id == old(mob).visual.tileset_id,
        final(mob).visual.color == old(mob).visual.color,
        final(mob).visual.blend == old(mob).visual.blend,
        emit_outcome(
            old(mob).visual.particles,
            final(mob).visual.particles,
            old(mob).velocity,
        ),
{
    // 20 per second, in millionths per millisecond.
    let threshold: u64 = 20_000u64 * (dt as u64);
    let roll = rng_below(rng, 1_000_000);
    if (roll as u64) < threshold {
        let dx: i64 = -mob.velocity.x;
        let dy: i64 = -mob.velocity.y;
        let j1: i64 = rng_below(rng, 2001) as i64 - 1000;
        let j2: i64 = rng_below(rng, 2001) as i64 - 1000;
        let xp = clamp_coord_exec(dx / 2 + crate::num::mul_small(dy, j1) * 150 / 1_000_000);
        let yp = clamp_coord_exec(dy / 2 + crate::num::mul_small(dx, j2) * 150 / 1_000_000);
        let xv = clamp_vel(dx + rng_below(rng, 3) as i64 - 1);
        let yv = clamp_vel(dy + rng_below(rng, 3) as i64 - 1);
        let spark: usize = 1993 + rng_below(rng, 5) as usize;
        let ghost pcall = mob.visual.particles;
        let added = mob.visual.particles.add_particle(
            xp,
            yp,
            25_000,
            xv,
            yv,
            0,
            1000,
            spark,
            crate::particles::Rgb { r: 500, g: 800, b: 1000 },
        );
        proof {
            let p0 = old(mob).visual.particles;
            let p1 = mob.visual.particles;
            assert(pcall == p0);
            let i = crate::particles::first_free_at(p0.slots(), p0.search_cursor());
            if i < crate::particles::PMAX as int {
                assert(added);
                assert(pcall.slots().len() == crate::particles::PMAX);
                crate::particles::lemma_first_free_at_ge(pcall.slots(), pcall.search_cursor());
                assert(0 <= i);
                assert(p1.slots() == pcall.slots().update(
                    i,
                    crate::particles::Particle {
                        active: true,
                        lifetime: 1000,
                        total_lifetime: 1000,
                        xpos: xp,
                        ypos: yp,
                        zpos: 25_000,
                        xvel: xv,
                        yvel: yv,
                        zvel: 0,
                        tex_id: spark,
                        color: crate::particles::Rgb { r: 500, g: 800, b: 1000 },
                    },
                ));
                assert(p1.slots()[i] == (crate::particles::Particle {
                    active: true,
                    lifetime: 1000,
                    total_lifetime: 1000,
                    xpos: xp,
                    ypos: yp,
                    zpos: 25_000,
                    xvel: xv,
                    yvel: yv,
                    zvel: 0,
                    tex_id: spark,
                    color: crate::particles::Rgb { r: 500, g: 800, b: 1000 },
                }));
                assert(p1.slots()[i].xvel == xv);
                assert(within_jitter(xv as int, -old(mob).velocity.x as int));
                assert(within_jitter(p1.slots()[i].xvel as int, -old(mob).velocity.x as int));
                assert(p1.slots() == p0.slots().update(i, p1.slots()[i]));
                assert(emit_outcome(p0, p1, old(mob).velocity));
            } else {
                assert(p1.slots() == p0.slots());
                assert(emit_outcome(p0, p1, old(mob).velocity));
            }
        }
    }
}

/// Clamps a jittered velocity back into the velocity bound.
fn clamp_vel(v: i64) -> (r: i64)
    requires
        -2 * MAX_VEL <= v <= 2 * MAX_VEL,
    ensures
        crate::num::vel_ok(r as int),
        r == v || r == MAX_VEL || r == -MAX_VEL,
{
    if v > MAX_VEL {
        MAX_VEL
    } else if v < -MAX_VEL {
        -MAX_VEL
    } else {
        v
    }
}

/// Removing one entity preserves the layer invariants.
pub(crate) proof fn lemma_store_remove_keeps(s: Seq<MapObject>, i: int, bound: int)
    requires
        0 <= i < s.len(),
        all_wf(s),
        ids_unique(s),
        ids_below(s, bound),
    ensures
        all_wf(s.remove(i)),
        ids_unique(s.remove(i)),
        ids_below(s.remove(i), bound),
{
    let t = s.remove(i);
    assert forall|k: int| 0 <= k < t.len() implies (#[trigger] t[k]).wf() && t[k].uid < bound by {
        if k < i {
            assert(t[k] == s[k]);
        } else {
            assert(t[k] == s[k + 1]);
        }
    }
    assert forall|a: int, b: int|
        0 <= a < b < t.len() implies (#[trigger] t[a]).uid != (#[trigger] t[b]).uid by {
        let sa = if a < i { a } else { a + 1 };
        let sb = if b < i { b } else { b + 1 };
        assert(t[a] == s[sa] && t[b] == s[sb]);
    }
}

/// Clamps a sum of two in-box coordinates back into the world box.
pub(crate) fn clamp_coord_exec(x: i64) -> (r: i64)
    requires
        -2 * MAX_COORD <= x <= 2 * MAX_COORD,
    ensures
        r as int == crate::num::clamp_coord(x as int),
{
    if x < -MAX_COORD {
        -MAX_COORD
    } else if x > MAX_COORD {
        MAX_COORD
    } else {
        x
    }
}

/// The entity after a timed straight-line move toward `dest` at
/// `base_speed` is issued: the velocity points at the destination with the
/// base speed's magnitude, the remaining move time covers the distance, and
/// the sprite faces the direction of travel. A move to the entity's own
/// position stops it.
pub open spec fn move_mob_applied(m: MapObject, dest: Vec2, base_speed: i64) -> MapObject {
    let dx = dest.x - m.position.x;
    let dy = dest.y - m.position.y;
    let dist = sqrt_floor(dx * dx + dy * dy);
    let offset = crate::entity::orient_offset(dx as int, dy as int, m.visual.frames as int);
    if dist == 0 {
        MapObject {
            velocity: Vec2 { x: 0, y: 0 },
            move_time_left: 0,
            visual: Visual {
                current_image_id: (m.visual.base_image_id + offset) as usize,
                ..m.visual
            },
            ..m
        }
    } else {
        MapObject {
            velocity: Vec2 {
                x: crate::num::scaled_toward(dx as int, base_speed as int, dist) as i64,
                y: crate::num::scaled_toward(dy as int, base_speed as int, dist) as i64,
            },
            move_time_left: (if dist / (base_speed as int) > 0 {
                dist / (base_speed as int)
            } else {
                1
            }) as i64,
            visual: Visual {
                current_image_id: (m.visual.base_image_id + offset) as usize,
                ..m.visual
            },
            ..m
        }
    }
}

/// Issues a timed straight-line move toward `destination` at `base_speed`
/// (milli-units per millisecond), exactly as `move_mob_applied` describes.
pub fn move_mob(mob: &mut MapObject, destination: Vec2, base_speed: i64)
    requires
        old(mob).wf(),
        vec2_coord_ok(destination),
        1 <= base_speed <= MAX_VEL,
    ensures
        final(mob).wf(),
        *final(mob) == move_mob_applied(*old(mob), destination, base_speed),
{
    let dx: i64 = destination.x - mob.position.x;
    let dy: i64 = destination.y - mob.position.y;
    let ghost d2 = dx * dx + dy * dy;
    let d2e: i128 = crate::num::square_wide(dx) + crate::num::square_wide(dy);
    let dist: u64 = crate::num::isqrt(d2e as u128);
    proof {
        crate::num::lemma_sqrt_floor_is(d2, dist as int);
        lemma_component_le(dx as int, dy as int, dist as int);
        lemma_dist_bounded(dx as int, dy as int, dist as int);
    }
    let offset = mob.visual.orient(dx, dy);
    mob.visual.current_image_id = mob.visual.base_image_id + offset;
    if dist == 0 {
        mob.velocity = Vec2 { x: 0, y: 0 };
        mob.move_time_left = 0;
    } else {
        let vx: i64 = crate::num::scale_toward(dx, base_speed, dist);
        let vy: i64 = crate::num::scale_toward(dy, base_speed, dist);
        let mut time: i64 = (dist / (base_speed as u64)) as i64;
        proof {
            vstd::arithmetic::div_mod::lemma_div_is_ordered_by_denominator(
                dist as int,
                1,
                base_speed as int,
            );
        }
        if time == 0 {
            time = 1;
        }
        mob.velocity = Vec2 { x: vx, y: vy };
        mob.move_time_left = time;
    }
}

/// A leg of a vector never exceeds the rounded-down length of the vector.
proof fn lemma_component_le(dx: int, dy: int, dist: int)
    requires
        dist >= 0,
        dist * dist <= dx * dx + dy * dy,
        dx * dx + dy * dy < (dist + 1) * (dist + 1),
    ensures
        -dist <= dx <= dist,
        -dist <= dy <= dist,
{
    assert(-dist <= dx <= dist && -dist <= dy <= dist) by (nonlinear_arith)
        requires
            dist >= 0,
            dx * dx + dy * dy < (dist + 1) * (dist + 1),
    ;
}

/// The rounded-down length of an in-box direction vector fits well inside
/// the move-time and scaling bounds.
proof fn lemma_dist_bounded(dx: int, dy: int, dist: int)
    requires
        dist >= 0,
        dist * dist <= dx * dx + dy * dy,
        -0x8000_0000_0000 <= dx <= 0x8000_0000_0000,
        -0x8000_0000_0000 <= dy <= 0x8000_0000_0000,
    ensures
        dist <= 0x1_0000_0000_0000,
{
    assert(dist <= 0x1_0000_0000_0000) by (nonlinear_arith)
        requires
            dist >= 0,
            dist * dist <= dx * dx + dy * dy,
            -0x8000_0000_0000 <= dx <= 0x8000_0000_0000,
            -0x8000_0000_0000 <= dy <= 0x8000_0000_0000,
    ;
}

/// Builds a projectile flying from `shooter_position` toward `fire_at` at
/// `speed` (milli-units per millisecond): it starts eighty world units ahead
/// of the shooter, lives for two seconds of flight, removes itself when the
/// move ends, and faces its direction of travel. Firing at the shooter's own
/// position produces a stationary projectile.
pub fn fire_projectile(
    shooter_position: Vec2,
    fire_at: Vec2,
    speed: i64,
    projectile_type: MobType,
    factory: &mut MapObjectFactory,
) -> (r: MapObject)
    requires
        old(factory).next_id < u64::MAX,
        vec2_coord_ok(shooter_position),
        vec2_coord_ok(fire_at),
        1 <= speed <= MAX_VEL,
    ensures
        final(factory).next_id == old(factory).next_id + 1,
        r.wf(),
        r.uid == old(factory).next_id,
        r.attributes.mob_type == projectile_type,
        r.move_time_left == 2000,
        r.move_end_action == MoveEndAction::RemoveFromMap,
        r.update_action == UpdateAction::NoAction,
        r.visual.tileset_id == PROJECTILE_TILESET,
        ({
            let dx = fire_at.x - shooter_position.x;
            let dy = fire_at.y - shooter_position.y;
            let dist = sqrt_floor(dx * dx + dy * dy);
            let offset = crate::entity::orient_offset(dx, dy, 8);
            &&& r.visual.current_image_id == 1 + offset
            &&& if dist == 0 {
                r.velocity == (Vec2 { x: 0, y: 0 }) && r.position == shooter_position
            } else {
                r.velocity == (Vec2 {
                    x: crate::num::scaled_toward(dx, speed as int, dist) as i64,
                    y: crate::num::scaled_toward(dy, speed as int, dist) as i64,
                }) && r.position == (Vec2 {
                    x: crate::num::clamp_coord(
                        shooter_position.x + crate::num::scaled_toward(dx, 80_000, dist),
                    ) as i64,
                    y: crate::num::clamp_coord(
                        shooter_position.y + crate::num::scaled_toward(dy, 80_000, dist),
                    ) as i64,
                })
            }
        }),
{
    let dx: i64 = fire_at.x - shooter_position.x;
    let dy: i64 = fire_at.y - shooter_position.y;
    let ghost d2 = dx * dx + dy * dy;
    let d2e: i128 = crate::num::square_wide(dx) + crate::num::square_wide(dy);
    let dist: u64 = crate::num::isqrt(d2e as u128);
    proof {
        crate::num::lemma_sqrt_floor_is(d2, dist as int);
        lemma_component_le(dx as int, dy as int, dist as int);
        lemma_dist_bounded(dx as int, dy as int, dist as int);
    }
    let start: Vec2 = if dist == 0 {
        shooter_position
    } else {
        let ox: i64 = crate::num::scale_toward(dx, 80_000, dist);
        let oy: i64 = crate::num::scale_toward(dy, 80_000, dist);
        Vec2 {
            x: clamp_coord_exec(shooter_position.x + ox),
            y: clamp_coord_exec(shooter_position.y + oy),
        }
    };
    let mut projectile = factory.create_mob(1, PROJECTILE_TILESET, start, 12_000, 500);
    if dist > 0 {
        let vx: i64 = crate::num::scale_toward(dx, speed, dist);
        let vy: i64 = crate::num::scale_toward(dy, speed, dist);
        projectile.velocity = Vec2 { x: vx, y: vy };
    }
    projectile.move_time_left = 2000;
    projectile.move_end_action = MoveEndAction::RemoveFromMap;
    projectile.attributes.mob_type = projectile_type;
    let offset = projectile.visual.orient(dx, dy);
    projectile.visual.current_image_id = projectile.visual.base_image_id + offset;
    projectile
}

} // verus!
