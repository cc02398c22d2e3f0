use tiny_places_core::entity::{BlendMode, Rgba};
use tiny_places_core::geom::Vec2;
use tiny_places_core::map::{GameMap, MAP_CLOUD_LAYER, MAP_GROUND_LAYER, MAP_OBJECT_LAYER};
use tiny_places_core::mapfile::{
    parse_map, parse_object_line, parse_transition_line, serialize_map, MapData, ObjectRecord,
    TransitionRecord,
};

fn sample_record(layer: usize, x: i64, y: i64) -> ObjectRecord {
    ObjectRecord {
        layer,
        tile_id: 17,
        frames: 8,
        x,
        y,
        height: 24_000,
        scale: 1500,
        color: Rgba { r: 1000, g: 900, b: 800, a: 700 },
        blend: BlendMode::Add,
    }
}

#[test]
fn map_data_round_trips_through_text() {
    // Save-then-load of a populated map round-trips every numeric field
    // exactly: ground, object and cloud layers, several transitions.
    let data = MapData {
        name: b"round trip".to_vec(),
        map_image_name: b"ground.png".to_vec(),
        backdrop_image_name: b"stars.png".to_vec(),
        objects: vec![
            sample_record(MAP_GROUND_LAYER, -123_456, 789),
            sample_record(MAP_OBJECT_LAYER, 1_000_001, 2_000_002),
            sample_record(MAP_CLOUD_LAYER, 0, -1),
        ],
        transitions: vec![
            TransitionRecord { x: 10_000, y: 20_000, radius: 5_000, to: 1 },
            TransitionRecord { x: -30_000, y: 40_000, radius: 6_000, to: -2 },
        ],
    };
    let text = serialize_map(&data);
    let back = parse_map(&text).expect("a serialized map must parse");
    assert_eq!(back.name, data.name);
    assert_eq!(back.map_image_name, data.map_image_name);
    assert_eq!(back.backdrop_image_name, data.backdrop_image_name);
    assert_eq!(back.objects, data.objects);
    assert_eq!(back.transitions, data.transitions);
}

#[test]
fn store_save_load_round_trips_entities() {
    // The player is excluded from the persisted objects; everything else
    // comes back field for field.
    let mut map = GameMap::new(b"m", b"i.png", b"b.png");
    let mut mob = map.factory.create_mob(42, MAP_GROUND_LAYER, Vec2 { x: 7_500, y: -2_500 }, 16_000, 800);
    mob.visual.color = Rgba { r: 10, g: 20, b: 30, a: 40 };
    mob.visual.blend = BlendMode::Multiply;
    mob.visual.frames = 4;
    map.layers[MAP_GROUND_LAYER].push(mob);
    map.transitions.push(tiny_places_core::map::MapTransition {
        from: Vec2 { x: 1, y: 2 },
        rad: 3,
        to: 4,
    });
    let saved = map.save();
    assert_eq!(saved.objects.len(), 1);
    let mut map2 = GameMap::new(b"other", b"x.png", b"y.png");
    map2.load(&saved);
    let saved2 = map2.save();
    assert_eq!(saved2.objects, saved.objects);
    assert_eq!(saved2.transitions, saved.transitions);
    assert_eq!(saved2.name, saved.name);
}

#[test]
fn object_line_parses_back() {
    let rec = sample_record(1, -5, 99);
    let mut line: Vec<u8> = Vec::new();
    tiny_places_core::mapfile::format_object_line(&rec, &mut line);
    assert_eq!(line, b"1,17,8,-5,99,24000,1500,1000 900 800 700,a".to_vec());
    assert_eq!(parse_object_line(&line), Some(rec));
}

#[test]
fn transition_line_parses_back() {
    let rec = TransitionRecord { x: -1, y: 2, radius: 3, to: -4 };
    let mut line: Vec<u8> = Vec::new();
    tiny_places_core::mapfile::format_transition_line(&rec, &mut line);
    assert_eq!(line, b"-1,2,3,-4".to_vec());
    assert_eq!(parse_transition_line(&line), Some(rec));
}

#[test]
fn malformed_lines_are_rejected() {
    assert_eq!(parse_object_line(b"1,17,8"), None);
    assert_eq!(parse_object_line(b"9,17,8,-5,99,24000,1500,1000 900 800 700,a"), None);
    assert_eq!(parse_object_line(b"1,17,8,x,99,24000,1500,1000 900 800 700,a"), None);
    assert_eq!(parse_transition_line(b"1,2,3"), None);
    assert_eq!(parse_transition_line(b"1,2,-3,4"), None);
    assert!(parse_map(b"v10\nonly a header").is_none());
}

#[test]
fn blend_keys_cover_all_modes() {
    let modes = [
        (BlendMode::Alpha, b'n'),
        (BlendMode::Add, b'a'),
        (BlendMode::Lighter, b'l'),
        (BlendMode::Multiply, b'm'),
        (BlendMode::Invert, b'i'),
    ];
    for (mode, key) in modes {
        assert_eq!(tiny_places_core::mapfile::blend_to_key(mode), key);
        assert_eq!(tiny_places_core::mapfile::key_to_blend(key), mode);
    }
    // Unknown keys fall back to alpha blending.
    assert_eq!(tiny_places_core::mapfile::key_to_blend(b'?'), BlendMode::Alpha);
}

#[test]
fn numbers_round_trip_and_reject_junk() {
    for n in [0i64, 1, -1, 42, -987654321, i64::MAX, -i64::MAX] {
        let mut out: Vec<u8> = Vec::new();
        tiny_places_core::textfmt::format_i64(n, &mut out);
        assert_eq!(tiny_places_core::textfmt::parse_i64(&out), Some(n));
    }
    assert_eq!(tiny_places_core::textfmt::parse_i64(b""), None);
    assert_eq!(tiny_places_core::textfmt::parse_i64(b"-"), None);
    assert_eq!(tiny_places_core::textfmt::parse_i64(b"12x"), None);
    assert_eq!(tiny_places_core::textfmt::parse_i64(b"99999999999999999999"), None);
    assert_eq!(tiny_places_core::textfmt::parse_i64(b"007"), Some(7));
}

#[test]
fn split_fields_matches_manual_split() {
    let fields = tiny_places_core::textfmt::split_fields(b"a,bc,,d", b',');
    let views: Vec<Vec<u8>> = fields;
    assert_eq!(views, vec![b"a".to_vec(), b"bc".to_vec(), b"".to_vec(), b"d".to_vec()]);
}
