use rl_core::data::DimensionsVec;
use rl_core::defs::MaterialDefinitionId;
use rl_core::liquid::{liquid_dynamics, liquid_flow, liquid_indices, LiquidAddition, MAX_LIQUID_DEPTH};
use rl_core::map::{MapWriter, TileMap};
use rl_core::math::{Vec2i, Vec3i};
use rl_core::tile::{Tile, TileFlag, TileKind, TileLiquid};

fn floor(material: u16) -> Tile {
    let mut t = Tile::default();
    t.material = material;
    t.make_floor();
    t
}

fn water(depth: u8) -> TileLiquid {
    TileLiquid { material: MaterialDefinitionId(3), depth }
}

#[test]
fn with_default_fills_and_measures_heights() {
    let map = TileMap::with_default(Vec3i::new(4, 3, 3), floor(1));
    assert_eq!(map.len(), 36);
    assert!(!map.is_empty());
    assert_eq!(map.dimensions(), Vec3i::new(4, 3, 3));
    assert_eq!(map.get(Vec3i::new(3, 2, 2)).kind, TileKind::Floor);
    assert_eq!(map.height_at(Vec2i::new(1, 1)), 0);
    assert_eq!(map.height_map.len(), 11);
    assert_eq!(map.version().version, 0);
}

#[test]
fn a_single_column_map_can_be_empty() {
    let map = TileMap::new(Vec3i::new(1, 1, 4));
    assert_eq!(map.len(), 4);
    assert!(map.get(Vec3i::new(0, 0, 3)).is_empty());
    assert!(map.height_map.is_empty());
}

#[test]
fn get_after_set_reads_the_new_tile_and_leaves_the_others() {
    let mut map = TileMap::with_default(Vec3i::new(4, 3, 3), floor(1));
    let c = Vec3i::new(2, 1, 1);
    map.set(c, floor(9));
    assert_eq!(map.get(c).material, 9);
    assert_eq!(map.get(Vec3i::new(1, 1, 1)).material, 1);
    assert_eq!(map.get(Vec3i::new(2, 1, 0)).material, 1);
    assert_eq!(map.version().version, 1);
    assert_eq!(map.version().dirty.len(), 1);
    assert_eq!(map.version().dirty[0].0, 1 * 4 * 3 + 1 * 4 + 2);
    map.clear_dirty();
    assert!(map.version().dirty.is_empty());
    assert_eq!(map.version().version, 1);
}

#[test]
fn set_untracked_leaves_the_version() {
    let mut map = TileMap::with_default(Vec3i::new(2, 2, 2), floor(1));
    map.set_untracked(Vec3i::new(1, 1, 1), floor(4));
    assert_eq!(map.get(Vec3i::new(1, 1, 1)).material, 4);
    assert_eq!(map.version().version, 0);
    map.mark_dirty(Vec3i::new(1, 1, 1));
    assert_eq!(map.version().version, 1);
    assert_eq!(map.version().dirty[0].1.material, 4);
}

#[test]
fn neighbors_come_west_first() {
    let map = TileMap::with_default(Vec3i::new(3, 3, 2), floor(1));
    let ns = map.neighbors(&Vec3i::new(1, 1, 0));
    assert_eq!(ns.len(), 8);
    assert_eq!(ns.get(0), Vec3i::new(0, 1, 0));
    assert_eq!(ns.get(1), Vec3i::new(0, 2, 0));
    assert_eq!(ns.get(2), Vec3i::new(1, 0, 0));
    assert_eq!(ns.get(7), Vec3i::new(1, 2, 0));
    let corner = map.neighbors(&Vec3i::new(2, 2, 0));
    assert_eq!(corner.len(), 3);
    assert_eq!(corner.get(0), Vec3i::new(1, 2, 0));
    assert_eq!(corner.get(1), Vec3i::new(2, 1, 0));
    assert_eq!(corner.get(2), Vec3i::new(1, 1, 0));
    assert_eq!(map.neighbors_3d(&Vec3i::new(1, 1, 1)).len(), 24);
}

#[test]
fn height_map_follows_digging() {
    let mut map = TileMap::with_default(Vec3i::new(3, 3, 3), floor(1));
    map.set(Vec3i::new(1, 1, 0), Tile::default());
    map.recompute_height_map_single(Vec3i::new(1, 1, 0));
    assert_eq!(map.height_at(Vec2i::new(1, 1)), 1);
    map.set(Vec3i::new(0, 0, 0), Tile::default());
    map.recompute_height_map();
    assert_eq!(map.height_at(Vec2i::new(0, 0)), 1);
    assert_eq!(map.height_at(Vec2i::new(1, 1)), 1);
    assert_eq!(map.height_at(Vec2i::new(2, 0)), 0);
}

#[test]
fn tile_liquid_added_then_removed_gives_it_back() {
    let mut t = floor(1);
    t.add_liquid(MaterialDefinitionId(3), 30);
    assert_eq!(t.liquid_depth(), 30);
    t.add_liquid(MaterialDefinitionId(3), 12);
    assert_eq!(t.liquid_depth(), 42);
    assert!(t.remove_liquid(12));
    assert_eq!(t.liquid, Some(water(30)));
    // A sum over 255 keeps the depth.
    t.add_liquid(MaterialDefinitionId(3), 250);
    assert_eq!(t.liquid_depth(), 30);
    assert!(t.remove_liquid(30));
    assert_eq!(t.liquid, None);
    assert!(!t.remove_liquid(1));
}

#[test]
fn liquid_spreads_over_dry_floor() {
    let mut map = TileMap::with_default(Vec3i::new(3, 1, 3), floor(1));
    let c = Vec3i::new(1, 0, 1);
    let mut t = floor(1);
    t.liquid = Some(water(30));
    map.set(c, t);
    let ns = map.neighbors(&c);
    let flow = liquid_flow(&map, c, &ns);
    assert_eq!(flow.liquid, None);
    assert_eq!(flow.removals, 2);
    assert!(flow.dirty);
    assert_eq!(
        flow.additions,
        vec![
            LiquidAddition { coord: Vec3i::new(0, 0, 1), depth: 20, liquid: water(30) },
            LiquidAddition { coord: Vec3i::new(2, 0, 1), depth: 20, liquid: water(30) },
        ]
    );
}

#[test]
fn liquid_falls_into_an_empty_neighbor() {
    let mut map = TileMap::with_default(Vec3i::new(3, 1, 3), floor(1));
    let c = Vec3i::new(1, 0, 1);
    let mut t = floor(1);
    t.liquid = Some(water(45));
    map.set(c, t);
    map.set(Vec3i::new(0, 0, 1), Tile::default());
    let ns = map.neighbors(&c);
    let flow = liquid_flow(&map, c, &ns);
    assert_eq!(flow.liquid, Some(water(25)));
    assert_eq!(flow.additions, vec![LiquidAddition { coord: Vec3i::new(0, 0, 1), depth: 20, liquid: water(45) }]);
    assert_eq!(flow.removals, 1);
}

#[test]
fn shallow_liquid_stays() {
    let mut map = TileMap::with_default(Vec3i::new(3, 1, 3), floor(1));
    let c = Vec3i::new(1, 0, 1);
    let mut t = floor(1);
    t.liquid = Some(water(15));
    map.set(c, t);
    let ns = map.neighbors(&c);
    let flow = liquid_flow(&map, c, &ns);
    assert_eq!(flow.liquid, Some(water(15)));
    assert!(flow.additions.is_empty());
    assert!(!flow.dirty);
    assert!(MAX_LIQUID_DEPTH > 15);
}

#[test]
fn dynamics_move_liquid_and_track_it() {
    let mut map = TileMap::with_default(Vec3i::new(3, 1, 3), floor(1));
    let c = Vec3i::new(1, 0, 1);
    let mut t = floor(1);
    t.liquid = Some(water(30));
    map.set(c, t);
    map.clear_dirty();
    map.add_liquid(c);
    let i = 1 * 3 + 1;
    liquid_dynamics(&mut map, &vec![i]);
    assert_eq!(map.get(c).liquid, None);
    assert_eq!(map.get(Vec3i::new(0, 0, 1)).liquid, Some(water(20)));
    assert_eq!(map.get(Vec3i::new(2, 0, 1)).liquid, Some(water(20)));
    assert!(!map.has_liquid.contains(&i));
    assert!(map.has_liquid.contains(&(1 * 3)));
    assert!(map.has_liquid.contains(&(1 * 3 + 2)));
    assert_eq!(map.version().version as usize, map.version().dirty.len() + 1);
}

#[test]
fn sizes_added_then_taken_away() {
    let a = DimensionsVec::new(1500, 20, 7);
    let b = DimensionsVec::new(500, 1, 3);
    assert_eq!(a.add(b), DimensionsVec::new(2000, 21, 10));
    assert_eq!(a.add(b).sub(b), a);
    assert_eq!(DimensionsVec::new(2999, 1000, 0).into_tiles(), Vec3i::new(2, 1, 0));
    assert_eq!(DimensionsVec::from_tiles(Vec3i::new(2, 1, 0)).into_tiles(), Vec3i::new(2, 1, 0));
}

#[test]
fn get_mut_records_the_tile_before_the_change() {
    let mut map = TileMap::with_default(Vec3i::new(3, 3, 3), floor(1));
    let c = Vec3i::new(1, 1, 1);
    map.get_mut(c).material = 7;
    assert_eq!(map.get(c).material, 7);
    assert_eq!(map.version().version, 1);
    assert_eq!(map.version().dirty[0].1.material, 1);
    map.get_mut_untracked(c).material = 8;
    assert_eq!(map.get(c).material, 8);
    assert_eq!(map.version().version, 1);
}

#[test]
fn map_writer_marks_around_and_follows_heights() {
    let mut map = TileMap::with_default(Vec3i::new(3, 3, 4), floor(1));
    map.set_untracked(Vec3i::new(1, 1, 0), Tile::default());
    map.recompute_height_map();
    assert_eq!(map.height_at(Vec2i::new(1, 1)), 1);

    let w = MapWriter::new().make_empty(&mut map, Vec3i::new(1, 1, 1));
    assert!(map.get(Vec3i::new(1, 1, 1)).is_empty());
    assert_eq!(map.version().version, 1);
    w.finish(&mut map);
    assert_eq!(map.version().version, 1 + 24);
    assert_eq!(map.version().dirty.len(), 25);
    assert_eq!(map.height_at(Vec2i::new(1, 1)), 2);

    let w = MapWriter::with_capacity(2)
        .make_ramp(&mut map, Vec3i::new(0, 0, 1), TileKind::RampUpNorth)
        .make_floor(&mut map, Vec3i::new(1, 2, 2));
    assert_eq!(map.get(Vec3i::new(0, 0, 1)).kind, TileKind::RampUpNorth);
    assert!(map.get(Vec3i::new(0, 0, 1)).flags.contains(TileFlag::has_z_transition()));
    assert_eq!(map.get(Vec3i::new(1, 2, 2)).kind, TileKind::Floor);
    w.finish(&mut map);
    // A corner has three neighbors on each of three levels, a tile on an
    // edge five.
    assert_eq!(map.version().version, 1 + 24 + 2 + 9 + 15);
    assert_eq!(map.height_at(Vec2i::new(0, 0)), 0);
}

fn wet(material: usize, depth: u8) -> Tile {
    let mut t = floor(1);
    t.liquid = Some(TileLiquid { material: MaterialDefinitionId(material), depth });
    t
}

#[test]
fn liquid_indices_list_wet_tiles_of_one_material_between_levels() {
    let mut map = TileMap::with_default(Vec3i::new(3, 1, 3), floor(1));
    assert_eq!(liquid_indices(&map), Some(vec![]));
    map.set(Vec3i::new(2, 0, 1), wet(3, 30));
    map.set(Vec3i::new(0, 0, 1), wet(3, 30));
    assert_eq!(liquid_indices(&map), Some(vec![3, 5]));
    map.set(Vec3i::new(1, 0, 1), wet(4, 5));
    assert_eq!(liquid_indices(&map), None);
    let mut map = TileMap::with_default(Vec3i::new(3, 1, 3), floor(1));
    map.set(Vec3i::new(0, 0, 0), wet(3, 30));
    assert_eq!(liquid_indices(&map), None);
}
