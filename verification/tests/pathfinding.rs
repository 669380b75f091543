use rl_core::math::Vec3i;
use rl_core::pathfinding::{neighbors, NavigationPath};
use rl_core::map::TileMap;
use rl_core::tile::{Tile, TileFlag, TileKind};

#[test]
fn path_cost() {
    let src = (20.0f32, 20.0f32, 1.0f32);
    let dst = (20.0f32, 10.0f32, 0.0f32);

    let d = (src.0 - dst.0, src.1 - dst.1, src.2 - dst.2);
    let cost = (d.0 * d.0 + d.1 * d.1 + d.2 * d.2).sqrt() as u32;
    println!("cost = {}", cost);
    assert_eq!(cost, 10);
}

#[test]
fn navigation_path_starts_empty() {
    let p = NavigationPath::new();
    assert_eq!(p.destination, 0);
    assert!(!p.success);
    assert!(p.steps.is_empty());
}

fn floor() -> Tile {
    let mut t = Tile::default();
    t.make_floor();
    t
}

#[test]
fn neighbors_on_flat_floor_cost_one_hundred_each() {
    let map = TileMap::with_default(Vec3i::new(3, 3, 2), floor());
    let steps = neighbors(&map, &Vec3i::new(1, 1, 0));
    assert_eq!(steps.len(), 8);
    for i in 0..steps.len() {
        let (c, cost) = steps.get(i);
        assert_eq!(cost, 100);
        assert_eq!(c.z, 0);
    }
    let corner = neighbors(&map, &Vec3i::new(0, 0, 0));
    assert_eq!(corner.len(), 3);
    assert_eq!(corner.get(0).0, Vec3i::new(1, 1, 0));
    assert_eq!(corner.get(1).0, Vec3i::new(1, 0, 0));
    assert_eq!(corner.get(2).0, Vec3i::new(0, 1, 0));
}

#[test]
fn neighbors_step_down_through_transition() {
    let mut map = TileMap::with_default(Vec3i::new(3, 3, 2), floor());
    // The tile east of the walker is empty; the one below it connects levels.
    map.set(Vec3i::new(2, 1, 0), Tile::default());
    let mut below = floor();
    below.flags.insert(TileFlag::has_z_transition());
    map.set(Vec3i::new(2, 1, 1), below);
    let steps = neighbors(&map, &Vec3i::new(1, 1, 0));
    let mut found = false;
    for i in 0..steps.len() {
        let (c, _) = steps.get(i);
        assert_ne!(c, Vec3i::new(2, 1, 0));
        if c == Vec3i::new(2, 1, 1) {
            found = true;
        }
    }
    assert!(found);
    assert_eq!(map.get(Vec3i::new(2, 1, 0)).kind, TileKind::Empty);
}
