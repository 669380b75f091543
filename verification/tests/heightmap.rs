use rl_core::heightmap::{raise_to, smooth, GrayImage};
use rl_core::map::TileMap;
use rl_core::math::Vec3i;
use rl_core::region::region_from_heights;
use rl_core::tile::{Tile, TileFlag, TileKind};

#[test]
fn smoothing_takes_the_mean_of_the_eight_neighbors() {
    let mut img = GrayImage { width: 3, height: 3, pixels: vec![100, 100, 100, 100, 0, 100, 100, 100, 100] };
    smooth(&mut img);
    assert_eq!(img.pixels[4], 100);
    assert_eq!(img.pixels[0], 100);
}

#[test]
fn smoothing_reads_pixels_already_smoothed() {
    let mut img = GrayImage { width: 4, height: 3, pixels: vec![0, 0, 0, 0, 0, 0, 80, 0, 0, 0, 0, 0] };
    smooth(&mut img);
    assert_eq!(img.pixels, vec![0, 0, 0, 0, 0, 10, 1, 0, 0, 0, 0, 0]);
}

#[test]
fn images_without_inner_pixels_stay() {
    let mut img = GrayImage { width: 2, height: 5, pixels: vec![9; 10] };
    smooth(&mut img);
    assert_eq!(img.pixels, vec![9; 10]);
}

#[test]
fn low_pixels_are_raised() {
    let mut img = GrayImage { width: 2, height: 2, pixels: vec![0, 99, 100, 250] };
    raise_to(&mut img, 100);
    assert_eq!(img.pixels, vec![100, 100, 100, 250]);
}

fn solid() -> Tile {
    Tile { material: 0, flags: TileFlag::empty(), kind: TileKind::Solid, liquid: None, building: None }
}

#[test]
fn region_fills_columns_and_places_ramps() {
    let mut map = TileMap::with_default(Vec3i::new(4, 4, 3), solid());
    let mut heights = vec![1u8; 16];
    heights[1 * 4 + 1] = 0;
    region_from_heights(&heights, &mut map);
    let kind = |x: i32, y: i32, z: i32| map.get(Vec3i::new(x, y, z)).kind;
    assert_eq!(kind(1, 1, 0), TileKind::Floor);
    assert_eq!(kind(1, 1, 1), TileKind::Solid);
    assert_eq!(kind(0, 0, 1), TileKind::Floor);
    assert_eq!(kind(3, 3, 2), TileKind::Solid);
    assert_eq!(kind(2, 2, 1), TileKind::RampUpNorth);
    assert_eq!(kind(1, 2, 1), TileKind::RampUpNorth);
    assert_eq!(kind(2, 1, 1), TileKind::RampUpNorth);
    assert_eq!(kind(3, 1, 1), TileKind::Floor);
    assert_eq!(kind(0, 0, 0), TileKind::Solid);
}
