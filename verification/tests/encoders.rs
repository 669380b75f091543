use rl_core::encoders::FlatEncoder;
use rl_core::math::Vec3i;

#[test]
fn test_flat_encoder() {
    let test_coords = [
        Vec3i::new(0, 0, 0),
        Vec3i::new(0, 0, 1),
        Vec3i::new(123, 123, 4),
        Vec3i::new(0, 1, 2),
        Vec3i::new(1, 2, 3),
        Vec3i::new(55, 10, 1),
    ];

    let encoder = FlatEncoder::from_dimensions(Vec3i::new(128, 128, 5));

    for coord in &test_coords {
        let index = encoder.encode(*coord);
        let decoded = encoder.decode(index);
        assert_eq!(decoded, *coord);
        println!("{:?} = {:?}", *coord, decoded);
    }
}

#[test]
fn flat_encoder_orders_x_then_y_then_z() {
    let encoder = FlatEncoder::from_dimensions(Vec3i::new(128, 128, 5));
    assert_eq!(encoder.encode(Vec3i::new(0, 0, 0)), 0);
    assert_eq!(encoder.encode(Vec3i::new(1, 0, 0)), 1);
    assert_eq!(encoder.encode(Vec3i::new(0, 1, 0)), 128);
    assert_eq!(encoder.encode(Vec3i::new(0, 0, 1)), 128 * 128);
    assert_eq!(encoder.encode(Vec3i::new(55, 10, 1)), 55 + 10 * 128 + 128 * 128);
}

#[test]
fn flat_encoder_allocation_size_is_volume() {
    assert_eq!(FlatEncoder::allocation_size(Vec3i::new(128, 128, 5)), 128 * 128 * 5);
    assert_eq!(FlatEncoder::allocation_size(Vec3i::new(1, 1, 1)), 1);
}
