use black_cube_gallery::world_in_light::celestial_bounds::{merge_overlapping_rects, ScissorRect};
use black_cube_gallery::world_in_light::exhibition_camera::CelestialTarget;
use black_cube_gallery::world_in_light::star_catalogue::SplitMix64;

fn rect(x: i32, y: i32, width: i32, height: i32) -> ScissorRect {
    ScissorRect {
        x,
        y,
        width,
        height,
    }
}

#[test]
fn inspection_target_order_is_stable_for_the_browser_control() {
    assert_eq!(CelestialTarget::Earth.next(), CelestialTarget::EarthSurface);
    assert_eq!(CelestialTarget::EarthSurface.next(), CelestialTarget::Moon);
    assert_eq!(CelestialTarget::Moon.next(), CelestialTarget::Sun);
    assert_eq!(CelestialTarget::Sun.next(), CelestialTarget::Earth);
}

#[test]
fn four_steps_of_the_target_cycle_return_to_the_start() {
    for target in [
        CelestialTarget::Earth,
        CelestialTarget::EarthSurface,
        CelestialTarget::Moon,
        CelestialTarget::Sun,
    ] {
        assert_eq!(target.next().next().next().next(), target);
        assert_ne!(target.next(), target);
    }
}

#[test]
fn target_labels_name_each_body() {
    assert_eq!(CelestialTarget::Earth.label(), "Earth");
    assert_eq!(CelestialTarget::EarthSurface.label(), "Earth surface");
    assert_eq!(CelestialTarget::Moon.label(), "Moon");
    assert_eq!(CelestialTarget::Sun.label(), "Sun");
}

#[test]
fn overlapping_rectangles_are_merged_transitively() {
    let merged = merge_overlapping_rects(&[
        ScissorRect {
            x: 0,
            y: 0,
            width: 10,
            height: 10,
        },
        ScissorRect {
            x: 9,
            y: 9,
            width: 10,
            height: 10,
        },
        ScissorRect {
            x: 18,
            y: 18,
            width: 4,
            height: 4,
        },
    ]);
    assert_eq!(
        merged,
        vec![ScissorRect {
            x: 0,
            y: 0,
            width: 22,
            height: 22,
        }]
    );
}

#[test]
fn disjoint_rectangles_are_kept_in_input_order() {
    let merged = merge_overlapping_rects(&[rect(0, 0, 5, 5), rect(100, 100, 5, 5)]);
    assert_eq!(merged, vec![rect(0, 0, 5, 5), rect(100, 100, 5, 5)]);
}

#[test]
fn touching_edges_count_as_overlap() {
    let merged = merge_overlapping_rects(&[rect(0, 0, 10, 10), rect(10, 0, 10, 10)]);
    assert_eq!(merged, vec![rect(0, 0, 20, 10)]);
}

#[test]
fn a_late_rectangle_bridges_two_earlier_ones() {
    let merged = merge_overlapping_rects(&[
        rect(0, 0, 10, 10),
        rect(50, 0, 10, 10),
        rect(5, 0, 50, 4),
    ]);
    assert_eq!(merged, vec![rect(0, 0, 60, 10)]);
}

#[test]
fn no_rectangles_merge_to_none() {
    assert_eq!(merge_overlapping_rects(&[]), Vec::<ScissorRect>::new());
}

#[test]
fn splitmix_reproduces_the_reference_sequence() {
    let mut random = SplitMix64::new(0);
    assert_eq!(random.next_u64(), 0xe220_a839_7b1d_cdaf);
    assert_eq!(random.next_u64(), 0x6e78_9e6a_a1b9_65f4);
    assert_eq!(random.next_u64(), 0x06c4_5d18_8009_454f);
}

#[test]
fn splitmix_state_wraps_without_overflow() {
    let mut random = SplitMix64::new(u64::MAX);
    let first = random.next_u64();
    let mut same = SplitMix64::new(u64::MAX);
    assert_eq!(same.next_u64(), first);
}

#[test]
fn unit_bits_are_the_top_of_each_output() {
    let mut random = SplitMix64::new(0);
    assert_eq!(random.next_unit_bits(), 0xe2_20a8);
    assert_eq!(random.next_unit_bits(), 0x6e_789e);
    assert!(random.next_unit_bits() < 1 << 24);
}

#[test]
fn far_apart_rectangles_at_the_coordinate_limits_are_kept_apart() {
    let low = rect(i32::MIN, 0, 10, 10);
    let high = rect(i32::MAX - 10, 0, 10, 10);
    assert_eq!(merge_overlapping_rects(&[low, high]), vec![low, high]);
}
