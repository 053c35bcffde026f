use raytracer::layout::{
    choose_material, random_scene_layout, MaterialKind, DIFFUSE_LIMIT, GRID_SIDE, METAL_LIMIT,
};
use raytracer::path::{Ending, Event, PathState};
use raytracer::raster::Raster;
use raytracer::scene::closest_hit;

fn run_path(depth: u8, events: &[Event]) -> (Option<Ending>, usize) {
    let mut path = PathState::new(depth);
    let mut used: usize = 0;
    for e in events {
        if path.ending().is_some() {
            break;
        }
        path.record(*e);
        used += 1;
    }
    (path.ending(), used)
}

#[test]
fn zero_depth_path_is_black() {
    let path = PathState::new(0);
    assert_eq!(path.ending(), Some(Ending::Black));
    assert_eq!(run_path(0, &[Event::Missed]), (Some(Ending::Black), 0));
}

#[test]
fn first_miss_shows_sky() {
    assert_eq!(run_path(50, &[Event::Missed]), (Some(Ending::Sky), 1));
    assert_eq!(run_path(1, &[Event::Missed]), (Some(Ending::Sky), 1));
}

#[test]
fn absorbed_path_is_black() {
    assert_eq!(
        run_path(5, &[Event::Scattered, Event::Absorbed, Event::Missed]),
        (Some(Ending::Black), 2)
    );
}

#[test]
fn scatter_then_miss_shows_sky() {
    assert_eq!(
        run_path(3, &[Event::Scattered, Event::Scattered, Event::Missed]),
        (Some(Ending::Sky), 3)
    );
}

#[test]
fn depth_runs_out_after_scatters() {
    assert_eq!(
        run_path(2, &[Event::Scattered, Event::Scattered, Event::Missed]),
        (Some(Ending::Black), 2)
    );
    let mut path = PathState::new(3);
    assert_eq!(path.ending(), None);
    path.record(Event::Scattered);
    assert_eq!(path.ending(), None);
    path.record(Event::Scattered);
    assert_eq!(path.ending(), None);
    path.record(Event::Scattered);
    assert_eq!(path.ending(), Some(Ending::Black));
}

#[test]
fn material_thresholds() {
    assert_eq!(choose_material(0), MaterialKind::Diffuse);
    assert_eq!(choose_material(((DIFFUSE_LIMIT - 1) << 11) | 0x7ff), MaterialKind::Diffuse);
    assert_eq!(choose_material(DIFFUSE_LIMIT << 11), MaterialKind::Metal);
    assert_eq!(choose_material(((METAL_LIMIT - 1) << 11) | 0x7ff), MaterialKind::Metal);
    assert_eq!(choose_material(METAL_LIMIT << 11), MaterialKind::Glass);
    assert_eq!(choose_material(u64::MAX), MaterialKind::Glass);
}

#[test]
fn material_thresholds_match_uniform_fraction() {
    // a uniform f64 in [0, 1) is the top 53 bits of a u64 draw scaled by 2^-53
    let scale = 1.0 / ((1u64 << 53) as f64);
    let draws: [u64; 8] = [
        0,
        DIFFUSE_LIMIT << 11,
        (DIFFUSE_LIMIT - 1) << 11,
        METAL_LIMIT << 11,
        (METAL_LIMIT - 1) << 11,
        0x1234_5678_9abc_def0,
        0xe000_0000_0000_0000,
        u64::MAX,
    ];
    for d in draws {
        let f = (d >> 11) as f64 * scale;
        let expected = if f < 0.8 {
            MaterialKind::Diffuse
        } else if f < 0.95 {
            MaterialKind::Metal
        } else {
            MaterialKind::Glass
        };
        assert_eq!(choose_material(d), expected);
    }
}

#[test]
fn layout_covers_grid_in_order() {
    let layout = random_scene_layout();
    assert_eq!(layout.len(), GRID_SIDE * GRID_SIDE);
    assert_eq!(layout.len(), 484);
    assert_eq!((layout[0].a, layout[0].b), (-11, -11));
    assert_eq!((layout[1].a, layout[1].b), (-11, -10));
    assert_eq!((layout[22].a, layout[22].b), (-10, -11));
    assert_eq!((layout[483].a, layout[483].b), (10, 10));
}

#[test]
fn closest_hit_of_nothing() {
    assert_eq!(closest_hit(&vec![]), None);
    assert_eq!(closest_hit(&vec![None, None, None]), None);
}

#[test]
fn closest_hit_takes_least_key() {
    assert_eq!(closest_hit(&vec![None, Some(5), Some(3), None, Some(4)]), Some(2));
    assert_eq!(closest_hit(&vec![Some(7)]), Some(0));
}

#[test]
fn closest_hit_prefers_first_of_equal() {
    assert_eq!(closest_hit(&vec![Some(9), Some(3), Some(3)]), Some(1));
}

#[test]
fn closest_hit_on_float_parameters() {
    let keys = vec![
        Some(2.5f64.to_bits()),
        None,
        Some(0.5f64.to_bits()),
        Some(1000.0f64.to_bits()),
        Some(f64::INFINITY.to_bits()),
    ];
    assert_eq!(closest_hit(&keys), Some(2));
}

#[test]
fn raster_numbering() {
    let r = Raster { width: 4, height: 3 };
    assert_eq!(r.pixel_count(), 12);
    assert_eq!(r.pixel(0), (0, 0));
    assert_eq!(r.pixel(5), (1, 1));
    assert_eq!(r.pixel(11), (3, 2));
    assert_eq!(r.index(3, 2), 11);
    assert_eq!(r.index(1, 1), 5);
    for k in 0..r.pixel_count() {
        let (x, y) = r.pixel(k);
        assert_eq!(r.index(x, y), k);
    }
}

#[test]
fn raster_largest_size() {
    let r = Raster { width: u32::MAX, height: u32::MAX };
    assert_eq!(r.pixel_count(), u32::MAX as u64 * u32::MAX as u64);
    let last = r.pixel_count() - 1;
    assert_eq!(r.pixel(last), (u32::MAX - 1, u32::MAX - 1));
    assert_eq!(r.index(u32::MAX - 1, u32::MAX - 1), last);
}
