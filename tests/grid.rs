use relativity::grid::{clock_disk, resync_plan, sample_offsets, ResyncStep};
use relativity::raster::{pixel_index, stage_shade, HEIGHT, WIDTH};

#[test]
fn resync_plan_two_events() {
    assert_eq!(resync_plan(2), vec![ResyncStep::Boundary(0), ResyncStep::Boundary(0)]);
}

#[test]
fn resync_plan_interior_events() {
    assert_eq!(
        resync_plan(4),
        vec![
            ResyncStep::Boundary(0),
            ResyncStep::Transition(0, 1),
            ResyncStep::Transition(1, 2),
            ResyncStep::Boundary(2),
        ]
    );
}

#[test]
fn sample_grid_sizes() {
    assert_eq!(sample_offsets(20).len(), 1681);
    assert_eq!(sample_offsets(5).len(), 121);
    assert_eq!(sample_offsets(0), vec![(0, 0)]);
}

#[test]
fn sample_grid_order() {
    let g = sample_offsets(1);
    assert_eq!(
        g,
        vec![(-1, -1), (0, -1), (1, -1), (-1, 0), (0, 0), (1, 0), (-1, 1), (0, 1), (1, 1)]
    );
    let big = sample_offsets(20);
    assert_eq!(big[0], (-20, -20));
    assert_eq!(big[840], (0, 0));
    assert_eq!(big[1680], (20, 20));
}

#[test]
fn clock_disk_points() {
    assert_eq!(clock_disk(1), vec![(-1, 0), (0, -1), (0, 0), (0, 1), (1, 0)]);
    assert_eq!(clock_disk(0), vec![(0, 0)]);
    let d = clock_disk(10);
    assert!(d.iter().all(|&(x, y)| x * x + y * y <= 100));
    assert!(d.contains(&(6, 8)));
    assert!(!d.contains(&(7, 8)));
    assert_eq!(d.len(), 317);
}

#[test]
fn pixel_indices() {
    assert_eq!(pixel_index(0, 0), Some(0));
    assert_eq!(pixel_index(5, 2), Some(5 + 2 * WIDTH));
    assert_eq!(pixel_index(WIDTH - 1, HEIGHT - 1), Some(WIDTH * HEIGHT - 1));
    assert_eq!(pixel_index(WIDTH, 0), None);
    assert_eq!(pixel_index(0, HEIGHT), None);
}

#[test]
fn stage_shades() {
    assert_eq!(stage_shade(0xff0000, 0), 0xff0000);
    assert_eq!(stage_shade(0xff0000, 1), 0xff00a0);
    assert_eq!(stage_shade(0x0000ff, 3), 0x00019f);
    assert_eq!(stage_shade(0xffffff, 2), 0xffffff);
}
