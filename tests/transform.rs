use libkayn::assembly::{assemble_frequency_grid, assemble_spatial_grid, concat_segments, to_spatial_layout};
use libkayn::grid::{area, check_coefficient_grid, check_intensity_grid, GridError};
use libkayn::mask::{freq_highpass, freq_lowpass};
use libkayn::partition::{block_bounds, partition, worker_partition};
use libkayn::pixel::{clamp_to_channel, gray2hex, rgb2gray, rgb2hex};

#[test]
fn packs_colours_opaque() {
    assert_eq!(rgb2hex(0x12, 0x34, 0x56), 0xFF12_3456);
    assert_eq!(gray2hex(0), 0xFF00_0000);
    assert_eq!(gray2hex(255), 0xFFFF_FFFF);
    assert_eq!(rgb2gray(10, 20, 33), 21);
}

#[test]
fn clamps_rounded_intensities() {
    assert_eq!(clamp_to_channel(-3), 0);
    assert_eq!(clamp_to_channel(0), 0);
    assert_eq!(clamp_to_channel(100), 100);
    assert_eq!(clamp_to_channel(255), 255);
    assert_eq!(clamp_to_channel(256), 255);
    assert_eq!(clamp_to_channel(i64::MAX), 255);
}

#[test]
fn rejects_bad_dimensions() {
    assert_eq!(area(3, 4), 12);
    assert_eq!(check_intensity_grid(12, 3, 4), Ok(()));
    assert_eq!(check_intensity_grid(12, 0, 4), Err(GridError::InvalidDimensions));
    assert_eq!(check_intensity_grid(0, 3, 0), Err(GridError::InvalidDimensions));
    assert_eq!(check_intensity_grid(11, 3, 4), Err(GridError::InvalidDimensions));
    assert_eq!(check_coefficient_grid(12, 3, 4), Ok(()));
    assert_eq!(check_coefficient_grid(12, 0, 4), Err(GridError::InvalidDimensions));
    assert_eq!(check_coefficient_grid(13, 3, 4), Err(GridError::IndexMismatch));
}

#[test]
fn partitions_are_contiguous_and_ordered() {
    assert_eq!(partition(10, 3), vec![(0, 3), (3, 6), (6, 10)]);
    assert_eq!(partition(7, 1), vec![(0, 7)]);
    assert_eq!(block_bounds(2, 10, 3), (6, 10));
}

#[test]
fn more_workers_than_columns_gives_empty_blocks() {
    assert_eq!(partition(2, 4), vec![(0, 0), (0, 1), (1, 1), (1, 2)]);
    assert_eq!(partition(0, 3), vec![(0, 0), (0, 0), (0, 0)]);
}

#[test]
fn worker_partition_covers_the_axis() {
    let blocks = worker_partition(37);
    assert!(!blocks.is_empty());
    assert_eq!(blocks[0].0, 0);
    assert_eq!(blocks[blocks.len() - 1].1, 37);
    for pair in blocks.windows(2) {
        assert_eq!(pair[0].1, pair[1].0);
    }
}

fn segments_for(n: usize, inner: usize, workers: usize, g: impl Fn(usize, usize) -> f32) -> Vec<Vec<f32>> {
    partition(n, workers)
        .into_iter()
        .map(|(start, end)| {
            let mut seg = Vec::new();
            for u in start..end {
                for v in 0..inner {
                    seg.push(g(u, v));
                }
            }
            seg
        })
        .collect()
}

#[test]
fn joins_segments_in_block_order() {
    let segs = vec![vec![1, 2], vec![], vec![3], vec![4, 5, 6]];
    assert_eq!(concat_segments(&segs), vec![1, 2, 3, 4, 5, 6]);
}

#[test]
fn reassembly_is_independent_of_worker_count() {
    let g = |u: usize, v: usize| ((u * 31 + v * 7) as f32).sin() * 100.0;
    let one = assemble_frequency_grid(&segments_for(5, 3, 1, g), 5, 3).unwrap();
    let eight = assemble_frequency_grid(&segments_for(5, 3, 8, g), 5, 3).unwrap();
    assert_eq!(one.len(), 15);
    assert_eq!(
        one.iter().map(|c| c.to_bits()).collect::<Vec<_>>(),
        eight.iter().map(|c| c.to_bits()).collect::<Vec<_>>()
    );
    assert_eq!(one[1 * 3 + 2], g(1, 2));
    let s1 = assemble_spatial_grid(&segments_for(5, 3, 1, g), 5, 3).unwrap();
    let s8 = assemble_spatial_grid(&segments_for(5, 3, 8, g), 5, 3).unwrap();
    assert_eq!(s1, s8);
    assert_eq!(s1[2 * 5 + 1], g(1, 2));
}

#[test]
fn short_segments_are_an_index_mismatch() {
    let segs = vec![vec![1u32, 2], vec![3]];
    assert_eq!(assemble_frequency_grid(&segs, 2, 2), Err(GridError::IndexMismatch));
    assert_eq!(assemble_spatial_grid(&segs, 2, 2), Err(GridError::IndexMismatch));
}

#[test]
fn spatial_layout_transposes_column_blocks() {
    // columns x = 0, 1, 2 of a 3 x 2 grid, each top to bottom
    let columns = vec![10, 11, 20, 21, 30, 31];
    assert_eq!(to_spatial_layout(&columns, 3, 2), vec![10, 20, 30, 11, 21, 31]);
}

fn sample_grid() -> Vec<f32> {
    (0..12).map(|i| i as f32 * 1.5 - 4.0).collect()
}

#[test]
fn lowpass_and_highpass_sum_to_input() {
    let c = sample_grid();
    for radius in 0..6 {
        let low = freq_lowpass(&c, 0.0, 3, 4, radius).unwrap();
        let high = freq_highpass(&c, 0.0, 3, 4, radius).unwrap();
        for i in 0..c.len() {
            assert_eq!(low[i] + high[i], c[i]);
            assert!(low[i] == 0.0 || high[i] == 0.0);
        }
    }
}

#[test]
fn lowpass_radius_zero_keeps_only_dc() {
    let c: Vec<f32> = (1..=12).map(|i| i as f32).collect();
    let low = freq_lowpass(&c, 0.0, 3, 4, 0).unwrap();
    assert_eq!(low[0], 1.0);
    assert!(low[1..].iter().all(|&x| x == 0.0));
}

#[test]
fn lowpass_uses_exact_distance() {
    // width 3, height 4: (u, v) at u * 4 + v; radius 2 keeps u^2 + v^2 <= 4
    let c: Vec<i32> = (1..=12).collect();
    let low = freq_lowpass(&c, 0, 3, 4, 2).unwrap();
    assert_eq!(low, vec![1, 2, 3, 0, 5, 6, 0, 0, 9, 0, 0, 0]);
}

#[test]
fn highpass_beyond_max_radius_is_all_zero() {
    let c = sample_grid();
    // farthest coefficient (2, 3): distance sqrt(13) < 4
    let high = freq_highpass(&c, 0.0, 3, 4, 4).unwrap();
    assert!(high.iter().all(|&x| x == 0.0));
    let high = freq_highpass(&c, 0.0, 3, 4, 3).unwrap();
    assert_eq!(high[2 * 4 + 3], c[2 * 4 + 3]);
}

#[test]
fn masks_reject_mismatched_grids() {
    let c = sample_grid();
    assert_eq!(freq_lowpass(&c, 0.0, 5, 3, 1), Err(GridError::IndexMismatch));
    assert_eq!(freq_highpass(&c, 0.0, 0, 3, 1), Err(GridError::InvalidDimensions));
}
