use libkayn::color::{gray_to_color_scale, split_color_channel};
use libkayn::filters::{median, noise_reduction_max, noise_reduction_midpoint, noise_reduction_min};
use libkayn::morphology::{dilation, erosion};
use libkayn::operations::{binarize, equalize, grayscale, limiarize, negative, normalize};
use libkayn::pixel::{Image, Rgb};
use libkayn::resize::resize_nearest_neighbor;
use libkayn::thinning::{binarize_vector, count_neighbors, transitions, zhang_suen_step_1, zhang_suen_step_2, zhang_suen_thinning};

fn column(values: &[[u8; 4]]) -> Vec<[u8; 4]> {
    values.to_vec()
}

#[test]
fn grayscale_and_negative_keep_alpha() {
    let image: Image = vec![column(&[[10, 20, 30, 7], [255, 0, 0, 9]])];
    assert_eq!(grayscale(image.clone()), vec![vec![[20, 20, 20, 7], [85, 85, 85, 9]]]);
    assert_eq!(negative(image), vec![vec![[245, 235, 225, 7], [0, 255, 255, 9]]]);
}

#[test]
fn thresholds() {
    let image: Image = vec![column(&[[10, 100, 200, 1]]), column(&[[99, 100, 101, 2]])];
    assert_eq!(limiarize(image.clone(), 100), vec![vec![[0, 100, 200, 1]], vec![[0, 100, 101, 2]]]);
    assert_eq!(binarize(image, 100), vec![vec![[0, 255, 255, 1]], vec![[0, 255, 255, 2]]]);
}

#[test]
fn normalize_maps_extremes_to_0_and_255() {
    let image: Image = vec![
        column(&[[10, 50, 0, 255], [20, 50, 128, 255]]),
        column(&[[30, 50, 64, 0], [15, 50, 255, 3]]),
    ];
    let out = normalize(image);
    // red: min 10, max 30; 20 -> round(127.5) = 128, 15 -> round(63.75) = 64
    assert_eq!(out[0][0][0], 0);
    assert_eq!(out[1][0][0], 255);
    assert_eq!(out[0][1][0], 128);
    assert_eq!(out[1][1][0], 64);
    // blue spans 0..255 already
    assert_eq!(out[0][1][2], 128);
    assert_eq!(out[1][1][2], 255);
    assert_eq!(out[1][1][3], 3);
}

#[test]
fn normalize_flat_channel_falls_back_to_zero() {
    let image: Image = vec![column(&[[50, 7, 9, 255], [50, 8, 9, 255]])];
    let out = normalize(image);
    assert_eq!(out[0][0][0], 0);
    assert_eq!(out[0][1][0], 0);
    assert_eq!(out[0][0][2], 0);
    assert_eq!(out[0][0][1], 0);
    assert_eq!(out[0][1][1], 255);
}

#[test]
fn equalize_uses_cumulative_histogram() {
    // channel values: 0,0,0, 255,255,255 -> cdf(0) = 3, cdf(255) = 6
    let image: Image = vec![column(&[[0, 0, 0, 1], [255, 255, 255, 2]])];
    assert_eq!(equalize(image), vec![vec![[127, 127, 127, 1], [255, 255, 255, 2]]]);
}

#[test]
fn color_ramp_and_channel_split() {
    let image: Vec<Rgb> = vec![[0, 0, 0], [100, 100, 100], [150, 150, 150], [255, 255, 255]];
    assert_eq!(
        gray_to_color_scale(image.clone()),
        vec![0xFF00_0000, 0xFF00_90FF, 0xFF00_FFA7, 0xFFFC_FF00]
    );
    let px: Vec<Rgb> = vec![[1, 2, 3]];
    assert_eq!(split_color_channel(px.clone(), 0), vec![0xFF01_0000]);
    assert_eq!(split_color_channel(px.clone(), 1), vec![0xFF00_0200]);
    assert_eq!(split_color_channel(px.clone(), 2), vec![0xFF00_0003]);
    assert_eq!(split_color_channel(px, 3), vec![0xFF00_0000]);
}

fn grid3() -> Vec<Rgb> {
    vec![
        [9, 0, 0], [1, 0, 0], [5, 0, 0],
        [3, 0, 0], [7, 0, 0], [2, 0, 0],
        [8, 0, 0], [4, 0, 0], [6, 0, 0],
    ]
}

#[test]
fn window_filters_on_a_3x3_image() {
    assert_eq!(median(grid3(), 1, 3, 3), vec![0xFF05_0000]);
    assert_eq!(noise_reduction_max(grid3(), 1, 3, 3), vec![0xFF09_0000]);
    assert_eq!(noise_reduction_min(grid3(), 1, 3, 3), vec![0xFF01_0000]);
    assert_eq!(noise_reduction_midpoint(grid3(), 1, 3, 3), vec![0xFF04_0000]);
}

#[test]
fn window_filters_emit_column_by_column() {
    // 4 x 3 image, distance 1: centres (1, 1) then (2, 1)
    let image: Vec<Rgb> = (0..12u8).map(|i| [i, 0, 0]).collect();
    assert_eq!(noise_reduction_max(image.clone(), 1, 4, 3), vec![0xFF0A_0000, 0xFF0B_0000]);
    assert_eq!(median(image.clone(), 0, 2, 1), vec![0xFF00_0000, 0xFF01_0000]);
    assert_eq!(median(image, 2, 4, 3), Vec::<u32>::new());
}

#[test]
fn median_orders_by_blue_first() {
    let mut image: Vec<Rgb> = vec![[200, 0, 0]; 9];
    image[0] = [0, 0, 1];
    image[1] = [0, 0, 2];
    image[2] = [0, 0, 3];
    image[3] = [0, 0, 4];
    image[4] = [0, 0, 5];
    // blue ranks first: the four [200, 0, 0] pixels sort lowest, so rank 4 is [0, 0, 1]
    assert_eq!(median(image, 1, 3, 3), vec![0xFF00_0001]);
}

#[test]
fn erosion_and_dilation_with_a_cross() {
    let on = [90u8, 90, 90];
    let off = [0u8, 0, 0];
    let mut image: Vec<Rgb> = vec![off; 25];
    for t in [7, 11, 12, 13, 17] {
        image[t] = on;
    }
    let eroded = erosion(image.clone(), 5, 5);
    assert_eq!(eroded.iter().filter(|&&c| c == 0xFFFF_FFFF).count(), 1);
    assert_eq!(eroded[12], 0xFFFF_FFFF);
    let dilated = dilation(image, 5, 5);
    for t in [2, 6, 7, 8, 10, 11, 12, 13, 14, 16, 17, 18, 22] {
        assert_eq!(dilated[t], 0xFFFF_FFFF, "pixel {}", t);
    }
    assert_eq!(dilated[0], 0);
    assert_eq!(dilated[24], 0);
}

#[test]
fn neighbour_counts() {
    let p = vec![true, true, false, true, true, false, false, false, true];
    assert_eq!(count_neighbors(&p), 4);
    assert_eq!(transitions(&p), 2);
    let ring = vec![true, false, true, false, true, false, true, false, true];
    assert_eq!(transitions(&ring), 4);
}

#[test]
fn binarize_vector_clears_the_border() {
    let image: Vec<Rgb> = vec![[1, 0, 0]; 9];
    let b = binarize_vector(image, 3, 3);
    assert_eq!(b, vec![false, false, false, false, true, false, false, false, false]);
}

#[test]
fn thinning_reduces_a_bar_to_a_line() {
    let (w, h) = (7u32, 5u32);
    let mut image: Vec<Rgb> = vec![[0, 0, 0]; 35];
    for y in 1..4 {
        for x in 1..6 {
            image[y * 7 + x] = [255, 255, 255];
        }
    }
    let b = binarize_vector(image.clone(), w, h);
    let first = zhang_suen_step_1(&b, w, h);
    assert!(first.iter().zip(b.iter()).all(|(&m, &p)| !m || p));
    assert!(first.iter().any(|&m| m));
    let second = zhang_suen_step_2(&b, w, h);
    assert!(second.iter().zip(b.iter()).all(|(&m, &p)| !m || p));
    let out = zhang_suen_thinning(image, w, h);
    assert_eq!(out.len(), 35);
    let white = out.iter().filter(|&&c| c == 0xFFFF_FFFF).count();
    assert!(white > 0 && white < 15);
    assert!(out.iter().all(|&c| c == 0xFFFF_FFFF || c == 0xFF00_0000));
    for t in [0, 6, 28, 34] {
        assert_eq!(out[t], 0xFF00_0000);
    }
}

#[test]
fn thinning_keeps_a_single_pixel() {
    let mut image: Vec<Rgb> = vec![[0, 0, 0]; 9];
    image[4] = [9, 9, 9];
    let out = zhang_suen_thinning(image, 3, 3);
    let mut expected = vec![0xFF00_0000u32; 9];
    expected[4] = 0xFFFF_FFFF;
    assert_eq!(out, expected);
}

#[test]
fn resize_picks_nearest_source_pixels() {
    let image: Vec<Rgb> = vec![[1, 0, 0], [2, 0, 0], [3, 0, 0], [4, 0, 0]];
    let up = resize_nearest_neighbor(image.clone(), 2, 2, 4, 2);
    assert_eq!(up, vec![0xFF01_0000, 0xFF01_0000, 0xFF02_0000, 0xFF02_0000, 0xFF03_0000, 0xFF03_0000, 0xFF04_0000, 0xFF04_0000]);
    let down = resize_nearest_neighbor(image, 2, 2, 1, 1);
    assert_eq!(down, vec![0xFF01_0000]);
}
