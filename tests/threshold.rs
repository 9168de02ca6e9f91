use libkayn::pixel::Rgb;
use libkayn::threshold::otsu_thresholding;

#[test]
fn otsu_splits_two_levels_at_the_lower_one() {
    let mut image: Vec<Rgb> = vec![[10, 10, 10]; 8];
    for p in image.iter_mut().skip(4) {
        *p = [200, 200, 200];
    }
    assert_eq!(otsu_thresholding(image, 4, 2), 10);
}

#[test]
fn otsu_of_a_flat_image_is_zero() {
    let image: Vec<Rgb> = vec![[50, 50, 50]; 6];
    assert_eq!(otsu_thresholding(image, 3, 2), 0);
}

#[test]
fn otsu_prefers_the_larger_gap() {
    // gray levels 0, 0, 0, 100, 110, 120: the best split is between 0 and 100
    let image: Vec<Rgb> = vec![[0, 0, 0], [0, 0, 0], [0, 0, 0], [100, 100, 100], [110, 110, 110], [120, 120, 120]];
    assert_eq!(otsu_thresholding(image, 6, 1), 0);
    // levels 20, 20, 30, 200, 210, 220: the split falls after 30
    let image: Vec<Rgb> = vec![[20, 20, 20], [20, 20, 20], [30, 30, 30], [200, 200, 200], [210, 210, 210], [220, 220, 220]];
    assert_eq!(otsu_thresholding(image, 3, 2), 30);
}
