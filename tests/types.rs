use fractal_renderer::types::{Dimensions, Pixel};

#[test]
fn test_dimensions() {
    let dims = Dimensions::new(100, 200);
    assert_eq!(dims.width, 100);
    assert_eq!(dims.height, 200);
    assert_eq!(dims.total_pixels(), 20000);
}

#[test]
fn dimensions_from_pair() {
    let dims = Dimensions::from((3, 4));
    assert_eq!(dims, Dimensions::new(3, 4));
    assert_eq!(dims.total_pixels(), 12);
}

#[test]
fn pixel_new_and_from_pair() {
    let p = Pixel::new(7, 9);
    assert_eq!(p.x, 7);
    assert_eq!(p.y, 9);
    assert_eq!(Pixel::from((7, 9)), p);
}
