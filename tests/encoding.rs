use fractal_renderer::encoding::encode_image;
use fractal_renderer::render::RenderError;
use fractal_renderer::types::Dimensions;

#[test]
fn encodes_a_greyscale_png() {
    let pixels = vec![0u8, 128, 255, 64, 1, 2];
    let bytes = encode_image(&pixels, Dimensions::new(3, 2)).unwrap();
    assert_eq!(&bytes[..8], &[137, 80, 78, 71, 13, 10, 26, 10]);
    assert_eq!(&bytes[12..16], b"IHDR");
    assert_eq!(&bytes[16..20], &[0, 0, 0, 3]);
    assert_eq!(&bytes[20..24], &[0, 0, 0, 2]);
    assert_eq!(bytes[24], 8);
    assert_eq!(bytes[25], 0);
    assert_eq!(&bytes[bytes.len() - 8..bytes.len() - 4], b"IEND");
    assert_ne!(bytes, pixels);
}

#[test]
fn encoding_is_deterministic() {
    let pixels: Vec<u8> = (0..50u8).collect();
    let a = encode_image(&pixels, Dimensions::new(10, 5)).unwrap();
    let b = encode_image(&pixels, Dimensions::new(10, 5)).unwrap();
    assert_eq!(a, b);
}

#[test]
fn encoding_rejects_empty_sides() {
    assert_eq!(encode_image(&vec![], Dimensions::new(0, 4)), Err(RenderError::InvalidDimensions));
    assert_eq!(encode_image(&vec![], Dimensions::new(4, 0)), Err(RenderError::InvalidDimensions));
}

#[test]
fn encoding_rejects_a_buffer_of_the_wrong_size() {
    assert_eq!(encode_image(&vec![0u8; 5], Dimensions::new(2, 2)), Err(RenderError::BufferSize));
}

#[test]
fn encoding_rejects_sides_beyond_32_bits() {
    let wide = Dimensions::new(u32::MAX as usize + 1, 1);
    assert_eq!(encode_image(&vec![0u8; 4], wide), Err(RenderError::TooLarge));
}
