use fractal_renderer::bands::{partition_bands, Band};

#[test]
fn last_band_takes_the_remainder() {
    let bands = partition_bands(10, 3);
    assert_eq!(
        bands,
        vec![
            Band { top: 0, bottom: 3 },
            Band { top: 3, bottom: 6 },
            Band { top: 6, bottom: 10 },
        ]
    );
}

#[test]
fn one_row_per_band() {
    let bands = partition_bands(4, 4);
    assert_eq!(bands.len(), 4);
    for (i, band) in bands.iter().enumerate() {
        assert_eq!(*band, Band { top: i, bottom: i + 1 });
    }
}

#[test]
fn single_band_covers_the_image() {
    assert_eq!(partition_bands(50, 1), vec![Band { top: 0, bottom: 50 }]);
}

#[test]
fn bands_cover_every_row_once() {
    for height in 1..40usize {
        for count in 1..=height {
            let bands = partition_bands(height, count);
            assert_eq!(bands.len(), count);
            let mut next = 0;
            for band in &bands {
                assert_eq!(band.top, next);
                assert!(band.top < band.bottom);
                next = band.bottom;
            }
            assert_eq!(next, height);
        }
    }
}
