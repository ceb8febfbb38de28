use genuary::particles::{
    band_pixel_count, banded_pixels, noise_texture_extent, palette_texture,
    particles_image_extent, Extent, PARTICLES_HEIGHT, PARTICLES_NOISE_SEED, PARTICLES_WIDTH,
};

#[test]
fn band_count_of_the_particle_image() {
    assert_eq!(band_pixel_count(PARTICLES_WIDTH, PARTICLES_HEIGHT, 14), 154 * 3840);
}

#[test]
fn band_count_rounds_rows_down() {
    assert_eq!(band_pixel_count(10, 7, 3), 20);
    assert_eq!(band_pixel_count(10, 2, 3), 0);
}

#[test]
fn bands_repeat_each_colour() {
    let palette = vec![[1, 2, 3, 4], [5, 6, 7, 8]];
    assert_eq!(
        banded_pixels(&palette, 2),
        vec![1, 2, 3, 4, 1, 2, 3, 4, 5, 6, 7, 8, 5, 6, 7, 8]
    );
}

#[test]
fn empty_bands() {
    let palette = vec![[1, 2, 3, 4]];
    assert!(banded_pixels(&palette, 0).is_empty());
    assert!(banded_pixels(&Vec::new(), 3).is_empty());
}

#[test]
fn palette_texture_stacks_whole_rows() {
    // 3 pixels wide, 5 rows, 2 colours: each colour gets 2 rows, the last row is left out.
    let palette = vec![[10, 11, 12, 13], [20, 21, 22, 23]];
    let bytes = palette_texture(&palette, 3, 5);
    assert_eq!(bytes.len(), 2 * 2 * 3 * 4);
    for row in 0..4usize {
        for col in 0..3usize {
            let i = (row * 3 + col) * 4;
            assert_eq!(&bytes[i..i + 4], &palette[row / 2][..]);
        }
    }
}

#[test]
fn full_size_palette_texture_fits_the_image() {
    let palette: Vec<[u8; 4]> = (0..14u8).map(|c| [c, c, c, 255]).collect();
    let bytes = palette_texture(&palette, PARTICLES_WIDTH, PARTICLES_HEIGHT);
    let image_bytes = (PARTICLES_WIDTH * PARTICLES_HEIGHT * 4) as usize;
    assert_eq!(bytes.len(), 14 * 154 * 3840 * 4);
    assert!(bytes.len() <= image_bytes);
    assert!(image_bytes - bytes.len() < 14 * 3840 * 4);
    assert_eq!(bytes[bytes.len() - 4..], [13, 13, 13, 255]);
}

#[test]
fn noise_texture_has_the_noise_map_size() {
    assert_eq!(
        noise_texture_extent(PARTICLES_NOISE_SEED, 16, 9),
        Extent { width: 16, height: 9, depth_or_array_layers: 1 }
    );
}

#[test]
fn empty_noise_map_gives_empty_texture() {
    assert_eq!(
        noise_texture_extent(PARTICLES_NOISE_SEED, 0, 9),
        Extent { width: 0, height: 0, depth_or_array_layers: 1 }
    );
    assert_eq!(
        noise_texture_extent(7, 12, 0),
        Extent { width: 0, height: 0, depth_or_array_layers: 1 }
    );
}

#[test]
fn particle_image_size() {
    assert_eq!(
        particles_image_extent(),
        Extent { width: 3840, height: 2160, depth_or_array_layers: 1 }
    );
}
