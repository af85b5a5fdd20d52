use pngblur::blur::blur;
use pngblur::blur::blur_raw;
use pngblur::blur_from_bytes;
use pngblur::err::ImageError;
use pngblur::pixel::ChannelLayout;
use pngblur::pixel::PixelGrid;

fn chunk(ty: &[u8; 4], data: &[u8]) -> Vec<u8> {
    let mut v = Vec::new();
    v.extend_from_slice(&(data.len() as u32).to_be_bytes());
    v.extend_from_slice(ty);
    v.extend_from_slice(data);
    let mut crc_input = Vec::new();
    crc_input.extend_from_slice(ty);
    crc_input.extend_from_slice(data);
    v.extend_from_slice(&crc32fast::hash(&crc_input).to_be_bytes());
    v
}

fn make_rgba_png(w: u32, h: u32, pixels: &[u8]) -> Vec<u8> {
    let stride = (w as usize) * 4;
    assert_eq!(pixels.len(), stride * h as usize);
    let mut raw = Vec::new();
    for row in 0..h as usize {
        raw.push(0u8);
        raw.extend_from_slice(&pixels[row * stride..(row + 1) * stride]);
    }
    let z = miniz_oxide::deflate::compress_to_vec_zlib(&raw, 6);
    let mut png = vec![137, 80, 78, 71, 13, 10, 26, 10];
    let mut ihdr = Vec::new();
    ihdr.extend_from_slice(&w.to_be_bytes());
    ihdr.extend_from_slice(&h.to_be_bytes());
    ihdr.extend_from_slice(&[8, 6, 0, 0, 0]);
    png.extend_from_slice(&chunk(b"IHDR", &ihdr));
    png.extend_from_slice(&chunk(b"IDAT", &z));
    png.extend_from_slice(&chunk(b"IEND", &[]));
    png
}

#[test]
fn length_mismatch_is_invalid_parameter() {
    let pixels: Vec<u8> = vec![0; 15];
    assert_eq!(
        blur_raw(2, 2, &pixels, 1000).unwrap_err(),
        ImageError::InvalidParameter
    );
}

#[test]
fn zero_sigma_is_invalid_parameter() {
    let pixels: Vec<u8> = vec![0; 16];
    assert_eq!(
        blur_raw(2, 2, &pixels, 0).unwrap_err(),
        ImageError::InvalidParameter
    );
}

#[test]
fn zero_dimension_is_invalid_parameter() {
    let pixels: Vec<u8> = vec![];
    assert_eq!(
        blur_raw(0, 2, &pixels, 1000).unwrap_err(),
        ImageError::InvalidParameter
    );
    assert_eq!(
        blur_raw(2, 0, &pixels, 1000).unwrap_err(),
        ImageError::InvalidParameter
    );
}

#[test]
fn tiny_sigma_is_identity() {
    let pixels: Vec<u8> = (0u8..36).map(|v| v.wrapping_mul(37)).collect();
    for sigma_milli in [1u32, 50, 100, 204] {
        let out = blur_raw(3, 3, &pixels, sigma_milli).unwrap();
        assert_eq!(out, pixels, "sigma_milli {} must be identity", sigma_milli);
    }
}

#[test]
fn sigma_convergence_toward_identity() {
    // As sigma shrinks, the output approaches the input.
    let pixels: Vec<u8> = (0u8..64).map(|v| v.wrapping_mul(11)).collect();
    let far = blur_raw(4, 4, &pixels, 2500).unwrap();
    let near = blur_raw(4, 4, &pixels, 300).unwrap();
    let dist = |a: &[u8], b: &[u8]| -> u64 {
        a.iter()
            .zip(b.iter())
            .map(|(x, y)| (*x as i64 - *y as i64).unsigned_abs())
            .sum()
    };
    assert!(dist(&near, &pixels) <= dist(&far, &pixels));
}

#[test]
fn solid_color_is_unchanged_any_sigma() {
    // Energy preservation and border behavior in one: a solid color stays
    // exactly solid, so corners neither wrap nor darken.
    let mut pixels = Vec::new();
    for _ in 0..20 {
        pixels.extend_from_slice(&[120, 7, 250, 255]);
    }
    for sigma_milli in [1u32, 800, 1500, 5000, 20000] {
        let out = blur_raw(5, 4, &pixels, sigma_milli).unwrap();
        assert_eq!(out, pixels, "sigma_milli {}", sigma_milli);
    }
}

#[test]
fn energy_is_approximately_preserved() {
    // An 8x8 varied image: per-channel sums change only by rounding and
    // edge-clamping error.
    let mut pixels = Vec::new();
    for y in 0..8u32 {
        for x in 0..8u32 {
            pixels.push((x * 32) as u8);
            pixels.push((y * 32) as u8);
            pixels.push(((x + y) * 16) as u8);
            pixels.push(255);
        }
    }
    let out = blur_raw(8, 8, &pixels, 1500).unwrap();
    for c in 0..4usize {
        let before: i64 = pixels.iter().skip(c).step_by(4).map(|v| *v as i64).sum();
        let after: i64 = out.iter().skip(c).step_by(4).map(|v| *v as i64).sum();
        let tolerance = before / 10 + 64;
        assert!(
            (before - after).abs() <= tolerance,
            "channel {}: {} -> {}",
            c,
            before,
            after
        );
    }
}

#[test]
fn output_stays_in_byte_range_and_smooths() {
    // A single bright pixel in a dark field spreads to its neighbors.
    let mut pixels = vec![0u8; 5 * 5 * 4];
    let center = (2 * 5 + 2) * 4;
    pixels[center] = 255;
    let out = blur_raw(5, 5, &pixels, 1200).unwrap();
    assert!(out[center] < 255, "center must lose intensity");
    let neighbor = (2 * 5 + 1) * 4;
    assert!(out[neighbor] > 0, "neighbor must gain intensity");
}

#[test]
fn blur_is_deterministic() {
    let pixels: Vec<u8> = (0u8..80).collect();
    let a = blur_raw(4, 5, &pixels, 1700).unwrap();
    let b = blur_raw(4, 5, &pixels, 1700).unwrap();
    assert_eq!(a, b);
}

#[test]
fn blur_grid_keeps_geometry_and_layout() {
    let pixels: Vec<u8> = (0u8..24).collect();
    let grid = PixelGrid::new(4, 2, ChannelLayout::Rgb8, pixels).unwrap();
    let out = blur(&grid, 900).unwrap();
    assert_eq!(out.width, 4);
    assert_eq!(out.height, 2);
    assert_eq!(out.layout, ChannelLayout::Rgb8);
    assert_eq!(out.pixels.len(), 24);
    // The input grid is untouched.
    assert_eq!(grid.pixels, (0u8..24).collect::<Vec<u8>>());
}

#[test]
fn blur_grid_zero_sigma_is_invalid_parameter() {
    let grid = PixelGrid::new(1, 1, ChannelLayout::Rgba8, vec![1, 2, 3, 4]).unwrap();
    assert_eq!(blur(&grid, 0).unwrap_err(), ImageError::InvalidParameter);
}

#[test]
fn pixel_grid_rejects_wrong_length() {
    assert_eq!(
        PixelGrid::new(2, 2, ChannelLayout::Rgba8, vec![0; 15]).unwrap_err(),
        ImageError::InvalidParameter
    );
    assert!(PixelGrid::new(2, 2, ChannelLayout::Rgba8, vec![0; 16]).is_ok());
}

#[test]
fn blur_from_bytes_matches_decode_then_blur() {
    let mut pixels = Vec::new();
    for i in 0..16u32 {
        pixels.extend_from_slice(&[(i * 16) as u8, (255 - i * 16) as u8, 77, 255]);
    }
    let png = make_rgba_png(4, 4, &pixels);
    let piped = blur_from_bytes(&png).unwrap();
    let direct = blur_raw(4, 4, &pixels, 2000).unwrap();
    assert_eq!(piped, direct);
    // And twice in a row gives identical bytes.
    assert_eq!(blur_from_bytes(&png).unwrap(), piped);
}

#[test]
fn blur_from_bytes_propagates_decode_errors() {
    assert_eq!(
        blur_from_bytes(&[1, 2, 3]).unwrap_err(),
        ImageError::UnsupportedFormat
    );
    let png = make_rgba_png(2, 2, &[9; 16]);
    let truncated = &png[..png.len() - 5];
    assert_eq!(
        blur_from_bytes(truncated).unwrap_err(),
        ImageError::CorruptData
    );
}
