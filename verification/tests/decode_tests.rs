use pngblur::decode::decode;
use pngblur::err::ImageError;
use pngblur::pixel::ChannelLayout;

fn chunk(ty: &[u8; 4], data: &[u8]) -> Vec<u8> {
    let mut v = Vec::new();
    v.extend_from_slice(&(data.len() as u32).to_be_bytes());
    v.extend_from_slice(ty);
    v.extend_from_slice(data);
    let mut crc_input = Vec::new();
    crc_input.extend_from_slice(ty);
    crc_input.extend_from_slice(data);
    v.extend_from_slice(&crc32fast::hash(&crc_input).to_be_bytes());
    v
}

fn ihdr_data(w: u32, h: u32, depth: u8, color_type: u8, interlace: u8) -> Vec<u8> {
    let mut d = Vec::new();
    d.extend_from_slice(&w.to_be_bytes());
    d.extend_from_slice(&h.to_be_bytes());
    d.push(depth);
    d.push(color_type);
    d.push(0);
    d.push(0);
    d.push(interlace);
    d
}

const SIG: [u8; 8] = [137, 80, 78, 71, 13, 10, 26, 10];

/// Builds a valid non-interlaced 8-bit PNG with all-zero filter bytes.
fn make_png(w: u32, h: u32, color_type: u8, bpp: usize, pixels: &[u8]) -> Vec<u8> {
    let stride = (w as usize) * bpp;
    assert_eq!(pixels.len(), stride * h as usize);
    let mut raw = Vec::new();
    for row in 0..h as usize {
        raw.push(0u8);
        raw.extend_from_slice(&pixels[row * stride..(row + 1) * stride]);
    }
    let z = miniz_oxide::deflate::compress_to_vec_zlib(&raw, 6);
    let mut png = SIG.to_vec();
    png.extend_from_slice(&chunk(b"IHDR", &ihdr_data(w, h, 8, color_type, 0)));
    png.extend_from_slice(&chunk(b"IDAT", &z));
    png.extend_from_slice(&chunk(b"IEND", &[]));
    png
}

#[test]
fn round_trip_2x2_rgba() {
    let pixels: Vec<u8> = vec![
        255, 0, 0, 255, /* red */ 0, 255, 0, 200, /* green */
        0, 0, 255, 150, /* blue */ 255, 255, 0, 100, /* yellow */
    ];
    let png = make_png(2, 2, 6, 4, &pixels);
    let grid = decode(&png).expect("valid PNG must decode");
    assert_eq!(grid.width, 2);
    assert_eq!(grid.height, 2);
    assert_eq!(grid.layout, ChannelLayout::Rgba8);
    assert_eq!(grid.pixels, pixels);
}

#[test]
fn round_trip_gray8() {
    let pixels: Vec<u8> = vec![0, 64, 128, 192, 255, 32];
    let png = make_png(3, 2, 0, 1, &pixels);
    let grid = decode(&png).expect("valid gray PNG must decode");
    assert_eq!(grid.width, 3);
    assert_eq!(grid.height, 2);
    assert_eq!(grid.layout, ChannelLayout::Gray8);
    assert_eq!(grid.pixels, pixels);
}

#[test]
fn round_trip_rgb8_and_gray_alpha8() {
    let rgb: Vec<u8> = vec![10, 20, 30, 40, 50, 60];
    let png = make_png(2, 1, 2, 3, &rgb);
    let grid = decode(&png).unwrap();
    assert_eq!(grid.layout, ChannelLayout::Rgb8);
    assert_eq!(grid.pixels, rgb);

    let ga: Vec<u8> = vec![9, 255, 17, 128];
    let png2 = make_png(1, 2, 4, 2, &ga);
    let grid2 = decode(&png2).unwrap();
    assert_eq!(grid2.layout, ChannelLayout::GrayAlpha8);
    assert_eq!(grid2.pixels, ga);
}

#[test]
fn multiple_idat_chunks_concatenate() {
    let pixels: Vec<u8> = vec![1, 2, 3, 4, 5, 6, 7, 8];
    let stride = 4;
    let mut raw = Vec::new();
    for row in 0..2 {
        raw.push(0u8);
        raw.extend_from_slice(&pixels[row * stride..(row + 1) * stride]);
    }
    let z = miniz_oxide::deflate::compress_to_vec_zlib(&raw, 6);
    let (za, zb) = z.split_at(z.len() / 2);
    let mut png = SIG.to_vec();
    png.extend_from_slice(&chunk(b"IHDR", &ihdr_data(1, 2, 8, 6, 0)));
    png.extend_from_slice(&chunk(b"IDAT", za));
    png.extend_from_slice(&chunk(b"IDAT", zb));
    png.extend_from_slice(&chunk(b"IEND", &[]));
    let grid = decode(&png).unwrap();
    assert_eq!(grid.pixels, pixels);
}

#[test]
fn ancillary_chunks_are_skipped() {
    let pixels: Vec<u8> = vec![7; 4];
    let mut raw = vec![0u8];
    raw.extend_from_slice(&pixels);
    let z = miniz_oxide::deflate::compress_to_vec_zlib(&raw, 6);
    let mut png = SIG.to_vec();
    png.extend_from_slice(&chunk(b"IHDR", &ihdr_data(1, 1, 8, 6, 0)));
    png.extend_from_slice(&chunk(b"tEXt", b"comment\0hello"));
    png.extend_from_slice(&chunk(b"IDAT", &z));
    png.extend_from_slice(&chunk(b"IEND", &[]));
    let grid = decode(&png).unwrap();
    assert_eq!(grid.pixels, pixels);
}

#[test]
fn empty_input_is_unsupported_format() {
    assert_eq!(decode(&[]).unwrap_err(), ImageError::UnsupportedFormat);
}

#[test]
fn wrong_signature_is_unsupported_format() {
    let jpegish = [0xFF, 0xD8, 0xFF, 0xE0, 0, 16, 74, 70, 73, 70, 0, 1];
    assert_eq!(decode(&jpegish).unwrap_err(), ImageError::UnsupportedFormat);
    let short = [137, 80, 78];
    assert_eq!(decode(&short).unwrap_err(), ImageError::UnsupportedFormat);
    let mut almost = SIG.to_vec();
    almost[7] = 11;
    assert_eq!(decode(&almost).unwrap_err(), ImageError::UnsupportedFormat);
}

#[test]
fn truncation_is_corrupt_data() {
    let pixels: Vec<u8> = (0u8..=15).collect();
    let png = make_png(2, 2, 6, 4, &pixels);
    assert!(decode(&png).is_ok());
    for n in 1..=(png.len() - 8) {
        let truncated = &png[..png.len() - n];
        assert_eq!(
            decode(truncated).unwrap_err(),
            ImageError::CorruptData,
            "truncation by {} bytes must be CorruptData",
            n
        );
    }
}

#[test]
fn flipped_payload_byte_is_corrupt_data() {
    let pixels: Vec<u8> = vec![9; 16];
    let mut png = make_png(2, 2, 6, 4, &pixels);
    // Flip one byte inside the IDAT data so its CRC no longer matches.
    let idat_pos = png
        .windows(4)
        .position(|w| w == b"IDAT")
        .expect("IDAT present");
    png[idat_pos + 5] ^= 0xFF;
    assert_eq!(decode(&png).unwrap_err(), ImageError::CorruptData);
}

#[test]
fn trailing_garbage_is_corrupt_data() {
    let pixels: Vec<u8> = vec![3; 4];
    let mut png = make_png(1, 1, 6, 4, &pixels);
    png.extend_from_slice(&[1, 2, 3]);
    assert_eq!(decode(&png).unwrap_err(), ImageError::CorruptData);
}

#[test]
fn missing_iend_is_corrupt_data() {
    let pixels: Vec<u8> = vec![3; 4];
    let mut raw = vec![0u8];
    raw.extend_from_slice(&pixels);
    let z = miniz_oxide::deflate::compress_to_vec_zlib(&raw, 6);
    let mut png = SIG.to_vec();
    png.extend_from_slice(&chunk(b"IHDR", &ihdr_data(1, 1, 8, 6, 0)));
    png.extend_from_slice(&chunk(b"IDAT", &z));
    assert_eq!(decode(&png).unwrap_err(), ImageError::CorruptData);
}

#[test]
fn zero_dimension_is_corrupt_data() {
    let mut png = SIG.to_vec();
    png.extend_from_slice(&chunk(b"IHDR", &ihdr_data(0, 1, 8, 6, 0)));
    assert_eq!(decode(&png).unwrap_err(), ImageError::CorruptData);
}

#[test]
fn huge_dimensions_are_allocation_failure() {
    let mut png = SIG.to_vec();
    png.extend_from_slice(&chunk(b"IHDR", &ihdr_data(1 << 25, 1, 8, 6, 0)));
    assert_eq!(decode(&png).unwrap_err(), ImageError::AllocationFailure);
}

#[test]
fn palette_color_type_is_unsupported_format() {
    let mut png = SIG.to_vec();
    png.extend_from_slice(&chunk(b"IHDR", &ihdr_data(1, 1, 8, 3, 0)));
    assert_eq!(decode(&png).unwrap_err(), ImageError::UnsupportedFormat);
}

#[test]
fn sixteen_bit_depth_is_unsupported_format() {
    let mut png = SIG.to_vec();
    png.extend_from_slice(&chunk(b"IHDR", &ihdr_data(1, 1, 16, 6, 0)));
    assert_eq!(decode(&png).unwrap_err(), ImageError::UnsupportedFormat);
}

#[test]
fn interlaced_is_unsupported_format() {
    let mut png = SIG.to_vec();
    png.extend_from_slice(&chunk(b"IHDR", &ihdr_data(1, 1, 8, 6, 1)));
    assert_eq!(decode(&png).unwrap_err(), ImageError::UnsupportedFormat);
}

#[test]
fn garbage_zlib_stream_is_corrupt_data() {
    let mut png = SIG.to_vec();
    png.extend_from_slice(&chunk(b"IHDR", &ihdr_data(1, 1, 8, 6, 0)));
    png.extend_from_slice(&chunk(b"IDAT", &[0xDE, 0xAD, 0xBE, 0xEF]));
    png.extend_from_slice(&chunk(b"IEND", &[]));
    assert_eq!(decode(&png).unwrap_err(), ImageError::CorruptData);
}

#[test]
fn wrong_payload_length_is_corrupt_data() {
    // Declares 2x2 RGBA but carries only one scanline of pixels.
    let mut raw = vec![0u8];
    raw.extend_from_slice(&[1, 2, 3, 4, 5, 6, 7, 8]);
    let z = miniz_oxide::deflate::compress_to_vec_zlib(&raw, 6);
    let mut png = SIG.to_vec();
    png.extend_from_slice(&chunk(b"IHDR", &ihdr_data(2, 2, 8, 6, 0)));
    png.extend_from_slice(&chunk(b"IDAT", &z));
    png.extend_from_slice(&chunk(b"IEND", &[]));
    assert_eq!(decode(&png).unwrap_err(), ImageError::CorruptData);
}

#[test]
fn undefined_filter_type_is_corrupt_data() {
    let mut raw = vec![7u8]; // filter byte 7 does not exist
    raw.extend_from_slice(&[1, 2, 3, 4]);
    let z = miniz_oxide::deflate::compress_to_vec_zlib(&raw, 6);
    let mut png = SIG.to_vec();
    png.extend_from_slice(&chunk(b"IHDR", &ihdr_data(1, 1, 8, 6, 0)));
    png.extend_from_slice(&chunk(b"IDAT", &z));
    png.extend_from_slice(&chunk(b"IEND", &[]));
    assert_eq!(decode(&png).unwrap_err(), ImageError::CorruptData);
}

/// Reference unfiltering for the filter-coverage test below.
fn reference_unfilter(rows: &[(u8, Vec<u8>)], stride: usize, bpp: usize) -> Vec<u8> {
    let mut out: Vec<u8> = Vec::new();
    let mut prev = vec![0u8; stride];
    for (ft, row) in rows {
        let mut cur = Vec::with_capacity(stride);
        for j in 0..stride {
            let a = if j >= bpp { cur[j - bpp] } else { 0 } as i32;
            let b = prev[j] as i32;
            let c = if j >= bpp { prev[j - bpp] } else { 0 } as i32;
            let pred = match ft {
                0 => 0,
                1 => a,
                2 => b,
                3 => (a + b) / 2,
                4 => {
                    let p = a + b - c;
                    let pa = (p - a).abs();
                    let pb = (p - b).abs();
                    let pc = (p - c).abs();
                    if pa <= pb && pa <= pc {
                        a
                    } else if pb <= pc {
                        b
                    } else {
                        c
                    }
                }
                _ => unreachable!(),
            };
            cur.push(((row[j] as i32 + pred) % 256) as u8);
        }
        out.extend_from_slice(&cur);
        prev = cur;
    }
    out
}

#[test]
fn all_filter_types_reconstruct() {
    // One gray+alpha row per filter type: none, sub, up, average, paeth.
    let rows: Vec<(u8, Vec<u8>)> = vec![
        (0, vec![10, 200, 30, 240]),
        (1, vec![5, 5, 250, 20]),
        (2, vec![100, 50, 3, 9]),
        (3, vec![80, 1, 2, 128]),
        (4, vec![17, 255, 0, 77]),
    ];
    let stride = 4;
    let bpp = 2;
    let mut raw = Vec::new();
    for (ft, row) in &rows {
        raw.push(*ft);
        raw.extend_from_slice(row);
    }
    let z = miniz_oxide::deflate::compress_to_vec_zlib(&raw, 6);
    let mut png = SIG.to_vec();
    png.extend_from_slice(&chunk(b"IHDR", &ihdr_data(2, 5, 8, 4, 0)));
    png.extend_from_slice(&chunk(b"IDAT", &z));
    png.extend_from_slice(&chunk(b"IEND", &[]));
    let grid = decode(&png).unwrap();
    assert_eq!(grid.pixels, reference_unfilter(&rows, stride, bpp));
}

#[test]
fn decode_is_deterministic() {
    let pixels: Vec<u8> = (0u8..32).collect();
    let png = make_png(2, 4, 6, 4, &pixels);
    let a = decode(&png).unwrap();
    let b = decode(&png).unwrap();
    assert_eq!(a.pixels, b.pixels);
    assert_eq!((a.width, a.height, a.layout), (b.width, b.height, b.layout));
}

#[test]
fn error_messages_describe_each_kind() {
    assert!(ImageError::UnsupportedFormat.message().contains("unsupported"));
    assert!(ImageError::CorruptData.message().contains("corrupt"));
    assert!(ImageError::InvalidParameter.message().contains("invalid"));
    assert!(ImageError::AllocationFailure.message().contains("allocation"));
}
