use braille_ascii_art::{
    apply, check_dimensions, composite_over_white, edge_input, from_bytes, from_edges,
    gray_method_from_index, luma_plane, resize_target, to_gray, ConversionError, GrayMethod,
};

fn raster(width: usize, height: usize, rgb: [u8; 3]) -> Vec<u8> {
    let mut v = Vec::new();
    for _ in 0..width * height {
        v.extend_from_slice(&rgb);
    }
    v
}

fn set_pixel(bytes: &mut [u8], width: usize, row: usize, col: usize, rgb: [u8; 3]) {
    let k = (row * width + col) * 3;
    bytes[k..k + 3].copy_from_slice(&rgb);
}

fn glyph(mask: u32) -> char {
    char::from_u32(0x2800 + mask).unwrap()
}

#[test]
fn gray_lightness() {
    assert_eq!(to_gray([10, 200, 51], GrayMethod::Lightness), 105);
}

#[test]
fn gray_average() {
    assert_eq!(to_gray([10, 200, 51], GrayMethod::Average), 87);
    assert_eq!(to_gray([255, 255, 255], GrayMethod::Average), 255);
}

#[test]
fn gray_luminosity() {
    // 0.21 * 100 + 0.72 * 50 + 0.07 * 10 = 57.7
    assert_eq!(to_gray([100, 50, 10], GrayMethod::Luminosity), 58);
    assert_eq!(to_gray([255, 255, 255], GrayMethod::Luminosity), 255);
    assert_eq!(to_gray([0, 0, 0], GrayMethod::Luminosity), 0);
}

#[test]
fn gray_max_min() {
    assert_eq!(to_gray([10, 200, 51], GrayMethod::Max), 200);
    assert_eq!(to_gray([10, 200, 51], GrayMethod::Min), 10);
}

#[test]
fn gray_method_indices() {
    assert!(matches!(gray_method_from_index(0), GrayMethod::Average));
    assert!(matches!(gray_method_from_index(1), GrayMethod::Lightness));
    assert!(matches!(gray_method_from_index(2), GrayMethod::Luminosity));
    assert!(matches!(gray_method_from_index(3), GrayMethod::Max));
    assert!(matches!(gray_method_from_index(4), GrayMethod::Min));
    assert!(matches!(gray_method_from_index(99), GrayMethod::Min));
}

#[test]
fn black_tile_keeps_all_dots() {
    let bytes = vec![0u8; 24];
    let out = from_bytes(&bytes, 2, false, GrayMethod::Average, false, 128).unwrap();
    assert_eq!(out, "\u{28FF}\n");
    let out = from_bytes(&bytes, 2, false, GrayMethod::Average, true, 128).unwrap();
    assert_eq!(out, "\u{28FF}\n");
}

#[test]
fn tile_without_ink_is_full() {
    let bytes = raster(2, 4, [90, 90, 90]);
    let out = from_bytes(&bytes, 2, false, GrayMethod::Lightness, true, 91).unwrap();
    assert_eq!(out, "\u{28FF}\n");
}

#[test]
fn white_raster_is_blank_with_monospace() {
    let bytes = raster(4, 8, [255, 255, 255]);
    let out = from_bytes(&bytes, 4, false, GrayMethod::Luminosity, true, 128).unwrap();
    assert_eq!(out, "\u{2800}\u{2800}\n\u{2800}\u{2800}\n");
}

#[test]
fn white_raster_shows_one_dot_without_monospace() {
    let bytes = raster(4, 8, [255, 255, 255]);
    let out = from_bytes(&bytes, 4, false, GrayMethod::Luminosity, false, 128).unwrap();
    assert_eq!(out, "\u{2804}\u{2804}\n\u{2804}\u{2804}\n");
}

#[test]
fn threshold_is_inclusive() {
    let mut bytes = raster(2, 4, [0, 0, 0]);
    set_pixel(&mut bytes, 2, 0, 0, [100, 100, 100]);
    let out = from_bytes(&bytes, 2, false, GrayMethod::Average, true, 100).unwrap();
    assert_eq!(out, format!("{}\n", glyph(0xFE)));
    let out = from_bytes(&bytes, 2, false, GrayMethod::Average, true, 101).unwrap();
    assert_eq!(out, format!("{}\n", glyph(0xFF)));
}

#[test]
fn dot_order_follows_braille_numbering() {
    // (row, col) of the pixel read for each bit.
    let positions = [(0, 0), (1, 0), (2, 0), (0, 1), (1, 1), (2, 1), (3, 0), (3, 1)];
    for (bit, &(row, col)) in positions.iter().enumerate() {
        let mut bytes = raster(2, 4, [0, 0, 0]);
        set_pixel(&mut bytes, 2, row, col, [255, 255, 255]);
        let out = from_bytes(&bytes, 2, false, GrayMethod::Max, true, 128).unwrap();
        assert_eq!(out, format!("{}\n", glyph(0xFF ^ (1 << bit))));
    }
}

#[test]
fn invert_complements_masks() {
    let mut bytes = raster(4, 8, [0, 0, 0]);
    set_pixel(&mut bytes, 4, 0, 0, [255, 255, 255]);
    set_pixel(&mut bytes, 4, 5, 3, [200, 200, 200]);
    set_pixel(&mut bytes, 4, 7, 2, [130, 130, 130]);
    let plain = from_bytes(&bytes, 4, false, GrayMethod::Average, true, 128).unwrap();
    let inverted = from_bytes(&bytes, 4, true, GrayMethod::Average, true, 128).unwrap();
    let a: Vec<char> = plain.chars().collect();
    let b: Vec<char> = inverted.chars().collect();
    assert_eq!(a.len(), b.len());
    for (x, y) in a.iter().zip(b.iter()) {
        if *x == '\n' {
            assert_eq!(*y, '\n');
        } else {
            assert_eq!((*x as u32 - 0x2800) ^ 0xFF, *y as u32 - 0x2800);
        }
    }
    assert_eq!(a[0], glyph(0xFE));
}

#[test]
fn invert_of_blank_without_monospace_shows_one_dot() {
    let bytes = vec![0u8; 24];
    let out = from_bytes(&bytes, 2, true, GrayMethod::Average, false, 128).unwrap();
    assert_eq!(out, "\u{2804}\n");
}

#[test]
fn output_shape_follows_dimensions() {
    let bytes = raster(6, 12, [30, 60, 90]);
    let out = from_bytes(&bytes, 6, false, GrayMethod::Average, true, 10).unwrap();
    let lines: Vec<&str> = out.split_terminator('\n').collect();
    assert_eq!(lines.len(), 3);
    for line in lines {
        assert_eq!(line.chars().count(), 3);
        assert!(line.chars().all(|c| ('\u{2800}'..='\u{28FF}').contains(&c)));
    }
    assert!(out.ends_with('\n'));
}

#[test]
fn empty_raster_gives_empty_text() {
    assert_eq!(from_bytes(&[], 2, false, GrayMethod::Average, true, 128).unwrap(), "");
}

#[test]
fn odd_width_is_refused() {
    let bytes = raster(3, 4, [0, 0, 0]);
    assert!(matches!(
        from_bytes(&bytes, 3, false, GrayMethod::Average, true, 128),
        Err(ConversionError::WidthNotEven)
    ));
}

#[test]
fn height_not_multiple_of_four_is_refused() {
    let bytes = raster(2, 3, [0, 0, 0]);
    assert!(matches!(
        from_bytes(&bytes, 2, false, GrayMethod::Average, true, 128),
        Err(ConversionError::HeightNotMultipleOfFour)
    ));
}

#[test]
fn ragged_byte_count_is_refused() {
    let mut bytes = raster(2, 4, [0, 0, 0]);
    bytes.push(7);
    assert!(matches!(
        from_bytes(&bytes, 2, false, GrayMethod::Average, true, 128),
        Err(ConversionError::InvalidBytes)
    ));
    assert!(matches!(check_dimensions(24, 0), Err(ConversionError::InvalidBytes)));
}

#[test]
fn dimensions_give_height() {
    assert!(matches!(check_dimensions(24, 2), Ok(4)));
    assert!(matches!(check_dimensions(96, 4), Ok(8)));
}

#[test]
fn error_names_are_stable() {
    assert_eq!(ConversionError::WidthNotEven.name(), "WidthNotEven");
    assert_eq!(ConversionError::HeightNotMultipleOfFour.name(), "HeightNotMultipleOfFour");
    assert_eq!(ConversionError::InvalidLowThreshold.name(), "InvalidLowThreshold");
    assert_eq!(ConversionError::InvalidHighThreshold.name(), "InvalidHighThreshold");
    assert_eq!(ConversionError::InvalidBytes.name(), "InvalidBytes");
}

#[test]
fn edges_count_any_nonzero_pixel() {
    let mut bytes = raster(2, 4, [0, 0, 0]);
    set_pixel(&mut bytes, 2, 3, 1, [0, 0, 3]);
    let out = from_edges(&bytes, 2, false, GrayMethod::Max, true).unwrap();
    assert_eq!(out, format!("{}\n", glyph(0x7F)));
}

#[test]
fn apply_encodes_valid_raster() {
    let bytes = raster(2, 4, [255, 255, 255]);
    assert_eq!(apply(&bytes, 2, true, GrayMethod::Min, true, 255), "\u{28FF}\n");
}

#[test]
fn luma_plane_has_one_byte_per_pixel() {
    let mut bytes = raster(2, 4, [0, 0, 0]);
    set_pixel(&mut bytes, 2, 0, 1, [255, 255, 255]);
    let luma = luma_plane(&bytes, 2).unwrap();
    assert_eq!(luma.len(), 8);
    assert_eq!(luma[0], 0);
    assert_eq!(luma[1], 255);
    assert!(matches!(luma_plane(&bytes[..23], 2), Err(ConversionError::InvalidBytes)));
}

#[test]
fn edge_input_checks_dimensions_first() {
    let bytes = raster(3, 4, [0, 0, 0]);
    assert!(matches!(edge_input(&bytes, 3), Err(ConversionError::WidthNotEven)));
    let bytes = raster(2, 4, [255, 255, 255]);
    assert_eq!(edge_input(&bytes, 2).unwrap(), vec![255u8; 8]);
}

#[test]
fn composite_flattens_over_white() {
    // A transparent red pixel, then an opaque blue one.
    let rgba = vec![255, 0, 0, 0, 0, 0, 255, 255];
    let rgb = composite_over_white(&rgba, 2, 1);
    assert_eq!(rgb, vec![255, 255, 255, 0, 0, 255]);
}

#[test]
fn resize_keeps_aspect_ratio() {
    assert_eq!(resize_target(100, 50, 10), Some((20, 8)));
    assert_eq!(resize_target(3, 9, 1), Some((2, 4)));
    assert_eq!(resize_target(0, 9, 1), None);
    assert_eq!(resize_target(1, u32::MAX, u32::MAX), None);
}
