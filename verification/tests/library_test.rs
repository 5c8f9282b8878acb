use nine_patch::bitmap::Bitmap;
use nine_patch::{
    NinePatchError, content_info_from_bitmap, nine_patch, nine_patch_content_info,
    nine_patch_from_bitmap,
};

const MARKER: [u8; 4] = [0, 0, 0, 255];

fn set_pixel(data: &mut [u8], width: usize, x: usize, y: usize, px: [u8; 4]) {
    let i = 4 * (y * width + x);
    data[i..i + 4].copy_from_slice(&px);
}

/// A width x height image filled with `fill`.
fn filled(width: usize, height: usize, fill: [u8; 4]) -> Vec<u8> {
    let mut data = Vec::new();
    for _ in 0..width * height {
        data.extend_from_slice(&fill);
    }
    data
}

#[test]
fn test_no_markers_minimum_is_content_and_copy() {
    // A 4x4 image without stretch markers: the 2x2 content is all fixed, the
    // minimum size equals the content size, and requesting exactly that size
    // copies the content unchanged.
    let mut data = filled(4, 4, [9, 9, 9, 9]);
    set_pixel(&mut data, 4, 1, 1, [10, 11, 12, 13]);
    set_pixel(&mut data, 4, 2, 1, [20, 21, 22, 23]);
    set_pixel(&mut data, 4, 1, 2, [30, 31, 32, 33]);
    set_pixel(&mut data, 4, 2, 2, [40, 41, 42, 43]);
    let img = Bitmap::from_raw(4, 4, data).unwrap();

    // Below the minimum on either axis the call is refused.
    assert!(matches!(
        nine_patch_from_bitmap(&img, 1, 2),
        Err(NinePatchError::TargetTooSmall)
    ));
    assert!(matches!(
        nine_patch_from_bitmap(&img, 2, 1),
        Err(NinePatchError::TargetTooSmall)
    ));

    // At exactly the minimum the result is the content, pixel for pixel.
    let out = nine_patch_from_bitmap(&img, 2, 2).unwrap();
    assert_eq!(out.width, 2);
    assert_eq!(out.height, 2);
    assert_eq!(out.pixel_at(0, 0), (10, 11, 12, 13));
    assert_eq!(out.pixel_at(1, 0), (20, 21, 22, 23));
    assert_eq!(out.pixel_at(0, 1), (30, 31, 32, 33));
    assert_eq!(out.pixel_at(1, 1), (40, 41, 42, 43));
}

#[test]
fn test_no_markers_oversize_leaves_bands_transparent() {
    // Without stretch markers the degenerate stretch band contributes
    // nothing: a larger target keeps the fixed content in the corners and
    // leaves the extra band transparent black.
    let data = filled(4, 4, [7, 7, 7, 255]);
    let img = Bitmap::from_raw(4, 4, data).unwrap();
    let out = nine_patch_from_bitmap(&img, 4, 4).unwrap();
    assert_eq!(out.width, 4);
    assert_eq!(out.height, 4);
    // The whole content is the leading fixed band of each axis.
    assert_eq!(out.pixel_at(0, 0), (7, 7, 7, 255));
    assert_eq!(out.pixel_at(1, 1), (7, 7, 7, 255));
    // The two extra columns and rows were never drawn.
    assert_eq!(out.pixel_at(2, 0), (0, 0, 0, 0));
    assert_eq!(out.pixel_at(3, 3), (0, 0, 0, 0));
    assert_eq!(out.pixel_at(0, 2), (0, 0, 0, 0));
}

#[test]
fn test_stretch_exact_pixels() {
    // A 5x5 image, 3x3 content where pixel (x, y) holds the value
    // 10 * x + y, with the middle column and row marked stretchable.
    // Scaled to 4x4, nearest-neighbour maps destination indices
    // [0, 1, 2, 3] to source indices [0, 1, 1, 2] on both axes.
    let mut data = filled(5, 5, [0, 0, 0, 0]);
    for cx in 0..3usize {
        for cy in 0..3usize {
            let v = (10 * cx + cy) as u8;
            set_pixel(&mut data, 5, cx + 1, cy + 1, [v, v, v, 255]);
        }
    }
    set_pixel(&mut data, 5, 2, 0, MARKER);
    set_pixel(&mut data, 5, 0, 2, MARKER);
    let img = Bitmap::from_raw(5, 5, data).unwrap();

    let out = nine_patch_from_bitmap(&img, 4, 4).unwrap();
    assert_eq!(out.width, 4);
    assert_eq!(out.height, 4);
    let src_of = [0usize, 1, 1, 2];
    for x in 0..4usize {
        for y in 0..4usize {
            let v = (10 * src_of[x] + src_of[y]) as u8;
            assert_eq!(out.pixel_at(x, y), (v, v, v, 255));
        }
    }
}

#[test]
fn test_invalid_image_paths() {
    // An image smaller than 3x3 is refused.
    let img = Bitmap::from_raw(2, 2, filled(2, 2, [1, 2, 3, 4])).unwrap();
    assert!(matches!(
        nine_patch_from_bitmap(&img, 5, 5),
        Err(NinePatchError::InvalidImage)
    ));
    assert!(matches!(
        content_info_from_bitmap(&img),
        Err(NinePatchError::InvalidImage)
    ));

    // Bytes that do not decode yield an empty result at the boundary.
    let garbage = [1u8, 2, 3, 4, 5, 6, 7, 8];
    let size = 5u32.to_le_bytes();
    assert!(nine_patch(&garbage, &size, &size).is_empty());
    assert!(nine_patch_content_info(&garbage).is_empty());
}

#[test]
fn test_zero_size_target_cannot_be_encoded() {
    // Markers across the whole interior of the top row and left column make
    // every region stretchable, so a 0x0 target passes the minimum check;
    // the empty result then cannot be encoded and the boundary returns the
    // empty byte sequence.
    let mut img = image::RgbaImage::new(5, 5);
    for i in 1..4 {
        img.put_pixel(i, 0, image::Rgba([0, 0, 0, 255]));
        img.put_pixel(0, i, image::Rgba([0, 0, 0, 255]));
    }
    let mut png_data = Vec::new();
    {
        let mut cursor = std::io::Cursor::new(&mut png_data);
        img.write_to(&mut cursor, image::ImageFormat::Png).unwrap();
    }
    let zero = 0u32.to_le_bytes();
    assert!(nine_patch(&png_data, &zero, &zero).is_empty());
    assert!(matches!(
        nine_patch::nine_patch_result(&png_data, 0, 0),
        Err(NinePatchError::InvalidFormat)
    ));
}

#[test]
fn test_content_info_bytes_exact() {
    // A 7x7 image, built directly as a pixel grid: stretch markers at border
    // positions 2 and 3 of the top row and left column, content markers
    // spanning border x = 2..=5 on the bottom row and border y = 2..=4 on
    // the right column.
    let mut data = filled(7, 7, [255, 255, 255, 255]);
    for x in [2usize, 3] {
        set_pixel(&mut data, 7, x, 0, MARKER);
    }
    for y in [2usize, 3] {
        set_pixel(&mut data, 7, 0, y, MARKER);
    }
    for x in [2usize, 3, 4, 5] {
        set_pixel(&mut data, 7, x, 6, MARKER);
    }
    for y in [2usize, 3, 4] {
        set_pixel(&mut data, 7, 6, y, MARKER);
    }
    let img = Bitmap::from_raw(7, 7, data).unwrap();
    let bytes = content_info_from_bitmap(&img).unwrap();
    assert_eq!(bytes.len(), 24);
    let vals: Vec<u32> = (0..6)
        .map(|i| u32::from_le_bytes([bytes[4 * i], bytes[4 * i + 1], bytes[4 * i + 2], bytes[4 * i + 3]]))
        .collect();
    // content_left, content_top, content_right, content_bottom,
    // min_width, min_height.
    assert_eq!(vals, vec![1, 1, 0, 1, 3, 3]);
}

#[test]
fn test_end_to_end_pixels() {
    // The same 5x5 pattern as test_stretch_exact_pixels, pushed through the
    // byte boundary: encode the input as PNG, scale to 4x4, decode the
    // result, and check every pixel.
    let mut img = image::RgbaImage::new(5, 5);
    for cx in 0..3u32 {
        for cy in 0..3u32 {
            let v = (10 * cx + cy) as u8;
            img.put_pixel(cx + 1, cy + 1, image::Rgba([v, v, v, 255]));
        }
    }
    img.put_pixel(2, 0, image::Rgba([0, 0, 0, 255]));
    img.put_pixel(0, 2, image::Rgba([0, 0, 0, 255]));
    let mut png_data = Vec::new();
    {
        let mut cursor = std::io::Cursor::new(&mut png_data);
        img.write_to(&mut cursor, image::ImageFormat::Png).unwrap();
    }

    let result = nine_patch(&png_data, &4u32.to_le_bytes(), &4u32.to_le_bytes());
    assert!(!result.is_empty());
    let out = image::load_from_memory(&result).unwrap().to_rgba8();
    assert_eq!(out.dimensions(), (4, 4));
    let src_of = [0u32, 1, 1, 2];
    for x in 0..4usize {
        for y in 0..4usize {
            let v = (10 * src_of[x] + src_of[y]) as u8;
            assert_eq!(*out.get_pixel(x as u32, y as u32), image::Rgba([v, v, v, 255]));
        }
    }
}

#[test]
fn test_too_small_image_bytes_give_empty() {
    // A 2x2 image decodes but is below the 3x3 nine-patch minimum: both
    // boundary operations return the empty byte sequence.
    let img = image::RgbaImage::new(2, 2);
    let mut png_data = Vec::new();
    {
        let mut cursor = std::io::Cursor::new(&mut png_data);
        img.write_to(&mut cursor, image::ImageFormat::Png).unwrap();
    }
    let size = 5u32.to_le_bytes();
    assert!(nine_patch(&png_data, &size, &size).is_empty());
    assert!(nine_patch_content_info(&png_data).is_empty());
}

#[test]
fn test_image_judged_before_target_size() {
    // The image is judged before the target: undecodable bytes report
    // InvalidImage even when the requested size is too large for the
    // machine's addresses, and the boundary result is empty either way.
    let garbage = [9u8, 8, 7, 6];
    let huge = 0x8000_0000u32;
    assert!(matches!(
        nine_patch::nine_patch_result(&garbage, huge, huge),
        Err(NinePatchError::InvalidImage)
    ));
    let size = huge.to_le_bytes();
    assert!(nine_patch(&garbage, &size, &size).is_empty());

    // A decodable 2x2 image is likewise judged before the huge target.
    let img = image::RgbaImage::new(2, 2);
    let mut png_data = Vec::new();
    {
        let mut cursor = std::io::Cursor::new(&mut png_data);
        img.write_to(&mut cursor, image::ImageFormat::Png).unwrap();
    }
    assert!(matches!(
        nine_patch::nine_patch_result(&png_data, huge, huge),
        Err(NinePatchError::InvalidImage)
    ));
}
