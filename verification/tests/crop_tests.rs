use game_engine::crop::{
    clear_background, colors_similar, crop_to_content, flood_fill_transparent, opaque_bounds,
    padded_crop_rect, remove_background, BackgroundError,
};
use game_engine::pixels::{Pixel, RgbaBuffer};

const RED: Pixel = [255, 0, 0, 255];
const WHITE: Pixel = [255, 255, 255, 255];
const NEAR_WHITE: Pixel = [250, 252, 249, 255];
const CLEAR: Pixel = [0, 0, 0, 0];

fn buffer(width: u32, height: u32, fill: Pixel) -> RgbaBuffer {
    RgbaBuffer { width, height, pixels: vec![fill; (width * height) as usize] }
}

fn set(img: &mut RgbaBuffer, x: u32, y: u32, p: Pixel) {
    let i = (y * img.width + x) as usize;
    img.pixels[i] = p;
}

fn get(img: &RgbaBuffer, x: u32, y: u32) -> Pixel {
    img.pixels[(y * img.width + x) as usize]
}

fn encode(img: &RgbaBuffer) -> Vec<u8> {
    let raw: Vec<u8> = img.pixels.iter().flatten().copied().collect();
    let rgba = image::RgbaImage::from_raw(img.width, img.height, raw).unwrap();
    let mut out = std::io::Cursor::new(Vec::new());
    rgba.write_to(&mut out, image::ImageOutputFormat::Png).unwrap();
    out.into_inner()
}

fn decode(bytes: &[u8]) -> RgbaBuffer {
    let rgba = image::load_from_memory(bytes).unwrap().to_rgba8();
    let (width, height) = rgba.dimensions();
    RgbaBuffer { width, height, pixels: rgba.pixels().map(|p| p.0).collect() }
}

#[test]
fn colors_similar_within_tolerance() {
    assert!(colors_similar(WHITE, NEAR_WHITE, 6));
    assert!(!colors_similar(WHITE, NEAR_WHITE, 5));
    assert!(colors_similar(WHITE, WHITE, 0));
    // Alpha is not compared.
    assert!(colors_similar([10, 20, 30, 0], [10, 20, 30, 255], 0));
    assert!(!colors_similar(RED, WHITE, 254));
    assert!(colors_similar(RED, WHITE, 255));
}

#[test]
fn colors_similar_is_symmetric() {
    let a: Pixel = [3, 200, 90, 255];
    let b: Pixel = [10, 190, 100, 255];
    for tol in [0u8, 6, 7, 9, 10, 11, 255] {
        assert_eq!(colors_similar(a, b, tol), colors_similar(b, a, tol));
    }
}

#[test]
fn flood_fill_clears_connected_background_only() {
    // 5x3 white image with a red wall in column 2: the fill from (0, 0)
    // stops at the wall.
    let mut img = buffer(5, 3, WHITE);
    for y in 0..3 {
        set(&mut img, 2, y, RED);
    }
    let mut visited = vec![false; 15];
    flood_fill_transparent(&mut img, &mut visited, 0, 0, WHITE, 10);
    for y in 0..3 {
        assert_eq!(get(&img, 0, y), CLEAR);
        assert_eq!(get(&img, 1, y), CLEAR);
        assert_eq!(get(&img, 2, y), RED);
        assert_eq!(get(&img, 3, y), WHITE);
        assert_eq!(get(&img, 4, y), WHITE);
    }
    // Exactly the cleared positions are marked visited: the wall stays
    // open to later fills, and so does the far side.
    for y in 0..3 {
        assert!(visited[(y * 5) as usize]);
        assert!(visited[(y * 5 + 1) as usize]);
        assert!(!visited[(y * 5 + 2) as usize]);
        assert!(!visited[(y * 5 + 3) as usize]);
        assert!(!visited[(y * 5 + 4) as usize]);
    }
}

#[test]
fn flood_fill_accepts_longer_mask() {
    let mut img = buffer(2, 2, WHITE);
    let mut visited = vec![false; 7];
    visited[6] = true;
    flood_fill_transparent(&mut img, &mut visited, 1, 0, WHITE, 0);
    assert!(img.pixels.iter().all(|p| *p == CLEAR));
    assert_eq!(visited, vec![true, true, true, true, false, false, true]);
}

#[test]
fn flood_fill_skips_visited_start() {
    let mut img = buffer(2, 2, WHITE);
    let mut visited = vec![true, false, false, false];
    flood_fill_transparent(&mut img, &mut visited, 0, 0, WHITE, 0);
    assert!(img.pixels.iter().all(|p| *p == WHITE));
    assert_eq!(visited, vec![true, false, false, false]);
}

#[test]
fn flood_fill_dissimilar_start_changes_nothing() {
    let mut img = buffer(2, 2, RED);
    let mut visited = vec![false; 4];
    flood_fill_transparent(&mut img, &mut visited, 1, 1, WHITE, 3);
    assert!(img.pixels.iter().all(|p| *p == RED));
    assert_eq!(visited, vec![false; 4]);
}

#[test]
fn clear_background_from_all_corners() {
    // Top half white, bottom half near-white, red dot in the top half.
    let mut img = buffer(5, 4, WHITE);
    for x in 0..5 {
        set(&mut img, x, 2, NEAR_WHITE);
        set(&mut img, x, 3, NEAR_WHITE);
    }
    set(&mut img, 2, 1, RED);
    clear_background(&mut img, 2);
    // The white fill from the top corners clears the top half around the
    // dot; the near-white fill from the bottom corners clears the bottom
    // half, including the row the white fill looked at and passed over.
    for y in 0..4 {
        for x in 0..5 {
            let expected = if (x, y) == (2, 1) { RED } else { CLEAR };
            assert_eq!(get(&img, x, y), expected, "at {x},{y}");
        }
    }
}

#[test]
fn clear_background_second_corner_reaches_pixel_first_rejected() {
    // Red, blue, blue: the red corner's fill looks at the middle pixel and
    // leaves it; the blue corner's fill clears it.
    let mut img = RgbaBuffer { width: 3, height: 1, pixels: vec![RED, [0, 0, 255, 255], [0, 0, 255, 255]] };
    clear_background(&mut img, 0);
    assert!(img.pixels.iter().all(|p| *p == CLEAR));
}

#[test]
fn clear_background_full_tolerance_clears_everything() {
    let mut img = buffer(4, 3, WHITE);
    set(&mut img, 1, 1, RED);
    set(&mut img, 2, 1, [0, 0, 0, 255]);
    set(&mut img, 3, 2, [12, 200, 7, 40]);
    clear_background(&mut img, 255);
    assert!(img.pixels.iter().all(|p| *p == CLEAR));
    assert_eq!(opaque_bounds(&img), None);
}

#[test]
fn clear_background_skips_transparent_corner() {
    let mut img = buffer(3, 3, [0, 0, 0, 0]);
    set(&mut img, 1, 1, RED);
    clear_background(&mut img, 255);
    // Every corner is already transparent, so nothing is filled.
    assert_eq!(get(&img, 1, 1), RED);
}

#[test]
fn opaque_bounds_of_content() {
    let mut img = buffer(6, 5, CLEAR);
    assert_eq!(opaque_bounds(&img), None);
    set(&mut img, 1, 3, RED);
    set(&mut img, 4, 1, [1, 1, 1, 1]);
    assert_eq!(opaque_bounds(&img), Some((1, 1, 4, 3)));
}

#[test]
fn padded_crop_rect_clamps_to_image() {
    assert_eq!(padded_crop_rect(10, 10, (4, 5, 6, 5)), (2, 3, 7, 5));
    assert_eq!(padded_crop_rect(10, 10, (1, 0, 9, 9)), (0, 0, 10, 10));
    assert_eq!(padded_crop_rect(10, 10, (0, 0, 0, 0)), (0, 0, 5, 5));
    assert_eq!(padded_crop_rect(4, 3, (3, 2, 3, 2)), (1, 0, 3, 3));
}

#[test]
fn crop_to_content_pads_around_sprite() {
    let mut img = buffer(10, 10, WHITE);
    set(&mut img, 5, 5, RED);
    set(&mut img, 6, 5, RED);
    let c = crop_to_content(&img, 10).unwrap();
    assert_eq!((c.width, c.height), (6, 5));
    for y in 0..5 {
        for x in 0..6 {
            let expected = if y == 2 && (x == 2 || x == 3) { RED } else { CLEAR };
            assert_eq!(get(&c, x, y), expected);
        }
    }
    // The input is left as it was.
    assert_eq!(get(&img, 0, 0), WHITE);
}

#[test]
fn crop_to_content_at_image_corner() {
    // Content in the top-left corner: the crop starts at the edge and
    // keeps the padding only where the image has room.
    let mut img = buffer(8, 6, WHITE);
    set(&mut img, 0, 1, RED);
    set(&mut img, 1, 1, RED);
    let c = crop_to_content(&img, 0).unwrap();
    assert_eq!((c.width, c.height), (6, 5));
    assert_eq!(get(&c, 0, 1), RED);
    assert_eq!(get(&c, 1, 1), RED);
    assert_eq!(get(&c, 2, 1), CLEAR);
}

#[test]
fn crop_to_content_none_when_every_pixel_matches_a_corner() {
    let img = RgbaBuffer { width: 3, height: 1, pixels: vec![RED, [0, 0, 255, 255], [0, 0, 255, 255]] };
    assert!(crop_to_content(&img, 0).is_none());
}

#[test]
fn crop_to_content_none_when_all_background() {
    let img = buffer(4, 4, WHITE);
    assert!(crop_to_content(&img, 0).is_none());
}

#[test]
fn remove_background_crops_png() {
    let mut img = buffer(12, 8, WHITE);
    set(&mut img, 6, 4, RED);
    let out = remove_background(&encode(&img), 5).ok().unwrap();
    let result = decode(&out);
    assert_eq!((result.width, result.height), (5, 5));
    assert_eq!(get(&result, 2, 2), RED);
    assert_eq!(get(&result, 0, 0), CLEAR);
}

#[test]
fn remove_background_keeps_image_without_content() {
    let img = buffer(3, 2, NEAR_WHITE);
    let out = remove_background(&encode(&img), 50).ok().unwrap();
    let result = decode(&out);
    assert_eq!((result.width, result.height), (3, 2));
    assert!(result.pixels.iter().all(|p| *p == NEAR_WHITE));
}

#[test]
fn remove_background_rejects_non_image() {
    let r = remove_background(b"not an image", 10);
    assert!(matches!(r, Err(BackgroundError::Decode(_))));
}

#[test]
fn remove_background_returns_original_when_corners_clear_all() {
    let img = RgbaBuffer { width: 3, height: 1, pixels: vec![RED, [0, 0, 255, 255], [0, 0, 255, 255]] };
    let out = remove_background(&encode(&img), 0).ok().unwrap();
    let result = decode(&out);
    assert_eq!((result.width, result.height), (img.width, img.height));
    assert_eq!(result.pixels, img.pixels);
}

#[test]
fn remove_background_full_tolerance_returns_original() {
    let mut img = buffer(5, 4, WHITE);
    set(&mut img, 2, 2, RED);
    let out = remove_background(&encode(&img), 255).ok().unwrap();
    let result = decode(&out);
    assert_eq!((result.width, result.height), (img.width, img.height));
    assert_eq!(result.pixels, img.pixels);
}

#[test]
fn background_error_messages() {
    assert_eq!(BackgroundError::EmptyImage.message(), "Image has zero dimensions");
    match remove_background(b"not an image", 10) {
        Err(e) => assert_eq!(e.message(), image::load_from_memory(b"not an image").err().unwrap().to_string()),
        Ok(_) => panic!("expected an error"),
    }
}
