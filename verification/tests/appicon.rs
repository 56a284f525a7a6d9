use limusic::appicon::{premultiplied_bgra, scaled, Image};

#[test]
fn rgba_to_premultiplied_bgra() {
    // Opaque pure red stays red in the R byte, not the B byte.
    assert_eq!(premultiplied_bgra(&[255, 0, 0, 255]), vec![0xffff_0000]);
    assert_eq!(premultiplied_bgra(&[0, 0, 255, 255]), vec![0xff00_00ff]);
    // Half-transparent white: every channel scales with the alpha.
    assert_eq!(premultiplied_bgra(&[255, 255, 255, 128]), vec![0x8080_8080]);
    // Fully transparent pixels carry no colour at all.
    assert_eq!(premultiplied_bgra(&[255, 255, 255, 0]), vec![0]);
}

#[test]
fn trailing_bytes_make_no_pixel() {
    assert_eq!(premultiplied_bgra(&[255, 0, 0, 255, 9, 9]), vec![0xffff_0000]);
    assert_eq!(premultiplied_bgra(&[]), Vec::<u32>::new());
}

/// The result is handed to the icon APIs, which take the buffer's length on trust.
#[test]
fn scaled_halves_a_solid_square() {
    let red = Image::new_owned([255u8, 0, 0, 255].repeat(16), 4, 4);
    let out = scaled(&red, 2, 2);
    assert_eq!((out.width(), out.height()), (2, 2));
    assert_eq!(out.rgba(), [255u8, 0, 0, 255].repeat(4));
}

/// Averaging straight RGBA would pull the opaque pixel towards the transparent one's colour.
#[test]
fn scaled_ignores_the_colour_of_transparent_pixels() {
    // One opaque red pixel, three fully transparent green ones.
    let mut rgba = vec![255u8, 0, 0, 255];
    rgba.extend([0u8, 255, 0, 0].repeat(3));
    let out = scaled(&Image::new_owned(rgba, 2, 2), 1, 1);
    assert_eq!(out.rgba(), &[255, 0, 0, 63]);
}

/// A source smaller than the target still has to produce exactly w*h*4 bytes.
#[test]
fn scaled_upwards_is_still_the_right_length() {
    let out = scaled(&Image::new_owned(vec![1, 2, 3, 4], 1, 1), 5, 3);
    assert_eq!(out.rgba().len(), 5 * 3 * 4);
    assert_eq!(out.rgba()[..4], [1, 2, 3, 4]);
}

#[test]
fn scaled_keeps_an_image_of_the_same_size() {
    let img = Image::new_owned(vec![9, 8, 7, 6, 5, 4, 3, 2], 2, 1);
    let out = scaled(&img, 2, 1);
    assert_eq!((out.width(), out.height()), (2, 1));
    assert_eq!(out.rgba(), &[9, 8, 7, 6, 5, 4, 3, 2]);
    // An empty target side leaves the image alone too.
    let out = scaled(&img, 0, 4);
    assert_eq!((out.width(), out.height()), (2, 1));
}

#[test]
fn scaled_averages_alpha_and_weights_colour() {
    // Two pixels side by side: opaque (200, 0, 0) and half-transparent (0, 100, 0).
    let img = Image::new_owned(vec![200, 0, 0, 255, 0, 100, 0, 128], 2, 1);
    let out = scaled(&img, 1, 1);
    // Colour: (200*255 + 0*128) / 383 = 133, (100*128) / 383 = 33; alpha: 383 / 2 = 191.
    assert_eq!(out.rgba(), &[133, 33, 0, 191]);
}
