use architect::story_parity::diff::{
    blit, build_side_by_side, compose, decode_rgba, diff_renderers, fill_rect, px_off, rgba_len,
    to_rgba, ColorType, Compared, DiffError, Frame, Picture,
};
use std::borrow::Cow;

use architect::story_parity::runner::{artefacts_for, label_for, sanitise};

fn solid(w: u32, h: u32, rgba: [u8; 4]) -> Picture {
    let mut data = Vec::new();
    for _ in 0..w * h {
        data.extend_from_slice(&rgba);
    }
    Picture { data, width: w, height: h }
}

fn png_of(picture: &Picture, color: png::ColorType) -> Vec<u8> {
    let mut out = Vec::new();
    let mut encoder = png::Encoder::new(&mut out, picture.width, picture.height);
    encoder.set_color(color);
    encoder.set_depth(png::BitDepth::Eight);
    let mut writer = encoder.write_header().unwrap();
    writer.write_image_data(&picture.data).unwrap();
    writer.finish().unwrap();
    out
}

fn pixel(p: &Picture, x: u32, y: u32) -> &[u8] {
    let at = ((y * p.width + x) * 4) as usize;
    &p.data[at..at + 4]
}

#[test]
fn a_png_is_read_back_pixel_by_pixel() {
    let red = solid(3, 2, [255, 0, 0, 255]);
    assert_eq!(decode_rgba(&png_of(&red, png::ColorType::Rgba)), Ok(red));
    let rgb = Picture { data: vec![1, 2, 3, 4, 5, 6], width: 2, height: 1 };
    assert_eq!(
        decode_rgba(&png_of(&rgb, png::ColorType::Rgb)).unwrap().data,
        vec![1, 2, 3, 255, 4, 5, 6, 255]
    );
    assert!(matches!(decode_rgba(&vec![1, 2, 3]), Err(DiffError::PngDecode(_))));
}

#[test]
fn a_kind_that_is_not_handled_is_refused() {
    let indexed = Frame { color_type: ColorType::Indexed, width: 1, height: 1, data: vec![0] };
    assert!(matches!(to_rgba(indexed), Err(DiffError::Unsupported(_))));
}

#[test]
fn lengths_and_places_are_checked() {
    assert_eq!(rgba_len(2, 3), Ok(24));
    assert_eq!(px_off(10, 3, 2), Some(92));
}

#[test]
fn a_copy_and_a_rectangle_land_where_they_are_put() {
    let mut dst = vec![0u8; 4 * 4 * 2];
    blit(&solid(1, 2, [9, 8, 7, 6]).data, 1, 2, &mut dst, 4, 2, 0);
    assert_eq!(&dst[8..12], &[9, 8, 7, 6]);
    assert_eq!(&dst[24..28], &[9, 8, 7, 6]);
    assert_eq!(&dst[0..8], &[0; 8]);
    fill_rect(&mut dst, 4, 0, 1, 2, 1, [1, 1, 1, 1]);
    assert_eq!(&dst[16..24], &[1; 8]);
    assert_eq!(&dst[24..28], &[9, 8, 7, 6]);
}

#[test]
fn the_composite_shows_both_with_a_gutter_between() {
    let a = solid(2, 1, [255, 0, 0, 255]);
    let b = solid(1, 2, [0, 0, 255, 255]);
    let both = compose(&a, &b).unwrap();
    assert_eq!((both.width, both.height), (5, 2));
    assert_eq!(pixel(&both, 0, 0), &[255, 0, 0, 255]);
    assert_eq!(pixel(&both, 1, 1), &[0, 0, 0, 0]);
    assert_eq!(pixel(&both, 2, 0), &[0, 0, 0, 255]);
    assert_eq!(pixel(&both, 3, 1), &[0, 0, 0, 255]);
    assert_eq!(pixel(&both, 4, 1), &[0, 0, 255, 255]);
    let file = build_side_by_side(
        &png_of(&a, png::ColorType::Rgba),
        &png_of(&b, png::ColorType::Rgba),
    )
    .unwrap();
    assert_eq!(decode_rgba(&file), Ok(both));
    assert!(build_side_by_side(&vec![0], &vec![0]).is_err());
}

#[test]
fn a_score_above_the_threshold_is_a_report_and_no_error() {
    let png = png_of(&solid(1, 1, [1, 2, 3, 255]), png::ColorType::Rgba);
    let above = diff_renderers("s", png.clone(), png.clone(), 0.1, Compared::Above(0.5)).unwrap();
    assert!(!above.passed);
    assert_eq!(above.dssim_score, 0.5);
    let within = diff_renderers("s", png.clone(), png.clone(), 0.1, Compared::Within(0.0)).unwrap();
    assert!(within.passed);
    assert_eq!(decode_rgba(&within.composite_png).unwrap().width, 4);
    let failed: Result<_, DiffError> =
        diff_renderers("s", png.clone(), png, 0.1, Compared::Failed(DiffError::Compare("x".into())));
    assert!(matches!(failed, Err(DiffError::Compare(_))));
}

#[test]
fn a_story_is_named_by_its_category() {
    assert_eq!(sanitise("Hello, World!"), "Hello__World_");
    assert_eq!(sanitise(&sanitise("a b")), "a_b");
    assert!(matches!(sanitise("a_b-C9"), Cow::Borrowed("a_b-C9")));
    assert!(matches!(sanitise(""), Cow::Borrowed("")));
    assert!(matches!(sanitise("ä"), Cow::Owned(_)));
    assert_eq!(sanitise("ä  "), "___");
    assert_eq!(label_for(Some("Forms"), "Text box"), "Forms__Text_box");
    assert_eq!(label_for(None, "x"), "x");
    let files = artefacts_for(Some("a"), "b");
    assert_eq!(files.blitz, "a__b.blitz.png");
    assert_eq!(files.wry, "a__b.wry.png");
    assert_eq!(files.composite, "a__b.composite.png");
}
