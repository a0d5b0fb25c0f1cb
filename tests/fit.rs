use papdieo::config::FitMode;
use papdieo::fit::{crop_rgba, fit_plan, render_image_fit, FitError, FitPlan, SourceImage};

fn solid(w: u32, h: u32, px: [u8; 4]) -> SourceImage {
    let pixels = px.iter().copied().cycle().take((w * h * 4) as usize).collect();
    SourceImage { width: w, height: h, pixels }
}

#[test]
fn cover_plan_wide_output() {
    let p = fit_plan(3000, 2000, 1920, 1080, FitMode::Cover).unwrap();
    assert_eq!(p, FitPlan { resize_w: 1920, resize_h: 1280, x: 0, y: 100 });
}

#[test]
fn cover_plan_tall_source_rounds_up() {
    let p = fit_plan(1000, 3, 10, 10, FitMode::Fill).unwrap();
    assert_eq!(p, FitPlan { resize_w: 3334, resize_h: 10, x: 1662, y: 0 });
}

#[test]
fn contain_plan_same_aspect_fills_output() {
    let p = fit_plan(1600, 900, 1920, 1080, FitMode::Contain).unwrap();
    assert_eq!(p, FitPlan { resize_w: 1920, resize_h: 1080, x: 0, y: 0 });
}

#[test]
fn contain_plan_letterboxes_rows() {
    let p = fit_plan(1600, 750, 1920, 1080, FitMode::Fit).unwrap();
    assert_eq!(p, FitPlan { resize_w: 1920, resize_h: 900, x: 0, y: 90 });
}

#[test]
fn contain_plan_pillarboxes_and_rounds() {
    let p = fit_plan(3, 2, 10, 10, FitMode::Contain).unwrap();
    assert_eq!(p, FitPlan { resize_w: 10, resize_h: 7, x: 0, y: 1 });
    let q = fit_plan(1, 1000, 10, 10, FitMode::Contain).unwrap();
    assert_eq!(q, FitPlan { resize_w: 1, resize_h: 10, x: 4, y: 0 });
}

#[test]
fn stretch_plan_is_output() {
    let p = fit_plan(7, 3, 10, 20, FitMode::Stretch).unwrap();
    assert_eq!(p, FitPlan { resize_w: 10, resize_h: 20, x: 0, y: 0 });
}

#[test]
fn crop_takes_window() {
    // 3x2 image, pixel value = index
    let src: Vec<u8> = (0u8..24).collect();
    let out = crop_rgba(&src, 3, 2, 1, 1, 2, 1);
    assert_eq!(out, vec![16, 17, 18, 19, 20, 21, 22, 23]);
}

#[test]
fn every_mode_gives_output_size() {
    let img = solid(30, 20, [10, 20, 30, 255]);
    for fit in [FitMode::Stretch, FitMode::Fill, FitMode::Cover, FitMode::Fit, FitMode::Contain] {
        let f = render_image_fit(&img, 16, 9, fit).unwrap();
        assert_eq!((f.width, f.height), (16, 9));
        assert_eq!(f.pixels.len(), 16 * 9 * 4);
    }
}

#[test]
fn contain_leaves_black_bands() {
    let img = solid(4, 2, [200, 0, 0, 255]);
    let f = render_image_fit(&img, 8, 8, FitMode::Contain).unwrap();
    for y in 0..8usize {
        for x in 0..8usize {
            let i = 4 * (y * 8 + x);
            let px = &f.pixels[i..i + 4];
            if (2..6).contains(&y) {
                assert_eq!(px[3], 255, "pixel {x},{y}");
                assert!(px[0] > 150);
            } else {
                assert_eq!(px, &[0, 0, 0, 255], "pixel {x},{y}");
            }
        }
    }
}

#[test]
fn cover_has_no_bands() {
    let img = solid(4, 2, [0, 0, 200, 255]);
    let f = render_image_fit(&img, 8, 8, FitMode::Cover).unwrap();
    for px in f.pixels.chunks(4) {
        assert_eq!(px[3], 255);
        assert!(px[2] > 150);
    }
}

#[test]
fn fit_errors() {
    let img = solid(4, 2, [1, 2, 3, 255]);
    assert_eq!(render_image_fit(&img, 0, 8, FitMode::Cover).err(), Some(FitError::BadGeometry));
    let empty = SourceImage { width: 0, height: 0, pixels: Vec::new() };
    assert_eq!(render_image_fit(&empty, 8, 8, FitMode::Cover).err(), Some(FitError::BadSource));
    let short = SourceImage { width: 2, height: 2, pixels: vec![0; 15] };
    assert_eq!(render_image_fit(&short, 8, 8, FitMode::Cover).err(), Some(FitError::BadSource));
    assert_eq!(
        render_image_fit(&img, 100_000, 100_000, FitMode::Stretch).err(),
        Some(FitError::TooLarge)
    );
}

#[test]
fn cover_crops_centred_window() {
    let mut pixels = Vec::new();
    for y in 0..4u8 {
        for x in 0..2u8 {
            pixels.extend_from_slice(&[y * 10, x, 0, 255]);
        }
    }
    let img = SourceImage { width: 2, height: 4, pixels };
    let f = render_image_fit(&img, 2, 2, FitMode::Cover).unwrap();
    assert_eq!(f.pixels, vec![10, 0, 0, 255, 10, 1, 0, 255, 20, 0, 0, 255, 20, 1, 0, 255]);
}

#[test]
fn fitted_frames_are_opaque() {
    let img = solid(5, 3, [40, 50, 60, 0]);
    for fit in [FitMode::Stretch, FitMode::Cover, FitMode::Contain] {
        let f = render_image_fit(&img, 7, 4, fit).unwrap();
        assert!(f.pixels.chunks(4).all(|px| px[3] == 255), "{:?}", fit);
    }
}

#[test]
fn stretch_resamples_to_output() {
    let img = solid(3, 3, [9, 8, 7, 255]);
    let f = render_image_fit(&img, 6, 2, FitMode::Stretch).unwrap();
    assert_eq!(f.pixels.len(), 6 * 2 * 4);
    assert!(f.pixels.chunks(4).all(|px| px == [9, 8, 7, 255]));
}
