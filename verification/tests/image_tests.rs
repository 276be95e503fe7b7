//! Store images: advisory dimension validation, verbatim copying, and the
//! deterministic placeholder plan.

use cargo_devcade::images::{
    centered_offset, dimension_warning, expected_dimensions, fallback_plan, plan_store_image,
    StoreImageAction, StoreImageKind,
};
use cargo_devcade::warning::Warning;

fn png_bytes(width: u32, height: u32) -> Vec<u8> {
    let img = image::RgbImage::new(width, height);
    let mut out = Vec::new();
    image::DynamicImage::ImageRgb8(img)
        .write_to(&mut std::io::Cursor::new(&mut out), image::ImageFormat::Png)
        .unwrap();
    out
}

#[test]
fn expected_canvas_sizes() {
    assert_eq!(expected_dimensions(StoreImageKind::Icon), (512, 512));
    assert_eq!(expected_dimensions(StoreImageKind::Banner), (800, 450));
}

#[test]
fn non_square_icon_warns_but_is_copied_unmodified() {
    let supplied = png_bytes(100, 200);
    let (action, warning) =
        plan_store_image(StoreImageKind::Icon, "asteroids", Some(supplied.clone())).unwrap();
    assert_eq!(warning, Some(Warning::NonSquareIcon { width: 100, height: 200 }));
    match action {
        StoreImageAction::CopyVerbatim { bytes } => assert_eq!(bytes, supplied),
        _ => panic!("a supplied image must be copied, never rejected"),
    }
}

#[test]
fn square_icon_passes_silently() {
    let supplied = png_bytes(300, 300);
    let (action, warning) =
        plan_store_image(StoreImageKind::Icon, "asteroids", Some(supplied.clone())).unwrap();
    assert_eq!(warning, None);
    assert!(matches!(action, StoreImageAction::CopyVerbatim { .. }));
}

#[test]
fn banner_dimensions_are_checked_exactly() {
    let odd = png_bytes(850, 400);
    let (_, warning) =
        plan_store_image(StoreImageKind::Banner, "asteroids", Some(odd)).unwrap();
    assert_eq!(warning, Some(Warning::BannerDimensionMismatch { width: 850, height: 400 }));
    let exact = png_bytes(800, 450);
    let (_, warning) =
        plan_store_image(StoreImageKind::Banner, "asteroids", Some(exact)).unwrap();
    assert_eq!(warning, None);
}

#[test]
fn unreadable_bytes_are_fatal() {
    let junk = b"this is not a png".to_vec();
    assert!(plan_store_image(StoreImageKind::Icon, "asteroids", Some(junk)).is_err());
}

#[test]
fn dimension_warning_matches_plan_store_image() {
    assert_eq!(dimension_warning(StoreImageKind::Icon, 128, 128), None);
    assert_eq!(
        dimension_warning(StoreImageKind::Icon, 100, 200),
        Some(Warning::NonSquareIcon { width: 100, height: 200 })
    );
    assert_eq!(dimension_warning(StoreImageKind::Banner, 800, 450), None);
}

#[test]
fn missing_icon_synthesizes_at_512() {
    let (action, warning) = plan_store_image(StoreImageKind::Icon, "asteroids", None).unwrap();
    assert_eq!(warning, Some(Warning::MissingStoreImage { kind: StoreImageKind::Icon }));
    match action {
        StoreImageAction::Synthesize { plan } => {
            assert_eq!(plan.width, 512);
            assert_eq!(plan.height, 512);
            // width / ((9 / 1.5) * 0.8) == 15 * 512 / (8 * 9)
            assert_eq!(plan.scale.num, 15 * 512);
            assert_eq!(plan.scale.den, 8 * 9);
        },
        _ => panic!("a missing icon must be synthesized"),
    }
}

#[test]
fn missing_banner_uses_the_width_derived_scale_for_long_names() {
    let (action, _) = plan_store_image(StoreImageKind::Banner, "asteroids", None).unwrap();
    match action {
        StoreImageAction::Synthesize { plan } => {
            assert_eq!(plan.width, 800);
            assert_eq!(plan.height, 450);
            // 75 * 800 <= 32 * 450 * 9, so the width-derived scale wins.
            assert_eq!(plan.scale.num, 15 * 800);
            assert_eq!(plan.scale.den, 8 * 9);
        },
        _ => panic!("a missing banner must be synthesized"),
    }
}

#[test]
fn short_names_hit_the_banner_height_clamp() {
    // 75 * 800 > 32 * 450 * 2: the scale is clamped to 0.8 * height.
    let plan = fallback_plan(StoreImageKind::Banner, 2);
    assert_eq!(plan.scale.num, 4 * 450);
    assert_eq!(plan.scale.den, 5);
}

#[test]
fn centering_offsets() {
    // offset = (imageDim - textDim) / 2
    assert_eq!(centered_offset(512, 100), 206);
    assert_eq!(centered_offset(512, 101), 205);
    assert_eq!(centered_offset(450, 51), 199);
    assert_eq!(centered_offset(100, 300), -100);
    assert_eq!(centered_offset(100, 301), -101);
}

#[test]
fn fallback_plan_is_deterministic() {
    let a = fallback_plan(StoreImageKind::Icon, 9);
    let b = fallback_plan(StoreImageKind::Icon, 9);
    assert_eq!(a, b);
    let c = fallback_plan(StoreImageKind::Banner, 9);
    let d = fallback_plan(StoreImageKind::Banner, 9);
    assert_eq!(c, d);
    assert_eq!(centered_offset(512, 77), centered_offset(512, 77));
}
