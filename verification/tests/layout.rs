use social_card::compose::{
    build_plan, description_color_channel, description_position, headline_position,
    BRIGHTEN_DELTA, DESCRIPTION_GAP, TARGET_HEIGHT, TARGET_WIDTH,
};
use social_card::raster::Raster;
use social_card::ProcessError;

#[test]
fn headline_centering_on_card() {
    // (2251 - 251) / 2 = 1000, biased left: 1000 / 7 = 142; (432 - 32) / 2 = 200.
    let (x, y) = headline_position(2251, 432, 251, 32);
    assert_eq!(x, 142);
    assert_eq!(y, 200);
}

#[test]
fn headline_centering_with_oversized_text() {
    // Text wider than the image: (100 - 300) / 2 = -100, truncating; -100 / 7
    // truncates toward zero to -14.
    let (x, y) = headline_position(100, 100, 300, 10);
    assert_eq!(x, -14);
    assert_eq!(y, 45);
}

#[test]
fn description_sits_below_headline() {
    let (x, y) = description_position(142, 200, 16);
    assert_eq!(x, 142);
    assert_eq!(y, 200 + 16 + DESCRIPTION_GAP);
}

#[test]
fn description_color_offset_policy() {
    // Offset 0 yields pure white, 255 yields black, and anything above 255 is
    // clamped to black rather than rejected.
    assert_eq!(description_color_channel(0), 255);
    assert_eq!(description_color_channel(255), 0);
    assert_eq!(description_color_channel(300), 0);
    assert_eq!(description_color_channel(1), 254);
}

#[test]
fn plan_carries_all_parameters() {
    let plan = build_plan(40, 20, 0, 251, 32, 16).unwrap();
    assert_eq!(plan.target_width, TARGET_WIDTH);
    assert_eq!(plan.target_height, TARGET_HEIGHT);
    assert_eq!(plan.brighten_delta, BRIGHTEN_DELTA);
    assert_eq!(plan.headline_x, 142);
    assert_eq!(plan.headline_y, 200);
    assert_eq!(plan.description_x, 142);
    assert_eq!(plan.description_y, 246);
    assert_eq!(plan.description_font_size, 20);
    assert_eq!(plan.description_channel, 255);
    assert_eq!(plan.radius, 20);
}

#[test]
fn plan_rejects_radius_beyond_half_height() {
    // 2 * 217 = 434 exceeds the card height of 432.
    let res = build_plan(40, 217, 0, 0, 0, 0);
    assert!(matches!(res, Err(ProcessError::PreconditionViolation)));
    // 2 * 216 = 432 just fits.
    assert!(build_plan(40, 216, 0, 0, 0, 0).is_ok());
}

#[test]
fn raster_construction_and_wrapping() {
    let ras = Raster::new(3, 2, 1, 2, 3, 4);
    assert_eq!(ras.width(), 3);
    assert_eq!(ras.height(), 2);
    assert_eq!(ras.data().len(), 24);
    assert_eq!(ras.channel_at(2, 1, 0), 1);
    assert_eq!(ras.channel_at(2, 1, 1), 2);
    assert_eq!(ras.channel_at(2, 1, 2), 3);
    assert_eq!(ras.alpha_at(2, 1), 4);

    assert!(Raster::from_parts(3, 2, vec![0u8; 23]).is_none());
    let wrapped = Raster::from_parts(3, 2, vec![9u8; 24]).unwrap();
    assert_eq!(wrapped.width(), 3);
    assert_eq!(wrapped.height(), 2);
    assert_eq!(wrapped.alpha_at(0, 0), 9);
}
