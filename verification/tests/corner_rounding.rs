use social_card::corner::{round_corner, round_corners, round_corners_checked, Corner};
use social_card::raster::Raster;
use social_card::ProcessError;

fn opaque_raster(w: u32, h: u32) -> Raster {
    Raster::new(w, h, 10, 20, 30, 255)
}

#[test]
fn radius_zero_is_identity_on_bytes() {
    let mut ras = Raster::new(8, 8, 1, 2, 3, 200);
    ras.set_alpha(0, 0, 7);
    ras.set_alpha(5, 3, 130);
    let before = ras.data().clone();
    round_corners(&mut ras, 0);
    assert_eq!(&before, ras.data());
}

#[test]
fn radius_zero_single_corner_is_identity() {
    let mut ras = Raster::new(6, 4, 9, 9, 9, 44);
    let before = ras.data().clone();
    round_corner(&mut ras, 0, Corner::TopLeft);
    assert_eq!(&before, ras.data());
}

#[test]
fn hundred_by_hundred_radius_twenty_quadrant() {
    let mut ras = opaque_raster(100, 100);
    round_corners(&mut ras, 20);
    // The outermost corner pixel is fully outside the arc.
    assert_eq!(ras.alpha_at(0, 0), 0);
    // The innermost pixel of the corner block is fully inside.
    assert_eq!(ras.alpha_at(19, 19), 255);
    // Some pixel of the block straddles the arc and is partially scaled.
    let mut found_partial = false;
    for x in 0..20 {
        for y in 0..20 {
            let a = ras.alpha_at(x, y);
            if a > 0 && a < 255 {
                found_partial = true;
            }
        }
    }
    assert!(found_partial);
}

#[test]
fn far_outside_pixel_cleared_and_rgb_untouched() {
    let mut ras = opaque_raster(100, 100);
    round_corners(&mut ras, 20);
    // Local pixel (4, 4): its near corner sits at distance sqrt(450) >= 20
    // from the arc center, so it is wholly outside.
    assert_eq!(ras.alpha_at(4, 4), 0);
    // The color channels of every pixel are untouched.
    for x in 0..100 {
        for y in 0..100 {
            assert_eq!(ras.channel_at(x, y, 0), 10);
            assert_eq!(ras.channel_at(x, y, 1), 20);
            assert_eq!(ras.channel_at(x, y, 2), 30);
        }
    }
}

#[test]
fn pixels_outside_corner_blocks_untouched() {
    let mut ras = opaque_raster(100, 100);
    round_corners(&mut ras, 20);
    for x in 0..100 {
        for y in 0..100 {
            let in_tl = x < 20 && y < 20;
            let in_tr = x >= 80 && y < 20;
            let in_br = x >= 80 && y >= 80;
            let in_bl = x < 20 && y >= 80;
            if !(in_tl || in_tr || in_br || in_bl) {
                assert_eq!(ras.alpha_at(x, y), 255);
            }
        }
    }
}

#[test]
fn unit_radius_boundary_alpha_exact() {
    // A 2x2 raster with radius 1: each corner block is the single pixel
    // whose sub-sample coverage of the quarter circle is 203 of 256,
    // scaling alpha 255 to (203 * 255 + 128) / 256 = 202.
    let mut ras = opaque_raster(2, 2);
    round_corners(&mut ras, 1);
    assert_eq!(ras.alpha_at(0, 0), 202);
    assert_eq!(ras.alpha_at(1, 0), 202);
    assert_eq!(ras.alpha_at(0, 1), 202);
    assert_eq!(ras.alpha_at(1, 1), 202);
}

#[test]
fn four_corner_masks_are_rotations() {
    let n: u32 = 64;
    let r: u32 = 10;
    let mut ras = Raster::new(n, n, 0, 0, 0, 180);
    round_corners(&mut ras, r);
    for i in 0..r {
        for j in 0..r {
            let a = ras.alpha_at(i, j);
            assert_eq!(a, ras.alpha_at(n - 1 - j, i));
            assert_eq!(a, ras.alpha_at(n - 1 - i, n - 1 - j));
            assert_eq!(a, ras.alpha_at(j, n - 1 - i));
        }
    }
}

#[test]
fn second_pass_stable_off_boundary() {
    let n: u32 = 64;
    let r: u32 = 10;
    let mut ras = opaque_raster(n, n);
    round_corners(&mut ras, r);
    let first: Vec<u8> = ras.data().clone();
    round_corners(&mut ras, r);
    for x in 0..n {
        for y in 0..n {
            let a1 = first[(4 * (y * n + x) + 3) as usize];
            let a2 = ras.alpha_at(x, y);
            // Alpha already forced to zero stays zero.
            if a1 == 0 {
                assert_eq!(a2, 0);
            }
            // Fully covered pixels (alpha kept at 255) are untouched again.
            if a1 == 255 {
                assert_eq!(a2, 255);
            }
        }
    }
}

#[test]
fn checked_rounding_rejects_large_radius() {
    let mut ras = opaque_raster(10, 6);
    let before = ras.data().clone();
    // Twice the radius exceeds the height: rejected, raster untouched.
    let res = round_corners_checked(&mut ras, 4);
    assert_eq!(res, Err(ProcessError::PreconditionViolation));
    assert_eq!(&before, ras.data());
    // A radius that fits both dimensions is accepted. The outermost corner
    // pixel straddles the arc at this radius, so its alpha drops below full.
    let res = round_corners_checked(&mut ras, 3);
    assert_eq!(res, Ok(()));
    assert!(ras.alpha_at(0, 0) < 255);
}

#[test]
fn single_corner_touches_only_its_block() {
    let mut ras = opaque_raster(16, 16);
    round_corner(&mut ras, 4, Corner::BottomRight);
    // The opposite corner block is untouched.
    assert_eq!(ras.alpha_at(0, 0), 255);
    assert_eq!(ras.alpha_at(15, 0), 255);
    assert_eq!(ras.alpha_at(0, 15), 255);
    // The bottom-right outermost pixel is cleared.
    assert_eq!(ras.alpha_at(15, 15), 0);
}
