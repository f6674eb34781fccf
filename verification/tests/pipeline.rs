//! The whole RotSprite pipeline through `rotsprite`, driven by degree angles.
//!
//! The library consumes an angle already reduced to plain data (a quarter-turn
//! count or an inverse-sampling table); these helpers perform that reduction
//! from a degree value with ordinary floating-point arithmetic, exactly as a
//! caller of the library would.

use rotsprite::rotate::{Angle, SampleGrid, SamplePoint};
use rotsprite::Error;

/// The inverse-rotation sampling table of a `width` by `height` buffer for a
/// degree angle that is not a multiple of 90 (pre-normalized into [0, 360)):
/// the rotated bounding box of the buffer and, per destination pixel, the
/// floor of its inverse-rotated source position.
fn sample_grid(width: usize, height: usize, rotation: f64) -> SampleGrid {
    let fwidth = width as f64;
    let fheight = height as f64;

    let radians = rotation.to_radians();
    let sin = radians.sin();
    let cos = radians.cos();

    let p1 = (-fheight * sin, fheight * cos);
    let p2 = (fwidth * cos - fheight * sin, fheight * cos + fwidth * sin);
    let p3 = (fwidth * cos, fwidth * sin);

    let min_x = [p1.0, p2.0, p3.0].iter().cloned().fold(0.0, f64::min);
    let min_y = [p1.1, p2.1, p3.1].iter().cloned().fold(0.0, f64::min);
    let max_x = if rotation > 90.0 && rotation < 180.0 {
        0.0
    } else {
        [p1.0, p2.0, p3.0].iter().cloned().fold(f64::NEG_INFINITY, f64::max)
    };
    let max_y = if rotation > 180.0 && rotation < 270.0 {
        0.0
    } else {
        [p1.1, p2.1, p3.1].iter().cloned().fold(f64::NEG_INFINITY, f64::max)
    };

    let result_width = (max_x.abs() - min_x).ceil();
    let result_height = (max_y.abs() - min_y).ceil();
    let gw = result_width as usize;
    let gh = result_height as usize;

    let mut points = Vec::with_capacity(gw * gh);
    for y in 0..gh {
        let y_with_min = y as f64 + min_y;
        let y_min_sin = y_with_min * sin;
        let y_min_cos = y_with_min * cos;
        for x in 0..gw {
            let x_with_min = x as f64 + min_x;
            let x_min_sin = x_with_min * sin;
            let x_min_cos = x_with_min * cos;
            let source_x = x_min_cos + y_min_sin;
            let source_y = y_min_cos - x_min_sin;
            points.push(SamplePoint {
                x: source_x.floor() as i64,
                y: source_y.floor() as i64,
            });
        }
    }
    SampleGrid { width: gw, height: gh, points }
}

/// Reduce a degree angle to the plain-data form the library consumes, for a
/// sprite of the given dimensions.
fn angle_of(width: usize, height: usize, rotation: f64) -> Angle {
    if rotation == 0.0 {
        return Angle::Turns { count: 0 };
    }
    let normalized = rotation.rem_euclid(360.0);
    if normalized % 90.0 == 0.0 {
        let count = if normalized == 0.0 {
            4
        } else {
            (normalized / 90.0) as i64
        };
        return Angle::Turns { count };
    }
    Angle::Sampled {
        grid: sample_grid(width * 8, height * 8, normalized),
    }
}

/// Run the pipeline from a buffer, width and degree angle, as a caller would.
fn rotsprite_degrees(
    buf: &Vec<i32>,
    empty_color: &i32,
    width: usize,
    rotation: f64,
) -> Result<(usize, usize, Vec<i32>), Error> {
    let height = buf.len() / width;
    rotsprite::rotsprite(buf, empty_color, width, &angle_of(width, height, rotation))
}

#[test]
fn rotation_equality() -> Result<(), Error> {
    let buf = [1, 2, 3, 4, 5, 6].to_vec();
    assert_eq!(
        rotsprite_degrees(&buf, &0, 3, 45.0)?,
        rotsprite_degrees(&buf, &0, 3, 45.0 + 360.0)?
    );
    assert_eq!(
        rotsprite_degrees(&buf, &0, 3, 45.0)?,
        rotsprite_degrees(&buf, &0, 3, 45.0 - 360.0)?
    );
    assert_eq!(
        rotsprite_degrees(&buf, &0, 3, 12.0)?,
        rotsprite_degrees(&buf, &0, 3, 12.0 - 360.0)?
    );

    Ok(())
}

#[test]
fn rotation_size() -> Result<(), Error> {
    let buf = [1, 2, 3, 4, 5, 6].to_vec();
    let (w, h, _) = rotsprite_degrees(&buf, &0, 3, 45.0)?;
    assert_eq!(w, 4);
    assert_eq!(h, 4);
    let (w, h, _) = rotsprite_degrees(&buf, &0, 3, 90.0)?;
    assert_eq!(w, 2);
    assert_eq!(h, 3);
    let (w, h, _) = rotsprite_degrees(&buf, &0, 3, 180.0)?;
    assert_eq!(w, 3);
    assert_eq!(h, 2);

    Ok(())
}

#[test]
fn rotation_test() -> Result<(), Error> {
    let buf = [1, 2, 3, 4, 5, 6].to_vec();
    let (w, h, new) = rotsprite_degrees(&buf, &0, 3, 90.0)?;
    assert_eq!(w, 2);
    assert_eq!(h, 3);
    assert_eq!(new, [4, 1, 5, 2, 6, 3]);

    Ok(())
}

#[test]
fn rotation_180_test() -> Result<(), Error> {
    let buf = [1, 2, 3, 4, 5, 6].to_vec();
    let (w, h, new) = rotsprite_degrees(&buf, &0, 3, 180.0)?;
    assert_eq!(w, 3);
    assert_eq!(h, 2);
    assert_eq!(new, [6, 5, 4, 3, 2, 1]);

    Ok(())
}

#[test]
fn rotation_270_test() -> Result<(), Error> {
    let buf = [1, 2, 3, 4, 5, 6].to_vec();
    let (w, h, new) = rotsprite_degrees(&buf, &0, 3, 270.0)?;
    assert_eq!(w, 2);
    assert_eq!(h, 3);
    assert_eq!(new, [3, 6, 2, 5, 1, 4]);

    Ok(())
}

#[test]
fn no_rotation_test() -> Result<(), Error> {
    let buf = [1, 0, 0, 1, 1, 0].to_vec();
    let (w, h, new) = rotsprite_degrees(&buf, &-1, 2, 0.0)?;
    assert_eq!(w, 2);
    assert_eq!(h, 3);
    assert_eq!(buf, new);

    Ok(())
}

#[test]
fn size_mismatch_error_test() {
    assert_eq!(
        rotsprite_degrees(&[0, 0, 0, 0, 0].to_vec(), &-1, 2, 1.0).unwrap_err(),
        Error::ImageSizeMismatch
    );
}

#[test]
fn quarter_turn_counts_are_periodic() -> Result<(), Error> {
    let buf = [1, 2, 3, 4, 5, 6].to_vec();
    assert_eq!(
        rotsprite_degrees(&buf, &0, 3, 90.0)?,
        rotsprite_degrees(&buf, &0, 3, 450.0)?
    );
    assert_eq!(
        rotsprite_degrees(&buf, &0, 3, 90.0)?,
        rotsprite_degrees(&buf, &0, 3, -270.0)?
    );

    Ok(())
}

#[test]
fn full_turn_runs_the_pipeline() -> Result<(), Error> {
    // The exact zero angle returns the buffer unchanged, while a full
    // 360-degree turn runs the magnify-decimate pipeline. The two agree on
    // most buffers, but the Scale2x corner rule can move an edge color into
    // the corner of a block that decimation then samples: here the lone 5's
    // top-left corner takes the color of the 1s along its edge.
    let buf = vec![
        1, 1, 2, //
        1, 5, 2, //
        2, 2, 2,
    ];
    let (_, _, zero) = rotsprite_degrees(&buf, &0, 3, 0.0)?;
    let (w, h, full) = rotsprite_degrees(&buf, &0, 3, 360.0)?;
    assert_eq!(zero, buf);
    assert_eq!(w, 3);
    assert_eq!(h, 3);
    assert_eq!(full[4], 1);

    Ok(())
}

#[test]
fn rotated_bounding_box_is_monotonic() -> Result<(), Error> {
    // A 45-degree rotation may not shrink either dimension below the larger
    // input dimension.
    let buf = vec![9; 16];
    let (w, h, _) = rotsprite_degrees(&buf, &0, 4, 45.0)?;
    assert!(w >= 4);
    assert!(h >= 4);

    let buf = vec![7; 6];
    let (w, h, _) = rotsprite_degrees(&buf, &0, 3, 45.0)?;
    assert!(w >= 3);
    assert!(h >= 3);

    Ok(())
}

#[test]
fn output_length_matches_dimensions() -> Result<(), Error> {
    let buf = [1, 2, 3, 4, 5, 6].to_vec();
    for degrees in [0.0, 12.0, 45.0, 90.0, 135.0, 222.5, 270.0, 359.0] {
        let (w, h, pixels) = rotsprite_degrees(&buf, &0, 3, degrees)?;
        assert_eq!(w * h, pixels.len());
    }

    Ok(())
}

#[test]
fn general_angle_uses_only_input_colors_or_empty() -> Result<(), Error> {
    let buf = [1, 2, 3, 4, 5, 6].to_vec();
    let empty = -7;
    let (_, _, pixels) = rotsprite_degrees(&buf, &empty, 3, 33.0)?;
    for p in &pixels {
        assert!(*p == empty || buf.contains(p));
    }

    Ok(())
}
