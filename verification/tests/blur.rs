use image_processor::blur::blur;
use image_processor::blur::default_iterations;
use image_processor::blur::default_radius;
use image_processor::blur::parse_params;
use image_processor::blur::process_image;
use image_processor::blur::BlurError;
use image_processor::blur::Params;
use image_processor::weights::weight;
use image_processor::weights::WEIGHT_ONE;

#[test]
fn test_params_full_json() {
    let json = r#"{"radius": 5, "iterations": 3}"#;
    let params: Params = parse_params(json).expect("valid JSON");
    assert_eq!(params.radius, 5);
    assert_eq!(params.iterations, 3);
}

#[test]
fn test_params_empty_json() {
    let json = "{}";
    let params: Params = parse_params(json).expect("valid JSON");
    assert_eq!(params.radius, 1);
    assert_eq!(params.iterations, 1);
}

#[test]
fn test_params_partial_json_radius_only() {
    let json = r#"{"radius": 5}"#;
    let params: Params = parse_params(json).expect("valid JSON");
    assert_eq!(params.radius, 5);
    assert_eq!(params.iterations, 1);
}

#[test]
fn test_params_partial_json_iterations_only() {
    let json = r#"{"iterations": 3}"#;
    let params: Params = parse_params(json).expect("valid JSON");
    assert_eq!(params.radius, 1);
    assert_eq!(params.iterations, 3);
}

fn blur_image(data: &mut Vec<u8>, width: u32, height: u32, params_json: &str) {
    process_image(width, height, data, params_json);
}

fn create_4x4_sharp_edge() -> Vec<u8> {
    let mut data = vec![0u8; 4 * 4 * 4];
    for y in 0..4 {
        for x in 0..4 {
            let idx = (y * 4 + x) * 4;
            let value = if x < 2 { 0 } else { 255 };
            data[idx] = value;
            data[idx + 1] = value;
            data[idx + 2] = value;
            data[idx + 3] = 255;
        }
    }
    data
}

/// The blur as the formula gives it, in floating point: weights
/// `1 / (distance + 1)` over the window cut off at the borders.
fn reference_blur(data: &[u8], width: usize, height: usize, radius: i64, passes: u32) -> Vec<u8> {
    let mut current = data.to_vec();
    for _ in 0..passes {
        let mut next = vec![0u8; current.len()];
        for cy in 0..height as i64 {
            for cx in 0..width as i64 {
                let mut weight_sum = 0.0_f64;
                let mut color_sum = [0.0_f64; 4];
                for dy in -radius..=radius {
                    for dx in -radius..=radius {
                        let nx = cx + dx;
                        let ny = cy + dy;
                        if nx >= 0 && nx < width as i64 && ny >= 0 && ny < height as i64 {
                            let distance = ((dx * dx + dy * dy) as f64).sqrt();
                            let w = 1.0 / (distance + 1.0);
                            weight_sum += w;
                            let at = (ny as usize * width + nx as usize) * 4;
                            for channel in 0..4 {
                                color_sum[channel] += w * current[at + channel] as f64;
                            }
                        }
                    }
                }
                let at = (cy as usize * width + cx as usize) * 4;
                for channel in 0..4 {
                    next[at + channel] = (color_sum[channel] / weight_sum).round() as u8;
                }
            }
        }
        current = next;
    }
    current
}

#[test]
fn test_basic_blur() {
    let mut data = vec![
        0, 0, 0, 255, 0, 0, 0, 255, 0, 0, 0, 255, 0, 0, 0, 255, 255, 255, 255, 255, 0, 0, 0, 255,
        0, 0, 0, 255, 0, 0, 0, 255, 0, 0, 0, 255,
    ];
    let original = data.clone();

    blur_image(&mut data, 3, 3, r#"{"radius": 1, "iterations": 1}"#);

    assert_ne!(data, original, "Blur should modify the image");
    let center_idx = (1 * 3 + 1) * 4;
    assert!(data[center_idx] < 255, "Center pixel should be darker after blur");
}

#[test]
fn test_blur_smoothing() {
    let mut data = create_4x4_sharp_edge();
    let original = data.clone();

    blur_image(&mut data, 4, 4, r#"{"radius": 1, "iterations": 1}"#);

    let left_edge_idx = (1 * 4 + 1) * 4;
    assert!(data[left_edge_idx] > 0, "Left edge pixel should be lighter after blur");

    let right_edge_idx = (1 * 4 + 2) * 4;
    assert!(data[right_edge_idx] < 255, "Right edge pixel should be darker after blur");

    let original_diff = (original[right_edge_idx] as i32 - original[left_edge_idx] as i32).abs();
    let new_diff = (data[right_edge_idx] as i32 - data[left_edge_idx] as i32).abs();
    assert!(new_diff < original_diff, "Edge should be smoother after blur");
}

#[test]
fn test_zero_radius() {
    let mut data = create_4x4_sharp_edge();
    let original = data.clone();

    blur_image(&mut data, 4, 4, r#"{"radius": 0, "iterations": 1}"#);

    assert_eq!(data, original, "Image should not be modified when radius=0");
}

#[test]
fn test_zero_iterations() {
    let mut data = create_4x4_sharp_edge();
    let original = data.clone();

    blur_image(&mut data, 4, 4, r#"{"radius": 1, "iterations": 0}"#);

    assert_eq!(data, original, "Image should not be modified when iterations=0");
}

#[test]
fn test_multiple_iterations() {
    let mut data_single = create_4x4_sharp_edge();
    let mut data_multiple = create_4x4_sharp_edge();

    blur_image(&mut data_single, 4, 4, r#"{"radius": 1, "iterations": 1}"#);
    blur_image(&mut data_multiple, 4, 4, r#"{"radius": 1, "iterations": 3}"#);

    let edge_idx = (1 * 4 + 1) * 4;
    assert!(
        data_multiple[edge_idx] > data_single[edge_idx],
        "More iterations should increase blur effect"
    );

    assert_ne!(
        data_single, data_multiple,
        "Different iteration counts should produce different results"
    );
}

#[test]
fn lib_test_1x1_image() {
    let mut data = vec![128u8, 64, 32, 255];
    let original = data.clone();

    blur_image(&mut data, 1, 1, r#"{"radius": 1, "iterations": 1}"#);

    assert_eq!(data, original, "Single pixel image should remain unchanged");
}

#[test]
fn lib_test_invalid_json() {
    let mut data = create_4x4_sharp_edge();
    let original = data.clone();

    blur_image(&mut data, 4, 4, "not valid json {{{");

    assert_eq!(data, original, "Image should not be modified on invalid JSON");
}

#[test]
fn lib_test_empty_json() {
    let mut data = create_4x4_sharp_edge();
    let original = data.clone();

    blur_image(&mut data, 4, 4, "{}");

    assert_ne!(data, original, "Empty JSON should apply defaults and blur the image");
}

#[test]
fn defaults_are_one() {
    assert_eq!(default_radius(), 1);
    assert_eq!(default_iterations(), 1);
    assert_eq!(Params::default(), Params { radius: 1, iterations: 1 });
}

#[test]
fn blur_status_codes() {
    assert_eq!(BlurError::Success.code(), 0);
    assert_eq!(BlurError::ParseError.code(), -1);
    assert_eq!(BlurError::SizeOverflow.code(), -2);

    let mut data = create_4x4_sharp_edge();
    assert_eq!(process_image(4, 4, &mut data, "{}"), 0);
    assert_eq!(process_image(4, 4, &mut data, r#"{"radius": 0}"#), 0);
    assert_eq!(process_image(4, 4, &mut data, "not valid json {{{"), -1);
    assert_eq!(process_image(u32::MAX, u32::MAX, &mut data, "{}"), -2);
}

#[test]
fn unreadable_blur_parameters_are_refused() {
    assert_eq!(parse_params(""), None);
    assert_eq!(parse_params("[1, 1]"), None);
    assert_eq!(parse_params("3"), None);
    assert_eq!(parse_params(r#"{"radius": -1}"#), None);
    assert_eq!(parse_params(r#"{"radius": 1.5}"#), None);
    assert_eq!(parse_params(r#"{"radius": "1"}"#), None);
    assert_eq!(parse_params(r#"{"iterations": true}"#), None);
    assert_eq!(parse_params(r#"{"iterations": null}"#), None);
    assert_eq!(parse_params(r#"{"radius": 4294967296}"#), None);
    assert_eq!(
        parse_params(r#"{"radius": 4294967295, "iterations": 0}"#),
        Some(Params { radius: 4294967295, iterations: 0 })
    );
    assert_eq!(
        parse_params(r#"{"radius": 2, "unknown": {"a": 1}}"#),
        Some(Params { radius: 2, iterations: 1 })
    );

    let mut data = create_4x4_sharp_edge();
    let original = data.clone();
    assert_eq!(process_image(4, 4, &mut data, r#"{"radius": -1}"#), -1);
    assert_eq!(data, original);
}

#[test]
fn an_image_beyond_usize_is_not_blurred() {
    let mut data = vec![9u8, 8, 7, 6];
    let status = blur(u32::MAX, u32::MAX, &mut data, Params { radius: 1, iterations: 1 });
    assert_eq!(status, BlurError::SizeOverflow);
    assert_eq!(data, vec![9, 8, 7, 6]);
    let status = blur(u32::MAX, u32::MAX, &mut data, Params { radius: 0, iterations: 1 });
    assert_eq!(status, BlurError::Success);
    assert_eq!(data, vec![9, 8, 7, 6]);
}

#[test]
fn weights_are_one_over_distance_plus_one() {
    assert_eq!(WEIGHT_ONE, 1u64 << 54);
    assert_eq!(weight(0), 18014398509481984);
    assert_eq!(weight(1), 9007199254740992);
    assert_eq!(weight(2), 7461808180621106);
    assert_eq!(weight(4), 6004799503160661);
    assert_eq!(weight(5), 5566755282872655);
    assert_eq!(weight(9), 4503599627370496);
    for d2 in [2u128, 3, 5, 10, 1000, 123456789] {
        let expected = (1u64 << 54) as f64 / (1.0 + (d2 as f64).sqrt());
        let got = weight(d2) as f64;
        assert!((got - expected).abs() <= expected * 1e-12);
    }
    assert_eq!(weight(u128::MAX), 0);
}

#[test]
fn a_white_dot_spreads_by_the_weights() {
    let mut data = vec![
        0, 0, 0, 255, 0, 0, 0, 255, 0, 0, 0, 255, 0, 0, 0, 255, 255, 255, 255, 255, 0, 0, 0, 255,
        0, 0, 0, 255, 0, 0, 0, 255, 0, 0, 0, 255,
    ];
    let status = blur(3, 3, &mut data, Params { radius: 1, iterations: 1 });
    assert_eq!(status, BlurError::Success);
    assert_eq!(
        data,
        vec![
            44, 44, 44, 255, 38, 38, 38, 255, 44, 44, 44, 255, 38, 38, 38, 255, 55, 55, 55, 255,
            38, 38, 38, 255, 44, 44, 44, 255, 38, 38, 38, 255, 44, 44, 44, 255,
        ]
    );
}

#[test]
fn a_sharp_edge_softens_by_the_weights() {
    let mut once = create_4x4_sharp_edge();
    blur(4, 4, &mut once, Params { radius: 1, iterations: 1 });
    assert_eq!(once[0..16], [0, 0, 0, 255, 70, 70, 70, 255, 185, 185, 185, 255, 255, 255, 255, 255]);
    assert_eq!(once[16..32], [0, 0, 0, 255, 73, 73, 73, 255, 182, 182, 182, 255, 255, 255, 255, 255]);

    let mut thrice = create_4x4_sharp_edge();
    blur(4, 4, &mut thrice, Params { radius: 1, iterations: 3 });
    assert_eq!(thrice[0..16], [48, 48, 48, 255, 92, 92, 92, 255, 163, 163, 163, 255, 207, 207, 207, 255]);
    assert_eq!(thrice[16..32], [50, 50, 50, 255, 93, 93, 93, 255, 162, 162, 162, 255, 205, 205, 205, 255]);
}

#[test]
fn a_single_row_blurs_along_the_row() {
    let row = vec![10u8, 20, 30, 255, 1, 2, 3, 255, 200, 100, 50, 255];

    let mut data = row.clone();
    blur(3, 1, &mut data, Params { radius: 1, iterations: 1 });
    assert_eq!(data, vec![7, 14, 21, 255, 53, 31, 22, 255, 134, 67, 34, 255]);

    let mut data = row.clone();
    blur(3, 1, &mut data, Params { radius: 5, iterations: 1 });
    assert_eq!(data, vec![42, 30, 26, 255, 53, 31, 22, 255, 111, 59, 34, 255]);

    let mut data = row.clone();
    blur(1, 3, &mut data, Params { radius: 2, iterations: 2 });
    assert_eq!(data, vec![58, 36, 26, 255, 65, 38, 26, 255, 83, 46, 29, 255]);
}

#[test]
fn passes_follow_one_another() {
    let mut image = Vec::new();
    for i in 0..5 * 4 * 4 {
        image.push(((i * 37 + 11) % 251) as u8);
    }
    let mut twice = image.clone();
    blur(5, 4, &mut twice, Params { radius: 2, iterations: 2 });

    let mut stepwise = image.clone();
    blur(5, 4, &mut stepwise, Params { radius: 2, iterations: 1 });
    blur(5, 4, &mut stepwise, Params { radius: 2, iterations: 1 });
    assert_eq!(twice, stepwise);
    assert_eq!(twice, reference_blur(&image, 5, 4, 2, 2));
    assert_eq!(twice[0..8], [126, 111, 126, 112, 126, 125, 124, 112]);
}

#[test]
fn a_huge_radius_takes_in_the_whole_image() {
    let image = vec![0u8, 10, 20, 255, 100, 110, 120, 255, 200, 210, 220, 255, 50, 60, 70, 255];
    let mut wide = image.clone();
    blur(2, 2, &mut wide, Params { radius: u32::MAX, iterations: 1 });
    let mut near = image.clone();
    blur(2, 2, &mut near, Params { radius: 1, iterations: 1 });
    assert_eq!(wide, near);
    assert_eq!(wide, reference_blur(&image, 2, 2, 1, 1));
}

#[test]
fn the_length_of_the_buffer_stays() {
    for (width, height) in [(0u32, 0u32), (0, 3), (3, 0), (1, 1), (2, 5), (6, 3)] {
        let len = (width * height * 4) as usize;
        let mut data = vec![77u8; len];
        assert_eq!(blur(width, height, &mut data, Params { radius: 2, iterations: 2 }), BlurError::Success);
        assert_eq!(data.len(), len);
        assert_eq!(data, vec![77u8; len]);
    }
}
