use movenet_stream::color::yuyv422_to_rgb;

#[test]
fn mid_gray_has_three_equal_channels() {
    let rgb: Vec<u8> = yuyv422_to_rgb(&[128, 128, 128, 128]);
    assert_eq!(rgb, vec![130, 130, 130, 130, 130, 130]);
}

#[test]
fn neutral_chroma_stays_gray_for_every_luma() {
    let mut y: u16 = 0;
    while y < 256 {
        let rgb: Vec<u8> = yuyv422_to_rgb(&[y as u8, 128, y as u8, 128]);
        assert_eq!(rgb.len(), 6);
        assert_eq!(rgb[0], rgb[1]);
        assert_eq!(rgb[1], rgb[2]);
        assert_eq!(rgb[3], rgb[4]);
        assert_eq!(rgb[4], rgb[5]);
        y += 1;
    }
}

#[test]
fn studio_black_and_white_are_clamped() {
    assert_eq!(yuyv422_to_rgb(&[16, 128, 235, 128]), vec![0, 0, 0, 255, 255, 255]);
    assert_eq!(yuyv422_to_rgb(&[0, 128, 255, 128]), vec![0, 0, 0, 255, 255, 255]);
}

#[test]
fn pure_red_comes_out_blue_first() {
    // y = 81, u = 90, v = 240 is saturated red.
    assert_eq!(yuyv422_to_rgb(&[81, 90, 81, 240]), vec![0, 0, 255, 0, 0, 255]);
}

#[test]
fn the_two_pixels_of_a_pair_share_their_chroma() {
    // c1 = 84, c2 = 184, d = -28, e = 72
    // b1 = (25032 - 14448 + 128) >> 8 = 41, g1 = (25032 + 2800 - 14976 + 128) >> 8 = 50
    // r1 = (25032 + 29448 + 128) >> 8 = 213
    // b2 = (54832 - 14448 + 128) >> 8 = 158, g2 = (54832 + 2800 - 14976 + 128) >> 8 = 167
    // r2 = (54832 + 29448 + 128) >> 8 = 329 -> 255
    assert_eq!(yuyv422_to_rgb(&[100, 100, 200, 200]), vec![41, 50, 213, 158, 167, 255]);
}

#[test]
fn negative_intermediate_rounds_down_before_clamping() {
    // c = 4, d = -128, e = -128: b = (1192 - 66048 + 128) >> 8 = -253 -> 0
    // g = (1192 + 12800 + 26624 + 128) >> 8 = 159, r = (1192 - 52352 + 128) >> 8 = -200 -> 0
    assert_eq!(yuyv422_to_rgb(&[20, 0, 20, 0]), vec![0, 159, 0, 0, 159, 0]);
}

#[test]
fn output_is_three_halves_of_the_input() {
    assert_eq!(yuyv422_to_rgb(&[]), Vec::<u8>::new());
    assert_eq!(yuyv422_to_rgb(&[200]), vec![0]);
    assert_eq!(yuyv422_to_rgb(&[200, 1]), vec![0, 0, 0]);
    assert_eq!(yuyv422_to_rgb(&[200, 1, 2]), vec![0, 0, 0, 0]);
    assert_eq!(yuyv422_to_rgb(&[128, 128, 128, 128, 9]), vec![130, 130, 130, 130, 130, 130, 0]);
    assert_eq!(yuyv422_to_rgb(&[128, 128, 128, 128, 9, 9]).len(), 9);
    assert_eq!(yuyv422_to_rgb(&[128, 128, 128, 128, 9, 9, 9]).len(), 10);
    assert_eq!(yuyv422_to_rgb(&[128; 8]), vec![130; 12]);
}

#[test]
fn conversion_is_repeatable() {
    let mut input: Vec<u8> = Vec::new();
    let mut i: u32 = 0;
    while i < 4096 {
        input.push((i.wrapping_mul(2654435761) >> 13) as u8);
        i += 1;
    }
    let first: Vec<u8> = yuyv422_to_rgb(&input);
    let second: Vec<u8> = yuyv422_to_rgb(&input);
    assert_eq!(first, second);
    assert_eq!(first.len(), 6144);
}
