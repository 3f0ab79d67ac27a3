use abra::color::Color;

fn rgba(c: Color) -> (u8, u8, u8, u8) {
    c.rgba()
}

#[test]
fn constructors_set_channels() {
    assert_eq!(rgba(Color::default()), (0, 0, 0, 255));
    assert_eq!(rgba(Color::black()), (0, 0, 0, 255));
    assert_eq!(rgba(Color::from_rgb(1, 2, 3)), (1, 2, 3, 255));
    assert_eq!(rgba(Color::from_rgba(1, 2, 3, 4)), (1, 2, 3, 4));
    assert_eq!(rgba(Color::from((9u8, 8u8, 7u8))), (9, 8, 7, 255));
    assert_eq!(rgba(Color::from((9u8, 8u8, 7u8, 6u8))), (9, 8, 7, 6));
    assert_eq!(Color::from_rgb(4, 5, 6).rgb(), (4, 5, 6));
}

#[test]
fn named_colors() {
    assert_eq!(rgba(Color::transparent()), (0, 0, 0, 0));
    assert_eq!(rgba(Color::red()), (255, 0, 0, 255));
    assert_eq!(rgba(Color::crimson()), (220, 20, 60, 255));
    assert_eq!(rgba(Color::ruby()), (224, 17, 95, 255));
    assert_eq!(rgba(Color::pink()), (255, 192, 203, 255));
    assert_eq!(rgba(Color::magenta()), (255, 0, 255, 255));
    assert_eq!(rgba(Color::hot_pink()), (255, 105, 180, 255));
    assert_eq!(rgba(Color::green()), (0, 255, 0, 255));
    assert_eq!(rgba(Color::lime_green()), (50, 205, 50, 255));
    assert_eq!(rgba(Color::sea_green()), (46, 139, 87, 255));
    assert_eq!(rgba(Color::forest_green()), (34, 139, 34, 255));
    assert_eq!(rgba(Color::blue()), (0, 0, 255, 255));
    assert_eq!(rgba(Color::royal_blue()), (65, 105, 225, 255));
    assert_eq!(rgba(Color::sky_blue()), (135, 206, 235, 255));
    assert_eq!(rgba(Color::navy_blue()), (0, 0, 128, 255));
    assert_eq!(rgba(Color::yellow()), (255, 255, 0, 255));
    assert_eq!(rgba(Color::orange()), (255, 165, 0, 255));
    assert_eq!(rgba(Color::indigo()), (75, 0, 130, 255));
    assert_eq!(rgba(Color::violet()), (238, 130, 238, 255));
    assert_eq!(rgba(Color::white()), (255, 255, 255, 255));
    assert_eq!(rgba(Color::gray()), (128, 128, 128, 255));
}

#[test]
fn from_hex_takes_low_three_bytes() {
    assert_eq!(rgba(Color::from_hex(0x12ABCD)), (0x12, 0xAB, 0xCD, 255));
    assert_eq!(rgba(Color::from_hex(0xFF12ABCD)), (0x12, 0xAB, 0xCD, 255));
}

#[test]
fn from_hex_string_forms() {
    assert_eq!(rgba(Color::from_hex_string("#FF8000")), (255, 128, 0, 255));
    assert_eq!(rgba(Color::from_hex_string("ff8000")), (255, 128, 0, 255));
    assert_eq!(rgba(Color::from_hex_string("##ff8000")), (255, 128, 0, 255));
    assert_eq!(rgba(Color::from_hex_string("#1234abcd")), (0x12, 0x34, 0xab, 0xcd));
    // an unreadable six-character string reads as 0
    assert_eq!(rgba(Color::from_hex_string("#GG0000")), (0, 0, 0, 255));
    // a leading plus sign is accepted by the number reader
    assert_eq!(rgba(Color::from_hex_string("+12345")), (0x01, 0x23, 0x45, 255));
    // other lengths give opaque black
    assert_eq!(rgba(Color::from_hex_string("#fff")), (0, 0, 0, 255));
    assert_eq!(rgba(Color::from_hex_string("")), (0, 0, 0, 255));
}

#[test]
fn average_of_rgba_and_rgb_buffers() {
    // two RGBA pixels
    assert_eq!(rgba(Color::average(&[10, 20, 30, 0, 20, 41, 50, 0])), (15, 30, 40, 255));
    // three RGB pixels (length not a multiple of 4)
    assert_eq!(rgba(Color::average(&[0, 0, 0, 3, 3, 3, 7, 7, 7])), (3, 3, 3, 255));
    assert_eq!(rgba(Color::mean(&[10, 20, 30, 0, 20, 41, 50, 0])), (15, 30, 40, 255));
}

#[test]
fn median_picks_middle_sorted_value() {
    // RGB: 5 pixels, middle position 2
    let px = [9, 1, 1, 3, 2, 2, 7, 3, 3, 1, 4, 4, 5, 5, 5];
    assert_eq!(rgba(Color::median(&px)), (5, 3, 3, 255));
    // RGBA: 3 pixels, middle position 1
    let px4 = [1, 10, 100, 0, 2, 20, 200, 0, 3, 30, 150, 0];
    assert_eq!(rgba(Color::median(&px4)), (2, 20, 150, 255));
    let reds = [10, 0, 0, 255, 20, 0, 0, 255, 30, 0, 0, 255];
    assert_eq!(rgba(Color::median(&reds)), (20, 0, 0, 255));
    // RGBA: 4 pixels, middle position 2 (the upper of the two middle values)
    let px5 = [4, 0, 0, 0, 1, 0, 0, 0, 3, 0, 0, 0, 2, 0, 0, 0];
    assert_eq!(rgba(Color::median(&px5)), (3, 0, 0, 255));
}

#[test]
fn mode_picks_most_frequent_value() {
    let px = [7, 1, 2, 7, 1, 3, 9, 5, 3];
    assert_eq!(rgba(Color::mode(&px)), (7, 1, 3, 255));
}

#[test]
fn random_from_seed_is_the_generator_output() {
    assert_eq!(rgba(Color::random_from_seed(0)), (76, 207, 74, 255));
    assert_eq!(rgba(Color::random_from_seed(123456789)), (172, 205, 242, 255));
}

#[test]
fn from_hex_string_counts_bytes() {
    // six characters but seven bytes: not a colour length
    assert_eq!(rgba(Color::from_hex_string("\u{e9}12345")), (0, 0, 0, 255));
    // eight digits that overflow nothing read as RRGGBBAA
    assert_eq!(rgba(Color::from_hex_string("ffffffff")), (255, 255, 255, 255));
}

#[test]
fn color_text_lists_channels() {
    assert_eq!(Color::from_rgba(1, 22, 255, 0).to_string(), "Color { r: 1, g: 22, b: 255, a: 0 }\n");
    assert_eq!(Color::black().to_string(), "Color { r: 0, g: 0, b: 0, a: 255 }\n");
}
