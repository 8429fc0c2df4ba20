use ferrotoken::color::{close_enough, distance_srgb_scaled, try_parse_rgba, Color};

#[test]
fn test_can_parse_hex_color_string() {
    assert_eq!(try_parse_rgba("#ff00ff").unwrap(), Color::new(255, 0, 255, 255));
}

#[test]
fn test_invalid_color_fails_parse() {
    assert!(try_parse_rgba("literal garbage").is_none());
}

#[test]
fn parses_without_hash_and_in_either_case() {
    assert_eq!(try_parse_rgba("FF00FF"), Some(Color::new(255, 0, 255, 255)));
    assert_eq!(try_parse_rgba("#12aB9c"), Some(Color::new(0x12, 0xab, 0x9c, 255)));
}

#[test]
fn rejects_malformed_colors() {
    assert!(try_parse_rgba("").is_none());
    assert!(try_parse_rgba("#12345").is_none());
    assert!(try_parse_rgba("#1234567").is_none());
    assert!(try_parse_rgba("##12345").is_none());
    assert!(try_parse_rgba("#12345g").is_none());
    assert!(try_parse_rgba(" 123456").is_none());
    assert!(try_parse_rgba("123456\n").is_none());
}

#[test]
fn distance_to_self_is_zero() {
    for c in [Color::new(0, 0, 0, 0), Color::new(255, 0, 255, 255), Color::new(12, 200, 77, 3)] {
        assert_eq!(distance_srgb_scaled(c, c), 0);
        assert!(close_enough(c, c));
    }
}

#[test]
fn distance_is_asymmetric() {
    let red = Color::new(255, 0, 0, 255);
    let black = Color::new(0, 0, 0, 255);
    assert_eq!(distance_srgb_scaled(red, black), 1279 * 65025);
    assert_eq!(distance_srgb_scaled(black, red), 769 * 65025);
    let a = Color::new(10, 0, 10, 255);
    let b = Color::new(0, 0, 0, 255);
    assert_eq!(distance_srgb_scaled(a, b), distance_srgb_scaled(b, a));
}

#[test]
fn distance_ignores_alpha() {
    let a = Color::new(1, 2, 3, 0);
    let b = Color::new(1, 2, 3, 255);
    assert_eq!(distance_srgb_scaled(a, b), 0);
}

#[test]
fn tolerance_boundary() {
    let black = Color::new(0, 0, 0, 255);
    assert_eq!(distance_srgb_scaled(black, Color::new(0, 25, 0, 255)), 1_280_000);
    assert!(close_enough(black, Color::new(0, 25, 0, 255)));
    assert!(!close_enough(black, Color::new(0, 26, 0, 255)));
    assert_eq!(distance_srgb_scaled(Color::new(3, 1, 250, 0), Color::new(0, 0, 0, 0)), 1027 * 9 + 2048 + 1531 * 62500);
}
