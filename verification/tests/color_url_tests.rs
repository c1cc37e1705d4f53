use wizard_shell::colors::{color_rgb, icon_relative_path, validate_color};
use wizard_shell::urlcheck::validate_endpoint_url;

const VALID: [&str; 7] = ["red", "orange", "yellow", "green", "blue", "indigo", "violet"];

#[test]
fn validate_color_accepts_all_seven() {
    for c in VALID {
        assert!(validate_color(c).is_ok(), "{c} should be valid");
    }
}

#[test]
fn validate_color_rejects_everything_else_listing_all_names() {
    for bad in ["", "teal", "Red", "GREEN", "redd", "viole", " red", "red "] {
        let e = validate_color(bad).unwrap_err();
        assert_eq!(
            e,
            format!(
                "Invalid color '{}'. Valid colors: red, orange, yellow, green, blue, indigo, violet",
                bad
            ),
        );
        for c in VALID {
            assert!(e.contains(c), "message must list {c}");
        }
    }
}

#[test]
fn color_rgb_returns_values_for_exactly_the_seven_names() {
    for c in VALID {
        assert!(color_rgb(c).is_some(), "{c} should have a color value");
    }
    for bad in ["", "teal", "Red", "cyan", "magenta"] {
        assert!(color_rgb(bad).is_none(), "{bad} should have no color value");
    }
}

#[test]
fn color_rgb_matches_the_fixed_table() {
    assert_eq!(color_rgb("red"), Some((0xe5, 0x3e, 0x3e)));
    assert_eq!(color_rgb("orange"), Some((0xed, 0x89, 0x36)));
    assert_eq!(color_rgb("yellow"), Some((0xec, 0xc9, 0x4b)));
    assert_eq!(color_rgb("green"), Some((0x38, 0xa1, 0x69)));
    assert_eq!(color_rgb("blue"), Some((0x31, 0x82, 0xce)));
    assert_eq!(color_rgb("indigo"), Some((0x5a, 0x67, 0xd8)));
    assert_eq!(color_rgb("violet"), Some((0x9f, 0x7a, 0xea)));
}

#[test]
fn color_rgb_components_normalize_into_unit_range() {
    for c in VALID {
        let (r, g, b) = color_rgb(c).unwrap();
        for v in [r, g, b] {
            let f = v as f64 / 255.0;
            assert!((0.0..=1.0).contains(&f));
        }
    }
}

#[test]
fn icon_path_follows_the_resource_convention() {
    assert_eq!(icon_relative_path("blue"), "icons/colors/blue/128x128@2x.png");
    assert_eq!(icon_relative_path("red"), "icons/colors/red/128x128@2x.png");
}

#[test]
fn url_validation_accepts_absolute_http_and_https() {
    for u in [
        "http://example.com",
        "https://example.com",
        "http://wizard.local:9000/",
        "https://example.net/a/b?c=d#e",
        "HTTP://EXAMPLE.COM",
    ] {
        assert!(validate_endpoint_url(u).is_ok(), "{u} should be accepted");
    }
}

#[test]
fn url_validation_rejects_other_schemes() {
    for u in ["ftp://x", "file:///tmp/a", "ws://example.com", "mailto:a@b.example"] {
        let e = validate_endpoint_url(u).unwrap_err();
        assert_eq!(e, "URL must use http or https", "{u}");
    }
}

#[test]
fn url_validation_rejects_malformed_strings() {
    for u in ["not-a-url", "", "http//missing.colon", "://x", "exa mple"] {
        let e = validate_endpoint_url(u).unwrap_err();
        assert!(e.starts_with("Invalid URL: "), "{u}: {e}");
    }
}
