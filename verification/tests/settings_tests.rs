use wizard_shell::settings::{
    default_icon_color, get_endpoint_url, get_icon_color, load_settings, save_settings_text,
    set_endpoint_url, set_icon_color, Settings,
};

const ALL_COLORS: [&str; 7] = ["red", "orange", "yellow", "green", "blue", "indigo", "violet"];

#[test]
fn default_record_has_builtin_values() {
    let s = Settings::default();
    assert_eq!(s.endpoint_url, "http://wizard.local:9000/");
    assert_eq!(s.icon_color, "green");
    assert_eq!(default_icon_color(), "green");
}

#[test]
fn getters_return_the_fields() {
    let s = Settings {
        endpoint_url: String::from("https://example.net/"),
        icon_color: String::from("blue"),
    };
    assert_eq!(get_endpoint_url(&s), "https://example.net/");
    assert_eq!(get_icon_color(&s), "blue");
}

#[test]
fn load_missing_file_returns_default() {
    let s = load_settings(None);
    assert_eq!(s, Settings::default());
}

#[test]
fn load_garbage_returns_default() {
    assert_eq!(load_settings(Some("not json")), Settings::default());
    assert_eq!(load_settings(Some("")), Settings::default());
    assert_eq!(load_settings(Some("{}")), Settings::default());
    assert_eq!(load_settings(Some("[1, 2]")), Settings::default());
    assert_eq!(load_settings(Some("{\"icon_color\": \"red\"}")), Settings::default());
}

#[test]
fn load_trailing_junk_returns_default() {
    let text = "{\"endpoint_url\": \"http://a.example/\"} x";
    assert_eq!(load_settings(Some(text)), Settings::default());
}

#[test]
fn load_duplicate_field_returns_default() {
    let text = "{\"endpoint_url\": \"http://a.example/\", \"endpoint_url\": \"http://b.example/\"}";
    assert_eq!(load_settings(Some(text)), Settings::default());
}

#[test]
fn load_out_of_range_color_defaults_only_that_field() {
    let text = "{\n  \"endpoint_url\": \"http://a.example/\",\n  \"icon_color\": \"teal\"\n}";
    let s = load_settings(Some(text));
    assert_eq!(s.endpoint_url, "http://a.example/");
    assert_eq!(s.icon_color, "green");
}

#[test]
fn load_missing_color_uses_default_color() {
    let text = "{\"endpoint_url\": \"http://a.example/\"}";
    let s = load_settings(Some(text));
    assert_eq!(s.endpoint_url, "http://a.example/");
    assert_eq!(s.icon_color, "green");
}

#[test]
fn load_accepts_whitespace_and_field_order() {
    let text = " {\n\t\"icon_color\" :\t\"red\" ,\r\n \"endpoint_url\" : \"http://x.example/\" } ";
    let s = load_settings(Some(text));
    assert_eq!(s.endpoint_url, "http://x.example/");
    assert_eq!(s.icon_color, "red");
}

#[test]
fn load_ignores_unknown_fields() {
    let text = "{\"endpoint_url\": \"http://x.example/\", \"theme\": \"dark\"}";
    let s = load_settings(Some(text));
    assert_eq!(s.endpoint_url, "http://x.example/");
    assert_eq!(s.icon_color, "green");
}

#[test]
fn load_decodes_escapes() {
    let text = "{\"endpoint_url\": \"http://x/\\u0041\\n\\t\\\"\\\\\\u0009\"}";
    let s = load_settings(Some(text));
    assert_eq!(s.endpoint_url, "http://x/A\n\t\"\\\t");
}

#[test]
fn load_rejects_bad_escapes_and_raw_controls() {
    assert_eq!(load_settings(Some("{\"endpoint_url\": \"a\\q\"}")), Settings::default());
    assert_eq!(load_settings(Some("{\"endpoint_url\": \"a\\uD800b\"}")), Settings::default());
    assert_eq!(load_settings(Some("{\"endpoint_url\": \"a\u{1}b\"}")), Settings::default());
}

#[test]
fn load_rejects_non_string_values() {
    assert_eq!(load_settings(Some("{\"endpoint_url\": 5}")), Settings::default());
    assert_eq!(
        load_settings(Some("{\"endpoint_url\": {\"a\": \"b\"}}")),
        Settings::default(),
    );
}

#[test]
fn save_writes_exact_pretty_text() {
    let text = save_settings_text(&Settings::default());
    assert_eq!(
        text,
        "{\n  \"endpoint_url\": \"http://wizard.local:9000/\",\n  \"icon_color\": \"green\"\n}",
    );
}

#[test]
fn save_then_load_round_trips() {
    let s = Settings {
        endpoint_url: String::from("https://example.net/a?b=c#d"),
        icon_color: String::from("violet"),
    };
    let text = save_settings_text(&s);
    assert_eq!(load_settings(Some(&text)), s);
}

#[test]
fn save_then_load_round_trips_with_escaped_characters() {
    let s = Settings {
        endpoint_url: String::from("http://e.example/\"\\\n\t\u{3}path"),
        icon_color: String::from("red"),
    };
    let text = save_settings_text(&s);
    assert_eq!(load_settings(Some(&text)), s);
}

#[test]
fn set_endpoint_url_accepts_http_and_https() {
    let cur = Settings::default();
    let s = set_endpoint_url(&cur, String::from("https://example.net/")).unwrap();
    assert_eq!(s.endpoint_url, "https://example.net/");
    assert_eq!(s.icon_color, "green");
    let s2 = set_endpoint_url(&cur, String::from("http://example.net:8080/x")).unwrap();
    assert_eq!(s2.endpoint_url, "http://example.net:8080/x");
}

#[test]
fn set_endpoint_url_rejects_not_a_url() {
    let cur = Settings::default();
    let e = set_endpoint_url(&cur, String::from("not-a-url")).unwrap_err();
    assert!(e.starts_with("Invalid URL: "));
    // the persisted record is untouched: nothing was returned to save
    assert_eq!(cur, Settings::default());
}

#[test]
fn set_endpoint_url_rejects_other_schemes() {
    let cur = Settings::default();
    let e = set_endpoint_url(&cur, String::from("ftp://x")).unwrap_err();
    assert_eq!(e, "URL must use http or https");
}

#[test]
fn set_icon_color_accepts_valid_and_keeps_url() {
    let cur = Settings {
        endpoint_url: String::from("http://keep.example/"),
        icon_color: String::from("green"),
    };
    let s = set_icon_color(&cur, String::from("indigo")).unwrap();
    assert_eq!(s.endpoint_url, "http://keep.example/");
    assert_eq!(s.icon_color, "indigo");
}

#[test]
fn set_icon_color_rejects_with_full_color_list() {
    let cur = Settings::default();
    let e = set_icon_color(&cur, String::from("teal")).unwrap_err();
    assert_eq!(
        e,
        "Invalid color 'teal'. Valid colors: red, orange, yellow, green, blue, indigo, violet",
    );
    assert_eq!(cur, Settings::default());
}

#[test]
fn first_run_set_color_persists_color_and_default_url() {
    // no prior file
    let cur = load_settings(None);
    let next = set_icon_color(&cur, String::from("blue")).unwrap();
    let text = save_settings_text(&next);
    assert!(text.contains("\"icon_color\": \"blue\""));
    let reloaded = load_settings(Some(&text));
    assert_eq!(reloaded.icon_color, "blue");
    assert_eq!(reloaded.endpoint_url, "http://wizard.local:9000/");
}

#[test]
fn all_valid_colors_round_trip_through_set_and_store() {
    for c in ALL_COLORS {
        let cur = Settings::default();
        let next = set_icon_color(&cur, String::from(c)).unwrap();
        let text = save_settings_text(&next);
        assert_eq!(load_settings(Some(&text)).icon_color, c);
    }
}
