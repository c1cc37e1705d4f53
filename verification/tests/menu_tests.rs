use wizard_shell::menu::{should_handle_reload, RELOAD_JS, RELOAD_MENU_ID};

#[test]
fn reload_menu_id_is_correct() {
    assert_eq!(RELOAD_MENU_ID, "reload_page");
}

#[test]
fn reload_js_calls_location_reload() {
    assert_eq!(RELOAD_JS, "window.location.reload()");
}

#[test]
fn should_handle_reload_returns_true_for_reload_id() {
    assert!(should_handle_reload(RELOAD_MENU_ID));
}

#[test]
fn should_handle_reload_returns_false_for_other_ids() {
    assert!(!should_handle_reload("quit"));
    assert!(!should_handle_reload(""));
    assert!(!should_handle_reload("reload"));
}
