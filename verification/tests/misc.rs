use ytune::auth::{open_url_target, restored_token, restored_token_from, AuthTokenState};
use ytune::monitor::{geometry_fits, monitor_at, MonitorRect};
use ytune::window::{hides_on_close, menu_action, popup_toggle, MenuAction, PopupToggle};

#[test]
fn restored_token_from_json() {
    assert_eq!(restored_token("\"abc\""), Some("abc".to_string()));
    assert_eq!(restored_token("\"a\\\"b\""), Some("a\"b".to_string()));
    assert_eq!(restored_token(" \"t\" "), Some("t".to_string()));
}

#[test]
fn restored_token_fallback_trims_quotes() {
    assert_eq!(restored_token("abc"), Some("abc".to_string()));
    assert_eq!(restored_token("\"abc"), Some("abc".to_string()));
    assert_eq!(restored_token("\"\"\"x"), Some("x".to_string()));
}

#[test]
fn restored_token_empty_is_none() {
    assert_eq!(restored_token("\"\""), None);
    assert_eq!(restored_token(""), None);
    assert_eq!(restored_token("\"\"\""), None);
    assert_eq!(restored_token_from(Some(String::new()), "ignored"), None);
    assert_eq!(restored_token_from(None, "\"k\""), Some("k".to_string()));
}

#[test]
fn open_url_payload() {
    assert_eq!(open_url_target("\"https://x\""), Some("https://x".to_string()));
    assert_eq!(open_url_target("https://x"), None);
}

#[test]
fn auth_state_keeps_token() {
    let mut s = AuthTokenState::new();
    assert_eq!(s.0, None);
    s.set_token("t".to_string());
    assert_eq!(s.0.as_deref(), Some("t"));
}

fn rect(x: i32, y: i32, width: u32, height: u32) -> MonitorRect {
    MonitorRect { x, y, width, height }
}

#[test]
fn monitor_containing_point() {
    let ms = vec![rect(0, 0, 1920, 1080), rect(1920, 0, 1280, 1024)];
    assert_eq!(monitor_at(&ms, 10, 10), Some(0));
    assert_eq!(monitor_at(&ms, 1920, 0), Some(1));
    assert_eq!(monitor_at(&ms, 1919, 1079), Some(0));
}

#[test]
fn monitor_closest_when_outside() {
    let ms = vec![rect(0, 0, 1920, 1080), rect(1920, 0, 1280, 1024)];
    assert_eq!(monitor_at(&ms, 5000, 500), Some(1));
    assert_eq!(monitor_at(&ms, -100, 540), Some(0));
}

#[test]
fn monitor_ties_go_to_first() {
    let ms = vec![rect(0, 0, 100, 100), rect(200, 0, 100, 100)];
    assert_eq!(monitor_at(&ms, 150, 50), Some(0));
}

#[test]
fn monitor_none_without_monitors() {
    assert_eq!(monitor_at(&Vec::new(), 0, 0), None);
}

#[test]
fn menu_actions() {
    assert_eq!(menu_action("widget"), MenuAction::ToggleWidget);
    assert_eq!(menu_action("show"), MenuAction::ShowMain);
    assert_eq!(menu_action("quit"), MenuAction::Quit);
    assert_eq!(menu_action("other"), MenuAction::Ignore);
}

#[test]
fn closing_windows() {
    assert!(hides_on_close("main"));
    assert!(!hides_on_close("tray-popup"));
}

#[test]
fn popup_toggles() {
    assert_eq!(popup_toggle(Some(true)), PopupToggle::SaveAndHide);
    assert_eq!(popup_toggle(Some(false)), PopupToggle::Show);
    assert_eq!(popup_toggle(None), PopupToggle::Create);
}

#[test]
fn monitor_geometry_limits() {
    assert!(geometry_fits(&vec![rect(0, 0, 1920, 1080)], 10, 10));
    assert!(!geometry_fits(&vec![rect(i32::MAX - 10, 0, 100, 100)], 0, 0));
    // A width above i32::MAX wraps to a negative width, as `as i32` does.
    assert!(geometry_fits(&vec![rect(0, 0, 3_000_000_000, 100)], 0, 0));
    assert_eq!(monitor_at(&vec![rect(0, 0, 3_000_000_000, 100)], 0, 0), Some(0));
    // Monitors after the one that contains the point are not looked at.
    assert!(geometry_fits(&vec![rect(0, 0, 100, 100), rect(i32::MAX, i32::MAX, 100, 100)], 5, 5));
    assert!(!geometry_fits(&vec![rect(0, 0, 100, 100), rect(i32::MAX, i32::MAX, 100, 100)], 500, 5));
    assert!(!geometry_fits(&vec![rect(0, 0, 100, 100)], i32::MIN, i32::MIN));
}

#[test]
fn toggling_twice_restores_visibility() {
    let after = |visible: bool| popup_toggle(Some(visible)) != PopupToggle::SaveAndHide;
    for v in [true, false] {
        assert_eq!(after(after(v)), v);
    }
}
