use codex_quota::binary64::Binary64;
use codex_quota::window::{
    close_action, menu_action, set_window_opacity, Action, LayerPlan, LAYERED,
};

fn double(value: f64) -> Binary64 {
    Binary64 { bits: value.to_bits() }
}

#[test]
fn a_translucent_window_is_layered() {
    assert_eq!(
        set_window_opacity(double(0.75), 1),
        LayerPlan { style: Some(LAYERED | 1), alpha: Some(191) }
    );
    assert_eq!(
        set_window_opacity(double(0.1), LAYERED),
        LayerPlan { style: None, alpha: Some(128) }
    );
    assert_eq!(
        set_window_opacity(double(f64::NAN), LAYERED),
        LayerPlan { style: None, alpha: Some(0) }
    );
}

#[test]
fn an_opaque_window_is_not_layered() {
    assert_eq!(
        set_window_opacity(double(0.999), LAYERED | 1),
        LayerPlan { style: Some(1), alpha: None }
    );
    assert_eq!(set_window_opacity(double(7.0), 1), LayerPlan { style: None, alpha: None });
    assert_eq!(
        set_window_opacity(double(0.9989), -1),
        LayerPlan { style: None, alpha: Some(255) }
    );
}

#[test]
fn the_layered_style_is_that_of_the_system() {
    let style = windows_sys::Win32::UI::WindowsAndMessaging::WS_EX_LAYERED;
    assert_eq!(LAYERED, style as isize);
}

#[test]
fn items_of_the_menu() {
    assert_eq!(menu_action("open"), Action::Open);
    assert_eq!(menu_action("refresh"), Action::Refresh);
    assert_eq!(menu_action("settings"), Action::Settings);
    assert_eq!(menu_action("quit"), Action::Quit);
    assert_eq!(menu_action("Quit"), Action::Nothing);
}

#[test]
fn closing_hides_or_quits() {
    assert_eq!(close_action(true), Action::Hide);
    assert_eq!(close_action(false), Action::Quit);
}
