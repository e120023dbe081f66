use rustotp::control::{gauge, poll_timeout_ms, row_style, tick_due, Effect, Key, RowStyle, ViewerState};
use rustotp::registry::Registry;

const S: &str = "JBSWY3DPEHPK3PXPJBSWY3DPEHPK3PXP";

fn state(text: &str) -> ViewerState {
    match Registry::load(text) {
        Ok(r) => ViewerState::new(r),
        Err(e) => panic!("load failed: {:?}", e),
    }
}

#[test]
fn quit_key_stops_the_viewer() {
    let mut v = state("");
    assert!(!v.should_quit);
    assert_eq!(v.handle_key(Key::Other), Effect::Nothing);
    assert!(!v.should_quit);
    assert_eq!(v.handle_key(Key::Quit), Effect::Nothing);
    assert!(v.should_quit);
}

#[test]
fn copy_needs_a_selection() {
    let mut v = state(&format!("b={S}\na={S}\n"));
    assert_eq!(v.handle_key(Key::Copy), Effect::Nothing);
    v.handle_key(Key::Down);
    v.handle_key(Key::Down);
    assert_eq!(v.handle_key(Key::Copy), Effect::CopyCode(1));
    v.handle_key(Key::Up);
    assert_eq!(v.handle_key(Key::Copy), Effect::CopyCode(0));
}

#[test]
fn delete_and_save_keys() {
    let mut v = state(&format!("b={S}\na={S}\n"));
    v.handle_key(Key::Down);
    assert_eq!(v.handle_key(Key::Delete), Effect::Nothing);
    assert_eq!(v.registry.len(), 1);
    assert_eq!(v.registry.selected_index(), None);
    assert_eq!(v.handle_key(Key::Save), Effect::Store(format!("b={S}\n")));
}

#[test]
fn poll_timeout_is_what_is_left_of_the_tick() {
    assert_eq!(poll_timeout_ms(500, 200), 300);
    assert_eq!(poll_timeout_ms(500, 500), 0);
    assert_eq!(poll_timeout_ms(500, 700), 0);
    assert!(!tick_due(500, 499));
    assert!(tick_due(500, 500));
    assert!(tick_due(500, 800));
}

#[test]
fn gauge_values() {
    assert_eq!(gauge(Some(30)), (100, 30));
    assert_eq!(gauge(Some(0)), (0, 0));
    assert_eq!(gauge(Some(1)), (3, 1));
    assert_eq!(gauge(Some(29)), (97, 29));
    assert_eq!(gauge(Some(20)), (67, 20));
    assert_eq!(gauge(Some(15)), (50, 15));
    assert_eq!(gauge(None), (100, 30));
}

#[test]
fn row_styles() {
    assert_eq!(row_style(3, true), RowStyle::SelectedExpiring);
    assert_eq!(row_style(5, true), RowStyle::SelectedExpiring);
    assert_eq!(row_style(6, true), RowStyle::Selected);
    assert_eq!(row_style(5, false), RowStyle::Expiring);
    assert_eq!(row_style(20, false), RowStyle::Plain);
}
