use proxy::{ui_step, UiAction, UiKey};

#[test]
fn quit_keys_quit() {
    assert_eq!(ui_step(Some(UiKey::Char('q')), 0, 250), UiAction::Quit);
    assert_eq!(ui_step(Some(UiKey::Escape), 999, 250), UiAction::Quit);
}

#[test]
fn other_keys_do_not_quit() {
    assert_eq!(ui_step(Some(UiKey::Char('Q')), 10, 250), UiAction::Wait);
    assert_eq!(ui_step(Some(UiKey::Other), 300, 250), UiAction::Tick);
}

#[test]
fn tick_is_due_at_the_tick_rate() {
    assert_eq!(ui_step(None, 249, 250), UiAction::Wait);
    assert_eq!(ui_step(None, 250, 250), UiAction::Tick);
}
