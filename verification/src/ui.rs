use vstd::prelude::*;

verus! {

/// A key pressed on the dashboard.
#[derive(Clone, Copy, Debug, PartialEq, Eq, Structural)]
pub enum UiKey {
    Char(char),
    Escape,
    Other,
}

/// What the dashboard loop is to do next.
#[derive(Clone, Copy, Debug, PartialEq, Eq, Structural)]
pub enum UiAction {
    /// Leave the dashboard.
    Quit,
    /// Advance the gauge by one tick and restart the tick clock.
    Tick,
    /// Draw again and keep waiting.
    Wait,
}

/// `q` and Escape end the dashboard.
pub open spec fn is_quit_key(key: Option<UiKey>) -> bool {
    key == Some(UiKey::Char('q')) || key == Some(UiKey::Escape)
}

/// Only `q` and Escape quit: every other character, any other key and no
/// key at all leave the loop running.
pub proof fn lemma_only_q_and_escape_quit(c: char)
    ensures
        is_quit_key(Some(UiKey::Char('q'))),
        is_quit_key(Some(UiKey::Escape)),
        c != 'q' ==> !is_quit_key(Some(UiKey::Char(c))),
        !is_quit_key(Some(UiKey::Other)),
        !is_quit_key(None),
{
}

/// The next step of the dashboard after waiting for a key: `key` is the
/// key pressed, if any, and `elapsed_ms` the milliseconds since the last
/// tick. A quit key ends the loop; otherwise a tick is due once `tick_ms`
/// milliseconds have passed.
pub fn ui_step(key: Option<UiKey>, elapsed_ms: u128, tick_ms: u128) -> (r: UiAction)
    ensures
        r == if is_quit_key(key) {
            UiAction::Quit
        } else if elapsed_ms >= tick_ms {
            UiAction::Tick
        } else {
            UiAction::Wait
        },
        key == Some(UiKey::Char('q')) || key == Some(UiKey::Escape) ==> r == UiAction::Quit,
        !(key == Some(UiKey::Char('q')) || key == Some(UiKey::Escape)) ==> r == (
        if elapsed_ms >= tick_ms {
            UiAction::Tick
        } else {
            UiAction::Wait
        }),
{
    let quit = match key {
        Some(UiKey::Char(c)) => c == 'q',
        Some(UiKey::Escape) => true,
        _ => false,
    };
    if quit {
        UiAction::Quit
    } else if elapsed_ms >= tick_ms {
        UiAction::Tick
    } else {
        UiAction::Wait
    }
}

} // verus!
