use keybmouse::config::{ActivationMode, DragMode, Key, KeyConfig};
use keybmouse::layer::{InputListener, Layer, PendingPointer, PointerCommand, PointerOutput, Signal};
use Key::{CapsLock, Enter, Function, LeftShift, Letter, Space};

fn layer() -> Layer {
    Layer::new(KeyConfig::default())
}

fn buttons(signals: &[Signal]) -> Vec<(usize, bool)> {
    signals.iter().filter_map(|s| match s { Signal::Button(i, d) => Some((*i, *d)), _ => None }).collect()
}

#[test]
fn layer_inactive_typing_passes_through() {
    let mut l = layer();
    for key in [Letter('W'), Enter, Space, LeftShift, Letter('Q')] {
        assert!(!l.key(key, true));
        assert!(!l.key(key, false));
    }
    assert!(l.take_signals().is_empty());
    assert_eq!(l.movement(), (0, 0));
    assert_eq!(l.scroll_direction(), 0);
}

#[test]
fn layer_activation_release_ends_drag_and_swallows_remaining_sequence() {
    let mut l = layer();
    assert!(l.key(CapsLock, true));
    assert!(l.key(Enter, true));
    assert!(l.key(Letter('D'), true));
    assert_eq!(l.movement(), (1, 0));
    assert!(l.key(CapsLock, false));
    assert!(!l.active());
    assert_eq!(l.movement(), (0, 0));
    assert!(l.key(Enter, true));
    assert!(l.key(Letter('D'), true));
    assert_eq!(buttons(&l.take_signals()), [(0, true), (0, false)]);
    assert!(l.key(Enter, false));
    assert!(l.key(Letter('D'), false));
    assert!(!l.key(Enter, true));
}

#[test]
fn layer_repeat_does_not_change_click_count() {
    let mut l = layer();
    l.key(CapsLock, true);
    l.key(Letter('D'), true);
    l.key(Enter, true);
    for _ in 0..100 {
        l.key(Letter('D'), true);
        l.key(Enter, true);
        l.key(CapsLock, true);
    }
    let signals = l.take_signals();
    assert_eq!(buttons(&signals), [(0, true)]);
    assert_eq!(signals, [Signal::Activated, Signal::Movement(1, 0), Signal::Button(0, true)]);
}

#[test]
fn layer_opposites_cancel() {
    let mut l = layer();
    l.key(CapsLock, true);
    l.key(Letter('D'), true);
    l.key(Letter('W'), true);
    assert_eq!(l.movement(), (1, -1));
    l.key(Letter('A'), true);
    assert_eq!(l.movement(), (0, -1));
    l.key(Letter('S'), true);
    assert_eq!(l.movement(), (0, 0));
    l.key(Letter('Q'), true);
    assert_eq!(l.scroll_direction(), 1);
    l.key(Letter('E'), true);
    assert_eq!(l.scroll_direction(), 0);
    l.key(Letter('Q'), false);
    assert_eq!(l.scroll_direction(), -1);
}

#[test]
fn layer_preheld_typing_and_modifier_release_are_preserved() {
    let mut l = layer();
    assert!(!l.key(Enter, true));
    assert!(!l.key(LeftShift, true));
    l.key(CapsLock, true);
    assert!(!l.key(Enter, true));
    assert!(!l.key(Enter, false));
    assert!(!l.key(LeftShift, false));
    assert!(buttons(&l.take_signals()).is_empty());
    assert!(l.key(Enter, true));
    assert_eq!(buttons(&l.take_signals()), [(0, true)]);
}

#[test]
fn layer_seeded_keys_keep_ordinary_meaning() {
    let mut l = layer();
    l.seed_held(Letter('D'));
    assert!(l.is_down(Letter('D')));
    l.key(CapsLock, true);
    assert!(!l.key(Letter('D'), true));
    assert_eq!(l.movement(), (0, 0));
    assert!(!l.key(Letter('D'), false));
    assert!(l.key(Letter('D'), true));
    assert_eq!(l.movement(), (1, 0));
}

#[test]
fn layer_reset_cancels_buttons_and_requires_fresh_activation() {
    let mut l = layer();
    l.key(CapsLock, true);
    l.key(Enter, true);
    l.key(Space, true);
    l.reset();
    assert!(!l.active());
    assert_eq!(buttons(&l.take_signals()), [(0, true), (1, true), (0, false), (1, false)]);
    l.key(CapsLock, true);
    assert!(!l.active());
    l.key(CapsLock, false);
    l.key(CapsLock, true);
    assert!(l.active());
}

#[test]
fn layer_reset_signals_in_order() {
    let mut l = layer();
    l.key(CapsLock, true);
    l.key(Enter, true);
    l.take_signals();
    l.reset();
    assert_eq!(l.take_signals(), [Signal::Deactivated, Signal::Button(0, false), Signal::Cleared]);
}

#[test]
fn layer_pause_and_remapping_release_buttons_and_preserve_key_ownership() {
    let mut l = layer();
    l.key(CapsLock, true);
    l.key(Enter, true);
    l.set_enabled(false);
    assert_eq!(buttons(&l.take_signals()), [(0, true), (0, false)]);
    assert!(l.key(CapsLock, false));
    assert!(l.key(Enter, false));
    assert!(!l.key(CapsLock, true));
    assert!(!l.key(CapsLock, false));
    l.set_enabled(true);
    l.key(CapsLock, true);
    l.key(Enter, true);
    let mut keys = KeyConfig::default();
    keys.activation = Function(8);
    l.configure(keys).unwrap();
    assert!(l.key(CapsLock, true));
    assert!(!l.active());
    assert!(l.key(CapsLock, false));
    assert!(l.key(Enter, false));
    assert!(!l.key(CapsLock, true));
    assert!(l.key(Function(8), true));
    assert!(l.active());
}

#[test]
fn layer_configure_refuses_duplicate_keys() {
    let mut l = layer();
    l.key(CapsLock, true);
    let mut keys = KeyConfig::default();
    keys.clicks[1] = Letter('W');
    assert_eq!(l.configure(keys), Err("W on käytössä kahdesti. Valitse eri näppäimet.".to_string()));
    assert!(l.active());
    assert_eq!(l.config(), KeyConfig::default());
}

#[test]
fn layer_toggle_activation_does_not_require_holding() {
    let mut keys = KeyConfig::default();
    keys.activation_mode = ActivationMode::Toggle;
    let mut l = Layer::new(keys);
    l.key(CapsLock, true);
    l.key(CapsLock, false);
    assert!(l.active());
    l.key(Letter('D'), true);
    assert_eq!(l.movement(), (1, 0));
    l.key(Letter('D'), false);
    l.key(CapsLock, true);
    l.key(CapsLock, false);
    assert!(!l.active());
    assert_eq!(l.movement(), (0, 0));
}

#[test]
fn layer_toggle_drag_keeps_left_button_down_until_second_press() {
    let mut keys = KeyConfig::default();
    keys.activation_mode = ActivationMode::Toggle;
    keys.drag_mode = DragMode::Toggle;
    let mut l = Layer::new(keys);
    l.key(CapsLock, true);
    l.key(CapsLock, false);
    l.key(Enter, true);
    l.key(Enter, false);
    assert_eq!(buttons(&l.take_signals()), [(0, true)]);
    assert!(l.button(0));
    l.key(Letter('D'), true);
    l.key(Letter('D'), false);
    l.key(Enter, true);
    l.key(Enter, false);
    let signals = l.take_signals();
    assert_eq!(buttons(&signals), [(0, false)]);
    assert!(signals.contains(&Signal::DragLocked(false)));
    assert!(!l.button(0));
}

#[test]
fn pending_pointer_keeps_commands_in_order() {
    let mut p = PendingPointer::default();
    assert!(p.is_empty());
    p.button(0, true);
    p.move_by(3, -2);
    p.scroll(1);
    assert_eq!(p.len(), 3);
    assert_eq!(p.pop_front(), Some(PointerCommand::Button(0, true)));
    assert_eq!(p.pop_front(), Some(PointerCommand::Move(3, -2)));
    assert_eq!(p.pop_front(), Some(PointerCommand::Scroll(1)));
    assert_eq!(p.pop_front(), None);
}
