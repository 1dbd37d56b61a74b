//! What the mouse layer promises across key events.

use vstd::prelude::*;
use crate::config::{ActivationMode, DragMode, Key, bindings_of};
use crate::layer::{
    LayerState, Signal, invariants, key_step, with_physical, reset_signals, cleared, button_down,
    movement_x, movement_y, scroll_of, left_signal, right_signal, movement_signal, scroll_signal,
    is_mapped, sync_signals, owns, is_activation, takes, is_fresh,
};

verus! {

/// A key that the layer owns is kept from typing, press or repeat alike, and
/// stays owned until it is physically released.
pub proof fn lemma_owned_key_is_swallowed(s: LayerState, key: Key, down: bool)
    requires
        invariants(s),
        s.captured.contains(key),
    ensures
        key_step(s, key, down).1,
        down ==> key_step(s, key, down).0.captured.contains(key),
        !down ==> !key_step(s, key, down).0.captured.contains(key),
{
}

/// The activation key never reaches typing while control is enabled, so
/// Caps Lock as activation key does not change letter case.
pub proof fn lemma_activation_key_is_swallowed(s: LayerState, down: bool)
    requires
        invariants(s),
        s.enabled,
    ensures
        key_step(s, s.config.activation, down).1,
{
}

/// Releasing a key ends what it did at once: it is no longer pressed.
pub proof fn lemma_release_stops_key(s: LayerState, key: Key)
    requires
        invariants(s),
    ensures
        !key_step(s, key, false).0.pressed.contains(key),
{
}

/// While the layer is off, every key but the activation key passes through
/// to typing unchanged, and nothing is signalled, unless the layer still
/// owns it from before.
pub proof fn lemma_inactive_layer_passes_typing(s: LayerState, key: Key, down: bool)
    requires
        invariants(s),
        !s.active,
        !s.captured.contains(key),
        !(key == s.config.activation && s.enabled),
    ensures
        !key_step(s, key, down).1,
        key_step(s, key, down).2 == Seq::<Signal>::empty(),
        key_step(s, key, down).0 == with_physical(s, key, down),
{
}

/// A key that was already down before the layer came on keeps its ordinary
/// meaning: its repeats and its release pass through.
pub proof fn lemma_preheld_key_passes_through(s: LayerState, key: Key, down: bool)
    requires
        invariants(s),
        s.physical.contains(key),
        !s.captured.contains(key),
        !(key == s.config.activation && s.enabled),
    ensures
        !key_step(s, key, down).1,
        key_step(s, key, down).2 == Seq::<Signal>::empty(),
{
}

/// Auto-repeat of a key that is already down changes nothing and signals
/// nothing: speed and click count stay as they were.
pub proof fn lemma_repeat_changes_nothing(s: LayerState, key: Key)
    requires
        invariants(s),
        s.physical.contains(key),
    ensures
        key_step(s, key, true).0 == s,
        key_step(s, key, true).2 == Seq::<Signal>::empty(),
{
    assert(s.physical.insert(key) =~= s.physical);
    assert(with_physical(s, key, true) == s);
}

/// A reset sends a button-up signal for exactly the buttons that were down,
/// and leaves no button down and no movement or scrolling.
pub proof fn lemma_reset_releases_buttons(s: LayerState)
    requires
        invariants(s),
    ensures
        forall|i: int|
            0 <= i < 2 ==> (reset_signals(s).contains(Signal::Button(i as usize, false))
                <==> button_down(s, i)),
        !button_down(cleared(s), 0),
        !button_down(cleared(s), 1),
        movement_x(cleared(s)) == 0,
        movement_y(cleared(s)) == 0,
        scroll_of(cleared(s)) == 0,
{
    let c = cleared(s);
    let rs = reset_signals(s);
    let pre: Seq<Signal> = if s.active {
        seq![Signal::Deactivated]
    } else {
        seq![]
    };
    let l = left_signal(s, c);
    let r = right_signal(s, c);
    let m = movement_signal(s, c);
    let sc = scroll_signal(s, c);
    assert(rs =~= pre + l + r + m + sc + seq![Signal::Cleared]);
    assert forall|i: int| 0 <= i < 2 implies (rs.contains(Signal::Button(i as usize, false))
        <==> button_down(s, i)) by {
        let b = Signal::Button(i as usize, false);
        if button_down(s, i) {
            if i == 0 {
                assert(rs[pre.len() as int] == b);
            } else {
                assert(rs[(pre.len() + l.len()) as int] == b);
            }
        }
        if rs.contains(b) {
            let j = choose|j: int| 0 <= j < rs.len() && rs[j] == b;
            if j >= pre.len() && j < pre.len() + l.len() {
                assert(i == 0);
            } else if j >= pre.len() + l.len() && j < pre.len() + l.len() + r.len() {
                assert(i == 1);
            } else if j < pre.len() {
            } else if j < pre.len() + l.len() + r.len() + m.len() {
                assert(rs[j] == m[j - pre.len() - l.len() - r.len()]);
            } else if j < pre.len() + l.len() + r.len() + m.len() + sc.len() {
                assert(rs[j] == sc[j - pre.len() - l.len() - r.len() - m.len()]);
            }
        }
    }
}

/// In hold mode, releasing the activation key turns the layer off and ends
/// movement, scrolling, clicking and dragging.
pub proof fn lemma_hold_release_stops_everything(s: LayerState)
    requires
        invariants(s),
        s.enabled,
        s.config.activation_mode == ActivationMode::Hold,
    ensures
        ({
            let r = key_step(s, s.config.activation, false).0;
            &&& !r.active
            &&& !button_down(r, 0)
            &&& !button_down(r, 1)
            &&& movement_x(r) == 0
            &&& movement_y(r) == 0
            &&& scroll_of(r) == 0
        }),
{
}

/// While control is paused the layer never comes on.
pub proof fn lemma_paused_layer_stays_off(s: LayerState, key: Key, down: bool)
    requires
        invariants(s),
        !s.enabled,
    ensures
        !key_step(s, key, down).0.active,
{
}

/// In toggle mode, each fresh press of the activation key turns the layer
/// on when it is off and off when it is on; holding the key is not needed.
pub proof fn lemma_toggle_press_flips_layer(s: LayerState)
    requires
        invariants(s),
        s.enabled,
        s.config.activation_mode == ActivationMode::Toggle,
        !s.physical.contains(s.config.activation),
    ensures
        key_step(s, s.config.activation, true).0.active == !s.active,
        key_step(s, s.config.activation, true).1,
{
}

/// In toggle activation mode, releasing the activation key leaves the layer
/// as it is.
pub proof fn lemma_toggle_release_keeps_layer(s: LayerState)
    requires
        invariants(s),
        s.enabled,
        s.config.activation_mode == ActivationMode::Toggle,
    ensures
        key_step(s, s.config.activation, false).0.active == s.active,
{
}

/// In toggle drag mode, a fresh press of the left-button key while the layer
/// is on flips the left button: the first press holds it down, the second
/// lets it go.
pub proof fn lemma_toggle_drag_flips_left_button(s: LayerState)
    requires
        invariants(s),
        s.active,
        s.config.drag_mode == DragMode::Toggle,
        !s.physical.contains(s.config.clicks[0]),
        s.config.clicks[0] != s.config.activation,
    ensures
        button_down(key_step(s, s.config.clicks[0], true).0, 0) == !button_down(s, 0),
        key_step(s, s.config.clicks[0], true).1,
{
    let c = s.config.clicks[0];
    assert(!s.captured.contains(c));
    assert(s.config.clicks@[0] == c);
    assert(is_mapped(s.config, c));
}

/// Holding opposite movement keys cancels that axis; holding both scroll
/// keys stops scrolling.
pub proof fn lemma_opposites_cancel(s: LayerState)
    ensures
        s.pressed.contains(s.config.movement[1]) && s.pressed.contains(s.config.movement[3])
            ==> movement_x(s) == 0,
        s.pressed.contains(s.config.movement[0]) && s.pressed.contains(s.config.movement[2])
            ==> movement_y(s) == 0,
        s.pressed.contains(s.config.scroll[0]) && s.pressed.contains(s.config.scroll[1])
            ==> scroll_of(s) == 0,
{
}

proof fn lemma_concat_contains(x: Seq<Signal>, y: Seq<Signal>, e: Signal)
    ensures
        (x + y).contains(e) <==> x.contains(e) || y.contains(e),
{
    if (x + y).contains(e) {
        let j = choose|j: int| 0 <= j < (x + y).len() && (x + y)[j] == e;
        if j < x.len() {
            assert(x[j] == e);
        } else {
            assert(y[j - x.len()] == e);
        }
    }
    if x.contains(e) {
        let j = choose|j: int| 0 <= j < x.len() && x[j] == e;
        assert((x + y)[j] == e);
    }
    if y.contains(e) {
        let j = choose|j: int| 0 <= j < y.len() && y[j] == e;
        assert((x + y)[j + x.len()] == e);
    }
}

proof fn lemma_one_contains(x: Signal, e: Signal)
    ensures
        seq![x].contains(e) <==> x == e,
{
    if x == e {
        assert(seq![x][0] == e);
    }
}

proof fn lemma_empty_contains(e: Signal)
    ensures
        !Seq::<Signal>::empty().contains(e),
{
}

/// Whether button `i` changed between `before` and `after`, ending as `v`.
pub open spec fn button_went(before: LayerState, after: LayerState, i: int, v: bool) -> bool {
    button_down(before, i) != button_down(after, i) && v == button_down(after, i)
}

/// Whether the movement direction changed between `before` and `after`,
/// ending as `(x, y)`.
pub open spec fn movement_went(before: LayerState, after: LayerState, x: i32, y: i32) -> bool {
    (movement_x(before) != movement_x(after) || movement_y(before) != movement_y(after))
        && x as int == movement_x(after) && y as int == movement_y(after)
}

/// Whether the scroll direction changed between `before` and `after`,
/// ending as `d`.
pub open spec fn scroll_went(before: LayerState, after: LayerState, d: i32) -> bool {
    scroll_of(before) != scroll_of(after) && d as int == scroll_of(after)
}

proof fn lemma_sync_contents(b: LayerState, a: LayerState, e: Signal)
    ensures
        sync_signals(b, a).contains(e) <==> match e {
            Signal::Button(i, v) => i < 2 && button_went(b, a, i as int, v),
            Signal::Movement(x, y) => movement_went(b, a, x, y),
            Signal::Scroll(d) => scroll_went(b, a, d),
            _ => false,
        },
{
    let l = left_signal(b, a);
    let r = right_signal(b, a);
    let m = movement_signal(b, a);
    let sc = scroll_signal(b, a);
    lemma_concat_contains(l, r, e);
    lemma_concat_contains(l + r, m, e);
    lemma_concat_contains(l + r + m, sc, e);
    lemma_empty_contains(e);
    if button_down(b, 0) != button_down(a, 0) {
        lemma_one_contains(Signal::Button(0, button_down(a, 0)), e);
    }
    if button_down(b, 1) != button_down(a, 1) {
        lemma_one_contains(Signal::Button(1, button_down(a, 1)), e);
    }
    if movement_x(b) != movement_x(a) || movement_y(b) != movement_y(a) {
        lemma_one_contains(Signal::Movement(movement_x(a) as i32, movement_y(a) as i32), e);
    }
    if scroll_of(b) != scroll_of(a) {
        lemma_one_contains(Signal::Scroll(scroll_of(a) as i32), e);
    }
}

/// What a key event changes in the buttons, movement and scroll direction,
/// and which of those changes its signals report.
spec fn reports_changes(s: LayerState, key: Key, down: bool, e: Signal) -> bool {
    let r = key_step(s, key, down).0;
    key_step(s, key, down).2.contains(e) <==> match e {
        Signal::Button(i, v) => i < 2 && button_went(s, r, i as int, v),
        Signal::Movement(x, y) => movement_went(s, r, x, y),
        Signal::Scroll(d) => scroll_went(s, r, d),
        _ => key_step(s, key, down).2.contains(e),
    }
}

proof fn lemma_key_step_reports_changes(s: LayerState, key: Key, down: bool, e: Signal)
    requires
        invariants(s),
    ensures
        reports_changes(s, key, down, e),
{
    let st = key_step(s, key, down);
    let r = st.0;
    let s0 = with_physical(s, key, down);
    lemma_sync_contents(s, r, e);
    lemma_empty_contains(e);
    if owns(s, key) {
    } else if is_activation(s, key) {
        if down && is_fresh(s, key, down) {
            let s1 = crate::layer::LayerState { captured: s0.captured.insert(key), ..s0 };
            if s.config.activation_mode == ActivationMode::Toggle && s1.active {
                let c = cleared(s1);
                let pre: Seq<Signal> = seq![Signal::Deactivated];
                lemma_sync_contents(s1, c, e);
                lemma_concat_contains(pre, sync_signals(s1, c), e);
                lemma_concat_contains(pre + sync_signals(s1, c), seq![Signal::Cleared], e);
                lemma_concat_contains(reset_signals(s1), seq![Signal::Deactivated], e);
                lemma_one_contains(Signal::Deactivated, e);
                lemma_one_contains(Signal::Cleared, e);
                assert(reset_signals(s1) == pre + sync_signals(s1, c) + seq![Signal::Cleared]);
                assert(button_down(s1, 0) == button_down(s, 0));
                assert(button_down(s1, 1) == button_down(s, 1));
                assert(movement_x(s1) == movement_x(s));
                assert(movement_y(s1) == movement_y(s));
                assert(scroll_of(s1) == scroll_of(s));
            } else {
                lemma_one_contains(Signal::Activated, e);
                if !s.active {
                    assert(s.pressed == Set::<Key>::empty());
                }
                assert(button_down(r, 0) == button_down(s, 0));
                assert(button_down(r, 1) == button_down(s, 1));
                assert(movement_x(r) == movement_x(s));
                assert(movement_y(r) == movement_y(s));
                assert(scroll_of(r) == scroll_of(s));
            }
        } else if !down {
            let s1 = crate::layer::LayerState { captured: s0.captured.remove(key), ..s0 };
            assert(button_down(s1, 0) == button_down(s, 0));
            assert(button_down(s1, 1) == button_down(s, 1));
            assert(movement_x(s1) == movement_x(s));
            assert(movement_y(s1) == movement_y(s));
            assert(scroll_of(s1) == scroll_of(s));
            if s.config.activation_mode == ActivationMode::Hold {
                let c = cleared(s1);
                let pre: Seq<Signal> = if s1.active {
                    seq![Signal::Deactivated]
                } else {
                    seq![]
                };
                lemma_sync_contents(s1, c, e);
                lemma_concat_contains(pre, sync_signals(s1, c), e);
                lemma_concat_contains(pre + sync_signals(s1, c), seq![Signal::Cleared], e);
                lemma_one_contains(Signal::Deactivated, e);
                lemma_one_contains(Signal::Cleared, e);
                assert(reset_signals(s1) == pre + sync_signals(s1, c) + seq![Signal::Cleared]);
            }
        }
    } else if takes(s, key, down) {
        if key == s.config.clicks[0] && s.config.drag_mode == DragMode::Toggle {
            lemma_concat_contains(seq![Signal::DragLocked(!s.drag_locked)], sync_signals(s, r), e);
            lemma_one_contains(Signal::DragLocked(!s.drag_locked), e);
        }
    }
}

/// A key event signals a mouse button going down or up exactly when that
/// button changes: a button that was down and is no longer down is always
/// reported released, whichever way the layer went off.
pub proof fn lemma_button_signals_match_changes(s: LayerState, key: Key, down: bool, i: int, v: bool)
    requires
        invariants(s),
        0 <= i < 2,
    ensures
        key_step(s, key, down).2.contains(Signal::Button(i as usize, v)) <==> (button_down(s, i)
            != button_down(key_step(s, key, down).0, i) && v == button_down(
            key_step(s, key, down).0,
            i,
        )),
{
    lemma_key_step_reports_changes(s, key, down, Signal::Button(i as usize, v));
}

/// A key event signals a new movement direction exactly when the direction
/// changes on either axis, and then with the new direction.
pub proof fn lemma_movement_signals_match_changes(s: LayerState, key: Key, down: bool, x: i32, y: i32)
    requires
        invariants(s),
    ensures
        ({
            let r = key_step(s, key, down).0;
            key_step(s, key, down).2.contains(Signal::Movement(x, y)) <==> ((movement_x(s)
                != movement_x(r) || movement_y(s) != movement_y(r)) && x as int == movement_x(r)
                && y as int == movement_y(r))
        }),
{
    lemma_key_step_reports_changes(s, key, down, Signal::Movement(x, y));
}

/// A key event signals a new scroll direction exactly when it changes.
pub proof fn lemma_scroll_signals_match_changes(s: LayerState, key: Key, down: bool, d: i32)
    requires
        invariants(s),
    ensures
        ({
            let r = key_step(s, key, down).0;
            key_step(s, key, down).2.contains(Signal::Scroll(d)) <==> (scroll_of(s) != scroll_of(r)
                && d as int == scroll_of(r))
        }),
{
    lemma_key_step_reports_changes(s, key, down, Signal::Scroll(d));
}

/// While the layer is on, a fresh press of any bound key other than the
/// activation key (movement, either button, scrolling, either precision key)
/// is taken from typing and owned until its release.
pub proof fn lemma_bound_keys_are_taken(s: LayerState, key: Key, j: int)
    requires
        invariants(s),
        s.active,
        !s.physical.contains(key),
        key != s.config.activation,
        1 <= j < 11,
        bindings_of(s.config)[j] == key,
    ensures
        key_step(s, key, true).1,
        key_step(s, key, true).0.captured.contains(key),
{
    let c = s.config;
    assert(!s.captured.contains(key));
    if j < 5 {
        assert(c.movement@[j - 1] == key);
    } else if j < 7 {
        assert(c.clicks@[j - 5] == key);
    } else if j < 9 {
        assert(c.scroll@[j - 7] == key);
    } else {
        assert(c.precision@[j - 9] == key);
    }
    assert(is_mapped(c, key));
}

/// The precision keys in particular are taken when pressed while the layer
/// is on, so that a following click is not a shifted click.
pub proof fn lemma_precision_keys_are_taken(s: LayerState, i: int)
    requires
        invariants(s),
        s.active,
        0 <= i < 2,
        !s.physical.contains(s.config.precision[i]),
        s.config.precision[i] != s.config.activation,
    ensures
        key_step(s, s.config.precision[i], true).1,
        key_step(s, s.config.precision[i], true).0.captured.contains(s.config.precision[i]),
{
    lemma_bound_keys_are_taken(s, s.config.precision[i], 9 + i);
}

/// The right-button key is a held button in every drag mode: a fresh press
/// while the layer is on puts the right button down and leaves the left
/// button and its drag lock as they were.
pub proof fn lemma_right_button_is_held(s: LayerState)
    requires
        invariants(s),
        s.active,
        !s.physical.contains(s.config.clicks[1]),
        s.config.clicks[1] != s.config.activation,
        s.config.clicks[1] != s.config.clicks[0],
    ensures
        ({
            let r = key_step(s, s.config.clicks[1], true).0;
            &&& r.drag_locked == s.drag_locked
            &&& button_down(r, 1)
            &&& button_down(r, 0) == button_down(s, 0)
        }),
{
    let k = s.config.clicks[1];
    assert(!s.captured.contains(k));
    assert(s.config.clicks@[1] == k);
    assert(is_mapped(s.config, k));
}

} // verus!
