//! The mouse layer: which keys it owns, whether it is active, which mouse
//! buttons it holds down, and in which direction it moves and scrolls.
//!
//! A key that the layer takes when it is pressed stays the layer's until it
//! is physically released, so that no partial key sequence reaches ordinary
//! typing. Keys that were already held when the layer came on keep their
//! ordinary meaning. The layer reports each change it makes as a `Signal`;
//! the time-based motion that follows from the movement and scroll
//! directions is computed by its owner.

use vstd::prelude::*;
use std::collections::VecDeque;
use crate::config::{ActivationMode, DragMode, Key, KeyConfig, key_problem};
use crate::keyset::KeySet;

verus! {

/// Where the mouse commands of the layer go.
pub trait PointerOutput {
    fn move_by(&mut self, x: i32, y: i32);

    fn button(&mut self, index: usize, down: bool);

    fn scroll(&mut self, notches: i32);
}

/// Platform listeners translate keys and obey the returned suppression
/// decision: `true` keeps the key event from ordinary typing.
pub trait InputListener {
    fn key(&mut self, key: Key, down: bool) -> bool;
}

/// One mouse command.
#[derive(Clone, Copy, Debug, PartialEq, Eq, Structural)]
pub enum PointerCommand {
    Move(i32, i32),
    Button(usize, bool),
    Scroll(i32),
}

/// Mouse commands waiting to be sent, oldest first.
pub struct PendingPointer {
    queue: VecDeque<PointerCommand>,
}

impl PendingPointer {
    /// The waiting commands, oldest first.
    pub closed spec fn view(&self) -> Seq<PointerCommand> {
        self.queue@
    }

    pub fn new() -> (p: PendingPointer)
        ensures
            p@ == Seq::<PointerCommand>::empty(),
    {
        PendingPointer { queue: VecDeque::new() }
    }

    /// Takes the oldest waiting command.
    pub fn pop_front(&mut self) -> (c: Option<PointerCommand>)
        ensures
            old(self)@.len() == 0 ==> c is None && final(self)@ == old(self)@,
            old(self)@.len() > 0 ==> c == Some(old(self)@[0]) && final(self)@ == old(self)@.drop_first(),
    {
        self.queue.pop_front()
    }

    pub fn is_empty(&self) -> (r: bool)
        ensures
            r == (self@.len() == 0),
    {
        self.queue.len() == 0
    }

    pub fn len(&self) -> (n: usize)
        ensures
            n == self@.len(),
    {
        self.queue.len()
    }
}

impl Default for PendingPointer {
    fn default() -> (p: PendingPointer)
        ensures
            p@ == Seq::<PointerCommand>::empty(),
    {
        PendingPointer::new()
    }
}

impl PointerOutput for PendingPointer {
    fn move_by(&mut self, x: i32, y: i32)
        ensures
            final(self)@ == old(self)@.push(PointerCommand::Move(x, y)),
    {
        self.queue.push_back(PointerCommand::Move(x, y));
    }

    fn button(&mut self, index: usize, down: bool)
        ensures
            final(self)@ == old(self)@.push(PointerCommand::Button(index, down)),
    {
        self.queue.push_back(PointerCommand::Button(index, down));
    }

    fn scroll(&mut self, notches: i32)
        ensures
            final(self)@ == old(self)@.push(PointerCommand::Scroll(notches)),
    {
        self.queue.push_back(PointerCommand::Scroll(notches));
    }
}

/// A change that the layer made, in the order in which it made them.
#[derive(Clone, Copy, Debug, PartialEq, Eq, Structural)]
pub enum Signal {
    /// Mouse button `index` (0 left, 1 right) went down or up.
    Button(usize, bool),
    /// The movement direction changed to `(x, y)`; each is -1, 0 or 1, and
    /// positive `y` points down.
    Movement(i32, i32),
    /// The scroll direction changed; 1 up, -1 down, 0 none.
    Scroll(i32),
    /// The layer came on.
    Activated,
    /// The layer went off.
    Deactivated,
    /// The left button was locked (`true`) or unlocked by a press in toggle
    /// drag mode.
    DragLocked(bool),
    /// The layer was reset: time-based motion starts over.
    Cleared,
}

/// The state of the layer, apart from what follows from it.
pub struct LayerState {
    pub config: KeyConfig,
    /// Whether the mouse layer is on.
    pub active: bool,
    /// Whether control is enabled at all.
    pub enabled: bool,
    /// The keys that are physically down.
    pub physical: Set<Key>,
    /// The keys that the layer owns until they are released.
    pub captured: Set<Key>,
    /// The owned keys that currently act: move, click, scroll.
    pub pressed: Set<Key>,
    /// Whether the left button is locked down in toggle drag mode.
    pub drag_locked: bool,
}

/// 1 when `k` acts in `s`, otherwise 0.
pub open spec fn held(s: LayerState, k: Key) -> int {
    if s.active && s.pressed.contains(k) {
        1
    } else {
        0
    }
}

/// Whether mouse button `i` (0 left, 1 right) is down in `s`.
pub open spec fn button_down(s: LayerState, i: int) -> bool {
    s.active && if i == 0 && s.config.drag_mode == DragMode::Toggle {
        s.drag_locked
    } else {
        s.pressed.contains(s.config.clicks[i])
    }
}

/// The horizontal movement direction: right minus left.
pub open spec fn movement_x(s: LayerState) -> int {
    held(s, s.config.movement[3]) - held(s, s.config.movement[1])
}

/// The vertical movement direction: down minus up.
pub open spec fn movement_y(s: LayerState) -> int {
    held(s, s.config.movement[2]) - held(s, s.config.movement[0])
}

/// The scroll direction: up minus down.
pub open spec fn scroll_of(s: LayerState) -> int {
    held(s, s.config.scroll[0]) - held(s, s.config.scroll[1])
}

/// Whether `k` is bound to movement, a button, scrolling or precision.
pub open spec fn is_mapped(c: KeyConfig, k: Key) -> bool {
    c.movement@.contains(k) || c.clicks@.contains(k) || c.scroll@.contains(k)
        || c.precision@.contains(k)
}

/// What holds of every state the layer can be in: the pressed keys are
/// owned and the owned keys are physically down; the activation key is never
/// pressed; an inactive layer has nothing pressed or locked; an active layer
/// is enabled.
pub open spec fn invariants(s: LayerState) -> bool {
    &&& s.pressed.subset_of(s.captured)
    &&& !s.pressed.contains(s.config.activation)
    &&& s.captured.subset_of(s.physical)
    &&& !s.active ==> s.pressed == Set::<Key>::empty() && !s.drag_locked
    &&& s.active ==> s.enabled
}

/// The signal for the left button, if it differs between the states.
pub open spec fn left_signal(before: LayerState, after: LayerState) -> Seq<Signal> {
    if button_down(before, 0) != button_down(after, 0) {
        seq![Signal::Button(0, button_down(after, 0))]
    } else {
        seq![]
    }
}

/// The signal for the right button, if it differs between the states.
pub open spec fn right_signal(before: LayerState, after: LayerState) -> Seq<Signal> {
    if button_down(before, 1) != button_down(after, 1) {
        seq![Signal::Button(1, button_down(after, 1))]
    } else {
        seq![]
    }
}

/// The signal for the movement direction, if it differs between the states.
pub open spec fn movement_signal(before: LayerState, after: LayerState) -> Seq<Signal> {
    if movement_x(before) != movement_x(after) || movement_y(before) != movement_y(after) {
        seq![Signal::Movement(movement_x(after) as i32, movement_y(after) as i32)]
    } else {
        seq![]
    }
}

/// The signal for the scroll direction, if it differs between the states.
pub open spec fn scroll_signal(before: LayerState, after: LayerState) -> Seq<Signal> {
    if scroll_of(before) != scroll_of(after) {
        seq![Signal::Scroll(scroll_of(after) as i32)]
    } else {
        seq![]
    }
}

/// The signals for the outputs that differ between `before` and `after`:
/// the left button, the right button, the movement and the scroll direction.
pub open spec fn sync_signals(before: LayerState, after: LayerState) -> Seq<Signal> {
    left_signal(before, after) + right_signal(before, after) + movement_signal(before, after)
        + scroll_signal(before, after)
}

/// `s` after a reset: inactive, nothing pressed, the left button unlocked.
/// Ownership of keys is kept until they are released.
pub open spec fn cleared(s: LayerState) -> LayerState {
    LayerState { active: false, drag_locked: false, pressed: Set::empty(), ..s }
}

/// The signals of a reset of `s`.
pub open spec fn reset_signals(s: LayerState) -> Seq<Signal> {
    (if s.active {
        seq![Signal::Deactivated]
    } else {
        seq![]
    }) + sync_signals(s, cleared(s)) + seq![Signal::Cleared]
}

/// Whether the key event changes what is physically down: a press of a key
/// that was up, or a release of a key that was down.
pub open spec fn is_fresh(s: LayerState, key: Key, down: bool) -> bool {
    if down {
        !s.physical.contains(key)
    } else {
        s.physical.contains(key)
    }
}

/// `s` with the physical state of `key` recorded.
pub open spec fn with_physical(s: LayerState, key: Key, down: bool) -> LayerState {
    LayerState {
        physical: if down {
            s.physical.insert(key)
        } else {
            s.physical.remove(key)
        },
        ..s
    }
}

/// Whether the layer owns `key` apart from its role as activation key.
pub open spec fn owns(s: LayerState, key: Key) -> bool {
    s.captured.contains(key) && (!s.enabled || key != s.config.activation)
}

/// Whether `key` acts as the activation key.
pub open spec fn is_activation(s: LayerState, key: Key) -> bool {
    key == s.config.activation && s.enabled
}

/// A key the layer owns: swallowed, and let go of when released, even if the
/// layer or its bindings changed meanwhile.
pub open spec fn owned_step(s: LayerState, key: Key, down: bool) -> (LayerState, bool, Seq<Signal>) {
    let s0 = with_physical(s, key, down);
    let s1 = if down {
        s0
    } else {
        LayerState { captured: s0.captured.remove(key), pressed: s0.pressed.remove(key), ..s0 }
    };
    (s1, true, sync_signals(s, s1))
}

/// The activation key: always swallowed. A fresh press takes ownership and
/// turns the layer on, or off in toggle mode when it is on; a release gives
/// up ownership and, in hold mode, turns the layer off.
pub open spec fn activation_step(s: LayerState, key: Key, down: bool) -> (
    LayerState,
    bool,
    Seq<Signal>,
) {
    let s0 = with_physical(s, key, down);
    if down && is_fresh(s, key, down) {
        let s1 = LayerState { captured: s0.captured.insert(key), ..s0 };
        if s.config.activation_mode == ActivationMode::Toggle && s1.active {
            (cleared(s1), true, reset_signals(s1) + seq![Signal::Deactivated])
        } else {
            (LayerState { active: true, ..s1 }, true, seq![Signal::Activated])
        }
    } else if !down {
        let s1 = LayerState { captured: s0.captured.remove(key), ..s0 };
        if s.config.activation_mode == ActivationMode::Hold {
            (cleared(s1), true, reset_signals(s1))
        } else {
            (s1, true, seq![])
        }
    } else {
        (s0, true, seq![])
    }
}

/// Whether the layer takes `key`: a fresh press of a bound key while the
/// layer is on.
pub open spec fn takes(s: LayerState, key: Key, down: bool) -> bool {
    down && is_fresh(s, key, down) && s.active && is_mapped(s.config, key)
}

/// Any other key: a fresh press of a bound key while the layer is on is
/// taken and acts (the left-button key flips the lock in toggle drag mode);
/// everything else passes through to ordinary typing.
pub open spec fn other_step(s: LayerState, key: Key, down: bool) -> (LayerState, bool, Seq<Signal>) {
    let s0 = with_physical(s, key, down);
    if takes(s, key, down) {
        let s1 = LayerState { captured: s0.captured.insert(key), ..s0 };
        if key == s.config.clicks[0] && s.config.drag_mode == DragMode::Toggle {
            let s2 = LayerState { drag_locked: !s.drag_locked, ..s1 };
            (s2, true, seq![Signal::DragLocked(!s.drag_locked)] + sync_signals(s, s2))
        } else {
            let s2 = LayerState { pressed: s1.pressed.insert(key), ..s1 };
            (s2, true, sync_signals(s, s2))
        }
    } else {
        (s0, false, seq![])
    }
}

/// The state, the suppression decision and the signals after the key event
/// `key` (`down` for a press, otherwise a release) in state `s`.
pub open spec fn key_step(s: LayerState, key: Key, down: bool) -> (LayerState, bool, Seq<Signal>) {
    if owns(s, key) {
        owned_step(s, key, down)
    } else if is_activation(s, key) {
        activation_step(s, key, down)
    } else {
        other_step(s, key, down)
    }
}

/// Every key event keeps what holds of every state of the layer.
pub proof fn lemma_key_step_keeps_invariants(s: LayerState, key: Key, down: bool)
    requires
        invariants(s),
    ensures
        invariants(key_step(s, key, down).0),
{
    let r = key_step(s, key, down).0;
    let s0 = with_physical(s, key, down);
    if owns(s, key) {
        assert forall|k: Key| r.pressed.contains(k) implies r.captured.contains(k) by {
            assert(s.captured.contains(k));
        }
        assert forall|k: Key| r.captured.contains(k) implies r.physical.contains(k) by {
            assert(s.physical.contains(k));
        }
        if !r.active {
            assert(r.pressed =~= Set::<Key>::empty());
        }
    } else if is_activation(s, key) {
        assert forall|k: Key| r.pressed.contains(k) implies r.captured.contains(k) by {
            assert(s.pressed.contains(k));
            assert(s.captured.contains(k));
        }
        assert forall|k: Key| r.captured.contains(k) implies r.physical.contains(k) by {
            if k != key {
                assert(s.physical.contains(k));
            }
        }
        if !r.active {
            assert(r.pressed =~= Set::<Key>::empty());
        }
    } else {
        if !takes(s, key, down) && !down {
            assert(!s.captured.contains(key));
        }
        assert forall|k: Key| r.pressed.contains(k) implies r.captured.contains(k) by {
            if k != key {
                assert(s.captured.contains(k));
            }
        }
        assert forall|k: Key| r.captured.contains(k) implies r.physical.contains(k) by {
            if k != key {
                assert(s.physical.contains(k));
            }
        }
        if !r.active {
            assert(r.pressed =~= Set::<Key>::empty());
        }
    }
}

/// The state in which the layer starts with the keys `config`.
pub open spec fn initial_state(config: KeyConfig) -> LayerState {
    LayerState {
        config,
        active: false,
        enabled: true,
        physical: Set::empty(),
        captured: Set::empty(),
        pressed: Set::empty(),
        drag_locked: false,
    }
}

/// The fields of the layer, without its invariant.
struct Core {
    config: KeyConfig,
    active: bool,
    enabled: bool,
    physical: KeySet,
    captured: KeySet,
    pressed: KeySet,
    left_button: bool,
    right_button: bool,
    drag_locked: bool,
    direction: (i32, i32),
    scroll_direction: i32,
    signals: Vec<Signal>,
}

impl Core {
    spec fn state(&self) -> LayerState {
        LayerState {
            config: self.config,
            active: self.active,
            enabled: self.enabled,
            physical: self.physical@,
            captured: self.captured@,
            pressed: self.pressed@,
            drag_locked: self.drag_locked,
        }
    }

    /// The button, movement and scroll fields are those of `s`.
    spec fn outputs_match(&self, s: LayerState) -> bool {
        &&& self.left_button == button_down(s, 0)
        &&& self.right_button == button_down(s, 1)
        &&& self.direction.0 == movement_x(s)
        &&& self.direction.1 == movement_y(s)
        &&& self.scroll_direction == scroll_of(s)
    }

    spec fn wf(&self) -> bool {
        &&& invariants(self.state())
        &&& self.outputs_match(self.state())
    }

    fn new(config: KeyConfig) -> (c: Core)
        ensures
            c.wf(),
            c.state() == initial_state(config),
            c.signals@ == Seq::<Signal>::empty(),
    {
        let c = Core {
            config,
            active: false,
            enabled: true,
            physical: KeySet::new(),
            captured: KeySet::new(),
            pressed: KeySet::new(),
            left_button: false,
            right_button: false,
            drag_locked: false,
            direction: (0, 0),
            scroll_direction: 0,
            signals: Vec::new(),
        };
        assert(c.state() =~= initial_state(config));
        c
    }

    fn held(&self, k: Key) -> (r: i32)
        ensures
            r == held(self.state(), k),
    {
        if self.active && self.pressed.contains(k) {
            1
        } else {
            0
        }
    }

    /// Brings the button, movement and scroll fields from `prev` to the
    /// current state, with a signal for each change.
    fn update(&mut self, Ghost(prev): Ghost<LayerState>)
        requires
            old(self).outputs_match(prev),
        ensures
            final(self).state() == old(self).state(),
            final(self).outputs_match(final(self).state()),
            final(self).signals@ == old(self).signals@ + sync_signals(prev, old(self).state()),
    {
        let ghost now = self.state();
        let ghost start = self.signals@;
        self.sync_left(Ghost(prev));
        let ghost s1 = self.signals@;
        self.sync_right(Ghost(prev));
        let ghost s2 = self.signals@;
        self.sync_movement(Ghost(prev));
        let ghost s3 = self.signals@;
        self.sync_scroll(Ghost(prev));
        proof {
            let l = left_signal(prev, now);
            let r = right_signal(prev, now);
            let mv = movement_signal(prev, now);
            let sg = scroll_signal(prev, now);
            assert(self.signals@ =~= start + sync_signals(prev, now));
        }
    }

    fn sync_left(&mut self, Ghost(prev): Ghost<LayerState>)
        requires
            old(self).left_button == button_down(prev, 0),
        ensures
            final(self).state() == old(self).state(),
            final(self).left_button == button_down(old(self).state(), 0),
            final(self).right_button == old(self).right_button,
            final(self).direction == old(self).direction,
            final(self).scroll_direction == old(self).scroll_direction,
            final(self).signals@ == old(self).signals@ + left_signal(prev, old(self).state()),
    {
        let ghost now = self.state();
        let left = self.active && if self.config.drag_mode == DragMode::Toggle {
            self.drag_locked
        } else {
            self.pressed.contains(self.config.clicks[0])
        };
        if left != self.left_button {
            self.signals.push(Signal::Button(0, left));
            self.left_button = left;
        }
        assert(self.signals@ =~= old(self).signals@ + left_signal(prev, now));
    }

    fn sync_right(&mut self, Ghost(prev): Ghost<LayerState>)
        requires
            old(self).right_button == button_down(prev, 1),
        ensures
            final(self).state() == old(self).state(),
            final(self).right_button == button_down(old(self).state(), 1),
            final(self).left_button == old(self).left_button,
            final(self).direction == old(self).direction,
            final(self).scroll_direction == old(self).scroll_direction,
            final(self).signals@ == old(self).signals@ + right_signal(prev, old(self).state()),
    {
        let ghost now = self.state();
        let right = self.active && self.pressed.contains(self.config.clicks[1]);
        if right != self.right_button {
            self.signals.push(Signal::Button(1, right));
            self.right_button = right;
        }
        assert(self.signals@ =~= old(self).signals@ + right_signal(prev, now));
    }

    fn sync_movement(&mut self, Ghost(prev): Ghost<LayerState>)
        requires
            old(self).direction.0 == movement_x(prev),
            old(self).direction.1 == movement_y(prev),
        ensures
            final(self).state() == old(self).state(),
            final(self).direction.0 == movement_x(old(self).state()),
            final(self).direction.1 == movement_y(old(self).state()),
            final(self).left_button == old(self).left_button,
            final(self).right_button == old(self).right_button,
            final(self).scroll_direction == old(self).scroll_direction,
            final(self).signals@ == old(self).signals@ + movement_signal(prev, old(self).state()),
    {
        let ghost now = self.state();
        let m = self.config.movement;
        let x = self.held(m[3]) - self.held(m[1]);
        let y = self.held(m[2]) - self.held(m[0]);
        if x != self.direction.0 || y != self.direction.1 {
            self.signals.push(Signal::Movement(x, y));
            self.direction = (x, y);
        }
        assert(self.signals@ =~= old(self).signals@ + movement_signal(prev, now));
    }

    fn sync_scroll(&mut self, Ghost(prev): Ghost<LayerState>)
        requires
            old(self).scroll_direction == scroll_of(prev),
        ensures
            final(self).state() == old(self).state(),
            final(self).scroll_direction == scroll_of(old(self).state()),
            final(self).left_button == old(self).left_button,
            final(self).right_button == old(self).right_button,
            final(self).direction == old(self).direction,
            final(self).signals@ == old(self).signals@ + scroll_signal(prev, old(self).state()),
    {
        let ghost now = self.state();
        let sc = self.config.scroll;
        let scroll = self.held(sc[0]) - self.held(sc[1]);
        if scroll != self.scroll_direction {
            self.signals.push(Signal::Scroll(scroll));
            self.scroll_direction = scroll;
        }
        assert(self.signals@ =~= old(self).signals@ + scroll_signal(prev, now));
    }

    /// Turns the layer off and lets go of the buttons and directions; owned
    /// keys stay owned until they are released.
    fn reset(&mut self)
        requires
            old(self).wf(),
        ensures
            final(self).wf(),
            final(self).state() == cleared(old(self).state()),
            final(self).signals@ == old(self).signals@ + reset_signals(old(self).state()),
    {
        let ghost prev = self.state();
        if self.active {
            self.signals.push(Signal::Deactivated);
        }
        self.active = false;
        self.drag_locked = false;
        self.pressed.clear();
        assert(self.state() =~= cleared(prev));
        self.update(Ghost(prev));
        self.signals.push(Signal::Cleared);
        assert(self.signals@ =~= old(self).signals@ + reset_signals(prev));
    }

    fn key(&mut self, key: Key, down: bool) -> (suppress: bool)
        requires
            old(self).wf(),
        ensures
            final(self).wf(),
            (final(self).state(), suppress, final(self).signals@.skip(old(self).signals@.len() as int))
                == key_step(old(self).state(), key, down),
            final(self).signals@.take(old(self).signals@.len() as int) == old(self).signals@,
    {
        let ghost s = self.state();
        let ghost start = self.signals@;
        let owned = self.captured.contains(key) && (!self.enabled || key != self.config.activation);
        let activation = key == self.config.activation && self.enabled;
        let fresh = if down {
            self.physical.insert(key)
        } else {
            self.physical.remove(key)
        };
        proof {
            lemma_key_step_keeps_invariants(s, key, down);
            assert(self.state() =~= with_physical(s, key, down));
        }
        let r = if owned {
            self.key_owned(key, down, Ghost(s))
        } else if activation {
            self.key_activation(key, down, fresh, Ghost(s))
        } else {
            self.key_other(key, down, fresh, Ghost(s))
        };
        proof {
            let step = key_step(s, key, down);
            assert(self.signals@ == start + step.2);
            assert(self.signals@.skip(start.len() as int) =~= step.2);
            assert(self.signals@.take(start.len() as int) =~= start);
        }
        r
    }

    fn key_owned(&mut self, key: Key, down: bool, Ghost(s): Ghost<LayerState>) -> (suppress: bool)
        requires
            invariants(s),
            owns(s, key),
            old(self).state() == with_physical(s, key, down),
            old(self).outputs_match(s),
        ensures
            final(self).wf(),
            final(self).state() == owned_step(s, key, down).0,
            suppress == owned_step(s, key, down).1,
            final(self).signals@ == old(self).signals@ + owned_step(s, key, down).2,
    {
        if !down {
            self.captured.remove(key);
            self.pressed.remove(key);
        }
        proof {
            assert(self.state() =~= owned_step(s, key, down).0);
            lemma_key_step_keeps_invariants(s, key, down);
        }
        self.update(Ghost(s));
        true
    }

    fn key_activation(&mut self, key: Key, down: bool, fresh: bool, Ghost(s): Ghost<LayerState>) -> (suppress: bool)
        requires
            invariants(s),
            !owns(s, key),
            is_activation(s, key),
            fresh == is_fresh(s, key, down),
            old(self).state() == with_physical(s, key, down),
            old(self).outputs_match(s),
        ensures
            final(self).wf(),
            final(self).state() == activation_step(s, key, down).0,
            suppress == activation_step(s, key, down).1,
            final(self).signals@ == old(self).signals@ + activation_step(s, key, down).2,
    {
        let ghost start = self.signals@;
        proof {
            lemma_key_step_keeps_invariants(s, key, down);
        }
        if down && fresh {
            self.captured.insert(key);
            proof {
                let s1 = self.state();
                assert(s1.pressed == s.pressed);
                assert(movement_x(s1) == movement_x(s));
                assert(movement_y(s1) == movement_y(s));
                assert(scroll_of(s1) == scroll_of(s));
                assert(button_down(s1, 0) == button_down(s, 0));
                assert(button_down(s1, 1) == button_down(s, 1));
                assert(s1.captured.subset_of(s1.physical));
                assert(s1.pressed.subset_of(s1.captured));
            }
            if self.config.activation_mode == ActivationMode::Toggle && self.active {
                self.reset();
                self.signals.push(Signal::Deactivated);
            } else {
                self.active = true;
                self.signals.push(Signal::Activated);
            }
        } else if !down {
            self.captured.remove(key);
            proof {
                let s1 = self.state();
                assert(s1.pressed == s.pressed);
                assert(movement_x(s1) == movement_x(s));
                assert(movement_y(s1) == movement_y(s));
                assert(scroll_of(s1) == scroll_of(s));
                assert(button_down(s1, 0) == button_down(s, 0));
                assert(button_down(s1, 1) == button_down(s, 1));
                assert(s1.captured.subset_of(s1.physical));
                assert forall|k: Key| s1.pressed.contains(k) implies s1.captured.contains(k) by {
                    assert(s.captured.contains(k));
                }
            }
            if self.config.activation_mode == ActivationMode::Hold {
                self.reset();
            }
        }
        proof {
            assert(self.state() =~= activation_step(s, key, down).0);
            assert(self.signals@ =~= start + activation_step(s, key, down).2);
        }
        true
    }

    fn key_other(&mut self, key: Key, down: bool, fresh: bool, Ghost(s): Ghost<LayerState>) -> (suppress: bool)
        requires
            invariants(s),
            !owns(s, key),
            !is_activation(s, key),
            fresh == is_fresh(s, key, down),
            old(self).state() == with_physical(s, key, down),
            old(self).outputs_match(s),
        ensures
            final(self).wf(),
            final(self).state() == other_step(s, key, down).0,
            suppress == other_step(s, key, down).1,
            final(self).signals@ == old(self).signals@ + other_step(s, key, down).2,
    {
        let ghost start = self.signals@;
        proof {
            lemma_key_step_keeps_invariants(s, key, down);
        }
        let mapped = contains_key4(&self.config.movement, key) || contains_key2(
            &self.config.clicks,
            key,
        ) || contains_key2(&self.config.scroll, key) || contains_key2(&self.config.precision, key);
        if down && fresh && self.active && mapped {
            self.captured.insert(key);
            if key == self.config.clicks[0] && self.config.drag_mode == DragMode::Toggle {
                self.drag_locked = !self.drag_locked;
                self.signals.push(Signal::DragLocked(self.drag_locked));
            } else {
                self.pressed.insert(key);
            }
            assert(self.state() =~= other_step(s, key, down).0);
            let ghost mid = self.signals@;
            self.update(Ghost(s));
            assert(self.signals@ =~= start + other_step(s, key, down).2);
            return true;
        }
        proof {
            assert(self.state() =~= other_step(s, key, down).0);
            assert(self.signals@ =~= start + other_step(s, key, down).2);
        }
        false
    }
}

impl Core {
    fn seed_held(&mut self, key: Key)
        requires
            old(self).wf(),
        ensures
            final(self).wf(),
            final(self).state() == (LayerState {
                physical: old(self).state().physical.insert(key),
                ..old(self).state()
            }),
            final(self).signals@ == old(self).signals@,
    {
        let ghost s = self.state();
        self.physical.insert(key);
        proof {
            let r = self.state();
            assert(r =~= LayerState { physical: s.physical.insert(key), ..s });
            assert forall|k: Key| r.captured.contains(k) implies r.physical.contains(k) by {
                assert(s.physical.contains(k));
            }
        }
    }

    fn set_enabled(&mut self, enabled: bool)
        requires
            old(self).wf(),
        ensures
            final(self).wf(),
            final(self).state() == (LayerState { enabled, ..cleared(old(self).state()) }),
            final(self).signals@ == old(self).signals@ + reset_signals(old(self).state()),
    {
        self.reset();
        self.enabled = enabled;
    }

    fn configure(&mut self, config: KeyConfig) -> (r: Result<(), String>)
        requires
            old(self).wf(),
        ensures
            final(self).wf(),
            match r {
                Ok(_) => {
                    &&& key_problem(config) is None
                    &&& final(self).state() == (LayerState { config, ..cleared(old(self).state()) })
                    &&& final(self).signals@ == old(self).signals@ + reset_signals(old(self).state())
                },
                Err(e) => {
                    &&& key_problem(config) == Some(e@)
                    &&& final(self).state() == old(self).state()
                    &&& final(self).signals@ == old(self).signals@
                },
            },
    {
        match config.validate() {
            Err(e) => Err(e),
            Ok(_) => {
                self.reset();
                self.config = config;
                Ok(())
            },
        }
    }

    fn take_signals(&mut self) -> (out: Vec<Signal>)
        requires
            old(self).wf(),
        ensures
            final(self).wf(),
            final(self).state() == old(self).state(),
            out@ == old(self).signals@,
            final(self).signals@ == Seq::<Signal>::empty(),
    {
        let mut out: Vec<Signal> = Vec::new();
        std::mem::swap(&mut out, &mut self.signals);
        out
    }
}

/// The mouse layer. It starts inactive and enabled, with no key held.
pub struct Layer {
    core: Core,
}

impl Layer {
    #[verifier::type_invariant]
    spec fn core_is_valid(&self) -> bool {
        self.core.wf()
    }

    /// The state of the layer.
    pub closed spec fn view(&self) -> LayerState {
        self.core.state()
    }

    /// The signals not yet taken, oldest first.
    pub closed spec fn signals(&self) -> Seq<Signal> {
        self.core.signals@
    }

    /// A layer with the keys `config`: inactive, enabled, no key held.
    pub fn new(config: KeyConfig) -> (l: Layer)
        ensures
            l@ == initial_state(config),
            l.signals() == Seq::<Signal>::empty(),
            invariants(l@),
    {
        Layer { core: Core::new(config) }
    }

    /// Takes the fields out, leaving a valid blank in their place.
    fn take_core(&mut self) -> (c: Core)
        ensures
            c == old(self).core,
            c.wf(),
    {
        proof {
            use_type_invariant(&*self);
        }
        let mut c = Core::new(KeyConfig::new());
        std::mem::swap(&mut c, &mut self.core);
        c
    }

    /// Records a key that was already down when the layer started; such a
    /// key keeps its ordinary meaning until it is released.
    pub fn seed_held(&mut self, key: Key)
        ensures
            final(self)@ == (LayerState { physical: old(self)@.physical.insert(key), ..old(self)@ }),
            final(self).signals() == old(self).signals(),
            invariants(final(self)@),
    {
        let mut c = self.take_core();
        c.seed_held(key);
        self.core = c;
    }

    /// Resets the layer, then enables or pauses control.
    pub fn set_enabled(&mut self, enabled: bool)
        ensures
            final(self)@ == (LayerState { enabled, ..cleared(old(self)@) }),
            final(self).signals() == old(self).signals() + reset_signals(old(self)@),
            invariants(final(self)@),
    {
        let mut c = self.take_core();
        c.set_enabled(enabled);
        self.core = c;
    }

    /// Takes new keys if they are valid, resetting the layer first; invalid
    /// keys are refused with the message of `KeyConfig::validate` and change
    /// nothing.
    pub fn configure(&mut self, config: KeyConfig) -> (r: Result<(), String>)
        ensures
            match r {
                Ok(_) => {
                    &&& key_problem(config) is None
                    &&& final(self)@ == (LayerState { config, ..cleared(old(self)@) })
                    &&& final(self).signals() == old(self).signals() + reset_signals(old(self)@)
                },
                Err(e) => {
                    &&& key_problem(config) == Some(e@)
                    &&& final(self)@ == old(self)@
                    &&& final(self).signals() == old(self).signals()
                },
            },
            invariants(final(self)@),
    {
        let mut c = self.take_core();
        let r = c.configure(config);
        self.core = c;
        r
    }

    /// Turns the layer off and lets go of the buttons and directions. Keys
    /// that the layer owns stay owned until they are released, so that no
    /// partial key sequence leaks into typing.
    pub fn reset(&mut self)
        ensures
            final(self)@ == cleared(old(self)@),
            final(self).signals() == old(self).signals() + reset_signals(old(self)@),
            invariants(final(self)@),
    {
        let mut c = self.take_core();
        c.reset();
        self.core = c;
    }

    /// Hands out the signals not yet taken, oldest first.
    pub fn take_signals(&mut self) -> (out: Vec<Signal>)
        ensures
            out@ == old(self).signals(),
            final(self)@ == old(self)@,
            final(self).signals() == Seq::<Signal>::empty(),
            invariants(final(self)@),
    {
        let mut c = self.take_core();
        let out = c.take_signals();
        self.core = c;
        out
    }

    /// The keys in use.
    pub fn config(&self) -> (c: KeyConfig)
        ensures
            c == self@.config,
    {
        self.core.config
    }

    /// Whether the mouse layer is on.
    pub fn active(&self) -> (r: bool)
        ensures
            r == self@.active,
    {
        self.core.active
    }

    /// Whether control is enabled.
    pub fn enabled(&self) -> (r: bool)
        ensures
            r == self@.enabled,
    {
        self.core.enabled
    }

    /// Whether `key` is physically down.
    pub fn is_down(&self, key: Key) -> (r: bool)
        ensures
            r == self@.physical.contains(key),
    {
        self.core.physical.contains(key)
    }

    /// Whether mouse button `index` (0 left, 1 right) is held down.
    pub fn button(&self, index: usize) -> (r: bool)
        requires
            index < 2,
        ensures
            r == button_down(self@, index as int),
    {
        proof {
            use_type_invariant(self);
        }
        if index == 0 {
            self.core.left_button
        } else {
            self.core.right_button
        }
    }

    /// The movement direction `(x, y)`: each -1, 0 or 1, positive `y` down.
    pub fn movement(&self) -> (d: (i32, i32))
        ensures
            d.0 == movement_x(self@),
            d.1 == movement_y(self@),
    {
        proof {
            use_type_invariant(self);
        }
        self.core.direction
    }

    /// The scroll direction: 1 up, -1 down, 0 none.
    pub fn scroll_direction(&self) -> (d: i32)
        ensures
            d == scroll_of(self@),
    {
        proof {
            use_type_invariant(self);
        }
        self.core.scroll_direction
    }
}

impl InputListener for Layer {
    /// Handles a key event and says whether to keep it from ordinary typing.
    fn key(&mut self, key: Key, down: bool) -> (suppress: bool)
        ensures
            (final(self)@, suppress, final(self).signals().skip(old(self).signals().len() as int))
                == key_step(old(self)@, key, down),
            final(self).signals().take(old(self).signals().len() as int) == old(self).signals(),
            invariants(final(self)@),
    {
        let mut c = self.take_core();
        let r = c.key(key, down);
        self.core = c;
        r
    }
}

fn contains_key4(keys: &[Key; 4], k: Key) -> (r: bool)
    ensures
        r == keys@.contains(k),
{
    let r = keys[0] == k || keys[1] == k || keys[2] == k || keys[3] == k;
    proof {
        if keys@.contains(k) {
            let i = choose|i: int| 0 <= i < 4 && keys@[i] == k;
            assert(keys@[i] == keys[i]);
        }
        if r {
            if keys[0] == k {
                assert(keys@[0] == k);
            } else if keys[1] == k {
                assert(keys@[1] == k);
            } else if keys[2] == k {
                assert(keys@[2] == k);
            } else {
                assert(keys@[3] == k);
            }
        }
    }
    r
}

fn contains_key2(keys: &[Key; 2], k: Key) -> (r: bool)
    ensures
        r == keys@.contains(k),
{
    let r = keys[0] == k || keys[1] == k;
    proof {
        if keys@.contains(k) {
            let i = choose|i: int| 0 <= i < 2 && keys@[i] == k;
            assert(keys@[i] == keys[i]);
        }
        if r {
            if keys[0] == k {
                assert(keys@[0] == k);
            } else {
                assert(keys@[1] == k);
            }
        }
    }
    r
}

} // verus!
