# keybmouse

Keyboard-driven mouse control for Windows: hold (or toggle) an activation key
and move, click, drag and scroll with ordinary keys.

`src/` is the verified library:

- `config.rs` — the bindable keys, their labels and reading them back, and the
  key part of the settings with its validation.
- `settings.rs` — the settings file format: writing it, reading it, and the
  proof that what is written reads back unchanged.
- `keyset.rs` — a small set of keys.
- `layer.rs` — the mouse layer: key ownership, activation, buttons, movement
  and scroll directions, as a state machine with a specification of every key
  event.
- `laws.rs` — what the layer promises across key events.
- `vk.rs` — Windows virtual-key codes of the bindable keys.
- `buttons.rs` — the record of which synthetic mouse buttons are down.
- `text.rs` — whitespace, trimming and decimal notation.

`app/` is the program around it: the motion numbers and the time-based
movement (floating point), the Windows input hook and mouse output, and the
settings window.
