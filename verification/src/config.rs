//! Keys that can be bound, their labels, and the key part of the settings:
//! which key does what, how activation and dragging behave, and when a set
//! of bindings is acceptable.

use vstd::prelude::*;
use crate::text::{decimal, lemma_small_decimal, plain, lemma_decimal_plain, push_char, push_decimal, chars_of, same_chars};

verus! {

/// A logical keyboard key.
#[derive(Clone, Copy, Debug, PartialEq, Eq, Hash, Structural)]
pub enum Key {
    Letter(char),
    Digit(u8),
    Function(u8),
    CapsLock,
    Enter,
    Space,
    LeftShift,
    RightShift,
    Tab,
    Backspace,
    Escape,
    Up,
    Down,
    Left,
    Right,
}

/// How the activation key turns the mouse layer on.
#[derive(Clone, Copy, Debug, PartialEq, Eq, Structural)]
pub enum ActivationMode {
    /// The layer is on while the activation key is held.
    Hold,
    /// Each press of the activation key turns the layer on or off.
    Toggle,
}

/// How the left-button key behaves.
#[derive(Clone, Copy, Debug, PartialEq, Eq, Structural)]
pub enum DragMode {
    /// The left button is down while its key is held.
    Hold,
    /// Each press of the left-button key locks or unlocks the left button.
    Toggle,
}

impl Default for ActivationMode {
    fn default() -> (m: Self)
        ensures
            m == ActivationMode::Hold,
    {
        ActivationMode::Hold
    }
}

impl Default for DragMode {
    fn default() -> (m: Self)
        ensures
            m == DragMode::Hold,
    {
        DragMode::Hold
    }
}

/// The keys with a name of their own, in the order in which they are offered.
pub open spec fn named_keys() -> Seq<Key> {
    seq![
        Key::CapsLock,
        Key::Enter,
        Key::Space,
        Key::LeftShift,
        Key::RightShift,
        Key::Tab,
        Key::Backspace,
        Key::Escape,
        Key::Up,
        Key::Down,
        Key::Left,
        Key::Right,
    ]
}

/// The letter keys `A` to `Z`.
pub open spec fn letter_keys() -> Seq<Key> {
    Seq::new(26, |i: int| Key::Letter((65 + i) as char))
}

/// The digit keys `0` to `9`.
pub open spec fn digit_keys() -> Seq<Key> {
    Seq::new(10, |i: int| Key::Digit(i as u8))
}

/// The function keys `F1` to `F12`.
pub open spec fn function_keys() -> Seq<Key> {
    Seq::new(12, |i: int| Key::Function((i + 1) as u8))
}

/// Every key that can be bound, in the order in which they are offered.
pub open spec fn choices_seq() -> Seq<Key> {
    named_keys() + letter_keys() + digit_keys() + function_keys()
}

/// Whether `k` is a key that can be bound: a named key, `A`–`Z`, `0`–`9` or
/// `F1`–`F12`.
pub open spec fn is_choice(k: Key) -> bool {
    match k {
        Key::Letter(c) => 'A' <= c <= 'Z',
        Key::Digit(n) => n <= 9,
        Key::Function(n) => 1 <= n <= 12,
        _ => true,
    }
}

/// The text by which a key is shown, written and read back.
pub open spec fn label_of(k: Key) -> Seq<char> {
    match k {
        Key::Letter(c) => seq![c],
        Key::Digit(n) => decimal(n as nat),
        Key::Function(n) => "F"@ + decimal(n as nat),
        Key::CapsLock => "CapsLock"@,
        Key::Enter => "Enter"@,
        Key::Space => "Space"@,
        Key::LeftShift => "LeftShift"@,
        Key::RightShift => "RightShift"@,
        Key::Tab => "Tab"@,
        Key::Backspace => "Backspace"@,
        Key::Escape => "Escape"@,
        Key::Up => "Up"@,
        Key::Down => "Down"@,
        Key::Left => "Left"@,
        Key::Right => "Right"@,
    }
}

/// The message for a label that names no key.
pub open spec fn unknown_key_message(value: Seq<char>) -> Seq<char> {
    "Tuntematon näppäin: "@ + value
}

/// The key whose label is `value`, if a bindable key has that label.
pub open spec fn key_with_label(value: Seq<char>) -> Option<Key> {
    if exists|k: Key| is_choice(k) && label_of(k) == value {
        Some(choose|k: Key| is_choice(k) && label_of(k) == value)
    } else {
        None
    }
}

/// A key is offered exactly when it can be bound.
pub proof fn lemma_choices_are_the_bindable_keys(k: Key)
    ensures
        choices_seq().contains(k) <==> is_choice(k),
{
    let s = choices_seq();
    assert(s.len() == 60);
    if is_choice(k) {
        match k {
            Key::Letter(c) => {
                let i = c as int - 65;
                assert(letter_keys()[i] == k);
                assert(s[12 + i] == k);
            },
            Key::Digit(n) => {
                assert(digit_keys()[n as int] == k);
                assert(s[38 + n as int] == k);
            },
            Key::Function(n) => {
                assert(function_keys()[n as int - 1] == k);
                assert(s[47 + n as int] == k);
            },
            Key::CapsLock => assert(s[0] == k),
            Key::Enter => assert(s[1] == k),
            Key::Space => assert(s[2] == k),
            Key::LeftShift => assert(s[3] == k),
            Key::RightShift => assert(s[4] == k),
            Key::Tab => assert(s[5] == k),
            Key::Backspace => assert(s[6] == k),
            Key::Escape => assert(s[7] == k),
            Key::Up => assert(s[8] == k),
            Key::Down => assert(s[9] == k),
            Key::Left => assert(s[10] == k),
            Key::Right => assert(s[11] == k),
        }
    }
    if s.contains(k) {
        let i = choose|i: int| 0 <= i < s.len() && s[i] == k;
        if i < 12 {
        } else if i < 38 {
            assert(s[i] == letter_keys()[i - 12]);
        } else if i < 48 {
            assert(s[i] == digit_keys()[i - 38]);
        } else {
            assert(s[i] == function_keys()[i - 48]);
        }
    }
}

/// No two bindable keys share a label.
pub proof fn lemma_labels_are_distinct(a: Key, b: Key)
    requires
        is_choice(a),
        is_choice(b),
        label_of(a) == label_of(b),
    ensures
        a == b,
{
    reveal_strlit("F");
    reveal_strlit("CapsLock");
    reveal_strlit("Enter");
    reveal_strlit("Space");
    reveal_strlit("LeftShift");
    reveal_strlit("RightShift");
    reveal_strlit("Tab");
    reveal_strlit("Backspace");
    reveal_strlit("Escape");
    reveal_strlit("Up");
    reveal_strlit("Down");
    reveal_strlit("Left");
    reveal_strlit("Right");
    match a {
        Key::Digit(n) => lemma_small_decimal(n as nat),
        Key::Function(n) => lemma_small_decimal(n as nat),
        _ => {},
    }
    match b {
        Key::Digit(n) => lemma_small_decimal(n as nat),
        Key::Function(n) => lemma_small_decimal(n as nat),
        _ => {},
    }
    let la = label_of(a);
    assert(la.len() >= 1);
    assert(la[0] == label_of(b)[0]);
    if la.len() >= 2 {
        assert(la[1] == label_of(b)[1]);
    }
    if la.len() >= 3 {
        assert(la[2] == label_of(b)[2]);
    }
}

/// The label of a bindable key is plain text.
pub proof fn lemma_label_plain(k: Key)
    requires
        is_choice(k),
    ensures
        plain(label_of(k)),
        label_of(k).len() >= 1,
{
    reveal_strlit("F");
    reveal_strlit("CapsLock");
    reveal_strlit("Enter");
    reveal_strlit("Space");
    reveal_strlit("LeftShift");
    reveal_strlit("RightShift");
    reveal_strlit("Tab");
    reveal_strlit("Backspace");
    reveal_strlit("Escape");
    reveal_strlit("Up");
    reveal_strlit("Down");
    reveal_strlit("Left");
    reveal_strlit("Right");
    match k {
        Key::Digit(n) => lemma_decimal_plain(n as nat),
        Key::Function(n) => {
            lemma_decimal_plain(n as nat);
            let l = label_of(k);
            assert forall|i: int| 0 <= i < l.len() implies !crate::text::is_space(#[trigger] l[i])
                && l[i] != '=' && l[i] != '\n' by {
                if i > 0 {
                    assert(l[i] == decimal(n as nat)[i - 1]);
                }
            }
        },
        _ => {},
    }
}

/// Each named key is labelled with its own name, each letter and digit key
/// with its character, and each function key with `F` and its number; so
/// each of these labels reads back as that very key.
pub proof fn lemma_labels_are_key_names()
    ensures
        label_of(Key::CapsLock) == seq!['C', 'a', 'p', 's', 'L', 'o', 'c', 'k'],
        label_of(Key::Enter) == seq!['E', 'n', 't', 'e', 'r'],
        label_of(Key::Space) == seq!['S', 'p', 'a', 'c', 'e'],
        label_of(Key::LeftShift) == seq!['L', 'e', 'f', 't', 'S', 'h', 'i', 'f', 't'],
        label_of(Key::RightShift) == seq!['R', 'i', 'g', 'h', 't', 'S', 'h', 'i', 'f', 't'],
        label_of(Key::Tab) == seq!['T', 'a', 'b'],
        label_of(Key::Backspace) == seq!['B', 'a', 'c', 'k', 's', 'p', 'a', 'c', 'e'],
        label_of(Key::Escape) == seq!['E', 's', 'c', 'a', 'p', 'e'],
        label_of(Key::Up) == seq!['U', 'p'],
        label_of(Key::Down) == seq!['D', 'o', 'w', 'n'],
        label_of(Key::Left) == seq!['L', 'e', 'f', 't'],
        label_of(Key::Right) == seq!['R', 'i', 'g', 'h', 't'],
        forall|c: char| #[trigger] label_of(Key::Letter(c)) == seq![c],
        forall|n: u8| n <= 9 ==> #[trigger] label_of(Key::Digit(n)) == seq![(48 + n) as char],
        forall|n: u8|
            1 <= n <= 9 ==> #[trigger] label_of(Key::Function(n)) == seq!['F', (48 + n) as char],
        forall|n: u8|
            10 <= n <= 12 ==> #[trigger] label_of(Key::Function(n)) == seq![
                'F',
                '1',
                (38 + n) as char,
            ],
        key_with_label(seq!['L', 'e', 'f', 't']) == Some(Key::Left),
        key_with_label(seq!['R', 'i', 'g', 'h', 't']) == Some(Key::Right),
        key_with_label(seq!['U', 'p']) == Some(Key::Up),
        key_with_label(seq!['D', 'o', 'w', 'n']) == Some(Key::Down),
        key_with_label(seq!['E', 'n', 't', 'e', 'r']) == Some(Key::Enter),
        key_with_label(seq!['S', 'p', 'a', 'c', 'e']) == Some(Key::Space),
        key_with_label(seq!['L', 'e', 'f', 't', 'S', 'h', 'i', 'f', 't']) == Some(Key::LeftShift),
        key_with_label(seq!['R', 'i', 'g', 'h', 't', 'S', 'h', 'i', 'f', 't']) == Some(Key::RightShift),
{
    reveal_strlit("F");
    reveal_strlit("CapsLock");
    reveal_strlit("Enter");
    reveal_strlit("Space");
    reveal_strlit("LeftShift");
    reveal_strlit("RightShift");
    reveal_strlit("Tab");
    reveal_strlit("Backspace");
    reveal_strlit("Escape");
    reveal_strlit("Up");
    reveal_strlit("Down");
    reveal_strlit("Left");
    reveal_strlit("Right");
    assert(label_of(Key::CapsLock) =~= seq!['C', 'a', 'p', 's', 'L', 'o', 'c', 'k']);
    assert(label_of(Key::Enter) =~= seq!['E', 'n', 't', 'e', 'r']);
    assert(label_of(Key::Space) =~= seq!['S', 'p', 'a', 'c', 'e']);
    assert(label_of(Key::LeftShift) =~= seq!['L', 'e', 'f', 't', 'S', 'h', 'i', 'f', 't']);
    assert(label_of(Key::RightShift) =~= seq!['R', 'i', 'g', 'h', 't', 'S', 'h', 'i', 'f', 't']);
    assert(label_of(Key::Tab) =~= seq!['T', 'a', 'b']);
    assert(label_of(Key::Backspace) =~= seq!['B', 'a', 'c', 'k', 's', 'p', 'a', 'c', 'e']);
    assert(label_of(Key::Escape) =~= seq!['E', 's', 'c', 'a', 'p', 'e']);
    assert(label_of(Key::Up) =~= seq!['U', 'p']);
    assert(label_of(Key::Down) =~= seq!['D', 'o', 'w', 'n']);
    assert(label_of(Key::Left) =~= seq!['L', 'e', 'f', 't']);
    assert(label_of(Key::Right) =~= seq!['R', 'i', 'g', 'h', 't']);
    assert forall|n: u8| n <= 9 implies #[trigger] label_of(Key::Digit(n)) == seq![(48 + n) as char] by {
        lemma_small_decimal(n as nat);
    }
    assert forall|n: u8| 1 <= n <= 9 implies #[trigger] label_of(Key::Function(n)) == seq![
        'F',
        (48 + n) as char,
    ] by {
        lemma_small_decimal(n as nat);
        assert(label_of(Key::Function(n)) =~= seq!['F', (48 + n) as char]);
    }
    assert forall|n: u8| 10 <= n <= 12 implies #[trigger] label_of(Key::Function(n)) == seq![
        'F',
        '1',
        (38 + n) as char,
    ] by {
        lemma_small_decimal(n as nat);
        assert(label_of(Key::Function(n)) =~= seq!['F', '1', (38 + n) as char]);
    }
    lemma_label_reads_back(Key::Left);
    lemma_label_reads_back(Key::Right);
    lemma_label_reads_back(Key::Up);
    lemma_label_reads_back(Key::Down);
    lemma_label_reads_back(Key::Enter);
    lemma_label_reads_back(Key::Space);
    lemma_label_reads_back(Key::LeftShift);
    lemma_label_reads_back(Key::RightShift);
}

/// Reading back the label of a bindable key gives that key.
pub proof fn lemma_label_reads_back(k: Key)
    requires
        is_choice(k),
    ensures
        key_with_label(label_of(k)) == Some(k),
{
    let c = choose|c: Key| is_choice(c) && label_of(c) == label_of(k);
    lemma_labels_are_distinct(c, k);
}

impl Key {
    /// Every key that can be bound, named keys first, then `A`–`Z`, `0`–`9`
    /// and `F1`–`F12`.
    pub fn choices() -> (v: Vec<Key>)
        ensures
            v@ == choices_seq(),
    {
        let mut v: Vec<Key> = Vec::new();
        v.push(Key::CapsLock);
        v.push(Key::Enter);
        v.push(Key::Space);
        v.push(Key::LeftShift);
        v.push(Key::RightShift);
        v.push(Key::Tab);
        v.push(Key::Backspace);
        v.push(Key::Escape);
        v.push(Key::Up);
        v.push(Key::Down);
        v.push(Key::Left);
        v.push(Key::Right);
        assert(v@ =~= named_keys());
        let mut i: u8 = 0;
        while i < 26
            invariant
                i <= 26,
                v@ == named_keys() + letter_keys().take(i as int),
            decreases 26 - i,
        {
            v.push(Key::Letter((65 + i) as char));
            i = i + 1;
            assert(v@ =~= named_keys() + letter_keys().take(i as int));
        }
        assert(letter_keys().take(26) =~= letter_keys());
        let mut i: u8 = 0;
        while i < 10
            invariant
                i <= 10,
                v@ == named_keys() + letter_keys() + digit_keys().take(i as int),
            decreases 10 - i,
        {
            v.push(Key::Digit(i));
            i = i + 1;
            assert(v@ =~= named_keys() + letter_keys() + digit_keys().take(i as int));
        }
        assert(digit_keys().take(10) =~= digit_keys());
        let mut i: u8 = 1;
        while i <= 12
            invariant
                1 <= i <= 13,
                v@ == named_keys() + letter_keys() + digit_keys() + function_keys().take(i - 1),
            decreases 13 - i,
        {
            v.push(Key::Function(i));
            i = i + 1;
            assert(v@ =~= named_keys() + letter_keys() + digit_keys() + function_keys().take(
                i - 1,
            ));
        }
        assert(function_keys().take(12) =~= function_keys());
        v
    }

    /// The text by which the key is shown and stored: the letter or digit
    /// itself, `F` and the number for a function key, and the key's name for
    /// the others.
    pub fn label(self) -> (s: String)
        ensures
            s@ == label_of(self),
    {
        match self {
            Key::Letter(c) => {
                let mut s = String::new();
                push_char(&mut s, c);
                assert(s@ =~= seq![c]);
                s
            },
            Key::Digit(n) => {
                let mut s = String::new();
                push_decimal(&mut s, n);
                assert(s@ =~= decimal(n as nat));
                s
            },
            Key::Function(n) => {
                let mut s = String::from_str("F");
                push_decimal(&mut s, n);
                s
            },
            Key::CapsLock => String::from_str("CapsLock"),
            Key::Enter => String::from_str("Enter"),
            Key::Space => String::from_str("Space"),
            Key::LeftShift => String::from_str("LeftShift"),
            Key::RightShift => String::from_str("RightShift"),
            Key::Tab => String::from_str("Tab"),
            Key::Backspace => String::from_str("Backspace"),
            Key::Escape => String::from_str("Escape"),
            Key::Up => String::from_str("Up"),
            Key::Down => String::from_str("Down"),
            Key::Left => String::from_str("Left"),
            Key::Right => String::from_str("Right"),
        }
    }

    /// The bindable key whose label is `value`; an error naming `value` when
    /// there is none.
    pub fn parse(value: &str) -> (r: Result<Key, String>)
        ensures
            match r {
                Ok(k) => key_with_label(value@) == Some(k),
                Err(e) => key_with_label(value@) is None && e@ == unknown_key_message(value@),
            },
    {
        let chars = chars_of(value);
        match Key::parse_chars(&chars) {
            Some(k) => Ok(k),
            None => {
                let mut e = String::from_str("Tuntematon näppäin: ");
                e.append(value);
                Err(e)
            },
        }
    }

    /// The bindable key whose label is `value`.
    pub fn parse_chars(value: &Vec<char>) -> (r: Option<Key>)
        ensures
            r == key_with_label(value@),
    {
        let choices = Key::choices();
        let mut i: usize = 0;
        while i < choices.len()
            invariant
                choices@ == choices_seq(),
                i <= choices.len(),
                forall|j: int| 0 <= j < i ==> label_of(#[trigger] choices@[j]) != value@,
            decreases choices.len() - i,
        {
            let label = chars_of(choices[i].label().as_str());
            if same_chars(&label, value) {
                let k = choices[i];
                proof {
                    lemma_choices_are_the_bindable_keys(k);
                    assert(choices_seq().contains(k));
                    let c = choose|c: Key| is_choice(c) && label_of(c) == value@;
                    lemma_labels_are_distinct(c, k);
                }
                return Some(k);
            }
            i = i + 1;
        }
        proof {
            if exists|k: Key| is_choice(k) && label_of(k) == value@ {
                let k = choose|k: Key| is_choice(k) && label_of(k) == value@;
                lemma_choices_are_the_bindable_keys(k);
                let j = choose|j: int| 0 <= j < choices_seq().len() && choices_seq()[j] == k;
                assert(label_of(choices@[j]) != value@);
            }
        }
        None
    }
}

/// The key part of the settings: which key does what, and how activation and
/// the left button behave.
#[derive(Clone, Copy, Debug, PartialEq, Eq)]
pub struct KeyConfig {
    pub activation: Key,
    /// Up, left, down, right.
    pub movement: [Key; 4],
    /// Left, right mouse button.
    pub clicks: [Key; 2],
    /// Up, down.
    pub scroll: [Key; 2],
    pub precision: [Key; 2],
    pub activation_mode: ActivationMode,
    pub drag_mode: DragMode,
}

/// The eleven bound keys in their fixed order: activation; up, left, down,
/// right; left and right button; scroll up and down; the two precision keys.
pub open spec fn bindings_of(c: KeyConfig) -> Seq<Key> {
    seq![
        c.activation,
        c.movement[0],
        c.movement[1],
        c.movement[2],
        c.movement[3],
        c.clicks[0],
        c.clicks[1],
        c.scroll[0],
        c.scroll[1],
        c.precision[0],
        c.precision[1],
    ]
}

/// The bindings after the first `i`: the message for the first that is not a
/// bindable key or repeats an earlier one.
pub open spec fn first_key_problem(b: Seq<Key>, i: int) -> Option<Seq<char>>
    decreases b.len() - i,
{
    if i < 0 || i >= b.len() {
        None
    } else if !is_choice(b[i]) {
        Some("Virheellinen näppäin."@)
    } else if b.take(i).contains(b[i]) {
        Some(label_of(b[i]) + " on käytössä kahdesti. Valitse eri näppäimet."@)
    } else {
        first_key_problem(b, i + 1)
    }
}

/// What is wrong with the bindings of `c`, if anything.
pub open spec fn key_problem(c: KeyConfig) -> Option<Seq<char>> {
    first_key_problem(bindings_of(c), 0)
}

/// The settings that the program starts with.
pub open spec fn default_keys() -> KeyConfig {
    KeyConfig {
        activation: Key::CapsLock,
        movement: [Key::Letter('W'), Key::Letter('A'), Key::Letter('S'), Key::Letter('D')],
        clicks: [Key::Enter, Key::Space],
        scroll: [Key::Letter('Q'), Key::Letter('E')],
        precision: [Key::LeftShift, Key::RightShift],
        activation_mode: ActivationMode::Hold,
        drag_mode: DragMode::Hold,
    }
}

/// Bindings are accepted exactly when every bound key is bindable and no
/// key is bound twice.
pub proof fn lemma_key_problem_iff(c: KeyConfig)
    ensures
        key_problem(c) is None <==> {
            &&& forall|i: int| 0 <= i < 11 ==> is_choice(#[trigger] bindings_of(c)[i])
            &&& forall|i: int, j: int|
                0 <= i < j < 11 ==> #[trigger] bindings_of(c)[i] != #[trigger] bindings_of(c)[j]
        },
{
    let b = bindings_of(c);
    lemma_first_key_problem_iff(b, 0);
    if key_problem(c) is None {
        assert forall|i: int, j: int| 0 <= i < j < 11 implies #[trigger] b[i] != #[trigger] b[j] by {
            assert(b.take(j)[i] == b[i]);
        }
    }
}

proof fn lemma_first_key_problem_iff(b: Seq<Key>, i: int)
    requires
        0 <= i <= b.len(),
    ensures
        first_key_problem(b, i) is None <==> forall|j: int|
            i <= j < b.len() ==> is_choice(#[trigger] b[j]) && !b.take(j).contains(b[j]),
    decreases b.len() - i,
{
    if i < b.len() {
        lemma_first_key_problem_iff(b, i + 1);
    }
}

impl KeyConfig {
    /// Caps Lock activates; W, A, S, D move; Enter and Space click; Q and E
    /// scroll; either Shift gives precision; activation and dragging are held.
    pub fn new() -> (c: KeyConfig)
        ensures
            c == default_keys(),
    {
        KeyConfig {
            activation: Key::CapsLock,
            movement: [Key::Letter('W'), Key::Letter('A'), Key::Letter('S'), Key::Letter('D')],
            clicks: [Key::Enter, Key::Space],
            scroll: [Key::Letter('Q'), Key::Letter('E')],
            precision: [Key::LeftShift, Key::RightShift],
            activation_mode: ActivationMode::Hold,
            drag_mode: DragMode::Hold,
        }
    }

    /// The eleven bound keys in their fixed order.
    pub fn bindings(&self) -> (b: [Key; 11])
        ensures
            b@ == bindings_of(*self),
    {
        let b = [
            self.activation,
            self.movement[0],
            self.movement[1],
            self.movement[2],
            self.movement[3],
            self.clicks[0],
            self.clicks[1],
            self.scroll[0],
            self.scroll[1],
            self.precision[0],
            self.precision[1],
        ];
        assert(b@ =~= bindings_of(*self));
        b
    }

    /// Binds the eleven keys in the order of `bindings`; the modes stay.
    pub fn set_bindings(&mut self, keys: [Key; 11])
        ensures
            bindings_of(*final(self)) == keys@,
            final(self).activation_mode == old(self).activation_mode,
            final(self).drag_mode == old(self).drag_mode,
    {
        self.activation = keys[0];
        self.movement = [keys[1], keys[2], keys[3], keys[4]];
        self.clicks = [keys[5], keys[6]];
        self.scroll = [keys[7], keys[8]];
        self.precision = [keys[9], keys[10]];
        assert(bindings_of(*self) =~= keys@);
    }

    /// Accepts bindings in which every key is bindable and none is bound
    /// twice; otherwise reports the first offending binding.
    pub fn validate(&self) -> (r: Result<(), String>)
        ensures
            match r {
                Ok(_) => key_problem(*self) is None,
                Err(e) => key_problem(*self) == Some(e@),
            },
    {
        let b = self.bindings();
        let mut i: usize = 0;
        while i < 11
            invariant
                b@ == bindings_of(*self),
                i <= 11,
                key_problem(*self) == first_key_problem(b@, i as int),
            decreases 11 - i,
        {
            if !is_bindable(b[i]) {
                return Err(String::from_str("Virheellinen näppäin."));
            }
            let mut j: usize = 0;
            while j < i
                invariant
                    i < 11,
                    j <= i,
                    b@ == bindings_of(*self),
                    key_problem(*self) == first_key_problem(b@, i as int),
                    is_choice(b@[i as int]),
                    forall|m: int| 0 <= m < j ==> b@[m] != b@[i as int],
                decreases i - j,
            {
                if b[j] == b[i] {
                    proof {
                        assert(b@.take(i as int)[j as int] == b@[i as int]);
                        assert(b@.take(i as int).contains(b@[i as int]));
                    }
                    let mut e = b[i].label();
                    e.append(" on käytössä kahdesti. Valitse eri näppäimet.");
                    return Err(e);
                }
                j = j + 1;
            }
            assert(!b@.take(i as int).contains(b@[i as int]));
            i = i + 1;
        }
        Ok(())
    }
}

impl Default for KeyConfig {
    fn default() -> (c: KeyConfig)
        ensures
            c == default_keys(),
    {
        KeyConfig::new()
    }
}

/// Whether `k` is a key that can be bound.
pub fn is_bindable(k: Key) -> (r: bool)
    ensures
        r == is_choice(k),
{
    match k {
        Key::Letter(c) => 'A' <= c && c <= 'Z',
        Key::Digit(n) => n <= 9,
        Key::Function(n) => 1 <= n && n <= 12,
        _ => true,
    }
}

} // verus!
