//! Windows virtual-key codes of the keys that can be bound.

use vstd::prelude::*;
use crate::config::{Key, is_choice};

verus! {

/// The key that a virtual-key code stands for, if it is one that can be
/// bound.
pub open spec fn key_of_code(vk: u32) -> Option<Key> {
    if 0x41 <= vk <= 0x5a {
        Some(Key::Letter(vk as char))
    } else if vk == 0x14 {
        Some(Key::CapsLock)
    } else if vk == 0x0d {
        Some(Key::Enter)
    } else if vk == 0x20 {
        Some(Key::Space)
    } else if vk == 0xa0 {
        Some(Key::LeftShift)
    } else if vk == 0xa1 {
        Some(Key::RightShift)
    } else if 0x30 <= vk <= 0x39 {
        Some(Key::Digit((vk - 0x30) as u8))
    } else if 0x70 <= vk <= 0x7b {
        Some(Key::Function((vk - 0x70 + 1) as u8))
    } else if vk == 0x09 {
        Some(Key::Tab)
    } else if vk == 0x08 {
        Some(Key::Backspace)
    } else if vk == 0x1b {
        Some(Key::Escape)
    } else if vk == 0x25 {
        Some(Key::Left)
    } else if vk == 0x26 {
        Some(Key::Up)
    } else if vk == 0x27 {
        Some(Key::Right)
    } else if vk == 0x28 {
        Some(Key::Down)
    } else {
        None
    }
}

/// The code that a bindable key has.
pub open spec fn code_of_key(k: Key) -> u32 {
    match k {
        Key::Letter(c) => c as u32,
        Key::Digit(n) => (0x30 + n) as u32,
        Key::Function(n) => (0x70 + n - 1) as u32,
        Key::CapsLock => 0x14,
        Key::Enter => 0x0d,
        Key::Space => 0x20,
        Key::LeftShift => 0xa0,
        Key::RightShift => 0xa1,
        Key::Tab => 0x09,
        Key::Backspace => 0x08,
        Key::Escape => 0x1b,
        Key::Left => 0x25,
        Key::Up => 0x26,
        Key::Right => 0x27,
        Key::Down => 0x28,
    }
}

/// The key that the virtual-key code `vk` stands for.
pub fn translate(vk: u32) -> (k: Option<Key>)
    ensures
        k == key_of_code(vk),
{
    if 0x41 <= vk && vk <= 0x5a {
        Some(Key::Letter((vk as u8) as char))
    } else if vk == 0x14 {
        Some(Key::CapsLock)
    } else if vk == 0x0d {
        Some(Key::Enter)
    } else if vk == 0x20 {
        Some(Key::Space)
    } else if vk == 0xa0 {
        Some(Key::LeftShift)
    } else if vk == 0xa1 {
        Some(Key::RightShift)
    } else if 0x30 <= vk && vk <= 0x39 {
        Some(Key::Digit((vk - 0x30) as u8))
    } else if 0x70 <= vk && vk <= 0x7b {
        Some(Key::Function((vk - 0x70 + 1) as u8))
    } else if vk == 0x09 {
        Some(Key::Tab)
    } else if vk == 0x08 {
        Some(Key::Backspace)
    } else if vk == 0x1b {
        Some(Key::Escape)
    } else if vk == 0x25 {
        Some(Key::Left)
    } else if vk == 0x26 {
        Some(Key::Up)
    } else if vk == 0x27 {
        Some(Key::Right)
    } else if vk == 0x28 {
        Some(Key::Down)
    } else {
        None
    }
}

/// The keys that codes stand for are exactly the keys that can be bound,
/// each under one code.
pub proof fn lemma_codes_are_the_bindable_keys(vk: u32, k: Key)
    ensures
        key_of_code(vk) == Some(k) ==> is_choice(k) && code_of_key(k) == vk,
        is_choice(k) ==> key_of_code(code_of_key(k)) == Some(k),
{
    if is_choice(k) {
        if let Key::Letter(c) = k {
            assert((c as u32) as char == c);
        }
    }
}

} // verus!
