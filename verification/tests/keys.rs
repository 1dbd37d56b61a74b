use keybmouse::buttons::{button_is_down, with_button};
use keybmouse::config::{ActivationMode, DragMode, Key, KeyConfig};
use keybmouse::vk::translate;

#[test]
fn choices_offer_every_bindable_key_once() {
    let choices = Key::choices();
    assert_eq!(choices.len(), 60);
    assert_eq!(choices[0], Key::CapsLock);
    assert_eq!(choices[11], Key::Right);
    assert_eq!(choices[12], Key::Letter('A'));
    assert_eq!(choices[37], Key::Letter('Z'));
    assert_eq!(choices[38], Key::Digit(0));
    assert_eq!(choices[47], Key::Digit(9));
    assert_eq!(choices[48], Key::Function(1));
    assert_eq!(choices[59], Key::Function(12));
    for (i, a) in choices.iter().enumerate() {
        for b in &choices[i + 1..] {
            assert_ne!(a, b);
            assert_ne!(a.label(), b.label());
        }
    }
}

#[test]
fn labels_name_keys() {
    assert_eq!(Key::Letter('W').label(), "W");
    assert_eq!(Key::Digit(7).label(), "7");
    assert_eq!(Key::Function(8).label(), "F8");
    assert_eq!(Key::Function(12).label(), "F12");
    assert_eq!(Key::CapsLock.label(), "CapsLock");
    assert_eq!(Key::RightShift.label(), "RightShift");
    assert_eq!(Key::Digit(200).label(), "200");
}

#[test]
fn parse_reads_labels_back() {
    for key in Key::choices() {
        assert_eq!(Key::parse(&key.label()), Ok(key));
    }
    assert_eq!(Key::parse("Enter"), Ok(Key::Enter));
    assert_eq!(Key::parse("F10"), Ok(Key::Function(10)));
    assert_eq!(Key::parse("w"), Err("Tuntematon näppäin: w".to_string()));
    assert_eq!(Key::parse("F13"), Err("Tuntematon näppäin: F13".to_string()));
    assert_eq!(Key::parse(""), Err("Tuntematon näppäin: ".to_string()));
}

#[test]
fn default_keys_are_valid() {
    let keys = KeyConfig::default();
    assert_eq!(keys.activation, Key::CapsLock);
    assert_eq!(keys.movement, [Key::Letter('W'), Key::Letter('A'), Key::Letter('S'), Key::Letter('D')]);
    assert_eq!(keys.clicks, [Key::Enter, Key::Space]);
    assert_eq!(keys.scroll, [Key::Letter('Q'), Key::Letter('E')]);
    assert_eq!(keys.precision, [Key::LeftShift, Key::RightShift]);
    assert_eq!(keys.activation_mode, ActivationMode::Hold);
    assert_eq!(keys.drag_mode, DragMode::Hold);
    assert_eq!(keys.validate(), Ok(()));
}

#[test]
fn bindings_follow_the_fixed_order() {
    let mut keys = KeyConfig::default();
    let mut b = keys.bindings();
    assert_eq!(b[0], Key::CapsLock);
    assert_eq!(b[4], Key::Letter('D'));
    assert_eq!(b[10], Key::RightShift);
    b[0] = Key::Function(8);
    b[5] = Key::Digit(1);
    keys.set_bindings(b);
    assert_eq!(keys.activation, Key::Function(8));
    assert_eq!(keys.clicks[0], Key::Digit(1));
    assert_eq!(keys.bindings(), b);
}

#[test]
fn validate_reports_the_first_problem() {
    let mut keys = KeyConfig::default();
    keys.clicks[0] = keys.activation;
    assert_eq!(keys.validate(), Err("CapsLock on käytössä kahdesti. Valitse eri näppäimet.".to_string()));
    let mut keys = KeyConfig::default();
    keys.movement[1] = Key::Letter('a');
    assert_eq!(keys.validate(), Err("Virheellinen näppäin.".to_string()));
    let mut keys = KeyConfig::default();
    keys.precision[1] = Key::Function(13);
    keys.scroll[0] = Key::Letter('W');
    assert_eq!(keys.validate(), Err("W on käytössä kahdesti. Valitse eri näppäimet.".to_string()));
    let mut keys = KeyConfig::default();
    keys.movement[0] = Key::Digit(10);
    keys.clicks[1] = Key::Enter;
    assert_eq!(keys.validate(), Err("Virheellinen näppäin.".to_string()));
}

#[test]
fn virtual_key_codes_translate_to_bindable_keys() {
    assert_eq!(translate(0x41), Some(Key::Letter('A')));
    assert_eq!(translate(0x5a), Some(Key::Letter('Z')));
    assert_eq!(translate(0x14), Some(Key::CapsLock));
    assert_eq!(translate(0x0d), Some(Key::Enter));
    assert_eq!(translate(0x30), Some(Key::Digit(0)));
    assert_eq!(translate(0x39), Some(Key::Digit(9)));
    assert_eq!(translate(0x70), Some(Key::Function(1)));
    assert_eq!(translate(0x7b), Some(Key::Function(12)));
    assert_eq!(translate(0x25), Some(Key::Left));
    assert_eq!(translate(0x28), Some(Key::Down));
    assert_eq!(translate(0xa1), Some(Key::RightShift));
    assert_eq!(translate(0x7c), None);
    assert_eq!(translate(0x61), None);
    let mut count = 0;
    for vk in 0..=255u32 {
        if let Some(key) = translate(vk) {
            assert!(Key::choices().contains(&key));
            count += 1;
        }
    }
    assert_eq!(count, 60);
}

#[test]
fn button_mask_records_each_button() {
    let mask = with_button(0, 0, true);
    assert_eq!(mask, 1);
    assert!(button_is_down(mask, 0));
    assert!(!button_is_down(mask, 1));
    let mask = with_button(mask, 1, true);
    assert_eq!(mask, 3);
    let mask = with_button(mask, 0, false);
    assert_eq!(mask, 2);
    assert!(!button_is_down(mask, 0));
    assert!(button_is_down(mask, 1));
    assert_eq!(with_button(mask, 1, true), mask);
}
