use keybmouse::config::{ActivationMode, Key, KeyConfig};
use keybmouse::settings::{decode_settings, encode_settings, number_name, NUMBER_COUNT};

fn numbers() -> [String; 6] {
    ["200", "1100", "1500", "0.18", "6", "100"].map(String::from)
}

fn f8_keys() -> KeyConfig {
    let mut keys = KeyConfig::default();
    keys.activation = Key::Function(8);
    keys
}

#[test]
fn encoding_writes_one_setting_per_line() {
    let text = encode_settings(&KeyConfig::default(), &numbers());
    assert_eq!(
        text,
        "version=1\nkey0=CapsLock\nkey1=W\nkey2=A\nkey3=S\nkey4=D\nkey5=Enter\nkey6=Space\nkey7=Q\nkey8=E\nkey9=LeftShift\nkey10=RightShift\nbase_speed=200\nmax_speed=1100\nacceleration=1500\nprecision_multiplier=0.18\nscroll_notches_per_second=6\ndirection_grace_ms=100\n"
    );
}

#[test]
fn settings_text_round_trip() {
    let keys = f8_keys();
    let decoded = decode_settings(&encode_settings(&keys, &numbers())).unwrap();
    assert_eq!(decoded.keys, keys);
    assert!(!decoded.unknown);
    let expected: Vec<Option<String>> = numbers().into_iter().map(Some).collect();
    assert_eq!(decoded.numbers, expected);
}

#[test]
fn number_names_are_fixed() {
    let names: Vec<&str> = (0..NUMBER_COUNT).map(number_name).collect();
    assert_eq!(names, ["base_speed", "max_speed", "acceleration", "precision_multiplier", "scroll_notches_per_second", "direction_grace_ms"]);
}

#[test]
fn decoding_reports_problems_in_file_order() {
    let text = encode_settings(&f8_keys(), &numbers());
    assert_eq!(decode_settings(&(text.clone() + "max_speed=100\n")).err(), Some("Asetus esiintyy kahdesti.".to_string()));
    assert_eq!(decode_settings(&(text.clone() + "oops\n")).err(), Some("Virheellinen asetusrivi.".to_string()));
    assert_eq!(decode_settings(&text.replace("version=1", "version=2")).err(), Some("Tuntematon asetustiedoston versio.".to_string()));
    assert_eq!(decode_settings(&text.replace("key3=S\n", "")).err(), Some("Näppäinsidonta puuttuu.".to_string()));
    assert_eq!(decode_settings(&text.replace("key1=W", "key1=w")).err(), Some("Tuntematon näppäin: w".to_string()));
    assert_eq!(decode_settings("").err(), Some("Tuntematon asetustiedoston versio.".to_string()));
}

#[test]
fn decoding_keeps_numbers_as_text_and_flags_unknown_settings() {
    let text = encode_settings(&f8_keys(), &numbers());
    let nan = decode_settings(&text.replace("base_speed=200", "base_speed=NaN")).unwrap();
    assert_eq!(nan.numbers[0], Some("NaN".to_string()));
    let missing = decode_settings(&text.replace("acceleration=1500\n", "")).unwrap();
    assert_eq!(missing.numbers[2], None);
    let unknown = decode_settings(&(text.clone() + "colour=blue\n")).unwrap();
    assert!(unknown.unknown);
    let duplicate_key = decode_settings(&text.replace("key1=W", "key1=Enter")).unwrap();
    assert!(duplicate_key.keys.validate().is_err());
}

#[test]
fn decoding_trims_and_skips_blank_lines() {
    let text = "\n  version = 1 \r\nkey0= F8\n\t\nkey1=W\nkey2=A\nkey3=S\nkey4=D\nkey5=Enter\nkey6=Space\nkey7=Q\nkey8=E\nkey9=LeftShift\nkey10=RightShift\nbase_speed= 1 = 2 \n";
    let decoded = decode_settings(text).unwrap();
    assert_eq!(decoded.keys, f8_keys());
    assert_eq!(decoded.keys.activation_mode, ActivationMode::Hold);
    assert_eq!(decoded.numbers[0], Some("1 = 2".to_string()));
    assert_eq!(decoded.numbers[1], None);
    assert!(!decoded.unknown);
}
