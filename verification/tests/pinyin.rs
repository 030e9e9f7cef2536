use termusic_core::utils::get_pin_yin;

#[test]
fn test_pin_yin() {
    assert_eq!(get_pin_yin("陈一发儿"), "chenyifaer".to_string());
    assert_eq!(get_pin_yin("Gala乐队"), "GALAledui".to_string());
    assert_eq!(get_pin_yin("乐队Gala乐队"), "leduiGALAledui".to_string());
    assert_eq!(get_pin_yin("Annett Louisan"), "ANNETT LOUISAN".to_string());
}

#[test]
fn pin_yin_of_empty_is_empty() {
    assert_eq!(get_pin_yin(""), String::new());
}

#[test]
fn pin_yin_mixes_scripts_per_character() {
    // one recognized character between unrecognized ones
    assert_eq!(get_pin_yin("a拼b"), "ApinB".to_string());
}
