use hirodrop_core::settings::default_true;
use hirodrop_core::{HirodropSettings, InterfaceLanguage};

#[test]
fn new_settings_turn_every_option_on() {
    let settings = HirodropSettings::with_defaults("辦公室電腦".into(), "下載/HiRodrop".into());
    assert_eq!(settings.display_name, "辦公室電腦");
    assert_eq!(settings.download_directory, "下載/HiRodrop");
    assert!(settings.start_receiving_on_launch);
    assert!(settings.show_notifications);
    assert!(settings.show_transfer_details);
    assert!(settings.auto_show_qr);
    assert!(settings.retry_failed_once);
    assert_eq!(settings.language, InterfaceLanguage::TraditionalChinese);
    assert!(settings.trusted_fingerprints.is_empty());
}

#[test]
fn missing_switches_default_to_on_and_language_to_chinese() {
    assert!(default_true());
    assert_eq!(InterfaceLanguage::default(), InterfaceLanguage::TraditionalChinese);
}
