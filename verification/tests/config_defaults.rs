use fiapo::config::{
    background_color, reader_show_bottom_indicator, text_color, FiapoConfig, ReaderConfig,
};

#[test]
fn default_text_color_is_white() {
    assert_eq!(text_color(), "#FFFFFF".to_string());
}

#[test]
fn default_background_color_is_dark() {
    assert_eq!(background_color(), "#111416".to_string());
}

#[test]
fn default_bottom_indicator_is_shown() {
    assert!(reader_show_bottom_indicator());
}

#[test]
fn reader_config_new_uses_defaults() {
    let reader = ReaderConfig::new();
    assert!(reader.show_bottom_indicator);
}

#[test]
fn fiapo_config_defaults_hold_every_default() {
    let config = FiapoConfig::defaults();
    assert_eq!(config.text_color, "#FFFFFF".to_string());
    assert_eq!(config.background_color, "#111416".to_string());
    assert!(config.reader.show_bottom_indicator);
}
