use siege_ui::config::{
    default_code_log_detailed_errors, default_code_log_fileline, default_code_log_level,
    default_connect_on_startup, default_fullscreen, default_height, default_screen_number,
    default_server_public_key, default_width, WindowConfig,
};
use siege_ui::input::Mode;
use siege_ui::logger::CodeLogLevel;
use siege_ui::terrain::Terrain;

#[test]
fn config_defaults() {
    assert_eq!(default_server_public_key(), [0u8; 32]);
    assert!(!default_connect_on_startup());
    assert!(!default_fullscreen());
    assert_eq!((default_width(), default_height(), default_screen_number()), (1280, 720, 0));
    assert!(default_code_log_fileline());
    assert!(!default_code_log_detailed_errors());
    assert_eq!(default_code_log_level(true), CodeLogLevel::Debug);
    assert_eq!(default_code_log_level(false), CodeLogLevel::Warn);
    let w = WindowConfig::default();
    assert_eq!(w, WindowConfig { fullscreen: false, width: 1280, height: 720, screen_number: 0 });
}

#[test]
fn log_levels_map_by_name() {
    assert_eq!(CodeLogLevel::Error.as_log_level(), log::Level::Error);
    assert_eq!(CodeLogLevel::Warn.as_log_level(), log::Level::Warn);
    assert_eq!(CodeLogLevel::Info.as_log_level(), log::Level::Info);
    assert_eq!(CodeLogLevel::Debug.as_log_level(), log::Level::Debug);
    assert_eq!(CodeLogLevel::Trace.as_log_level(), log::Level::Trace);
    assert_eq!(CodeLogLevel::Warn.name(), "WARN");
}

#[test]
fn modes_follow_characters() {
    assert_eq!(Mode::Chat.after_character('\u{1b}'), Mode::Normal);
    assert_eq!(Mode::Command.after_character('\r'), Mode::Normal);
    assert_eq!(Mode::Chat.after_character('x'), Mode::Chat);
    assert!(Mode::Chat.accepts_characters());
    assert!(!Mode::Normal.accepts_characters());
}

#[test]
fn terrain_samples_little_endian() {
    let mut data = vec![0u8; 513 * 2 * 2];
    data[2 * (3 + 513)] = 0x34;
    data[2 * (3 + 513) + 1] = 0x12;
    let t = Terrain::new(data);
    assert_eq!(t.sample(3, 1), Some(0x1234));
    assert_eq!(t.sample(0, 0), Some(0));
    assert_eq!(t.sample(3, 2), None);
    assert_eq!(t.sample(513, 0), None);
}
