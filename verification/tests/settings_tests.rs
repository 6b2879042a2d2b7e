use win_instant_replay::config::{FileConfig, HotkeyEntry};
use win_instant_replay::hotkey::HotKeySpec;
use win_instant_replay::text::NumberError;
use win_instant_replay::settings::{
    empty_to_none_path, hotkey_field_combination, loword, menu_command, parse_u32_field,
    to_windows_hotkey, wide_null, write_wide_buffer, MenuCommand, SettingsError, SettingsForm,
    SettingsNumbers,
};

fn form() -> SettingsForm {
    SettingsForm {
        output_dir: "  ".to_string(),
        ffmpeg_path: " C:/ffmpeg.exe ".to_string(),
        max_replay_seconds: " 120".to_string(),
        segment_seconds: "2 ".to_string(),
        system_audio_enabled: true,
        system_audio_backend: " wasapi ".to_string(),
        system_audio_device: " default".to_string(),
        microphone_enabled: false,
        microphone_backend: "dshow".to_string(),
        microphone_device: "".to_string(),
        audio_sample_rate: "44100".to_string(),
        audio_channels: "+1".to_string(),
        audio_bitrate: " 128k ".to_string(),
        hotkeys: vec![(10, " Ctrl+1 ".to_string()), (30, "Ctrl+2".to_string())],
    }
}

#[test]
fn settings_form_applies_to_the_file_config() {
    let f = form();
    let numbers = f.parse_numbers().unwrap();
    assert_eq!(
        numbers,
        SettingsNumbers { max_replay_seconds: 120, segment_seconds: 2, audio_sample_rate: 44100, audio_channels: 1 }
    );
    let mut base = FileConfig::default();
    base.output_dir = Some("old".to_string());
    base.encoder = "h264_nvenc".to_string();
    let applied = f.apply(numbers, base).unwrap();
    assert_eq!(applied.output_dir, None);
    assert_eq!(applied.ffmpeg_path, Some("C:/ffmpeg.exe".to_string()));
    assert_eq!(applied.encoder, "h264_nvenc");
    assert_eq!(applied.max_replay_seconds, 120);
    assert_eq!(applied.system_audio_backend, "wasapi");
    assert_eq!(applied.system_audio_device, "default");
    assert_eq!(applied.audio_bitrate, "128k");
    assert_eq!(
        applied.hotkeys,
        vec![
            HotkeyEntry { duration_seconds: 10, combination: "Ctrl+1".to_string() },
            HotkeyEntry { duration_seconds: 30, combination: "Ctrl+2".to_string() },
        ]
    );
}

#[test]
fn settings_form_refusals() {
    let mut f = form();
    f.segment_seconds = "two".to_string();
    f.audio_channels = "x".to_string();
    let error = f.parse_numbers().unwrap_err();
    assert_eq!(
        error,
        SettingsError::NotAWholeNumber {
            field: "Segment length seconds".to_string(),
            cause: NumberError::InvalidDigit,
        }
    );
    assert_eq!(error.message(), "Segment length seconds must be a whole number");
    assert_eq!(
        error.detail_message(),
        "Segment length seconds must be a whole number: invalid digit found in string"
    );
    let mut f = form();
    f.max_replay_seconds = "  ".to_string();
    assert_eq!(
        f.parse_numbers().unwrap_err().detail_message(),
        "Replay buffer seconds must be a whole number: cannot parse integer from empty string"
    );
    let mut f = form();
    f.audio_sample_rate = "99999999999".to_string();
    assert_eq!(
        f.parse_numbers().unwrap_err(),
        SettingsError::NotAWholeNumber {
            field: "Audio sample rate".to_string(),
            cause: NumberError::TooLarge,
        }
    );
    let mut f = form();
    f.hotkeys[1].1 = "   ".to_string();
    let numbers = f.parse_numbers().unwrap();
    let error = f.apply(numbers, FileConfig::default()).unwrap_err();
    assert_eq!(error, SettingsError::BlankHotkey { duration_seconds: 30 });
    assert_eq!(error.message(), "Hotkey for 30s replay cannot be blank");
}

#[test]
fn numeric_and_path_fields() {
    assert_eq!(parse_u32_field("n", " 42 "), Ok(42));
    assert_eq!(parse_u32_field("n", "+7"), Ok(7));
    assert_eq!(parse_u32_field("n", "4294967295"), Ok(u32::MAX));
    let too_large = SettingsError::NotAWholeNumber { field: "n".to_string(), cause: NumberError::TooLarge };
    let invalid = SettingsError::NotAWholeNumber { field: "n".to_string(), cause: NumberError::InvalidDigit };
    let empty = SettingsError::NotAWholeNumber { field: "n".to_string(), cause: NumberError::Empty };
    assert_eq!(parse_u32_field("n", "4294967296"), Err(too_large));
    assert_eq!(parse_u32_field("n", "-1"), Err(invalid.clone()));
    assert_eq!(parse_u32_field("n", "+"), Err(invalid.clone()));
    assert_eq!(parse_u32_field("n", "99999999999x"), Err(SettingsError::NotAWholeNumber { field: "n".to_string(), cause: NumberError::TooLarge }));
    assert_eq!(parse_u32_field("n", "1x99999999999"), Err(invalid));
    assert_eq!(parse_u32_field("n", ""), Err(empty));
    assert_eq!(NumberError::Empty.message(), "cannot parse integer from empty string");
    assert_eq!(empty_to_none_path("  "), None);
    assert_eq!(empty_to_none_path(" D:/x "), Some("D:/x".to_string()));
}

#[test]
fn win32_text_and_parameters() {
    assert_eq!(loword(0x1234_5678), 0x5678);
    assert_eq!(wide_null("Hi"), vec![0x48, 0x69, 0]);
    assert_eq!(wide_null("é😀"), vec![0xe9, 0xd83d, 0xde00, 0]);
    let mut buffer = [7u16; 4];
    write_wide_buffer(&mut buffer, "abcdef");
    assert_eq!(buffer, [0x61, 0x62, 0x63, 0x64]);
    let mut buffer = [7u16; 4];
    write_wide_buffer(&mut buffer, "a");
    assert_eq!(buffer, [0x61, 0, 0, 0]);
    assert_eq!(menu_command(0xABCD_03E8), Some(MenuCommand::OpenSettings));
    assert_eq!(menu_command(1001), Some(MenuCommand::OpenOutputFolder));
    assert_eq!(menu_command(1002), Some(MenuCommand::Quit));
    assert_eq!(menu_command(1003), None);
}

#[test]
fn windows_hotkey_codes() {
    assert_eq!(to_windows_hotkey(HotKeySpec::parse("Ctrl+Alt+Shift+1").unwrap()), (0x7, 0x31));
    assert_eq!(to_windows_hotkey(HotKeySpec::parse("Win+r").unwrap()), (0x8, 0x52));
    assert_eq!(to_windows_hotkey(HotKeySpec::parse("Alt+F9").unwrap()), (0x1, 0x78));
    assert_eq!(to_windows_hotkey(HotKeySpec::parse("Ctrl+F24").unwrap()), (0x2, 0x87));
}

#[test]
fn settings_window_shows_file_or_default_hotkeys() {
    let mut file = FileConfig::default();
    file.hotkeys = vec![HotkeyEntry { duration_seconds: 30, combination: "Alt+F2".to_string() }];
    assert_eq!(hotkey_field_combination(&file, 30), "Alt+F2");
    assert_eq!(hotkey_field_combination(&file, 10), "Ctrl+Alt+Shift+1");
    assert_eq!(hotkey_field_combination(&file, 45), "");
}

#[test]
fn distinct_hotkeys_register_distinctly() {
    let combos = [
        "Ctrl+1", "Alt+1", "Ctrl+Alt+1", "Win+Shift+1", "Ctrl+A", "Ctrl+Z", "Ctrl+F1", "Ctrl+F24",
        "Ctrl+9", "Ctrl+0", "Alt+F12", "Shift+Q",
    ];
    let codes: Vec<(u32, u32)> =
        combos.iter().map(|c| to_windows_hotkey(HotKeySpec::parse(c).unwrap())).collect();
    for i in 0..codes.len() {
        for j in 0..codes.len() {
            if i != j {
                assert_ne!(codes[i], codes[j]);
            }
        }
    }
}

#[test]
fn blank_path_fields_fall_back_to_defaults() {
    let mut f = form();
    f.ffmpeg_path = "   ".to_string();
    let numbers = f.parse_numbers().unwrap();
    let mut base = FileConfig::default();
    base.output_dir = Some("D:/old".to_string());
    let applied = f.apply(numbers, base).unwrap();
    let paths = win_instant_replay::config::AppPaths {
        config_dir: "config".to_string(),
        config_file: "config/config.toml".to_string(),
        buffer_dir: "buffer".to_string(),
        output_dir: "output".to_string(),
    };
    let app = applied.into_app_config(&paths).unwrap();
    assert_eq!(app.output_dir, "output");
    assert_eq!(app.ffmpeg_path, "ffmpeg.exe");
}
