use win_instant_replay::config::{
    default_hotkey_combination, AppConfig, AppPaths, AudioBackend, FileConfig,
};
use win_instant_replay::hotkey::{HotKeySpec, KeyCode, Modifiers};

fn fake_paths() -> AppPaths {
    AppPaths {
        config_dir: "config".to_string(),
        config_file: "config/config.toml".to_string(),
        buffer_dir: "buffer".to_string(),
        output_dir: "output".to_string(),
    }
}

#[test]
fn parses_hotkey_combo() {
    let parsed = HotKeySpec::parse("Ctrl+Alt+Shift+4").unwrap();
    assert!(parsed.modifiers.contains(Modifiers::CONTROL));
    assert!(parsed.modifiers.contains(Modifiers::ALT));
    assert!(parsed.modifiers.contains(Modifiers::SHIFT));
    assert_eq!(parsed.key, KeyCode::Digit(4));
}

#[test]
fn rejects_modifier_only_hotkeys() {
    let error = HotKeySpec::parse("Ctrl+Alt").unwrap_err().message();
    assert!(error.contains("missing a key") || error.contains("one modifier"));
}

#[test]
fn validates_hotkeys_against_max_replay() {
    let mut config = FileConfig::default();
    config.max_replay_seconds = 60;
    let error = config.into_app_config(&fake_paths()).unwrap_err().message();
    assert!(error.contains("exceeds max_replay_seconds"));
}

#[test]
fn resolves_default_paths_when_not_overridden() {
    let mut config = FileConfig::default();
    config.max_replay_seconds = 300;
    let app = config.into_app_config(&fake_paths()).unwrap();
    assert_eq!(app.buffer_dir, "buffer");
    assert_eq!(app.output_dir, "output");
    assert!(!app.system_audio_enabled);
    assert!(!app.microphone_enabled);
    assert_eq!(app.system_audio_backend, AudioBackend::Wasapi);
    assert_eq!(app.microphone_backend, AudioBackend::Dshow);
}

#[test]
fn rejects_invalid_audio_backend() {
    let mut config = FileConfig::default();
    config.system_audio_backend = "magic".to_string();
    let error = config.into_app_config(&fake_paths()).unwrap_err().message();
    assert!(error.contains("system_audio_backend"));
}

#[test]
fn rejects_enabled_microphone_without_device_name() {
    let mut config = FileConfig::default();
    config.microphone_enabled = true;
    let error = config.into_app_config(&fake_paths()).unwrap_err().message();
    assert!(error.contains("microphone_device"));
}

#[test]
fn converts_runtime_config_back_to_sparse_file_config() {
    let app = AppConfig {
        ffmpeg_path: "ffmpeg.exe".to_string(),
        buffer_dir: "buffer".to_string(),
        output_dir: "output".to_string(),
        max_replay_seconds: 300,
        segment_seconds: 1,
        frame_rate: 30,
        encoder: "libx264".to_string(),
        preset: "veryfast".to_string(),
        ffmpeg_input: "desktop".to_string(),
        system_audio_enabled: false,
        system_audio_backend: AudioBackend::Wasapi,
        system_audio_device: "default".to_string(),
        microphone_enabled: false,
        microphone_backend: AudioBackend::Dshow,
        microphone_device: String::new(),
        audio_sample_rate: 48_000,
        audio_channels: 2,
        audio_bitrate: "192k".to_string(),
        ffmpeg_extra_args: Vec::new(),
        hotkeys: FileConfig::default()
            .into_app_config(&fake_paths())
            .unwrap()
            .hotkeys,
    };

    let file = app.to_file_config(&fake_paths());
    assert_eq!(file.ffmpeg_path, None);
    assert_eq!(file.buffer_dir, None);
    assert_eq!(file.output_dir, None);
    assert_eq!(file.system_audio_backend, "wasapi");
    assert_eq!(file.microphone_backend, "dshow");
}

#[test]
fn provides_default_hotkeys_for_managed_durations() {
    assert_eq!(default_hotkey_combination(120), Some("Ctrl+Alt+Shift+4"));
    assert_eq!(default_hotkey_combination(999), None);
}

use win_instant_replay::config::{ConfigError, HotkeyEntry};
use win_instant_replay::hotkey::HotkeyError;
use win_instant_replay::paths::paths_equal;
use win_instant_replay::text::NumberError;

fn entry(duration_seconds: u32, combination: &str) -> HotkeyEntry {
    HotkeyEntry { duration_seconds, combination: combination.to_string() }
}

#[test]
fn hotkey_parse_refusals_have_their_messages() {
    assert_eq!(HotKeySpec::parse("Ctrl").unwrap_err(), HotkeyError::TooFewParts);
    assert_eq!(
        HotKeySpec::parse("Ctrl").unwrap_err().message(),
        "hotkey must include at least one modifier and one key"
    );
    assert_eq!(HotKeySpec::parse("Ctrl+A+B").unwrap_err(), HotkeyError::MultipleKeys);
    assert_eq!(HotKeySpec::parse("A+1").unwrap_err(), HotkeyError::MultipleKeys);
    assert_eq!(
        HotKeySpec::parse("Ctrl+F25").unwrap_err(),
        HotkeyError::UnsupportedKey("f25".to_string(), None)
    );
    assert_eq!(HotKeySpec::parse("Ctrl+F25").unwrap_err().message(), "unsupported key 'f25'");
    assert_eq!(
        HotKeySpec::parse("Ctrl+F0").unwrap_err(),
        HotkeyError::UnsupportedKey("f0".to_string(), None)
    );
    assert_eq!(
        HotKeySpec::parse("Alt+Home").unwrap_err(),
        HotkeyError::UnsupportedKey("home".to_string(), None)
    );
    assert_eq!(HotKeySpec::parse("Ctrl+Shift").unwrap_err(), HotkeyError::MissingKey);
    assert_eq!(HotKeySpec::parse("Ctrl+Shift").unwrap_err().message(), "hotkey is missing a key");
    assert_eq!(HotkeyError::NoModifier.message(), "hotkey must include at least one modifier");
}

#[test]
fn hotkey_parse_ignores_case_space_and_empty_parts() {
    let a = HotKeySpec::parse("ctrl+ALT+f10").unwrap();
    let b = HotKeySpec::parse("Ctrl+Alt+F10").unwrap();
    assert_eq!(a, b);
    assert_eq!(a.key, KeyCode::Function(10));
    assert_eq!(a.modifiers, Modifiers(Modifiers::CONTROL | Modifiers::ALT));
    let w = HotKeySpec::parse("Win+Shift+r").unwrap();
    assert_eq!(w.key, KeyCode::Letter('R'));
    assert_eq!(w.modifiers, Modifiers(Modifiers::WIN | Modifiers::SHIFT));
    let s = HotKeySpec::parse(" Control + + 5 ").unwrap();
    assert_eq!(s.key, KeyCode::Digit(5));
    assert_eq!(s.modifiers, Modifiers(Modifiers::CONTROL));
    assert_eq!(HotKeySpec::parse("Meta+Super+f05").unwrap().key, KeyCode::Function(5));
    assert!(HotKeySpec::parse("Meta+Super+f05").unwrap().modifiers.contains(Modifiers::WIN));
    assert!(!Modifiers(Modifiers::WIN).contains(Modifiers::ALT));
    assert!(Modifiers(0).is_empty());
    assert_eq!(Modifiers::default(), Modifiers(0));
}

#[test]
fn each_config_refusal_has_its_message() {
    let cases: Vec<(Box<dyn Fn(&mut FileConfig)>, ConfigError, &str)> = vec![
        (Box::new(|c| c.segment_seconds = 0), ConfigError::SegmentSecondsZero, "segment_seconds must be at least 1"),
        (Box::new(|c| c.frame_rate = 0), ConfigError::FrameRateZero, "frame_rate must be at least 1"),
        (Box::new(|c| c.max_replay_seconds = 9), ConfigError::MaxReplayTooShort, "max_replay_seconds must be at least 10"),
        (Box::new(|c| c.audio_sample_rate = 0), ConfigError::SampleRateZero, "audio_sample_rate must be at least 1"),
        (Box::new(|c| c.audio_channels = 0), ConfigError::ChannelsZero, "audio_channels must be at least 1"),
        (Box::new(|c| c.audio_bitrate = "  ".to_string()), ConfigError::EmptyAudioBitrate, "audio_bitrate must not be empty"),
        (
            Box::new(|c| c.microphone_backend = "pulse".to_string()),
            ConfigError::InvalidAudioBackend { field: "microphone_backend".to_string() },
            "microphone_backend must be either 'wasapi' or 'dshow'",
        ),
        (
            Box::new(|c| {
                c.system_audio_enabled = true;
                c.system_audio_device = " ".to_string();
            }),
            ConfigError::EmptySystemAudioDevice,
            "system_audio_device must not be empty when system_audio_enabled is true",
        ),
        (
            Box::new(|c| c.microphone_enabled = true),
            ConfigError::EmptyMicrophoneDevice,
            "microphone_device must not be empty when microphone_enabled is true",
        ),
        (
            Box::new(|c| c.hotkeys = vec![entry(0, "Ctrl+1")]),
            ConfigError::HotkeyDurationZero,
            "hotkey duration must be greater than zero",
        ),
        (
            Box::new(|c| c.max_replay_seconds = 60),
            ConfigError::HotkeyDurationTooLong { duration: 120, max_replay_seconds: 60 },
            "hotkey duration 120 exceeds max_replay_seconds 60",
        ),
        (
            Box::new(|c| c.hotkeys = vec![entry(10, "Ctrl+1"), entry(10, "Ctrl+2")]),
            ConfigError::DuplicateHotkeyDuration { duration: 10 },
            "duplicate hotkey duration 10",
        ),
        (
            Box::new(|c| c.hotkeys = vec![entry(10, "Ctrl+Shift+1"), entry(20, "shift+CTRL+1")]),
            ConfigError::DuplicateHotkeyCombination { combination: "shift+CTRL+1".to_string() },
            "duplicate hotkey combination 'shift+CTRL+1'",
        ),
    ];
    for (change, expected, message) in cases {
        let mut config = FileConfig::default();
        change(&mut config);
        let error = config.into_app_config(&fake_paths()).unwrap_err();
        assert_eq!(error.message(), message);
        assert_eq!(error, expected);
    }
}

#[test]
fn unparsable_hotkey_reports_its_cause() {
    let mut config = FileConfig::default();
    config.hotkeys = vec![entry(10, "Ctrl+Alt")];
    let error = config.into_app_config(&fake_paths()).unwrap_err();
    assert_eq!(
        error,
        ConfigError::InvalidHotkey {
            combination: "Ctrl+Alt".to_string(),
            cause: HotkeyError::MissingKey
        }
    );
    assert_eq!(error.message(), "parsing hotkey 'Ctrl+Alt'");
    assert_eq!(error.detail_message(), "parsing hotkey 'Ctrl+Alt': hotkey is missing a key");
}

#[test]
fn hotkeys_come_sorted_with_file_positions_as_ids() {
    let mut config = FileConfig::default();
    config.hotkeys = vec![entry(300, "Ctrl+F12"), entry(10, "Alt+1"), entry(60, "Win+G")];
    config.ffmpeg_path = Some("C:/ffmpeg/bin/ffmpeg.exe".to_string());
    config.system_audio_backend = "  DShow ".to_string();
    let app = config.into_app_config(&fake_paths()).unwrap();
    let durations: Vec<u32> = app.hotkeys.iter().map(|b| b.duration_seconds).collect();
    let ids: Vec<i32> = app.hotkeys.iter().map(|b| b.id).collect();
    assert_eq!(durations, vec![10, 60, 300]);
    assert_eq!(ids, vec![2, 3, 1]);
    assert_eq!(app.hotkeys[1].combo, "Win+G");
    assert_eq!(app.hotkeys[1].parsed.key, KeyCode::Letter('G'));
    assert_eq!(app.ffmpeg_path, "C:/ffmpeg/bin/ffmpeg.exe");
    assert_eq!(app.system_audio_backend, AudioBackend::Dshow);
    assert_eq!(app.hotkey_combination(60), Some("Win+G"));
    assert_eq!(app.hotkey_combination(30), None);
    assert_eq!(app.hotkey_duration(1), Some(300));
    assert_eq!(app.hotkey_duration(4), None);
    assert_eq!(app.keep_segment_count(), 302);
}

#[test]
fn written_back_config_reads_the_same() {
    let mut config = FileConfig::default();
    config.hotkeys = vec![entry(300, "Ctrl+F12"), entry(10, "Alt+1")];
    config.output_dir = Some("D:/Captures".to_string());
    config.buffer_dir = Some("buffer".to_string());
    let app = config.into_app_config(&fake_paths()).unwrap();
    let file = app.to_file_config(&fake_paths());
    assert_eq!(file.output_dir, Some("D:/Captures".to_string()));
    assert_eq!(file.buffer_dir, None);
    assert_eq!(file.hotkeys, vec![entry(10, "Alt+1"), entry(300, "Ctrl+F12")]);
    let again = file.into_app_config(&fake_paths()).unwrap();
    assert_eq!(again.output_dir, app.output_dir);
    assert_eq!(again.buffer_dir, app.buffer_dir);
    assert_eq!(again.ffmpeg_path, app.ffmpeg_path);
    let ids: Vec<i32> = again.hotkeys.iter().map(|b| b.id).collect();
    assert_eq!(ids, vec![1, 2]);
    assert_eq!(again.hotkeys[1].combo, "Ctrl+F12");
}

#[test]
fn default_file_config_and_backend_names() {
    let config = FileConfig::default();
    assert_eq!(config.max_replay_seconds, 300);
    assert_eq!(config.segment_seconds, 1);
    assert_eq!(config.frame_rate, 30);
    assert_eq!(config.audio_bitrate, "192k");
    assert_eq!(config.hotkeys.len(), 5);
    assert_eq!(config.hotkeys[0], entry(10, "Ctrl+Alt+Shift+1"));
    assert_eq!(AudioBackend::Wasapi.as_str(), "wasapi");
    assert_eq!(AudioBackend::Dshow.as_str(), "dshow");
    assert_eq!(AudioBackend::parse(" WASAPI ", "x"), Ok(AudioBackend::Wasapi));
    assert_eq!(
        AudioBackend::parse("alsa", "x").unwrap_err().message(),
        "x must be either 'wasapi' or 'dshow'"
    );
}

#[test]
fn function_key_numbers_that_do_not_parse_keep_their_cause() {
    let error = HotKeySpec::parse("Ctrl+Fxyz").unwrap_err();
    assert_eq!(
        error,
        HotkeyError::UnsupportedKey("fxyz".to_string(), Some(NumberError::InvalidDigit))
    );
    assert_eq!(error.message(), "unsupported key 'fxyz'");
    assert_eq!(error.detail_message(), "unsupported key 'fxyz': invalid digit found in string");
    let error = HotKeySpec::parse("Ctrl+F300").unwrap_err();
    assert_eq!(
        error,
        HotkeyError::UnsupportedKey("f300".to_string(), Some(NumberError::TooLarge))
    );
    assert_eq!(
        error.detail_message(),
        "unsupported key 'f300': number too large to fit in target type"
    );
    assert_eq!(HotKeySpec::parse("Ctrl+F").unwrap().key, KeyCode::Letter('F'));
    assert_eq!(
        HotKeySpec::parse("Ctrl+F-1").unwrap_err(),
        HotkeyError::UnsupportedKey("f-1".to_string(), Some(NumberError::InvalidDigit))
    );
    assert_eq!(
        HotKeySpec::parse("Ctrl+F25").unwrap_err().detail_message(),
        "unsupported key 'f25'"
    );
    let mut config = FileConfig::default();
    config.hotkeys = vec![entry(10, "Ctrl+Fx")];
    let error = config.into_app_config(&fake_paths()).unwrap_err();
    assert_eq!(error.message(), "parsing hotkey 'Ctrl+Fx'");
    assert_eq!(
        error.detail_message(),
        "parsing hotkey 'Ctrl+Fx': unsupported key 'fx': invalid digit found in string"
    );
}

#[test]
fn paths_compare_by_components() {
    assert!(paths_equal("buffer/", "buffer"));
    assert!(paths_equal("buffer\\", "buffer"));
    assert!(paths_equal("a//b/./c", "a\\b\\c"));
    assert!(paths_equal("c:\\x", "C:/x"));
    assert!(paths_equal("./a", "./a/."));
    assert!(!paths_equal("./a", "a"));
    assert!(!paths_equal("/a", "a"));
    assert!(!paths_equal("C:a", "C:/a"));
    assert!(!paths_equal("C:/a", "D:/a"));
    assert!(!paths_equal("Buffer", "buffer"));
    assert!(!paths_equal("a/b", "a/bc"));
    assert!(!paths_equal("a", "a/b"));
    assert!(!paths_equal("\\\\server\\share", "\\server\\share"));
    assert!(paths_equal("//server/share/", "\\\\server\\share"));
    assert!(paths_equal("\\\\server", "\\server"));
    assert!(paths_equal("//server", "/server/"));
    assert!(!paths_equal("\\\\server\\share", "\\\\server\\other"));
    assert!(!paths_equal("\\\\?\\C:\\a\\.", "\\\\?\\C:\\a"));
    assert!(!paths_equal("\\\\?\\C:\\a/b", "\\\\?\\C:\\a\\b"));
    assert!(paths_equal("\\\\?\\c:\\a\\\\b\\", "\\\\?\\C:\\a\\b"));
    assert!(!paths_equal("\\\\?\\C:\\a", "C:\\a"));
    assert!(paths_equal("\\\\?\\UNC\\srv\\sh\\x", "\\\\?\\UNC\\srv\\sh\\x\\"));
    assert!(!paths_equal("\\\\?\\UNC\\srv\\sh", "\\\\srv\\sh"));
    assert!(paths_equal("\\\\.\\COM1", "//./COM1"));
    assert!(paths_equal("a/../b", "a\\..\\b\\"));
    assert!(!paths_equal("a/../b", "b"));
}

#[test]
fn default_paths_written_in_another_form_are_left_out() {
    let mut config = FileConfig::default();
    config.buffer_dir = Some("buffer/".to_string());
    config.output_dir = Some("./output".to_string());
    config.ffmpeg_path = Some(".\\ffmpeg.exe".to_string());
    let app = config.into_app_config(&fake_paths()).unwrap();
    assert_eq!(app.buffer_dir, "buffer/");
    let file = app.to_file_config(&fake_paths());
    assert_eq!(file.buffer_dir, None);
    assert_eq!(file.output_dir, Some("./output".to_string()));
    assert_eq!(file.ffmpeg_path, Some(".\\ffmpeg.exe".to_string()));
}

#[test]
fn a_normal_file_config_is_written_back_unchanged() {
    let mut config = FileConfig::default();
    config.output_dir = Some("D:/Captures".to_string());
    config.hotkeys = vec![entry(10, "Alt+1"), entry(60, "Ctrl+F12")];
    let app = config.clone().into_app_config(&fake_paths()).unwrap();
    let ids: Vec<i32> = app.hotkeys.iter().map(|b| b.id).collect();
    assert_eq!(ids, vec![1, 2]);
    let file = app.to_file_config(&fake_paths());
    assert_eq!(file.output_dir, config.output_dir);
    assert_eq!(file.buffer_dir, config.buffer_dir);
    assert_eq!(file.ffmpeg_path, config.ffmpeg_path);
    assert_eq!(file.hotkeys, config.hotkeys);
    assert_eq!(file.system_audio_backend, config.system_audio_backend);
    assert_eq!(file.microphone_backend, config.microphone_backend);
    assert_eq!(file.audio_bitrate, config.audio_bitrate);
}

#[test]
fn backend_names_read_back_in_any_case_and_padding() {
    for backend in [AudioBackend::Wasapi, AudioBackend::Dshow] {
        assert_eq!(AudioBackend::parse(backend.as_str(), "x"), Ok(backend));
        let padded = format!(" \t{} \n", backend.as_str().to_ascii_uppercase());
        assert_eq!(AudioBackend::parse(&padded, "x"), Ok(backend));
    }
    assert_eq!(AudioBackend::parse("DsHoW", "x"), Ok(AudioBackend::Dshow));
}
