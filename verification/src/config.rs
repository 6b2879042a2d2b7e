//! The recorder's configuration: the sparse form kept in the config file,
//! its validation into the runtime form, and the way back.

use vstd::prelude::*;

pub use crate::hotkey::{HotKeySpec, KeyCode, Modifiers};
use crate::hotkey::{
    hotkey_detail_message, is_supported_hotkey, law_parsed_hotkey_is_supported, spec_parse_hotkey,
    HotkeyError, HotkeyFault,
};
use crate::paths::{paths_equal, same_path};
use crate::retention::{keep_segment_count, spec_keep_segment_count};
use crate::text::{
    ascii_lower, decimal, is_white_space, lemma_trim_padded, lower_seq, spec_trim, str_eq, to_ascii_lowercase,
    trim, u64_to_string,
};

verus! {

/// Where the recorder keeps its files.
#[derive(Debug, Clone)]
pub struct AppPaths {
    pub config_dir: String,
    pub config_file: String,
    pub buffer_dir: String,
    pub output_dir: String,
}

/// The audio capture backend of ffmpeg.
#[derive(Debug, Clone, Copy, PartialEq, Eq, Structural)]
pub enum AudioBackend {
    Wasapi,
    Dshow,
}

/// The backend that `value` names, ignoring surrounding white space and
/// ASCII case.
pub open spec fn spec_parse_backend(value: Seq<char>) -> Option<AudioBackend> {
    let v = lower_seq(spec_trim(value));
    if v == "wasapi"@ {
        Some(AudioBackend::Wasapi)
    } else if v == "dshow"@ {
        Some(AudioBackend::Dshow)
    } else {
        None
    }
}

/// The name under which a backend is written.
pub open spec fn backend_name(b: AudioBackend) -> Seq<char> {
    match b {
        AudioBackend::Wasapi => "wasapi"@,
        AudioBackend::Dshow => "dshow"@,
    }
}

impl AudioBackend {
    /// Reads a backend name; `field_name` names the setting in the error.
    pub fn parse(value: &str, field_name: &str) -> (r: Result<AudioBackend, ConfigError>)
        ensures
            r matches Ok(b) ==> spec_parse_backend(value@) == Some(b),
            r matches Err(e) ==> spec_parse_backend(value@) is None && e@ == (
            ConfigFault::InvalidAudioBackend { field: field_name@ }),
    {
        let lowered = to_ascii_lowercase(trim(value));
        proof {
            reveal_strlit("wasapi");
            reveal_strlit("dshow");
        }
        if str_eq(lowered.as_str(), "wasapi") {
            Ok(AudioBackend::Wasapi)
        } else if str_eq(lowered.as_str(), "dshow") {
            Ok(AudioBackend::Dshow)
        } else {
            Err(ConfigError::InvalidAudioBackend { field: field_name.to_owned() })
        }
    }

    /// The backend's name.
    pub fn as_str(self) -> (r: &'static str)
        ensures
            r@ == backend_name(self),
    {
        match self {
            AudioBackend::Wasapi => "wasapi",
            AudioBackend::Dshow => "dshow",
        }
    }
}

/// Why a configuration was refused.
#[derive(Debug, Clone, PartialEq, Eq)]
pub enum ConfigError {
    SegmentSecondsZero,
    FrameRateZero,
    MaxReplayTooShort,
    SampleRateZero,
    ChannelsZero,
    EmptyAudioBitrate,
    InvalidAudioBackend { field: String },
    EmptySystemAudioDevice,
    EmptyMicrophoneDevice,
    HotkeyDurationZero,
    HotkeyDurationTooLong { duration: u32, max_replay_seconds: u32 },
    DuplicateHotkeyDuration { duration: u32 },
    InvalidHotkey { combination: String, cause: HotkeyError },
    DuplicateHotkeyCombination { combination: String },
}

/// `ConfigError` with its text as character sequences.
pub enum ConfigFault {
    SegmentSecondsZero,
    FrameRateZero,
    MaxReplayTooShort,
    SampleRateZero,
    ChannelsZero,
    EmptyAudioBitrate,
    InvalidAudioBackend { field: Seq<char> },
    EmptySystemAudioDevice,
    EmptyMicrophoneDevice,
    HotkeyDurationZero,
    HotkeyDurationTooLong { duration: u32, max_replay_seconds: u32 },
    DuplicateHotkeyDuration { duration: u32 },
    InvalidHotkey { combination: Seq<char>, cause: HotkeyFault },
    DuplicateHotkeyCombination { combination: Seq<char> },
}

impl View for ConfigError {
    type V = ConfigFault;

    open spec fn view(&self) -> ConfigFault {
        match self {
            ConfigError::SegmentSecondsZero => ConfigFault::SegmentSecondsZero,
            ConfigError::FrameRateZero => ConfigFault::FrameRateZero,
            ConfigError::MaxReplayTooShort => ConfigFault::MaxReplayTooShort,
            ConfigError::SampleRateZero => ConfigFault::SampleRateZero,
            ConfigError::ChannelsZero => ConfigFault::ChannelsZero,
            ConfigError::EmptyAudioBitrate => ConfigFault::EmptyAudioBitrate,
            ConfigError::InvalidAudioBackend { field } => ConfigFault::InvalidAudioBackend {
                field: field@,
            },
            ConfigError::EmptySystemAudioDevice => ConfigFault::EmptySystemAudioDevice,
            ConfigError::EmptyMicrophoneDevice => ConfigFault::EmptyMicrophoneDevice,
            ConfigError::HotkeyDurationZero => ConfigFault::HotkeyDurationZero,
            ConfigError::HotkeyDurationTooLong { duration, max_replay_seconds } =>
                ConfigFault::HotkeyDurationTooLong {
                duration: *duration,
                max_replay_seconds: *max_replay_seconds,
            },
            ConfigError::DuplicateHotkeyDuration { duration } =>
                ConfigFault::DuplicateHotkeyDuration { duration: *duration },
            ConfigError::InvalidHotkey { combination, cause } => ConfigFault::InvalidHotkey {
                combination: combination@,
                cause: cause@,
            },
            ConfigError::DuplicateHotkeyCombination { combination } =>
                ConfigFault::DuplicateHotkeyCombination { combination: combination@ },
        }
    }
}

/// The message of each refusal; for a hotkey that does not parse it is the
/// outer message, and `detail_message` adds the cause.
pub open spec fn config_message(f: ConfigFault) -> Seq<char> {
    match f {
        ConfigFault::SegmentSecondsZero => "segment_seconds must be at least 1"@,
        ConfigFault::FrameRateZero => "frame_rate must be at least 1"@,
        ConfigFault::MaxReplayTooShort => "max_replay_seconds must be at least 10"@,
        ConfigFault::SampleRateZero => "audio_sample_rate must be at least 1"@,
        ConfigFault::ChannelsZero => "audio_channels must be at least 1"@,
        ConfigFault::EmptyAudioBitrate => "audio_bitrate must not be empty"@,
        ConfigFault::InvalidAudioBackend { field } => field
            + " must be either 'wasapi' or 'dshow'"@,
        ConfigFault::EmptySystemAudioDevice =>
            "system_audio_device must not be empty when system_audio_enabled is true"@,
        ConfigFault::EmptyMicrophoneDevice =>
            "microphone_device must not be empty when microphone_enabled is true"@,
        ConfigFault::HotkeyDurationZero => "hotkey duration must be greater than zero"@,
        ConfigFault::HotkeyDurationTooLong { duration, max_replay_seconds } => "hotkey duration "@
            + decimal(duration as nat) + " exceeds max_replay_seconds "@ + decimal(
            max_replay_seconds as nat,
        ),
        ConfigFault::DuplicateHotkeyDuration { duration } => "duplicate hotkey duration "@
            + decimal(duration as nat),
        ConfigFault::InvalidHotkey { combination, cause } => "parsing hotkey '"@ + combination
            + "'"@,
        ConfigFault::DuplicateHotkeyCombination { combination } =>
            "duplicate hotkey combination '"@ + combination + "'"@,
    }
}

/// The message with its cause, where it has one.
pub open spec fn config_detail_message(f: ConfigFault) -> Seq<char> {
    match f {
        ConfigFault::InvalidHotkey { combination, cause } => config_message(f) + ": "@
            + hotkey_detail_message(cause),
        _ => config_message(f),
    }
}

impl ConfigError {
    /// The error's message.
    pub fn message(&self) -> (r: String)
        ensures
            r@ == config_message(self@),
    {
        let mut out = String::new();
        match self {
            ConfigError::SegmentSecondsZero => out.append("segment_seconds must be at least 1"),
            ConfigError::FrameRateZero => out.append("frame_rate must be at least 1"),
            ConfigError::MaxReplayTooShort => out.append("max_replay_seconds must be at least 10"),
            ConfigError::SampleRateZero => out.append("audio_sample_rate must be at least 1"),
            ConfigError::ChannelsZero => out.append("audio_channels must be at least 1"),
            ConfigError::EmptyAudioBitrate => out.append("audio_bitrate must not be empty"),
            ConfigError::InvalidAudioBackend { field } => {
                out.append(field.as_str());
                out.append(" must be either 'wasapi' or 'dshow'");
            },
            ConfigError::EmptySystemAudioDevice => out.append(
                "system_audio_device must not be empty when system_audio_enabled is true",
            ),
            ConfigError::EmptyMicrophoneDevice => out.append(
                "microphone_device must not be empty when microphone_enabled is true",
            ),
            ConfigError::HotkeyDurationZero => out.append(
                "hotkey duration must be greater than zero",
            ),
            ConfigError::HotkeyDurationTooLong { duration, max_replay_seconds } => {
                out.append("hotkey duration ");
                let d = u64_to_string(*duration as u64);
                out.append(d.as_str());
                out.append(" exceeds max_replay_seconds ");
                let m = u64_to_string(*max_replay_seconds as u64);
                out.append(m.as_str());
            },
            ConfigError::DuplicateHotkeyDuration { duration } => {
                out.append("duplicate hotkey duration ");
                let d = u64_to_string(*duration as u64);
                out.append(d.as_str());
            },
            ConfigError::InvalidHotkey { combination, cause } => {
                out.append("parsing hotkey '");
                out.append(combination.as_str());
                out.append("'");
            },
            ConfigError::DuplicateHotkeyCombination { combination } => {
                out.append("duplicate hotkey combination '");
                out.append(combination.as_str());
                out.append("'");
            },
        }
        out
    }

    /// The message followed by its cause, as `{:#}` shows a chain of
    /// contexts.
    pub fn detail_message(&self) -> (r: String)
        ensures
            r@ == config_detail_message(self@),
    {
        let mut out = self.message();
        match self {
            ConfigError::InvalidHotkey { combination, cause } => {
                out.append(": ");
                let c = cause.detail_message();
                out.append(c.as_str());
            },
            _ => {},
        }
        out
    }
}


/// The shortest replay window that the configuration accepts.
pub const MIN_MAX_REPLAY_SECONDS: u32 = 10;

/// A hotkey that saves the last `duration_seconds` of video.
#[derive(Debug, Clone)]
pub struct HotkeyBinding {
    pub id: i32,
    pub duration_seconds: u32,
    pub combo: String,
    pub parsed: HotKeySpec,
}

/// A binding's id, duration, combination text and parsed combination.
pub type BindingView = (i32, u32, Seq<char>, HotKeySpec);

impl View for HotkeyBinding {
    type V = BindingView;

    open spec fn view(&self) -> BindingView {
        (self.id, self.duration_seconds, self.combo@, self.parsed)
    }
}

/// A hotkey as the config file holds it.
#[derive(Debug, Clone, PartialEq, Eq)]
pub struct HotkeyEntry {
    pub duration_seconds: u32,
    pub combination: String,
}

impl View for HotkeyEntry {
    type V = (u32, Seq<char>);

    open spec fn view(&self) -> (u32, Seq<char>) {
        (self.duration_seconds, self.combination@)
    }
}

pub open spec fn entry_views(v: Seq<HotkeyEntry>) -> Seq<(u32, Seq<char>)> {
    v.map_values(|e: HotkeyEntry| e@)
}

pub open spec fn binding_views(v: Seq<HotkeyBinding>) -> Seq<BindingView> {
    v.map_values(|b: HotkeyBinding| b@)
}

/// The validated configuration the recorder runs with.
#[derive(Debug, Clone)]
pub struct AppConfig {
    pub ffmpeg_path: String,
    pub buffer_dir: String,
    pub output_dir: String,
    pub max_replay_seconds: u32,
    pub segment_seconds: u32,
    pub frame_rate: u32,
    pub encoder: String,
    pub preset: String,
    pub ffmpeg_input: String,
    pub system_audio_enabled: bool,
    pub system_audio_backend: AudioBackend,
    pub system_audio_device: String,
    pub microphone_enabled: bool,
    pub microphone_backend: AudioBackend,
    pub microphone_device: String,
    pub audio_sample_rate: u32,
    pub audio_channels: u32,
    pub audio_bitrate: String,
    pub ffmpeg_extra_args: Vec<String>,
    pub hotkeys: Vec<HotkeyBinding>,
}

/// The configuration as the config file holds it: every setting has a
/// default, and the three paths may be left out.
#[derive(Debug, Clone, PartialEq, Eq)]
pub struct FileConfig {
    pub ffmpeg_path: Option<String>,
    pub buffer_dir: Option<String>,
    pub output_dir: Option<String>,
    pub max_replay_seconds: u32,
    pub segment_seconds: u32,
    pub frame_rate: u32,
    pub encoder: String,
    pub preset: String,
    pub ffmpeg_input: String,
    pub system_audio_enabled: bool,
    pub system_audio_backend: String,
    pub system_audio_device: String,
    pub microphone_enabled: bool,
    pub microphone_backend: String,
    pub microphone_device: String,
    pub audio_sample_rate: u32,
    pub audio_channels: u32,
    pub audio_bitrate: String,
    pub ffmpeg_extra_args: Vec<String>,
    pub hotkeys: Vec<HotkeyEntry>,
}

/// Reads one hotkey entry after the bindings `prev` made of the entries
/// before it: its duration must be positive, within the replay window and
/// new; its combination must parse and be new. Its id is its position,
/// counted from one.
pub open spec fn read_entry(prev: Seq<BindingView>, e: (u32, Seq<char>), max_replay: u32) -> Result<
    Seq<BindingView>,
    ConfigFault,
> {
    if e.0 == 0 {
        Err(ConfigFault::HotkeyDurationZero)
    } else if e.0 > max_replay {
        Err(ConfigFault::HotkeyDurationTooLong { duration: e.0, max_replay_seconds: max_replay })
    } else if exists|j: int| 0 <= j < prev.len() && (#[trigger] prev[j]).1 == e.0 {
        Err(ConfigFault::DuplicateHotkeyDuration { duration: e.0 })
    } else {
        match spec_parse_hotkey(e.1) {
            Err(c) => Err(ConfigFault::InvalidHotkey { combination: e.1, cause: c }),
            Ok(h) => if exists|j: int| 0 <= j < prev.len() && (#[trigger] prev[j]).3 == h {
                Err(ConfigFault::DuplicateHotkeyCombination { combination: e.1 })
            } else {
                Ok(prev.push(((prev.len() + 1) as i32, e.0, e.1, h)))
            },
        }
    }
}

/// Reads the hotkey entries in order; the first refusal stands.
pub open spec fn read_entries(entries: Seq<(u32, Seq<char>)>, max_replay: u32) -> Result<
    Seq<BindingView>,
    ConfigFault,
>
    decreases entries.len(),
{
    if entries.len() == 0 {
        Ok(Seq::empty())
    } else {
        match read_entries(entries.drop_last(), max_replay) {
            Err(f) => Err(f),
            Ok(prev) => read_entry(prev, entries.last(), max_replay),
        }
    }
}

/// The checks of a file configuration, in order: the first that fails is
/// the refusal; when all pass, the two audio backends and the hotkey
/// bindings in file order.
pub open spec fn config_check(fc: FileConfig) -> Result<
    (AudioBackend, AudioBackend, Seq<BindingView>),
    ConfigFault,
> {
    if fc.segment_seconds == 0 {
        Err(ConfigFault::SegmentSecondsZero)
    } else if fc.frame_rate == 0 {
        Err(ConfigFault::FrameRateZero)
    } else if fc.max_replay_seconds < MIN_MAX_REPLAY_SECONDS {
        Err(ConfigFault::MaxReplayTooShort)
    } else if fc.audio_sample_rate == 0 {
        Err(ConfigFault::SampleRateZero)
    } else if fc.audio_channels == 0 {
        Err(ConfigFault::ChannelsZero)
    } else if spec_trim(fc.audio_bitrate@).len() == 0 {
        Err(ConfigFault::EmptyAudioBitrate)
    } else {
        match spec_parse_backend(fc.system_audio_backend@) {
            None => Err(ConfigFault::InvalidAudioBackend { field: "system_audio_backend"@ }),
            Some(sb) => match spec_parse_backend(fc.microphone_backend@) {
                None => Err(ConfigFault::InvalidAudioBackend { field: "microphone_backend"@ }),
                Some(mb) => if fc.system_audio_enabled && spec_trim(fc.system_audio_device@).len()
                    == 0 {
                    Err(ConfigFault::EmptySystemAudioDevice)
                } else if fc.microphone_enabled && spec_trim(fc.microphone_device@).len() == 0 {
                    Err(ConfigFault::EmptyMicrophoneDevice)
                } else {
                    match read_entries(entry_views(fc.hotkeys@), fc.max_replay_seconds) {
                        Err(f) => Err(f),
                        Ok(bs) => Ok((sb, mb, bs)),
                    }
                },
            },
        }
    }
}

/// Bindings in order of duration.
pub open spec fn sorted_by_duration(bs: Seq<BindingView>) -> bool {
    forall|i: int, j: int| #![trigger bs[i], bs[j]] 0 <= i < j < bs.len() ==> bs[i].1 <= bs[j].1
}

/// `path`, or `default` where it is left out.
pub open spec fn path_or(path: Option<String>, default: Seq<char>) -> Seq<char> {
    match path {
        Some(p) => p@,
        None => default,
    }
}

/// The program run when no ffmpeg path is set.
pub open spec fn default_ffmpeg_path() -> Seq<char> {
    "ffmpeg.exe"@
}

/// `app` is the runtime form of `fc` with the default paths `paths`, the
/// backends `sb` and `mb`, and the bindings `bs` sorted by duration.
pub open spec fn is_app_config_of(
    app: AppConfig,
    fc: FileConfig,
    paths: AppPaths,
    sb: AudioBackend,
    mb: AudioBackend,
    bs: Seq<BindingView>,
) -> bool {
    &&& app.ffmpeg_path@ == path_or(fc.ffmpeg_path, default_ffmpeg_path())
    &&& app.buffer_dir@ == path_or(fc.buffer_dir, paths.buffer_dir@)
    &&& app.output_dir@ == path_or(fc.output_dir, paths.output_dir@)
    &&& app.max_replay_seconds == fc.max_replay_seconds
    &&& app.segment_seconds == fc.segment_seconds
    &&& app.frame_rate == fc.frame_rate
    &&& app.encoder@ == fc.encoder@
    &&& app.preset@ == fc.preset@
    &&& app.ffmpeg_input@ == fc.ffmpeg_input@
    &&& app.system_audio_enabled == fc.system_audio_enabled
    &&& app.system_audio_backend == sb
    &&& app.system_audio_device@ == fc.system_audio_device@
    &&& app.microphone_enabled == fc.microphone_enabled
    &&& app.microphone_backend == mb
    &&& app.microphone_device@ == fc.microphone_device@
    &&& app.audio_sample_rate == fc.audio_sample_rate
    &&& app.audio_channels == fc.audio_channels
    &&& app.audio_bitrate@ == fc.audio_bitrate@
    &&& app.ffmpeg_extra_args@ == fc.ffmpeg_extra_args@
    &&& sorted_by_duration(binding_views(app.hotkeys@))
    &&& binding_views(app.hotkeys@).to_multiset() == bs.to_multiset()
}


/// Once a refusal is read, the entries after it change nothing.
proof fn lemma_read_entries_error_stands(entries: Seq<(u32, Seq<char>)>, i: int, max_replay: u32)
    requires
        0 <= i <= entries.len(),
        read_entries(entries.take(i), max_replay) is Err,
    ensures
        read_entries(entries, max_replay) == read_entries(entries.take(i), max_replay),
    decreases entries.len() - i,
{
    if i < entries.len() {
        assert(entries.drop_last().take(i) =~= entries.take(i));
        lemma_read_entries_error_stands(entries.drop_last(), i, max_replay);
    } else {
        assert(entries.take(i) =~= entries);
    }
}

/// The bindings `v` in order of duration.
fn sort_by_duration(v: Vec<HotkeyBinding>) -> (r: Vec<HotkeyBinding>)
    ensures
        sorted_by_duration(binding_views(r@)),
        binding_views(r@).to_multiset() == binding_views(v@).to_multiset(),
{
    broadcast use vstd::multiset::group_multiset_axioms;
    broadcast use vstd::seq_lib::group_to_multiset_ensures;

    let ghost original = binding_views(v@);
    let mut rest = v;
    let mut out: Vec<HotkeyBinding> = Vec::new();
    assert(binding_views(out@) =~= Seq::<BindingView>::empty());
    assert(binding_views(out@).to_multiset() =~= vstd::multiset::Multiset::empty());
    while rest.len() > 0
        invariant
            sorted_by_duration(binding_views(out@)),
            binding_views(out@).to_multiset().add(binding_views(rest@).to_multiset())
                == original.to_multiset(),
        decreases rest.len(),
    {
        let ghost rest_before = binding_views(rest@);
        let ghost out_before = binding_views(out@);
        let x = rest.remove(0);
        proof {
            assert(binding_views(rest@) =~= rest_before.remove(0));
            assert(rest_before[0] == x@);
            assert(rest_before.contains(x@));
            vstd::seq_lib::to_multiset_contains(rest_before, x@);
            vstd::seq_lib::to_multiset_remove(rest_before, 0);
        }
        let mut pos: usize = 0;
        while pos < out.len() && out[pos].duration_seconds <= x.duration_seconds
            invariant
                pos <= out.len(),
                out_before == binding_views(out@),
                forall|k: int| 0 <= k < pos ==> (#[trigger] out@[k]).duration_seconds
                    <= x.duration_seconds,
            decreases out.len() - pos,
        {
            pos += 1;
        }
        out.insert(pos, x);
        proof {
            assert(binding_views(out@) =~= out_before.insert(pos as int, x@));
            vstd::seq_lib::to_multiset_insert(out_before, pos as int, x@);
            let ov = binding_views(out@);
            assert forall|i: int, j: int| 0 <= i < j < ov.len() implies #[trigger] ov[i].1
                <= #[trigger] ov[j].1 by {
                if j < pos {
                    assert(ov[i] == out_before[i] && ov[j] == out_before[j]);
                } else if j == pos {
                    assert(ov[i] == out_before[i]);
                    assert(out@[i].duration_seconds <= x.duration_seconds);
                } else if i < pos {
                    assert(ov[i] == out_before[i] && ov[j] == out_before[j - 1]);
                    if pos < out_before.len() {
                        assert(out_before[pos as int].1 > x.duration_seconds);
                    }
                } else if i == pos {
                    assert(ov[j] == out_before[j - 1]);
                    assert(out_before[pos as int].1 > x.duration_seconds);
                    if j - 1 > pos {
                        assert(out_before[pos as int].1 <= out_before[j - 1].1);
                    }
                } else {
                    assert(ov[i] == out_before[i - 1] && ov[j] == out_before[j - 1]);
                }
            }
            assert(binding_views(out@).to_multiset().add(binding_views(rest@).to_multiset())
                =~= original.to_multiset());
        }
    }
    assert(binding_views(rest@) =~= Seq::<BindingView>::empty());
    assert(binding_views(rest@).to_multiset() =~= vstd::multiset::Multiset::empty());
    assert(binding_views(out@).to_multiset() =~= original.to_multiset());
    out
}


impl FileConfig {
    /// Validates the file configuration and turns it into the runtime one:
    /// left-out paths take `ffmpeg.exe` and the default directories of
    /// `paths`; hotkeys come sorted by duration, each with its position in
    /// the file (from one) as id. Refused exactly when `config_check`
    /// refuses, with its refusal.
    pub fn into_app_config(self, paths: &AppPaths) -> (r: Result<AppConfig, ConfigError>)
        ensures
            r matches Err(e) ==> config_check(self) == Err::<
                (AudioBackend, AudioBackend, Seq<BindingView>),
                ConfigFault,
            >(e@),
            r matches Ok(app) ==> (config_check(self) matches Ok((sb, mb, bs)) && is_app_config_of(
                app,
                self,
                *paths,
                sb,
                mb,
                bs,
            )),
    {
        if self.segment_seconds == 0 {
            return Err(ConfigError::SegmentSecondsZero);
        }
        if self.frame_rate == 0 {
            return Err(ConfigError::FrameRateZero);
        }
        if self.max_replay_seconds < MIN_MAX_REPLAY_SECONDS {
            return Err(ConfigError::MaxReplayTooShort);
        }
        if self.audio_sample_rate == 0 {
            return Err(ConfigError::SampleRateZero);
        }
        if self.audio_channels == 0 {
            return Err(ConfigError::ChannelsZero);
        }
        if trim(self.audio_bitrate.as_str()).unicode_len() == 0 {
            return Err(ConfigError::EmptyAudioBitrate);
        }
        proof {
            reveal_strlit("system_audio_backend");
            reveal_strlit("microphone_backend");
        }
        let system_audio_backend = match AudioBackend::parse(
            self.system_audio_backend.as_str(),
            "system_audio_backend",
        ) {
            Ok(b) => b,
            Err(e) => {
                return Err(e);
            },
        };
        let microphone_backend = match AudioBackend::parse(
            self.microphone_backend.as_str(),
            "microphone_backend",
        ) {
            Ok(b) => b,
            Err(e) => {
                return Err(e);
            },
        };
        if self.system_audio_enabled && trim(self.system_audio_device.as_str()).unicode_len() == 0 {
            return Err(ConfigError::EmptySystemAudioDevice);
        }
        if self.microphone_enabled && trim(self.microphone_device.as_str()).unicode_len() == 0 {
            return Err(ConfigError::EmptyMicrophoneDevice);
        }
        let max_replay = self.max_replay_seconds;
        let ghost entries = entry_views(self.hotkeys@);
        let mut bindings: Vec<HotkeyBinding> = Vec::new();
        let mut i: usize = 0;
        assert(entries.take(0) =~= Seq::<(u32, Seq<char>)>::empty());
        assert(binding_views(bindings@) =~= Seq::<BindingView>::empty());
        assert(config_check(self) == match read_entries(entries, max_replay) {
            Err(f) => Err(f),
            Ok(bs) => Ok((system_audio_backend, microphone_backend, bs)),
        });
        while i < self.hotkeys.len()
            invariant
                entries == entry_views(self.hotkeys@),
                entries.len() == self.hotkeys.len(),
                config_check(self) == match read_entries(entries, max_replay) {
                    Err(f) => Err(f),
                    Ok(bs) => Ok((system_audio_backend, microphone_backend, bs)),
                },
                i <= self.hotkeys.len(),
                max_replay == self.max_replay_seconds,
                bindings.len() == i,
                read_entries(entries.take(i as int), max_replay) == Ok::<
                    Seq<BindingView>,
                    ConfigFault,
                >(binding_views(bindings@)),
            decreases self.hotkeys.len() - i,
        {
            let entry = &self.hotkeys[i];
            let d = entry.duration_seconds;
            let ghost prev = binding_views(bindings@);
            proof {
                assert(entries.take(i + 1).drop_last() =~= entries.take(i as int));
                assert(entries.take(i + 1).last() == entry@);
            }
            if d == 0 {
                proof {
                    lemma_read_entries_error_stands(entries, i + 1, max_replay);
                }
                return Err(ConfigError::HotkeyDurationZero);
            }
            if d > max_replay {
                proof {
                    lemma_read_entries_error_stands(entries, i + 1, max_replay);
                }
                return Err(
                    ConfigError::HotkeyDurationTooLong {
                        duration: d,
                        max_replay_seconds: max_replay,
                    },
                );
            }
            let mut j: usize = 0;
            #[verifier::loop_isolation(false)]
            while j < bindings.len()
                invariant
                    j <= bindings.len(),
                    prev == binding_views(bindings@),
                    forall|k: int| 0 <= k < j ==> (#[trigger] prev[k]).1 != d,
                decreases bindings.len() - j,
            {
                if bindings[j].duration_seconds == d {
                    proof {
                        assert(prev[j as int].1 == d);
                        lemma_read_entries_error_stands(entries, i + 1, max_replay);
                    }
                    return Err(ConfigError::DuplicateHotkeyDuration { duration: d });
                }
                j += 1;
            }
            let parsed = match HotKeySpec::parse(entry.combination.as_str()) {
                Ok(h) => h,
                Err(c) => {
                    proof {
                        lemma_read_entries_error_stands(entries, i + 1, max_replay);
                    }
                    return Err(
                        ConfigError::InvalidHotkey {
                            combination: entry.combination.clone(),
                            cause: c,
                        },
                    );
                },
            };
            let mut j: usize = 0;
            #[verifier::loop_isolation(false)]
            while j < bindings.len()
                invariant
                    j <= bindings.len(),
                    prev == binding_views(bindings@),
                    forall|k: int| 0 <= k < j ==> (#[trigger] prev[k]).3 != parsed,
                decreases bindings.len() - j,
            {
                if bindings[j].parsed == parsed {
                    proof {
                        assert(prev[j as int].3 == parsed);
                        lemma_read_entries_error_stands(entries, i + 1, max_replay);
                    }
                    return Err(
                        ConfigError::DuplicateHotkeyCombination {
                            combination: entry.combination.clone(),
                        },
                    );
                }
                j += 1;
            }
            bindings.push(
                HotkeyBinding {
                    id: (i + 1) as i32,
                    duration_seconds: d,
                    combo: entry.combination.clone(),
                    parsed,
                },
            );
            assert(binding_views(bindings@) =~= prev.push(
                (((prev.len() + 1) as i32), d, entry.combination@, parsed),
            ));
            i += 1;
        }
        assert(entries.take(self.hotkeys.len() as int) =~= entries);
        let ghost built = binding_views(bindings@);
        let hotkeys = sort_by_duration(bindings);
        let ffmpeg_path = match self.ffmpeg_path {
            Some(p) => p,
            None => "ffmpeg.exe".to_owned(),
        };
        let buffer_dir = match self.buffer_dir {
            Some(p) => p,
            None => paths.buffer_dir.clone(),
        };
        let output_dir = match self.output_dir {
            Some(p) => p,
            None => paths.output_dir.clone(),
        };
        Ok(
            AppConfig {
                ffmpeg_path,
                buffer_dir,
                output_dir,
                max_replay_seconds: self.max_replay_seconds,
                segment_seconds: self.segment_seconds,
                frame_rate: self.frame_rate,
                encoder: self.encoder,
                preset: self.preset,
                ffmpeg_input: self.ffmpeg_input,
                system_audio_enabled: self.system_audio_enabled,
                system_audio_backend,
                system_audio_device: self.system_audio_device,
                microphone_enabled: self.microphone_enabled,
                microphone_backend,
                microphone_device: self.microphone_device,
                audio_sample_rate: self.audio_sample_rate,
                audio_channels: self.audio_channels,
                audio_bitrate: self.audio_bitrate,
                ffmpeg_extra_args: self.ffmpeg_extra_args,
                hotkeys,
            },
        )
    }
}


/// `opt` is how the file holds the path `value`: left out when it names
/// the same path as `default`, component by component (`buffer/` and
/// `buffer` are the same), else written as it is.
pub open spec fn is_sparse_path(opt: Option<String>, value: Seq<char>, default: Seq<char>) -> bool {
    match opt {
        None => same_path(value, default),
        Some(p) => p@ == value && !same_path(value, default),
    }
}

/// A binding as the config file holds it.
pub open spec fn entry_of_binding(b: BindingView) -> (u32, Seq<char>) {
    (b.1, b.2)
}

/// `fc` is `app` as the config file holds it, with `paths` as defaults.
pub open spec fn is_file_config_of(fc: FileConfig, app: AppConfig, paths: AppPaths) -> bool {
    &&& is_sparse_path(fc.ffmpeg_path, app.ffmpeg_path@, default_ffmpeg_path())
    &&& is_sparse_path(fc.buffer_dir, app.buffer_dir@, paths.buffer_dir@)
    &&& is_sparse_path(fc.output_dir, app.output_dir@, paths.output_dir@)
    &&& fc.max_replay_seconds == app.max_replay_seconds
    &&& fc.segment_seconds == app.segment_seconds
    &&& fc.frame_rate == app.frame_rate
    &&& fc.encoder@ == app.encoder@
    &&& fc.preset@ == app.preset@
    &&& fc.ffmpeg_input@ == app.ffmpeg_input@
    &&& fc.system_audio_enabled == app.system_audio_enabled
    &&& fc.system_audio_backend@ == backend_name(app.system_audio_backend)
    &&& fc.system_audio_device@ == app.system_audio_device@
    &&& fc.microphone_enabled == app.microphone_enabled
    &&& fc.microphone_backend@ == backend_name(app.microphone_backend)
    &&& fc.microphone_device@ == app.microphone_device@
    &&& fc.audio_sample_rate == app.audio_sample_rate
    &&& fc.audio_channels == app.audio_channels
    &&& fc.audio_bitrate@ == app.audio_bitrate@
    &&& fc.ffmpeg_extra_args@ == app.ffmpeg_extra_args@
    &&& entry_views(fc.hotkeys@) == binding_views(app.hotkeys@).map_values(
        |b: BindingView| entry_of_binding(b),
    )
}

/// The path `value` as the file holds it: left out when it is the path
/// `default`.
fn sparse_path(value: &String, default: &str) -> (r: Option<String>)
    ensures
        is_sparse_path(r, value@, default@),
{
    if paths_equal(value.as_str(), default) {
        None
    } else {
        Some(value.clone())
    }
}

/// A copy of a list of strings.
fn clone_strings(v: &Vec<String>) -> (r: Vec<String>)
    ensures
        r@ == v@,
{
    let mut out: Vec<String> = Vec::new();
    let mut i: usize = 0;
    while i < v.len()
        invariant
            i <= v.len(),
            out@ =~= v@.take(i as int),
        decreases v.len() - i,
    {
        out.push(v[i].clone());
        i += 1;
    }
    assert(v@.take(v.len() as int) =~= v@);
    out
}

impl AppConfig {
    /// How many buffered segments to keep for this configuration.
    pub fn keep_segment_count(&self) -> (r: usize)
        requires
            spec_keep_segment_count(self.max_replay_seconds, self.segment_seconds) <= usize::MAX,
        ensures
            r == spec_keep_segment_count(self.max_replay_seconds, self.segment_seconds),
    {
        keep_segment_count(self.max_replay_seconds, self.segment_seconds)
    }

    /// The combination of the first hotkey that saves `duration_seconds`.
    pub fn hotkey_combination(&self, duration_seconds: u32) -> (r: Option<&str>)
        ensures
            r is None ==> forall|i: int|
                0 <= i < self.hotkeys@.len() ==> (#[trigger] self.hotkeys@[i]).duration_seconds
                    != duration_seconds,
            r matches Some(c) ==> exists|i: int|
                0 <= i < self.hotkeys@.len() && (#[trigger] self.hotkeys@[i]).duration_seconds
                    == duration_seconds && c@ == self.hotkeys@[i].combo@ && forall|k: int|
                    0 <= k < i ==> (#[trigger] self.hotkeys@[k]).duration_seconds
                        != duration_seconds,
    {
        let mut i: usize = 0;
        while i < self.hotkeys.len()
            invariant
                i <= self.hotkeys.len(),
                forall|k: int| 0 <= k < i ==> (#[trigger] self.hotkeys@[k]).duration_seconds
                    != duration_seconds,
            decreases self.hotkeys.len() - i,
        {
            if self.hotkeys[i].duration_seconds == duration_seconds {
                return Some(self.hotkeys[i].combo.as_str());
            }
            i += 1;
        }
        None
    }

    /// The replay duration of the hotkey registered under `id`, if any (the
    /// first binding with that id).
    pub fn hotkey_duration(&self, id: i32) -> (r: Option<u32>)
        ensures
            r is None ==> forall|i: int|
                0 <= i < self.hotkeys@.len() ==> (#[trigger] self.hotkeys@[i]).id != id,
            r matches Some(d) ==> exists|i: int|
                0 <= i < self.hotkeys@.len() && (#[trigger] self.hotkeys@[i]).id == id
                    && self.hotkeys@[i].duration_seconds == d && forall|k: int|
                    0 <= k < i ==> (#[trigger] self.hotkeys@[k]).id != id,
    {
        let mut i: usize = 0;
        while i < self.hotkeys.len()
            invariant
                i <= self.hotkeys.len(),
                forall|k: int| 0 <= k < i ==> (#[trigger] self.hotkeys@[k]).id != id,
            decreases self.hotkeys.len() - i,
        {
            if self.hotkeys[i].id == id {
                return Some(self.hotkeys[i].duration_seconds);
            }
            i += 1;
        }
        None
    }

    /// The configuration as the config file holds it: paths equal to the
    /// defaults (`ffmpeg.exe` and those of `paths`) are left out, backends
    /// are written by name, hotkeys keep their order.
    pub fn to_file_config(&self, paths: &AppPaths) -> (r: FileConfig)
        ensures
            is_file_config_of(r, *self, *paths),
    {
        let mut hotkeys: Vec<HotkeyEntry> = Vec::new();
        let mut i: usize = 0;
        while i < self.hotkeys.len()
            invariant
                i <= self.hotkeys.len(),
                entry_views(hotkeys@) =~= binding_views(self.hotkeys@).take(i as int).map_values(
                    |b: BindingView| entry_of_binding(b),
                ),
            decreases self.hotkeys.len() - i,
        {
            let binding = &self.hotkeys[i];
            let ghost before = entry_views(hotkeys@);
            let ghost bv = binding_views(self.hotkeys@);
            hotkeys.push(
                HotkeyEntry {
                    duration_seconds: binding.duration_seconds,
                    combination: binding.combo.clone(),
                },
            );
            assert(entry_views(hotkeys@) =~= before.push((binding.duration_seconds, binding.combo@)));
            assert(bv.take(i + 1).map_values(|b: BindingView| entry_of_binding(b)) =~= bv.take(
                i as int,
            ).map_values(|b: BindingView| entry_of_binding(b)).push(entry_of_binding(bv[i as int])));
            i += 1;
        }
        assert(binding_views(self.hotkeys@).take(self.hotkeys.len() as int) =~= binding_views(
            self.hotkeys@,
        ));
        FileConfig {
            ffmpeg_path: sparse_path(&self.ffmpeg_path, "ffmpeg.exe"),
            buffer_dir: sparse_path(&self.buffer_dir, paths.buffer_dir.as_str()),
            output_dir: sparse_path(&self.output_dir, paths.output_dir.as_str()),
            max_replay_seconds: self.max_replay_seconds,
            segment_seconds: self.segment_seconds,
            frame_rate: self.frame_rate,
            encoder: self.encoder.clone(),
            preset: self.preset.clone(),
            ffmpeg_input: self.ffmpeg_input.clone(),
            system_audio_enabled: self.system_audio_enabled,
            system_audio_backend: self.system_audio_backend.as_str().to_owned(),
            system_audio_device: self.system_audio_device.clone(),
            microphone_enabled: self.microphone_enabled,
            microphone_backend: self.microphone_backend.as_str().to_owned(),
            microphone_device: self.microphone_device.clone(),
            audio_sample_rate: self.audio_sample_rate,
            audio_channels: self.audio_channels,
            audio_bitrate: self.audio_bitrate.clone(),
            ffmpeg_extra_args: clone_strings(&self.ffmpeg_extra_args),
            hotkeys,
        }
    }
}


pub const DEFAULT_FRAME_RATE: u32 = 30;

pub const DEFAULT_SEGMENT_SECONDS: u32 = 1;

pub const DEFAULT_MAX_REPLAY_SECONDS: u32 = 300;

pub const DEFAULT_AUDIO_SAMPLE_RATE: u32 = 48_000;

pub const DEFAULT_AUDIO_CHANNELS: u32 = 2;

/// The replay durations that the settings window offers a hotkey for.
pub const SETTINGS_HOTKEY_DURATIONS: [u32; 5] = [10, 30, 60, 120, 300];

/// The default hotkeys, by duration.
pub open spec fn default_hotkeys() -> Seq<(u32, Seq<char>)> {
    seq![
        (10u32, "Ctrl+Alt+Shift+1"@),
        (30u32, "Ctrl+Alt+Shift+2"@),
        (60u32, "Ctrl+Alt+Shift+3"@),
        (120u32, "Ctrl+Alt+Shift+4"@),
        (300u32, "Ctrl+Alt+Shift+5"@),
    ]
}

/// The default combination for a duration, if it has one.
pub open spec fn spec_default_combination(duration_seconds: u32) -> Option<Seq<char>> {
    if duration_seconds == 10 {
        Some("Ctrl+Alt+Shift+1"@)
    } else if duration_seconds == 30 {
        Some("Ctrl+Alt+Shift+2"@)
    } else if duration_seconds == 60 {
        Some("Ctrl+Alt+Shift+3"@)
    } else if duration_seconds == 120 {
        Some("Ctrl+Alt+Shift+4"@)
    } else if duration_seconds == 300 {
        Some("Ctrl+Alt+Shift+5"@)
    } else {
        None
    }
}

/// The default hotkey combination for `duration_seconds`, if it has one.
pub fn default_hotkey_combination(duration_seconds: u32) -> (r: Option<&'static str>)
    ensures
        r matches Some(c) ==> spec_default_combination(duration_seconds) == Some(c@),
        r is None ==> spec_default_combination(duration_seconds) is None,
{
    if duration_seconds == 10 {
        Some("Ctrl+Alt+Shift+1")
    } else if duration_seconds == 30 {
        Some("Ctrl+Alt+Shift+2")
    } else if duration_seconds == 60 {
        Some("Ctrl+Alt+Shift+3")
    } else if duration_seconds == 120 {
        Some("Ctrl+Alt+Shift+4")
    } else if duration_seconds == 300 {
        Some("Ctrl+Alt+Shift+5")
    } else {
        None
    }
}

/// The default hotkeys as the config file holds them.
pub fn default_hotkey_entries() -> (r: Vec<HotkeyEntry>)
    ensures
        entry_views(r@) == default_hotkeys(),
{
    let mut out: Vec<HotkeyEntry> = Vec::new();
    out.push(HotkeyEntry { duration_seconds: 10, combination: "Ctrl+Alt+Shift+1".to_owned() });
    out.push(HotkeyEntry { duration_seconds: 30, combination: "Ctrl+Alt+Shift+2".to_owned() });
    out.push(HotkeyEntry { duration_seconds: 60, combination: "Ctrl+Alt+Shift+3".to_owned() });
    out.push(HotkeyEntry { duration_seconds: 120, combination: "Ctrl+Alt+Shift+4".to_owned() });
    out.push(HotkeyEntry { duration_seconds: 300, combination: "Ctrl+Alt+Shift+5".to_owned() });
    assert(entry_views(out@) =~= default_hotkeys());
    out
}

/// The configuration written on first run.
pub open spec fn is_default_file_config(fc: FileConfig) -> bool {
    &&& fc.ffmpeg_path is None
    &&& fc.buffer_dir is None
    &&& fc.output_dir is None
    &&& fc.max_replay_seconds == DEFAULT_MAX_REPLAY_SECONDS
    &&& fc.segment_seconds == DEFAULT_SEGMENT_SECONDS
    &&& fc.frame_rate == DEFAULT_FRAME_RATE
    &&& fc.encoder@ == "libx264"@
    &&& fc.preset@ == "veryfast"@
    &&& fc.ffmpeg_input@ == "desktop"@
    &&& !fc.system_audio_enabled
    &&& fc.system_audio_backend@ == "wasapi"@
    &&& fc.system_audio_device@ == "default"@
    &&& !fc.microphone_enabled
    &&& fc.microphone_backend@ == "dshow"@
    &&& fc.microphone_device@ == Seq::<char>::empty()
    &&& fc.audio_sample_rate == DEFAULT_AUDIO_SAMPLE_RATE
    &&& fc.audio_channels == DEFAULT_AUDIO_CHANNELS
    &&& fc.audio_bitrate@ == "192k"@
    &&& fc.ffmpeg_extra_args@ == Seq::<String>::empty()
    &&& entry_views(fc.hotkeys@) == default_hotkeys()
}

impl Default for FileConfig {
    fn default() -> (r: Self)
        ensures
            is_default_file_config(r),
    {
        FileConfig {
            ffmpeg_path: None,
            buffer_dir: None,
            output_dir: None,
            max_replay_seconds: DEFAULT_MAX_REPLAY_SECONDS,
            segment_seconds: DEFAULT_SEGMENT_SECONDS,
            frame_rate: DEFAULT_FRAME_RATE,
            encoder: "libx264".to_owned(),
            preset: "veryfast".to_owned(),
            ffmpeg_input: "desktop".to_owned(),
            system_audio_enabled: false,
            system_audio_backend: "wasapi".to_owned(),
            system_audio_device: "default".to_owned(),
            microphone_enabled: false,
            microphone_backend: "dshow".to_owned(),
            microphone_device: String::new(),
            audio_sample_rate: DEFAULT_AUDIO_SAMPLE_RATE,
            audio_channels: DEFAULT_AUDIO_CHANNELS,
            audio_bitrate: "192k".to_owned(),
            ffmpeg_extra_args: Vec::new(),
            hotkeys: default_hotkey_entries(),
        }
    }
}


/// One binding is fit to register: a positive duration within the window,
/// and a combination whose parse it holds, which is supported.
pub open spec fn is_fit_binding(b: BindingView, max_replay: u32) -> bool {
    &&& 1 <= b.1 <= max_replay
    &&& spec_parse_hotkey(b.2) == Ok::<HotKeySpec, HotkeyFault>(b.3)
    &&& is_supported_hotkey(b.3)
}

/// Bindings are fit to register together: each one fit, and no two share a
/// duration or a parsed combination.
pub open spec fn are_fit_bindings(bs: Seq<BindingView>, max_replay: u32) -> bool {
    &&& forall|i: int| 0 <= i < bs.len() ==> is_fit_binding(#[trigger] bs[i], max_replay)
    &&& forall|i: int, j: int|
        #![trigger bs[i], bs[j]]
        0 <= i < bs.len() && 0 <= j < bs.len() && i != j ==> bs[i].1 != bs[j].1 && bs[i].3
            != bs[j].3
}

proof fn lemma_read_entries_fit(entries: Seq<(u32, Seq<char>)>, max_replay: u32)
    ensures
        read_entries(entries, max_replay) matches Ok(bs) ==> {
            &&& are_fit_bindings(bs, max_replay)
            &&& bs.len() == entries.len()
            &&& forall|i: int|
                0 <= i < bs.len() ==> (#[trigger] bs[i]).0 == (i + 1) as i32 && bs[i].1
                    == entries[i].0 && bs[i].2 == entries[i].1
        },
    decreases entries.len(),
{
    if entries.len() > 0 {
        lemma_read_entries_fit(entries.drop_last(), max_replay);
        if let Ok(bs) = read_entries(entries, max_replay) {
            let prev = read_entries(entries.drop_last(), max_replay)->Ok_0;
            let e = entries.last();
            law_parsed_hotkey_is_supported(e.1);
            assert(bs.drop_last() == prev);
            assert forall|i: int, j: int|
                0 <= i < bs.len() && 0 <= j < bs.len() && i != j implies #[trigger] bs[i].1
                != #[trigger] bs[j].1 && bs[i].3 != bs[j].3 by {
                if i < prev.len() && j < prev.len() {
                    assert(bs[i] == prev[i] && bs[j] == prev[j]);
                } else if i < prev.len() {
                    assert(bs[i] == prev[i]);
                } else {
                    assert(bs[j] == prev[j]);
                }
            }
        }
    }
}


/// An element of a sequence is found in any sequence with the same
/// multiset.
proof fn lemma_in_permutation(hs: Seq<BindingView>, bs: Seq<BindingView>, i: int) -> (p: int)
    requires
        hs.to_multiset() == bs.to_multiset(),
        0 <= i < hs.len(),
    ensures
        0 <= p < bs.len(),
        bs[p] == hs[i],
{
    vstd::seq_lib::to_multiset_contains(hs, hs[i]);
    assert(hs.contains(hs[i]));
    vstd::seq_lib::to_multiset_contains(bs, hs[i]);
    choose|p: int| 0 <= p < bs.len() && bs[p] == hs[i]
}

/// A configuration that `into_app_config` accepts runs with sane settings
/// (segments and frame rate of at least one, a replay window of at least
/// ten seconds, audio settings present where audio is on) and hotkeys in
/// strictly increasing order of duration, each with a duration within the
/// window and a supported combination that parses to what it holds, no two
/// alike in duration or combination, and, when the file holds fewer than
/// 2^31 hotkeys, no two with the same id.
pub proof fn law_accepted_config_is_sane(
    app: AppConfig,
    fc: FileConfig,
    paths: AppPaths,
    sb: AudioBackend,
    mb: AudioBackend,
    bs: Seq<BindingView>,
)
    requires
        config_check(fc) == Ok::<(AudioBackend, AudioBackend, Seq<BindingView>), ConfigFault>(
            (sb, mb, bs),
        ),
        is_app_config_of(app, fc, paths, sb, mb, bs),
    ensures
        app.segment_seconds >= 1,
        app.frame_rate >= 1,
        app.max_replay_seconds >= MIN_MAX_REPLAY_SECONDS,
        app.audio_sample_rate >= 1,
        app.audio_channels >= 1,
        spec_trim(app.audio_bitrate@).len() > 0,
        app.system_audio_enabled ==> spec_trim(app.system_audio_device@).len() > 0,
        app.microphone_enabled ==> spec_trim(app.microphone_device@).len() > 0,
        are_fit_bindings(binding_views(app.hotkeys@), app.max_replay_seconds),
        forall|i: int, j: int|
            #![trigger app.hotkeys@[i], app.hotkeys@[j]]
            0 <= i < j < app.hotkeys@.len() ==> app.hotkeys@[i].duration_seconds
                < app.hotkeys@[j].duration_seconds,
        fc.hotkeys@.len() <= i32::MAX ==> forall|i: int, j: int|
            #![trigger app.hotkeys@[i], app.hotkeys@[j]]
            0 <= i < app.hotkeys@.len() && 0 <= j < app.hotkeys@.len() && i != j
                ==> app.hotkeys@[i].id != app.hotkeys@[j].id,
{
    let entries = entry_views(fc.hotkeys@);
    lemma_read_entries_fit(entries, fc.max_replay_seconds);
    let hs = binding_views(app.hotkeys@);
    assert(bs.no_duplicates()) by {
        assert forall|i: int, j: int| 0 <= i < bs.len() && 0 <= j < bs.len() && i != j implies bs[i]
            != bs[j] by {
            assert(bs[i].1 != bs[j].1);
        }
    }
    bs.lemma_multiset_has_no_duplicates();
    hs.lemma_multiset_has_no_duplicates_conv();
    assert forall|i: int| 0 <= i < hs.len() implies is_fit_binding(
        #[trigger] hs[i],
        fc.max_replay_seconds,
    ) by {
        let p = lemma_in_permutation(hs, bs, i);
    }
    assert forall|i: int, j: int|
        0 <= i < hs.len() && 0 <= j < hs.len() && i != j implies #[trigger] hs[i].1
        != #[trigger] hs[j].1 && hs[i].3 != hs[j].3 && (entries.len() <= i32::MAX ==> hs[i].0
        != hs[j].0) by {
        let p = lemma_in_permutation(hs, bs, i);
        let q = lemma_in_permutation(hs, bs, j);
        assert(hs[i] != hs[j]);
        assert(p != q);
    }
    assert forall|i: int, j: int| 0 <= i < j < app.hotkeys@.len() implies (
    #[trigger] app.hotkeys@[i]).duration_seconds < (#[trigger] app.hotkeys@[j]).duration_seconds by {
        assert(hs[i].1 <= hs[j].1);
        assert(hs[i].1 != hs[j].1);
    }
    assert forall|i: int, j: int|
        0 <= i < app.hotkeys@.len() && 0 <= j < app.hotkeys@.len() && i != j && fc.hotkeys@.len()
            <= i32::MAX implies (#[trigger] app.hotkeys@[i]).id != (
    #[trigger] app.hotkeys@[j]).id by {
        assert(hs[i].0 != hs[j].0);
    }
}


proof fn lemma_read_sane_entries(entries: Seq<(u32, Seq<char>)>, max_replay: u32)
    requires
        forall|i: int|
            0 <= i < entries.len() ==> 1 <= (#[trigger] entries[i]).0 <= max_replay
                && spec_parse_hotkey(entries[i].1) is Ok,
        forall|i: int, j: int|
            #![trigger entries[i], entries[j]]
            0 <= i < entries.len() && 0 <= j < entries.len() && i != j ==> entries[i].0
                != entries[j].0 && spec_parse_hotkey(entries[i].1) != spec_parse_hotkey(
                entries[j].1,
            ),
    ensures
        read_entries(entries, max_replay) matches Ok(bs) && bs.len() == entries.len() && (forall|
            i: int,
        |
            0 <= i < entries.len() ==> (#[trigger] bs[i]).1 == entries[i].0
                && spec_parse_hotkey(entries[i].1) == Ok::<HotKeySpec, HotkeyFault>(bs[i].3)),
    decreases entries.len(),
{
    if entries.len() > 0 {
        let prev = entries.drop_last();
        let n = entries.len() - 1;
        assert forall|i: int| 0 <= i < n implies #[trigger] prev[i] == entries[i] by {
        }
        lemma_read_sane_entries(prev, max_replay);
        let bs = read_entries(prev, max_replay)->Ok_0;
        let e = entries.last();
        assert(e == entries[n]);
        assert(!exists|j: int| 0 <= j < bs.len() && (#[trigger] bs[j]).1 == e.0) by {
            assert forall|j: int| 0 <= j < bs.len() implies (#[trigger] bs[j]).1 != e.0 by {
                assert(bs[j].1 == prev[j].0);
                assert(entries[j].0 != entries[n].0);
            }
        }
        let h = spec_parse_hotkey(e.1)->Ok_0;
        assert(!exists|j: int| 0 <= j < bs.len() && (#[trigger] bs[j]).3 == h) by {
            assert forall|j: int| 0 <= j < bs.len() implies (#[trigger] bs[j]).3 != h by {
                assert(spec_parse_hotkey(prev[j].1) == Ok::<HotKeySpec, HotkeyFault>(bs[j].3));
                assert(spec_parse_hotkey(entries[j].1) != spec_parse_hotkey(entries[n].1));
            }
        }
        let all = bs.push(((bs.len() + 1) as i32, e.0, e.1, h));
        assert(read_entries(entries, max_replay) == Ok::<Seq<BindingView>, ConfigFault>(all));
        assert forall|i: int| 0 <= i < entries.len() implies (#[trigger] all[i]).1 == entries[i].0
            && spec_parse_hotkey(entries[i].1) == Ok::<HotKeySpec, HotkeyFault>(all[i].3) by {
            if i < n {
                assert(all[i] == bs[i]);
            }
        }
    }
}

/// A configuration with sane settings is accepted: segments, frame rate,
/// sample rate and channels of at least one, a replay window of at least
/// ten seconds, a bitrate that is not blank, two backends that parse,
/// devices that are not blank where audio is on, and hotkeys whose
/// durations lie within the window and whose combinations parse, no two
/// alike in duration or parsed combination. (The converse of
/// `law_accepted_config_is_sane`.)
pub proof fn law_sane_config_is_accepted(fc: FileConfig)
    requires
        fc.segment_seconds >= 1,
        fc.frame_rate >= 1,
        fc.max_replay_seconds >= 10,
        fc.audio_sample_rate >= 1,
        fc.audio_channels >= 1,
        spec_trim(fc.audio_bitrate@).len() > 0,
        spec_parse_backend(fc.system_audio_backend@) is Some,
        spec_parse_backend(fc.microphone_backend@) is Some,
        fc.system_audio_enabled ==> spec_trim(fc.system_audio_device@).len() > 0,
        fc.microphone_enabled ==> spec_trim(fc.microphone_device@).len() > 0,
        forall|i: int|
            0 <= i < fc.hotkeys@.len() ==> 1 <= (#[trigger] fc.hotkeys@[i]).duration_seconds
                <= fc.max_replay_seconds && spec_parse_hotkey(fc.hotkeys@[i].combination@) is Ok,
        forall|i: int, j: int|
            #![trigger fc.hotkeys@[i], fc.hotkeys@[j]]
            0 <= i < fc.hotkeys@.len() && 0 <= j < fc.hotkeys@.len() && i != j
                ==> fc.hotkeys@[i].duration_seconds != fc.hotkeys@[j].duration_seconds
                && spec_parse_hotkey(fc.hotkeys@[i].combination@) != spec_parse_hotkey(
                fc.hotkeys@[j].combination@,
            ),
    ensures
        config_check(fc) is Ok,
{
    let entries = entry_views(fc.hotkeys@);
    assert forall|i: int| 0 <= i < entries.len() implies #[trigger] entries[i] == (
        fc.hotkeys@[i].duration_seconds,
        fc.hotkeys@[i].combination@,
    ) by {
    }
    assert forall|i: int, j: int|
        0 <= i < entries.len() && 0 <= j < entries.len() && i != j implies (#[trigger] entries[i]).0
        != (#[trigger] entries[j]).0 && spec_parse_hotkey(entries[i].1) != spec_parse_hotkey(
        entries[j].1,
    ) by {
        assert(entries[i] == (fc.hotkeys@[i].duration_seconds, fc.hotkeys@[i].combination@));
        assert(entries[j] == (fc.hotkeys@[j].duration_seconds, fc.hotkeys@[j].combination@));
    }
    lemma_read_sane_entries(entries, fc.max_replay_seconds);
}

/// Widening the replay window of an accepted configuration keeps it
/// accepted.
pub proof fn law_longer_window_stays_accepted(fc: FileConfig, longer: FileConfig)
    requires
        config_check(fc) is Ok,
        longer == (FileConfig { max_replay_seconds: longer.max_replay_seconds, ..fc }),
        longer.max_replay_seconds >= fc.max_replay_seconds,
    ensures
        config_check(longer) is Ok,
{
    let entries = entry_views(fc.hotkeys@);
    lemma_read_entries_fit(entries, fc.max_replay_seconds);
    let bs = read_entries(entries, fc.max_replay_seconds)->Ok_0;
    assert forall|i: int| 0 <= i < longer.hotkeys@.len() implies 1 <= (
    #[trigger] longer.hotkeys@[i]).duration_seconds <= longer.max_replay_seconds
        && spec_parse_hotkey(longer.hotkeys@[i].combination@) is Ok by {
        assert(entries[i] == (fc.hotkeys@[i].duration_seconds, fc.hotkeys@[i].combination@));
        assert(is_fit_binding(bs[i], fc.max_replay_seconds));
    }
    assert forall|i: int, j: int|
        0 <= i < longer.hotkeys@.len() && 0 <= j < longer.hotkeys@.len() && i != j implies (
        #[trigger] longer.hotkeys@[i]).duration_seconds != (
        #[trigger] longer.hotkeys@[j]).duration_seconds && spec_parse_hotkey(
        longer.hotkeys@[i].combination@,
    ) != spec_parse_hotkey(longer.hotkeys@[j].combination@) by {
        assert(entries[i] == (fc.hotkeys@[i].duration_seconds, fc.hotkeys@[i].combination@));
        assert(entries[j] == (fc.hotkeys@[j].duration_seconds, fc.hotkeys@[j].combination@));
        assert(is_fit_binding(bs[i], fc.max_replay_seconds));
        assert(is_fit_binding(bs[j], fc.max_replay_seconds));
        assert(bs[i].1 != bs[j].1 && bs[i].3 != bs[j].3);
    }
    law_sane_config_is_accepted(longer);
}

/// Bindings with ids renumbered 1, 2, ... in their order.
pub open spec fn renumbered(bs: Seq<BindingView>) -> Seq<BindingView> {
    Seq::new(bs.len(), |k: int| (((k + 1) as i32), bs[k].1, bs[k].2, bs[k].3))
}

proof fn lemma_read_fit_entries(hs: Seq<BindingView>, max_replay: u32, k: int)
    requires
        are_fit_bindings(hs, max_replay),
        0 <= k <= hs.len(),
    ensures
        read_entries(
            hs.map_values(|b: BindingView| entry_of_binding(b)).take(k),
            max_replay,
        ) == Ok::<Seq<BindingView>, ConfigFault>(renumbered(hs.take(k))),
    decreases k,
{
    let es = hs.map_values(|b: BindingView| entry_of_binding(b));
    if k == 0 {
        assert(es.take(0) =~= Seq::<(u32, Seq<char>)>::empty());
        assert(renumbered(hs.take(0)) =~= Seq::<BindingView>::empty());
    } else {
        lemma_read_fit_entries(hs, max_replay, k - 1);
        assert(es.take(k).drop_last() =~= es.take(k - 1));
        let e = es.take(k).last();
        assert(e == (hs[k - 1].1, hs[k - 1].2));
        let prev = renumbered(hs.take(k - 1));
        assert(is_fit_binding(hs[k - 1], max_replay));
        assert(!exists|j: int| 0 <= j < prev.len() && (#[trigger] prev[j]).1 == e.0) by {
            assert forall|j: int| 0 <= j < prev.len() implies (#[trigger] prev[j]).1 != e.0 by {
                assert(prev[j].1 == hs[j].1);
                assert(hs[j].1 != hs[k - 1].1);
            }
        }
        assert(!exists|j: int| 0 <= j < prev.len() && (#[trigger] prev[j]).3 == hs[k - 1].3) by {
            assert forall|j: int| 0 <= j < prev.len() implies (#[trigger] prev[j]).3 != hs[k
                - 1].3 by {
                assert(prev[j].3 == hs[j].3);
                assert(hs[j].3 != hs[k - 1].3);
            }
        }
        assert(renumbered(hs.take(k)) =~= prev.push(
            (((prev.len() + 1) as i32), e.0, e.1, hs[k - 1].3),
        ));
    }
}

proof fn lemma_backend_name_parses(b: AudioBackend)
    ensures
        spec_parse_backend(backend_name(b)) == Some(b),
{
    reveal_strlit("wasapi");
    reveal_strlit("dshow");
    let n = backend_name(b);
    assert(spec_trim(n) == n);
    assert(lower_seq(n) =~= n);
    if b == AudioBackend::Dshow {
        assert(n != "wasapi"@);
    }
}

/// No two bindings share a duration.
pub open spec fn distinct_durations(bs: Seq<BindingView>) -> bool {
    forall|i: int, j: int|
        #![trigger bs[i], bs[j]]
        0 <= i < bs.len() && 0 <= j < bs.len() && i != j ==> bs[i].1 != bs[j].1
}

/// Two orderings by duration of the same bindings, no two with the same
/// duration, are one sequence.
proof fn lemma_sorted_permutation_equal(xs: Seq<BindingView>, ys: Seq<BindingView>)
    requires
        xs.to_multiset() == ys.to_multiset(),
        sorted_by_duration(xs),
        sorted_by_duration(ys),
        distinct_durations(xs),
    ensures
        xs == ys,
    decreases xs.len(),
{
    broadcast use vstd::seq_lib::group_to_multiset_ensures;

    assert(xs.len() == ys.len()) by {
        assert(xs.to_multiset().len() == xs.len());
        assert(ys.to_multiset().len() == ys.len());
    }
    if xs.len() > 0 {
        let p = lemma_in_permutation(xs, ys, 0);
        let q = lemma_in_permutation(ys, xs, 0);
        assert(xs[0].1 <= xs[q].1);
        assert(ys[0].1 <= ys[p].1);
        assert(q == 0);
        assert(ys[0] == xs[0]);
        vstd::seq_lib::to_multiset_remove(xs, 0);
        vstd::seq_lib::to_multiset_remove(ys, 0);
        assert(xs.remove(0) =~= xs.drop_first());
        assert(ys.remove(0) =~= ys.drop_first());
        let xt = xs.drop_first();
        let yt = ys.drop_first();
        assert(sorted_by_duration(xt)) by {
            assert forall|i: int, j: int| 0 <= i < j < xt.len() implies #[trigger] xt[i].1
                <= #[trigger] xt[j].1 by {
                assert(xt[i] == xs[i + 1] && xt[j] == xs[j + 1]);
            }
        }
        assert(sorted_by_duration(yt)) by {
            assert forall|i: int, j: int| 0 <= i < j < yt.len() implies #[trigger] yt[i].1
                <= #[trigger] yt[j].1 by {
                assert(yt[i] == ys[i + 1] && yt[j] == ys[j + 1]);
            }
        }
        assert(distinct_durations(xt)) by {
            assert forall|i: int, j: int|
                0 <= i < xt.len() && 0 <= j < xt.len() && i != j implies #[trigger] xt[i].1
                != #[trigger] xt[j].1 by {
                assert(xt[i] == xs[i + 1] && xt[j] == xs[j + 1]);
            }
        }
        lemma_sorted_permutation_equal(xt, yt);
        assert(xs =~= seq![xs[0]] + xt);
        assert(ys =~= seq![ys[0]] + yt);
    }
}

/// Reading the name of a backend gives that backend back, whatever white
/// space surrounds the name and whatever ASCII case it is written in.
pub proof fn law_backend_name_round_trip(
    b: AudioBackend,
    before: Seq<char>,
    name: Seq<char>,
    after: Seq<char>,
)
    requires
        lower_seq(name) == backend_name(b),
        forall|k: int| 0 <= k < before.len() ==> is_white_space(#[trigger] before[k]),
        forall|k: int| 0 <= k < after.len() ==> is_white_space(#[trigger] after[k]),
    ensures
        spec_parse_backend(before + name + after) == Some(b),
{
    reveal_strlit("wasapi");
    reveal_strlit("dshow");
    let n = backend_name(b);
    assert(name.len() == n.len());
    let first = name[0];
    let last = name[name.len() - 1];
    assert(ascii_lower(first) == n[0]);
    assert(ascii_lower(last) == n[n.len() - 1]);
    if b == AudioBackend::Wasapi {
        assert(first == 'w' || first == 'W');
        assert(last == 'i' || last == 'I');
    } else {
        assert(first == 'd' || first == 'D');
        assert(last == 'w' || last == 'W');
    }
    assert(!is_white_space(first));
    assert(!is_white_space(last));
    lemma_trim_padded(before, name, after);
    if b == AudioBackend::Dshow {
        assert(n != "wasapi"@);
    }
}

/// Writing an accepted configuration back in the file's form and reading
/// that again gives the same configuration: paths that name the same
/// places (a path left out because it is its default comes back as that
/// default), the same settings, and the same hotkeys in the same order,
/// with ids renumbered 1, 2, ... by duration.
pub proof fn law_file_round_trip(
    app: AppConfig,
    fc: FileConfig,
    paths: AppPaths,
    sb: AudioBackend,
    mb: AudioBackend,
    bs: Seq<BindingView>,
    written: FileConfig,
)
    requires
        config_check(fc) == Ok::<(AudioBackend, AudioBackend, Seq<BindingView>), ConfigFault>(
            (sb, mb, bs),
        ),
        is_app_config_of(app, fc, paths, sb, mb, bs),
        is_file_config_of(written, app, paths),
    ensures
        config_check(written) == Ok::<(AudioBackend, AudioBackend, Seq<BindingView>), ConfigFault>(
            (sb, mb, renumbered(binding_views(app.hotkeys@))),
        ),
        forall|again: AppConfig|
            #[trigger] is_app_config_of(
                again,
                written,
                paths,
                sb,
                mb,
                renumbered(binding_views(app.hotkeys@)),
            ) ==> {
                &&& same_path(again.ffmpeg_path@, app.ffmpeg_path@)
                &&& same_path(again.buffer_dir@, app.buffer_dir@)
                &&& same_path(again.output_dir@, app.output_dir@)
                &&& again.max_replay_seconds == app.max_replay_seconds
                &&& again.segment_seconds == app.segment_seconds
                &&& again.frame_rate == app.frame_rate
                &&& again.encoder@ == app.encoder@
                &&& again.preset@ == app.preset@
                &&& again.ffmpeg_input@ == app.ffmpeg_input@
                &&& again.system_audio_enabled == app.system_audio_enabled
                &&& again.system_audio_backend == app.system_audio_backend
                &&& again.system_audio_device@ == app.system_audio_device@
                &&& again.microphone_enabled == app.microphone_enabled
                &&& again.microphone_backend == app.microphone_backend
                &&& again.microphone_device@ == app.microphone_device@
                &&& again.audio_sample_rate == app.audio_sample_rate
                &&& again.audio_channels == app.audio_channels
                &&& again.audio_bitrate@ == app.audio_bitrate@
                &&& again.ffmpeg_extra_args@ == app.ffmpeg_extra_args@
                &&& binding_views(again.hotkeys@) == renumbered(binding_views(app.hotkeys@))
            },
{
    law_accepted_config_is_sane(app, fc, paths, sb, mb, bs);
    let hs = binding_views(app.hotkeys@);
    lemma_read_fit_entries(hs, app.max_replay_seconds, hs.len() as int);
    let es = hs.map_values(|b: BindingView| entry_of_binding(b));
    assert(es.take(hs.len() as int) =~= es);
    assert(hs.take(hs.len() as int) =~= hs);
    assert(entry_views(written.hotkeys@) == es);
    lemma_backend_name_parses(sb);
    lemma_backend_name_parses(mb);
    let rs = renumbered(hs);
    assert(sorted_by_duration(rs)) by {
        assert forall|i: int, j: int| 0 <= i < j < rs.len() implies #[trigger] rs[i].1
            <= #[trigger] rs[j].1 by {
            assert(hs[i].1 <= hs[j].1);
        }
    }
    assert(distinct_durations(rs)) by {
        assert forall|i: int, j: int|
            0 <= i < rs.len() && 0 <= j < rs.len() && i != j implies #[trigger] rs[i].1
            != #[trigger] rs[j].1 by {
            assert(hs[i].1 != hs[j].1);
        }
    }
    assert forall|again: AppConfig|
        #[trigger] is_app_config_of(again, written, paths, sb, mb, rs) implies binding_views(
        again.hotkeys@,
    ) == rs by {
        lemma_sorted_permutation_equal(rs, binding_views(again.hotkeys@));
    }
}

/// The text of a path that may be left out.
pub open spec fn opt_text(o: Option<String>) -> Option<Seq<char>> {
    match o {
        Some(p) => Some(p@),
        None => None,
    }
}

/// A file configuration in the form that writing one gives: each path
/// given differs from its default, each backend is written by its name,
/// and the hotkeys come in order of duration.
pub open spec fn is_normal_file_config(fc: FileConfig, paths: AppPaths) -> bool {
    &&& (fc.ffmpeg_path matches Some(p) ==> !same_path(p@, default_ffmpeg_path()))
    &&& (fc.buffer_dir matches Some(p) ==> !same_path(p@, paths.buffer_dir@))
    &&& (fc.output_dir matches Some(p) ==> !same_path(p@, paths.output_dir@))
    &&& (fc.system_audio_backend@ == backend_name(AudioBackend::Wasapi)
        || fc.system_audio_backend@ == backend_name(AudioBackend::Dshow))
    &&& (fc.microphone_backend@ == backend_name(AudioBackend::Wasapi)
        || fc.microphone_backend@ == backend_name(AudioBackend::Dshow))
    &&& forall|i: int, j: int|
        #![trigger fc.hotkeys@[i], fc.hotkeys@[j]]
        0 <= i < j < fc.hotkeys@.len() ==> fc.hotkeys@[i].duration_seconds
            <= fc.hotkeys@[j].duration_seconds
}

/// Two file configurations hold the same values and text.
pub open spec fn same_file_config(a: FileConfig, b: FileConfig) -> bool {
    &&& opt_text(a.ffmpeg_path) == opt_text(b.ffmpeg_path)
    &&& opt_text(a.buffer_dir) == opt_text(b.buffer_dir)
    &&& opt_text(a.output_dir) == opt_text(b.output_dir)
    &&& a.max_replay_seconds == b.max_replay_seconds
    &&& a.segment_seconds == b.segment_seconds
    &&& a.frame_rate == b.frame_rate
    &&& a.encoder@ == b.encoder@
    &&& a.preset@ == b.preset@
    &&& a.ffmpeg_input@ == b.ffmpeg_input@
    &&& a.system_audio_enabled == b.system_audio_enabled
    &&& a.system_audio_backend@ == b.system_audio_backend@
    &&& a.system_audio_device@ == b.system_audio_device@
    &&& a.microphone_enabled == b.microphone_enabled
    &&& a.microphone_backend@ == b.microphone_backend@
    &&& a.microphone_device@ == b.microphone_device@
    &&& a.audio_sample_rate == b.audio_sample_rate
    &&& a.audio_channels == b.audio_channels
    &&& a.audio_bitrate@ == b.audio_bitrate@
    &&& a.ffmpeg_extra_args@ == b.ffmpeg_extra_args@
    &&& entry_views(a.hotkeys@) == entry_views(b.hotkeys@)
}

/// Reading an accepted file configuration in normal form and writing it
/// back gives it again: the hotkeys are read in file order, each with its
/// position as id, and `to_file_config` undoes `into_app_config`.
pub proof fn law_normal_file_round_trip(
    fc: FileConfig,
    paths: AppPaths,
    sb: AudioBackend,
    mb: AudioBackend,
    bs: Seq<BindingView>,
    app: AppConfig,
    written: FileConfig,
)
    requires
        config_check(fc) == Ok::<(AudioBackend, AudioBackend, Seq<BindingView>), ConfigFault>(
            (sb, mb, bs),
        ),
        is_app_config_of(app, fc, paths, sb, mb, bs),
        is_normal_file_config(fc, paths),
        is_file_config_of(written, app, paths),
    ensures
        binding_views(app.hotkeys@) == bs,
        same_file_config(written, fc),
{
    let entries = entry_views(fc.hotkeys@);
    lemma_read_entries_fit(entries, fc.max_replay_seconds);
    let hs = binding_views(app.hotkeys@);
    assert(sorted_by_duration(bs)) by {
        assert forall|i: int, j: int| 0 <= i < j < bs.len() implies #[trigger] bs[i].1
            <= #[trigger] bs[j].1 by {
            assert(fc.hotkeys@[i].duration_seconds <= fc.hotkeys@[j].duration_seconds);
        }
    }
    assert(distinct_durations(bs)) by {
        assert forall|i: int, j: int|
            0 <= i < bs.len() && 0 <= j < bs.len() && i != j implies #[trigger] bs[i].1
            != #[trigger] bs[j].1 by {
        }
    }
    lemma_sorted_permutation_equal(bs, hs);
    assert(entry_views(written.hotkeys@) =~= entries) by {
        assert(entry_views(written.hotkeys@) == hs.map_values(|b: BindingView| entry_of_binding(b)));
    }
    lemma_backend_name_parses(AudioBackend::Wasapi);
    lemma_backend_name_parses(AudioBackend::Dshow);
}

} // verus!
