//! The logic behind the tray application's settings window and hotkey
//! registration: reading the form, the Win32 hotkey codes, and the UTF-16
//! text that Win32 calls take.

use vstd::prelude::*;

use crate::config::{
    default_ffmpeg_path, default_hotkey_combination, entry_views, is_app_config_of, opt_text,
    spec_default_combination, AppConfig, AppPaths, AudioBackend, BindingView, FileConfig,
    HotkeyEntry,
};
use crate::hotkey::{is_supported_hotkey, HotKeySpec, KeyCode, Modifiers};
use crate::text::{
    decimal, law_parse_accepts_only_digits, number_message, parse_unsigned, parse_unsigned_str,
    spec_trim, trim, u64_to_string,
    NumberError,
};

verus! {

/// The low 16 bits of a message parameter (`LOWORD`).
pub fn loword(value: usize) -> (r: u16)
    ensures
        r == value % 0x10000,
{
    let r = (value & 0xffff) as u16;
    assert((value & 0xffff) == value % 0x10000) by (bit_vector);
    r
}

/// The UTF-16 code units of one character.
pub open spec fn utf16_units(c: char) -> Seq<u16> {
    let v = c as u32;
    if v < 0x10000 {
        seq![v as u16]
    } else {
        seq![(0xd800 + (v - 0x10000) / 0x400) as u16, (0xdc00 + (v - 0x10000) % 0x400) as u16]
    }
}

/// The UTF-16 encoding of a text (`str::encode_utf16`).
pub open spec fn utf16(s: Seq<char>) -> Seq<u16>
    decreases s.len(),
{
    if s.len() == 0 {
        Seq::empty()
    } else {
        utf16(s.drop_last()) + utf16_units(s.last())
    }
}

/// Appends the UTF-16 code units of `c`.
fn push_utf16(out: &mut Vec<u16>, c: char)
    ensures
        final(out)@ == old(out)@ + utf16_units(c),
{
    let v = c as u32;
    if v < 0x10000 {
        out.push(v as u16);
    } else {
        assert(v <= 0x10ffff);
        out.push((0xd800 + (v - 0x10000) / 0x400) as u16);
        out.push((0xdc00 + (v - 0x10000) % 0x400) as u16);
    }
    assert(out@ =~= old(out)@ + utf16_units(c));
}

/// The UTF-16 code units of `value`.
pub fn encode_utf16(value: &str) -> (r: Vec<u16>)
    ensures
        r@ == utf16(value@),
{
    let n = value.unicode_len();
    let mut out: Vec<u16> = Vec::new();
    let mut i: usize = 0;
    assert(value@.take(0) =~= Seq::<char>::empty());
    while i < n
        invariant
            n == value@.len(),
            i <= n,
            out@ == utf16(value@.take(i as int)),
        decreases n - i,
    {
        let c = value.get_char(i);
        proof {
            assert(value@.take(i + 1).drop_last() =~= value@.take(i as int));
            assert(value@.take(i + 1).last() == c);
        }
        push_utf16(&mut out, c);
        i += 1;
    }
    assert(value@.take(n as int) =~= value@);
    out
}

/// `value` in UTF-16 with a terminating zero, as Win32 takes text.
pub fn wide_null(value: &str) -> (r: Vec<u16>)
    ensures
        r@ == utf16(value@).push(0),
{
    let mut out = encode_utf16(value);
    out.push(0);
    out
}

/// Fills a fixed Win32 text buffer: the UTF-16 units of `value` that fit,
/// then zeros.
pub fn write_wide_buffer<const N: usize>(buffer: &mut [u16; N], value: &str)
    ensures
        final(buffer)@.len() == N,
        forall|i: int|
            0 <= i < N ==> #[trigger] final(buffer)@[i] == if i < utf16(value@).len() {
                utf16(value@)[i]
            } else {
                0u16
            },
{
    let units = encode_utf16(value);
    let mut i: usize = 0;
    while i < N
        invariant
            i <= N,
            buffer@.len() == N,
            units@ == utf16(value@),
            forall|k: int|
                0 <= k < i ==> #[trigger] buffer@[k] == if k < units@.len() {
                    units@[k]
                } else {
                    0u16
                },
        decreases N - i,
    {
        if i < units.len() {
            buffer[i] = units[i];
        } else {
            buffer[i] = 0;
        }
        i += 1;
    }
}


/// `MOD_ALT`, `MOD_CONTROL`, `MOD_SHIFT` and `MOD_WIN` as `RegisterHotKey`
/// takes them.
pub const WIN32_MOD_ALT: u32 = 0x0001;

pub const WIN32_MOD_CONTROL: u32 = 0x0002;

pub const WIN32_MOD_SHIFT: u32 = 0x0004;

pub const WIN32_MOD_WIN: u32 = 0x0008;

/// The Win32 modifier flags of a set of modifiers.
pub open spec fn spec_win32_modifiers(m: Modifiers) -> u32 {
    (if m.0 & Modifiers::ALT == Modifiers::ALT { WIN32_MOD_ALT } else { 0u32 }) | (if m.0
        & Modifiers::CONTROL == Modifiers::CONTROL {
        WIN32_MOD_CONTROL
    } else {
        0u32
    }) | (if m.0 & Modifiers::SHIFT == Modifiers::SHIFT {
        WIN32_MOD_SHIFT
    } else {
        0u32
    }) | (if m.0 & Modifiers::WIN == Modifiers::WIN {
        WIN32_MOD_WIN
    } else {
        0u32
    })
}

/// The Win32 virtual-key code of a key: `'0'`.. for digits, the upper-case
/// letter itself, `VK_F1` (0x70).. for function keys.
pub open spec fn spec_virtual_key(k: KeyCode) -> int {
    match k {
        KeyCode::Digit(d) => 0x30 + d,
        KeyCode::Letter(c) => c as u32 as int,
        KeyCode::Function(n) => 0x70 + (n - 1),
    }
}

/// The modifier flags and virtual-key code with which `RegisterHotKey`
/// registers `spec`.
pub fn to_windows_hotkey(spec: HotKeySpec) -> (r: (u32, u32))
    requires
        spec.key matches KeyCode::Function(n) ==> n >= 1,
    ensures
        r.0 == spec_win32_modifiers(spec.modifiers),
        r.1 == spec_virtual_key(spec.key),
{
    let alt: u32 = if spec.modifiers.contains(Modifiers::ALT) { WIN32_MOD_ALT } else { 0 };
    let control: u32 = if spec.modifiers.contains(Modifiers::CONTROL) {
        WIN32_MOD_CONTROL
    } else {
        0
    };
    let shift: u32 = if spec.modifiers.contains(Modifiers::SHIFT) { WIN32_MOD_SHIFT } else { 0 };
    let win: u32 = if spec.modifiers.contains(Modifiers::WIN) { WIN32_MOD_WIN } else { 0 };
    let modifiers = alt | control | shift | win;
    let key: u32 = match spec.key {
        KeyCode::Digit(digit) => 0x30 + digit as u32,
        KeyCode::Letter(ch) => ch as u32,
        KeyCode::Function(number) => 0x70 + (number as u32 - 1),
    };
    (modifiers, key)
}

/// The combination shown for `duration_seconds` in the settings window:
/// the file's first entry for that duration, else the default one, else
/// nothing.
pub open spec fn spec_field_combination(entries: Seq<(u32, Seq<char>)>, duration_seconds: u32) -> Seq<char>
    decreases entries.len(),
{
    if entries.len() == 0 {
        match spec_default_combination(duration_seconds) {
            Some(c) => c,
            None => Seq::empty(),
        }
    } else if entries[0].0 == duration_seconds {
        entries[0].1
    } else {
        spec_field_combination(entries.drop_first(), duration_seconds)
    }
}

/// The settings window shows, for a duration, the combination of the first
/// hotkey of the file with that duration, and the default combination of
/// the duration (or nothing) when the file has none.
pub proof fn law_field_shows_file_combination(entries: Seq<(u32, Seq<char>)>, duration_seconds: u32)
    ensures
        (forall|k: int| 0 <= k < entries.len() ==> (#[trigger] entries[k]).0 != duration_seconds)
            ==> spec_field_combination(entries, duration_seconds) == (match spec_default_combination(
            duration_seconds,
        ) {
            Some(c) => c,
            None => Seq::<char>::empty(),
        }),
        forall|k: int|
            0 <= k < entries.len() && (#[trigger] entries[k]).0 == duration_seconds && (forall|j: int|
                0 <= j < k ==> (#[trigger] entries[j]).0 != duration_seconds) ==> spec_field_combination(
                entries,
                duration_seconds,
            ) == entries[k].1,
    decreases entries.len(),
{
    if entries.len() > 0 {
        let rest = entries.drop_first();
        law_field_shows_file_combination(rest, duration_seconds);
        assert forall|k: int| 0 <= k < rest.len() implies #[trigger] rest[k] == entries[k + 1] by {
        }
        if entries[0].0 != duration_seconds {
            assert forall|k: int|
                0 <= k < entries.len() && (#[trigger] entries[k]).0 == duration_seconds && (forall|
                    j: int,
                | 0 <= j < k ==> (#[trigger] entries[j]).0 != duration_seconds) implies spec_field_combination(
                entries,
                duration_seconds,
            ) == entries[k].1 by {
                assert(k >= 1);
                assert(rest[k - 1] == entries[k]);
                assert forall|j: int| 0 <= j < k - 1 implies (#[trigger] rest[j]).0 != duration_seconds by {
                    assert(rest[j] == entries[j + 1]);
                }
            }
            if forall|k: int| 0 <= k < entries.len() ==> (#[trigger] entries[k]).0 != duration_seconds {
                assert forall|k: int| 0 <= k < rest.len() implies (#[trigger] rest[k]).0 != duration_seconds by {
                    assert(rest[k] == entries[k + 1]);
                }
            }
        } else {
            assert forall|k: int|
                0 <= k < entries.len() && (#[trigger] entries[k]).0 == duration_seconds && (forall|
                    j: int,
                | 0 <= j < k ==> (#[trigger] entries[j]).0 != duration_seconds) implies spec_field_combination(
                entries,
                duration_seconds,
            ) == entries[k].1 by {
                if k > 0 {
                    assert(entries[0].0 != duration_seconds);
                }
            }
        }
    }
}

/// The combination that the settings window shows for a duration.
pub fn hotkey_field_combination<'a>(file_config: &'a FileConfig, duration_seconds: u32) -> (r: &'a str)
    ensures
        r@ == spec_field_combination(entry_views(file_config.hotkeys@), duration_seconds),
{
    let ghost entries = entry_views(file_config.hotkeys@);
    let mut i: usize = 0;
    assert(entries.skip(0) =~= entries);
    while i < file_config.hotkeys.len()
        invariant
            entries == entry_views(file_config.hotkeys@),
            i <= file_config.hotkeys.len(),
            spec_field_combination(entries, duration_seconds) == spec_field_combination(
                entries.skip(i as int),
                duration_seconds,
            ),
        decreases file_config.hotkeys.len() - i,
    {
        assert(entries.skip(i as int).drop_first() =~= entries.skip(i + 1));
        assert(entries.skip(i as int)[0] == file_config.hotkeys@[i as int]@);
        if file_config.hotkeys[i].duration_seconds == duration_seconds {
            return file_config.hotkeys[i].combination.as_str();
        }
        i += 1;
    }
    assert(entries.skip(i as int) =~= Seq::<(u32, Seq<char>)>::empty());
    match default_hotkey_combination(duration_seconds) {
        Some(c) => c,
        None => {
            proof {
                reveal_strlit("");
            }
            assert(""@ =~= Seq::<char>::empty());
            ""
        },
    }
}

/// A path field of the settings window: left out when blank, else its
/// trimmed text.
pub fn empty_to_none_path(value: &str) -> (r: Option<String>)
    ensures
        r is None <==> spec_trim(value@).len() == 0,
        r matches Some(p) ==> p@ == spec_trim(value@),
{
    let trimmed = trim(value);
    if trimmed.unicode_len() == 0 {
        None
    } else {
        Some(trimmed.to_owned())
    }
}

/// Why the settings form was refused.
#[derive(Debug, Clone, PartialEq, Eq)]
pub enum SettingsError {
    /// A numeric field does not hold a whole number (`u32`), and why.
    NotAWholeNumber { field: String, cause: NumberError },
    /// The hotkey field of a duration is blank.
    BlankHotkey { duration_seconds: u32 },
}

/// `SettingsError` with its text as a character sequence.
pub enum SettingsFault {
    NotAWholeNumber { field: Seq<char>, cause: NumberError },
    BlankHotkey { duration_seconds: u32 },
}

impl View for SettingsError {
    type V = SettingsFault;

    open spec fn view(&self) -> SettingsFault {
        match self {
            SettingsError::NotAWholeNumber { field, cause } => SettingsFault::NotAWholeNumber {
                field: field@,
                cause: *cause,
            },
            SettingsError::BlankHotkey { duration_seconds } => SettingsFault::BlankHotkey {
                duration_seconds: *duration_seconds,
            },
        }
    }
}

/// The message of each refusal; for a number that does not parse
/// `settings_detail_message` adds why.
pub open spec fn settings_message(f: SettingsFault) -> Seq<char> {
    match f {
        SettingsFault::NotAWholeNumber { field, cause } => field + " must be a whole number"@,
        SettingsFault::BlankHotkey { duration_seconds } => "Hotkey for "@ + decimal(
            duration_seconds as nat,
        ) + "s replay cannot be blank"@,
    }
}

/// The message followed by its cause, where it has one.
pub open spec fn settings_detail_message(f: SettingsFault) -> Seq<char> {
    match f {
        SettingsFault::NotAWholeNumber { field, cause } => settings_message(f) + ": "@
            + number_message(cause),
        _ => settings_message(f),
    }
}

impl SettingsError {
    /// The error's message.
    pub fn message(&self) -> (r: String)
        ensures
            r@ == settings_message(self@),
    {
        let mut out = String::new();
        match self {
            SettingsError::NotAWholeNumber { field, .. } => {
                out.append(field.as_str());
                out.append(" must be a whole number");
            },
            SettingsError::BlankHotkey { duration_seconds } => {
                out.append("Hotkey for ");
                let d = u64_to_string(*duration_seconds as u64);
                out.append(d.as_str());
                out.append("s replay cannot be blank");
            },
        }
        out
    }

    /// The message followed by its cause, as `{:#}` shows a chain of
    /// contexts.
    pub fn detail_message(&self) -> (r: String)
        ensures
            r@ == settings_detail_message(self@),
    {
        let mut out = self.message();
        match self {
            SettingsError::NotAWholeNumber { cause, .. } => {
                out.append(": ");
                out.append(cause.message());
            },
            _ => {},
        }
        out
    }
}

/// Reads a numeric field of the settings window named `name`.
pub fn parse_u32_field(name: &str, value: &str) -> (r: Result<u32, SettingsError>)
    ensures
        r matches Ok(v) ==> parse_unsigned(spec_trim(value@), u32::MAX as nat) == Ok::<
            nat,
            NumberError,
        >(v as nat),
        r matches Err(e) ==> parse_unsigned(spec_trim(value@), u32::MAX as nat) matches Err(c)
            && e@ == (SettingsFault::NotAWholeNumber { field: name@, cause: c }),
{
    match parse_unsigned_str(trim(value), u32::MAX) {
        Ok(v) => Ok(v),
        Err(cause) => Err(SettingsError::NotAWholeNumber { field: name.to_owned(), cause }),
    }
}


/// The texts and check boxes of the settings window, as read.
#[derive(Debug, Clone)]
pub struct SettingsForm {
    pub output_dir: String,
    pub ffmpeg_path: String,
    pub max_replay_seconds: String,
    pub segment_seconds: String,
    pub system_audio_enabled: bool,
    pub system_audio_backend: String,
    pub system_audio_device: String,
    pub microphone_enabled: bool,
    pub microphone_backend: String,
    pub microphone_device: String,
    pub audio_sample_rate: String,
    pub audio_channels: String,
    pub audio_bitrate: String,
    /// The hotkey field of each duration, in window order.
    pub hotkeys: Vec<(u32, String)>,
}

/// The numeric fields of the settings window, read.
#[derive(Debug, Clone, Copy, PartialEq, Eq, Structural)]
pub struct SettingsNumbers {
    pub max_replay_seconds: u32,
    pub segment_seconds: u32,
    pub audio_sample_rate: u32,
    pub audio_channels: u32,
}

/// The numeric fields read in window order; the first that is not a whole
/// number is refused, under its label and with the reason.
pub open spec fn spec_form_numbers(form: SettingsForm) -> Result<SettingsNumbers, SettingsFault> {
    let m = parse_unsigned(spec_trim(form.max_replay_seconds@), u32::MAX as nat);
    let s = parse_unsigned(spec_trim(form.segment_seconds@), u32::MAX as nat);
    let r = parse_unsigned(spec_trim(form.audio_sample_rate@), u32::MAX as nat);
    let c = parse_unsigned(spec_trim(form.audio_channels@), u32::MAX as nat);
    if m is Err {
        Err(SettingsFault::NotAWholeNumber { field: "Replay buffer seconds"@, cause: m->Err_0 })
    } else if s is Err {
        Err(SettingsFault::NotAWholeNumber { field: "Segment length seconds"@, cause: s->Err_0 })
    } else if r is Err {
        Err(SettingsFault::NotAWholeNumber { field: "Audio sample rate"@, cause: r->Err_0 })
    } else if c is Err {
        Err(SettingsFault::NotAWholeNumber { field: "Audio channels"@, cause: c->Err_0 })
    } else {
        Ok(
            SettingsNumbers {
                max_replay_seconds: m->Ok_0 as u32,
                segment_seconds: s->Ok_0 as u32,
                audio_sample_rate: r->Ok_0 as u32,
                audio_channels: c->Ok_0 as u32,
            },
        )
    }
}

/// The numbers of a form are its four numeric fields, each trimmed and
/// read as a `u32`: the form's numbers are read exactly when all four read,
/// and each number is its own field's value.
pub proof fn law_form_numbers_read_each_field(form: SettingsForm)
    ensures
        (spec_form_numbers(form) is Ok) <==> {
            &&& parse_unsigned(spec_trim(form.max_replay_seconds@), u32::MAX as nat) is Ok
            &&& parse_unsigned(spec_trim(form.segment_seconds@), u32::MAX as nat) is Ok
            &&& parse_unsigned(spec_trim(form.audio_sample_rate@), u32::MAX as nat) is Ok
            &&& parse_unsigned(spec_trim(form.audio_channels@), u32::MAX as nat) is Ok
        },
        spec_form_numbers(form) matches Ok(n) ==> {
            &&& parse_unsigned(spec_trim(form.max_replay_seconds@), u32::MAX as nat) == Ok::<
                nat,
                NumberError,
            >(n.max_replay_seconds as nat)
            &&& parse_unsigned(spec_trim(form.segment_seconds@), u32::MAX as nat) == Ok::<
                nat,
                NumberError,
            >(n.segment_seconds as nat)
            &&& parse_unsigned(spec_trim(form.audio_sample_rate@), u32::MAX as nat) == Ok::<
                nat,
                NumberError,
            >(n.audio_sample_rate as nat)
            &&& parse_unsigned(spec_trim(form.audio_channels@), u32::MAX as nat) == Ok::<
                nat,
                NumberError,
            >(n.audio_channels as nat)
        },
{
    law_parse_accepts_only_digits(spec_trim(form.max_replay_seconds@), u32::MAX as nat);
    law_parse_accepts_only_digits(spec_trim(form.segment_seconds@), u32::MAX as nat);
    law_parse_accepts_only_digits(spec_trim(form.audio_sample_rate@), u32::MAX as nat);
    law_parse_accepts_only_digits(spec_trim(form.audio_channels@), u32::MAX as nat);
}

/// The hotkey fields of the form as the file holds them: trimmed, in window
/// order; the first blank one is refused.
pub open spec fn spec_form_hotkeys(fields: Seq<(u32, String)>) -> Result<
    Seq<(u32, Seq<char>)>,
    SettingsFault,
>
    decreases fields.len(),
{
    if fields.len() == 0 {
        Ok(Seq::empty())
    } else {
        match spec_form_hotkeys(fields.drop_last()) {
            Err(f) => Err(f),
            Ok(prev) => {
                let t = spec_trim(fields.last().1@);
                if t.len() == 0 {
                    Err(SettingsFault::BlankHotkey { duration_seconds: fields.last().0 })
                } else {
                    Ok(prev.push((fields.last().0, t)))
                }
            },
        }
    }
}

proof fn lemma_form_hotkeys_error_stands(fields: Seq<(u32, String)>, i: int)
    requires
        0 <= i <= fields.len(),
        spec_form_hotkeys(fields.take(i)) is Err,
    ensures
        spec_form_hotkeys(fields) == spec_form_hotkeys(fields.take(i)),
    decreases fields.len() - i,
{
    if i < fields.len() {
        assert(fields.drop_last().take(i) =~= fields.take(i));
        lemma_form_hotkeys_error_stands(fields.drop_last(), i);
    } else {
        assert(fields.take(i) =~= fields);
    }
}

/// A hotkey field holds only white space.
pub open spec fn is_blank_field(field: (u32, String)) -> bool {
    spec_trim(field.1@).len() == 0
}

proof fn lemma_form_hotkeys_shape(fields: Seq<(u32, String)>)
    ensures
        (spec_form_hotkeys(fields) is Ok) <==> (forall|k: int|
            0 <= k < fields.len() ==> !is_blank_field(#[trigger] fields[k])),
        spec_form_hotkeys(fields) matches Ok(hs) ==> {
            &&& hs.len() == fields.len()
            &&& forall|k: int|
                0 <= k < fields.len() ==> #[trigger] hs[k] == (fields[k].0, spec_trim(
                    fields[k].1@,
                ))
        },
        spec_form_hotkeys(fields) matches Err(f) ==> exists|k: int|
            0 <= k < fields.len() && is_blank_field(#[trigger] fields[k]) && (forall|j: int|
                0 <= j < k ==> !is_blank_field(#[trigger] fields[j])) && f == (
            SettingsFault::BlankHotkey { duration_seconds: fields[k].0 }),
    decreases fields.len(),
{
    if fields.len() > 0 {
        let prev = fields.drop_last();
        lemma_form_hotkeys_shape(prev);
        let n = fields.len() - 1;
        assert forall|k: int| 0 <= k < n implies fields[k] == #[trigger] prev[k] by {
        }
        match spec_form_hotkeys(prev) {
            Err(f) => {
                let k = choose|k: int|
                    0 <= k < prev.len() && is_blank_field(#[trigger] prev[k]) && (forall|j: int|
                        0 <= j < k ==> !is_blank_field(#[trigger] prev[j])) && f == (
                    SettingsFault::BlankHotkey { duration_seconds: prev[k].0 });
                assert(fields[k] == prev[k]);
                assert forall|j: int| 0 <= j < k implies !is_blank_field(#[trigger] fields[j]) by {
                    assert(fields[j] == prev[j]);
                }
                assert(!(forall|k: int| 0 <= k < fields.len() ==> !is_blank_field(#[trigger] fields[k])));
            },
            Ok(hs) => {
                assert forall|j: int| 0 <= j < n implies !is_blank_field(#[trigger] fields[j]) by {
                    assert(fields[j] == prev[j]);
                }
                if is_blank_field(fields[n]) {
                    assert(fields.last() == fields[n]);
                } else {
                    let all = hs.push((fields.last().0, spec_trim(fields.last().1@)));
                    assert forall|k: int| 0 <= k < fields.len() implies #[trigger] all[k] == (
                        fields[k].0,
                        spec_trim(fields[k].1@),
                    ) by {
                        if k < n {
                            assert(fields[k] == prev[k]);
                        }
                    }
                }
            },
        }
    }
}

/// Applying a settings form keeps one hotkey entry per hotkey field, in
/// window order, each with the field's duration and its trimmed text, and
/// it does so exactly when no field is blank; otherwise the first blank
/// field is refused.
pub proof fn law_form_keeps_every_hotkey(
    form: SettingsForm,
    base: FileConfig,
    numbers: SettingsNumbers,
    fc: FileConfig,
)
    ensures
        (spec_form_hotkeys(form.hotkeys@) is Ok) <==> (forall|k: int|
            0 <= k < form.hotkeys@.len() ==> !is_blank_field(#[trigger] form.hotkeys@[k])),
        (spec_form_hotkeys(form.hotkeys@) matches Ok(hs) && is_form_applied(
            fc,
            base,
            form,
            numbers,
            hs,
        )) ==> {
            &&& entry_views(fc.hotkeys@).len() == form.hotkeys@.len()
            &&& forall|k: int|
                0 <= k < form.hotkeys@.len() ==> #[trigger] entry_views(fc.hotkeys@)[k] == (
                    form.hotkeys@[k].0,
                    spec_trim(form.hotkeys@[k].1@),
                )
        },
        spec_form_hotkeys(form.hotkeys@) matches Err(f) ==> exists|k: int|
            0 <= k < form.hotkeys@.len() && is_blank_field(#[trigger] form.hotkeys@[k]) && (
            forall|j: int| 0 <= j < k ==> !is_blank_field(#[trigger] form.hotkeys@[j])) && f == (
            SettingsFault::BlankHotkey { duration_seconds: form.hotkeys@[k].0 }),
{
    lemma_form_hotkeys_shape(form.hotkeys@);
}

/// A path field as the file holds it: left out when blank.
pub open spec fn form_path(text: Seq<char>) -> Option<Seq<char>> {
    if spec_trim(text).len() == 0 {
        None
    } else {
        Some(spec_trim(text))
    }
}

/// `fc` is `base` with the settings of the form applied.
pub open spec fn is_form_applied(
    fc: FileConfig,
    base: FileConfig,
    form: SettingsForm,
    numbers: SettingsNumbers,
    hotkeys: Seq<(u32, Seq<char>)>,
) -> bool {
    &&& opt_text(fc.output_dir) == form_path(form.output_dir@)
    &&& opt_text(fc.ffmpeg_path) == form_path(form.ffmpeg_path@)
    &&& fc.buffer_dir == base.buffer_dir
    &&& fc.max_replay_seconds == numbers.max_replay_seconds
    &&& fc.segment_seconds == numbers.segment_seconds
    &&& fc.frame_rate == base.frame_rate
    &&& fc.encoder == base.encoder
    &&& fc.preset == base.preset
    &&& fc.ffmpeg_input == base.ffmpeg_input
    &&& fc.system_audio_enabled == form.system_audio_enabled
    &&& fc.system_audio_backend@ == spec_trim(form.system_audio_backend@)
    &&& fc.system_audio_device@ == spec_trim(form.system_audio_device@)
    &&& fc.microphone_enabled == form.microphone_enabled
    &&& fc.microphone_backend@ == spec_trim(form.microphone_backend@)
    &&& fc.microphone_device@ == spec_trim(form.microphone_device@)
    &&& fc.audio_sample_rate == numbers.audio_sample_rate
    &&& fc.audio_channels == numbers.audio_channels
    &&& fc.audio_bitrate@ == spec_trim(form.audio_bitrate@)
    &&& fc.ffmpeg_extra_args == base.ffmpeg_extra_args
    &&& entry_views(fc.hotkeys@) == hotkeys
}

impl SettingsForm {
    /// Reads the numeric fields.
    pub fn parse_numbers(&self) -> (r: Result<SettingsNumbers, SettingsError>)
        ensures
            r matches Ok(n) ==> spec_form_numbers(*self) == Ok::<SettingsNumbers, SettingsFault>(
                n,
            ),
            r matches Err(e) ==> spec_form_numbers(*self) == Err::<SettingsNumbers, SettingsFault>(
                e@,
            ),
    {
        let max_replay_seconds = match parse_u32_field(
            "Replay buffer seconds",
            self.max_replay_seconds.as_str(),
        ) {
            Ok(v) => v,
            Err(e) => {
                return Err(e);
            },
        };
        let segment_seconds = match parse_u32_field(
            "Segment length seconds",
            self.segment_seconds.as_str(),
        ) {
            Ok(v) => v,
            Err(e) => {
                return Err(e);
            },
        };
        let audio_sample_rate = match parse_u32_field(
            "Audio sample rate",
            self.audio_sample_rate.as_str(),
        ) {
            Ok(v) => v,
            Err(e) => {
                return Err(e);
            },
        };
        let audio_channels = match parse_u32_field("Audio channels", self.audio_channels.as_str()) {
            Ok(v) => v,
            Err(e) => {
                return Err(e);
            },
        };
        Ok(SettingsNumbers { max_replay_seconds, segment_seconds, audio_sample_rate, audio_channels })
    }

    /// Applies the form to the configuration loaded from the file, with the
    /// numbers read by `parse_numbers`: path fields left blank are left
    /// out, texts are trimmed, the other settings stay; a blank hotkey field
    /// is refused.
    pub fn apply(self, numbers: SettingsNumbers, file_config: FileConfig) -> (r: Result<
        FileConfig,
        SettingsError,
    >)
        ensures
            r matches Err(e) ==> spec_form_hotkeys(self.hotkeys@) == Err::<
                Seq<(u32, Seq<char>)>,
                SettingsFault,
            >(e@),
            r matches Ok(fc) ==> (spec_form_hotkeys(self.hotkeys@) matches Ok(hs)
                && is_form_applied(fc, file_config, self, numbers, hs)),
    {
        let ghost fields = self.hotkeys@;
        let mut hotkeys: Vec<HotkeyEntry> = Vec::new();
        let mut i: usize = 0;
        assert(fields.take(0) =~= Seq::<(u32, String)>::empty());
        assert(entry_views(hotkeys@) =~= Seq::<(u32, Seq<char>)>::empty());
        while i < self.hotkeys.len()
            invariant
                fields == self.hotkeys@,
                i <= self.hotkeys.len(),
                spec_form_hotkeys(fields.take(i as int)) == Ok::<
                    Seq<(u32, Seq<char>)>,
                    SettingsFault,
                >(entry_views(hotkeys@)),
            decreases self.hotkeys.len() - i,
        {
            let duration_seconds = self.hotkeys[i].0;
            let combination = trim(self.hotkeys[i].1.as_str());
            proof {
                assert(fields.take(i + 1).drop_last() =~= fields.take(i as int));
                assert(fields.take(i + 1).last() == fields[i as int]);
            }
            if combination.unicode_len() == 0 {
                proof {
                    lemma_form_hotkeys_error_stands(fields, i + 1);
                }
                return Err(SettingsError::BlankHotkey { duration_seconds });
            }
            let ghost before = entry_views(hotkeys@);
            hotkeys.push(HotkeyEntry { duration_seconds, combination: combination.to_owned() });
            assert(entry_views(hotkeys@) =~= before.push((duration_seconds, combination@)));
            i += 1;
        }
        assert(fields.take(self.hotkeys.len() as int) =~= fields);
        let output_dir = empty_to_none_path(self.output_dir.as_str());
        let ffmpeg_path = empty_to_none_path(self.ffmpeg_path.as_str());
        Ok(
            FileConfig {
                ffmpeg_path,
                buffer_dir: file_config.buffer_dir,
                output_dir,
                max_replay_seconds: numbers.max_replay_seconds,
                segment_seconds: numbers.segment_seconds,
                frame_rate: file_config.frame_rate,
                encoder: file_config.encoder,
                preset: file_config.preset,
                ffmpeg_input: file_config.ffmpeg_input,
                system_audio_enabled: self.system_audio_enabled,
                system_audio_backend: trim(self.system_audio_backend.as_str()).to_owned(),
                system_audio_device: trim(self.system_audio_device.as_str()).to_owned(),
                microphone_enabled: self.microphone_enabled,
                microphone_backend: trim(self.microphone_backend.as_str()).to_owned(),
                microphone_device: trim(self.microphone_device.as_str()).to_owned(),
                audio_sample_rate: numbers.audio_sample_rate,
                audio_channels: numbers.audio_channels,
                audio_bitrate: trim(self.audio_bitrate.as_str()).to_owned(),
                ffmpeg_extra_args: file_config.ffmpeg_extra_args,
                hotkeys,
            },
        )
    }
}


/// The tray menu's item ids.
pub const MENU_SETTINGS: usize = 1000;

pub const MENU_OPEN_OUTPUT: usize = 1001;

pub const MENU_QUIT: usize = 1002;

/// A tray menu item.
#[derive(Debug, Clone, Copy, PartialEq, Eq, Structural)]
pub enum MenuCommand {
    OpenSettings,
    OpenOutputFolder,
    Quit,
}

/// The tray menu item that a `WM_COMMAND` parameter chooses: its low word
/// is the item id.
pub fn menu_command(wparam: usize) -> (r: Option<MenuCommand>)
    ensures
        r == (if wparam % 0x10000 == MENU_SETTINGS {
            Some(MenuCommand::OpenSettings)
        } else if wparam % 0x10000 == MENU_OPEN_OUTPUT {
            Some(MenuCommand::OpenOutputFolder)
        } else if wparam % 0x10000 == MENU_QUIT {
            Some(MenuCommand::Quit)
        } else {
            None
        }),
{
    let id = loword(wparam) as usize;
    if id == MENU_SETTINGS {
        Some(MenuCommand::OpenSettings)
    } else if id == MENU_OPEN_OUTPUT {
        Some(MenuCommand::OpenOutputFolder)
    } else if id == MENU_QUIT {
        Some(MenuCommand::Quit)
    } else {
        None
    }
}


/// Two different supported hotkeys register as different Win32 hotkeys:
/// modifiers map bit for bit, and digits (0x30..), letters (0x41..) and
/// function keys (0x70..) take disjoint key codes.
pub proof fn law_distinct_hotkeys_register_distinctly(a: HotKeySpec, b: HotKeySpec)
    requires
        is_supported_hotkey(a),
        is_supported_hotkey(b),
        a != b,
    ensures
        spec_win32_modifiers(a.modifiers) != spec_win32_modifiers(b.modifiers)
            || spec_virtual_key(a.key) != spec_virtual_key(b.key),
{
    let x = a.modifiers.0;
    let y = b.modifiers.0;
    assert(x < 16 && y < 16 && x != y ==> ((if x & 1u32 == 1u32 { 1u32 } else { 0u32 }) | (if x
        & 2u32 == 2u32 { 2u32 } else { 0u32 }) | (if x & 4u32 == 4u32 { 4u32 } else { 0u32 }) | (
    if x & 8u32 == 8u32 { 8u32 } else { 0u32 })) != ((if y & 1u32 == 1u32 { 1u32 } else { 0u32 })
        | (if y & 2u32 == 2u32 { 2u32 } else { 0u32 }) | (if y & 4u32 == 4u32 { 4u32 } else { 0u32 })
        | (if y & 8u32 == 8u32 { 8u32 } else { 0u32 }))) by (bit_vector);
    if x == y {
        assert(a.modifiers == b.modifiers);
        assert(a.key != b.key);
        match (a.key, b.key) {
            (KeyCode::Letter(c), KeyCode::Letter(d)) => {
                assert(c != d);
                assert((c as u32) != (d as u32));
            },
            _ => {},
        }
    }
}


/// A path left blank in the settings window falls back to its default once
/// the applied configuration is read: ffmpeg to `ffmpeg.exe`, the output
/// folder to the default one; one filled in is used trimmed.
pub proof fn law_blank_path_fields_use_defaults(
    form: SettingsForm,
    numbers: SettingsNumbers,
    base: FileConfig,
    hotkeys: Seq<(u32, Seq<char>)>,
    applied: FileConfig,
    paths: AppPaths,
    app: AppConfig,
    sb: AudioBackend,
    mb: AudioBackend,
    bs: Seq<BindingView>,
)
    requires
        is_form_applied(applied, base, form, numbers, hotkeys),
        is_app_config_of(app, applied, paths, sb, mb, bs),
    ensures
        app.output_dir@ == (if spec_trim(form.output_dir@).len() == 0 {
            paths.output_dir@
        } else {
            spec_trim(form.output_dir@)
        }),
        app.ffmpeg_path@ == (if spec_trim(form.ffmpeg_path@).len() == 0 {
            default_ffmpeg_path()
        } else {
            spec_trim(form.ffmpeg_path@)
        }),
{
}

} // verus!
