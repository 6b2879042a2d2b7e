//! The ffmpeg side of the recorder: which buffered files are segments, which
//! of them a replay uses, the concat list, file names, and the ffmpeg
//! command lines for capture and for assembling a replay.

use vstd::prelude::*;

use crate::config::AppConfig;
use crate::retention::{
    ceil_div, delete_count, div_ceil_u32, files_to_delete, is_sorted_permutation,
    law_keep_grows_with_window, spec_keep_segment_count, SortKey,
};
use crate::text::{decimal, u64_to_string};

verus! {

/// The views of a list of strings.
pub open spec fn string_views(v: Seq<String>) -> Seq<Seq<char>> {
    v.map_values(|s: String| s@)
}

/// `s` starts with `prefix`.
pub open spec fn has_prefix(s: Seq<char>, prefix: Seq<char>) -> bool {
    prefix.len() <= s.len() && s.take(prefix.len() as int) == prefix
}

/// `s` ends with `suffix`.
pub open spec fn has_suffix(s: Seq<char>, suffix: Seq<char>) -> bool {
    suffix.len() <= s.len() && s.skip(s.len() - suffix.len()) == suffix
}

/// Whether `text` starts with `prefix`.
fn starts_with(text: &str, prefix: &str) -> (r: bool)
    ensures
        r == has_prefix(text@, prefix@),
{
    let n = text.unicode_len();
    let m = prefix.unicode_len();
    if m > n {
        return false;
    }
    let mut i: usize = 0;
    while i < m
        invariant
            n == text@.len(),
            m == prefix@.len(),
            m <= n,
            i <= m,
            forall|k: int| 0 <= k < i ==> text@[k] == prefix@[k],
        decreases m - i,
    {
        if text.get_char(i) != prefix.get_char(i) {
            assert(text@.take(m as int)[i as int] != prefix@[i as int]);
            return false;
        }
        i += 1;
    }
    assert(text@.take(m as int) =~= prefix@);
    true
}

/// Whether `text` ends with `suffix`.
fn ends_with(text: &str, suffix: &str) -> (r: bool)
    ensures
        r == has_suffix(text@, suffix@),
{
    let n = text.unicode_len();
    let m = suffix.unicode_len();
    if m > n {
        return false;
    }
    let off = n - m;
    let mut i: usize = 0;
    while i < m
        invariant
            n == text@.len(),
            m == suffix@.len(),
            off == n - m,
            i <= m,
            forall|k: int| 0 <= k < i ==> text@[off + k] == suffix@[k],
        decreases m - i,
    {
        if text.get_char(off + i) != suffix.get_char(i) {
            assert(text@.skip(off as int)[i as int] != suffix@[i as int]);
            return false;
        }
        i += 1;
    }
    assert(text@.skip(off as int) =~= suffix@);
    true
}

/// A file of the buffer is a segment when its name starts with `segment-`
/// and its extension is `mp4`.
pub open spec fn spec_is_segment_file(file_name: Seq<char>) -> bool {
    has_prefix(file_name, "segment-"@) && has_suffix(file_name, ".mp4"@)
}

/// Whether the buffered file called `file_name` is a capture segment.
pub fn is_segment_file(file_name: &str) -> (r: bool)
    ensures
        r == spec_is_segment_file(file_name@),
{
    ends_with(file_name, ".mp4") && starts_with(file_name, "segment-")
}


/// How old, in milliseconds, a segment must be before it counts as
/// complete: one segment length (at least one second) and a quarter second.
pub open spec fn spec_min_segment_age_millis(segment_seconds: u32) -> int {
    let seg = if segment_seconds == 0 { 1int } else { segment_seconds as int };
    seg * 1000 + 250
}

/// A buffered segment: its path and its age in milliseconds.
pub type AgedSegment = (String, u64);

/// The paths of the segments old enough to be complete, in their order.
pub open spec fn complete_paths(files: Seq<AgedSegment>, segment_seconds: u32) -> Seq<String>
    decreases files.len(),
{
    if files.len() == 0 {
        Seq::empty()
    } else {
        let rest = complete_paths(files.drop_last(), segment_seconds);
        if files.last().1 >= spec_min_segment_age_millis(segment_seconds) {
            rest.push(files.last().0)
        } else {
            rest
        }
    }
}

/// The segments that ffmpeg has finished writing, oldest first: those at
/// least one segment length plus a quarter second old, sorted by path.
pub fn complete_segments(files: Vec<AgedSegment>, segment_seconds: u32) -> (r: Vec<String>)
    ensures
        is_sorted_permutation(r@, complete_paths(files@, segment_seconds)),
{
    let seg: u64 = if segment_seconds == 0 { 1 } else { segment_seconds as u64 };
    let min_age: u64 = seg * 1000 + 250;
    let ghost all = files@;
    let mut rest = files;
    let mut kept: Vec<String> = Vec::new();
    let mut i: usize = 0;
    let n = rest.len();
    while rest.len() > 0
        invariant
            min_age == spec_min_segment_age_millis(segment_seconds),
            rest.len() + i == n,
            n == all.len(),
            rest@ == all.skip(i as int),
            kept@ == complete_paths(all.take(i as int), segment_seconds),
        decreases rest.len(),
    {
        let (path, age) = rest.remove(0);
        proof {
            assert(all.take(i + 1).drop_last() =~= all.take(i as int));
            assert(all.take(i + 1).last() == all[i as int]);
            assert(all.skip(i + 1) =~= all.skip(i as int).remove(0));
        }
        if age >= min_age {
            kept.push(path);
        }
        i += 1;
    }
    assert(all.take(n as int) =~= all);
    crate::retention::sort_items(kept)
}

/// Why a replay cannot be saved.
#[derive(Debug, Clone, Copy, PartialEq, Eq, Structural)]
pub enum ReplayError {
    /// A replay of zero seconds was asked for.
    ZeroDuration,
    /// Fewer complete segments than the replay needs.
    NotEnoughSegments { needed: usize, available: usize },
}

/// The message of each refusal.
pub open spec fn replay_message(e: ReplayError) -> Seq<char> {
    match e {
        ReplayError::ZeroDuration => "duration must be greater than zero"@,
        ReplayError::NotEnoughSegments { needed, available } =>
            "not enough buffered video yet: need "@ + decimal(needed as nat)
            + " complete segment(s), have "@ + decimal(available as nat),
    }
}

impl ReplayError {
    /// The error's message.
    pub fn message(&self) -> (r: String)
        ensures
            r@ == replay_message(*self),
    {
        let mut out = String::new();
        match self {
            ReplayError::ZeroDuration => out.append("duration must be greater than zero"),
            ReplayError::NotEnoughSegments { needed, available } => {
                out.append("not enough buffered video yet: need ");
                let n = u64_to_string(*needed as u64);
                out.append(n.as_str());
                out.append(" complete segment(s), have ");
                let a = u64_to_string(*available as u64);
                out.append(a.as_str());
            },
        }
        out
    }
}

/// How many segments a replay of `duration_seconds` needs: enough whole
/// segments (a zero length counts as one second) to cover it.
pub open spec fn spec_needed_segments(duration_seconds: u32, segment_seconds: u32) -> int {
    let seg = if segment_seconds == 0 { 1int } else { segment_seconds as int };
    ceil_div(duration_seconds as int, seg)
}

/// The number of segments that a replay of `duration_seconds` takes;
/// refused for a zero duration.
pub fn needed_segment_count(duration_seconds: u32, segment_seconds: u32) -> (r: Result<
    usize,
    ReplayError,
>)
    ensures
        r == if duration_seconds == 0 {
            Err::<usize, ReplayError>(ReplayError::ZeroDuration)
        } else {
            Ok::<usize, ReplayError>(spec_needed_segments(duration_seconds, segment_seconds) as usize)
        },
        r matches Ok(n) ==> n == spec_needed_segments(duration_seconds, segment_seconds),
{
    if duration_seconds == 0 {
        return Err(ReplayError::ZeroDuration);
    }
    let seg = if segment_seconds == 0 { 1 } else { segment_seconds };
    Ok(div_ceil_u32(duration_seconds, seg) as usize)
}

/// The newest `needed` of the complete segments (given oldest first), in
/// order; refused when there are fewer.
pub fn select_replay_segments(segments: Vec<String>, needed: usize) -> (r: Result<
    Vec<String>,
    ReplayError,
>)
    ensures
        segments@.len() < needed <==> r == Err::<Vec<String>, ReplayError>(
            ReplayError::NotEnoughSegments { needed, available: segments@.len() as usize },
        ),
        segments@.len() >= needed ==> r is Ok,
        r matches Ok(sel) ==> sel@ == segments@.skip(segments@.len() - needed),
{
    if segments.len() < needed {
        return Err(ReplayError::NotEnoughSegments { needed, available: segments.len() });
    }
    let start = segments.len() - needed;
    let mut rest = segments;
    let tail = rest.split_off(start);
    Ok(tail)
}


/// A path with its backslashes written as forward slashes, as ffmpeg is
/// given paths.
pub open spec fn forward_slashes(path: Seq<char>) -> Seq<char> {
    path.map_values(|c: char| if c == '\\' { '/' } else { c })
}

/// What a character of a path becomes in the concat list: backslashes turn
/// into slashes and a quote is closed, escaped and reopened.
pub open spec fn concat_char(c: char) -> Seq<char> {
    if c == '\\' {
        seq!['/']
    } else if c == '\'' {
        "'\\''"@
    } else {
        seq![c]
    }
}

/// A path as the concat list quotes it.
pub open spec fn concat_path_text(path: Seq<char>) -> Seq<char>
    decreases path.len(),
{
    if path.len() == 0 {
        Seq::empty()
    } else {
        concat_path_text(path.drop_last()) + concat_char(path.last())
    }
}

/// The concat list line of one segment.
pub open spec fn concat_line(path: Seq<char>) -> Seq<char> {
    "file '"@ + concat_path_text(path) + "'\n"@
}

/// The concat list of several segments, one line each.
pub open spec fn concat_list_text(paths: Seq<Seq<char>>) -> Seq<char>
    decreases paths.len(),
{
    if paths.len() == 0 {
        Seq::empty()
    } else {
        concat_list_text(paths.drop_last()) + concat_line(paths.last())
    }
}

/// Appends `path` as the concat list quotes it.
fn append_concat_path(out: &mut String, path: &str)
    ensures
        final(out)@ == old(out)@ + concat_path_text(path@),
{
    let n = path.unicode_len();
    let mut i: usize = 0;
    assert(path@.take(0) =~= Seq::<char>::empty());
    let ghost start = out@;
    while i < n
        invariant
            n == path@.len(),
            i <= n,
            out@ == start + concat_path_text(path@.take(i as int)),
        decreases n - i,
    {
        let c = path.get_char(i);
        proof {
            assert(path@.take(i + 1).drop_last() =~= path@.take(i as int));
            assert(path@.take(i + 1).last() == c);
            reveal_strlit("'\\''");
        }
        if c == '\\' {
            out.append("/");
            proof {
                reveal_strlit("/");
            }
        } else if c == '\'' {
            out.append("'\\''");
        } else {
            let one = path.substring_char(i, i + 1);
            assert(one@ =~= seq![c]);
            out.append(one);
        }
        assert(out@ =~= start + concat_path_text(path@.take(i + 1)));
        i += 1;
    }
    assert(path@.take(n as int) =~= path@);
}

/// The concat list that tells ffmpeg which segments to join, in order.
pub fn concat_list(paths: &Vec<String>) -> (r: String)
    ensures
        r@ == concat_list_text(string_views(paths@)),
{
    let mut out = String::new();
    let mut i: usize = 0;
    let ghost views = string_views(paths@);
    assert(views.take(0) =~= Seq::<Seq<char>>::empty());
    while i < paths.len()
        invariant
            views == string_views(paths@),
            i <= paths.len(),
            out@ == concat_list_text(views.take(i as int)),
        decreases paths.len() - i,
    {
        proof {
            assert(views.take(i + 1).drop_last() =~= views.take(i as int));
        }
        let ghost before = out@;
        out.append("file '");
        append_concat_path(&mut out, paths[i].as_str());
        out.append("'\n");
        assert(out@ =~= before + concat_line(paths@[i as int]@));
        i += 1;
    }
    assert(views.take(paths.len() as int) =~= views);
    out
}

/// The name of the concat list file, from the local time written as
/// `%Y%m%d-%H%M%S-%3f`.
pub fn concat_list_file_name(timestamp: &str) -> (r: String)
    ensures
        r@ == "concat-"@ + timestamp@ + ".txt"@,
{
    let mut out = String::new();
    out.append("concat-");
    out.append(timestamp);
    out.append(".txt");
    out
}

/// The name of a saved replay, from the local time written as
/// `%Y%m%d-%H%M%S` and its length: `Replay-<time>-<seconds>s.mp4`.
pub fn replay_file_name(timestamp: &str, duration_seconds: u32) -> (r: String)
    ensures
        r@ == "Replay-"@ + timestamp@ + "-"@ + decimal(duration_seconds as nat) + "s.mp4"@,
{
    let mut out = String::new();
    out.append("Replay-");
    out.append(timestamp);
    out.append("-");
    let d = u64_to_string(duration_seconds as u64);
    out.append(d.as_str());
    out.append("s.mp4");
    out
}

/// Appends `s` to a list of arguments.
fn push_arg(args: &mut Vec<String>, s: &str)
    ensures
        string_views(final(args)@) == string_views(old(args)@).push(s@),
{
    args.push(s.to_owned());
    assert(string_views(args@) =~= string_views(old(args)@).push(s@));
}

/// The ffmpeg arguments that join the segments listed in `list_path` into
/// `output_path` without re-encoding.
pub open spec fn spec_concat_arguments(list_path: Seq<char>, output_path: Seq<char>) -> Seq<
    Seq<char>,
> {
    seq![
        "-hide_banner"@,
        "-loglevel"@,
        "warning"@,
        "-y"@,
        "-f"@,
        "concat"@,
        "-safe"@,
        "0"@,
        "-i"@,
        list_path,
        "-c"@,
        "copy"@,
        "-movflags"@,
        "+faststart"@,
        output_path,
    ]
}

/// The arguments of the ffmpeg run that assembles a replay.
pub fn concat_arguments(list_path: &str, output_path: &str) -> (r: Vec<String>)
    ensures
        string_views(r@) == spec_concat_arguments(list_path@, output_path@),
{
    let mut args: Vec<String> = Vec::new();
    assert(string_views(args@) =~= Seq::<Seq<char>>::empty());
    push_arg(&mut args, "-hide_banner");
    push_arg(&mut args, "-loglevel");
    push_arg(&mut args, "warning");
    push_arg(&mut args, "-y");
    push_arg(&mut args, "-f");
    push_arg(&mut args, "concat");
    push_arg(&mut args, "-safe");
    push_arg(&mut args, "0");
    push_arg(&mut args, "-i");
    push_arg(&mut args, list_path);
    push_arg(&mut args, "-c");
    push_arg(&mut args, "copy");
    push_arg(&mut args, "-movflags");
    push_arg(&mut args, "+faststart");
    push_arg(&mut args, output_path);
    assert(string_views(args@) =~= spec_concat_arguments(list_path@, output_path@));
    args
}


/// `path` with its backslashes written as forward slashes.
pub fn to_forward_slashes(path: &str) -> (r: String)
    ensures
        r@ == forward_slashes(path@),
{
    let n = path.unicode_len();
    let mut out = String::new();
    let mut i: usize = 0;
    while i < n
        invariant
            n == path@.len(),
            i <= n,
            out@ =~= forward_slashes(path@).take(i as int),
        decreases n - i,
    {
        let c = path.get_char(i);
        if c == '\\' {
            out.append("/");
            proof {
                reveal_strlit("/");
            }
        } else {
            let one = path.substring_char(i, i + 1);
            assert(one@ =~= seq![c]);
            out.append(one);
        }
        i += 1;
    }
    out
}

/// A segment length of zero counts as one second.
pub open spec fn effective_segment_seconds(segment_seconds: u32) -> u32 {
    if segment_seconds == 0 { 1 } else { segment_seconds }
}

/// The keyframe interval in frames: one keyframe per segment, saturating at
/// `u32::MAX`.
pub open spec fn spec_gop(frame_rate: u32, segment_seconds: u32) -> u32 {
    let p = frame_rate as int * effective_segment_seconds(segment_seconds) as int;
    if p > u32::MAX { u32::MAX } else { p as u32 }
}

/// The ffmpeg arguments of the capture process: the desktop through
/// `gdigrab`, encoded with a keyframe at each segment start, then the
/// extra arguments, then segmented output into `segment_pattern` (with
/// forward slashes).
pub open spec fn spec_capture_arguments(config: AppConfig, segment_pattern: Seq<char>) -> Seq<
    Seq<char>,
> {
    let gop = decimal(spec_gop(config.frame_rate, config.segment_seconds) as nat);
    seq![
        "-hide_banner"@,
        "-loglevel"@,
        "warning"@,
        "-f"@,
        "gdigrab"@,
        "-framerate"@,
        decimal(config.frame_rate as nat),
        "-draw_mouse"@,
        "1"@,
        "-i"@,
        config.ffmpeg_input@,
        "-an"@,
        "-c:v"@,
        config.encoder@,
        "-preset"@,
        config.preset@,
        "-pix_fmt"@,
        "yuv420p"@,
        "-crf"@,
        "23"@,
        "-g"@,
        gop,
        "-keyint_min"@,
        gop,
        "-sc_threshold"@,
        "0"@,
        "-force_key_frames"@,
        "expr:gte(t,n_forced*"@ + decimal(
            effective_segment_seconds(config.segment_seconds) as nat,
        ) + ")"@,
    ] + string_views(config.ffmpeg_extra_args@) + seq![
        "-f"@,
        "segment"@,
        "-segment_time"@,
        decimal(config.segment_seconds as nat),
        "-reset_timestamps"@,
        "1"@,
        "-strftime"@,
        "1"@,
        forward_slashes(segment_pattern),
    ]
}

/// The arguments of the ffmpeg capture process; `segment_pattern` is the
/// buffer directory joined with `segment-%Y%m%d-%H%M%S.mp4`.
pub fn capture_arguments(config: &AppConfig, segment_pattern: &str) -> (r: Vec<String>)
    ensures
        string_views(r@) == spec_capture_arguments(*config, segment_pattern@),
{
    let seg: u32 = if config.segment_seconds == 0 { 1 } else { config.segment_seconds };
    assert(config.frame_rate as u64 * seg as u64 <= u32::MAX as u64 * u32::MAX as u64) by (nonlinear_arith)
        requires
            config.frame_rate <= u32::MAX,
            seg <= u32::MAX,
    ;
    let product: u64 = config.frame_rate as u64 * seg as u64;
    let gop: u32 = if product > u32::MAX as u64 { u32::MAX } else { product as u32 };
    let gop_text = u64_to_string(gop as u64);
    let frame_rate_text = u64_to_string(config.frame_rate as u64);
    let seg_text = u64_to_string(seg as u64);
    let mut force_keyframes = String::new();
    force_keyframes.append("expr:gte(t,n_forced*");
    force_keyframes.append(seg_text.as_str());
    force_keyframes.append(")");

    let mut args: Vec<String> = Vec::new();
    assert(string_views(args@) =~= Seq::<Seq<char>>::empty());
    push_arg(&mut args, "-hide_banner");
    push_arg(&mut args, "-loglevel");
    push_arg(&mut args, "warning");
    push_arg(&mut args, "-f");
    push_arg(&mut args, "gdigrab");
    push_arg(&mut args, "-framerate");
    push_arg(&mut args, frame_rate_text.as_str());
    push_arg(&mut args, "-draw_mouse");
    push_arg(&mut args, "1");
    push_arg(&mut args, "-i");
    push_arg(&mut args, config.ffmpeg_input.as_str());
    push_arg(&mut args, "-an");
    push_arg(&mut args, "-c:v");
    push_arg(&mut args, config.encoder.as_str());
    push_arg(&mut args, "-preset");
    push_arg(&mut args, config.preset.as_str());
    push_arg(&mut args, "-pix_fmt");
    push_arg(&mut args, "yuv420p");
    push_arg(&mut args, "-crf");
    push_arg(&mut args, "23");
    push_arg(&mut args, "-g");
    push_arg(&mut args, gop_text.as_str());
    push_arg(&mut args, "-keyint_min");
    push_arg(&mut args, gop_text.as_str());
    push_arg(&mut args, "-sc_threshold");
    push_arg(&mut args, "0");
    push_arg(&mut args, "-force_key_frames");
    push_arg(&mut args, force_keyframes.as_str());
    let ghost head = string_views(args@);
    let mut i: usize = 0;
    while i < config.ffmpeg_extra_args.len()
        invariant
            i <= config.ffmpeg_extra_args.len(),
            string_views(args@) =~= head + string_views(config.ffmpeg_extra_args@).take(i as int),
        decreases config.ffmpeg_extra_args.len() - i,
    {
        push_arg(&mut args, config.ffmpeg_extra_args[i].as_str());
        i += 1;
    }
    assert(string_views(config.ffmpeg_extra_args@).take(i as int) =~= string_views(
        config.ffmpeg_extra_args@,
    ));
    let segment_time_text = u64_to_string(config.segment_seconds as u64);
    let pattern = to_forward_slashes(segment_pattern);
    push_arg(&mut args, "-f");
    push_arg(&mut args, "segment");
    push_arg(&mut args, "-segment_time");
    push_arg(&mut args, segment_time_text.as_str());
    push_arg(&mut args, "-reset_timestamps");
    push_arg(&mut args, "1");
    push_arg(&mut args, "-strftime");
    push_arg(&mut args, "1");
    push_arg(&mut args, pattern.as_str());
    assert(string_views(args@) =~= spec_capture_arguments(*config, segment_pattern@));
    args
}


/// A file of the buffer directory: its path and its file name.
pub type BufferFile = (String, String);

/// The paths of the buffer files that are segments, in their order.
pub open spec fn segment_paths(files: Seq<BufferFile>) -> Seq<String>
    decreases files.len(),
{
    if files.len() == 0 {
        Seq::empty()
    } else {
        let rest = segment_paths(files.drop_last());
        if spec_is_segment_file(files.last().1@) {
            rest.push(files.last().0)
        } else {
            rest
        }
    }
}

/// The segment files to delete from the buffer so that the configuration's
/// keep count of the newest remains: of the files that are segments, all
/// but the last `keep_segment_count` by path.
pub fn segments_to_prune(config: &AppConfig, files: Vec<BufferFile>) -> (r: Vec<String>)
    requires
        spec_keep_segment_count(config.max_replay_seconds, config.segment_seconds) <= usize::MAX,
    ensures
        r@.len() == delete_count(
            segment_paths(files@).len() as int,
            spec_keep_segment_count(config.max_replay_seconds, config.segment_seconds),
        ),
        exists|sorted: Seq<String>|
            #![trigger is_sorted_permutation(sorted, segment_paths(files@))]
            is_sorted_permutation(sorted, segment_paths(files@)) && r@ == sorted.take(
                r@.len() as int,
            ),
{
    let ghost all = files@;
    let mut rest = files;
    let mut segments: Vec<String> = Vec::new();
    let mut i: usize = 0;
    let n = rest.len();
    while rest.len() > 0
        invariant
            rest.len() + i == n,
            n == all.len(),
            rest@ == all.skip(i as int),
            segments@ == segment_paths(all.take(i as int)),
        decreases rest.len(),
    {
        let (path, name) = rest.remove(0);
        proof {
            assert(all.take(i + 1).drop_last() =~= all.take(i as int));
            assert(all.take(i + 1).last() == all[i as int]);
            assert(all.skip(i + 1) =~= all.skip(i as int).remove(0));
        }
        if is_segment_file(name.as_str()) {
            segments.push(path);
        }
        i += 1;
    }
    assert(all.take(n as int) =~= all);
    files_to_delete(segments, config.keep_segment_count())
}

/// What the capture supervisor is doing.
#[derive(Debug, Clone, Copy, PartialEq, Eq, Structural)]
pub enum CaptureState {
    /// No ffmpeg process runs; one is to be started.
    Idle,
    /// An ffmpeg process captures.
    Capturing,
    /// Shut down for good.
    Stopped,
}

/// What the supervisor observed since its last step.
#[derive(Debug, Clone, Copy, PartialEq, Eq, Structural)]
pub enum CaptureEvent {
    /// Shutdown was asked for.
    ShutdownRequested,
    /// The buffer directory could not be made or ffmpeg could not start.
    StartFailed,
    /// ffmpeg started.
    Started,
    /// ffmpeg is still running (after old segments were pruned).
    StillRunning,
    /// ffmpeg exited.
    Exited,
    /// Whether ffmpeg runs could not be told.
    PollFailed,
}

/// What the supervisor does next.
#[derive(Debug, Clone, Copy, PartialEq, Eq, Structural)]
pub enum CaptureAction {
    /// Go on at once.
    Proceed,
    /// Wait this many seconds.
    Sleep(u64),
    /// Kill ffmpeg and wait for it, then wait this many seconds.
    KillAndSleep(u64),
    /// Stop supervising.
    Finish,
    /// Kill ffmpeg and wait for it, then stop supervising.
    KillAndFinish,
}

/// The supervisor's rule: shutdown ends it (killing a running ffmpeg); a
/// failed start is retried after 2 s; a running ffmpeg is checked each
/// second; one that exits is restarted after 2 s, and one that cannot be
/// checked is killed and restarted after 2 s.
pub open spec fn spec_capture_step(state: CaptureState, event: CaptureEvent) -> (
    CaptureState,
    CaptureAction,
) {
    match (state, event) {
        (CaptureState::Stopped, _) => (CaptureState::Stopped, CaptureAction::Finish),
        (CaptureState::Idle, CaptureEvent::ShutdownRequested) => (
            CaptureState::Stopped,
            CaptureAction::Finish,
        ),
        (CaptureState::Capturing, CaptureEvent::ShutdownRequested) => (
            CaptureState::Stopped,
            CaptureAction::KillAndFinish,
        ),
        (CaptureState::Idle, CaptureEvent::StartFailed) => (
            CaptureState::Idle,
            CaptureAction::Sleep(2),
        ),
        (CaptureState::Idle, CaptureEvent::Started) => (
            CaptureState::Capturing,
            CaptureAction::Proceed,
        ),
        (CaptureState::Capturing, CaptureEvent::StillRunning) => (
            CaptureState::Capturing,
            CaptureAction::Sleep(1),
        ),
        (CaptureState::Capturing, CaptureEvent::Exited) => (
            CaptureState::Idle,
            CaptureAction::Sleep(2),
        ),
        (CaptureState::Capturing, CaptureEvent::PollFailed) => (
            CaptureState::Idle,
            CaptureAction::KillAndSleep(2),
        ),
        (s, _) => (s, CaptureAction::Proceed),
    }
}

/// One step of the capture supervisor.
pub fn capture_step(state: CaptureState, event: CaptureEvent) -> (r: (CaptureState, CaptureAction))
    ensures
        r == spec_capture_step(state, event),
{
    match (state, event) {
        (CaptureState::Stopped, _) => (CaptureState::Stopped, CaptureAction::Finish),
        (CaptureState::Idle, CaptureEvent::ShutdownRequested) => (
            CaptureState::Stopped,
            CaptureAction::Finish,
        ),
        (CaptureState::Capturing, CaptureEvent::ShutdownRequested) => (
            CaptureState::Stopped,
            CaptureAction::KillAndFinish,
        ),
        (CaptureState::Idle, CaptureEvent::StartFailed) => (
            CaptureState::Idle,
            CaptureAction::Sleep(2),
        ),
        (CaptureState::Idle, CaptureEvent::Started) => (
            CaptureState::Capturing,
            CaptureAction::Proceed,
        ),
        (CaptureState::Capturing, CaptureEvent::StillRunning) => (
            CaptureState::Capturing,
            CaptureAction::Sleep(1),
        ),
        (CaptureState::Capturing, CaptureEvent::Exited) => (
            CaptureState::Idle,
            CaptureAction::Sleep(2),
        ),
        (CaptureState::Capturing, CaptureEvent::PollFailed) => (
            CaptureState::Idle,
            CaptureAction::KillAndSleep(2),
        ),
        (s, _) => (s, CaptureAction::Proceed),
    }
}


/// The buffer keeps, besides its two spare segments, as many segments as
/// any replay no longer than the window needs.
pub proof fn law_buffer_holds_any_replay(
    duration_seconds: u32,
    max_replay_seconds: u32,
    segment_seconds: u32,
)
    requires
        duration_seconds <= max_replay_seconds,
    ensures
        spec_needed_segments(duration_seconds, segment_seconds) + 2 <= spec_keep_segment_count(
            max_replay_seconds,
            segment_seconds,
        ),
{
    law_keep_grows_with_window(duration_seconds, max_replay_seconds, segment_seconds);
}

/// A replay uses the newest complete segments: with the segments in the
/// order `complete_segments` gives, each one left out sorts no later than
/// each one taken.
pub proof fn law_replay_takes_newest(segments: Seq<String>, needed: int)
    requires
        crate::retention::is_sorted(segments),
        0 <= needed <= segments.len(),
    ensures
        forall|i: int, j: int|
            #![trigger segments[i], segments[j]]
            0 <= i < segments.len() - needed <= j < segments.len() ==> segments[i].key_le(
                segments[j],
            ),
{
}

/// Shutdown always ends supervision, killing ffmpeg if it runs, and once
/// stopped the supervisor stays stopped.
pub proof fn law_shutdown_ends_capture(state: CaptureState, event: CaptureEvent)
    ensures
        event == CaptureEvent::ShutdownRequested ==> spec_capture_step(state, event).0
            == CaptureState::Stopped && (spec_capture_step(state, event).1
            == CaptureAction::Finish || spec_capture_step(state, event).1
            == CaptureAction::KillAndFinish),
        state == CaptureState::Capturing && event == CaptureEvent::ShutdownRequested
            ==> spec_capture_step(state, event).1 == CaptureAction::KillAndFinish,
        state == CaptureState::Stopped ==> spec_capture_step(state, event) == (
            CaptureState::Stopped,
            CaptureAction::Finish,
        ),
{
}

/// The capture command line carries the configuration's own values: the
/// input after `-i`, the frame rate after `-framerate`, the encoder after
/// `-c:v`, the preset after `-preset`, a keyframe interval of one segment's
/// frames (saturating) after `-g` and `-keyint_min`, a forced keyframe at
/// each segment start, the segment length after `-segment_time`, the extra
/// arguments as given between the encoder options and the segment muxer,
/// and the segment pattern (with forward slashes) last.
pub proof fn law_capture_arguments_carry_config(config: AppConfig, segment_pattern: Seq<char>)
    ensures
        ({
            let a = spec_capture_arguments(config, segment_pattern);
            let extra = string_views(config.ffmpeg_extra_args@);
            let seg: int = if config.segment_seconds == 0 { 1 } else { config.segment_seconds as int };
            &&& a.len() == 37 + extra.len()
            &&& a[5] == "-framerate"@ && a[6] == decimal(config.frame_rate as nat)
            &&& a[9] == "-i"@ && a[10] == config.ffmpeg_input@
            &&& a[12] == "-c:v"@ && a[13] == config.encoder@
            &&& a[14] == "-preset"@ && a[15] == config.preset@
            &&& a[3] == "-f"@ && a[4] == "gdigrab"@
            &&& a[16] == "-pix_fmt"@ && a[17] == "yuv420p"@
            &&& a[18] == "-crf"@ && a[19] == "23"@
            &&& a[20] == "-g"@ && a[22] == "-keyint_min"@ && a[21] == a[23]
            &&& a[21] == decimal(
                (if config.frame_rate * seg > u32::MAX {
                    u32::MAX as int
                } else {
                    config.frame_rate * seg
                }) as nat,
            )
            &&& a[27] == "expr:gte(t,n_forced*"@ + decimal(seg as nat) + ")"@
            &&& a[28 + extra.len() as int] == "-f"@ && a[28 + extra.len() as int + 1] == "segment"@
            &&& a.subrange(28, 28 + extra.len() as int) == extra
            &&& a[28 + extra.len() as int + 2] == "-segment_time"@
            &&& a[28 + extra.len() as int + 3] == decimal(config.segment_seconds as nat)
            &&& a.last() == forward_slashes(segment_pattern)
        }),
{
    let a = spec_capture_arguments(config, segment_pattern);
    let extra = string_views(config.ffmpeg_extra_args@);
    let tail = a.skip(28 + extra.len() as int);
    assert(tail.len() == 9);
    assert(a.subrange(28, 28 + extra.len() as int) =~= extra);
}

/// Reads a token of a concat list as ffmpeg's concat demuxer does:
/// between single quotes every character stands for itself and a quote
/// ends the quoting; outside quotes a quote starts quoting and a backslash
/// makes the character after it stand for itself.
pub open spec fn concat_unquote(t: Seq<char>, quoted: bool) -> Seq<char>
    decreases t.len(),
{
    if t.len() == 0 {
        Seq::empty()
    } else if quoted {
        if t[0] == '\'' {
            concat_unquote(t.drop_first(), false)
        } else {
            seq![t[0]] + concat_unquote(t.drop_first(), true)
        }
    } else if t[0] == '\'' {
        concat_unquote(t.drop_first(), true)
    } else if t[0] == '\\' && t.len() > 1 {
        seq![t[1]] + concat_unquote(t.skip(2), false)
    } else {
        seq![t[0]] + concat_unquote(t.drop_first(), false)
    }
}

proof fn lemma_unquote_char(c: char, tail: Seq<char>)
    ensures
        concat_unquote(concat_char(c) + tail, true) == seq![
            if c == '\\' {
                '/'
            } else {
                c
            },
        ] + concat_unquote(tail, true),
{
    reveal_strlit("'\\''");
    let t = concat_char(c) + tail;
    if c == '\'' {
        assert(concat_char(c) =~= seq!['\'', '\\', '\'', '\'']);
        assert(t[0] == '\'');
        let u = t.drop_first();
        assert(u =~= seq!['\\', '\'', '\''] + tail);
        assert(u[0] == '\\' && u[1] == '\'' && u.len() > 1);
        let w = u.skip(2);
        assert(w =~= seq!['\''] + tail);
        assert(w[0] == '\'');
        assert(w.drop_first() =~= tail);
        assert(concat_unquote(w, false) == concat_unquote(tail, true));
        assert(concat_unquote(u, false) == seq!['\''] + concat_unquote(tail, true));
        assert(concat_unquote(t, true) == concat_unquote(u, false));
    } else {
        let d = if c == '\\' {
            '/'
        } else {
            c
        };
        assert(concat_char(c) =~= seq![d]);
        assert(t[0] == d);
        assert(t.drop_first() =~= tail);
        assert(concat_unquote(t, true) == seq![d] + concat_unquote(tail, true));
    }
}

proof fn lemma_unquote_path(p: Seq<char>, tail: Seq<char>)
    ensures
        concat_unquote(concat_path_text(p) + tail, true) == forward_slashes(p) + concat_unquote(
            tail,
            true,
        ),
    decreases p.len(),
{
    if p.len() == 0 {
        assert(concat_path_text(p) + tail =~= tail);
        assert(forward_slashes(p) + concat_unquote(tail, true) =~= concat_unquote(tail, true));
    } else {
        let q = p.drop_last();
        let c = p.last();
        assert(concat_path_text(p) + tail =~= concat_path_text(q) + (concat_char(c) + tail));
        lemma_unquote_path(q, concat_char(c) + tail);
        lemma_unquote_char(c, tail);
        assert(forward_slashes(p) =~= forward_slashes(q).push(
            if c == '\\' {
                '/'
            } else {
                c
            },
        ));
        assert(forward_slashes(p) + concat_unquote(tail, true) =~= forward_slashes(q) + (seq![
            if c == '\\' {
                '/'
            } else {
                c
            },
        ] + concat_unquote(tail, true)));
    }
}

/// A path quoted for the concat list reads back, the way the concat
/// demuxer reads a quoted token, as the path with forward slashes: every
/// other character stands for itself and quotes survive.
pub proof fn law_concat_path_reads_back(path: Seq<char>)
    ensures
        concat_unquote(seq!['\''] + concat_path_text(path) + seq!['\''], false) == forward_slashes(
            path,
        ),
{
    let t = seq!['\''] + concat_path_text(path) + seq!['\''];
    assert(t[0] == '\'');
    assert(t.drop_first() =~= concat_path_text(path) + seq!['\'']);
    assert(concat_unquote(t, false) == concat_unquote(t.drop_first(), true));
    lemma_unquote_path(path, seq!['\'']);
    let q = seq!['\''];
    assert(q[0] == '\'');
    assert(q.drop_first() =~= Seq::<char>::empty());
    assert(concat_unquote(q, true) == concat_unquote(Seq::<char>::empty(), false));
    assert(concat_unquote(q, true) =~= Seq::<char>::empty());
    assert(forward_slashes(path) + Seq::<char>::empty() =~= forward_slashes(path));
}

/// The segments a replay needs cover its duration with less than one
/// segment to spare (a zero segment length counts as one second).
pub proof fn law_needed_segments_cover_duration(duration_seconds: u32, segment_seconds: u32)
    requires
        duration_seconds > 0,
    ensures
        ({
            let seg: int = if segment_seconds == 0 { 1 } else { segment_seconds as int };
            let n = spec_needed_segments(duration_seconds, segment_seconds);
            &&& n * seg >= duration_seconds
            &&& (n - 1) * seg < duration_seconds
        }),
{
    let seg: int = if segment_seconds == 0 { 1 } else { segment_seconds as int };
    let d = duration_seconds as int;
    let q = (d + seg - 1) / seg;
    vstd::arithmetic::div_mod::lemma_fundamental_div_mod(d + seg - 1, seg);
    let r = (d + seg - 1) % seg;
    assert(d + seg - 1 == seg * q + r);
    assert(q * seg == seg * q) by (nonlinear_arith);
    assert((q - 1) * seg == q * seg - seg) by (nonlinear_arith);
}

/// `path` is the path of one of `files` at least `min_age` old.
pub open spec fn is_path_of_file_aged(files: Seq<AgedSegment>, path: String, min_age: int) -> bool {
    exists|i: int| 0 <= i < files.len() && (#[trigger] files[i]).0 == path && files[i].1 >= min_age
}

/// A buffered file's path is among the complete ones exactly when the file
/// is at least one segment length (a zero length counting as one second)
/// and a quarter second old; the complete paths keep the files' order.
pub proof fn law_complete_paths_are_old_enough(files: Seq<AgedSegment>, segment_seconds: u32)
    ensures
        ({
            let seg: int = if segment_seconds == 0 { 1 } else { segment_seconds as int };
            let c = complete_paths(files, segment_seconds);
            &&& c.len() <= files.len()
            &&& forall|i: int|
                0 <= i < files.len() && (#[trigger] files[i]).1 >= seg * 1000 + 250 ==> c.contains(
                    files[i].0,
                )
            &&& forall|j: int|
                0 <= j < c.len() ==> is_path_of_file_aged(files, #[trigger] c[j], seg * 1000 + 250)
        }),
    decreases files.len(),
{
    let seg: int = if segment_seconds == 0 { 1 } else { segment_seconds as int };
    if files.len() > 0 {
        let prev = files.drop_last();
        law_complete_paths_are_old_enough(prev, segment_seconds);
        let c = complete_paths(files, segment_seconds);
        let pc = complete_paths(prev, segment_seconds);
        let n = files.len() - 1;
        assert(files.last() == files[n]);
        assert forall|i: int|
            0 <= i < files.len() && (#[trigger] files[i]).1 >= seg * 1000 + 250 implies c.contains(
            files[i].0,
        ) by {
            if i < n {
                assert(files[i] == prev[i]);
                let k = choose|k: int| 0 <= k < pc.len() && pc[k] == prev[i].0;
                assert(c[k] == pc[k]);
            } else {
                assert(c[c.len() - 1] == files[n].0);
            }
        }
        assert forall|j: int| 0 <= j < c.len() implies is_path_of_file_aged(
            files,
            #[trigger] c[j],
            seg * 1000 + 250,
        ) by {
            if j < pc.len() {
                assert(c[j] == pc[j]);
                assert(is_path_of_file_aged(prev, pc[j], seg * 1000 + 250));
                let i = choose|i: int|
                    0 <= i < prev.len() && (#[trigger] prev[i]).0 == pc[j] && prev[i].1 >= seg
                        * 1000 + 250;
                assert(files[i] == prev[i]);
            } else {
                assert(c[j] == files[n].0);
                assert(files[n].1 >= seg * 1000 + 250);
            }
        }
        assert(c.len() <= files.len());
    } else {
        assert(complete_paths(files, segment_seconds) =~= Seq::<String>::empty());
    }
}

/// A concat list line names its segment: `file `, then a quoted token
/// that the concat demuxer reads as the path with forward slashes, then a
/// line break.
pub proof fn law_concat_line_names_path(path: Seq<char>)
    ensures
        ({
            let line = concat_line(path);
            &&& line.take(5) == "file "@
            &&& line.last() == '\n'
            &&& concat_unquote(line.subrange(5, line.len() - 1), false) == forward_slashes(path)
        }),
{
    reveal_strlit("file '");
    reveal_strlit("'\n");
    reveal_strlit("file ");
    let line = concat_line(path);
    law_concat_path_reads_back(path);
    assert(line.take(5) =~= "file "@);
    assert(line.subrange(5, line.len() - 1) =~= seq!['\''] + concat_path_text(path) + seq!['\'']);
}

/// The assembling run reads the concat list given, as a concat list with
/// any paths allowed, copies the streams without re-encoding, overwrites
/// and writes the output path given, last.
pub proof fn law_concat_arguments_copy_list_to_output(list_path: Seq<char>, output_path: Seq<char>)
    ensures
        ({
            let a = spec_concat_arguments(list_path, output_path);
            &&& a.len() == 15
            &&& a[3] == "-y"@
            &&& a[4] == "-f"@ && a[5] == "concat"@
            &&& a[6] == "-safe"@ && a[7] == "0"@
            &&& a[8] == "-i"@ && a[9] == list_path
            &&& a[10] == "-c"@ && a[11] == "copy"@
            &&& a[14] == output_path
        }),
{
}

} // verus!
