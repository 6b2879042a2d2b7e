use win_instant_replay::ffmpeg::is_segment_file;

#[test]
fn recognizes_segment_names() {
    assert!(is_segment_file("segment-20260306-120000.mp4"));
    assert!(!is_segment_file("clip.mp4"));
    assert!(!is_segment_file("segment-20260306-120000.txt"));
}

use win_instant_replay::config::{AppPaths, FileConfig};
use win_instant_replay::ffmpeg::{
    capture_arguments, capture_step, complete_segments, concat_arguments, concat_list,
    concat_list_file_name, needed_segment_count, replay_file_name, segments_to_prune,
    select_replay_segments, CaptureAction, CaptureEvent, CaptureState, ReplayError,
};

fn paths() -> AppPaths {
    AppPaths {
        config_dir: "config".to_string(),
        config_file: "config/config.toml".to_string(),
        buffer_dir: "buffer".to_string(),
        output_dir: "output".to_string(),
    }
}

fn strings(v: &[&str]) -> Vec<String> {
    v.iter().map(|s| s.to_string()).collect()
}

#[test]
fn complete_segments_are_old_enough_and_sorted() {
    let files = vec![
        ("b/segment-3.mp4".to_string(), 1250u64),
        ("b/segment-1.mp4".to_string(), 5000u64),
        ("b/segment-4.mp4".to_string(), 1249u64),
        ("b/segment-2.mp4".to_string(), 3000u64),
    ];
    assert_eq!(
        complete_segments(files.clone(), 1),
        strings(&["b/segment-1.mp4", "b/segment-2.mp4", "b/segment-3.mp4"])
    );
    assert_eq!(complete_segments(files.clone(), 0), complete_segments(files.clone(), 1));
    assert_eq!(complete_segments(files, 3), strings(&["b/segment-1.mp4"]));
}

#[test]
fn replay_takes_the_newest_segments_it_needs() {
    assert_eq!(needed_segment_count(0, 1), Err(ReplayError::ZeroDuration));
    assert_eq!(needed_segment_count(30, 1), Ok(30));
    assert_eq!(needed_segment_count(30, 4), Ok(8));
    assert_eq!(needed_segment_count(30, 0), Ok(30));
    let segments = strings(&["s1", "s2", "s3", "s4"]);
    assert_eq!(select_replay_segments(segments.clone(), 2), Ok(strings(&["s3", "s4"])));
    assert_eq!(select_replay_segments(segments.clone(), 4), Ok(segments.clone()));
    let error = select_replay_segments(segments, 5).unwrap_err();
    assert_eq!(error, ReplayError::NotEnoughSegments { needed: 5, available: 4 });
    assert_eq!(
        error.message(),
        "not enough buffered video yet: need 5 complete segment(s), have 4"
    );
    assert_eq!(ReplayError::ZeroDuration.message(), "duration must be greater than zero");
}

#[test]
fn concat_list_quotes_paths() {
    let list = concat_list(&strings(&["C:\\buf\\segment-1.mp4", "C:/it's/segment-2.mp4"]));
    assert_eq!(list, "file 'C:/buf/segment-1.mp4'\nfile 'C:/it'\\''s/segment-2.mp4'\n");
    assert_eq!(concat_list(&Vec::new()), "");
}

#[test]
fn file_names_and_concat_arguments() {
    assert_eq!(concat_list_file_name("20260306-081530-123"), "concat-20260306-081530-123.txt");
    assert_eq!(replay_file_name("20260306-081530", 30), "Replay-20260306-081530-30s.mp4");
    assert_eq!(
        concat_arguments("list.txt", "out.mp4"),
        strings(&[
            "-hide_banner", "-loglevel", "warning", "-y", "-f", "concat", "-safe", "0", "-i",
            "list.txt", "-c", "copy", "-movflags", "+faststart", "out.mp4",
        ])
    );
}

#[test]
fn capture_arguments_follow_the_configuration() {
    let mut file = FileConfig::default();
    file.segment_seconds = 2;
    file.ffmpeg_extra_args = strings(&["-threads", "2"]);
    let app = file.into_app_config(&paths()).unwrap();
    let args = capture_arguments(&app, "C:\\buffer\\segment-%Y%m%d-%H%M%S.mp4");
    assert_eq!(
        args,
        strings(&[
            "-hide_banner", "-loglevel", "warning", "-f", "gdigrab", "-framerate", "30",
            "-draw_mouse", "1", "-i", "desktop", "-an", "-c:v", "libx264", "-preset", "veryfast",
            "-pix_fmt", "yuv420p", "-crf", "23", "-g", "60", "-keyint_min", "60",
            "-sc_threshold", "0", "-force_key_frames", "expr:gte(t,n_forced*2)", "-threads", "2",
            "-f", "segment", "-segment_time", "2", "-reset_timestamps", "1", "-strftime", "1",
            "C:/buffer/segment-%Y%m%d-%H%M%S.mp4",
        ])
    );
}

#[test]
fn capture_gop_saturates_and_zero_segment_counts_as_one() {
    let mut app = FileConfig::default().into_app_config(&paths()).unwrap();
    app.frame_rate = u32::MAX;
    app.segment_seconds = 0;
    let args = capture_arguments(&app, "p");
    assert_eq!(args[6], u32::MAX.to_string());
    assert_eq!(args[21], u32::MAX.to_string());
    assert_eq!(args[23], u32::MAX.to_string());
    assert_eq!(args[27], "expr:gte(t,n_forced*1)");
    app.segment_seconds = 3;
    let args = capture_arguments(&app, "p");
    assert_eq!(args[21], u32::MAX.to_string());
    assert_eq!(args[23], u32::MAX.to_string());
    assert_eq!(args[args.len() - 6], "3");
}

#[test]
fn pruning_keeps_the_newest_segments() {
    let mut file = FileConfig::default();
    file.max_replay_seconds = 10;
    file.segment_seconds = 5;
    file.hotkeys = Vec::new();
    let app = file.into_app_config(&paths()).unwrap();
    assert_eq!(app.keep_segment_count(), 4);
    let names = ["segment-6.mp4", "segment-2.mp4", "clip.mp4", "segment-5.mp4", "segment-1.mp4",
        "segment-3.mp4", "segment-4.mp4", "segment-9.txt"];
    let files: Vec<(String, String)> =
        names.iter().map(|n| (format!("buf/{n}"), n.to_string())).collect();
    assert_eq!(segments_to_prune(&app, files), strings(&["buf/segment-1.mp4", "buf/segment-2.mp4"]));
    let few: Vec<(String, String)> = vec![("buf/segment-1.mp4".to_string(), "segment-1.mp4".to_string())];
    assert!(segments_to_prune(&app, few).is_empty());
}

#[test]
fn capture_supervisor_steps() {
    assert_eq!(capture_step(CaptureState::Idle, CaptureEvent::Started), (CaptureState::Capturing, CaptureAction::Proceed));
    assert_eq!(capture_step(CaptureState::Idle, CaptureEvent::StartFailed), (CaptureState::Idle, CaptureAction::Sleep(2)));
    assert_eq!(capture_step(CaptureState::Capturing, CaptureEvent::StillRunning), (CaptureState::Capturing, CaptureAction::Sleep(1)));
    assert_eq!(capture_step(CaptureState::Capturing, CaptureEvent::Exited), (CaptureState::Idle, CaptureAction::Sleep(2)));
    assert_eq!(capture_step(CaptureState::Capturing, CaptureEvent::PollFailed), (CaptureState::Idle, CaptureAction::KillAndSleep(2)));
    assert_eq!(capture_step(CaptureState::Capturing, CaptureEvent::ShutdownRequested), (CaptureState::Stopped, CaptureAction::KillAndFinish));
    assert_eq!(capture_step(CaptureState::Idle, CaptureEvent::ShutdownRequested), (CaptureState::Stopped, CaptureAction::Finish));
    assert_eq!(capture_step(CaptureState::Stopped, CaptureEvent::Started), (CaptureState::Stopped, CaptureAction::Finish));
}

use win_instant_replay::retention::keep_segment_count;

#[test]
fn buffer_holds_every_replay_up_to_the_window() {
    for (max, seg) in [(300u32, 1u32), (301, 2), (10, 3), (60, 0)] {
        for duration in 1..=max {
            let needed = needed_segment_count(duration, seg).unwrap();
            assert!(needed + 2 <= keep_segment_count(max, seg));
        }
    }
}
