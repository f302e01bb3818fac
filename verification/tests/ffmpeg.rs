use carta::ffmpeg::{license_file, lines_of, main_args, main_phase, subtitle_args, video_args, RunState};
use carta::plan::{AudioPlan, VideoPlan};

fn plan(encode: bool, capped: bool, k: u32) -> VideoPlan {
    VideoPlan { position: 0, index: 0, encode, bitrate_k: k, capped }
}

#[test]
fn a_compatible_video_is_copied() {
    assert_eq!(video_args(&plan(false, false, 0), "x264"), vec!["-c:v", "copy"]);
}

#[test]
fn x264_uses_crf_unless_capped() {
    assert_eq!(
        video_args(&plan(true, false, 6000), "x264"),
        vec!["-c:v", "libx264", "-preset", "medium", "-profile:v", "high", "-level", "4.1", "-crf", "20", "-pix_fmt", "yuv420p", "-tag:v", "avc1"]
    );
    assert_eq!(
        video_args(&plan(true, true, 3001), "x264"),
        vec!["-c:v", "libx264", "-preset", "medium", "-profile:v", "high", "-level", "4.1", "-b:v", "3001k", "-maxrate", "4501k", "-bufsize", "6002k", "-pix_fmt", "yuv420p", "-tag:v", "avc1"]
    );
}

#[test]
fn videotoolbox_always_pins_the_rate() {
    assert_eq!(
        video_args(&plan(true, false, 6000), "videotoolbox"),
        vec!["-c:v", "h264_videotoolbox", "-profile:v", "high", "-b:v", "6000k", "-maxrate", "9000k", "-bufsize", "12000k", "-pix_fmt", "yuv420p", "-tag:v", "avc1"]
    );
}

#[test]
fn the_main_pass_maps_video_and_every_audio() {
    let audios = vec![
        AudioPlan { position: 1, index: 1, copy: true, codec: "copy".into(), bitrate: String::new(), channels: 2, bits: None },
        AudioPlan { position: 2, index: 3, copy: false, codec: "ac3".into(), bitrate: "640k".into(), channels: 6, bits: Some(640_000) },
    ];
    let mut v = plan(false, false, 0);
    v.index = 0;
    assert_eq!(
        main_args("in.mkv", &v, &audios, "x264", "out.mp4"),
        vec![
            "-hide_banner", "-nostdin", "-y", "-progress", "pipe:1", "-nostats", "-i", "in.mkv",
            "-map", "0:0", "-map", "0:1", "-map", "0:3", "-c:v", "copy",
            "-c:a:0", "copy", "-c:a:1", "ac3", "-b:a:1", "640k", "-ac:a:1", "6",
            "-sn", "-dn", "-map_metadata", "0", "-max_muxing_queue_size", "1024", "-movflags", "+faststart", "-f", "mp4", "out.mp4",
        ]
    );
}

#[test]
fn a_subtitle_pass_extracts_one_stream() {
    assert_eq!(
        subtitle_args("in.mkv", 4, "/x/Movie.srt"),
        vec!["-hide_banner", "-nostdin", "-y", "-progress", "pipe:1", "-nostats", "-i", "in.mkv", "-map", "0:4", "-c:s", "srt", "/x/Movie.srt"]
    );
}

#[test]
fn progress_lines_update_speed_and_report_time() {
    let mut st = RunState::new();
    assert_eq!(st.on_progress_line("speed= 2.35x"), None);
    assert_eq!(st.speed, "2.35");
    assert_eq!(st.on_progress_line(" out_time_us = 1500000 "), Some("1500000".to_string()));
    assert_eq!(st.on_progress_line("frame=10"), None);
    assert_eq!(st.on_progress_line("no equals sign"), None);
    assert_eq!(st.speed, "2.35");
    assert_eq!(st.on_progress_line("speed=N/A"), None);
    assert_eq!(st.speed, "N/A");
}

#[test]
fn chunks_split_into_lines() {
    assert_eq!(lines_of("a=1\nb=2\r\nc=3"), vec!["a=1", "b=2", "c=3"]);
    assert_eq!(lines_of("a\n\nb\n"), vec!["a", "", "b"]);
    assert!(lines_of("").is_empty());
}

#[test]
fn error_lines_keep_the_last_fifteen() {
    let mut st = RunState::new();
    assert_eq!(st.on_error_text("   \n"), None);
    for i in 0..20 {
        assert_eq!(st.on_error_text(&format!(" line {i} ")), Some(format!("line {i}")));
    }
    assert_eq!(st.tail.len(), 15);
    assert_eq!(st.tail[0], "line 5");
    assert_eq!(st.tail[14], "line 19");
}

#[test]
fn the_exit_code_decides_the_outcome() {
    let mut st = RunState::new();
    assert_eq!(st.outcome().err().unwrap(), "conversion cancelled");
    st.on_error_text("bad input");
    st.on_error_text("giving up");
    st.on_exit(Some(1));
    assert_eq!(st.outcome().err().unwrap(), "ffmpeg exited with code 1. bad input · giving up");
    st.on_exit(Some(-9));
    assert_eq!(st.outcome().err().unwrap(), "ffmpeg exited with code -9. bad input · giving up");
    st.on_exit(Some(0));
    assert!(st.outcome().is_ok());
}

#[test]
fn only_bundled_licenses_can_be_read() {
    assert_eq!(license_file("notice").unwrap(), "licenses/NOTICE.txt");
    assert_eq!(license_file("gpl").unwrap(), "licenses/GPLv2.txt");
    assert_eq!(license_file("../etc").err().unwrap(), "unknown license: ../etc");
}

#[test]
fn the_phase_names_the_work() {
    assert_eq!(main_phase(true), "Re-encoding video");
    assert_eq!(main_phase(false), "Remuxing");
}
