use carta::plan::{container_name, decide_tracks, ProbeStream};

fn stream(index: u32, kind: &str, codec: &str) -> ProbeStream {
    ProbeStream {
        index,
        kind: kind.to_string(),
        codec: codec.to_string(),
        width: 0,
        height: 0,
        pix_fmt: String::new(),
        profile: String::new(),
        level: 0,
        channels: 2,
        channel_layout: String::new(),
        sample_rate_khz: "48".to_string(),
        lang: String::new(),
        title: String::new(),
    }
}

fn h264(index: u32) -> ProbeStream {
    let mut s = stream(index, "video", "h264");
    s.width = 1920;
    s.height = 1080;
    s.pix_fmt = "yuv420p".to_string();
    s.profile = "High".to_string();
    s.level = 40;
    s
}

#[test]
fn compatible_h264_is_copied() {
    let d = decide_tracks(&vec![h264(0)]).ok().unwrap();
    assert!(!d.video.encode);
    assert_eq!(d.video.index, 0);
    assert_eq!(d.streams[0].action, "copy");
    assert_eq!(d.streams[0].target, "");
    assert_eq!(d.streams[0].detail, "1920×1080 · yuv420p · high");
    assert_eq!(d.streams[0].reason, "compatible, copied without re-encoding");
    assert_eq!(d.pixels, 1920 * 1080);
}

#[test]
fn hi10p_hevc_at_a_high_level_is_reencoded_with_every_reason() {
    let mut s = stream(0, "video", "hevc");
    s.pix_fmt = "yuv420p10le".to_string();
    s.profile = "Main 10".to_string();
    s.level = 153;
    let d = decide_tracks(&vec![s]).ok().unwrap();
    assert!(d.video.encode);
    assert_eq!(d.video.bitrate_k, 0);
    assert_eq!(d.streams[0].action, "convert");
    assert_eq!(d.streams[0].target, "H.264 High · 8-bit");
    assert_eq!(
        d.streams[0].reason,
        "hevc codec, the TV expects H.264; yuv420p10le (10-bit or high chroma) will not decode; \
         main 10 profile out of range; level 15.3 is above the supported 4.1 → H.264 High 8-bit"
    );
    assert_eq!(d.streams[0].detail, "0×0 · yuv420p10le · main 10");
    assert_eq!(d.pixels, 2_073_600);
}

#[test]
fn level_4_1_is_the_highest_copied() {
    let mut s = h264(0);
    s.level = 41;
    assert!(!decide_tracks(&vec![s.clone_like()]).ok().unwrap().video.encode);
    s.level = 42;
    let d = decide_tracks(&vec![s]).ok().unwrap();
    assert!(d.video.encode);
    assert_eq!(d.streams[0].reason, "level 4.2 is above the supported 4.1 → H.264 High 8-bit");
}

trait CloneLike {
    fn clone_like(&self) -> Self;
}

impl CloneLike for ProbeStream {
    fn clone_like(&self) -> Self {
        ProbeStream {
            index: self.index,
            kind: self.kind.clone(),
            codec: self.codec.clone(),
            width: self.width,
            height: self.height,
            pix_fmt: self.pix_fmt.clone(),
            profile: self.profile.clone(),
            level: self.level,
            channels: self.channels,
            channel_layout: self.channel_layout.clone(),
            sample_rate_khz: self.sample_rate_khz.clone(),
            lang: self.lang.clone(),
            title: self.title.clone(),
        }
    }
}

#[test]
fn only_the_first_video_track_is_kept() {
    let d = decide_tracks(&vec![stream(0, "video", "mjpeg"), h264(1)]).ok().unwrap();
    assert_eq!(d.video.index, 0);
    assert!(d.video.encode);
    assert_eq!(d.streams.len(), 2);
    assert_eq!(d.streams[1].action, "drop");
    assert_eq!(d.streams[1].detail, "secondary video track / cover art");
    assert_eq!(d.streams[1].reason, "an MP4 carries a single video track");
}

#[test]
fn no_video_is_an_error() {
    let r = decide_tracks(&vec![stream(0, "audio", "aac")]);
    assert_eq!(r.err().unwrap(), "the file has no video track");
    assert_eq!(decide_tracks(&vec![]).err().unwrap(), "the file has no video track");
}

#[test]
fn audio_follows_the_table() {
    let mut dts = stream(2, "audio", "dts");
    dts.channels = 6;
    dts.channel_layout = "5.1(side)".to_string();
    let mut flac = stream(3, "audio", "flac");
    flac.channels = 1;
    flac.sample_rate_khz = "44".to_string();
    let mut opus = stream(4, "audio", "opus");
    opus.channels = 4;
    let d = decide_tracks(&vec![h264(0), stream(1, "audio", "aac"), dts, flac, opus]).ok().unwrap();
    assert_eq!(d.audios.len(), 4);
    assert!(d.audios[0].copy);
    assert_eq!(d.audios[0].codec, "copy");
    assert_eq!(d.audios[0].bits, None);
    assert_eq!(d.streams[1].detail, "2 canales · 48 kHz");
    assert_eq!(d.streams[1].reason, "the TV plays it as it is");
    assert_eq!((d.audios[1].codec.as_str(), d.audios[1].bitrate.as_str(), d.audios[1].channels), ("ac3", "640k", 6));
    assert_eq!(d.audios[1].bits, Some(640_000));
    assert_eq!(d.streams[2].detail, "5.1(side) · 48 kHz");
    assert_eq!(d.streams[2].target, "ac3 640k · 6 canales");
    assert_eq!(d.streams[2].reason, "dts is not compatible → ac3 640k 6 channels");
    assert_eq!((d.audios[2].codec.as_str(), d.audios[2].channels), ("aac", 1));
    assert_eq!(d.streams[3].detail, "1 canales · 44 kHz");
    assert_eq!((d.audios[3].codec.as_str(), d.audios[3].bitrate.as_str(), d.audios[3].channels), ("aac", "192k", 2));
    assert_eq!(d.audios[3].bits, Some(192_000));
}

#[test]
fn text_subtitles_are_extracted_and_bitmaps_dropped() {
    let mut srt = stream(1, "subtitle", "subrip");
    srt.lang = "spa".to_string();
    let d = decide_tracks(&vec![h264(0), srt, stream(2, "subtitle", "hdmv_pgs_subtitle"), stream(3, "subtitle", "ass"), stream(4, "data", "bin")]).ok().unwrap();
    assert_eq!(d.subs.len(), 2);
    assert_eq!((d.subs[0].index, d.subs[0].lang.as_str()), (1, "spa"));
    assert_eq!((d.subs[1].index, d.subs[1].lang.as_str()), (3, "und"));
    assert_eq!(d.streams.len(), 4);
    assert_eq!(d.streams[1].action, "extract");
    assert_eq!(d.streams[1].target, ".srt");
    assert_eq!(d.streams[1].detail, "texto");
    assert_eq!(d.streams[2].action, "unsupported");
    assert_eq!(d.streams[2].detail, "image (bitmap)");
    assert_eq!(d.streams[2].reason, "a bitmap cannot become .srt without OCR");
    assert_eq!(d.warnings.len(), 1);
    assert_eq!(
        d.warnings[0],
        "Subtitle track 2 (hdmv_pgs_subtitle) is an image: it would need OCR to become .srt, so it is dropped."
    );
}

#[test]
fn a_compatible_file_with_an_image_subtitle_still_warns() {
    let mut d = decide_tracks(&vec![h264(0), stream(1, "audio", "aac"), stream(2, "subtitle", "hdmv_pgs_subtitle")]).ok().unwrap();
    d.add_closing_warnings();
    assert!(d.subs.is_empty());
    assert_eq!(d.streams[2].action, "unsupported");
    assert_eq!(d.warnings.len(), 1);
}

#[test]
fn a_cap_forces_a_reencode_and_says_why() {
    let mut d = decide_tracks(&vec![h264(0)]).ok().unwrap();
    d.set_target_bitrate(5000);
    assert_eq!(d.video.bitrate_k, 0);
    d.cap_video(1200, "4 GB");
    assert!(d.video.encode && d.video.capped);
    assert_eq!(d.video.bitrate_k, 1200);
    assert_eq!(d.streams[0].action, "convert");
    assert_eq!(d.streams[0].target, "H.264 High · 1200 kbps");
    assert_eq!(d.streams[0].reason, "does not fit in 4 GB: re-encoded to 1200 kbps so it will");
    assert_eq!(d.warnings.len(), 1);
    assert_eq!(
        d.warnings[0],
        "Fitting into 4 GB means dropping the video to 1200 kbps, far too little for this \
         resolution: expect visible blocking. Consider an exFAT drive, which has no 4 GB limit."
    );
    d.add_closing_warnings();
    assert_eq!(d.warnings.len(), 3);
    assert_eq!(d.warnings[1], "The file has no audio. The MP4 will be silent.");
    assert_eq!(
        d.warnings[2],
        "The video has to be re-encoded: this takes considerably longer than a remux and loses some quality."
    );
}

#[test]
fn a_generous_cap_gives_no_quality_warning() {
    let mut small = h264(0);
    small.width = 640;
    small.height = 360;
    let mut d = decide_tracks(&vec![small, stream(1, "audio", "aac")]).ok().unwrap();
    d.cap_video(900, "4 GB");
    assert!(d.warnings.is_empty());
    d.set_target_bitrate(950);
    assert_eq!(d.video.bitrate_k, 950);
    d.add_closing_warnings();
    assert_eq!(d.warnings.len(), 1);
}

#[test]
fn plans_remember_where_their_stream_stands() {
    let d = decide_tracks(&vec![stream(0, "data", "bin"), h264(5), stream(7, "audio", "flac")]).ok().unwrap();
    assert_eq!(d.video.position, 1);
    assert_eq!(d.video.index, 5);
    assert_eq!(d.audios[0].position, 2);
    assert_eq!(d.audios[0].index, 7);
}

#[test]
fn eac3_is_transcoded_to_ac3_on_purpose() {
    let mut eac3 = stream(1, "audio", "eac3");
    eac3.channels = 6;
    let mut stereo_pcm = stream(2, "audio", "pcm_s16le");
    stereo_pcm.channels = 2;
    let d = decide_tracks(&vec![h264(0), eac3, stereo_pcm]).ok().unwrap();
    assert_eq!((d.audios[0].codec.as_str(), d.audios[0].bitrate.as_str(), d.audios[0].channels), ("ac3", "640k", 6));
    assert_eq!((d.audios[1].codec.as_str(), d.audios[1].bitrate.as_str(), d.audios[1].channels), ("aac", "192k", 2));
    assert!(!d.video.encode);
}

#[test]
fn every_audio_track_keeps_its_language() {
    let mut a = stream(1, "audio", "aac");
    a.lang = "spa".to_string();
    let mut b = stream(2, "audio", "ac3");
    b.lang = "eng".to_string();
    b.title = "Commentary".to_string();
    let d = decide_tracks(&vec![h264(0), a, b]).ok().unwrap();
    assert_eq!(d.audios.len(), 2);
    assert_eq!(d.streams[1].lang, "spa");
    assert_eq!(d.streams[2].lang, "eng");
    assert_eq!(d.streams[2].title, "Commentary");
}

#[test]
fn the_container_is_the_first_format_name() {
    assert_eq!(container_name("matroska,webm"), "matroska");
    assert_eq!(container_name("mov,mp4,m4a,3gp,3g2,mj2"), "mov");
    assert_eq!(container_name("avi"), "avi");
    assert_eq!(container_name("?"), "?");
}
