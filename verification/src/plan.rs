//! The per-track decisions: what happens to each stream of the source file
//! on its way to an MP4 that the lowest common denominator of TVs with a USB
//! port can play.
//!
//! | Track    | Condition                                            | Action                  |
//! |----------|------------------------------------------------------|-------------------------|
//! | Video    | H.264, `yuv420p`, profile up to High, level ≤ 4.1     | copied                  |
//! | Video    | anything else                                        | re-encoded, H.264 8-bit |
//! | Video    | second track or cover art                            | dropped                 |
//! | Audio    | AAC, AC3, MP3                                        | copied                  |
//! | Audio    | anything else, 6 channels or more                    | AC3 640k 5.1            |
//! | Audio    | anything else, fewer                                 | AAC 192k stereo         |
//! | Subtitle | text                                                 | extracted to `.srt`     |
//! | Subtitle | bitmap                                               | dropped                 |
//!
//! Sizes, bitrates and time estimates are floating-point figures and are
//! worked out by the application around this library; what they decide (a
//! target bitrate, a cap) comes back here through `Decisions`' methods.

use vstd::prelude::*;
use crate::text::{
    decimal, folded, join, join_strings, lowercased, owned, push_decimal, push_str, str_eq,
    views, chars_of, find_char, position, slice_chars, string_of,
};

verus! {

/// Highest H.264 level guaranteed on older TVs, times ten (4.1 = 1080p30).
pub const MAX_LEVEL: i64 = 41;

/// One stream of the source file, as ffprobe describes it, reduced to what
/// the decisions read. Missing fields are filled the way the prober reads
/// them: `kind` and `pix_fmt`/`profile`/`lang`/`title`/`channel_layout`
/// empty, `codec` `?`, numbers 0 except `channels`, which defaults to 2.
pub struct ProbeStream {
    pub index: u32,
    /// `codec_type`: `video`, `audio`, `subtitle`, ...
    pub kind: String,
    pub codec: String,
    pub width: u32,
    pub height: u32,
    pub pix_fmt: String,
    /// The H.264 profile as declared, in any case.
    pub profile: String,
    pub level: i64,
    pub channels: u32,
    pub channel_layout: String,
    /// The sample rate in kHz, already rendered without decimals.
    pub sample_rate_khz: String,
    pub lang: String,
    pub title: String,
}

/// The content of a `ProbeStream`.
pub struct StreamFacts {
    pub index: u32,
    pub kind: Seq<char>,
    pub codec: Seq<char>,
    pub width: u32,
    pub height: u32,
    pub pix_fmt: Seq<char>,
    pub profile: Seq<char>,
    pub level: i64,
    pub channels: u32,
    pub channel_layout: Seq<char>,
    pub sample_rate_khz: Seq<char>,
    pub lang: Seq<char>,
    pub title: Seq<char>,
}

impl View for ProbeStream {
    type V = StreamFacts;

    open spec fn view(&self) -> StreamFacts {
        StreamFacts {
            index: self.index,
            kind: self.kind@,
            codec: self.codec@,
            width: self.width,
            height: self.height,
            pix_fmt: self.pix_fmt@,
            profile: self.profile@,
            level: self.level,
            channels: self.channels,
            channel_layout: self.channel_layout@,
            sample_rate_khz: self.sample_rate_khz@,
            lang: self.lang@,
            title: self.title@,
        }
    }
}

/// What the interface shows for one track: what it is and what will happen
/// to it. `action` is one of `copy`, `convert`, `extract`, `drop`,
/// `unsupported`; `target` says what it converts to, so the route can be
/// drawn without parsing `reason`.
pub struct StreamInfo {
    pub index: u32,
    pub kind: String,
    pub codec: String,
    pub detail: String,
    pub lang: String,
    pub title: String,
    pub action: String,
    pub reason: String,
    pub target: String,
}

/// The content of a `StreamInfo`.
pub struct InfoView {
    pub index: u32,
    pub kind: Seq<char>,
    pub codec: Seq<char>,
    pub detail: Seq<char>,
    pub lang: Seq<char>,
    pub title: Seq<char>,
    pub action: Seq<char>,
    pub reason: Seq<char>,
    pub target: Seq<char>,
}

impl View for StreamInfo {
    type V = InfoView;

    open spec fn view(&self) -> InfoView {
        InfoView {
            index: self.index,
            kind: self.kind@,
            codec: self.codec@,
            detail: self.detail@,
            lang: self.lang@,
            title: self.title@,
            action: self.action@,
            reason: self.reason@,
            target: self.target@,
        }
    }
}

/// Pixel formats any TV decoder accepts.
pub open spec fn ok_pix(p: Seq<char>) -> bool {
    p == "yuv420p"@ || p == "yuvj420p"@
}

/// Safe H.264 profiles (lowercase). Hi10P, 4:2:2 and 4:4:4 are left out.
pub open spec fn ok_profile(p: Seq<char>) -> bool {
    ||| p == "baseline"@
    ||| p == "constrained baseline"@
    ||| p == "main"@
    ||| p == "high"@
    ||| p == "constrained high"@
}

/// Audio codecs that go into the MP4 untouched.
pub open spec fn ok_audio(c: Seq<char>) -> bool {
    c == "aac"@ || c == "ac3"@ || c == "mp3"@
}

/// Text subtitle codecs, convertible to `.srt`.
pub open spec fn text_subtitle(c: Seq<char>) -> bool {
    ||| c == "subrip"@
    ||| c == "ass"@
    ||| c == "ssa"@
    ||| c == "mov_text"@
    ||| c == "webvtt"@
    ||| c == "text"@
}

/// Why the video track cannot be copied, one sentence per problem; empty
/// when it can.
pub open spec fn video_problems(s: StreamFacts) -> Seq<Seq<char>> {
    let prof = folded(s.profile);
    (if s.codec != "h264"@ {
        seq![s.codec + " codec, the TV expects H.264"@]
    } else {
        Seq::empty()
    }) + (if s.pix_fmt.len() > 0 && !ok_pix(s.pix_fmt) {
        seq![s.pix_fmt + " (10-bit or high chroma) will not decode"@]
    } else {
        Seq::empty()
    }) + (if prof.len() > 0 && !ok_profile(prof) {
        seq![prof + " profile out of range"@]
    } else {
        Seq::empty()
    }) + (if s.level > MAX_LEVEL {
        seq![
            "level "@ + decimal((s.level / 10) as nat) + "."@ + decimal((s.level % 10) as nat)
                + " is above the supported 4.1"@,
        ]
    } else {
        Seq::empty()
    })
}

/// `s`, or `?` when it is empty.
pub open spec fn or_unknown(s: Seq<char>) -> Seq<char> {
    if s.len() == 0 {
        "?"@
    } else {
        s
    }
}

/// The row for the main video track.
pub open spec fn video_info(s: StreamFacts) -> InfoView {
    let problems = video_problems(s);
    let encode = problems.len() > 0;
    InfoView {
        index: s.index,
        kind: s.kind,
        codec: s.codec,
        detail: decimal(s.width as nat) + "×"@ + decimal(s.height as nat) + " · "@ + or_unknown(
            s.pix_fmt,
        ) + " · "@ + or_unknown(folded(s.profile)),
        lang: s.lang,
        title: s.title,
        action: if encode {
            "convert"@
        } else {
            "copy"@
        },
        reason: if encode {
            join(problems, "; "@) + " → H.264 High 8-bit"@
        } else {
            "compatible, copied without re-encoding"@
        },
        target: if encode {
            "H.264 High · 8-bit"@
        } else {
            Seq::empty()
        },
    }
}


fn is_ok_pix(p: &str) -> (r: bool)
    ensures
        r == ok_pix(p@),
{
    str_eq(p, "yuv420p") || str_eq(p, "yuvj420p")
}

fn is_ok_profile(p: &str) -> (r: bool)
    ensures
        r == ok_profile(p@),
{
    str_eq(p, "baseline") || str_eq(p, "constrained baseline") || str_eq(p, "main") || str_eq(
        p,
        "high",
    ) || str_eq(p, "constrained high")
}

fn is_ok_audio(c: &str) -> (r: bool)
    ensures
        r == ok_audio(c@),
{
    str_eq(c, "aac") || str_eq(c, "ac3") || str_eq(c, "mp3")
}

fn is_text_subtitle(c: &str) -> (r: bool)
    ensures
        r == text_subtitle(c@),
{
    str_eq(c, "subrip") || str_eq(c, "ass") || str_eq(c, "ssa") || str_eq(c, "mov_text")
        || str_eq(c, "webvtt") || str_eq(c, "text")
}

/// `s` with `tail` after it.
fn concat(s: &str, tail: &str) -> (r: String)
    ensures
        r@ == s@ + tail@,
{
    let mut out = owned(s);
    push_str(&mut out, tail);
    out
}

/// Why the video track `s` cannot be copied; empty when it can.
pub fn video_problems_of(s: &ProbeStream) -> (r: Vec<String>)
    ensures
        views(r@) == video_problems(s@),
{
    let ghost f = s@;
    let ghost prof_l = folded(f.profile);
    let mut problems: Vec<String> = Vec::new();
    if !str_eq(s.codec.as_str(), "h264") {
        problems.push(concat(s.codec.as_str(), " codec, the TV expects H.264"));
    }
    let ghost p1 = views(problems@);
    assert(p1 =~= (if f.codec != "h264"@ {
        seq![f.codec + " codec, the TV expects H.264"@]
    } else {
        Seq::empty()
    }));
    if !s.pix_fmt.as_str().is_empty() && !is_ok_pix(s.pix_fmt.as_str()) {
        problems.push(concat(s.pix_fmt.as_str(), " (10-bit or high chroma) will not decode"));
    }
    let ghost p2 = views(problems@);
    assert(p2 =~= p1 + (if f.pix_fmt.len() > 0 && !ok_pix(f.pix_fmt) {
        seq![f.pix_fmt + " (10-bit or high chroma) will not decode"@]
    } else {
        Seq::empty()
    }));
    let profile = lowercased(s.profile.as_str());
    if !profile.as_str().is_empty() && !is_ok_profile(profile.as_str()) {
        problems.push(concat(profile.as_str(), " profile out of range"));
    }
    let ghost p3 = views(problems@);
    assert(p3 =~= p2 + (if prof_l.len() > 0 && !ok_profile(prof_l) {
        seq![prof_l + " profile out of range"@]
    } else {
        Seq::empty()
    }));
    if s.level > MAX_LEVEL {
        let mut m = owned("level ");
        push_decimal(&mut m, (s.level / 10) as u64);
        push_str(&mut m, ".");
        push_decimal(&mut m, (s.level % 10) as u64);
        push_str(&mut m, " is above the supported 4.1");
        problems.push(m);
    }
    assert(views(problems@) =~= p3 + (if f.level > MAX_LEVEL {
        seq![
            "level "@ + decimal((f.level / 10) as nat) + "."@ + decimal((f.level % 10) as nat)
                + " is above the supported 4.1"@,
        ]
    } else {
        Seq::empty()
    }));
    problems
}


/// `s`, or `?` when it is empty.
fn or_unknown_of(s: &str) -> (r: String)
    ensures
        r@ == or_unknown(s@),
{
    if s.is_empty() {
        owned("?")
    } else {
        owned(s)
    }
}

/// The row for the main video track `s`, and whether it must be re-encoded.
pub fn video_info_of(s: &ProbeStream) -> (r: (StreamInfo, bool))
    ensures
        r.0@ == video_info(s@),
        r.1 == (video_problems(s@).len() > 0),
{
    let problems = video_problems_of(s);
    let encode = problems.len() > 0;
    let profile = lowercased(s.profile.as_str());
    let mut detail = String::new();
    push_decimal(&mut detail, s.width as u64);
    push_str(&mut detail, "×");
    push_decimal(&mut detail, s.height as u64);
    push_str(&mut detail, " · ");
    let pix = or_unknown_of(s.pix_fmt.as_str());
    push_str(&mut detail, pix.as_str());
    push_str(&mut detail, " · ");
    let prof = or_unknown_of(profile.as_str());
    push_str(&mut detail, prof.as_str());
    let reason = if encode {
        let mut r = join_strings(&problems, "; ");
        push_str(&mut r, " → H.264 High 8-bit");
        r
    } else {
        owned("compatible, copied without re-encoding")
    };
    let info = StreamInfo {
        index: s.index,
        kind: s.kind.clone(),
        codec: s.codec.clone(),
        detail,
        lang: s.lang.clone(),
        title: s.title.clone(),
        action: if encode {
            owned("convert")
        } else {
            owned("copy")
        },
        reason,
        target: if encode {
            owned("H.264 High · 8-bit")
        } else {
            String::new()
        },
    };
    assert(info@.detail =~= video_info(s@).detail);
    assert(info@.reason =~= video_info(s@).reason);
    assert(info@.target =~= video_info(s@).target);
    (info, encode)
}

/// The row for a video track after the first one, or for embedded cover
/// art: dropped, since an MP4 carries a single video track.
pub open spec fn secondary_video_info(s: StreamFacts) -> InfoView {
    InfoView {
        index: s.index,
        kind: s.kind,
        codec: s.codec,
        detail: "secondary video track / cover art"@,
        lang: s.lang,
        title: s.title,
        action: "drop"@,
        reason: "an MP4 carries a single video track"@,
        target: Seq::empty(),
    }
}

fn secondary_video_info_of(s: &ProbeStream) -> (r: StreamInfo)
    ensures
        r@ == secondary_video_info(s@),
{
    let info = StreamInfo {
        index: s.index,
        kind: s.kind.clone(),
        codec: s.codec.clone(),
        detail: owned("secondary video track / cover art"),
        lang: s.lang.clone(),
        title: s.title.clone(),
        action: owned("drop"),
        reason: owned("an MP4 carries a single video track"),
        target: String::new(),
    };
    assert(info@.target =~= Seq::<char>::empty());
    info
}

/// What happens to one audio track: `copy`, or the codec, bitrate and
/// channel count it is converted to. `bits` is the bitrate of a converted
/// track in the output, in bits per second; a copied track keeps the
/// source's.
pub struct AudioPlan {
    /// Where the track stands in the list of streams.
    pub position: usize,
    pub index: u32,
    pub copy: bool,
    pub codec: String,
    pub bitrate: String,
    pub channels: u32,
    pub bits: Option<u32>,
}

/// The content of an `AudioPlan`.
pub struct AudioView {
    pub position: usize,
    pub index: u32,
    pub copy: bool,
    pub codec: Seq<char>,
    pub bitrate: Seq<char>,
    pub channels: u32,
    pub bits: Option<u32>,
}

impl View for AudioPlan {
    type V = AudioView;

    open spec fn view(&self) -> AudioView {
        AudioView {
            position: self.position,
            index: self.index,
            copy: self.copy,
            codec: self.codec@,
            bitrate: self.bitrate@,
            channels: self.channels,
            bits: self.bits,
        }
    }
}

/// The codec a track that cannot be copied is converted to: AC3 from 6
/// channels up, AAC below.
pub open spec fn converted_codec(s: StreamFacts) -> Seq<char> {
    if s.channels >= 6 {
        "ac3"@
    } else {
        "aac"@
    }
}

/// The bitrate of that conversion, as ffmpeg writes it.
pub open spec fn converted_bitrate(s: StreamFacts) -> Seq<char> {
    if s.channels >= 6 {
        "640k"@
    } else {
        "192k"@
    }
}

/// The channel count of that conversion: 5.1, or at most stereo.
pub open spec fn converted_channels(s: StreamFacts) -> u32 {
    if s.channels >= 6 {
        6
    } else if s.channels < 2 {
        s.channels
    } else {
        2
    }
}

/// The bitrate of that conversion in bits per second.
pub open spec fn converted_bits(s: StreamFacts) -> u32 {
    if s.channels >= 6 {
        640_000
    } else {
        192_000
    }
}

/// The plan for the audio track `s`, which stands at `position` among the
/// streams: AAC, AC3 and MP3 are copied; anything else with 6 channels or
/// more becomes AC3 640k 5.1, and anything else becomes AAC 192k with at
/// most 2 channels.
pub open spec fn audio_plan(s: StreamFacts, position: usize) -> AudioView {
    if ok_audio(s.codec) {
        AudioView {
            position,
            index: s.index,
            copy: true,
            codec: "copy"@,
            bitrate: Seq::empty(),
            channels: s.channels,
            bits: None,
        }
    } else {
        AudioView {
            position,
            index: s.index,
            copy: false,
            codec: converted_codec(s),
            bitrate: converted_bitrate(s),
            channels: converted_channels(s),
            bits: Some(converted_bits(s)),
        }
    }
}

/// The row for the audio track `s`.
pub open spec fn audio_info(s: StreamFacts) -> InfoView {
    let copy = ok_audio(s.codec);
    InfoView {
        index: s.index,
        kind: s.kind,
        codec: s.codec,
        detail: (if s.channel_layout.len() == 0 {
            decimal(s.channels as nat) + " canales"@
        } else {
            s.channel_layout
        }) + " · "@ + s.sample_rate_khz + " kHz"@,
        lang: s.lang,
        title: s.title,
        action: if copy {
            "copy"@
        } else {
            "convert"@
        },
        reason: if copy {
            "the TV plays it as it is"@
        } else {
            s.codec + " is not compatible → "@ + converted_codec(s) + " "@ + converted_bitrate(s)
                + " "@ + decimal(converted_channels(s) as nat) + " channels"@
        },
        target: if copy {
            Seq::empty()
        } else {
            converted_codec(s) + " "@ + converted_bitrate(s) + " · "@ + decimal(
                converted_channels(s) as nat,
            ) + " canales"@
        },
    }
}

/// The plan for the audio track `s`.
pub fn audio_plan_of(s: &ProbeStream, position: usize) -> (r: AudioPlan)
    ensures
        r@ == audio_plan(s@, position),
{
    if is_ok_audio(s.codec.as_str()) {
        let p = AudioPlan {
            position,
            index: s.index,
            copy: true,
            codec: owned("copy"),
            bitrate: String::new(),
            channels: s.channels,
            bits: None,
        };
        assert(p@.bitrate =~= Seq::<char>::empty());
        p
    } else if s.channels >= 6 {
        AudioPlan {
            position,
            index: s.index,
            copy: false,
            codec: owned("ac3"),
            bitrate: owned("640k"),
            channels: 6,
            bits: Some(640_000),
        }
    } else {
        AudioPlan {
            position,
            index: s.index,
            copy: false,
            codec: owned("aac"),
            bitrate: owned("192k"),
            channels: if s.channels < 2 {
                s.channels
            } else {
                2
            },
            bits: Some(192_000),
        }
    }
}

/// The row for the audio track `s`, whose plan is `p`.
fn audio_info_of(s: &ProbeStream, p: &AudioPlan) -> (r: StreamInfo)
    requires
        p@ == audio_plan(s@, p.position),
    ensures
        r@ == audio_info(s@),
{
    let mut detail = if s.channel_layout.as_str().is_empty() {
        let mut d = String::new();
        push_decimal(&mut d, s.channels as u64);
        push_str(&mut d, " canales");
        d
    } else {
        s.channel_layout.clone()
    };
    push_str(&mut detail, " · ");
    push_str(&mut detail, s.sample_rate_khz.as_str());
    push_str(&mut detail, " kHz");
    let reason = if p.copy {
        owned("the TV plays it as it is")
    } else {
        let mut r = concat(s.codec.as_str(), " is not compatible → ");
        push_str(&mut r, p.codec.as_str());
        push_str(&mut r, " ");
        push_str(&mut r, p.bitrate.as_str());
        push_str(&mut r, " ");
        push_decimal(&mut r, p.channels as u64);
        push_str(&mut r, " channels");
        r
    };
    let target = if p.copy {
        String::new()
    } else {
        let mut t = p.codec.clone();
        push_str(&mut t, " ");
        push_str(&mut t, p.bitrate.as_str());
        push_str(&mut t, " · ");
        push_decimal(&mut t, p.channels as u64);
        push_str(&mut t, " canales");
        t
    };
    let info = StreamInfo {
        index: s.index,
        kind: s.kind.clone(),
        codec: s.codec.clone(),
        detail,
        lang: s.lang.clone(),
        title: s.title.clone(),
        action: if p.copy {
            owned("copy")
        } else {
            owned("convert")
        },
        reason,
        target,
    };
    assert(info@.detail =~= audio_info(s@).detail);
    assert(info@.reason =~= audio_info(s@).reason);
    assert(info@.target =~= audio_info(s@).target);
    info
}

/// A text subtitle track to extract, and the language that names its file.
pub struct SubPlan {
    pub index: u32,
    pub lang: String,
}

/// The content of a `SubPlan`.
pub struct SubView {
    pub index: u32,
    pub lang: Seq<char>,
}

impl View for SubPlan {
    type V = SubView;

    open spec fn view(&self) -> SubView {
        SubView { index: self.index, lang: self.lang@ }
    }
}

/// The language that names the extracted file: `und` when none is declared.
pub open spec fn subtitle_lang(s: StreamFacts) -> Seq<char> {
    if s.lang.len() == 0 {
        "und"@
    } else {
        s.lang
    }
}

/// The row for the subtitle track `s`: text is extracted to `.srt`; a bitmap
/// cannot become `.srt` without OCR and is left out.
pub open spec fn subtitle_info(s: StreamFacts) -> InfoView {
    let text = text_subtitle(s.codec);
    InfoView {
        index: s.index,
        kind: s.kind,
        codec: s.codec,
        detail: if text {
            "texto"@
        } else {
            "image (bitmap)"@
        },
        lang: s.lang,
        title: s.title,
        action: if text {
            "extract"@
        } else {
            "unsupported"@
        },
        reason: if text {
            "comes out as .srt next to the video"@
        } else {
            "a bitmap cannot become .srt without OCR"@
        },
        target: if text {
            ".srt"@
        } else {
            Seq::empty()
        },
    }
}

fn subtitle_info_of(s: &ProbeStream) -> (r: (StreamInfo, bool))
    ensures
        r.0@ == subtitle_info(s@),
        r.1 == text_subtitle(s@.codec),
{
    let text = is_text_subtitle(s.codec.as_str());
    let info = StreamInfo {
        index: s.index,
        kind: s.kind.clone(),
        codec: s.codec.clone(),
        detail: if text {
            owned("texto")
        } else {
            owned("image (bitmap)")
        },
        lang: s.lang.clone(),
        title: s.title.clone(),
        action: if text {
            owned("extract")
        } else {
            owned("unsupported")
        },
        reason: if text {
            owned("comes out as .srt next to the video")
        } else {
            owned("a bitmap cannot become .srt without OCR")
        },
        target: if text {
            owned(".srt")
        } else {
            String::new()
        },
    };
    assert(info@.target =~= subtitle_info(s@).target);
    (info, text)
}


/// What happens to the video track. `bitrate_k` is the target bitrate in
/// kbps of a re-encode, set once the sizes are known (0 until then);
/// `capped` says it is a limit to respect, not a rough reference.
pub struct VideoPlan {
    /// Where the track stands in the list of streams.
    pub position: usize,
    pub index: u32,
    pub encode: bool,
    pub bitrate_k: u32,
    pub capped: bool,
}

/// The decisions gathered over the streams read so far: the rows, the main
/// video track (its position, its index and whether it is re-encoded), its
/// pixel count,
/// the audio and subtitle plans, each in stream order, and the warnings
/// raised while reading.
pub struct Draft {
    pub infos: Seq<InfoView>,
    pub video: Option<(usize, u32, bool)>,
    pub pixels: nat,
    pub audios: Seq<AudioView>,
    pub subs: Seq<SubView>,
    pub warnings: Seq<Seq<char>>,
}

/// The warning given when the image subtitle track `s` is dropped.
pub open spec fn bitmap_warning(s: StreamFacts) -> Seq<char> {
    "Subtitle track "@ + decimal(s.index as nat) + " ("@ + s.codec
        + ") is an image: it would need OCR to become .srt, so it is dropped."@
}

/// 1920 × 1080, assumed when the video track declares no size.
pub open spec fn full_hd_pixels() -> nat {
    2_073_600
}

/// The pixel count of the video track `s`.
pub open spec fn frame_pixels(s: StreamFacts) -> nat {
    if s.width > 0 && s.height > 0 {
        (s.width * s.height) as nat
    } else {
        full_hd_pixels()
    }
}

/// `d` after reading the stream `s`, at `position`: the first video track is the one kept;
/// later ones and cover art are dropped; every audio track is kept; text
/// subtitles are extracted, image ones dropped with a warning; streams of
/// other kinds are ignored.
pub open spec fn step(d: Draft, s: StreamFacts, position: usize) -> Draft {
    if s.kind == "video"@ && d.video is None {
        Draft {
            infos: d.infos.push(video_info(s)),
            video: Some((position, s.index, video_problems(s).len() > 0)),
            pixels: frame_pixels(s),
            audios: d.audios,
            subs: d.subs,
            warnings: d.warnings,
        }
    } else if s.kind == "video"@ {
        Draft { infos: d.infos.push(secondary_video_info(s)), ..d }
    } else if s.kind == "audio"@ {
        Draft { infos: d.infos.push(audio_info(s)), audios: d.audios.push(audio_plan(s, position)), ..d }
    } else if s.kind == "subtitle"@ {
        Draft {
            infos: d.infos.push(subtitle_info(s)),
            subs: if text_subtitle(s.codec) {
                d.subs.push(SubView { index: s.index, lang: subtitle_lang(s) })
            } else {
                d.subs
            },
            warnings: if text_subtitle(s.codec) {
                d.warnings
            } else {
                d.warnings.push(bitmap_warning(s))
            },
            ..d
        }
    } else {
        d
    }
}

/// The decisions for the streams `ss`, read in order.
pub open spec fn draft_of(ss: Seq<StreamFacts>) -> Draft
    decreases ss.len(),
{
    if ss.len() == 0 {
        Draft {
            infos: Seq::empty(),
            video: None,
            pixels: full_hd_pixels(),
            audios: Seq::empty(),
            subs: Seq::empty(),
            warnings: Seq::empty(),
        }
    } else {
        step(draft_of(ss.drop_last()), ss.last(), (ss.len() - 1) as usize)
    }
}

/// The contents of a list of streams.
pub open spec fn stream_facts(v: Seq<ProbeStream>) -> Seq<StreamFacts> {
    v.map_values(|s: ProbeStream| s@)
}

/// The contents of a list of rows.
pub open spec fn info_views(v: Seq<StreamInfo>) -> Seq<InfoView> {
    v.map_values(|i: StreamInfo| i@)
}

/// The contents of a list of audio plans.
pub open spec fn audio_views(v: Seq<AudioPlan>) -> Seq<AudioView> {
    v.map_values(|a: AudioPlan| a@)
}

/// The contents of a list of subtitle plans.
pub open spec fn sub_views(v: Seq<SubPlan>) -> Seq<SubView> {
    v.map_values(|p: SubPlan| p@)
}

/// Everything decided about a file: a row per track for the interface, the
/// plan for the video, audio and subtitle tracks, the video's pixel count
/// and the warnings to show.
pub struct Decisions {
    pub streams: Vec<StreamInfo>,
    pub video: VideoPlan,
    pub audios: Vec<AudioPlan>,
    pub subs: Vec<SubPlan>,
    pub pixels: u64,
    pub warnings: Vec<String>,
}

/// `no video` error text.
pub open spec fn no_video_error() -> Seq<char> {
    "the file has no video track"@
}

/// Decides, track by track, what happens to each stream of the file.
/// Fails when the file has no video track. Each image subtitle track gives a
/// warning, since it is dropped. The video's target bitrate is not
/// set yet (0): it depends on sizes worked out around this library.
pub fn decide_tracks(streams: &Vec<ProbeStream>) -> (r: Result<Decisions, String>)
    ensures
        match r {
            Ok(d) => {
                let dr = draft_of(stream_facts(streams@));
                &&& dr.video == Some((d.video.position, d.video.index, d.video.encode))
                &&& d.video.bitrate_k == 0
                &&& !d.video.capped
                &&& info_views(d.streams@) == dr.infos
                &&& audio_views(d.audios@) == dr.audios
                &&& sub_views(d.subs@) == dr.subs
                &&& d.pixels == dr.pixels
                &&& views(d.warnings@) == dr.warnings
            },
            Err(e) => draft_of(stream_facts(streams@)).video is None && e@ == no_video_error(),
        },
{
    let ghost facts = stream_facts(streams@);
    let mut infos: Vec<StreamInfo> = Vec::new();
    let mut video: Option<(usize, u32, bool)> = None;
    let mut pixels: u64 = 2_073_600;
    let mut audios: Vec<AudioPlan> = Vec::new();
    let mut subs: Vec<SubPlan> = Vec::new();
    let mut warnings: Vec<String> = Vec::new();
    let mut i: usize = 0;
    assert(views(warnings@) =~= Seq::<Seq<char>>::empty());
    assert(facts.take(0) =~= Seq::<StreamFacts>::empty());
    assert(info_views(infos@) =~= Seq::<InfoView>::empty());
    assert(audio_views(audios@) =~= Seq::<AudioView>::empty());
    assert(sub_views(subs@) =~= Seq::<SubView>::empty());
    while i < streams.len()
        invariant
            i <= streams.len(),
            facts == stream_facts(streams@),
            draft_of(facts.take(i as int)) == (Draft {
                infos: info_views(infos@),
                video,
                pixels: pixels as nat,
                audios: audio_views(audios@),
                subs: sub_views(subs@),
                warnings: views(warnings@),
            }),
        decreases streams.len() - i,
    {
        let s = &streams[i];
        let ghost f = s@;
        let ghost before = draft_of(facts.take(i as int));
        assert(facts.take(i + 1).drop_last() =~= facts.take(i as int));
        assert(facts.take(i + 1).last() == f);
        if str_eq(s.kind.as_str(), "video") && video.is_none() {
            let (info, encode) = video_info_of(s);
            infos.push(info);
            video = Some((i, s.index, encode));
            pixels = if s.width > 0 && s.height > 0 {
                let w = s.width as u64;
                let h = s.height as u64;
                assert(w * h <= 0xffff_ffffu64 * 0xffff_ffffu64) by (nonlinear_arith)
                    requires
                        w <= 0xffff_ffffu64,
                        h <= 0xffff_ffffu64,
                ;
                w * h
            } else {
                2_073_600
            };
        } else if str_eq(s.kind.as_str(), "video") {
            infos.push(secondary_video_info_of(s));
        } else if str_eq(s.kind.as_str(), "audio") {
            let plan = audio_plan_of(s, i);
            infos.push(audio_info_of(s, &plan));
            audios.push(plan);
        } else if str_eq(s.kind.as_str(), "subtitle") {
            let (info, text) = subtitle_info_of(s);
            infos.push(info);
            if text {
                let lang = if s.lang.as_str().is_empty() {
                    owned("und")
                } else {
                    s.lang.clone()
                };
                subs.push(SubPlan { index: s.index, lang });
            } else {
                let mut w = owned("Subtitle track ");
                push_decimal(&mut w, s.index as u64);
                push_str(&mut w, " (");
                push_str(&mut w, s.codec.as_str());
                push_str(&mut w, ") is an image: it would need OCR to become .srt, so it is dropped.");
                let ghost wv = w@;
                warnings.push(w);
                assert(views(warnings@) =~= before.warnings.push(wv));
            }
        }
        assert(info_views(infos@) =~= step(before, f, i).infos);
        assert(audio_views(audios@) =~= step(before, f, i).audios);
        assert(sub_views(subs@) =~= step(before, f, i).subs);
        assert(views(warnings@) =~= step(before, f, i).warnings);
        i += 1;
    }
    assert(facts.take(streams.len() as int) =~= facts);
    match video {
        Some((position, index, encode)) => Ok(
            Decisions {
                streams: infos,
                video: VideoPlan { position, index, encode, bitrate_k: 0, capped: false },
                audios,
                subs,
                pixels,
                warnings,
            },
        ),
        None => Err(owned("the file has no video track")),
    }
}


/// The row of the video track once a size cap forces a re-encode.
pub open spec fn capped_info(i: InfoView, kbps: u32, limit: Seq<char>) -> InfoView {
    InfoView {
        action: "convert"@,
        target: "H.264 High · "@ + decimal(kbps as nat) + " kbps"@,
        reason: "does not fit in "@ + limit + ": re-encoded to "@ + decimal(kbps as nat)
            + " kbps so it will"@,
        ..i
    }
}

/// Below this bitrate, in kbps, video of `pixels` pixels genuinely looks bad.
pub open spec fn floor_kbps(pixels: nat) -> nat {
    if pixels > 1_000_000 {
        1800
    } else {
        900
    }
}

/// The warning given when fitting into `limit` takes the video down to
/// `kbps`, below what its resolution needs.
pub open spec fn low_bitrate_warning(limit: Seq<char>, kbps: u32) -> Seq<char> {
    "Fitting into "@ + limit + " means dropping the video to "@ + decimal(kbps as nat)
        + " kbps, far too little for this resolution: expect visible blocking. Consider an exFAT drive, which has no 4 GB limit."@
}

/// `k` is the first row of `infos` for the stream `index`.
pub open spec fn first_row(infos: Seq<InfoView>, index: u32, k: int) -> bool {
    &&& 0 <= k < infos.len()
    &&& infos[k].index == index
    &&& forall|j: int| 0 <= j < k ==> infos[j].index != index
}

/// `infos` after the first row for the stream `index` is rewritten for a
/// cap; unchanged when there is no such row.
pub open spec fn rows_after_cap(infos: Seq<InfoView>, index: u32, kbps: u32, limit: Seq<char>) -> Seq<
    InfoView,
> {
    if exists|k: int| first_row(infos, index, k) {
        let k = choose|k: int| first_row(infos, index, k);
        infos.update(k, capped_info(infos[k], kbps, limit))
    } else {
        infos
    }
}

/// Warning when the file has no audio.
pub open spec fn silent_warning() -> Seq<char> {
    "The file has no audio. The MP4 will be silent."@
}

/// Warning when the video has to be re-encoded.
pub open spec fn reencode_warning() -> Seq<char> {
    "The video has to be re-encoded: this takes considerably longer than a remux and loses some quality."@
}

/// The warnings added once every decision is taken.
pub open spec fn closing_warnings(no_audio: bool, encode: bool) -> Seq<Seq<char>> {
    (if no_audio {
        seq![silent_warning()]
    } else {
        Seq::empty()
    }) + (if encode {
        seq![reencode_warning()]
    } else {
        Seq::empty()
    })
}

impl Decisions {
    /// Sets the bitrate a re-encode aims at, in kbps. Only a re-encoded video
    /// has one; a copied video keeps the source's stream as it is.
    pub fn set_target_bitrate(&mut self, kbps: u32)
        ensures
            final(self).video.bitrate_k == (if old(self).video.encode {
                kbps
            } else {
                old(self).video.bitrate_k
            }),
            final(self).video.index == old(self).video.index,
            final(self).video.position == old(self).video.position,
            final(self).video.encode == old(self).video.encode,
            final(self).video.capped == old(self).video.capped,
            final(self).streams@ == old(self).streams@,
            final(self).audios@ == old(self).audios@,
            final(self).subs@ == old(self).subs@,
            final(self).pixels == old(self).pixels,
            final(self).warnings@ == old(self).warnings@,
    {
        if self.video.encode {
            self.video.bitrate_k = kbps;
        }
    }

    /// Caps the video to `kbps` so the file fits a size limit, described as
    /// `limit` in messages: the video is re-encoded even when its codec was
    /// fine, the bitrate becomes a target to respect, its row says why, and a
    /// warning is added when the bitrate is too low for the resolution.
    pub fn cap_video(&mut self, kbps: u32, limit: &str)
        ensures
            final(self).video.index == old(self).video.index,
            final(self).video.position == old(self).video.position,
            final(self).video.encode,
            final(self).video.bitrate_k == kbps,
            final(self).video.capped,
            info_views(final(self).streams@) == rows_after_cap(
                info_views(old(self).streams@),
                old(self).video.index,
                kbps,
                limit@,
            ),
            views(final(self).warnings@) == views(old(self).warnings@) + (if kbps < floor_kbps(
                old(self).pixels as nat,
            ) {
                seq![low_bitrate_warning(limit@, kbps)]
            } else {
                Seq::empty()
            }),
            final(self).audios@ == old(self).audios@,
            final(self).subs@ == old(self).subs@,
            final(self).pixels == old(self).pixels,
    {
        self.video.encode = true;
        self.video.bitrate_k = kbps;
        self.video.capped = true;
        let index = self.video.index;
        let ghost rows = info_views(self.streams@);
        let mut k: usize = 0;
        while k < self.streams.len() && self.streams[k].index != index
            invariant
                k <= self.streams.len(),
                rows == info_views(self.streams@),
                forall|j: int| 0 <= j < k ==> rows[j].index != index,
            decreases self.streams.len() - k,
        {
            k += 1;
        }
        if k < self.streams.len() {
            assert(first_row(rows, index, k as int));
            proof {
                let c = choose|c: int| first_row(rows, index, c);
                if c < k {
                    assert(rows[c].index != index);
                } else if k < c {
                    assert(rows[k as int].index != index);
                }
            }
            let old_row = &self.streams[k];
            let mut target = owned("H.264 High · ");
            push_decimal(&mut target, kbps as u64);
            push_str(&mut target, " kbps");
            let mut reason = owned("does not fit in ");
            push_str(&mut reason, limit);
            push_str(&mut reason, ": re-encoded to ");
            push_decimal(&mut reason, kbps as u64);
            push_str(&mut reason, " kbps so it will");
            let row = StreamInfo {
                index: old_row.index,
                kind: old_row.kind.clone(),
                codec: old_row.codec.clone(),
                detail: old_row.detail.clone(),
                lang: old_row.lang.clone(),
                title: old_row.title.clone(),
                action: owned("convert"),
                reason,
                target,
            };
            assert(row@ =~= capped_info(rows[k as int], kbps, limit@));
            self.streams.set(k, row);
            assert(info_views(self.streams@) =~= rows.update(k as int, row@));
        } else {
            assert(!exists|c: int| first_row(rows, index, c));
        }
        let floor: u32 = if self.pixels > 1_000_000 {
            1800
        } else {
            900
        };
        let ghost before = views(self.warnings@);
        if kbps < floor {
            let mut w = owned("Fitting into ");
            push_str(&mut w, limit);
            push_str(&mut w, " means dropping the video to ");
            push_decimal(&mut w, kbps as u64);
            push_str(
                &mut w,
                " kbps, far too little for this resolution: expect visible blocking. Consider an exFAT drive, which has no 4 GB limit.",
            );
            self.warnings.push(w);
        }
        assert(views(self.warnings@) =~= before + (if kbps < floor_kbps(self.pixels as nat) {
            seq![low_bitrate_warning(limit@, kbps)]
        } else {
            Seq::empty()
        }));
    }

    /// Adds the warnings that hold once every decision is taken: a file
    /// without audio gives a silent MP4, and a re-encode takes far longer
    /// than a remux and loses some quality.
    pub fn add_closing_warnings(&mut self)
        ensures
            views(final(self).warnings@) == views(old(self).warnings@) + closing_warnings(
                old(self).audios@.len() == 0,
                old(self).video.encode,
            ),
            final(self).streams@ == old(self).streams@,
            final(self).audios@ == old(self).audios@,
            final(self).subs@ == old(self).subs@,
            final(self).pixels == old(self).pixels,
            final(self).video == old(self).video,
    {
        let ghost before = views(self.warnings@);
        if self.audios.len() == 0 {
            self.warnings.push(owned("The file has no audio. The MP4 will be silent."));
        }
        if self.video.encode {
            self.warnings.push(
                owned(
                    "The video has to be re-encoded: this takes considerably longer than a remux and loses some quality.",
                ),
            );
        }
        assert(views(self.warnings@) =~= before + closing_warnings(
            self.audios@.len() == 0,
            self.video.encode,
        ));
    }
}


proof fn lemma_kinds_differ()
    ensures
        "audio"@ != "video"@,
        "subtitle"@ != "video"@,
        "subtitle"@ != "audio"@,
{
    reveal_strlit("audio");
    reveal_strlit("video");
    reveal_strlit("subtitle");
    assert("audio"@[0] != "video"@[0]);
    assert("subtitle"@[0] != "video"@[0]);
    assert("subtitle"@[0] != "audio"@[0]);
}

/// How many streams of `ss` satisfy `p`.
pub open spec fn count_where(ss: Seq<StreamFacts>, p: spec_fn(StreamFacts) -> bool) -> nat
    decreases ss.len(),
{
    if ss.len() == 0 {
        0
    } else {
        count_where(ss.drop_last(), p) + if p(ss.last()) {
            1nat
        } else {
            0nat
        }
    }
}

/// Law: every audio track is kept, converted or not.
pub proof fn law_every_audio_track_kept(ss: Seq<StreamFacts>)
    ensures
        draft_of(ss).audios.len() == count_where(ss, |s: StreamFacts| s.kind == "audio"@),
    decreases ss.len(),
{
    if ss.len() > 0 {
        lemma_kinds_differ();
        law_every_audio_track_kept(ss.drop_last());
    }
}

/// Law: every text subtitle track is extracted, and nothing else is.
pub proof fn law_text_subtitles_extracted(ss: Seq<StreamFacts>)
    ensures
        draft_of(ss).subs.len() == count_where(
            ss,
            |s: StreamFacts| s.kind == "subtitle"@ && text_subtitle(s.codec),
        ),
    decreases ss.len(),
{
    if ss.len() > 0 {
        lemma_kinds_differ();
        law_text_subtitles_extracted(ss.drop_last());
    }
}

/// Law: every image subtitle track is dropped with a warning of its own.
pub proof fn law_image_subtitles_warned(ss: Seq<StreamFacts>)
    ensures
        draft_of(ss).warnings.len() == count_where(
            ss,
            |s: StreamFacts| s.kind == "subtitle"@ && !text_subtitle(s.codec),
        ),
    decreases ss.len(),
{
    if ss.len() > 0 {
        lemma_kinds_differ();
        law_image_subtitles_warned(ss.drop_last());
    }
}

/// Law: the interface gets one row per video, audio or subtitle track, in
/// the order of the file.
pub proof fn law_one_row_per_track(ss: Seq<StreamFacts>)
    ensures
        draft_of(ss).infos.len() == count_where(
            ss,
            |s: StreamFacts| s.kind == "video"@ || s.kind == "audio"@ || s.kind == "subtitle"@,
        ),
    decreases ss.len(),
{
    if ss.len() > 0 {
        law_one_row_per_track(ss.drop_last());
    }
}

/// `j` is the first video stream of `ss`.
pub open spec fn first_video(ss: Seq<StreamFacts>, j: int) -> bool {
    &&& 0 <= j < ss.len()
    &&& ss[j].kind == "video"@
    &&& forall|k: int| 0 <= k < j ==> ss[k].kind != "video"@
}

/// Law: the MP4 takes a single video track, the first one of the file, and
/// it is re-encoded exactly when it has a problem; without a video track
/// there is no plan.
pub proof fn law_first_video_kept(ss: Seq<StreamFacts>)
    ensures
        draft_of(ss).video is None <==> (forall|k: int| 0 <= k < ss.len() ==> ss[k].kind != "video"@),
        forall|j: int|
            first_video(ss, j) ==> draft_of(ss).video == Some(
                (j as usize, ss[j].index, video_problems(ss[j]).len() > 0),
            ),
    decreases ss.len(),
{
    if ss.len() > 0 {
        let n = ss.len() - 1;
        let init = ss.drop_last();
        let last = ss.last();
        law_first_video_kept(init);
        let d0 = draft_of(init);
        assert(draft_of(ss) == step(d0, last, n as usize));
        assert(forall|k: int| 0 <= k < n ==> ss[k] == init[k]);
        if d0.video is None {
            assert(forall|k: int| 0 <= k < n ==> #[trigger] ss[k].kind != "video"@);
            if last.kind == "video"@ {
                assert(draft_of(ss).video == Some((n as usize, last.index, video_problems(last).len() > 0)));
                assert forall|j: int| first_video(ss, j) implies j == n by {
                    if j < n {
                        assert(ss[j].kind != "video"@);
                    }
                }
            } else {
                assert(draft_of(ss).video is None);
                assert forall|k: int| 0 <= k < ss.len() implies ss[k].kind != "video"@ by {
                    if k < n {
                        assert(ss[k] == init[k]);
                    }
                }
                assert forall|j: int| first_video(ss, j) implies false by {
                    if j < n {
                        assert(ss[j] == init[j]);
                    }
                }
            }
        } else {
            assert(draft_of(ss).video == d0.video);
            let k0 = choose|k: int| 0 <= k < n && init[k].kind == "video"@;
            assert(ss[k0].kind == "video"@);
            assert forall|j: int| first_video(ss, j) implies first_video(init, j) by {
                if j == n {
                    assert(ss[k0].kind != "video"@);
                }
            }
        }
    }
}

/// Law: a video track is copied untouched exactly when it is H.264, in a
/// pixel format every decoder takes (or none declared), with a profile up to
/// High (or none declared) and a level no higher than 4.1.
pub proof fn law_video_copied_iff_compatible(s: StreamFacts)
    ensures
        video_problems(s).len() == 0 <==> {
            &&& s.codec == "h264"@
            &&& s.pix_fmt.len() == 0 || ok_pix(s.pix_fmt)
            &&& folded(s.profile).len() == 0 || ok_profile(folded(s.profile))
            &&& s.level <= MAX_LEVEL
        },
{
}

/// `a` is a plan that an audio track can get.
pub open spec fn fits_tv(a: AudioView) -> bool {
    ||| a.copy && a.codec == "copy"@
    ||| !a.copy && a.codec == "ac3"@ && a.bitrate == "640k"@ && a.channels == 6
    ||| !a.copy && a.codec == "aac"@ && a.bitrate == "192k"@ && a.channels <= 2
}

/// Law: an audio track is either copied, or converted to AC3 640k 5.1 or
/// to AAC 192k with at most two channels; never anything else.
pub proof fn law_audio_fits_tv(ss: Seq<StreamFacts>)
    ensures
        forall|i: int| 0 <= i < draft_of(ss).audios.len() ==> fits_tv(#[trigger] draft_of(ss).audios[i]),
    decreases ss.len(),
{
    if ss.len() > 0 {
        lemma_kinds_differ();
        law_audio_fits_tv(ss.drop_last());
    }
}


/// The container named by ffprobe's `format_name`, which lists every name
/// the demuxer answers to (`matroska,webm`): the first one.
pub open spec fn container_of(format_name: Seq<char>) -> Seq<char> {
    match position(format_name, ',') {
        Some(k) => format_name.take(k),
        None => format_name,
    }
}

/// The container of the file, from ffprobe's `format_name`.
pub fn container_name(format_name: &str) -> (r: String)
    ensures
        r@ == container_of(format_name@),
{
    let v = chars_of(format_name);
    assert(v@.skip(0) =~= v@);
    match find_char(&v, 0, ',') {
        Some(k) => string_of(&slice_chars(&v, 0, k)),
        None => {
            assert(v@.subrange(0, v.len() as int) =~= v@);
            string_of(&slice_chars(&v, 0, v.len()))
        },
    }
}


/// Law: a main video track that is H.264, in `yuv420p` or `yuvj420p` (or
/// with no pixel format declared), with profile baseline, constrained
/// baseline, main, high or constrained high in any case (or none declared),
/// and a level no higher than 41 (4.1), is copied: reading it after streams
/// with no video track keeps it as the video, not re-encoded, and its row
/// says `copy`.
pub proof fn law_compatible_h264_copied(ss: Seq<StreamFacts>, s: StreamFacts)
    requires
        draft_of(ss).video is None,
        s.kind == "video"@,
        s.codec == "h264"@,
        s.pix_fmt.len() == 0 || s.pix_fmt == "yuv420p"@ || s.pix_fmt == "yuvj420p"@,
        folded(s.profile).len() == 0 || folded(s.profile) == "baseline"@ || folded(s.profile)
            == "constrained baseline"@ || folded(s.profile) == "main"@ || folded(s.profile)
            == "high"@ || folded(s.profile) == "constrained high"@,
        s.level <= 41,
    ensures
        draft_of(ss.push(s)).video == Some((ss.len() as usize, s.index, false)),
        draft_of(ss.push(s)).infos == draft_of(ss).infos.push(draft_of(ss.push(s)).infos.last()),
        draft_of(ss.push(s)).infos.last().action == "copy"@,
        draft_of(ss.push(s)).infos.last().reason == "compatible, copied without re-encoding"@,
{
    let t = ss.push(s);
    assert(t.drop_last() =~= ss);
    assert(video_problems(s) =~= Seq::<Seq<char>>::empty());
}

/// Law: a main video track is re-encoded when it is not H.264, when it
/// declares a pixel format other than `yuv420p` and `yuvj420p`, a profile
/// other than baseline, constrained baseline, main, high and constrained
/// high (in any case), or a level above 41 (4.1): reading it after streams
/// with no video track keeps it as the video, re-encoded, and its row says
/// `convert` to H.264 High 8-bit.
pub proof fn law_incompatible_video_reencoded(ss: Seq<StreamFacts>, s: StreamFacts)
    requires
        draft_of(ss).video is None,
        s.kind == "video"@,
        s.codec != "h264"@ || (s.pix_fmt.len() > 0 && s.pix_fmt != "yuv420p"@ && s.pix_fmt
            != "yuvj420p"@) || (folded(s.profile).len() > 0 && folded(s.profile) != "baseline"@
            && folded(s.profile) != "constrained baseline"@ && folded(s.profile) != "main"@
            && folded(s.profile) != "high"@ && folded(s.profile) != "constrained high"@)
            || s.level > 41,
    ensures
        draft_of(ss.push(s)).video == Some((ss.len() as usize, s.index, true)),
        draft_of(ss.push(s)).infos.last().action == "convert"@,
        draft_of(ss.push(s)).infos.last().target == "H.264 High · 8-bit"@,
{
    let t = ss.push(s);
    assert(t.drop_last() =~= ss);
    assert(video_problems(s).len() > 0);
}

/// The audio plan a track with `codec` and `channels`, at `position`, must
/// get, with its thresholds and lists written out: AAC, AC3 and MP3 are
/// copied as they are; anything else is converted, to AC3 at 640k with 6
/// channels from 6 channels up, else to AAC at 192k with at most 2.
pub open spec fn expected_audio(index: u32, codec: Seq<char>, channels: u32, position: usize) -> AudioView {
    if codec == "aac"@ || codec == "ac3"@ || codec == "mp3"@ {
        AudioView {
            position,
            index,
            copy: true,
            codec: "copy"@,
            bitrate: Seq::empty(),
            channels,
            bits: None,
        }
    } else if channels >= 6 {
        AudioView {
            position,
            index,
            copy: false,
            codec: "ac3"@,
            bitrate: "640k"@,
            channels: 6,
            bits: Some(640_000),
        }
    } else {
        AudioView {
            position,
            index,
            copy: false,
            codec: "aac"@,
            bitrate: "192k"@,
            channels: if channels < 2 {
                channels
            } else {
                2
            },
            bits: Some(192_000),
        }
    }
}

/// Law: reading an audio track adds exactly one audio plan, after those
/// already made: AAC, AC3 and MP3 are copied (`copy`, as many channels as
/// the source); anything else with 6 channels or more becomes AC3 640k 5.1;
/// anything else becomes AAC 192k with at most 2 channels. Its row says
/// `copy` exactly when the track is copied.
pub proof fn law_audio_plan_follows_the_table(ss: Seq<StreamFacts>, s: StreamFacts)
    requires
        s.kind == "audio"@,
    ensures
        draft_of(ss.push(s)).audios == draft_of(ss).audios.push(
            expected_audio(s.index, s.codec, s.channels, ss.len() as usize),
        ),
        draft_of(ss.push(s)).infos.last().action == (if s.codec == "aac"@ || s.codec == "ac3"@
            || s.codec == "mp3"@ {
            "copy"@
        } else {
            "convert"@
        }),
{
    lemma_kinds_differ();
    let t = ss.push(s);
    assert(t.drop_last() =~= ss);
    assert(audio_plan(s, ss.len() as usize) == expected_audio(
        s.index,
        s.codec,
        s.channels,
        ss.len() as usize,
    ));
}

/// Law: reading a text subtitle track (SubRip, ASS, SSA, mov_text, WebVTT
/// or plain text) adds its extraction, under its language (`und` when none),
/// and no warning; reading any other subtitle track (an image) adds no
/// extraction and one warning.
pub proof fn law_subtitles_follow_the_table(ss: Seq<StreamFacts>, s: StreamFacts)
    requires
        s.kind == "subtitle"@,
    ensures
        ({
            let text = s.codec == "subrip"@ || s.codec == "ass"@ || s.codec == "ssa"@ || s.codec
                == "mov_text"@ || s.codec == "webvtt"@ || s.codec == "text"@;
            let before = draft_of(ss);
            let after = draft_of(ss.push(s));
            &&& text ==> after.subs == before.subs.push(
                SubView {
                    index: s.index,
                    lang: if s.lang.len() == 0 {
                        "und"@
                    } else {
                        s.lang
                    },
                },
            )
            &&& text ==> after.warnings == before.warnings
            &&& text ==> after.infos.last().action == "extract"@
            &&& !text ==> after.subs == before.subs
            &&& !text ==> after.warnings.len() == before.warnings.len() + 1
            &&& !text ==> after.infos.last().action == "unsupported"@
        }),
{
    lemma_kinds_differ();
    let t = ss.push(s);
    assert(t.drop_last() =~= ss);
}

} // verus!
