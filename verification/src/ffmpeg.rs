//! The ffmpeg side: the argument lists that carry the decisions out, and the
//! reading of what a running ffmpeg reports.
//!
//! Running ffmpeg is the application's work; here is what it decides between
//! one event and the next: which progress fields matter, which error lines to
//! keep, and what the exit status means.

use vstd::prelude::*;
use crate::plan::{AudioPlan, AudioView, VideoPlan, audio_views};
use crate::text::{
    chars_of, find_char, position, slice_chars, string_of, decimal, join, join_strings, owned, push_decimal, push_signed_decimal, push_str,
    signed_decimal, str_eq, trim, trim_str, views,
};

verus! {

/// `k` kbps as ffmpeg writes it: `{k}k`.
pub open spec fn kbps_arg(k: nat) -> Seq<char> {
    decimal(k) + "k"@
}

/// `0:{index}`, the selector of one input stream.
pub open spec fn stream_selector(index: nat) -> Seq<char> {
    "0:"@ + decimal(index)
}

/// Whether `encoder` names libx264; anything else means VideoToolbox.
pub open spec fn is_x264(encoder: Seq<char>) -> bool {
    encoder == "x264"@
}

/// Rate control pinned to `k` kbps: average `k`, ceiling `3k/2`, buffer
/// `2k`. Without a ceiling, VBR overshoots the average and busts a cap.
pub open spec fn pinned_rate(k: nat) -> Seq<Seq<char>> {
    seq!["-b:v"@, kbps_arg(k), "-maxrate"@, kbps_arg(k * 3 / 2), "-bufsize"@, kbps_arg(k * 2)]
}

/// The video arguments for `plan` with `encoder`: a copy when no re-encode
/// is needed; otherwise H.264 High 8-bit in `yuv420p`, tagged `avc1`. x264
/// uses CRF 20 unless a size is to be respected, when the bitrate is pinned;
/// VideoToolbox always gets a pinned bitrate.
pub open spec fn video_args_spec(encode: bool, capped: bool, k: nat, encoder: Seq<char>) -> Seq<
    Seq<char>,
> {
    if !encode {
        seq!["-c:v"@, "copy"@]
    } else {
        seq!["-c:v"@] + (if is_x264(encoder) {
            seq![
                "libx264"@,
                "-preset"@,
                "medium"@,
                "-profile:v"@,
                "high"@,
                "-level"@,
                "4.1"@,
            ] + if capped {
                pinned_rate(k)
            } else {
                seq!["-crf"@, "20"@]
            }
        } else {
            seq!["h264_videotoolbox"@, "-profile:v"@, "high"@] + pinned_rate(k)
        }) + seq!["-pix_fmt"@, "yuv420p"@, "-tag:v"@, "avc1"@]
    }
}

/// The bitrate arithmetic of `video_args` fits in `u32`: where a bitrate is
/// pinned, `3k` must.
pub open spec fn video_args_fit(plan: VideoPlan, encoder: Seq<char>) -> bool {
    plan.encode && (plan.capped || !is_x264(encoder)) ==> plan.bitrate_k * 3 <= u32::MAX
}

fn push_lit(v: &mut Vec<String>, s: &str)
    ensures
        views(final(v)@) == views(old(v)@).push(s@),
{
    v.push(owned(s));
    assert(views(v@) =~= views(old(v)@).push(s@));
}

fn push_owned(v: &mut Vec<String>, s: String)
    ensures
        views(final(v)@) == views(old(v)@).push(s@),
{
    let ghost sv = s@;
    v.push(s);
    assert(views(v@) =~= views(old(v)@).push(sv));
}

fn kbps_string(k: u32) -> (r: String)
    ensures
        r@ == kbps_arg(k as nat),
{
    let mut s = String::new();
    push_decimal(&mut s, k as u64);
    push_str(&mut s, "k");
    assert(s@ =~= kbps_arg(k as nat));
    s
}

fn push_pinned(v: &mut Vec<String>, k: u32)
    requires
        k * 3 <= u32::MAX,
    ensures
        views(final(v)@) == views(old(v)@) + pinned_rate(k as nat),
{
    push_lit(v, "-b:v");
    push_owned(v, kbps_string(k));
    push_lit(v, "-maxrate");
    push_owned(v, kbps_string(k * 3 / 2));
    push_lit(v, "-bufsize");
    push_owned(v, kbps_string(k * 2));
    assert(views(v@) =~= views(old(v)@) + pinned_rate(k as nat));
}

/// The ffmpeg video arguments for `plan` with the chosen `encoder`
/// (`x264`, or anything else for VideoToolbox).
pub fn video_args(plan: &VideoPlan, encoder: &str) -> (r: Vec<String>)
    requires
        video_args_fit(*plan, encoder@),
    ensures
        views(r@) == video_args_spec(plan.encode, plan.capped, plan.bitrate_k as nat, encoder@),
{
    let mut a: Vec<String> = Vec::new();
    if !plan.encode {
        push_lit(&mut a, "-c:v");
        push_lit(&mut a, "copy");
        assert(views(a@) =~= seq!["-c:v"@, "copy"@]);
        return a;
    }
    push_lit(&mut a, "-c:v");
    if str_eq(encoder, "x264") {
        push_lit(&mut a, "libx264");
        push_lit(&mut a, "-preset");
        push_lit(&mut a, "medium");
        push_lit(&mut a, "-profile:v");
        push_lit(&mut a, "high");
        push_lit(&mut a, "-level");
        push_lit(&mut a, "4.1");
        let ghost mid = views(a@);
        if plan.capped {
            push_pinned(&mut a, plan.bitrate_k);
        } else {
            push_lit(&mut a, "-crf");
            push_lit(&mut a, "20");
            assert(views(a@) =~= mid + seq!["-crf"@, "20"@]);
        }
    } else {
        push_lit(&mut a, "h264_videotoolbox");
        push_lit(&mut a, "-profile:v");
        push_lit(&mut a, "high");
        push_pinned(&mut a, plan.bitrate_k);
    }
    let ghost body = views(a@);
    push_lit(&mut a, "-pix_fmt");
    push_lit(&mut a, "yuv420p");
    push_lit(&mut a, "-tag:v");
    push_lit(&mut a, "avc1");
    assert(views(a@) =~= body + seq!["-pix_fmt"@, "yuv420p"@, "-tag:v"@, "avc1"@]);
    assert(views(a@) =~= video_args_spec(
        plan.encode,
        plan.capped,
        plan.bitrate_k as nat,
        encoder@,
    ));
    a
}


/// Law: a re-encode whose size is to be respected, and any VideoToolbox
/// re-encode, pins the bitrate with a ceiling and a buffer; an x264
/// re-encode with no size to respect uses CRF 20 instead.
pub proof fn law_rate_pinned_when_it_must_be(capped: bool, k: nat, encoder: Seq<char>)
    ensures
        capped || !is_x264(encoder) ==> {
            let at: int = if is_x264(encoder) {
                8
            } else {
                4
            };
            video_args_spec(true, capped, k, encoder).subrange(at, at + 6) == pinned_rate(k)
        },
        !capped && is_x264(encoder) ==> video_args_spec(true, capped, k, encoder).subrange(8, 10)
            == seq!["-crf"@, "20"@],
{
    let a = video_args_spec(true, capped, k, encoder);
    if is_x264(encoder) {
        if capped {
            assert(a.subrange(8, 14) =~= pinned_rate(k));
        } else {
            assert(a.subrange(8, 10) =~= seq!["-crf"@, "20"@]);
        }
    } else {
        assert(a.subrange(4, 10) =~= pinned_rate(k));
    }
}

/// Law: the main pass maps every audio track, each once, in order.
pub proof fn law_every_audio_track_mapped(auds: Seq<AudioView>)
    ensures
        audio_maps(auds).len() == 2 * auds.len(),
        forall|i: int|
            0 <= i < auds.len() ==> audio_maps(auds)[2 * i + 1] == stream_selector(
                auds[i].index as nat,
            ),
    decreases auds.len(),
{
    if auds.len() > 0 {
        let init = auds.drop_last();
        law_every_audio_track_mapped(init);
        assert forall|i: int| 0 <= i < auds.len() implies audio_maps(auds)[2 * i + 1]
            == stream_selector(auds[i].index as nat) by {
            if i < init.len() {
                assert(audio_maps(auds)[2 * i + 1] == audio_maps(init)[2 * i + 1]);
                assert(init[i] == auds[i]);
            }
        }
    }
}

/// The arguments every pass starts with: quiet, non-interactive, allowed to
/// overwrite, progress as `key=value` lines on stdout, reading `input`.
pub open spec fn input_head(input: Seq<char>) -> Seq<Seq<char>> {
    seq!["-hide_banner"@, "-nostdin"@, "-y"@, "-progress"@, "pipe:1"@, "-nostats"@, "-i"@, input]
}

/// A `-map` for each audio track, in order.
pub open spec fn audio_maps(auds: Seq<AudioView>) -> Seq<Seq<char>>
    decreases auds.len(),
{
    if auds.len() == 0 {
        Seq::empty()
    } else {
        audio_maps(auds.drop_last()) + seq!["-map"@, stream_selector(auds.last().index as nat)]
    }
}

/// The codec arguments for the `n`-th audio track of the output.
pub open spec fn one_audio_codec(n: nat, a: AudioView) -> Seq<Seq<char>> {
    seq!["-c:a:"@ + decimal(n)] + if a.copy {
        seq!["copy"@]
    } else {
        seq![
            a.codec,
            "-b:a:"@ + decimal(n),
            a.bitrate,
            "-ac:a:"@ + decimal(n),
            decimal(a.channels as nat),
        ]
    }
}

/// The codec arguments for every audio track, in order.
pub open spec fn audio_codecs(auds: Seq<AudioView>) -> Seq<Seq<char>>
    decreases auds.len(),
{
    if auds.len() == 0 {
        Seq::empty()
    } else {
        audio_codecs(auds.drop_last()) + one_audio_codec((auds.len() - 1) as nat, auds.last())
    }
}

/// The closing arguments: no subtitle or data streams, the source's
/// metadata, the index moved to the front (`+faststart`) so a player can
/// start without reading the whole file, MP4 written to `out`.
pub open spec fn container_tail(out: Seq<char>) -> Seq<Seq<char>> {
    seq![
        "-sn"@,
        "-dn"@,
        "-map_metadata"@,
        "0"@,
        "-max_muxing_queue_size"@,
        "1024"@,
        "-movflags"@,
        "+faststart"@,
        "-f"@,
        "mp4"@,
        out,
    ]
}

/// The arguments of the main pass: a single MP4 with the video and every
/// audio track.
pub open spec fn main_args_spec(
    input: Seq<char>,
    video: VideoPlan,
    auds: Seq<AudioView>,
    encoder: Seq<char>,
    out: Seq<char>,
) -> Seq<Seq<char>> {
    input_head(input) + seq!["-map"@, stream_selector(video.index as nat)] + audio_maps(auds)
        + video_args_spec(video.encode, video.capped, video.bitrate_k as nat, encoder)
        + audio_codecs(auds) + container_tail(out)
}

fn selector_string(index: u32) -> (r: String)
    ensures
        r@ == stream_selector(index as nat),
{
    let mut s = owned("0:");
    push_decimal(&mut s, index as u64);
    s
}

fn numbered(prefix: &str, n: usize) -> (r: String)
    ensures
        r@ == prefix@ + decimal(n as nat),
{
    let mut s = owned(prefix);
    push_decimal(&mut s, n as u64);
    s
}

fn push_input_head(a: &mut Vec<String>, input: &str)
    ensures
        views(final(a)@) == views(old(a)@) + input_head(input@),
{
    push_lit(a, "-hide_banner");
    push_lit(a, "-nostdin");
    push_lit(a, "-y");
    push_lit(a, "-progress");
    push_lit(a, "pipe:1");
    push_lit(a, "-nostats");
    push_lit(a, "-i");
    push_lit(a, input);
    assert(views(a@) =~= views(old(a)@) + input_head(input@));
}

/// The ffmpeg arguments of the main pass, which writes `out` from `input`.
pub fn main_args(
    input: &str,
    video: &VideoPlan,
    audios: &Vec<AudioPlan>,
    encoder: &str,
    out: &str,
) -> (r: Vec<String>)
    requires
        video_args_fit(*video, encoder@),
    ensures
        views(r@) == main_args_spec(input@, *video, audio_views(audios@), encoder@, out@),
{
    let ghost auds = audio_views(audios@);
    let mut a: Vec<String> = Vec::new();
    push_input_head(&mut a, input);
    push_lit(&mut a, "-map");
    push_owned(&mut a, selector_string(video.index));
    let ghost head = views(a@);
    let mut i: usize = 0;
    assert(auds.take(0) =~= Seq::<AudioView>::empty());
    assert(head + audio_maps(auds.take(0)) =~= head);
    while i < audios.len()
        invariant
            i <= audios.len(),
            auds == audio_views(audios@),
            views(a@) == head + audio_maps(auds.take(i as int)),
        decreases audios.len() - i,
    {
        push_lit(&mut a, "-map");
        push_owned(&mut a, selector_string(audios[i].index));
        assert(auds.take(i + 1).drop_last() =~= auds.take(i as int));
        assert(views(a@) =~= head + audio_maps(auds.take(i + 1)));
        i += 1;
    }
    assert(auds.take(audios.len() as int) =~= auds);
    let v = video_args(video, encoder);
    let mut k: usize = 0;
    let ghost before_video = views(a@);
    while k < v.len()
        invariant
            k <= v.len(),
            views(a@) == before_video + views(v@).take(k as int),
        decreases v.len() - k,
    {
        push_owned(&mut a, v[k].clone());
        assert(views(a@) =~= before_video + views(v@).take(k + 1));
        k += 1;
    }
    assert(views(v@).take(v.len() as int) =~= views(v@));
    let ghost mid = views(a@);
    let mut n: usize = 0;
    assert(mid + audio_codecs(auds.take(0)) =~= mid);
    while n < audios.len()
        invariant
            n <= audios.len(),
            auds == audio_views(audios@),
            views(a@) == mid + audio_codecs(auds.take(n as int)),
        decreases audios.len() - n,
    {
        let ap = &audios[n];
        let ghost before = views(a@);
        push_owned(&mut a, numbered("-c:a:", n));
        if ap.copy {
            push_lit(&mut a, "copy");
        } else {
            push_owned(&mut a, ap.codec.clone());
            push_owned(&mut a, numbered("-b:a:", n));
            push_owned(&mut a, ap.bitrate.clone());
            push_owned(&mut a, numbered("-ac:a:", n));
            let mut ch = String::new();
            push_decimal(&mut ch, ap.channels as u64);
            push_owned(&mut a, ch);
        }
        assert(views(a@) =~= before + one_audio_codec(n as nat, auds[n as int]));
        assert(auds.take(n + 1).drop_last() =~= auds.take(n as int));
        assert(views(a@) =~= mid + audio_codecs(auds.take(n + 1)));
        n += 1;
    }
    assert(auds.take(audios.len() as int) =~= auds);
    let ghost body = views(a@);
    push_lit(&mut a, "-sn");
    push_lit(&mut a, "-dn");
    push_lit(&mut a, "-map_metadata");
    push_lit(&mut a, "0");
    push_lit(&mut a, "-max_muxing_queue_size");
    push_lit(&mut a, "1024");
    push_lit(&mut a, "-movflags");
    push_lit(&mut a, "+faststart");
    push_lit(&mut a, "-f");
    push_lit(&mut a, "mp4");
    push_lit(&mut a, out);
    assert(views(a@) =~= body + container_tail(out@));
    assert(views(a@) =~= main_args_spec(input@, *video, auds, encoder@, out@));
    a
}

/// The arguments of a subtitle pass: the stream `index` of `input`,
/// converted to SRT at `target`.
pub open spec fn subtitle_args_spec(input: Seq<char>, index: nat, target: Seq<char>) -> Seq<
    Seq<char>,
> {
    input_head(input) + seq!["-map"@, stream_selector(index), "-c:s"@, "srt"@, target]
}

/// The ffmpeg arguments that extract the subtitle stream `index` of `input`
/// to the `.srt` file `target`.
pub fn subtitle_args(input: &str, index: u32, target: &str) -> (r: Vec<String>)
    ensures
        views(r@) == subtitle_args_spec(input@, index as nat, target@),
{
    let mut a: Vec<String> = Vec::new();
    push_input_head(&mut a, input);
    let ghost head = views(a@);
    push_lit(&mut a, "-map");
    push_owned(&mut a, selector_string(index));
    push_lit(&mut a, "-c:s");
    push_lit(&mut a, "srt");
    push_lit(&mut a, target);
    assert(views(a@) =~= head + seq!["-map"@, stream_selector(index as nat), "-c:s"@, "srt"@, target@]);
    assert(views(a@) =~= subtitle_args_spec(input@, index as nat, target@));
    a
}


/// `line` without the `\r` of a `\r\n` ending.
pub open spec fn drop_cr(line: Seq<char>) -> Seq<char> {
    if line.len() > 0 && line.last() == '\r' {
        line.drop_last()
    } else {
        line
    }
}

/// The lines of `s`, as `str::lines` splits them: at each `\n`, with the
/// `\r` of a `\r\n` removed; a final line ending adds no empty line.
pub open spec fn text_lines(s: Seq<char>) -> Seq<Seq<char>>
    decreases s.len(),
{
    if s.len() == 0 {
        Seq::empty()
    } else {
        match position(s, '\n') {
            Some(k) => {
                if 0 <= k < s.len() {
                    seq![drop_cr(s.take(k))] + text_lines(s.skip(k + 1))
                } else {
                    Seq::empty()
                }
            },
            None => seq![s],
        }
    }
}

/// The lines of a chunk of ffmpeg output.
pub fn lines_of(chunk: &str) -> (r: Vec<String>)
    ensures
        views(r@) == text_lines(chunk@),
{
    let v = chars_of(chunk);
    let mut out: Vec<String> = Vec::new();
    let mut i: usize = 0;
    assert(v@.skip(0) =~= v@);
    while i < v.len()
        invariant
            i <= v.len(),
            v@ == chunk@,
            views(out@) + text_lines(v@.skip(i as int)) == text_lines(v@),
        decreases v.len() - i,
    {
        let ghost t = v@.skip(i as int);
        let ghost before = views(out@);
        match find_char(&v, i, '\n') {
            Some(k) => {
                let mut end = k;
                if end > i && v[end - 1] == '\r' {
                    end = end - 1;
                }
                let line = string_of(&slice_chars(&v, i, end));
                assert(line@ =~= drop_cr(t.take(k - i)));
                push_owned(&mut out, line);
                assert(t.skip(k - i + 1) =~= v@.skip(k + 1));
                assert(views(out@) + text_lines(v@.skip(k + 1)) =~= before + text_lines(t));
                i = k + 1;
            },
            None => {
                let line = string_of(&slice_chars(&v, i, v.len()));
                assert(line@ =~= t);
                push_owned(&mut out, line);
                assert(v@.skip(v.len() as int) =~= Seq::<char>::empty());
                assert(views(out@) + text_lines(v@.skip(v.len() as int)) =~= before + text_lines(t));
                i = v.len();
            },
        }
    }
    assert(v@.skip(v.len() as int) =~= Seq::<char>::empty());
    assert(views(out@) =~= views(out@) + text_lines(Seq::<char>::empty()));
    out
}


/// `v` without its trailing `x` characters: ffmpeg writes speeds as `2.1x`.
pub open spec fn trim_trailing_x(v: Seq<char>) -> Seq<char>
    decreases v.len(),
{
    if v.len() > 0 && v.last() == 'x' {
        trim_trailing_x(v.drop_last())
    } else {
        v
    }
}

/// The key of a `key=value` progress line, trimmed; none without `=`.
pub open spec fn progress_key(line: Seq<char>) -> Option<Seq<char>> {
    match position(line, '=') {
        Some(k) => Some(trim(line.take(k))),
        None => None,
    }
}

/// The value of a `key=value` progress line, trimmed.
pub open spec fn progress_value(line: Seq<char>) -> Seq<char> {
    match position(line, '=') {
        Some(k) => trim(line.skip(k + 1)),
        None => Seq::empty(),
    }
}

/// How many of ffmpeg's last error lines are kept for the failure message.
pub open spec fn tail_len() -> nat {
    15
}

/// `tail` after the error line `line`: it goes last, and the oldest line
/// goes once there are more than fifteen.
pub open spec fn keep_tail(tail: Seq<Seq<char>>, line: Seq<char>) -> Seq<Seq<char>> {
    if tail.len() + 1 > tail_len() {
        tail.push(line).drop_first()
    } else {
        tail.push(line)
    }
}

/// What a finished run of ffmpeg comes to, given its exit `code` (none when
/// it was killed) and its last error lines.
pub open spec fn run_outcome(code: Option<i32>, tail: Seq<Seq<char>>) -> Result<(), Seq<char>> {
    match code {
        Some(c) => if c == 0 {
            Ok(())
        } else {
            Err(
                "ffmpeg exited with code "@ + signed_decimal(c as int) + ". "@ + join(
                    tail,
                    " · "@,
                ),
            )
        },
        None => Err("conversion cancelled"@),
    }
}

/// What a running ffmpeg has reported so far: the last speed, without its
/// `x`; the last error lines; the exit code once it has ended.
pub struct RunState {
    pub speed: String,
    pub tail: Vec<String>,
    pub code: Option<i32>,
}

impl RunState {
    /// Nothing reported yet.
    pub fn new() -> (r: RunState)
        ensures
            r.speed@.len() == 0,
            r.tail@.len() == 0,
            r.code is None,
    {
        RunState { speed: String::new(), tail: Vec::new(), code: None }
    }

    /// Reads one `key=value` line of `-progress` output. A `speed` line
    /// updates the speed; an `out_time_us` line gives back its value, the
    /// microseconds of video processed so far; anything else is ignored.
    pub fn on_progress_line(&mut self, line: &str) -> (r: Option<String>)
        ensures
            final(self).speed@ == (if progress_key(line@) == Some("speed"@) {
                trim_trailing_x(progress_value(line@))
            } else {
                old(self).speed@
            }),
            match r {
                Some(v) => progress_key(line@) == Some("out_time_us"@) && v@ == progress_value(
                    line@,
                ),
                None => progress_key(line@) != Some("out_time_us"@),
            },
            final(self).tail@ == old(self).tail@,
            final(self).code == old(self).code,
    {
        let v = chars_of(line);
        let eq = match find_char(&v, 0, '=') {
            Some(k) => k,
            None => {
                assert(v@.skip(0) =~= v@);
                return None;
            },
        };
        assert(v@.skip(0) =~= v@);
        let key_raw = string_of(&slice_chars(&v, 0, eq));
        let val_raw = string_of(&slice_chars(&v, eq + 1, v.len()));
        assert(key_raw@ =~= line@.take(eq as int));
        assert(val_raw@ =~= line@.skip(eq + 1));
        let key = trim_str(key_raw.as_str());
        let value = trim_str(val_raw.as_str());
        if str_eq(key.as_str(), "speed") {
            let mut w = chars_of(value.as_str());
            let ghost full = w@;
            while w.len() > 0 && w[w.len() - 1] == 'x'
                invariant
                    trim_trailing_x(full) == trim_trailing_x(w@),
                decreases w.len(),
            {
                w.pop();
            }
            self.speed = string_of(&w);
            proof {
                reveal_strlit("speed");
                reveal_strlit("out_time_us");
                assert("speed"@[0] != "out_time_us"@[0]);
            }
            None
        } else if str_eq(key.as_str(), "out_time_us") {
            Some(value)
        } else {
            None
        }
    }

    /// Reads what ffmpeg wrote to stderr: trimmed, and when anything is
    /// left, kept among the last error lines and given back for the log.
    pub fn on_error_text(&mut self, text: &str) -> (r: Option<String>)
        ensures
            match r {
                Some(l) => l@ == trim(text@) && l@.len() > 0 && views(final(self).tail@)
                    == keep_tail(views(old(self).tail@), l@),
                None => trim(text@).len() == 0 && final(self).tail@ == old(self).tail@,
            },
            final(self).speed@ == old(self).speed@,
            final(self).code == old(self).code,
    {
        let line = trim_str(text);
        if line.as_str().is_empty() {
            return None;
        }
        let ghost before = views(self.tail@);
        push_owned(&mut self.tail, line.clone());
        if self.tail.len() > 15 {
            self.tail.remove(0);
        }
        assert(views(self.tail@) =~= keep_tail(before, line@));
        Some(line)
    }

    /// Records how ffmpeg ended: its exit code, none when it was killed.
    pub fn on_exit(&mut self, code: Option<i32>)
        ensures
            final(self).code == code,
            final(self).speed@ == old(self).speed@,
            final(self).tail@ == old(self).tail@,
    {
        self.code = code;
    }

    /// What the run comes to: success on exit code 0; otherwise an error
    /// that gives the code and the last error lines, or says the
    /// conversion was cancelled when ffmpeg was killed.
    pub fn outcome(&self) -> (r: Result<(), String>)
        ensures
            match r {
                Ok(()) => run_outcome(self.code, views(self.tail@)) == Ok::<(), Seq<char>>(()),
                Err(e) => run_outcome(self.code, views(self.tail@)) == Err::<(), Seq<char>>(e@),
            },
    {
        match self.code {
            Some(0) => Ok(()),
            Some(c) => {
                let mut e = owned("ffmpeg exited with code ");
                push_signed_decimal(&mut e, c as i64);
                push_str(&mut e, ". ");
                let t = join_strings(&self.tail, " · ");
                push_str(&mut e, t.as_str());
                Err(e)
            },
            None => Err(owned("conversion cancelled")),
        }
    }
}

/// Law: fed lines one at a time from empty, the kept error lines are the
/// last fifteen at most, in order.
pub proof fn law_tail_keeps_last_lines(tail: Seq<Seq<char>>, line: Seq<char>)
    requires
        tail.len() <= tail_len(),
    ensures
        keep_tail(tail, line).len() <= tail_len(),
        keep_tail(tail, line).last() == line,
        keep_tail(tail, line) == tail.push(line).skip(
            tail.push(line).len() - keep_tail(tail, line).len(),
        ),
{
    let t = tail.push(line);
    if t.len() > tail_len() {
        assert(t.drop_first() =~= t.skip(1));
    } else {
        assert(t.skip(0) =~= t);
    }
}

/// The license files bundled with the application, by the name the
/// interface asks for: only these two can be read.
pub open spec fn license_path(name: Seq<char>) -> Result<Seq<char>, Seq<char>> {
    if name == "notice"@ {
        Ok("licenses/NOTICE.txt"@)
    } else if name == "gpl"@ {
        Ok("licenses/GPLv2.txt"@)
    } else {
        Err("unknown license: "@ + name)
    }
}

/// The bundled file that holds the license `name`; an error for any other
/// name, since this decides what is read from disk.
pub fn license_file(name: &str) -> (r: Result<String, String>)
    ensures
        match r {
            Ok(p) => license_path(name@) == Ok::<Seq<char>, Seq<char>>(p@),
            Err(e) => license_path(name@) == Err::<Seq<char>, Seq<char>>(e@),
        },
{
    if str_eq(name, "notice") {
        Ok(owned("licenses/NOTICE.txt"))
    } else if str_eq(name, "gpl") {
        Ok(owned("licenses/GPLv2.txt"))
    } else {
        let mut e = owned("unknown license: ");
        push_str(&mut e, name);
        Err(e)
    }
}

/// The label of the main pass: `Re-encoding video` when the video is
/// re-encoded, `Remuxing` when every stream is copied.
pub fn main_phase(encode: bool) -> (r: String)
    ensures
        r@ == (if encode {
            "Re-encoding video"@
        } else {
            "Remuxing"@
        }),
{
    if encode {
        owned("Re-encoding video")
    } else {
        owned("Remuxing")
    }
}

} // verus!
