//! What ffprobe reports about a file, as the decisions read it.
//!
//! ffprobe prints JSON. The application parses it and hands over, field by
//! field, what the JSON holds: a text field as its text when it is a string,
//! a number already cast to an integer, nothing when the field is missing or
//! of another kind. This module gives every missing field its default and
//! refuses a file that carries no `format` section.

use vstd::prelude::*;
use crate::plan::{container_name, container_of, ProbeStream, StreamFacts, stream_facts};
use crate::text::owned;
use crate::naming::opt_chars;

verus! {

/// The `tags` of a stream.
pub struct RawTags {
    pub language: Option<String>,
    pub title: Option<String>,
}

/// One entry of ffprobe's `streams`, field by field.
pub struct RawStream {
    pub index: Option<u32>,
    pub codec_type: Option<String>,
    pub codec_name: Option<String>,
    pub width: Option<u32>,
    pub height: Option<u32>,
    pub pix_fmt: Option<String>,
    pub profile: Option<String>,
    pub level: Option<i64>,
    pub channels: Option<u32>,
    pub channel_layout: Option<String>,
    /// The sample rate in kHz, rendered without decimals.
    pub sample_rate_khz: Option<String>,
    /// Present whenever the stream has a `tags` field, whatever its kind.
    pub tags: Option<RawTags>,
}

/// ffprobe's `format` section: only its `format_name` is read here.
pub struct RawFormat {
    pub format_name: Option<String>,
}

/// ffprobe's whole report: `streams` is present only when it is an array.
pub struct RawProbe {
    pub format: Option<RawFormat>,
    pub streams: Option<Vec<RawStream>>,
}

/// What the decisions get from a report: the container and the streams.
pub struct Probe {
    pub container: String,
    pub streams: Vec<ProbeStream>,
}

/// The text of an optional field, or `default`.
pub open spec fn text_or(o: Option<String>, default: Seq<char>) -> Seq<char> {
    match opt_chars(o) {
        Some(t) => t,
        None => default,
    }
}

/// A tag of the stream, empty when missing.
pub open spec fn tag_of(tags: Option<RawTags>, language: bool) -> Seq<char> {
    match tags {
        Some(t) => text_or(
            if language {
                t.language
            } else {
                t.title
            },
            Seq::empty(),
        ),
        None => Seq::empty(),
    }
}

/// The stream `r` with its defaults filled in: index, sizes and level 0,
/// kind and texts empty, codec `?`, 2 channels, sample rate `0` kHz.
pub open spec fn facts_of(r: RawStream) -> StreamFacts {
    StreamFacts {
        index: match r.index {
            Some(v) => v,
            None => 0,
        },
        kind: text_or(r.codec_type, Seq::empty()),
        codec: text_or(r.codec_name, "?"@),
        width: match r.width {
            Some(v) => v,
            None => 0,
        },
        height: match r.height {
            Some(v) => v,
            None => 0,
        },
        pix_fmt: text_or(r.pix_fmt, Seq::empty()),
        profile: text_or(r.profile, Seq::empty()),
        level: match r.level {
            Some(v) => v,
            None => 0,
        },
        channels: match r.channels {
            Some(v) => v,
            None => 2,
        },
        channel_layout: text_or(r.channel_layout, Seq::empty()),
        sample_rate_khz: text_or(r.sample_rate_khz, "0"@),
        lang: tag_of(r.tags, true),
        title: tag_of(r.tags, false),
    }
}

/// The streams of a report: none when `streams` is missing.
pub open spec fn raw_facts(streams: Option<Vec<RawStream>>) -> Seq<StreamFacts> {
    match streams {
        Some(v) => v@.map_values(|r: RawStream| facts_of(r)),
        None => Seq::empty(),
    }
}

/// The error given when ffprobe's output is not JSON, with the parser's
/// words.
pub open spec fn unreadable_error(detail: Seq<char>) -> Seq<char> {
    "unreadable ffprobe JSON: "@ + detail
}

/// The error given when the report has no `format` section.
pub open spec fn no_metadata_error() -> Seq<char> {
    "the file carries no metadata"@
}

fn text_or_default(o: &Option<String>, default: &str) -> (r: String)
    ensures
        r@ == text_or(*o, default@),
{
    match o {
        Some(t) => t.clone(),
        None => owned(default),
    }
}

fn tag_text(tags: &Option<RawTags>, language: bool) -> (r: String)
    ensures
        r@ == tag_of(*tags, language),
{
    match tags {
        Some(t) => {
            let r = if language {
                text_or_default(&t.language, "")
            } else {
                text_or_default(&t.title, "")
            };
            proof {
                reveal_strlit("");
                assert(""@ =~= Seq::<char>::empty());
            }
            r
        },
        None => String::new(),
    }
}

/// The stream `r` with its defaults filled in.
pub fn stream_of(r: &RawStream) -> (s: ProbeStream)
    ensures
        s@ == facts_of(*r),
{
    proof {
        reveal_strlit("");
        assert(""@ =~= Seq::<char>::empty());
    }
    let s = ProbeStream {
        index: match r.index {
            Some(v) => v,
            None => 0,
        },
        kind: text_or_default(&r.codec_type, ""),
        codec: text_or_default(&r.codec_name, "?"),
        width: match r.width {
            Some(v) => v,
            None => 0,
        },
        height: match r.height {
            Some(v) => v,
            None => 0,
        },
        pix_fmt: text_or_default(&r.pix_fmt, ""),
        profile: text_or_default(&r.profile, ""),
        level: match r.level {
            Some(v) => v,
            None => 0,
        },
        channels: match r.channels {
            Some(v) => v,
            None => 2,
        },
        channel_layout: text_or_default(&r.channel_layout, ""),
        sample_rate_khz: text_or_default(&r.sample_rate_khz, "0"),
        lang: tag_text(&r.tags, true),
        title: tag_text(&r.tags, false),
    };
    assert(s@ == facts_of(*r));
    s
}

/// Reads ffprobe's report, given as what parsing its output gave: the
/// parser's error message, or the report. Fails when the output is not JSON,
/// and when the report has no `format` section; otherwise gives the
/// container (the first name of `format_name`, `?` when missing) and every
/// stream, in order, with its defaults filled in (none when `streams` is
/// missing).
pub fn read_probe(parsed: Result<RawProbe, String>) -> (r: Result<Probe, String>)
    ensures
        match parsed {
            Err(detail) => r matches Err(e) && e@ == unreadable_error(detail@),
            Ok(p) => match p.format {
                None => r matches Err(e) && e@ == no_metadata_error(),
                Some(f) => r matches Ok(probe) && probe.container@ == container_of(
                    text_or(f.format_name, "?"@),
                ) && stream_facts(probe.streams@) == raw_facts(p.streams),
            },
        },
{
    let p = match parsed {
        Err(detail) => {
            let mut e = owned("unreadable ffprobe JSON: ");
            crate::text::push_str(&mut e, detail.as_str());
            return Err(e);
        },
        Ok(p) => p,
    };
    let f = match &p.format {
        None => return Err(owned("the file carries no metadata")),
        Some(f) => f,
    };
    let name = text_or_default(&f.format_name, "?");
    let container = container_name(name.as_str());
    let mut streams: Vec<ProbeStream> = Vec::new();
    match &p.streams {
        Some(raw) => {
            let mut i: usize = 0;
            while i < raw.len()
                invariant
                    i <= raw.len(),
                    stream_facts(streams@) == raw@.take(i as int).map_values(
                        |r: RawStream| facts_of(r),
                    ),
                decreases raw.len() - i,
            {
                streams.push(stream_of(&raw[i]));
                assert(raw@.take(i + 1).map_values(|r: RawStream| facts_of(r))
                    =~= raw@.take(i as int).map_values(|r: RawStream| facts_of(r)).push(
                    facts_of(raw@[i as int]),
                ));
                assert(stream_facts(streams@) =~= raw@.take(i + 1).map_values(
                    |r: RawStream| facts_of(r),
                ));
                i += 1;
            }
            assert(raw@.take(raw.len() as int) =~= raw@);
        },
        None => {
            assert(stream_facts(streams@) =~= Seq::<StreamFacts>::empty());
        },
    }
    Ok(Probe { container, streams })
}


/// Law: every field that ffprobe's report carries reaches the decisions
/// unchanged (numbers, kind, codec, pixel format, profile, layout, sample
/// rate, language, title); only a missing field takes its default.
pub proof fn law_present_fields_carried(r: RawStream)
    ensures
        r.index matches Some(v) ==> facts_of(r).index == v,
        r.width matches Some(v) ==> facts_of(r).width == v,
        r.height matches Some(v) ==> facts_of(r).height == v,
        r.level matches Some(v) ==> facts_of(r).level == v,
        r.channels matches Some(v) ==> facts_of(r).channels == v,
        r.codec_type matches Some(t) ==> facts_of(r).kind == t@,
        r.codec_name matches Some(t) ==> facts_of(r).codec == t@,
        r.pix_fmt matches Some(t) ==> facts_of(r).pix_fmt == t@,
        r.profile matches Some(t) ==> facts_of(r).profile == t@,
        r.channel_layout matches Some(t) ==> facts_of(r).channel_layout == t@,
        r.sample_rate_khz matches Some(t) ==> facts_of(r).sample_rate_khz == t@,
        r.tags is Some && r.tags->0.language is Some ==> facts_of(r).lang
            == r.tags->0.language->0@,
        r.tags is Some && r.tags->0.title is Some ==> facts_of(r).title == r.tags->0.title->0@,
        r.index is None ==> facts_of(r).index == 0,
        r.level is None ==> facts_of(r).level == 0,
        r.channels is None ==> facts_of(r).channels == 2,
{
}

/// Law: reading a report keeps every stream, in order, each with the fields
/// it carries.
pub proof fn law_streams_carried(streams: Vec<RawStream>, i: int)
    requires
        0 <= i < streams.len(),
    ensures
        raw_facts(Some(streams)).len() == streams.len(),
        raw_facts(Some(streams))[i] == facts_of(streams@[i]),
        streams@[i].level matches Some(v) ==> raw_facts(Some(streams))[i].level == v,
{
    law_present_fields_carried(streams@[i]);
}

} // verus!
