use carta::probe::{read_probe, RawFormat, RawProbe, RawStream, RawTags};

fn bare() -> RawStream {
    RawStream {
        index: None,
        codec_type: None,
        codec_name: None,
        width: None,
        height: None,
        pix_fmt: None,
        profile: None,
        level: None,
        channels: None,
        channel_layout: None,
        sample_rate_khz: None,
        tags: None,
    }
}

#[test]
fn output_that_is_not_json_is_refused_with_the_parser_words() {
    let r = read_probe(Err("expected value at line 1 column 1".to_string()));
    assert_eq!(r.err().unwrap(), "unreadable ffprobe JSON: expected value at line 1 column 1");
}

#[test]
fn a_report_without_format_carries_no_metadata() {
    let r = read_probe(Ok(RawProbe { format: None, streams: Some(vec![bare()]) }));
    assert_eq!(r.err().unwrap(), "the file carries no metadata");
}

#[test]
fn missing_fields_take_their_defaults() {
    let r = read_probe(Ok(RawProbe {
        format: Some(RawFormat { format_name: None }),
        streams: Some(vec![bare()]),
    }))
    .ok()
    .unwrap();
    assert_eq!(r.container, "?");
    let s = &r.streams[0];
    assert_eq!((s.index, s.kind.as_str(), s.codec.as_str()), (0, "", "?"));
    assert_eq!((s.width, s.height, s.level, s.channels), (0, 0, 0, 2));
    assert_eq!(s.sample_rate_khz, "0");
    assert_eq!((s.pix_fmt.as_str(), s.profile.as_str(), s.lang.as_str(), s.title.as_str()), ("", "", "", ""));
}

#[test]
fn present_fields_are_carried_over() {
    let mut a = bare();
    a.index = Some(1);
    a.codec_type = Some("audio".into());
    a.codec_name = Some("dts".into());
    a.channels = Some(6);
    a.sample_rate_khz = Some("48".into());
    a.tags = Some(RawTags { language: Some("spa".into()), title: None });
    let r = read_probe(Ok(RawProbe {
        format: Some(RawFormat { format_name: Some("matroska,webm".into()) }),
        streams: Some(vec![a]),
    }))
    .ok()
    .unwrap();
    assert_eq!(r.container, "matroska");
    let s = &r.streams[0];
    assert_eq!((s.index, s.kind.as_str(), s.codec.as_str(), s.channels), (1, "audio", "dts", 6));
    assert_eq!((s.lang.as_str(), s.title.as_str(), s.sample_rate_khz.as_str()), ("spa", "", "48"));
}

#[test]
fn no_streams_array_means_no_streams() {
    let r = read_probe(Ok(RawProbe { format: Some(RawFormat { format_name: Some("mov,mp4".into()) }), streams: None }))
        .ok()
        .unwrap();
    assert_eq!(r.container, "mov");
    assert!(r.streams.is_empty());
}
