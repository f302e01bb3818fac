use carta::naming::{file_name_or, output_for, safe_output_name, subtitle_target};

#[test]
fn a_typed_name_cannot_escape_the_folder() {
    assert_eq!(safe_output_name("../../etc/passwd").unwrap(), "passwd.mp4");
    assert_eq!(safe_output_name("/tmp/evil.mp4").unwrap(), "evil.mp4");
}

#[test]
fn a_typed_name_always_ends_in_mp4() {
    assert_eq!(safe_output_name("Toy Story 5").unwrap(), "Toy Story 5.mp4");
    assert_eq!(safe_output_name("Toy Story 5.mp4").unwrap(), "Toy Story 5.mp4");
    assert_eq!(safe_output_name("Toy Story 5.MP4").unwrap(), "Toy Story 5.MP4");
}

#[test]
fn an_empty_typed_name_falls_back() {
    assert!(safe_output_name("   ").is_none());
    assert!(safe_output_name("..").is_none());
}

#[test]
fn a_typed_name_is_trimmed_inside_and_out() {
    assert_eq!(safe_output_name("  dir/ Movie \t").unwrap(), "Movie.mp4");
    assert_eq!(safe_output_name("dir/.").unwrap(), "dir.mp4");
    assert!(safe_output_name("a/..").is_none());
}

#[test]
fn a_typed_name_never_holds_a_slash() {
    for typed in ["a/b/c", "/", "x/", "../x.MP4", "  /etc/ "] {
        if let Some(n) = safe_output_name(typed) {
            assert!(!n.contains('/'));
            assert!(n.ends_with(".mp4") || n.to_lowercase().ends_with(".mp4"));
        }
    }
}

#[test]
fn the_output_sits_next_to_the_original() {
    assert_eq!(output_for("/films/Movie.mkv", None, 1), "/films/Movie.mp4");
    assert_eq!(output_for("/films/Movie.mkv", None, 0), "/films/Movie.mp4");
    assert_eq!(output_for("Movie.mkv", None, 1), "Movie.mp4");
}

#[test]
fn a_taken_name_gets_a_number() {
    assert_eq!(output_for("/films/Movie.mp4", None, 2), "/films/Movie (2).mp4");
    assert_eq!(output_for("/films/Movie.mp4", None, 12), "/films/Movie (12).mp4");
}

#[test]
fn a_typed_name_takes_over_and_stays_in_the_folder() {
    assert_eq!(output_for("/films/Movie.mkv", Some("../Other"), 1), "/films/Other.mp4");
    assert_eq!(output_for("/films/Movie.mkv", Some("Other.MP4"), 3), "/films/Other (3).mp4");
    assert_eq!(output_for("/films/Movie.mkv", Some("   "), 1), "/films/Movie.mp4");
}

#[test]
fn subtitles_follow_the_mp4_name() {
    assert_eq!(subtitle_target("/films/Movie.mp4", "eng", true, 1), "/films/Movie.srt");
    assert_eq!(subtitle_target("/films/Movie.mp4", "spa", false, 1), "/films/Movie.spa.srt");
    assert_eq!(subtitle_target("/films/Movie.tv.mp4", "eng", false, 1), "/films/Movie.tv.eng.srt");
}

#[test]
fn a_taken_subtitle_name_gets_a_number() {
    assert_eq!(subtitle_target("/films/Movie.mp4", "eng", true, 2), "/films/Movie.2.srt");
    assert_eq!(subtitle_target("/films/Movie.mp4", "spa", false, 3), "/films/Movie.spa.3.srt");
    // every `.srt` in the name is replaced, as str::replace does
    assert_eq!(subtitle_target("/f/a.srt.mp4", "eng", true, 2), "/f/a.2.srt.2.srt");
}

#[test]
fn file_names_fall_back_when_missing() {
    assert_eq!(file_name_or("/films/Movie.mkv", "x"), "Movie.mkv");
    assert_eq!(file_name_or("/", "output.mp4"), "output.mp4");
}

#[test]
fn a_cleaned_name_cleans_to_itself() {
    for typed in ["../../etc/passwd", "Toy Story 5", "Toy Story 5.MP4", " a/b.mkv ", "x.tar.gz"] {
        let once = safe_output_name(typed).unwrap();
        assert_eq!(safe_output_name(&once).unwrap(), once);
    }
}

#[test]
fn the_output_never_leaves_the_folder() {
    for typed in [Some("../../up"), Some("/abs/x.mp4"), Some("a/b/"), None] {
        for attempt in [1u64, 2, 10] {
            let out = output_for("/films/Movie.mkv", typed, attempt);
            assert!(out.starts_with("/films/"));
            assert!(!out["/films/".len()..].contains('/'));
        }
    }
}

#[test]
fn paths_join_the_way_std_joins_them() {
    assert_eq!(output_for("/films/", None, 1), "/films.mp4");
    assert_eq!(output_for("/a//b.mkv", None, 1), "/a/b.mp4");
    assert_eq!(output_for(".hidden", None, 1), ".hidden.mp4");
    assert_eq!(output_for("/x/a.b.c", None, 2), "/x/a.b (2).mp4");
}

#[test]
fn folders_are_found_the_way_std_finds_them() {
    assert_eq!(output_for("./Movie.mkv", None, 1), "./Movie.mp4");
    assert_eq!(output_for("a/./b.mkv", None, 1), "a/b.mp4");
    assert_eq!(output_for("/x/y/", None, 1), "/x/y.mp4");
    assert_eq!(output_for("..", None, 1), "video.mp4");
    assert_eq!(output_for(".", None, 1), "video.mp4");
    assert_eq!(output_for("/", None, 1), "./video.mp4");
    assert_eq!(output_for("a/b/..", None, 1), "a/b/video.mp4");
    assert_eq!(output_for("///a", None, 1), "/a.mp4");
    assert_eq!(output_for("a//b/.//c.mkv", None, 2), "a//b/c (2).mp4");
}
